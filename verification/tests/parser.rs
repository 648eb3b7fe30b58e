use unlambda::parser::{parse, parse_str, ParseError};

#[test]
fn errors() {
    assert_eq!(parse_str("").unwrap_err(), "unexpected EOF");
    assert_eq!(parse_str("  ").unwrap_err(), "unexpected EOF");
    assert_eq!(parse_str("`k").unwrap_err(), "unexpected EOF");
    assert_eq!(parse_str(".").unwrap_err(), "unexpected EOF after '.'");
    assert_eq!(parse_str("`s?").unwrap_err(), "unexpected EOF after '?'");

    assert_eq!(parse_str("z").unwrap_err(), "unrecognized 'z'");
    assert_eq!(parse_str("`kks").unwrap_err(), "unexpected 's'");
}

#[test]
fn parse_and_to_string() {
    assert_eq!(parse_str("  `r` `kv`. s  ").unwrap().to_string(), "`r``kv`. s");
    assert_eq!(
        parse_str(
            "`k  # comment
                                v"
        )
        .unwrap()
        .to_string(),
        "`kv"
    );

    assert_eq!(
        parse_str(
            "`kv  # comment
                                "
        )
        .unwrap()
        .to_string(),
        "`kv"
    );
    assert_eq!(parse_str("`kv  # comment").unwrap().to_string(), "`kv");
}

#[test]
fn typed_errors() {
    let chars = |s: &str| -> Vec<char> { s.chars().collect() };
    assert_eq!(parse(&chars("")).unwrap_err(), ParseError::UnexpectedEof);
    assert_eq!(parse(&chars("# only a comment")).unwrap_err(), ParseError::UnexpectedEof);
    assert_eq!(parse(&chars("``k.")).unwrap_err(), ParseError::UnexpectedEofAfter('.'));
    assert_eq!(parse(&chars("?")).unwrap_err(), ParseError::UnexpectedEofAfter('?'));
    assert_eq!(parse(&chars("`k\u{e9}")).unwrap_err(), ParseError::Unrecognized('\u{e9}'));
    assert_eq!(parse(&chars("k #c\n `")).unwrap_err(), ParseError::Unexpected('`'));
    assert_eq!(ParseError::Unrecognized('\'').message(), "unrecognized '\\''");
    assert_eq!(ParseError::Unexpected('\t').message(), "unexpected '\\t'");
}

#[test]
fn every_primitive_parses() {
    let text = "`````````````ksivdec.xr@?y|.#?#";
    let program = parse_str(text).unwrap();
    assert_eq!(program.to_string(), text);
    assert_eq!(parse_str(". ").unwrap().to_string(), ". ");
    assert_eq!(parse_str(".\n").unwrap().to_string(), "r");
    assert_eq!(parse_str("?\n").unwrap().to_string(), "?\n");
    assert_eq!(parse_str("\u{a0}k\u{2003}").unwrap().to_string(), "k");
}

#[test]
fn print_then_parse_gives_the_same_tree() {
    for text in ["k", "`.a``ks.b", "  ` r` `kv`. s # end", "``cir", "```s`kdri", "`@`?\n|"] {
        let first = parse_str(text).unwrap();
        let printed = first.to_string();
        let second = parse_str(&printed).unwrap();
        assert_eq!(second.to_string(), printed);
    }
}

#[test]
fn deep_program_parses_without_recursion() {
    let mut text = String::new();
    for _ in 0..1_000_000 {
        text.push('`');
    }
    text.push('k');
    for _ in 0..1_000_000 {
        text.push('i');
    }
    assert!(parse_str(&text).is_ok());
}

#[test]
fn white_space_is_what_unicode_says() {
    let blanks = [
        0x09u32, 0x0a, 0x0b, 0x0c, 0x0d, 0x20, 0x85, 0xa0, 0x1680, 0x2000, 0x2001, 0x2002, 0x2003,
        0x2004, 0x2005, 0x2006, 0x2007, 0x2008, 0x2009, 0x200a, 0x2028, 0x2029, 0x202f, 0x205f,
        0x3000,
    ];
    for n in 0..0x11_0000u32 {
        let Some(c) = char::from_u32(n) else { continue };
        if "`ksivdecr@|.?#".contains(c) {
            continue;
        }
        let text: Vec<char> = vec![c, 'k', c];
        if blanks.contains(&n) {
            assert_eq!(parse(&text).unwrap().to_string(), "k", "{:x}", n);
        } else {
            assert_eq!(parse(&text).unwrap_err(), ParseError::Unrecognized(c), "{:x}", n);
        }
    }
}

#[test]
fn plain_characters_are_quoted_as_they_are() {
    for n in 0x20u32..=0x7e {
        let c = char::from_u32(n).unwrap();
        if c == '\'' || c == '\\' {
            continue;
        }
        assert_eq!(ParseError::Unrecognized(c).message(), format!("unrecognized '{}'", c));
        assert_eq!(ParseError::Unexpected(c).message(), format!("unexpected '{}'", c));
        assert_eq!(
            ParseError::UnexpectedEofAfter(c).message(),
            format!("unexpected EOF after '{}'", c)
        );
    }
    assert_eq!(ParseError::Unexpected('\\').message(), "unexpected '\\\\'");
    assert_eq!(ParseError::UnexpectedEofAfter('\n').message(), "unexpected EOF after '\\n'");
    assert_eq!(parse_str("`k\"").unwrap_err(), "unrecognized '\"'");
    assert_eq!(parse_str("k~").unwrap_err(), "unexpected '~'");
}
