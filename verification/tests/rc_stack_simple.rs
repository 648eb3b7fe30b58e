use unlambda::rc_stack_simple::RcStack;

#[test]
fn rc_stack_simple_stuff() {
    let mut a = RcStack::new();
    a.push(1);

    let mut b = RcStack::clone(&a);
    b.push(2);

    assert_eq!(b.pop_clone(), Some(2));
    assert_eq!(b.pop_clone(), Some(1));
    assert_eq!(b.pop_clone(), None);

    assert_eq!(a.pop_clone(), Some(1));
    assert_eq!(a.pop_clone(), None);
}

#[test]
fn rc_stack_simple_drop_is_non_recursive() {
    let mut s = RcStack::new();
    for i in 0..1_000_000 {
        s.push(i);
    }
}

#[test]
fn rc_stack_simple_shared_top_is_not_unwrapped() {
    let mut a = RcStack::new();
    assert!(a.is_empty());
    assert_eq!(a.peek(), None);
    a.push(5);
    let b = a.clone();
    assert_eq!(a.try_pop_unwrap(), None);
    assert_eq!(a.peek(), Some(&5));
    drop(b);
    assert_eq!(a.try_pop_unwrap(), Some(5));
    assert!(a.is_empty());
    assert!(!a.discard_top());
}

#[test]
fn rc_stack_simple_agrees_with_a_vector() {
    let mut handles: Vec<(RcStack<u32>, Vec<u32>)> = vec![(RcStack::new(), Vec::new())];
    let mut seed: u32 = 987;
    for _ in 0..20_000 {
        seed = seed.wrapping_mul(1_103_515_245).wrapping_add(12345);
        let op = (seed >> 16) % 7;
        seed = seed.wrapping_mul(1_103_515_245).wrapping_add(12345);
        let idx = ((seed >> 16) as usize) % handles.len();
        match op {
            0 | 1 => {
                let (s, v) = &mut handles[idx];
                s.push(seed);
                v.push(seed);
            }
            2 => {
                let (s, v) = &handles[idx];
                let copy = (s.clone(), v.clone());
                handles.push(copy);
            }
            3 => {
                if handles.len() > 1 {
                    handles.remove(idx);
                }
            }
            4 => {
                let (s, v) = &handles[idx];
                assert_eq!(s.peek(), v.last());
                assert_eq!(s.is_empty(), v.is_empty());
            }
            5 => {
                let (s, v) = &mut handles[idx];
                assert_eq!(s.pop_clone(), v.pop());
            }
            _ => {
                let (s, v) = &mut handles[idx];
                assert_eq!(s.discard_top(), v.pop().is_some());
            }
        }
    }
}
