use unlambda::rc_stack::RcStack;

#[test]
fn regr1() {
    let mut a = RcStack::new();
    a.push(49);
    let mut b = a.clone();
    a.push(27);
    b.discard_top();
    drop(a);
}

#[test]
fn rc_stack_stuff() {
    let mut a = RcStack::new();
    a.push(10);

    let mut b = RcStack::clone(&a);
    b.push(20);

    // `a` and `b` share the block that holds 10, so `b` could not grow it
    // in place: it started a block of its own on top.
    assert_eq!(a.check(), (1, 1));
    assert_eq!(b.check(), (1, 2));

    assert_eq!(a.pop_clone(), Some(10));
    assert_eq!(a.pop_clone(), None);
    assert_eq!(a.pop_clone(), None);

    assert_eq!(b.pop_clone(), Some(20));
    assert_eq!(b.pop_clone(), Some(10));
    assert_eq!(b.pop_clone(), None);
    assert_eq!(b.pop_clone(), None);
}

#[test]
fn rc_stack_drop_is_non_recursive() {
    let mut s = RcStack::new();
    for i in 0..1_000_000 {
        let mut t = s.clone();
        t.push(42);
        s.push(i);
    }
    assert_eq!(s.check(), (1, 1_000_000));
}

#[test]
fn rc_stack_grows_in_place_when_unshared() {
    let mut s = RcStack::new();
    for i in 0..1000 {
        s.push(i);
    }
    assert_eq!(s.check(), (1000, 1));
    assert_eq!(s.peek(), Some(&999));
    for i in (0..1000).rev() {
        assert_eq!(s.try_pop_unwrap(), Some(i));
    }
    assert!(s.is_empty());
    assert_eq!(s.check(), (0, 0));
    assert_eq!(s.try_pop_unwrap(), None);
    assert!(!s.discard_top());
}

#[test]
fn rc_stack_shared_top_is_not_unwrapped() {
    let mut a = RcStack::new();
    a.push(1);
    a.push(2);
    let b = a.clone();
    assert_eq!(a.try_pop_unwrap(), None);
    assert_eq!(a.peek(), Some(&2));
    assert!(a.discard_top());
    assert_eq!(a.peek(), Some(&1));
    assert_eq!(b.peek(), Some(&2));
    drop(b);
    assert_eq!(a.try_pop_unwrap(), Some(1));
    assert!(a.is_empty());
}

#[test]
fn rc_stack_push_on_one_handle_leaves_the_other() {
    let mut a = RcStack::new();
    a.push(1);
    let mut b = a.clone();
    a.push(2);
    b.push(3);
    assert_eq!(a.pop_clone(), Some(2));
    assert_eq!(b.pop_clone(), Some(3));
    assert_eq!(a.pop_clone(), Some(1));
    assert_eq!(b.pop_clone(), Some(1));
    assert!(a.is_empty() && b.is_empty());
}

#[test]
fn rc_stack_reuses_a_block_after_the_other_owner_left() {
    let mut a = RcStack::new();
    a.push(1);
    a.push(2);
    let mut b = a.clone();
    b.discard_top();
    drop(a);
    // `b` points at 1 and is now the only owner of the block that still
    // holds 2 above it
    b.push(7);
    assert_eq!(b.check(), (2, 1));
    assert_eq!(b.pop_clone(), Some(7));
    assert_eq!(b.pop_clone(), Some(1));
    assert_eq!(b.pop_clone(), None);
}

#[test]
fn rc_stack_agrees_with_a_vector() {
    // a fixed pseudo-random walk over push, pop, clone and drop, checked
    // against plain vectors
    let mut handles: Vec<(RcStack<u32>, Vec<u32>)> = vec![(RcStack::new(), Vec::new())];
    let mut seed: u32 = 12345;
    for _ in 0..20_000 {
        seed = seed.wrapping_mul(1_103_515_245).wrapping_add(12345);
        let op = (seed >> 16) % 8;
        seed = seed.wrapping_mul(1_103_515_245).wrapping_add(12345);
        let idx = ((seed >> 16) as usize) % handles.len();
        match op {
            0 | 1 => {
                let (s, v) = &mut handles[idx];
                s.push(seed);
                v.push(seed);
            }
            2 => {
                let (s, v) = &handles[idx];
                let copy = (s.clone(), v.clone());
                handles.push(copy);
            }
            3 => {
                if handles.len() > 1 {
                    handles.remove(idx);
                }
            }
            4 => {
                let (s, v) = &handles[idx];
                assert_eq!(s.peek(), v.last());
                assert_eq!(s.is_empty(), v.is_empty());
            }
            5 => {
                let (s, v) = &mut handles[idx];
                let got = s.try_pop_unwrap();
                if got.is_some() {
                    assert_eq!(got, v.pop());
                }
            }
            6 => {
                let (s, v) = &mut handles[idx];
                assert_eq!(s.pop_clone(), v.pop());
            }
            _ => {
                let (s, v) = &mut handles[idx];
                assert_eq!(s.discard_top(), v.pop().is_some());
                let (blocks_top, blocks) = s.check();
                assert_eq!(blocks == 0, v.is_empty());
                assert_eq!(blocks_top == 0, v.is_empty());
                assert!(blocks <= v.len());
            }
        }
    }
    for (mut s, mut v) in handles {
        while let Some(x) = v.pop() {
            assert_eq!(s.pop_clone(), Some(x));
        }
        assert!(s.is_empty());
    }
}
