use shufflebag::ShuffleBag;

fn drain<T>(bag: &mut ShuffleBag<T>) -> Vec<T> {
    let mut out = Vec::new();
    while let Some(v) = bag.pop() {
        out.push(v);
    }
    out
}

#[test]
fn len_counts_pushes_and_pops() {
    let mut bag: ShuffleBag<i32> = ShuffleBag::new();
    assert_eq!(bag.len(), 0);
    bag.push(1);
    assert_eq!(bag.len(), 1);
    bag.push(1);
    assert_eq!(bag.len(), 2);
    assert!(bag.pop().is_some());
    assert_eq!(bag.len(), 1);
    assert!(bag.pop().is_some());
    assert_eq!(bag.len(), 0);
    assert!(bag.pop().is_none());
    assert_eq!(bag.len(), 0);
    bag.push(5);
    assert_eq!(bag.len(), 1);
}

#[test]
fn is_empty_follows_len() {
    let mut bag: ShuffleBag<i32> = ShuffleBag::new();
    assert!(bag.is_empty());
    bag.push(1);
    assert!(!bag.is_empty());
    assert_eq!(bag.pop(), Some(1));
    assert!(bag.is_empty());
}

#[test]
fn pop_on_fresh_bags_is_none() {
    let mut a: ShuffleBag<i32> = ShuffleBag::new();
    let mut b: ShuffleBag<i32> = ShuffleBag::with_u64(3);
    let mut c: ShuffleBag<i32> = ShuffleBag::with_seed([9u8; 32]);
    let mut d: ShuffleBag<i32> = ShuffleBag::default();
    assert_eq!(a.pop(), None);
    assert_eq!(b.pop(), None);
    assert_eq!(c.pop(), None);
    assert_eq!(d.pop(), None);
    assert!(d.is_empty());
}

#[test]
fn from_array_then_drain() {
    let mut bag: ShuffleBag<i32> = ShuffleBag::from([1, 2, 3]);
    assert_eq!(bag.len(), 3);
    let i = bag.pop();
    let j = bag.pop();
    let k = bag.pop();
    assert!(i.is_some());
    assert!(j.is_some());
    assert!(k.is_some());
    assert_eq!(bag.pop(), None);
    let mut seen = vec![i.unwrap(), j.unwrap(), k.unwrap()];
    seen.sort();
    assert_eq!(seen, vec![1, 2, 3]);
}

#[test]
fn from_empty_array() {
    let mut bag: ShuffleBag<String> = ShuffleBag::from([]);
    assert_eq!(bag.len(), 0);
    assert_eq!(bag.pop(), None);
}

#[test]
fn same_u64_seed_same_first_pop() {
    let mut a: ShuffleBag<i32> = ShuffleBag::with_u64(42);
    a.push(10);
    a.push(20);
    let x = a.pop().unwrap();
    assert!(x == 10 || x == 20);
    let mut b: ShuffleBag<i32> = ShuffleBag::with_u64(42);
    b.push(10);
    b.push(20);
    assert_eq!(b.pop().unwrap(), x);
}

#[test]
fn same_u64_seed_same_order() {
    let mut a: ShuffleBag<u32> = ShuffleBag::with_u64(2024);
    let mut b: ShuffleBag<u32> = ShuffleBag::with_u64(2024);
    for v in 0..200u32 {
        a.push(v);
        b.push(v);
    }
    assert_eq!(drain(&mut a), drain(&mut b));
}

#[test]
fn same_byte_seed_same_order() {
    let mut a: ShuffleBag<u32> = ShuffleBag::with_seed([7u8; 32]);
    let mut b: ShuffleBag<u32> = ShuffleBag::with_seed([7u8; 32]);
    for v in 0..100u32 {
        a.push(v);
        b.push(v);
    }
    assert_eq!(drain(&mut a), drain(&mut b));
}

#[test]
fn different_seeds_shuffle_differently() {
    let mut a: ShuffleBag<u32> = ShuffleBag::with_u64(1);
    let mut b: ShuffleBag<u32> = ShuffleBag::with_u64(2);
    for v in 0..100u32 {
        a.push(v);
        b.push(v);
    }
    assert_ne!(drain(&mut a), drain(&mut b));
}

#[test]
fn pops_are_a_permutation_of_pushes() {
    let mut bag: ShuffleBag<u32> = ShuffleBag::with_u64(99);
    let pushed: Vec<u32> = (0..500u32).map(|v| v * 3 + 1).collect();
    for v in &pushed {
        bag.push(*v);
    }
    assert_eq!(bag.len(), pushed.len());
    let mut popped = drain(&mut bag);
    assert_eq!(popped.len(), pushed.len());
    assert_ne!(popped, pushed);
    popped.sort();
    assert_eq!(popped, pushed);
}

#[test]
fn duplicates_are_kept() {
    let mut bag: ShuffleBag<char> = ShuffleBag::from(['a', 'a', 'b', 'a']);
    assert_eq!(bag.len(), 4);
    let mut out = drain(&mut bag);
    out.sort();
    assert_eq!(out, vec!['a', 'a', 'a', 'b']);
}

#[test]
fn interleaved_push_and_pop() {
    let mut bag: ShuffleBag<i32> = ShuffleBag::with_u64(5);
    bag.push(1);
    bag.push(2);
    let first = bag.pop().unwrap();
    bag.push(3);
    let mut rest = drain(&mut bag);
    rest.push(first);
    rest.sort();
    assert_eq!(rest, vec![1, 2, 3]);
}

#[test]
fn values_without_capabilities() {
    struct Opaque(u8);
    let mut bag: ShuffleBag<Opaque> = ShuffleBag::with_u64(11);
    bag.push(Opaque(4));
    bag.push(Opaque(6));
    let mut total: u32 = 0;
    while let Some(Opaque(v)) = bag.pop() {
        total += v as u32;
    }
    assert_eq!(total, 10);
}

#[test]
fn pop_order_depends_on_positions_not_values() {
    let mut a: ShuffleBag<u32> = ShuffleBag::with_u64(77);
    let mut b: ShuffleBag<String> = ShuffleBag::with_u64(77);
    for v in 0..50u32 {
        a.push(v);
        b.push(format!("item{}", v * 7));
    }
    let first_a = a.pop().unwrap();
    let first_b = b.pop().unwrap();
    assert_eq!(first_b, format!("item{}", first_a * 7));
    a.push(1000);
    b.push(format!("item{}", 7000));
    let rest_a: Vec<String> = drain(&mut a).into_iter().map(|v| format!("item{}", v * 7)).collect();
    assert_eq!(drain(&mut b), rest_a);
}
