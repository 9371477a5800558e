use shufflebag::heap::{heap_pop, heap_push};

#[test]
fn heap_pops_in_descending_priority() {
    let mut v: Vec<(&str, u64)> = Vec::new();
    let input = [("c", 30), ("a", 10), ("e", 50), ("b", 20), ("f", 60), ("d", 40), ("g", 5)];
    for pair in input {
        heap_push(&mut v, pair);
    }
    assert_eq!(v.len(), 7);
    let mut out = Vec::new();
    while let Some((name, _)) = heap_pop(&mut v) {
        out.push(name);
    }
    assert_eq!(out, vec!["f", "e", "d", "c", "b", "a", "g"]);
    assert!(v.is_empty());
}

#[test]
fn heap_pop_on_empty_is_none() {
    let mut v: Vec<(u8, u64)> = Vec::new();
    assert_eq!(heap_pop(&mut v), None);
    assert!(v.is_empty());
}

#[test]
fn heap_keeps_equal_priorities() {
    let mut v: Vec<(u8, u64)> = Vec::new();
    heap_push(&mut v, (1, 7));
    heap_push(&mut v, (2, 7));
    heap_push(&mut v, (3, 9));
    assert_eq!(heap_pop(&mut v), Some((3, 9)));
    let mut rest = vec![heap_pop(&mut v).unwrap().0, heap_pop(&mut v).unwrap().0];
    rest.sort();
    assert_eq!(rest, vec![1, 2]);
    assert_eq!(heap_pop(&mut v), None);
}
