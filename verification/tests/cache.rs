use flow::cache::CachedCell;
use std::cell::Cell;

#[test]
fn same_argument_reuses_the_cache() {
    let calls = Cell::new(0);
    let mut cell: CachedCell<u32> = CachedCell::new();
    let first = cell.get_or_init(7, 20, |x: u32| {
        calls.set(calls.get() + 1);
        x + 1
    });
    let second = cell.get_or_init(7, 20, |x: u32| {
        calls.set(calls.get() + 1);
        x + 1
    });
    assert_eq!((first, second, calls.get()), (21, 21, 1));
}

#[test]
fn new_argument_replaces_the_cache() {
    let calls = Cell::new(0);
    let mut cell: CachedCell<u32> = CachedCell::default();
    let mut run = |hash: u128, x: u32| {
        cell.get_or_init(hash, x, |x: u32| {
            calls.set(calls.get() + 1);
            x * 2
        })
    };
    assert_eq!(run(1, 5), 10);
    assert_eq!(run(2, 6), 12);
    assert_eq!(run(2, 6), 12);
    // Only the latest output is kept.
    assert_eq!(run(1, 5), 10);
    assert_eq!(calls.get(), 3);
}

#[test]
fn copy_keeps_the_cache_and_is_independent() {
    let mut cell: CachedCell<u32> = CachedCell::new();
    let mut empty = cell.clone();
    assert_eq!(empty.get_or_init(3, 1, |x: u32| x), 1);
    assert_eq!(cell.get_or_init(3, 2, |x: u32| x), 2);
    let mut copy = cell.clone();
    assert_eq!(copy.get_or_init(3, 9, |x: u32| x), 2);
    assert_eq!(copy.get_or_init(4, 9, |x: u32| x), 9);
    assert_eq!(cell.get_or_init(3, 9, |x: u32| x), 2);
}
