use synacor::teleporter::{fn6049, Cache};

/// The routine written out plainly, for small arguments.
fn plain(r0: u16, r1: u16, r7: u16) -> u16 {
    if r0 == 0 {
        (r1 + 1) % 32768
    } else if r1 == 0 {
        plain(r0 - 1, r7, r7)
    } else {
        plain(r0 - 1, plain(r0, r1 - 1, r7), r7)
    }
}

#[test]
fn base_case_adds_one() {
    let mut cache = Cache::new();
    assert_eq!(fn6049(0, 0, 1, &mut cache), 1);
    assert_eq!(fn6049(0, 41, 1, &mut cache), 42);
    assert_eq!(fn6049(0, 32767, 1, &mut cache), 0);
}

#[test]
fn known_values() {
    let mut cache = Cache::new();
    // with r7 = 1: f(1, n) = n + 2, f(2, n) = 2n + 3
    assert_eq!(fn6049(1, 0, 1, &mut cache), 2);
    assert_eq!(fn6049(1, 5, 1, &mut cache), 7);
    assert_eq!(fn6049(2, 0, 1, &mut cache), 3);
    assert_eq!(fn6049(2, 3, 1, &mut cache), 9);
    assert_eq!(fn6049(3, 0, 1, &mut cache), 5);
    assert_eq!(fn6049(3, 1, 1, &mut cache), 13);
    assert_eq!(fn6049(3, 2, 1, &mut cache), 29);
}

#[test]
fn agrees_with_the_plain_recursion() {
    for r7 in 0..4u16 {
        let mut cache = Cache::new();
        for r0 in 0..3u16 {
            for r1 in 0..6u16 {
                assert_eq!(fn6049(r0, r1, r7, &mut cache), plain(r0, r1, r7));
            }
        }
    }
}

#[test]
fn cache_remembers_what_was_computed() {
    let mut cache = Cache::new();
    assert_eq!(cache.get(1, 0), None);
    let v = fn6049(2, 2, 3, &mut cache);
    assert_eq!(v, plain(2, 2, 3));
    // f(2, 2) asks for f(2, 1), which is kept
    assert_eq!(cache.get(2, 1), Some(plain(2, 1, 3)));
    assert_eq!(fn6049(2, 2, 3, &mut cache), v);
    cache.insert(9, 9, 77);
    assert_eq!(cache.get(9, 9), Some(77));
    assert_eq!(cache.get(9, 8), None);
}
