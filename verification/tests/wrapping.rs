use usertcp::is_between_wrapped;
use usertcp::wrapping_lt;

#[test]
fn wrapping_lt_is_irreflexive() {
    assert!(!wrapping_lt(0, 0));
    assert!(!wrapping_lt(0xFFFF_FFFF, 0xFFFF_FFFF));
    assert!(!wrapping_lt(1000, 1000));
}

#[test]
fn wrapping_lt_orders_close_values() {
    assert!(wrapping_lt(5, 10));
    assert!(!wrapping_lt(10, 5));
    // across the wrap point
    assert!(wrapping_lt(0xFFFF_FFFF, 0));
    assert!(!wrapping_lt(0, 0xFFFF_FFFF));
}

#[test]
fn wrapping_lt_exactly_one_holds_off_antipode() {
    let cases: [(u32, u32); 4] = [(5, 10), (10, 5), (7, 7), (0xFFFF_FFF0, 4)];
    for (a, b) in cases {
        let x = wrapping_lt(a, b);
        let y = wrapping_lt(b, a);
        let e = a == b;
        assert!(x ^ y ^ e, "exactly one of lt/gt/eq must hold for {a}, {b}");
    }
}

#[test]
fn wrapping_lt_antipode_is_incomparable() {
    // at distance exactly 2^31 both comparisons are false
    let a: u32 = 0;
    let b: u32 = 0x8000_0000;
    assert!(!wrapping_lt(a, b));
    assert!(!wrapping_lt(b, a));
}

#[test]
fn between_excludes_both_endpoints() {
    assert!(!is_between_wrapped(7, 7, 100));
    assert!(!is_between_wrapped(7, 100, 100));
    assert!(!is_between_wrapped(0xFFFF_FFFE, 0xFFFF_FFFE, 3));
    assert!(!is_between_wrapped(0xFFFF_FFFE, 3, 3));
    assert!(is_between_wrapped(7, 8, 100));
    assert!(is_between_wrapped(0xFFFF_FFFE, 1, 3));
}
