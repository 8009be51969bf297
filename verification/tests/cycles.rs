use pathgame::cyclic::{add_mod_u32, sub_mod_u32, wide_mul};

#[test]
fn add_wraps_round() {
    assert_eq!(add_mod_u32(3, 2, 4), 1);
    assert_eq!(add_mod_u32(1, 2, 4), 3);
    assert_eq!(add_mod_u32(0, 0, 1), 0);
    assert_eq!(add_mod_u32(u32::MAX - 1, u32::MAX - 1, u32::MAX), u32::MAX - 2);
}

#[test]
fn sub_wraps_round() {
    assert_eq!(sub_mod_u32(1, 2, 4), 3);
    assert_eq!(sub_mod_u32(3, 2, 4), 1);
    assert_eq!(sub_mod_u32(0, u32::MAX - 1, u32::MAX), 1);
}

#[test]
fn add_and_sub_cancel() {
    for n in 1..7u32 {
        for a in 0..n {
            for s in 0..n {
                assert_eq!(sub_mod_u32(add_mod_u32(a, s, n), s, n), a);
                assert_eq!(add_mod_u32(sub_mod_u32(a, s, n), s, n), a);
            }
        }
    }
}

#[test]
fn wide_mul_does_not_overflow() {
    assert_eq!(wide_mul(u32::MAX, u32::MAX), 18446744065119617025);
    assert_eq!(wide_mul(0, 5), 0);
    assert_eq!(wide_mul(6, 7), 42);
}
