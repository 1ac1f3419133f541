use chord::ring::{address_position, finger_target, hash, is_between};

fn reference_between(x: u128, lo: u128, hi: u128, lo_inc: bool, hi_inc: bool) -> bool {
    if lo_inc && x == lo {
        return true;
    }
    if hi_inc && x == hi {
        return true;
    }
    let d = x.wrapping_sub(lo);
    let span = hi.wrapping_sub(lo);
    if lo == hi {
        x != lo
    } else {
        d > 0 && d < span
    }
}

#[test]
fn is_between_matches_modular_definition_near_both_ends() {
    let mut points: Vec<u128> = (0u128..6).collect();
    points.extend((0u128..6).map(|k| u128::MAX - k));
    for &x in &points {
        for &lo in &points {
            for &hi in &points {
                for flags in 0..4 {
                    let lo_inc = flags & 1 == 1;
                    let hi_inc = flags & 2 == 2;
                    assert_eq!(
                        is_between(x, lo, hi, lo_inc, hi_inc),
                        reference_between(x, lo, hi, lo_inc, hi_inc),
                        "x={} lo={} hi={} flags={}",
                        x,
                        lo,
                        hi,
                        flags
                    );
                }
            }
        }
    }
}

#[test]
fn is_between_plain_arc() {
    assert!(is_between(5, 3, 9, false, false));
    assert!(!is_between(3, 3, 9, false, false));
    assert!(is_between(3, 3, 9, true, false));
    assert!(!is_between(9, 3, 9, false, false));
    assert!(is_between(9, 3, 9, false, true));
    assert!(!is_between(10, 3, 9, true, true));
}

#[test]
fn is_between_wrapping_arc() {
    assert!(is_between(u128::MAX, 100, 5, false, false));
    assert!(is_between(0, 100, 5, false, false));
    assert!(is_between(2, 100, 5, false, false));
    assert!(!is_between(50, 100, 5, false, false));
    assert!(is_between(5, 100, 5, false, true));
}

#[test]
fn is_between_equal_endpoints_is_whole_ring() {
    assert!(is_between(1, 7, 7, false, false));
    assert!(is_between(u128::MAX, 7, 7, false, false));
    assert!(!is_between(7, 7, 7, false, false));
    assert!(is_between(7, 7, 7, true, false));
    assert!(is_between(7, 7, 7, false, true));
}

#[test]
fn hash_known_values() {
    assert_eq!(hash(b""), 0x6c62272e07bb014262b821756295c58d);
    assert_eq!(hash(b"a"), 0xd228cb696f1a8caf78912b704e4a8964);
    assert_eq!(hash(b"foobar"), 0x343e1662793c64bf6f0d3597ba446f18);
}

#[test]
fn address_position_hashes_utf8_bytes() {
    let a = String::from("127.0.0.1:6001");
    assert_eq!(address_position(&a), 0xb3248f6ead31745533cc501a0310c99d);
    assert_eq!(address_position(&a), hash(a.as_bytes()));
}

#[test]
fn finger_target_adds_power_of_two_modulo_ring() {
    assert_eq!(finger_target(0, 0), 1);
    assert_eq!(finger_target(10, 3), 18);
    assert_eq!(finger_target(0, 127), 1u128 << 127);
    assert_eq!(finger_target(u128::MAX, 0), 0);
    assert_eq!(finger_target(u128::MAX - 1, 1), 0);
    assert_eq!(finger_target(1u128 << 127, 127), 0);
}
