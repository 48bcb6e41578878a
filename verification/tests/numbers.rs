use puzzles::euclid::{gcd, lcm};

#[test]
fn test_gcd() {
    assert_eq!(gcd(8, 12), 4);
    assert_eq!(gcd(12, 8), 4);
    assert_eq!(gcd(1, 3), 1);
    assert_eq!(gcd(20, 4), 4);
    assert_eq!(gcd(11, 11), 11);
}

#[test]
fn test_lcm() {
    assert_eq!(lcm(8, 12), 24);
    assert_eq!(lcm(12, 8), 24);
    assert_eq!(lcm(1, 3), 3);
    assert_eq!(lcm(20, 4), 20);
    assert_eq!(lcm(11, 11), 11);
    assert_eq!(lcm(5, 7), 35);
}

// The least common multiple is a common multiple of both arguments.
#[test]
fn lcm_is_common_multiple() {
    let pairs = vec![(8i64, 12i64), (1, 3), (20, 4), (11, 11), (5, 7), (6, 10), (9, 28)];
    for (a, b) in pairs {
        let l = lcm(a, b);
        assert_eq!(l % a, 0);
        assert_eq!(l % b, 0);
        // minimality: no smaller positive common multiple exists
        let mut m = 1i64;
        while m < l {
            assert!(!(m % a == 0 && m % b == 0));
            m += 1;
        }
    }
}
