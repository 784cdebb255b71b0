use orbit::level::Level;
use orbit::rounding::percentage_of;
use orbit::text::{
    chars_of, contains, decimal_of, find_from, occurs_here, parse_unsigned, same, split_on,
};

fn level(value: f64) -> Level {
    Level {
        bits: value.to_bits(),
    }
}

#[test]
fn splitting_takes_separators_from_the_left() {
    assert_eq!(split_on("a__b__c", "__"), vec!["a", "b", "c"]);
    assert_eq!(split_on("a___b", "__"), vec!["a", "_b"]);
    assert_eq!(split_on("", "__"), vec![""]);
    assert_eq!(split_on("__", "__"), vec!["", ""]);
    assert_eq!(split_on("80/tcp", "/"), vec!["80", "tcp"]);
    for s in ["a__b", "____", "x_y__z_", "é__ü"] {
        let expected: Vec<String> = s.split("__").map(|p| p.to_string()).collect();
        assert_eq!(split_on(s, "__"), expected);
    }
}

#[test]
fn searching_finds_the_first_occurrence() {
    let hay = chars_of("abcabc");
    assert_eq!(find_from(&hay, &chars_of("bc"), 0), Some(1));
    assert_eq!(find_from(&hay, &chars_of("bc"), 2), Some(4));
    assert_eq!(find_from(&hay, &chars_of("cb"), 0), None);
    assert_eq!(find_from(&hay, &chars_of(""), 6), Some(6));
    assert!(occurs_here(&hay, &chars_of("ca"), 2));
    assert!(!occurs_here(&hay, &chars_of("ca"), 5));
    assert!(contains("status 404 here", "404"));
    assert!(!contains("status 40", "404"));
    assert!(same("x", "x"));
    assert!(!same("x", "X"));
}

#[test]
fn numerals_are_written_and_read() {
    assert_eq!(decimal_of(0), "0");
    assert_eq!(decimal_of(30080), "30080");
    assert_eq!(decimal_of(u128::MAX), u128::MAX.to_string());
    assert_eq!(parse_unsigned("255", 255), Some(255));
    assert_eq!(parse_unsigned("256", 255), None);
    assert_eq!(parse_unsigned("+7", 255), Some(7));
    assert_eq!(parse_unsigned("007", 255), Some(7));
    for s in ["", "+", "-1", " 1", "1 ", "1a", "++1", "99999999999999999999999"] {
        assert_eq!(parse_unsigned(s, u64::MAX), None, "{}", s);
        assert!(s.parse::<u64>().is_err());
    }
    for n in [0u64, 9, 10, 65535, u64::MAX] {
        assert_eq!(parse_unsigned(&decimal_of(n as u128), u64::MAX), Some(n));
    }
}

#[test]
fn levels_compare_like_doubles() {
    let values = [
        0.0,
        -0.0,
        1.0,
        -1.0,
        5.0,
        4.999999999999999,
        75.0,
        1e-310,
        -1e-310,
        f64::MAX,
        f64::MIN,
        f64::INFINITY,
        f64::NEG_INFINITY,
        f64::NAN,
    ];
    for a in values {
        for b in values {
            assert_eq!(level(a).exceeds(&level(b)), a > b, "{} > {}", a, b);
            assert_eq!(level(a).reaches(&level(b)), a >= b, "{} >= {}", a, b);
        }
        assert_eq!(level(a).is_nan(), a.is_nan());
    }
}

#[test]
fn whole_levels_are_the_doubles_of_whole_numbers() {
    for n in 0..=255u8 {
        assert_eq!(Level::whole(n).bits, (n as f64).to_bits(), "{}", n);
    }
    assert_eq!(Level::zero(), Level::whole(0));
    assert!(Level::whole(80).exceeds(&Level::whole(79)));
    assert!(!Level::whole(80).exceeds(&Level::whole(80)));
}

#[test]
fn the_greater_level_wins_and_no_number_gives_way() {
    assert_eq!(level(1.0).max_with(&level(2.0)), level(2.0));
    assert_eq!(level(2.0).max_with(&level(1.0)), level(2.0));
    assert_eq!(level(f64::NAN).max_with(&level(-3.0)), level(-3.0));
    assert_eq!(level(-3.0).max_with(&level(f64::NAN)), level(-3.0));
}

#[test]
fn percentages_are_those_of_doubles() {
    let numbers = [
        0,
        1,
        2,
        3,
        5,
        7,
        10,
        29,
        58,
        99,
        100,
        101,
        1000,
        52_428_800,
        268_435_456,
        4_294_967_295,
        (1 << 53) - 1,
        1 << 53,
        (1 << 53) + 1,
        (1 << 53) + 3,
        6_148_914_691_236_517_205,
        (1 << 63) + 1025,
        u64::MAX - 1024,
        u64::MAX,
    ];
    let mut seed: u64 = 88172645463325252;
    let mut next = || {
        seed ^= seed << 13;
        seed ^= seed >> 7;
        seed ^= seed << 17;
        seed
    };
    let check = |part: u64, whole: u64| {
        let expected = if whole > 0 {
            part as f64 / whole as f64 * 100.0
        } else {
            0.0
        };
        assert_eq!(percentage_of(part, whole), level(expected), "{} of {}", part, whole);
    };
    for part in numbers {
        for whole in numbers {
            check(part, whole);
        }
    }
    for _ in 0..20_000 {
        let (a, b, shift) = (next(), next(), next());
        check(a >> (shift % 64), b >> (shift / 64 % 64));
        check(a % 1000, b % 1000);
    }
    assert!(percentage_of(7, 100).exceeds(&Level::whole(7)));
    assert_eq!(percentage_of(1, 2), Level::whole(50));
}
