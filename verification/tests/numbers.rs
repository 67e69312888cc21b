use ecg_ingest::binary64::Binary64;
use ecg_ingest::config::{parse_usize, Config};
use ecg_ingest::text::{labelled_number, push_decimal};

fn wrap(x: f64) -> Binary64 {
    Binary64::from_bits(x.to_bits())
}

fn probes() -> Vec<f64> {
    let mut v = vec![
        0.0,
        -0.0,
        f64::from_bits(1),
        -f64::from_bits(1),
        f64::from_bits(0x000f_ffff_ffff_ffff),
        f64::MIN_POSITIVE,
        -f64::MIN_POSITIVE,
        1.0e-300,
        0.004,
        0.5,
        1.0,
        -1.0,
        1.0 + f64::EPSILON,
        1.9999999999999998,
        2.0,
        2.0000000000000004,
        -2.0,
        20.0,
        250.0,
        1.0e300,
        f64::MAX,
        f64::MIN,
        f64::INFINITY,
        f64::NEG_INFINITY,
        f64::NAN,
        -f64::NAN,
        f64::from_bits(0x7ff0_0000_0000_0001),
        f64::from_bits(0xfff8_0000_0000_0000),
    ];
    let mut x = 0x9e37_79b9_7f4a_7c15u64;
    for _ in 0..200 {
        x ^= x << 13;
        x ^= x >> 7;
        x ^= x << 17;
        v.push(f64::from_bits(x));
    }
    v
}

#[test]
fn finiteness_agrees_with_the_hardware() {
    for x in probes() {
        assert_eq!(wrap(x).is_finite(), x.is_finite(), "{:e}", x);
        assert_eq!(wrap(x).is_nan(), x.is_nan(), "{:e}", x);
    }
}

#[test]
fn order_agrees_with_the_hardware() {
    let v = probes();
    for &a in v.iter() {
        for &b in v.iter() {
            assert_eq!(wrap(a).le(&wrap(b)), a <= b, "{:e} <= {:e}", a, b);
            assert_eq!(wrap(a).lt(&wrap(b)), a < b, "{:e} < {:e}", a, b);
        }
    }
}

#[test]
fn both_zeros_are_equal_in_order() {
    assert!(wrap(0.0).le(&wrap(-0.0)));
    assert!(wrap(-0.0).le(&wrap(0.0)));
    assert!(!wrap(-0.0).lt(&wrap(0.0)));
    assert!(!wrap(0.0).lt(&wrap(-0.0)));
}

#[test]
fn nan_is_in_no_order() {
    assert!(!wrap(f64::NAN).le(&wrap(f64::NAN)));
    assert!(!wrap(f64::NAN).le(&wrap(1.0)));
    assert!(!wrap(1.0).lt(&wrap(f64::NAN)));
}

#[test]
fn encoding_is_kept() {
    assert_eq!(Binary64::from_bits(0x4000_0000_0000_0000).to_bits(), 2.0f64.to_bits());
    assert_eq!(wrap(-1.5).to_bits(), 0xbff8_0000_0000_0000);
}

#[test]
fn numerals() {
    assert_eq!(labelled_number("", 0), "0");
    assert_eq!(labelled_number("", 7), "7");
    assert_eq!(labelled_number("", 10), "10");
    assert_eq!(labelled_number("n=", 1234567890), "n=1234567890");
    assert_eq!(labelled_number("", u64::MAX), "18446744073709551615");
    for n in [0u64, 9, 99, 100, 101, 2000, 2500, 65535, 1 << 40] {
        assert_eq!(labelled_number("", n), n.to_string());
    }
    let mut s = String::from("a");
    push_decimal(&mut s, 305);
    push_decimal(&mut s, 0);
    assert_eq!(s, "a3050");
}

#[test]
fn counts_are_read_as_the_standard_library_reads_them() {
    let texts = [
        "", "0", "7", "007", "2000", "+5", "+", "-", "-5", "-0", "++5", "+-5", "5+", " 5", "5 ",
        "1_000", "0x10", "1e3", "12a", "a12", "٣", "１２", "+٣", "18446744073709551615",
        "18446744073709551616", "99999999999999999999999", "4294967295", "4294967296",
        "000000000000000000000000000001", "+000", "2.5",
    ];
    for t in texts {
        assert_eq!(parse_usize(t), t.parse::<usize>().ok(), "{:?}", t);
    }
    assert_eq!(parse_usize("2500"), Some(2500));
    assert_eq!(parse_usize("+17"), Some(17));
    assert_eq!(parse_usize("seventeen"), None);
}

#[test]
fn configuration_defaults() {
    let c = Config::from_env(None, None);
    assert_eq!(c.bind_addr, "127.0.0.1:50051");
    assert_eq!(c.max_batch_samples, 2000);
}

#[test]
fn configuration_takes_what_is_set() {
    let c = Config::from_env(Some("0.0.0.0:9000".to_string()), Some("500".to_string()));
    assert_eq!(c.bind_addr, "0.0.0.0:9000");
    assert_eq!(c.max_batch_samples, 500);
}

#[test]
fn configuration_falls_back_when_the_limit_is_no_count() {
    for bad in ["", "lots", "-1", "1.5", "99999999999999999999999"] {
        let c = Config::from_env(None, Some(bad.to_string()));
        assert_eq!(c.max_batch_samples, 2000, "{:?}", bad);
    }
    let c = Config::from_env(Some(String::new()), Some("0".to_string()));
    assert_eq!(c.bind_addr, "");
    assert_eq!(c.max_batch_samples, 0);
}
