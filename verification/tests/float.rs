//! Binary floating point against the host's.

use m1_eval::decimal::{parse_double, parse_integer, parse_seven_places, parse_single};
use m1_eval::float::binary32::F32;
use m1_eval::float::binary64::F64;

fn single(x: f32) -> F32 {
    F32::from_bits(x.to_bits())
}

fn double(x: f64) -> F64 {
    F64::from_bits(x.to_bits())
}

/// Whether a result is the host's; every NaN stands for the quiet one.
fn same_single(ours: F32, host: f32) -> bool {
    if host.is_nan() {
        ours.is_nan()
    } else {
        ours.to_bits() == host.to_bits()
    }
}

fn same_double(ours: F64, host: f64) -> bool {
    if host.is_nan() {
        ours.is_nan()
    } else {
        ours.to_bits() == host.to_bits()
    }
}

/// A generator of bit patterns.
struct Patterns(u64);

impl Patterns {
    fn next(&mut self) -> u64 {
        self.0 = self.0.wrapping_mul(6_364_136_223_846_793_005).wrapping_add(1_442_695_040_888_963_407);
        self.0 ^ (self.0 >> 29)
    }

    /// A number of any size, with the edges among them.
    fn single(&mut self) -> f32 {
        let edges = [0.0, -0.0, 1.0, f32::MAX, f32::MIN_POSITIVE, f32::INFINITY, f32::NAN, 0.5];
        let n = self.next();
        match n % 11 {
            0 => edges[(n >> 32) as usize % edges.len()],
            1 => ((n >> 32) as i32 % 1000) as f32,
            2 => f32::from_bits((n >> 32) as u32 % 0x0100_0000),
            _ => f32::from_bits((n >> 32) as u32),
        }
    }

    fn double(&mut self) -> f64 {
        let edges = [0.0, -0.0, 1.0, f64::MAX, f64::MIN_POSITIVE, f64::INFINITY, f64::NAN, 0.5];
        let n = self.next();
        match n % 11 {
            0 => edges[(n >> 32) as usize % edges.len()],
            1 => ((n >> 32) as i32 % 1000) as f64,
            2 => f64::from(f32::from_bits((n >> 32) as u32)),
            _ => f64::from_bits(self.next()),
        }
    }
}

#[test]
fn single_arithmetic_is_that_of_the_host() {
    let mut p = Patterns(1);
    for _ in 0..20_000 {
        let (a, b) = (p.single(), p.single());
        let (x, y) = (single(a), single(b));
        assert!(same_single(x.plus(y), a + b), "{a:?} + {b:?}");
        assert!(same_single(x.minus(y), a - b), "{a:?} - {b:?}");
        assert!(same_single(x.times(y), a * b), "{a:?} * {b:?}");
        assert!(same_single(x.over(y), a / b), "{a:?} / {b:?}");
        assert!(same_single(x.modulo(y), a % b), "{a:?} % {b:?}");
        assert!(same_single(x.sqrt(), a.sqrt()), "sqrt {a:?}");
        assert!(same_single(x.floor(), a.floor()), "floor {a:?}");
        assert!(same_single(x.ceil(), a.ceil()), "ceil {a:?}");
        assert_eq!(x.less(y), a < b);
        assert_eq!(x.equals(y), a == b);
        assert_eq!(x.at_most(y), a <= b);
        assert!(same_double(x.widen(), f64::from(a)), "widen {a:?}");
        if !a.is_nan() {
            let rounded = x.round_within(i64::from(i32::MIN), i64::from(i32::MAX));
            assert_eq!(rounded, i64::from(a.round() as i32), "round {a:?}");
        }
    }
}

#[test]
fn double_arithmetic_is_that_of_the_host() {
    let mut p = Patterns(2);
    for _ in 0..20_000 {
        let (a, b) = (p.double(), p.double());
        let (x, y) = (double(a), double(b));
        assert!(same_double(x.plus(y), a + b), "{a:?} + {b:?}");
        assert!(same_double(x.minus(y), a - b), "{a:?} - {b:?}");
        assert!(same_double(x.times(y), a * b), "{a:?} * {b:?}");
        assert!(same_double(x.over(y), a / b), "{a:?} / {b:?}");
        assert!(same_single(x.narrow(), a as f32), "narrow {a:?}");
        assert_eq!(x.less(y), a < b);
        assert_eq!(x.at_most(y), a <= b);
    }
}

#[test]
fn integers_convert_as_on_the_host() {
    let mut p = Patterns(3);
    for _ in 0..5_000 {
        let n = p.next();
        assert!(same_double(F64::from_u64(n), n as f64), "{n}");
        assert!(same_double(F64::from_i64(n as i64), n as i64 as f64), "{n}");
        assert!(same_single(F32::from_i32(n as i32), n as i32 as f32), "{n}");
        assert!(same_single(F32::from_u32(n as u32), n as u32 as f32), "{n}");
    }
    assert_eq!(double(2.5).whole_within(true, -10, 10), Some(3));
    assert_eq!(double(-2.5).whole_within(true, -10, 10), Some(-2));
    assert_eq!(double(2.5).whole_within(false, -10, 10), Some(2));
    assert_eq!(double(11.0).whole_within(false, -10, 10), None);
}

#[test]
fn neighbours_follow_each_other() {
    assert_eq!(single(1.0).next_up().to_bits(), 1.0_f32.to_bits() + 1);
    assert_eq!(single(1.0).next_down().to_bits(), 1.0_f32.to_bits() - 1);
    assert_eq!(single(-1.0).next_up().to_bits(), (-1.0_f32).to_bits() - 1);
    assert_eq!(single(0.0).next_up().to_bits(), 1);
}

#[test]
fn decimals_parse_as_on_the_host() {
    for text in [
        "0", "-0", "1", "+1.5", ".5", "5.", "1e10", "1E-10", "3.67013192176818850e+000",
        "2.00000002980232240e-001", "16777217", "16777219", "1e39", "1e-46", "1e-45", "7e-46",
        "340282356779733661637539395458142568447.9", "179769313486231580793e289", "4.9e-324",
        "2.4703282292062327e-324", "2.4703282292062328e-324", "1e400", "0.1", "0.30000000000000004",
        "123456789012345678901234567890", "inf", "-Infinity", "NaN",
    ] {
        let f: f32 = text.parse().unwrap();
        let d: f64 = text.parse().unwrap();
        assert!(same_single(parse_single(text).unwrap(), f), "{text}");
        assert!(same_double(parse_double(text).unwrap(), d), "{text}");
    }
    for text in ["", "+", ".", "e5", "1e", "1e+", "1 ", " 1", "0x10", "1_000", "--1", "1.2.3", "infin"] {
        assert!(text.parse::<f64>().is_err());
        assert_eq!(parse_single(text), None, "{text:?}");
        assert_eq!(parse_double(text), None, "{text:?}");
    }
    let mut p = Patterns(4);
    for _ in 0..200 {
        let x = p.double();
        if x.is_finite() {
            let text = format!("{x:e}");
            assert!(same_double(parse_double(&text).unwrap(), x), "{text}");
        }
    }
}

#[test]
fn whole_and_fixed_literals_keep_their_range() {
    assert_eq!(parse_integer("-128", -128, 127), Some(-128));
    assert_eq!(parse_integer("128", -128, 127), None);
    assert_eq!(parse_integer("+7", 0, 255), Some(7));
    assert_eq!(parse_integer("7.0", 0, 255), None);
    assert_eq!(parse_seven_places("1.2345678"), Some(12_345_678));
    assert_eq!(parse_seven_places("-0.5"), Some(-5_000_000));
    assert_eq!(parse_seven_places("1.23456789"), None);
}
