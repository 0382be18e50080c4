//! The stateful operators.

use m1_eval::builtins::scalars::{scalar_change_order, scalar_equal, scalar_order, Order};
use m1_eval::builtins::stateful::{call, timer};
use m1_eval::env::{CallSite, Env, OpState, StateStore};
use m1_eval::error::EvalError;
use m1_eval::float::binary32::F32;
use m1_eval::float::binary64::F64;
use m1_eval::value::{FixedPoint7dps, M1Scalar, Value};

/// The binary64 number that the host writes as given.
fn double(x: f64) -> F64 {
    F64::from_bits(x.to_bits())
}

/// The binary32 number that the host writes as given.
fn single(x: f32) -> F32 {
    F32::from_bits(x.to_bits())
}

/// Owns the state so that one operator can be driven tick by tick at a fixed call site.
struct Harness {
    state: StateStore,
    dt: f64,
}

impl Harness {
    fn new(dt: f64) -> Harness {
        Harness {
            state: StateStore::new(),
            dt,
        }
    }

    /// Advances the operator by one tick. The call site is fixed, so state accumulates.
    fn tick(&mut self, object: &str, method: &str, args: &[Value]) -> Value {
        let site = CallSite::new("Demo.Update.m1scr", 0);
        call(object, method, args, site, &mut self.state, double(self.dt))
            .expect("call ok")
            .expect("stateful family handled")
    }
}

/// The number of a scalar value.
fn number(value: Value) -> f64 {
    f64::from_bits(value.m1_scalar().unwrap().wide().to_bits())
}

fn approx(a: f64, b: f64) {
    assert!((a - b).abs() < 1e-6, "expected {b}, got {a}");
}

fn n(value: f64) -> Value {
    Value::m1_float(single(value as f32))
}

fn adjacent_scalar_cases() -> [(&'static str, M1Scalar, M1Scalar, M1Scalar); 4] {
    let float_low = 16_777_216_f32;
    let float_high = f32::from_bits(float_low.to_bits() + 1);
    [
        (
            "Integer",
            M1Scalar::Integer(16_777_216),
            M1Scalar::Integer(16_777_217),
            M1Scalar::Integer(1),
        ),
        (
            "UnsignedInteger",
            M1Scalar::UnsignedInteger(u32::MAX - 1),
            M1Scalar::UnsignedInteger(u32::MAX),
            M1Scalar::UnsignedInteger(1),
        ),
        (
            "FixedPoint7dps",
            M1Scalar::FixedPoint7dps(FixedPoint7dps::from_raw(i32::MAX - 1)),
            M1Scalar::FixedPoint7dps(FixedPoint7dps::from_raw(i32::MAX)),
            M1Scalar::FixedPoint7dps(FixedPoint7dps::from_raw(1)),
        ),
        (
            "FloatingPoint",
            M1Scalar::FloatingPoint(single(float_low)),
            M1Scalar::FloatingPoint(single(float_high)),
            M1Scalar::FloatingPoint(single(float_high - float_low)),
        ),
    ]
}

#[test]
fn family_aware_comparisons_keep_adjacent_values_and_full_width_differences() {
    for (family, low, high, delta) in adjacent_scalar_cases() {
        assert_eq!(scalar_order(low, high), Some(Order::Less), "{family}");
        assert!(!scalar_equal(low, high), "{family}");
        assert_eq!(
            scalar_change_order(low, high, delta),
            (Some(Order::Greater), Some(Order::Equal)),
            "{family}"
        );
    }

    for (family, low, high, delta, magnitude) in [
        (
            "Integer",
            M1Scalar::Integer(i32::MIN),
            M1Scalar::Integer(i32::MAX),
            M1Scalar::Integer(i32::MAX),
            Order::Greater,
        ),
        (
            "UnsignedInteger",
            M1Scalar::UnsignedInteger(0),
            M1Scalar::UnsignedInteger(u32::MAX),
            M1Scalar::UnsignedInteger(u32::MAX),
            Order::Equal,
        ),
        (
            "FixedPoint7dps",
            M1Scalar::FixedPoint7dps(FixedPoint7dps::from_raw(i32::MIN)),
            M1Scalar::FixedPoint7dps(FixedPoint7dps::from_raw(i32::MAX)),
            M1Scalar::FixedPoint7dps(FixedPoint7dps::from_raw(i32::MAX)),
            Order::Greater,
        ),
    ] {
        assert_eq!(
            scalar_change_order(low, high, delta),
            (Some(Order::Greater), Some(magnitude)),
            "{family}"
        );
    }
}

#[test]
fn mixed_family_comparisons_follow_m1_promotion() {
    assert!(scalar_equal(
        M1Scalar::Integer(-1),
        M1Scalar::UnsignedInteger(u32::MAX)
    ));
    assert!(scalar_equal(
        M1Scalar::FixedPoint7dps(FixedPoint7dps::from_raw(10_000_000)),
        M1Scalar::FloatingPoint(single(1.0))
    ));

    // Signed and unsigned operands share the integral overload, whose M1
    // join selects unsigned without narrowing either sampled value.
    assert_eq!(
        scalar_change_order(
            M1Scalar::Integer(16_777_216),
            M1Scalar::Integer(16_777_217),
            M1Scalar::UnsignedInteger(1),
        ),
        (Some(Order::Greater), Some(Order::Equal))
    );
    assert_eq!(
        scalar_change_order(
            M1Scalar::FixedPoint7dps(FixedPoint7dps::from_raw(0)),
            M1Scalar::FixedPoint7dps(FixedPoint7dps::from_raw(10_000_000)),
            M1Scalar::FloatingPoint(single(1.0)),
        ),
        (Some(Order::Greater), Some(Order::Equal))
    );

    let promoted_fixed_difference =
        M1Scalar::FixedPoint7dps(FixedPoint7dps::from_raw(16_777_217)).single();
    assert_eq!(
        scalar_change_order(
            M1Scalar::FixedPoint7dps(FixedPoint7dps::from_raw(0)),
            M1Scalar::FixedPoint7dps(FixedPoint7dps::from_raw(16_777_217)),
            M1Scalar::FloatingPoint(promoted_fixed_difference),
        ),
        (Some(Order::Greater), Some(Order::Equal))
    );
}

#[test]
fn mixed_family_stateful_operators_follow_m1_promotion() {
    let mut change = Harness::new(0.1);
    let change_args = |value| [Value::m1_integer(value), Value::m1_unsigned(1)];
    assert!(
        !change
            .tick("Change", "By", &change_args(16_777_216))
            .as_bool()
            .unwrap()
    );
    assert!(
        change
            .tick("Change", "By", &change_args(16_777_217))
            .as_bool()
            .unwrap()
    );

    let promoted_equal = [
        Value::m1_integer(-1),
        Value::m1_unsigned(u32::MAX),
        Value::m1_unsigned(u32::MAX),
        n(0.0),
    ];
    let mut between = Harness::new(0.1);
    assert!(
        !between
            .tick("Calculate", "Between", &promoted_equal)
            .as_bool()
            .unwrap()
    );
    assert!(
        between
            .tick("Calculate", "Between", &promoted_equal)
            .as_bool()
            .unwrap()
    );

    let mut stable = Harness::new(0.1);
    assert!(
        !stable
            .tick("Delay", "Stable", &[Value::m1_integer(-1), n(0.0)],)
            .as_bool()
            .unwrap()
    );
    assert!(
        stable
            .tick("Delay", "Stable", &[Value::m1_unsigned(u32::MAX), n(0.0)],)
            .as_bool()
            .unwrap()
    );
}

#[test]
fn first_order_step_response_matches_hand_derivation() {
    // dt = 0.1, tc = 0.1  =>  a0 = 0.1 / (0.1 + 0.1) = 0.5.
    let mut h = Harness::new(0.1);
    let tc = n(0.1);

    // Tick 1: seeds to the first input (0.0). No transient.
    approx(
        number(h.tick("Filter", "FirstOrder", &[n(0.0), tc.duplicate()])),
        0.0,
    );
    // Step the input to 1.0. y = 0.5*1 + 0.5*0 = 0.5.
    approx(
        number(h.tick("Filter", "FirstOrder", &[n(1.0), tc.duplicate()])),
        0.5,
    );
    // Hold at 1.0. y = 0.5*1 + 0.5*0.5 = 0.75.
    approx(
        number(h.tick("Filter", "FirstOrder", &[n(1.0), tc.duplicate()])),
        0.75,
    );
    // Hold. y = 0.5*1 + 0.5*0.75 = 0.875.
    approx(
        number(h.tick("Filter", "FirstOrder", &[n(1.0), tc.duplicate()])),
        0.875,
    );
}

#[test]
fn first_order_reset_reloads_to_current_input() {
    // a0 = 0.5 again.
    let mut h = Harness::new(0.1);
    let tc = n(0.1);
    h.tick(
        "Filter",
        "FirstOrder",
        &[n(0.0), tc.duplicate(), Value::Bool(false)],
    );
    // Build up some state.
    h.tick(
        "Filter",
        "FirstOrder",
        &[n(10.0), tc.duplicate(), Value::Bool(false)],
    );
    // Reset true: output snaps to the current input regardless of history.
    approx(
        number(h.tick("Filter", "FirstOrder", &[n(3.0), tc.duplicate(), Value::Bool(true)])),
        3.0,
    );
}

#[test]
fn filter_maximum_instant_rise_filtered_fall() {
    // a0 = 0.5.
    let mut h = Harness::new(0.1);
    let tc = n(0.1);
    // Seed at 0.
    approx(
        number(h.tick("Filter", "Maximum", &[n(0.0), tc.duplicate()])),
        0.0,
    );
    // Rise to 5: instant attack -> 5.
    approx(
        number(h.tick("Filter", "Maximum", &[n(5.0), tc.duplicate()])),
        5.0,
    );
    // Drop to 1: filtered fall -> 0.5*1 + 0.5*5 = 3.0.
    approx(
        number(h.tick("Filter", "Maximum", &[n(1.0), tc.duplicate()])),
        3.0,
    );
    // A new higher value 4 < 3.0? No, 4 >= 3.0 -> instant -> 4.
    approx(
        number(h.tick("Filter", "Maximum", &[n(4.0), tc.duplicate()])),
        4.0,
    );
}

#[test]
fn filter_minimum_instant_fall_filtered_rise() {
    let mut h = Harness::new(0.1);
    let tc = n(0.1);
    approx(
        number(h.tick("Filter", "Minimum", &[n(10.0), tc.duplicate()])),
        10.0,
    );
    // Drop to 2: instant attack downward -> 2.
    approx(
        number(h.tick("Filter", "Minimum", &[n(2.0), tc.duplicate()])),
        2.0,
    );
    // Rise to 6: filtered rise -> 0.5*6 + 0.5*2 = 4.0.
    approx(
        number(h.tick("Filter", "Minimum", &[n(6.0), tc.duplicate()])),
        4.0,
    );
}

#[test]
fn distinct_call_sites_keep_independent_state() {
    let mut h = Harness::new(0.1);
    let tc = n(0.1);
    // Two different sites driven through the store directly.
    let site_a = CallSite::new("Demo.Update.m1scr", 0);
    let site_b = CallSite::new("Demo.Update.m1scr", 50);
    for (site, seed) in [(site_a, 0.0), (site_b, 100.0)] { 
        let v = call(
            "Filter",
            "FirstOrder",
            &[n(seed), tc.duplicate()],
            site,
            &mut h.state,
            double(h.dt),
        )
        .unwrap()
        .unwrap();
        approx(number(v), seed);
    }
    // Two independent slots.
    assert_eq!(h.state.0.len(), 2);
}

#[test]
fn unhandled_object_returns_none() {
    let mut h = Harness::new(0.1);
    let site = CallSite::new("Demo.Update.m1scr", 0); 
    assert!(
        call("NotStateful", "X", &[], site, &mut h.state, double(h.dt))
            .unwrap()
            .is_none()
    );
}


fn integral(h: &mut Harness, x: f64, min: f64, max: f64, reset: bool, preset: f64) -> f64 {
    number(h.tick(
        "Integral",
        "Normal",
        &[n(x), n(min), n(max), Value::Bool(reset), n(preset)],
    ))
}

#[test]
fn integral_trapezoidal_accumulation() {
    // dt = 0.1. Inputs 2, 4, 6 with a wide clamp.
    let mut h = Harness::new(0.1);
    // Tick 1: seed -> 0 (no area on the first sample).
    approx(integral(&mut h, 2.0, -100.0, 100.0, false, 0.0), 0.0);
    // Tick 2: area = (4+2)/2 * 0.1 = 0.3 -> acc 0.3.
    approx(integral(&mut h, 4.0, -100.0, 100.0, false, 0.0), 0.3);
    // Tick 3: area = (6+4)/2 * 0.1 = 0.5 -> acc 0.8.
    approx(integral(&mut h, 6.0, -100.0, 100.0, false, 0.0), 0.8);
}

#[test]
fn integral_clamps_to_range() {
    // dt = 1.0 so areas are large; clamp at 1.0.
    let mut h = Harness::new(1.0);
    approx(integral(&mut h, 10.0, 0.0, 1.0, false, 0.0), 0.0); // seed
    // area = (10+10)/2 * 1 = 10 -> clamps to max 1.0.
    approx(integral(&mut h, 10.0, 0.0, 1.0, false, 0.0), 1.0);
    // Stays clamped (anti-windup: stored state is the clamped value).
    approx(integral(&mut h, 10.0, 0.0, 1.0, false, 0.0), 1.0);
}

#[test]
fn integral_reset_reloads_clamped_preset() {
    let mut h = Harness::new(0.1);
    integral(&mut h, 2.0, -100.0, 100.0, false, 0.0); // seed
    integral(&mut h, 4.0, -100.0, 100.0, false, 0.0); // acc 0.3
    // Reset to preset 5.0 (within range): output becomes 5.0.
    approx(integral(&mut h, 9.0, -100.0, 100.0, true, 5.0), 5.0);
    // After reset, prev_x is the current input (9), so next area uses it.
    // area = (1+9)/2 * 0.1 = 0.5 -> acc 5.5.
    approx(integral(&mut h, 1.0, -100.0, 100.0, false, 0.0), 5.5);
}


fn deriv(h: &mut Harness, method: &str, args: &[Value]) -> f64 {
    number(h.tick("Derivative", method, args))
}

#[test]
fn derivative_normal_backward_difference() {
    // dt = 0.1.
    let mut h = Harness::new(0.1);
    // First tick: 0 (no slope yet), seeds prev = 1.0.
    approx(deriv(&mut h, "Normal", &[n(1.0)]), 0.0);
    // (3 - 1)/0.1 = 20.
    approx(deriv(&mut h, "Normal", &[n(3.0)]), 20.0);
    // (3 - 3)/0.1 = 0.
    approx(deriv(&mut h, "Normal", &[n(3.0)]), 0.0);
    // (2.5 - 3)/0.1 = -5.
    approx(deriv(&mut h, "Normal", &[n(2.5)]), -5.0);
}

#[test]
fn derivative_filtered_smooths_the_raw_difference() {
    // dt = 0.1, fixed tc = 0.1 -> a0 = 0.5 in the internal smoother.
    let mut h = Harness::new(0.1);
    // First tick: 0 (seed).
    approx(deriv(&mut h, "Filtered", &[n(0.0)]), 0.0);
    // raw = (1 - 0)/0.1 = 10; d = 0.5*10 + 0.5*0 = 5.0.
    approx(deriv(&mut h, "Filtered", &[n(1.0)]), 5.0);
    // raw = (2 - 1)/0.1 = 10; d = 0.5*10 + 0.5*5 = 7.5.
    approx(deriv(&mut h, "Filtered", &[n(2.0)]), 7.5);
}

#[test]
fn derivative_adaptive_holds_until_delta_or_timeout() {
    // dt = 0.1, delta = 1.0, max_dt = 0.5.
    let mut h = Harness::new(0.1);
    let args = |x: f64| [n(x), n(1.0), n(0.5)];
    // First tick: seed at 0.0, output 0.
    approx(deriv(&mut h, "Adaptive", &args(0.0)), 0.0);
    // Move +0.3 (< delta 1.0) and elapsed 0.1 (< 0.5): hold previous (0).
    approx(deriv(&mut h, "Adaptive", &args(0.3)), 0.0);
    // Move to 1.5 (delta from 0.0 is 1.5 >= 1.0): accept. elapsed = 0.2,
    // slope = (1.5 - 0.0)/0.2 = 7.5.
    approx(deriv(&mut h, "Adaptive", &args(1.5)), 7.5);
    // Now hold near 1.5: small moves under delta accumulate elapsed time.
    approx(deriv(&mut h, "Adaptive", &args(1.6)), 7.5); // elapsed 0.1, held
    approx(deriv(&mut h, "Adaptive", &args(1.7)), 7.5); // elapsed 0.2, held
    approx(deriv(&mut h, "Adaptive", &args(1.8)), 7.5); // elapsed 0.3, held
    approx(deriv(&mut h, "Adaptive", &args(1.9)), 7.5); // elapsed 0.4, held
    // elapsed reaches 0.5 (>= max_dt): accept. slope = (2.0 - 1.5)/0.5 = 1.0.
    approx(deriv(&mut h, "Adaptive", &args(2.0)), 1.0);
}


fn b(v: bool) -> Value {
    Value::Bool(v)
}

fn delay_rising(h: &mut Harness, cond: bool, delay: f64) -> bool {
    h.tick("Delay", "Rising", &[b(cond), n(delay)])
        .as_bool()
        .unwrap()
}

fn delay_falling(h: &mut Harness, cond: bool, delay: f64) -> bool {
    h.tick("Delay", "Falling", &[b(cond), n(delay)])
        .as_bool()
        .unwrap()
}

#[test]
fn delay_rising_delays_only_the_rising_edge() {
    // The M1 0.3f threshold widens slightly above three exact 0.1 s
    // scheduler ticks, so the fourth held tick commits the edge.
    let mut h = Harness::new(0.1);
    assert!(!delay_rising(&mut h, true, 0.3)); // T1 seed: false
    assert!(!delay_rising(&mut h, true, 0.3)); // held 0.1
    assert!(!delay_rising(&mut h, true, 0.3)); // held 0.2
    assert!(!delay_rising(&mut h, true, 0.3)); // held 0.3 < widened threshold
    assert!(delay_rising(&mut h, true, 0.3)); //  held 0.4 -> true
    assert!(!delay_rising(&mut h, false, 0.3)); // immediate fall
    assert!(!delay_rising(&mut h, true, 0.3)); // re-arming, held 0.1
}

#[test]
fn delay_falling_delays_only_the_falling_edge() {
    // The M1 0.2f threshold is slightly above two exact 0.1 s ticks.
    let mut h = Harness::new(0.1);
    assert!(delay_falling(&mut h, true, 0.2)); // T1 seed: true (default high)
    assert!(delay_falling(&mut h, false, 0.2)); // held-false 0.1, still true
    assert!(delay_falling(&mut h, false, 0.2)); // held 0.2 < widened threshold
    assert!(!delay_falling(&mut h, false, 0.2)); // held 0.3 -> false
    assert!(!delay_falling(&mut h, false, 0.2)); // stays false
    assert!(delay_falling(&mut h, true, 0.2)); //  immediate rise
}

#[test]
fn delay_stable_detects_adjacent_values_in_every_scalar_family() {
    for (family, low, high, _) in adjacent_scalar_cases() {
        let mut h = Harness::new(0.1);
        let stable = |h: &mut Harness, value: M1Scalar| {
            h.tick("Delay", "Stable", &[Value::M1(value), n(0.0)])
                .as_bool()
                .unwrap()
        };
        assert!(!stable(&mut h, low), "{family} seed");
        assert!(!stable(&mut h, high), "{family} adjacent change");
        assert!(stable(&mut h, high), "{family} repeated value");
    }
}

#[test]
fn delay_stable_fixed_tolerance_compares_raw_units() {
    let mut h = Harness::new(0.1);
    let fixed = |raw| {
        Value::M1(M1Scalar::FixedPoint7dps(
            FixedPoint7dps::from_raw(raw),
        ))
    };
    let stable = |h: &mut Harness, raw| {
        h.tick("Delay", "Stable", &[fixed(raw), n(0.0), n(0.0000001)])
            .as_bool()
            .unwrap()
    };

    assert!(!stable(&mut h, i32::MAX - 2));
    assert!(stable(&mut h, i32::MAX - 1)); // exactly one raw unit: tolerated
    assert!(!stable(&mut h, i32::MAX)); // two raw units from the reference
}

#[test]
fn delay_stable_coerces_its_declared_float_delta_before_comparing() {
    let mut h = Harness::new(0.1);
    let stable = |h: &mut Harness, argument| {
        h.tick(
            "Delay",
            "Stable",
            &[
                Value::m1_integer(argument),
                n(0.0),
                Value::m1_integer(16_777_219),
            ],
        )
        .as_bool()
        .unwrap()
    };

    assert!(!stable(&mut h, 0));
    // The signature widens delta to binary32, where 16_777_219 rounds to
    // 16_777_220. The movement therefore equals the tolerance and remains
    // stable even though the sampled integer reference stays exact.
    assert!(stable(&mut h, 16_777_220));
}


#[test]
fn debounce_stable_commits_after_filter_time() {
    // The binary32 filter threshold is slightly above 0.2 exact seconds.
    let mut h = Harness::new(0.1);
    let d = |h: &mut Harness, c: bool| {
        h.tick("Debounce", "Stable", &[b(c), n(0.2)])
            .as_bool()
            .unwrap()
    };
    assert!(!d(&mut h, false)); // seed output false
    assert!(!d(&mut h, true)); //  new candidate true, held 0
    assert!(!d(&mut h, true)); //  held 0.1
    assert!(!d(&mut h, true)); //  held 0.2 < widened threshold
    assert!(d(&mut h, true)); //   held 0.3 -> commit true
    assert!(d(&mut h, false)); //  new candidate false, output holds true
}

#[test]
fn debounce_filter_applies_hysteresis() {
    // dt = 0.1, response tc = 0.1 -> a0 = 0.5. Filter level rises toward 1.
    // Seeded to the first input (false -> level 0).
    let mut h = Harness::new(0.1);
    let d = |h: &mut Harness, c: bool| {
        h.tick("Debounce", "Filter", &[b(c), n(0.1)])
            .as_bool()
            .unwrap()
    };
    assert!(!d(&mut h, false)); // seed level 0, output false
    // level: 0.5, 0.75, 0.875 -> crosses 0.8 on the third true tick.
    assert!(!d(&mut h, true)); // level 0.5  (<0.8, holds false)
    assert!(!d(&mut h, true)); // level 0.75 (<0.8, holds false)
    assert!(d(&mut h, true)); //  level 0.875 (>=0.8 -> true)
    // Now drop: level 0.4375, 0.21875, 0.109 -> crosses 0.2 to go false.
    assert!(d(&mut h, false)); // level 0.4375 (>0.2, holds true)
    assert!(d(&mut h, false)); // level 0.21875 (>0.2, holds true)
    assert!(!d(&mut h, false)); // level ~0.109 (<=0.2 -> false)
}


#[test]
fn change_to_pulses_on_rising_edge() {
    let mut h = Harness::new(0.1);
    let c = |h: &mut Harness, v: bool| h.tick("Change", "To", &[b(v)]).as_bool().unwrap();
    assert!(!c(&mut h, false)); // seed
    assert!(c(&mut h, true)); //  rising -> pulse
    assert!(!c(&mut h, true)); // steady high
    assert!(!c(&mut h, false)); // falling -> no pulse for To
    assert!(c(&mut h, true)); //  rising -> pulse
}

#[test]
fn change_from_pulses_on_falling_edge() {
    let mut h = Harness::new(0.1);
    let c = |h: &mut Harness, v: bool| h.tick("Change", "From", &[b(v)]).as_bool().unwrap();
    assert!(!c(&mut h, true)); // seed high
    assert!(c(&mut h, false)); // falling -> pulse
    assert!(!c(&mut h, true)); // rising -> no pulse for From
}

#[test]
fn change_either_pulses_on_any_edge() {
    let mut h = Harness::new(0.1);
    let c = |h: &mut Harness, v: bool| h.tick("Change", "Either", &[b(v)]).as_bool().unwrap();
    assert!(!c(&mut h, false)); // seed
    assert!(c(&mut h, true)); //  edge
    assert!(c(&mut h, false)); // edge
    assert!(!c(&mut h, false)); // no edge
}

#[test]
fn change_by_pulses_on_magnitude_change() {
    let mut h = Harness::new(0.1);
    let c =
        |h: &mut Harness, x: f64| h.tick("Change", "By", &[n(x), n(5.0)]).as_bool().unwrap();
    assert!(!c(&mut h, 0.0)); // seed
    assert!(!c(&mut h, 2.0)); // delta 2 < 5
    assert!(c(&mut h, 8.0)); //  delta 6 >= 5
    assert!(!c(&mut h, 8.0)); // delta 0
    assert!(c(&mut h, 1.0)); //  delta 7 >= 5
}

#[test]
fn change_by_up_and_down_preserve_every_scalar_family() {
    for (family, low, high, delta) in adjacent_scalar_cases() {
        let args = |value| [Value::M1(value), Value::M1(delta)];

        let mut by = Harness::new(0.1);
        assert!(
            !by.tick("Change", "By", &args(low)).as_bool().unwrap(),
            "{family} By seed"
        );
        assert!(
            by.tick("Change", "By", &args(high)).as_bool().unwrap(),
            "{family} By adjacent change"
        );

        let mut up = Harness::new(0.1);
        assert!(!up.tick("Change", "Up", &args(low)).as_bool().unwrap());
        assert!(
            up.tick("Change", "Up", &args(high)).as_bool().unwrap(),
            "{family} Up adjacent change"
        );

        let mut down = Harness::new(0.1);
        assert!(!down.tick("Change", "Down", &args(high)).as_bool().unwrap());
        assert!(
            down.tick("Change", "Down", &args(low)).as_bool().unwrap(),
            "{family} Down adjacent change"
        );
    }
}

#[test]
fn filtered_change_by_keeps_an_exact_integer_reference() {
    let mut h = Harness::new(0.1);
    let call = |h: &mut Harness, value| {
        h.tick(
            "Change",
            "By",
            &[Value::m1_integer(value), Value::m1_integer(1), n(0.0)],
        )
        .as_bool()
        .unwrap()
    };
    assert!(!call(&mut h, 16_777_216));
    assert!(call(&mut h, 16_777_217));
}

#[test]
fn change_up_and_down_are_directional() {
    let mut h = Harness::new(0.1);
    let up =
        |h: &mut Harness, x: f64| h.tick("Change", "Up", &[n(x), n(5.0)]).as_bool().unwrap();
    assert!(!up(&mut h, 0.0)); // seed
    assert!(!up(&mut h, 2.0)); // +2 < 5
    assert!(up(&mut h, 8.0)); //  +6 >= 5
    assert!(!up(&mut h, 1.0)); // went down: not an Up

    let mut h2 = Harness::new(0.1);
    let down =
        |h: &mut Harness, x: f64| h.tick("Change", "Down", &[n(x), n(5.0)]).as_bool().unwrap();
    assert!(!down(&mut h2, 10.0)); // seed
    assert!(down(&mut h2, 3.0)); //  -7 >= 5
    assert!(!down(&mut h2, 8.0)); // went up: not a Down
}

#[test]
fn change_by_filtered_requires_sustained_change() {
    // The binary32 filter threshold is slightly above 0.2 exact seconds.
    let mut h = Harness::new(0.1);
    let c = |h: &mut Harness, x: f64| {
        h.tick("Change", "By", &[n(x), n(5.0), n(0.2)])
            .as_bool()
            .unwrap()
    };
    assert!(!c(&mut h, 0.0)); // seed (reference = 0)
    // Jump to 9 (delta 9 >= 5). It stays >= delta vs the held reference 0.
    assert!(!c(&mut h, 9.0)); // held 0.1 (< 0.2)
    assert!(!c(&mut h, 9.0)); // held 0.2 < widened threshold
    assert!(c(&mut h, 9.0)); //  held 0.3 -> single pulse
    assert!(!c(&mut h, 9.0)); // already pulsed (armed-spent)
    assert!(!c(&mut h, 9.0)); // still spent
}


#[test]
fn timer_counts_down_on_read_and_stops_at_zero() {
    let mut h = Harness::new(0.1);
    let key = CallSite::new("Root.Demo.MyTimer", 0);
    let run = |h: &mut Harness, method: &str, args: &[Value]| -> Value { 
        timer(method, args, key.clone(), &mut h.state, double(h.dt)).unwrap().unwrap()
    };
    // Start counting down from 0.25.
    run(&mut h, "Start", &[n(0.25)]);
    approx(
        number(run(&mut h, "Remaining", &[])),
        0.15,
    );
    approx(
        number(run(&mut h, "Remaining", &[])),
        0.05,
    );
    approx(
        number(run(&mut h, "Remaining", &[])),
        0.0,
    ); // clamps
    approx(
        number(run(&mut h, "Remaining", &[])),
        0.0,
    ); // stays
}

#[test]
fn timer_progresses_when_dt_is_smaller_than_a_binary32_ulp() {
    let mut h = Harness::new(0.01);
    let key = CallSite::new("Root.Demo.LargeTimer", 0);
    let run = |h: &mut Harness, method: &str, args: &[Value]| -> Value { 
        timer(method, args, key.clone(), &mut h.state, double(h.dt)).unwrap().unwrap()
    };

    let initial = f64::from(1_000_000_000_f32);
    run(&mut h, "Start", &[n(initial)]);
    run(&mut h, "Remaining", &[]);
    match h.state.get(&key) {
        Some(OpState::Timer { remaining, running }) => {
            assert!(*running);
            let remaining = f64::from_bits(remaining.to_bits());
            assert!(remaining < initial, "large timer did not advance");
            assert!((initial - remaining - 0.01).abs() < 1e-6);
        }
        other => panic!("expected running timer state, got {other:?}"),
    }
}

#[test]
fn timer_stop_and_reset() {
    let mut h = Harness::new(0.1);
    let key = CallSite::new("Root.Demo.MyTimer", 0);
    let run = |h: &mut Harness, method: &str, args: &[Value]| -> Value { 
        timer(method, args, key.clone(), &mut h.state, double(h.dt)).unwrap().unwrap()
    };
    run(&mut h, "Start", &[n(1.0)]);
    run(&mut h, "Stop", &[]);
    // Stopped: reading does not decrement.
    approx(
        number(run(&mut h, "Remaining", &[])),
        1.0,
    );
    run(&mut h, "Reset", &[]);
    approx(
        number(run(&mut h, "Remaining", &[])),
        0.0,
    );
}


#[test]
fn calculate_stable_true_after_unchanged_for_filter() {
    let mut h = Harness::new(0.1);
    let s = |h: &mut Harness, x: f64| {
        h.tick("Calculate", "Stable", &[n(x), n(0.2)])
            .as_bool()
            .unwrap()
    };
    assert!(!s(&mut h, 5.0)); // seed
    assert!(!s(&mut h, 5.0)); // held 0.1
    assert!(!s(&mut h, 5.0)); // held 0.2 < widened threshold
    assert!(s(&mut h, 5.0)); //  held 0.3 -> stable
    assert!(!s(&mut h, 7.0)); // changed -> restart
}

#[test]
fn calculate_between_and_beyond_are_timed() {
    let mut h = Harness::new(0.1);
    let bet = |h: &mut Harness, x: f64| {
        h.tick("Calculate", "Between", &[n(x), n(0.0), n(10.0), n(0.2)])
            .as_bool()
            .unwrap()
    };
    assert!(!bet(&mut h, 5.0)); // in range, held 0
    assert!(!bet(&mut h, 5.0)); // held 0.1
    assert!(!bet(&mut h, 5.0)); // held 0.2 < widened threshold
    assert!(bet(&mut h, 5.0)); //  held 0.3 -> true
    assert!(!bet(&mut h, 50.0)); // out of range -> drops, restart

    let mut h2 = Harness::new(0.1);
    let bey = |h: &mut Harness, x: f64| {
        h.tick("Calculate", "Beyond", &[n(x), n(0.0), n(10.0), n(0.2)])
            .as_bool()
            .unwrap()
    };
    assert!(!bey(&mut h2, 50.0)); // out of range, held 0
    assert!(!bey(&mut h2, 50.0)); // held 0.1
    assert!(!bey(&mut h2, 50.0)); // held 0.2 < widened threshold
    assert!(bey(&mut h2, 50.0)); //  held 0.3 -> true
}

#[test]
fn calculate_hysteresis_schmitt_trigger() {
    // low = 2, high = 8, filter = 0.2, dt = 0.1.
    let mut h = Harness::new(0.1);
    let hy = |h: &mut Harness, x: f64| {
        h.tick("Calculate", "Hysteresis", &[n(x), n(2.0), n(8.0), n(0.2)])
            .as_bool()
            .unwrap()
    };
    assert!(!hy(&mut h, 0.0)); // below low, false
    assert!(!hy(&mut h, 10.0)); // above high, timing 0.1
    assert!(!hy(&mut h, 10.0)); // timing 0.2 < widened threshold
    assert!(hy(&mut h, 10.0)); //  timing 0.3 -> true
    assert!(hy(&mut h, 10.0)); //  stays true
    assert!(hy(&mut h, 1.0)); //   below low, timing 0.1, holds true
    assert!(hy(&mut h, 1.0)); //   timing 0.2 < widened threshold
    assert!(!hy(&mut h, 1.0)); //  timing 0.3 -> false
    assert!(!hy(&mut h, 1.0)); //  stays false
}

#[test]
fn calculate_predicates_preserve_every_scalar_family() {
    for (family, low, high, _) in adjacent_scalar_cases() {
        let stable_args = |value| [Value::M1(value), n(0.0)];
        let mut stable = Harness::new(0.1);
        assert!(
            !stable
                .tick("Calculate", "Stable", &stable_args(low))
                .as_bool()
                .unwrap(),
            "{family} Stable seed"
        );
        assert!(
            !stable
                .tick("Calculate", "Stable", &stable_args(high))
                .as_bool()
                .unwrap(),
            "{family} Stable adjacent change"
        );
        assert!(
            stable
                .tick("Calculate", "Stable", &stable_args(high))
                .as_bool()
                .unwrap(),
            "{family} Stable repeated value"
        );

        let range_args = |value| [Value::M1(value), Value::M1(high), Value::M1(high), n(0.0)];
        let mut between = Harness::new(0.1);
        assert!(
            !between
                .tick("Calculate", "Between", &range_args(low))
                .as_bool()
                .unwrap(),
            "{family} Between below adjacent bound"
        );
        assert!(
            !between
                .tick("Calculate", "Between", &range_args(low))
                .as_bool()
                .unwrap(),
            "{family} Between remains outside"
        );

        let mut beyond = Harness::new(0.1);
        assert!(
            !beyond
                .tick("Calculate", "Beyond", &range_args(low))
                .as_bool()
                .unwrap(),
            "{family} Beyond starts timing"
        );
        assert!(
            beyond
                .tick("Calculate", "Beyond", &range_args(low))
                .as_bool()
                .unwrap(),
            "{family} Beyond accepts adjacent outside value"
        );

        let hysteresis_args =
            |value| [Value::M1(value), Value::M1(low), Value::M1(high), n(0.0)];
        let mut hysteresis = Harness::new(0.1);
        assert!(
            !hysteresis
                .tick("Calculate", "Hysteresis", &hysteresis_args(low))
                .as_bool()
                .unwrap(),
            "{family} Hysteresis low state"
        );
        assert!(
            !hysteresis
                .tick("Calculate", "Hysteresis", &hysteresis_args(high))
                .as_bool()
                .unwrap(),
            "{family} Hysteresis starts high timing"
        );
        assert!(
            hysteresis
                .tick("Calculate", "Hysteresis", &hysteresis_args(high))
                .as_bool()
                .unwrap(),
            "{family} Hysteresis accepts adjacent high value"
        );
    }
}


#[test]
fn static_locals_survive_enter_leave_function() {
    // The Env::statics mechanism backs `static local` persistence: a static
    // set in one function invocation is still present after leave/enter.
    let mut env = Env::new();
    env.enter_function();
    env.set_static("Root.Demo.Update", "accum", n(2.0));
    env.leave_function();
    env.enter_function();
    assert_eq!(env.get_static("Root.Demo.Update", "accum"), Some(&n(2.0)));
}

#[test]
fn change_by_is_up_or_down_on_every_tick() {
    let mut by = Harness::new(0.1);
    let mut up = Harness::new(0.1);
    let mut down = Harness::new(0.1);
    let inputs = [5, 8, 8, 3, 4, i32::MAX, i32::MIN, -2];
    let mut before: Option<i32> = None;
    for x in inputs {
        let args = [Value::m1_integer(x), Value::m1_integer(-3)];
        let pulse = by.tick("Change", "By", &args);
        let raised = up.tick("Change", "Up", &args) == b(true);
        let lowered = down.tick("Change", "Down", &args) == b(true);
        assert_eq!(pulse, b(raised || lowered), "{x}");
        let wide = before.map(|p| (i64::from(x) - i64::from(p)).abs() >= 3);
        assert_eq!(pulse, b(wide.unwrap_or(false)), "{x}");
        before = Some(x);
    }
}

#[test]
fn change_either_is_one_of_two_edges_on_every_tick() {
    let mut to = Harness::new(0.1);
    let mut from = Harness::new(0.1);
    let mut either = Harness::new(0.1);
    let mut before: Option<bool> = None;
    for cond in [true, true, false, true, false, false, true] {
        let rose = to.tick("Change", "To", &[b(cond)]) == b(true);
        let fell = from.tick("Change", "From", &[b(cond)]) == b(true);
        assert!(!(rose && fell));
        let pulse = either.tick("Change", "Either", &[b(cond)]);
        assert_eq!(pulse, b(rose || fell));
        assert_eq!(pulse, b(before.is_some_and(|p| p != cond)));
        before = Some(cond);
    }
}

#[test]
fn delays_follow_their_free_edge_at_once() {
    let mut rising = Harness::new(0.1);
    let mut falling = Harness::new(0.1);
    let conds = [true, true, true, false, true, false, false, false, true];
    for (tick, cond) in conds.into_iter().enumerate() {
        let rose = delay_rising(&mut rising, cond, 0.2);
        let fell = !delay_falling(&mut falling, cond, 0.2);
        assert!(!rose || cond);
        assert!(!fell || !cond);
        if tick == 0 {
            assert!(!rose && !fell);
        }
    }
}

#[test]
fn a_debounce_without_evidence_names_what_is_missing() {
    let site = || CallSite::new("Demo.Update.m1scr", 0);
    let mut state = StateStore::new();
    for method in ["Fast", "Verify"] {
        let mut run = |args: &[Value]| {
            call("Debounce", method, args, site(), &mut state, double(0.1))
        };
        match run(&[b(true), n(0.1)]) {
            Err(EvalError::UnsupportedBuiltinBehavior {
                object,
                method: named,
                reason,
            }) => {
                assert_eq!((object.as_str(), named.as_str()), ("Debounce", method));
                assert!(reason.contains("Debounce.Stable"), "{reason}");
            }
            other => panic!("expected the missing evidence, got {other:?}"),
        }
        assert!(matches!(
            run(&[n(1.0), n(0.1)]),
            Err(EvalError::TypeError { .. })
        ));
        assert!(matches!(
            run(&[b(true), b(true)]),
            Err(EvalError::TypeError { .. })
        ));
    }
    assert!(state.get(&site()).is_none());
}

#[test]
fn the_first_operand_at_fault_is_named() {
    let run = |object: &str, method: &str, args: &[Value]| {
        let site = CallSite::new("Demo.Update.m1scr", 0);
        match call(object, method, args, site, &mut StateStore::new(), double(0.1)) {
            Err(EvalError::TypeError { detail }) => detail,
            other => panic!("expected a type error, got {other:?}"),
        }
    };
    let number = "expected an M1 numeric value";
    let flag = "expected a Boolean";
    assert_eq!(run("Filter", "FirstOrder", &[n(1.0), n(0.1), n(1.0)]), flag);
    assert_eq!(run("Filter", "FirstOrder", &[n(1.0), b(true), n(1.0)]), number);
    assert_eq!(run("Integral", "Normal", &[n(1.0), n(0.0), n(1.0), n(1.0), b(true)]), flag);
    assert_eq!(run("Integral", "Normal", &[n(1.0), n(0.0), n(1.0), b(true), b(true)]), number);
    assert_eq!(run("Delay", "Rising", &[n(1.0), b(true)]), flag);
    assert_eq!(run("Delay", "Rising", &[b(true), b(true)]), number);
    assert_eq!(run("Delay", "Stable", &[b(true), n(1.0)]), number);
    assert_eq!(run("Change", "To", &[n(1.0)]), flag);
    assert_eq!(run("Change", "By", &[b(true), n(1.0)]), number);
}
