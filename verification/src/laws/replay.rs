//! What the replay of fixtures and the clock of a run hold to.

use crate::builtins::io_stub::{clock_answer, falls_back, last_run, Clock};
use crate::conformance::document::{at_instant, grid_time};
use crate::conformance::replay::{
    changes, conforms, expectation_count, output_fault, outputs_fault, picks, tick_fault,
    ticks_fault, undeclared, wire_mismatch,
};
use crate::conformance::{wire_value, ConformanceFixture, FixtureChannelValue, FixtureStep, WireValue};
use crate::context::EvalCtx;
use crate::error::EvalError;
use crate::float::binary64::F64;
use crate::float::exact::{
    fine_slack, law_conversions, law_double_arithmetic, law_double_order, law_integers,
    lemma_double_rounding, lemma_instant_constant, lemma_narrow_operand, size, slack,
};
use crate::hardware::{EvalTime, HardwareCall};
use crate::project::Project;
use crate::trace::{supplied_at, value_at, Trace};
use crate::value::{M1Scalar, Value};
use vstd::prelude::*;

verus! {

/// The instant of tick `i` is `i` periods of the rate after the start, within rounding.
pub proof fn law_grid_times(rate: F64, i: int)
    requires
        rate.is_finite(),
        rate.exact() > 0real,
        0 <= i <= 0x1_0000_0000_0000_0000,
        grid_time(rate, i).is_finite(),
    ensures
        size(grid_time(rate, i).exact() - (i as real) / rate.exact()) <= 4real * fine_slack(
            (i as real) / rate.exact(),
        ),
{
    law_integers(i);
    lemma_double_rounding();
    let n = F64::nearest(i);
    law_double_arithmetic(n, rate);
    let (e, h) = (i as real, rate.exact());
    let (r, q) = (e / h, n.exact() / h);
    assert(size(q - r) <= size(r) / 9007199254740992real) by (nonlinear_arith)
        requires
            size(n.exact() - e) <= size(e) / 9007199254740992real,
            r == e / h,
            q == n.exact() / h,
            h > 0real,
    {
        assert(q * h == n.exact() && r * h == e);
        assert(size((q - r) * h) == size(q - r) * h);
        assert(size(r * h) == size(r) * h);
        assert((q - r) * h == n.exact() - e);
    }
}

/// An instant is where it belongs just where it is within a millionth of a millionth of it, of a
/// second or of the whole, on either side and within rounding.
pub proof fn law_instants(t: F64, instant: F64)
    requires
        t.is_finite(),
        instant.is_finite(),
        t.minus(instant).is_finite(),
    ensures
        ({
            let apart = t.exact() - instant.exact();
            let whole = if size(instant.exact()) < 1real {
                1real
            } else {
                size(instant.exact())
            };
            let bound = whole / 1000000000000real;
            let play = fine_slack(apart) + fine_slack(whole);
            &&& at_instant(t, instant) ==> -bound - play <= apart <= bound + play
            &&& !at_instant(t, instant) ==> apart > bound - play || apart < -bound + play
        }),
{
    let unit = F64 { bits: 0x3d71_9799_812d_ea11 };
    lemma_instant_constant();
    lemma_double_rounding();
    law_double_arithmetic(t, instant);
    let d = t.minus(instant);
    law_double_order(d, d);
    law_double_order(instant, instant);
    let a = instant.abs();
    let p = a.times(unit);
    let u = unit.exact();
    let x = a.exact();
    let whole = if x < 1real { 1real } else { x };
    assert(0real <= x * u && size(x * u - x / 1000000000000real) <= x / 1000000000000000000000000real)
        by (nonlinear_arith)
        requires
            x >= 0real,
            u >= 0real,
            size(u - 1real / 1000000000000real) <= 1real / 1000000000000000000000000real,
    {
        assert(x * u - x / 1000000000000real == x * (u - 1real / 1000000000000real));
    }
    lemma_small_product(a, unit);
    law_double_arithmetic(a, unit);
    law_double_order(unit, p);
    law_double_order(unit.max(p), d.abs());
    let m = unit.max(p).exact();
    assert(size(p.exact() - x * u) <= (x * u) / 9007199254740992real + crate::float::exact::smallest(
        crate::float::num::Format::Binary64,
    ));
    assert(size(m - whole / 1000000000000real) <= fine_slack(whole));
}

/// The product of a finite number with one below one is finite.
proof fn lemma_small_product(a: F64, unit: F64)
    requires
        a.is_finite(),
        unit == (F64 { bits: 0x3d71_9799_812d_ea11 }),
    ensures
        a.times(unit).is_finite(),
{
    lemma_instant_constant();
    crate::float::exact::lemma_lesser_product(a, unit);
}

/// A run conforms to a fixture just where it has its ticks at their instants, uses no source of its
/// own, and meets every expectation of every step: one output that fails its expectation is
/// enough for it not to.
pub proof fn law_every_expectation_counts(f: ConformanceFixture, project: Project, trace: Trace)
    ensures
        conforms(f, project, trace) <==> {
            &&& trace.time@.len() == f.steps@.len()
            &&& forall|k: Seq<char>| !(#[trigger] undeclared(f, trace, k))
            &&& forall|i: int|
                0 <= i < f.steps@.len() ==> at_instant(
                    #[trigger] trace.time@[i],
                    f.steps@[i].time_s,
                )
            &&& forall|i: int, j: int|
                0 <= i < f.steps@.len() && 0 <= j < f.steps@[i].expected@.len()
                    ==> #[trigger] output_fault(f, project, trace, i, j) is None
        },
{
    lemma_ticks(f, project, trace, f.steps@.len());
    if trace.time@.len() == f.steps@.len() {
        if ticks_fault(f, project, trace, f.steps@.len()) is None {
            assert forall|i: int| 0 <= i < f.steps@.len() implies at_instant(
                #[trigger] trace.time@[i],
                f.steps@[i].time_s,
            ) by {
                assert(tick_fault(f, project, trace, i) is None);
            }
            assert forall|i: int, j: int|
                0 <= i < f.steps@.len() && 0 <= j < f.steps@[i].expected@.len() implies
                #[trigger] output_fault(f, project, trace, i, j) is None by {
                assert(tick_fault(f, project, trace, i) is None);
                lemma_outputs(f, project, trace, i, f.steps@[i].expected@.len());
            }
        }
        if (forall|i: int|
            0 <= i < f.steps@.len() ==> at_instant(#[trigger] trace.time@[i], f.steps@[i].time_s)) && (
        forall|i: int, j: int|
            0 <= i < f.steps@.len() && 0 <= j < f.steps@[i].expected@.len() ==> #[trigger] output_fault(
                f,
                project,
                trace,
                i,
                j,
            ) is None) {
            assert forall|i: int| 0 <= i < f.steps@.len() implies #[trigger] tick_fault(
                f,
                project,
                trace,
                i,
            ) is None by {
                assert(at_instant(trace.time@[i], f.steps@[i].time_s));
                lemma_outputs(f, project, trace, i, f.steps@[i].expected@.len());
            }
        }
    }
}

proof fn lemma_outputs(f: ConformanceFixture, project: Project, trace: Trace, i: int, n: nat)
    ensures
        outputs_fault(f, project, trace, i, n) is None <==> forall|j: int|
            0 <= j < n ==> #[trigger] output_fault(f, project, trace, i, j) is None,
    decreases n,
{
    if n > 0 {
        lemma_outputs(f, project, trace, i, (n - 1) as nat);
    }
}

proof fn lemma_ticks(f: ConformanceFixture, project: Project, trace: Trace, n: nat)
    ensures
        ticks_fault(f, project, trace, n) is None <==> forall|i: int|
            0 <= i < n ==> #[trigger] tick_fault(f, project, trace, i) is None,
    decreases n,
{
    if n > 0 {
        lemma_ticks(f, project, trace, (n - 1) as nat);
    }
}

/// An expectation is met just where the run computed the output itself and its last value on the
/// tick matches.
pub proof fn law_expectation_is_met(f: ConformanceFixture, project: Project, trace: Trace, i: int, j: int)
    requires
        0 <= i < f.steps@.len(),
        0 <= j < f.steps@[i].expected@.len(),
    ensures
        ({
            let e = f.steps@[i].expected@[j];
            output_fault(f, project, trace, i, j) is None <==> {
                &&& !supplied_at(trace.external_ticks@, e.channel@, i as usize)
                &&& !(wire_value(e.value, project) is Bad)
                &&& value_at(trace.records@, e.channel@, i as usize) matches Some(v) && wire_mismatch(
                    wire_value(e.value, project),
                    v,
                    e.tolerance,
                ) is Ok
            }
        }),
{
}

/// Whether a step changes an input to a value, at a place of its list.
pub open spec fn sets_input(f: ConformanceFixture, k: Seq<char>, w: WireValue, i: int, j: int) -> bool {
    &&& 0 <= i < f.steps@.len() && 0 <= j < f.steps@[i].inputs@.len()
    &&& f.steps@[i].inputs@[j].channel@ == k && f.steps@[i].inputs@[j].value == w
}

proof fn lemma_picks(items: Seq<FixtureChannelValue>, k: Seq<char>, n: nat, t: F64, p: (F64, WireValue))
    requires
        n <= items.len(),
    ensures
        picks(items, k, n, t).contains(p) <==> p.0 == t && exists|j: int|
            0 <= j < n && (#[trigger] items[j]).channel@ == k && items[j].value == p.1,
    decreases n,
{
    if n > 0 {
        lemma_picks(items, k, (n - 1) as nat, t, p);
        let rest = picks(items, k, (n - 1) as nat, t);
        let last = items[n - 1];
        if last.channel@ == k {
            let all = rest.push((t, last.value));
            if all.contains(p) {
                let i = choose|i: int| 0 <= i < all.len() && all[i] == p;
                if i < rest.len() {
                    assert(rest[i] == p);
                }
            }
            if rest.contains(p) {
                let i = choose|i: int| 0 <= i < rest.len() && rest[i] == p;
                assert(all[i] == p);
            }
            if p == (t, last.value) {
                assert(all[rest.len() as int] == p);
            }
        }
    }
}

/// The points of an input are the values that the steps give it, each at the instant of its step.
pub proof fn law_inputs_change_on_their_ticks(f: ConformanceFixture, k: Seq<char>, t: F64, w: WireValue)
    ensures
        changes(f, k, f.steps@.len()).contains((t, w)) <==> exists|i: int, j: int| #[trigger]
            sets_input(f, k, w, i, j) && t == grid_time(f.calculation_rate_hz, i),
{
    let p = (t, w);
    lemma_changes(f, k, f.steps@.len(), p);
    assert forall|i: int, j: int| #[trigger] sets_input(f, k, w, i, j) implies sets_input(f, k, p.1, i, j)
        && i < f.steps@.len() by {
    }
    assert forall|i: int, j: int| #[trigger] sets_input(f, k, p.1, i, j) implies sets_input(f, k, w, i, j)
        by {
    }
}

proof fn lemma_changes(f: ConformanceFixture, k: Seq<char>, n: nat, p: (F64, WireValue))
    requires
        n <= f.steps@.len(),
    ensures
        changes(f, k, n).contains(p) <==> exists|i: int, j: int|
            i < n && #[trigger] sets_input(f, k, p.1, i, j) && p.0 == grid_time(
                f.calculation_rate_hz,
                i,
            ),
    decreases n,
{
    if n > 0 {
        let m = n - 1;
        lemma_changes(f, k, m as nat, p);
        let items = f.steps@[m].inputs@;
        let t = grid_time(f.calculation_rate_hz, m);
        lemma_picks(items, k, items.len(), t, p);
        let (a, b) = (changes(f, k, m as nat), picks(items, k, items.len(), t));
        let c = a + b;
        if c.contains(p) {
            let i = choose|i: int| 0 <= i < c.len() && c[i] == p;
            if i < a.len() {
                assert(a[i] == p);
            } else {
                assert(b[i - a.len()] == p);
            }
        }
        if a.contains(p) {
            let i = choose|i: int| 0 <= i < a.len() && a[i] == p;
            assert(c[i] == p);
        }
        if b.contains(p) {
            let i = choose|i: int| 0 <= i < b.len() && b[i] == p;
            assert(c[a.len() + i] == p);
            let j = choose|j: int|
                0 <= j < items.len() && (#[trigger] items[j]).channel@ == k && items[j].value == p.1;
            assert(sets_input(f, k, p.1, m, j));
        }
        if exists|i: int, j: int|
            i < n && #[trigger] sets_input(f, k, p.1, i, j) && p.0 == grid_time(
                f.calculation_rate_hz,
                i,
            ) {
            let (i, j) = choose|i: int, j: int|
                i < n && #[trigger] sets_input(f, k, p.1, i, j) && p.0 == grid_time(
                    f.calculation_rate_hz,
                    i,
                );
            if i == m {
                assert(items[j].channel@ == k);
                assert(b.contains(p));
            }
        }
    }
}

/// The expectations of steps are those of the first ones and those of the others.
pub proof fn law_expectations_add_up(a: Seq<FixtureStep>, b: Seq<FixtureStep>, s: FixtureStep)
    ensures
        expectation_count(a + b, (a + b).len()) == expectation_count(a, a.len())
            + expectation_count(b, b.len()),
        expectation_count(seq![s], 1) == s.expected@.len(),
{
    reveal_with_fuel(expectation_count, 2);
    lemma_expectations(a, b, b.len());
}

proof fn lemma_expectations(a: Seq<FixtureStep>, b: Seq<FixtureStep>, n: nat)
    requires
        n <= b.len(),
    ensures
        expectation_count(a + b, a.len() + n) == expectation_count(a, a.len()) + expectation_count(
            b,
            n,
        ),
    decreases n,
{
    if n > 0 {
        lemma_expectations(a, b, (n - 1) as nat);
        assert((a + b)[a.len() + n - 1] == b[n - 1]);
    } else {
        lemma_same_expectations(a, b, a.len());
    }
}

proof fn lemma_same_expectations(a: Seq<FixtureStep>, b: Seq<FixtureStep>, n: nat)
    requires
        n <= a.len(),
    ensures
        expectation_count(a + b, n) == expectation_count(a, n),
    decreases n,
{
    if n > 0 {
        lemma_same_expectations(a, b, (n - 1) as nat);
        assert((a + b)[n - 1] == a[n - 1]);
    }
}

/// The names of the clock's methods are distinct.
proof fn lemma_clock_names()
    ensures
        "Ticks"@ != "ElapsedTime"@ && "Ticks"@ != "TickPeriod"@ && "Ticks"@ != "HiResTickPeriod"@,
        "TicksSince"@ != "ElapsedTime"@ && "TicksSince"@ != "TickPeriod"@ && "TicksSince"@
            != "HiResTickPeriod"@ && "TicksSince"@ != "Ticks"@ && "TicksSince"@ != "HiResTicks"@,
        "TicksBetween"@ != "ElapsedTime"@ && "TicksBetween"@ != "TickPeriod"@ && "TicksBetween"@
            != "HiResTickPeriod"@ && "TicksBetween"@ != "Ticks"@ && "TicksBetween"@ != "HiResTicks"@
            && "TicksBetween"@ != "TicksSince"@ && "TicksBetween"@ != "HiResTicksSince"@,
{
    reveal_strlit("Ticks");
    reveal_strlit("ElapsedTime");
    reveal_strlit("TickPeriod");
    reveal_strlit("HiResTickPeriod");
    reveal_strlit("HiResTicks");
    reveal_strlit("TicksSince");
    reveal_strlit("HiResTicksSince");
    reveal_strlit("TicksBetween");
    assert("Ticks"@.len() == 5 && "ElapsedTime"@.len() == 11 && "TickPeriod"@.len() == 10);
    assert("TickPeriod"@[4] == 'P' && "TicksSince"@[4] == 's' && "TicksSince"@.len() == 10);
    assert("HiResTickPeriod"@.len() == 15 && "HiResTicks"@.len() == 10 && "HiResTicks"@[0] == 'H');
    assert("TicksSince"@[0] == 'T' && "HiResTicksSince"@.len() == 15 && "TicksBetween"@.len() == 12);
}

/// The counter of ticks is the tick of the run, and differences of counters bring the earlier one to
/// the later one, each but for multiples of `2^32`.
pub proof fn law_tick_counters(from: u32, to: u32, time: EvalTime)
    ensures
        clock_answer("System"@, "Ticks"@, seq![], time) matches Clock::Known(
            Value::M1(M1Scalar::UnsignedInteger(n)),
        ) && exists|k: int| #[trigger] (k * 0x1_0000_0000) == time.base_tick - n,
        clock_answer(
            "System"@,
            "TicksBetween"@,
            seq![
                Value::M1(M1Scalar::UnsignedInteger(from)),
                Value::M1(M1Scalar::UnsignedInteger(to)),
            ],
            time,
        ) matches Clock::Known(Value::M1(M1Scalar::UnsignedInteger(n))) && (from + n == to || from + n
            == to + 0x1_0000_0000),
        clock_answer(
            "System"@,
            "TicksSince"@,
            seq![Value::M1(M1Scalar::UnsignedInteger(from))],
            time,
        ) matches Clock::Known(Value::M1(M1Scalar::UnsignedInteger(n))) && exists|k: int|
            #[trigger] (k * 0x1_0000_0000) == time.base_tick - from - n,
{
    lemma_clock_names();
    let now = time.base_tick as int % 0x1_0000_0000;
    let q = time.base_tick as int / 0x1_0000_0000;
    assert(q * 0x1_0000_0000 == time.base_tick - now);
    let d = (now - from) % 0x1_0000_0000;
    let k = q + (now - from) / 0x1_0000_0000;
    assert(k * 0x1_0000_0000 == time.base_tick - from - d);
}

/// Elapsed time is what has passed since the call site last ran, within rounding.
pub proof fn law_elapsed_time_of_a_site(
    before: EvalCtx,
    after: EvalCtx,
    call: HardwareCall,
    r: Result<Value, EvalError>,
    object: Seq<char>,
)
    requires
        falls_back(before, after, call, r),
        call.library() == Some(object),
        clock_answer(object, call.method@, call.arguments@, before.time) is Elapsed,
        before.time.elapsed_s.is_finite(),
        last_run(before.state.current(call.site.key()), before.time.elapsed_s).is_finite(),
    ensures
        r matches Ok(Value::M1(M1Scalar::FloatingPoint(v))) && (v.is_finite() ==> {
            let passed = before.time.elapsed_s.exact() - last_run(
                before.state.current(call.site.key()),
                before.time.elapsed_s,
            ).exact();
            size(v.exact() - passed) <= 4real * slack(passed)
        }),
{
    let now = before.time.elapsed_s;
    let last = last_run(before.state.current(call.site.key()), now);
    let d = now.minus(last);
    if d.narrow().is_finite() {
        lemma_narrow_operand(d);
        law_double_arithmetic(now, last);
        law_conversions(crate::float::binary32::F32 { bits: 0 }, d);
        lemma_double_rounding();
        crate::float::exact::lemma_single_rounding();
    }
}

} // verus!
