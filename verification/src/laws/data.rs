//! What the stored, logged and traced values hold to.

use crate::builtins::object::{accepts, admits, RuleView};
use crate::coerce::{to_kind, to_type};
use crate::conformance::{value_mismatch, ValueTolerance};
use crate::diff::{matching, numbers_of};
use crate::engine::{is_base, whole_rate};
use crate::float::binary64::F64;
use crate::float::exact::{law_double_order, law_whole_toward, lemma_constants, size, slack};
use crate::laws::methods::{law_scalars_in_single, worth};
use crate::log::{held, series_index, split_at, InputSeries, Log};
use crate::project::{has_prefix, leaf_start, lemma_leaf_start};
use crate::trace::{column_of, value_at, TraceRecord};
use crate::value::{M1Scalar, M1ScalarKind, Value, ValueType};
use vstd::prelude::*;

verus! {

/// Before its first point a series has the value of that point, and a series without points has
/// none.
pub proof fn law_series_start_at_their_first_point(points: Seq<(F64, Value)>, t: F64)
    requires
        forall|j: int| 0 < j < points.len() ==> !(#[trigger] points[j]).0.at_most(t),
    ensures
        points.len() > 0 ==> held(points, t) == Some(points[0].1),
        points.len() == 0 ==> held(points, t) is None,
    decreases points.len(),
{
    if points.len() > 1 {
        let rest = points.drop_last();
        assert(!points[points.len() - 1].0.at_most(t));
        assert forall|j: int| 0 < j < rest.len() implies !(#[trigger] rest[j]).0.at_most(t) by {
            assert(points[j] == rest[j]);
        }
        law_series_start_at_their_first_point(rest, t);
    }
}

/// A log has a channel just where one of its series is of that name, and the first of them is it.
pub proof fn law_first_series_counts(log: Log, name: Seq<char>)
    ensures
        match log.series_named(name) {
            Some(i) => i < log.channels@.len() && log.channels@[i as int].channel@ == name && forall|
                j: int,
            |
                0 <= j < i ==> (#[trigger] log.channels@[j]).channel@ != name,
            None => forall|j: int|
                0 <= j < log.channels@.len() ==> (#[trigger] log.channels@[j]).channel@ != name,
        },
{
    lemma_first_series(log.channels@, name);
}

proof fn lemma_first_series(channels: Seq<InputSeries>, name: Seq<char>)
    ensures
        series_index(channels, name) <= channels.len(),
        forall|j: int|
            0 <= j < series_index(channels, name) ==> (#[trigger] channels[j]).channel@ != name,
        series_index(channels, name) < channels.len() ==> channels[series_index(
            channels,
            name,
        ) as int].channel@ == name,
    decreases channels.len(),
{
    if channels.len() > 0 && channels[0].channel@ != name {
        let rest = channels.drop_first();
        lemma_first_series(rest, name);
        assert forall|j: int| 0 <= j < series_index(channels, name) implies (
        #[trigger] channels[j]).channel@ != name by {
            if j > 0 {
                assert(channels[j] == rest[j - 1]);
            }
        }
    }
}

/// The texts of a list, one after the other with a character between them.
pub open spec fn rejoined(parts: Seq<Seq<char>>, c: char) -> Seq<char>
    decreases parts.len(),
{
    if parts.len() == 0 {
        Seq::empty()
    } else if parts.len() == 1 {
        parts[0]
    } else {
        rejoined(parts.drop_last(), c) + seq![c] + parts.last()
    }
}

/// The parts that a character splits a text into do not hold it, and with it between them they are
/// the text again.
pub proof fn law_split_parts_rejoin(s: Seq<char>, c: char)
    ensures
        split_at(s, c).len() > 0,
        rejoined(split_at(s, c), c) == s,
        forall|i: int| 0 <= i < split_at(s, c).len() ==> !(#[trigger] split_at(s, c)[i]).contains(c),
    decreases s.len(),
{
    let parts = split_at(s, c);
    if s.len() == 0 {
        assert(rejoined(parts, c) =~= s);
    } else {
        let t = s.drop_last();
        law_split_parts_rejoin(t, c);
        let rest = split_at(t, c);
        if s.last() == c {
            assert(parts.drop_last() =~= rest);
            assert(rejoined(parts, c) =~= t + seq![c] + Seq::<char>::empty());
            assert(s =~= t.push(c));
        } else {
            let last = rest.last().push(s.last());
            assert(parts =~= rest.drop_last().push(last));
            assert forall|i: int| 0 <= i < parts.len() implies !(#[trigger] parts[i]).contains(c) by {
                if i == parts.len() - 1 {
                    let old_last = rest[rest.len() - 1];
                    assert(!old_last.contains(c));
                    assert forall|k: int| 0 <= k < last.len() implies last[k] != c by {
                        if k < old_last.len() {
                            assert(old_last[k] == last[k]);
                            assert(old_last.contains(old_last[k]));
                        }
                    }
                } else {
                    assert(parts[i] == rest[i]);
                }
            }
            if parts.len() == 1 {
                assert(rejoined(rest, c) == rest[0]);
                assert(s =~= last);
            } else {
                assert(parts.drop_last() =~= rest.drop_last());
                assert(s =~= t.push(s.last()));
                assert(rejoined(parts, c) =~= rejoined(rest, c).push(s.last()));
            }
        }
    }
}

/// The value of a channel on a tick is that of the last record of it.
pub proof fn law_value_is_of_the_last_record(records: Seq<TraceRecord>, channel: Seq<char>, tick: usize)
    ensures
        match value_at(records, channel, tick) {
            Some(v) => exists|i: int| #[trigger] is_last_record(records, channel, tick, i) && v
                == records[i].value,
            None => forall|i: int|
                0 <= i < records.len() ==> (#[trigger] records[i]).channel@ != channel
                    || records[i].tick != tick,
        },
    decreases records.len(),
{
    if records.len() > 0 {
        let rest = records.drop_last();
        let n = records.len() - 1;
        if records[n].channel@ == channel && records[n].tick == tick {
            assert(is_last_record(records, channel, tick, n));
        } else {
            law_value_is_of_the_last_record(rest, channel, tick);
            if value_at(rest, channel, tick) is Some {
                let i = choose|i: int| #[trigger] is_last_record(rest, channel, tick, i)
                    && value_at(rest, channel, tick) == Some(rest[i].value);
                assert forall|j: int| i < j < records.len() implies (
                #[trigger] records[j]).channel@ != channel || records[j].tick != tick by {
                    if j < n {
                        assert(records[j] == rest[j]);
                    }
                }
                assert(is_last_record(records, channel, tick, i));
            } else {
                assert forall|i: int| 0 <= i < records.len() implies (
                #[trigger] records[i]).channel@ != channel || records[i].tick != tick by {
                    if i < n {
                        assert(records[i] == rest[i]);
                    }
                }
            }
        }
    }
}

/// Whether a record is the last of a channel on a tick.
pub open spec fn is_last_record(
    records: Seq<TraceRecord>,
    channel: Seq<char>,
    tick: usize,
    i: int,
) -> bool {
    &&& 0 <= i < records.len() && records[i].channel@ == channel && records[i].tick == tick
    &&& forall|j: int|
        i < j < records.len() ==> (#[trigger] records[j]).channel@ != channel || records[j].tick != tick
}

/// The column of a channel is the values of its records, in order.
pub proof fn law_columns(records: Seq<TraceRecord>, channel: Seq<char>)
    ensures
        column_of(records, channel) == records.filter(
            |r: TraceRecord| r.channel@ == channel,
        ).map_values(|r: TraceRecord| r.value),
    decreases records.len(),
{
    let mine = |r: TraceRecord| r.channel@ == channel;
    let value = |r: TraceRecord| r.value;
    reveal(Seq::filter);
    if records.len() > 0 {
        law_columns(records.drop_last(), channel);
        let rest = records.drop_last().filter(mine);
        if mine(records.last()) {
            assert(rest.push(records.last()).map_values(value) =~= rest.map_values(value).push(
                records.last().value,
            ));
        }
    } else {
        assert(records.filter(mine).map_values(value) =~= Seq::<Value>::empty());
    }
}

/// The numbers of a column are those of its values, one for one; a value that is none leaves the
/// column without numbers.
pub proof fn law_numbers_of_columns(column: Seq<Value>)
    ensures
        match numbers_of(column) {
            Some(s) => s.len() == column.len() && forall|i: int|
                0 <= i < column.len() ==> Some(#[trigger] s[i]) == column[i].number(),
            None => exists|i: int| 0 <= i < column.len() && (#[trigger] column[i]).number() is None,
        },
    decreases column.len(),
{
    if column.len() > 0 {
        let rest = column.drop_last();
        law_numbers_of_columns(rest);
        if numbers_of(rest) is None {
            let i = choose|i: int| 0 <= i < rest.len() && (#[trigger] rest[i]).number() is None;
            assert(column[i].number() is None);
        } else if column.last().number() is None {
            assert(column[column.len() - 1].number() is None);
        }
    }
}

/// A rate is a whole one just where it is a whole number of ticks in a second, from one to a million.
pub proof fn law_whole_rates(hz: F64, n: int)
    requires
        hz.is_finite(),
    ensures
        whole_rate(hz) == Some(n) <==> hz.exact() == n as real && 1 <= n <= 1_000_000,
{
    law_whole_toward(hz);
}

/// A base of rates is a common multiple of them.
pub proof fn law_bases_are_common_multiples(rates: Seq<F64>, b: int, i: int)
    requires
        is_base(rates, b),
        0 <= i < rates.len(),
    ensures
        exists|n: int, k: int| #[trigger] (n * k) == b && rates[i].exact() == n as real && k >= 1,
{
    assert(crate::engine::divides(rates[i], b));
    let n = whole_rate(rates[i])->Some_0;
    law_whole_rates(rates[i], n);
    vstd::arithmetic::div_mod::lemma_fundamental_div_mod(b, n);
    let k = b / n;
    assert(n * k == b);
    assert(k >= 1) by (nonlinear_arith)
        requires
            n * k == b,
            b > 0,
            n >= 1,
    ;
}

/// Converting a scalar to a family keeps its value: exactly within a family, by a multiple of
/// `2^32` between signed and unsigned, and within rounding to floating point. Fixed point takes
/// fixed point alone, and integers take integers alone.
pub proof fn law_conversion_keeps_the_value(s: M1Scalar, kind: M1ScalarKind)
    requires
        s matches M1Scalar::FloatingPoint(v) ==> v.is_finite(),
    ensures
        match to_kind(Value::M1(s), kind) {
            Some(v) => v matches Value::M1(t) && t.kind() == kind && {
                &&& s.kind() == kind ==> t == s
                &&& kind is FloatingPoint ==> size(worth(t) - worth(s)) <= 8real * slack(worth(s))
                &&& kind is Integer || kind is UnsignedInteger ==> worth(t) == worth(s) || worth(t)
                    == worth(s) + 4294967296real || worth(t) == worth(s) - 4294967296real
                &&& kind is FixedPoint7dps ==> s is FixedPoint7dps
            },
            None => s.kind() != kind && !(kind is FloatingPoint) && (kind is FixedPoint7dps
                || s is FloatingPoint || s is FixedPoint7dps),
        },
{
    if kind is FloatingPoint {
        law_scalars_in_single(s);
        crate::float::exact::lemma_single_rounding();
    }
}

/// A value that is no script number converts to no scalar family, and to its own type alone.
pub proof fn law_other_values_keep_their_type(value: Value, kind: M1ScalarKind)
    requires
        !(value is M1),
    ensures
        to_kind(value, kind) is None,
        to_type(value, ValueType::Boolean) == (if value is Bool { Some(value) } else { None }),
        to_type(value, ValueType::String) == (if value is Str { Some(value) } else { None }),
        to_type(value, ValueType::Unknown) == Some(value),
{
}

/// The channels of a log that a channel of a trace can stand for: the one of its own name, the one
/// of its name without the root, and the one of its last part.
pub proof fn law_matched_names(log: Log, path: Seq<char>)
    ensures
        match matching(log, path) {
            Some((i, same)) => i < log.channels@.len() && ({
                let name = log.channels@[i as int].channel@;
                &&& same == (name == path)
                &&& same || log.series_named(path) is None
                &&& name == path || path == "Root."@ + name || (name.len() <= path.len() && name
                    == path.skip(path.len() - name.len()) && !name.contains('.'))
            }),
            None => log.series_named(path) is None,
        },
{
    law_first_series_counts(log, path);
    let short = path.skip("Root."@.len() as int);
    let k = leaf_start(path);
    let leaf = path.skip(k as int);
    law_first_series_counts(log, short);
    law_first_series_counts(log, leaf);
    lemma_leaf_start(path);
    if has_prefix(path, "Root."@) {
        assert(path =~= "Root."@ + short);
    }
}

/// The distance of two stored counts is no more than a tolerance just where they match, whichever
/// was expected.
pub proof fn law_fixed_point_comparison(e: M1Scalar, a: M1Scalar, raw: u32)
    requires
        e is FixedPoint7dps,
        a is FixedPoint7dps,
    ensures
        value_mismatch(
            Value::M1(e),
            Value::M1(a),
            Some(ValueTolerance::FixedPoint7dps { raw }),
        ) is Ok <==> size(worth(a) - worth(e)) * 10000000real <= raw as int as real,
{
}

/// Values that compare exactly match just where they are equal, with any tolerance, and values of
/// different families never match.
pub proof fn law_exact_comparison(e: Value, a: Value, tolerance: Option<ValueTolerance>)
    ensures
        e matches Value::Bool(x) ==> (value_mismatch(e, a, tolerance) is Ok <==> a == Value::Bool(x)),
        e matches Value::M1(M1Scalar::Integer(x)) ==> (value_mismatch(e, a, tolerance) is Ok <==> a
            == Value::M1(M1Scalar::Integer(x))),
        e matches Value::M1(M1Scalar::UnsignedInteger(x)) ==> (value_mismatch(e, a, tolerance) is Ok
            <==> a == Value::M1(M1Scalar::UnsignedInteger(x))),
        e matches Value::Str(x) ==> (value_mismatch(e, a, tolerance) is Ok <==> (a matches Value::Str(
            y,
        ) && x@ == y@)),
        e matches Value::Enum { id, member } ==> (value_mismatch(e, a, tolerance) is Ok <==> (
        a matches Value::Enum { id: i, member: m } && i == id && m@ == member@)),
        e matches Value::M1(M1Scalar::FixedPoint7dps(_)) ==> value_mismatch(e, a, tolerance) is Ok ==> (
        a matches Value::M1(M1Scalar::FixedPoint7dps(_))),
        e matches Value::M1(M1Scalar::FloatingPoint(_)) ==> value_mismatch(e, a, tolerance) is Ok ==> (
        a matches Value::M1(M1Scalar::FloatingPoint(_))),
        e is Int || e is Uint || e is Float ==> value_mismatch(e, a, tolerance) is Err,
{
}

/// A rule with bounds admits the numbers from the lower to the upper one, and a rule for numbers
/// that are not negative those from zero on.
pub proof fn law_rules_admit_their_range(rule: RuleView, s: M1Scalar)
    requires
        s.wide().is_finite(),
        rule matches RuleView::MinMax(min, max) ==> min.is_finite() && max.is_finite(),
    ensures
        rule matches RuleView::MinMax(min, max) ==> accepts(rule, s) == Some(
            min.exact() <= s.wide().exact() && s.wide().exact() <= max.exact(),
        ),
        rule is NonNegative ==> accepts(rule, s) == Some(s.wide().exact() >= 0real),
        rule is Unsupported ==> accepts(rule, s) is None,
{
    lemma_constants();
    let x = s.wide();
    law_double_order(F64 { bits: 0 }, x);
    if let RuleView::MinMax(min, max) = rule {
        law_double_order(min, x);
        law_double_order(x, max);
    }
}

} // verus!
