//! The difference between a counterfactual run and the log it started from.
//!
//! Each numeric channel of the trace is compared, tick by tick, with the log's
//! series of the same name, of the name without the leading `Root.`, or of the
//! last segment. A channel whose fallback name another channel also claims is not
//! compared but reported.

use crate::float::binary64::F64;
use crate::log::{InputSeries, Log};
use crate::map::TextMap;
use crate::project::{after_prefix, has_prefix, leaf_start, split_at_leaf};
use crate::render::{
    array_json, comma_list, csv_field, csv_number, csv_text, json_array, json_number, json_string,
    json_text, num_csv, num_json, push_part,
};
use crate::text::{before, decimal, decimal_text, joined, same};
use crate::trace::{column_of, has_channel, Trace};
use crate::value::Value;
use vstd::prelude::*;
use vstd::string::*;

verus! {

/// The comparison of one channel.
#[derive(Debug, PartialEq)]
pub struct ChannelDiff {
    /// The logged value on each tick.
    pub logged: Vec<F64>,
    /// The counterfactual value on each tick.
    pub counterfactual: Vec<F64>,
    /// The counterfactual value less the logged one, on each tick.
    pub delta: Vec<F64>,
    /// The greatest size of a delta over the ticks where both sides are finite, or zero.
    /// It is infinite where a delta is too great for a binary64.
    pub max_abs_delta: F64,
    /// On how many ticks exactly one side is finite.
    pub non_finite_mismatches: usize,
    /// Whether the channel differs.
    pub changed: bool,
}

/// The content of a comparison.
pub struct DiffView {
    /// The logged values.
    pub logged: Seq<F64>,
    /// The counterfactual values.
    pub counterfactual: Seq<F64>,
    /// The deltas.
    pub delta: Seq<F64>,
    /// The greatest finite size of a delta.
    pub max_abs_delta: F64,
    /// On how many ticks exactly one side is finite.
    pub non_finite_mismatches: nat,
    /// Whether the channel differs.
    pub changed: bool,
}

impl View for ChannelDiff {
    type V = DiffView;

    open spec fn view(&self) -> DiffView {
        DiffView {
            logged: self.logged@,
            counterfactual: self.counterfactual@,
            delta: self.delta@,
            max_abs_delta: self.max_abs_delta,
            non_finite_mismatches: self.non_finite_mismatches as nat,
            changed: self.changed,
        }
    }
}

/// The default threshold: a billionth, in binary64.
pub open spec fn default_eps() -> F64 {
    F64 { bits: 0x3e11_2e0b_e826_d695 }
}

/// The comparison of a trace with a log.
#[derive(Debug)]
pub struct Diff {
    /// The instants of the trace.
    pub time: Vec<F64>,
    /// The compared channels.
    pub channels: TextMap<ChannelDiff>,
    /// The threshold above which a channel differs.
    pub eps: F64,
    /// The log channel that each compared channel was compared with.
    pub mapping: TextMap<String>,
    /// The channels left out because another channel claims their log channel, in order.
    pub ambiguous: Vec<String>,
}

/// A counterfactual run and its difference from the log.
#[derive(Debug)]
pub struct Counterfactual {
    /// The run.
    pub trace: Trace,
    /// The difference.
    pub diff: Diff,
}

/// The position of the log series of a trace channel, and whether the names are the same.
pub open spec fn matching(log: Log, path: Seq<char>) -> Option<(nat, bool)> {
    let short = path.skip("Root."@.len() as int);
    let leaf = path.skip(leaf_start(path) as int);
    match log.series_named(path) {
        Some(i) => Some((i, true)),
        None => if has_prefix(path, "Root."@) && log.series_named(short) is Some {
            Some((log.series_named(short)->Some_0, false))
        } else {
            match log.series_named(leaf) {
                Some(i) => Some((i, false)),
                None => None,
            }
        },
    }
}

/// The part of a text after its last dot.
fn leaf_of(path: &str) -> (r: String)
    ensures
        r@ == path@.skip(leaf_start(path@) as int),
{
    match split_at_leaf(path) {
        Some((_, leaf)) => leaf,
        None => {
            assert(path@.skip(0) =~= path@);
            path.to_owned()
        },
    }
}

fn match_log_series(log: &Log, path: &str) -> (r: Option<(usize, bool)>)
    ensures
        match matching(*log, path@) {
            Some((i, exact)) => r matches Some((k, e)) && k == i && e == exact && k
                < log.channels.len(),
            None => r is None,
        },
{
    if let Some(i) = log.series_for(path) {
        return Some((i, true));
    }
    if let Some(short) = after_prefix(path, "Root.") {
        if let Some(i) = log.series_for(short.as_str()) {
            return Some((i, false));
        }
    }
    let leaf = leaf_of(path);
    match log.series_for(leaf.as_str()) {
        Some(i) => Some((i, false)),
        None => None,
    }
}

/// The name of the log channel that a trace channel is matched with.
pub open spec fn log_name(log: Log, path: Seq<char>) -> Seq<char> {
    log.channels@[matching(log, path)->Some_0.0 as int].channel@
}

/// Whether a channel is matched by fallback with a log channel that another trace channel claims.
pub open spec fn is_ambiguous(log: Log, trace: Trace, path: Seq<char>) -> bool {
    &&& matching(log, path) matches Some((i, exact)) && !exact
    &&& exists|other: Seq<char>|
        #![trigger has_channel(trace.records@, other)]
        has_channel(trace.records@, other) && other != path && matching(log, other) is Some
            && log_name(log, other) == log_name(log, path)
}

/// The numbers of a column; nothing where a value is none.
pub open spec fn numbers_of(column: Seq<Value>) -> Option<Seq<F64>>
    decreases column.len(),
{
    if column.len() == 0 {
        Some(Seq::empty())
    } else {
        match (numbers_of(column.drop_last()), column.last().number()) {
            (Some(s), Some(x)) => Some(s.push(x)),
            _ => None,
        }
    }
}

/// The number of a series at an instant; a NaN where it has none.
pub open spec fn logged_at(series: InputSeries, t: F64) -> F64 {
    match series.value_at(t) {
        Some(v) => match v.number() {
            Some(x) => x,
            None => F64 { bits: 0x7ff8_0000_0000_0000 },
        },
        None => F64 { bits: 0x7ff8_0000_0000_0000 },
    }
}

/// The lesser of two lengths.
pub open spec fn shorter(a: nat, b: nat) -> nat {
    if a < b {
        a
    } else {
        b
    }
}

/// The greatest size of a delta over those of the first `n` ticks where both sides are
/// finite, or zero.
pub open spec fn greatest(a: Seq<F64>, b: Seq<F64>, n: nat) -> F64
    decreases n,
{
    if n == 0 {
        F64 { bits: 0 }
    } else {
        let rest = greatest(a, b, (n - 1) as nat);
        if a[n - 1].is_finite() && b[n - 1].is_finite() {
            rest.max(b[n - 1].minus(a[n - 1]).abs())
        } else {
            rest
        }
    }
}

/// Among the first `n` ticks, on how many exactly one side is finite.
pub open spec fn mismatches(a: Seq<F64>, b: Seq<F64>, n: nat) -> nat
    decreases n,
{
    if n == 0 {
        0
    } else {
        mismatches(a, b, (n - 1) as nat) + if a[n - 1].is_finite() != b[n - 1].is_finite() {
            1nat
        } else {
            0
        }
    }
}

/// The comparison of two columns.
pub open spec fn compared(logged: Seq<F64>, counterfactual: Seq<F64>, eps: F64) -> DiffView {
    let n = shorter(logged.len(), counterfactual.len());
    let delta = Seq::new(n, |i: int| counterfactual[i].minus(logged[i]));
    let max_abs_delta = greatest(logged, counterfactual, n);
    let count = mismatches(logged, counterfactual, n);
    DiffView {
        logged,
        counterfactual,
        delta,
        max_abs_delta,
        non_finite_mismatches: count,
        changed: eps.less(max_abs_delta) || count > 0,
    }
}

/// The comparison of a channel, where it is compared.
pub open spec fn channel_diff(log: Log, trace: Trace, eps: F64, path: Seq<char>) -> Option<DiffView> {
    if !has_channel(trace.records@, path) || matching(log, path) is None || is_ambiguous(
        log,
        trace,
        path,
    ) {
        None
    } else {
        match numbers_of(column_of(trace.records@, path)) {
            Some(numbers) => {
                let series = log.channels@[matching(log, path)->Some_0.0 as int];
                Some(compared(trace.time@.map_values(|t: F64| logged_at(series, t)), numbers, eps))
            },
            None => None,
        }
    }
}

fn column_as_numbers(column: &Vec<Value>) -> (r: Option<Vec<F64>>)
    ensures
        match numbers_of(column@) {
            Some(s) => r matches Some(v) && v@ == s,
            None => r is None,
        },
{
    let mut out: Vec<F64> = Vec::new();
    let mut i: usize = 0;
    while i < column.len()
        invariant
            i <= column.len(),
            numbers_of(column@.take(i as int)) == Some(out@),
        decreases column.len() - i,
    {
        assert(column@.take(i + 1).drop_last() =~= column@.take(i as int));
        assert(column@.take(i + 1).last() == column@[i as int]);
        match column[i].as_f64() {
            Ok(x) => {
                out.push(x);
            },
            Err(_) => {
                proof {
                    assert(numbers_of(column@.take(i + 1)) is None);
                    lemma_numbers_fail(column@, i + 1);
                }
                return None;
            },
        }
        i = i + 1;
    }
    assert(column@.take(i as int) =~= column@);
    Some(out)
}

proof fn lemma_numbers_fail(column: Seq<Value>, i: int)
    requires
        0 <= i <= column.len(),
        numbers_of(column.take(i)) is None,
    ensures
        numbers_of(column) is None,
    decreases column.len() - i,
{
    if i < column.len() {
        assert(column.take(i + 1).drop_last() =~= column.take(i));
        lemma_numbers_fail(column, i + 1);
    } else {
        assert(column.take(i) =~= column);
    }
}

fn sample_number(series: &InputSeries, t: F64) -> (r: F64)
    ensures
        r == logged_at(*series, t),
{
    let nan = F64::from_bits(0x7ff8_0000_0000_0000);
    match series.sample(t) {
        Some(v) => match v.as_f64() {
            Ok(x) => x,
            Err(_) => nan,
        },
        None => nan,
    }
}

fn sample_all(series: &InputSeries, time: &Vec<F64>) -> (r: Vec<F64>)
    ensures
        r@ == time@.map_values(|t: F64| logged_at(*series, t)),
{
    let mut out: Vec<F64> = Vec::new();
    let mut i: usize = 0;
    while i < time.len()
        invariant
            i <= time.len(),
            out.len() == i,
            forall|j: int| 0 <= j < i ==> out@[j] == logged_at(*series, #[trigger] time@[j]),
        decreases time.len() - i,
    {
        out.push(sample_number(series, time[i]));
        i = i + 1;
    }
    assert(out@ =~= time@.map_values(|t: F64| logged_at(*series, t)));
    out
}

/// Compares two columns.
pub fn compare_columns(logged: Vec<F64>, counterfactual: Vec<F64>, eps: F64) -> (r: ChannelDiff)
    ensures
        r@ == compared(logged@, counterfactual@, eps),
{
    let n: usize = if logged.len() < counterfactual.len() {
        logged.len()
    } else {
        counterfactual.len()
    };
    let ghost whole = Seq::new(n as nat, |i: int| counterfactual@[i].minus(logged@[i]));
    let mut delta: Vec<F64> = Vec::new();
    let mut max_abs_delta: F64 = F64::from_bits(0);
    let mut count: usize = 0;
    let mut i: usize = 0;
    while i < n
        invariant
            i <= n <= logged.len(),
            n <= counterfactual.len(),
            whole == Seq::new(n as nat, |i: int| counterfactual@[i].minus(logged@[i])),
            delta@ =~= whole.take(i as int),
            max_abs_delta == greatest(logged@, counterfactual@, i as nat),
            count == mismatches(logged@, counterfactual@, i as nat),
            count <= i,
        decreases n - i,
    {
        let d = counterfactual[i].minus(logged[i]);
        assert(whole[i as int] == d);
        if logged[i].is_finite() && counterfactual[i].is_finite() {
            max_abs_delta = max_abs_delta.max(d.abs());
        }
        if logged[i].is_finite() != counterfactual[i].is_finite() {
            count = count + 1;
        }
        delta.push(d);
        i = i + 1;
    }
    assert(whole.take(n as int) =~= whole);
    let changed = eps.less(max_abs_delta) || count > 0;
    ChannelDiff {
        logged,
        counterfactual,
        delta,
        max_abs_delta,
        non_finite_mismatches: count,
        changed,
    }
}

/// Whether another of the channels claims the log channel of one.
fn claimed_elsewhere(log: &Log, names: &TextMap<bool>, path: &str, index: usize) -> (r: bool)
    requires
        index < log.channels.len(),
    ensures
        r == exists|other: Seq<char>| #[trigger]
            names@.contains_key(other) && other != path@ && matching(*log, other) is Some
                && log_name(*log, other) == log.channels@[index as int].channel@,
{
    let n: usize = names.len();
    let ghost items = names.items();
    let mut i: usize = 0;
    while i < n
        invariant
            i <= n == items.len(),
            items == names.items(),
            index < log.channels.len(),
            crate::map::in_order(items),
            names@ == crate::map::map_of(items),
            forall|j: int|
                0 <= j < i ==> !((#[trigger] items[j]).0@ != path@ && matching(
                    *log,
                    items[j].0@,
                ) is Some && log_name(*log, items[j].0@) == log.channels@[index as int].channel@),
        decreases n - i,
    {
        let e = names.at(i);
        if !same(e.0.as_str(), path) {
            if let Some((k, _)) = match_log_series(log, e.0.as_str()) {
                if same(log.channels[k].channel.as_str(), log.channels[index].channel.as_str()) {
                    proof {
                        crate::map::lemma_map_of(items, i as int);
                        assert(names@.contains_key(items[i as int].0@));
                    }
                    return true;
                }
            }
        }
        i = i + 1;
    }
    assert(!exists|other: Seq<char>| #[trigger]
        names@.contains_key(other) && other != path@ && matching(*log, other) is Some && log_name(
            *log,
            other,
        ) == log.channels@[index as int].channel@) by {
        if exists|other: Seq<char>| #[trigger]
            names@.contains_key(other) && other != path@ && matching(*log, other) is Some
                && log_name(*log, other) == log.channels@[index as int].channel@ {
            let other = choose|other: Seq<char>| #[trigger]
                names@.contains_key(other) && other != path@ && matching(*log, other) is Some
                    && log_name(*log, other) == log.channels@[index as int].channel@;
            assert(crate::map::has_key(items, other));
            let j = choose|j: int| 0 <= j < items.len() && #[trigger] items[j].0@ == other;
            assert(items[j].0@ != path@);
        }
    }
    false
}

/// Whether texts are in strictly increasing order.
pub open spec fn texts_in_order(s: Seq<String>) -> bool {
    forall|i: int, j: int| 0 <= i < j < s.len() ==> before((#[trigger] s[i])@, (#[trigger] s[j])@)
}

/// Whether a text is in a list.
pub open spec fn text_in(s: Seq<String>, t: Seq<char>) -> bool {
    exists|i: int| 0 <= i < s.len() && (#[trigger] s[i])@ == t
}

/// Whether a difference is that of a trace from a log.
pub open spec fn is_diff(d: Diff, log: Log, trace: Trace, eps: F64) -> bool {
    &&& d.time@ == trace.time@
    &&& d.eps == eps
    &&& forall|p: Seq<char>| #[trigger]
        d.channels@.contains_key(p) == channel_diff(log, trace, eps, p).is_some()
    &&& forall|p: Seq<char>| #[trigger]
        d.channels@.contains_key(p) ==> Some(d.channels@[p]@) == channel_diff(log, trace, eps, p)
    &&& forall|p: Seq<char>| #[trigger]
        d.mapping@.contains_key(p) == d.channels@.contains_key(p)
    &&& forall|p: Seq<char>| #[trigger]
        d.mapping@.contains_key(p) ==> d.mapping@[p]@ == log_name(log, p)
    &&& texts_in_order(d.ambiguous@)
    &&& forall|p: Seq<char>| #[trigger]
        text_in(d.ambiguous@, p) == (has_channel(trace.records@, p) && is_ambiguous(log, trace, p))
}

/// Whether one of the first `n` entries has a key.
spec fn passed(items: Seq<(String, bool)>, n: int, p: Seq<char>) -> bool {
    exists|j: int| 0 <= j < n && (#[trigger] items[j]).0@ == p
}

/// The next entry is passed after it.
proof fn lemma_passed(items: Seq<(String, bool)>, n: int)
    requires
        0 <= n < items.len(),
    ensures
        forall|p: Seq<char>| #[trigger]
            passed(items, n + 1, p) == (passed(items, n, p) || items[n].0@ == p),
{
    assert forall|p: Seq<char>| #[trigger]
        passed(items, n + 1, p) == (passed(items, n, p) || items[n].0@ == p) by {
        if passed(items, n + 1, p) {
            let j = choose|j: int| 0 <= j < n + 1 && (#[trigger] items[j]).0@ == p;
            if j < n {
                assert(passed(items, n, p));
            }
        }
        if passed(items, n, p) {
            let j = choose|j: int| 0 <= j < n && (#[trigger] items[j]).0@ == p;
            assert(items[j].0@ == p);
        }
        assert(items[n].0@ == items[n].0@);
    }
}

/// Adding a text that comes after all others.
proof fn lemma_text_pushed(s: Seq<String>, t: String)
    ensures
        forall|p: Seq<char>| #[trigger] text_in(s.push(t), p) == (text_in(s, p) || t@ == p),
{
    assert forall|p: Seq<char>| #[trigger] text_in(s.push(t), p) == (text_in(s, p) || t@ == p) by {
        let u = s.push(t);
        if text_in(u, p) {
            let i = choose|i: int| 0 <= i < u.len() && (#[trigger] u[i])@ == p;
            if i < s.len() {
                assert(s[i]@ == p);
            }
        }
        if text_in(s, p) {
            let i = choose|i: int| 0 <= i < s.len() && (#[trigger] s[i])@ == p;
            assert(u[i]@ == p);
        }
        assert(u[s.len() as int]@ == t@);
    }
}

impl Diff {
    /// Compares a trace with a log, at the default threshold.
    pub fn between(log: &Log, trace: &Trace) -> (r: Diff)
        ensures
            is_diff(r, *log, *trace, default_eps()),
    {
        Diff::between_eps(log, trace, F64::from_bits(0x3e11_2e0b_e826_d695))
    }

    /// Compares a trace with a log.
    pub fn between_eps(log: &Log, trace: &Trace, eps: F64) -> (r: Diff)
        ensures
            is_diff(r, *log, *trace, eps),
    {
        let names: TextMap<bool> = trace.channel_names();
        let n: usize = names.len();
        let ghost items = names.items();
        let mut channels: TextMap<ChannelDiff> = TextMap::new();
        let mut mapping: TextMap<String> = TextMap::new();
        let mut ambiguous: Vec<String> = Vec::new();
        let mut i: usize = 0;
        while i < n
            invariant
                i <= n == items.len(),
                items == names.items(),
                crate::map::in_order(items),
                names@ == crate::map::map_of(items),
                forall|k: Seq<char>| #[trigger]
                    names@.contains_key(k) == has_channel(trace.records@, k),
                forall|p: Seq<char>| #[trigger]
                    channels@.contains_key(p) == (passed(items, i as int, p) && channel_diff(
                        *log,
                        *trace,
                        eps,
                        p,
                    ).is_some()),
                forall|p: Seq<char>| #[trigger]
                    channels@.contains_key(p) ==> Some(channels@[p]@) == channel_diff(
                        *log,
                        *trace,
                        eps,
                        p,
                    ),
                forall|p: Seq<char>| #[trigger]
                    mapping@.contains_key(p) == channels@.contains_key(p),
                forall|p: Seq<char>| #[trigger]
                    mapping@.contains_key(p) ==> mapping@[p]@ == log_name(*log, p),
                texts_in_order(ambiguous@),
                forall|k: int|
                    0 <= k < ambiguous@.len() ==> passed(
                        items,
                        i as int,
                        (#[trigger] ambiguous@[k])@,
                    ),
                forall|p: Seq<char>| #[trigger]
                    text_in(ambiguous@, p) == (passed(items, i as int, p) && is_ambiguous(
                        *log,
                        *trace,
                        p,
                    )),
            decreases n - i,
        {
            let e = names.at(i);
            let path: &str = e.0.as_str();
            let ghost key = path@;
            let ghost old_channels = channels@;
            let ghost old_mapping = mapping@;
            let ghost old_ambiguous = ambiguous@;
            proof {
                lemma_passed(items, i as int);
                crate::map::lemma_map_of(items, i as int);
                assert(names@.contains_key(key));
                assert(!passed(items, i as int, key)) by {
                    if passed(items, i as int, key) {
                        let j = choose|j: int| 0 <= j < i && (#[trigger] items[j]).0@ == key;
                        assert(before(items[j].0@, items[i as int].0@));
                        crate::text::lemma_before_total(key, key);
                    }
                }
            }
            match match_log_series(log, path) {
                Some((index, exact)) => {
                    let conflict = !exact && claimed_elsewhere(log, &names, path, index);
                    proof {
                        assert(log_name(*log, key) == log.channels@[index as int].channel@);
                        lemma_claims(*log, *trace, names@, key);
                    }
                    assert(conflict == is_ambiguous(*log, *trace, key));
                    if conflict {
                        let text: String = path.to_owned();
                        proof {
                            lemma_text_pushed(old_ambiguous, text);
                            lemma_order_pushed(items, i as int, old_ambiguous, text);
                        }
                        ambiguous.push(text);
                    } else {
                        let column = trace.column(path);
                        if let Some(counterfactual) = column_as_numbers(&column) {
                            let series = &log.channels[index];
                            let logged = sample_all(series, &trace.time);
                            let d = compare_columns(logged, counterfactual, eps);
                            mapping.insert(path.to_owned(), series.channel.clone());
                            channels.insert(path.to_owned(), d);
                        }
                    }
                },
                None => {},
            }
            i = i + 1;
        }
        proof {
            assert forall|p: Seq<char>| passed(items, n as int, p) == has_channel(
                trace.records@,
                p,
            ) by {
                assert(names@.contains_key(p) == crate::map::has_key(items, p));
                if crate::map::has_key(items, p) {
                    let j = choose|j: int| 0 <= j < items.len() && #[trigger] items[j].0@ == p;
                    assert(passed(items, n as int, p));
                }
                if passed(items, n as int, p) {
                    let j = choose|j: int| 0 <= j < n && (#[trigger] items[j]).0@ == p;
                    assert(crate::map::has_key(items, p));
                }
            }
        }
        let time = copy_numbers(&trace.time);
        Diff { time, channels, eps, mapping, ambiguous }
    }

    /// The channels that differ, in order.
    pub fn changed_channels(&self) -> (r: Vec<String>)
        ensures
            texts_in_order(r@),
            forall|p: Seq<char>| #[trigger]
                text_in(r@, p) == (self.channels@.contains_key(p) && self.channels@[p].changed),
    {
        let n: usize = self.channels.len();
        let ghost items = self.channels.items();
        let mut r: Vec<String> = Vec::new();
        let mut i: usize = 0;
        while i < n
            invariant
                i <= n == items.len(),
                items == self.channels.items(),
                crate::map::in_order(items),
                self.channels@ == crate::map::map_of(items),
                texts_in_order(r@),
                forall|k: int|
                    0 <= k < r@.len() ==> exists|j: int|
                        0 <= j < i && (#[trigger] r@[k])@ == (#[trigger] items[j]).0@,
                forall|p: Seq<char>| #[trigger]
                    text_in(r@, p) == exists|j: int|
                        0 <= j < i && (#[trigger] items[j]).0@ == p && items[j].1.changed,
            decreases n - i,
        {
            let e = self.channels.at(i);
            let ghost old_r = r@;
            let ghost key = e.0@;
            if e.1.changed {
                let text: String = e.0.clone();
                proof {
                    lemma_text_pushed(old_r, text);
                    assert forall|a: int, b: int| 0 <= a < b < old_r.push(text).len() implies before(
                        (#[trigger] old_r.push(text)[a])@,
                        (#[trigger] old_r.push(text)[b])@,
                    ) by {
                        if b == old_r.len() {
                            let j = choose|j: int|
                                0 <= j < i && (#[trigger] old_r[a])@ == (#[trigger] items[j]).0@;
                            assert(before(items[j].0@, items[i as int].0@));
                        } else {
                            assert(before(old_r[a]@, old_r[b]@));
                        }
                    }
                }
                r.push(text);
                assert(items[i as int].0@ == key);
                assert forall|k: int| 0 <= k < r@.len() implies exists|j: int|
                    0 <= j < i + 1 && (#[trigger] r@[k])@ == (#[trigger] items[j]).0@ by {
                    if k < old_r.len() {
                        let j = choose|j: int|
                            0 <= j < i && (#[trigger] old_r[k])@ == (#[trigger] items[j]).0@;
                        assert(r@[k]@ == items[j].0@);
                    } else {
                        assert(r@[k]@ == items[i as int].0@);
                    }
                }
            }
            assert forall|p: Seq<char>| #[trigger]
                text_in(r@, p) == exists|j: int|
                    0 <= j < i + 1 && (#[trigger] items[j]).0@ == p && items[j].1.changed by {
                if text_in(old_r, p) {
                    let j = choose|j: int|
                        0 <= j < i && (#[trigger] items[j]).0@ == p && items[j].1.changed;
                    assert(items[j].0@ == p);
                }
                if exists|j: int|
                    0 <= j < i + 1 && (#[trigger] items[j]).0@ == p && items[j].1.changed {
                    let j = choose|j: int|
                        0 <= j < i + 1 && (#[trigger] items[j]).0@ == p && items[j].1.changed;
                    if j < i {
                        assert(text_in(old_r, p));
                    }
                }
            }
            i = i + 1;
        }
        proof {
            assert forall|p: Seq<char>| #[trigger]
                text_in(r@, p) == (self.channels@.contains_key(p) && self.channels@[p].changed) by {
                if self.channels@.contains_key(p) {
                    let j = choose|j: int| 0 <= j < items.len() && #[trigger] items[j].0@ == p;
                    crate::map::lemma_map_of(items, j);
                }
                if text_in(r@, p) {
                    let j = choose|j: int|
                        0 <= j < n && (#[trigger] items[j]).0@ == p && items[j].1.changed;
                    crate::map::lemma_map_of(items, j);
                }
            }
        }
        r
    }
}

/// One channel of a difference in JSON.
pub open spec fn channel_json(path: Seq<char>, d: ChannelDiff) -> Seq<char> {
    json_text(path) + ":{\"max_abs_delta\":"@ + json_number(d.max_abs_delta)
        + ",\"non_finite_mismatches\":"@ + decimal(d.non_finite_mismatches as nat)
        + ",\"changed\":"@ + (if d.changed {
        "true"@
    } else {
        "false"@
    }) + ",\"logged\":"@ + json_array(d.logged@) + ",\"counterfactual\":"@ + json_array(
        d.counterfactual@,
    ) + ",\"delta\":"@ + json_array(d.delta@) + "}"@
}

fn channel_to_json(path: &str, d: &ChannelDiff) -> (r: String)
    ensures
        r@ == channel_json(path@, *d),
{
    let mut s: String = json_string(path);
    s.append(":{\"max_abs_delta\":");
    let a = num_json(d.max_abs_delta);
    s.append(a.as_str());
    s.append(",\"non_finite_mismatches\":");
    let b = decimal_text(d.non_finite_mismatches as u64);
    s.append(b.as_str());
    s.append(",\"changed\":");
    s.append(if d.changed { "true" } else { "false" });
    s.append(",\"logged\":");
    let c = array_json(&d.logged);
    s.append(c.as_str());
    s.append(",\"counterfactual\":");
    let e = array_json(&d.counterfactual);
    s.append(e.as_str());
    s.append(",\"delta\":");
    let f = array_json(&d.delta);
    s.append(f.as_str());
    s.append("}");
    s
}

/// The channels of a difference in JSON, in order.
pub open spec fn channel_parts(items: Seq<(String, ChannelDiff)>) -> Seq<Seq<char>> {
    items.map_values(|e: (String, ChannelDiff)| channel_json(e.0@, e.1))
}

/// The mapping of a difference in JSON, in order.
pub open spec fn mapping_parts(items: Seq<(String, String)>) -> Seq<Seq<char>> {
    items.map_values(|e: (String, String)| json_text(e.0@) + ":"@ + json_text(e.1@))
}

/// The ambiguous channels in JSON.
pub open spec fn ambiguous_parts(s: Seq<String>) -> Seq<Seq<char>> {
    s.map_values(|t: String| json_text(t@))
}

/// A difference in JSON.
pub open spec fn diff_json(d: Diff) -> Seq<char> {
    "{\"eps\":"@ + json_number(d.eps) + ",\"time\":"@ + json_array(d.time@)
        + ",\"channels\":{"@ + comma_list(channel_parts(d.channels.items()))
        + "},\"mapping\":{"@ + comma_list(mapping_parts(d.mapping.items())) + "},\"ambiguous\":["@
        + comma_list(ambiguous_parts(d.ambiguous@)) + "]}"@
}

/// The header of a difference in CSV.
pub open spec fn csv_header(items: Seq<(String, ChannelDiff)>) -> Seq<char>
    decreases items.len(),
{
    if items.len() == 0 {
        "time"@
    } else {
        let p = items.last().0@;
        csv_header(items.drop_last()) + ","@ + csv_text(p + " logged"@) + ","@ + csv_text(
            p + " cf"@,
        ) + ","@ + csv_text(p + " delta"@)
    }
}

/// A number of a column; a NaN beyond its end.
pub open spec fn cell_at(column: Seq<F64>, i: int) -> F64 {
    if i < column.len() {
        column[i]
    } else {
        F64 { bits: 0x7ff8_0000_0000_0000 }
    }
}

/// A row of a difference in CSV.
pub open spec fn csv_row(t: F64, items: Seq<(String, ChannelDiff)>, i: int) -> Seq<char>
    decreases items.len(),
{
    if items.len() == 0 {
        csv_number(t)
    } else {
        let d = items.last().1;
        csv_row(t, items.drop_last(), i) + ","@ + csv_number(
            cell_at(d.logged@, i),
        ) + ","@ + csv_number(cell_at(d.counterfactual@, i)) + ","@ + csv_number(
            cell_at(d.delta@, i),
        )
    }
}

/// The first `n` rows of a difference in CSV.
pub open spec fn csv_rows(d: Diff, n: nat) -> Seq<char>
    decreases n,
{
    if n == 0 {
        Seq::empty()
    } else {
        csv_rows(d, (n - 1) as nat) + csv_row(
            d.time@[n - 1],
            d.channels.items(),
            n - 1,
        ) + "\n"@
    }
}

fn column_cell(column: &Vec<F64>, i: usize) -> (r: F64)
    ensures
        r == cell_at(column@, i as int),
{
    if i < column.len() {
        column[i]
    } else {
        F64::from_bits(0x7ff8_0000_0000_0000)
    }
}

fn row_to_csv(t: F64, channels: &TextMap<ChannelDiff>, i: usize) -> (r: String)
    ensures
        r@ == csv_row(t, channels.items(), i as int),
{
    let mut out: String = num_csv(t);
    let n: usize = channels.len();
    let ghost items = channels.items();
    let mut k: usize = 0;
    assert(items.take(0).len() == 0);
    while k < n
        invariant
            k <= n == items.len(),
            items == channels.items(),
            out@ == csv_row(t, items.take(k as int), i as int),
        decreases n - k,
    {
        let d = &channels.at(k).1;
        assert(items.take(k + 1).drop_last() =~= items.take(k as int));
        assert(items.take(k + 1).last() == items[k as int]);
        out.append(",");
        let a = num_csv(column_cell(&d.logged, i));
        out.append(a.as_str());
        out.append(",");
        let b = num_csv(column_cell(&d.counterfactual, i));
        out.append(b.as_str());
        out.append(",");
        let c = num_csv(column_cell(&d.delta, i));
        out.append(c.as_str());
        k = k + 1;
    }
    assert(items.take(k as int) =~= items);
    out
}

impl Diff {
    /// Writes the difference as JSON.
    pub fn to_json(&self) -> (r: String)
        ensures
            r@ == diff_json(*self),
    {
        let mut s: String = "{\"eps\":".to_owned();
        let eps = num_json(self.eps);
        s.append(eps.as_str());
        s.append(",\"time\":");
        let time = array_json(&self.time);
        s.append(time.as_str());
        s.append(",\"channels\":{");
        let ghost head = s@;
        let ghost items = self.channels.items();
        let ghost parts = channel_parts(items);
        let n: usize = self.channels.len();
        let mut i: usize = 0;
        assert(parts.take(0).len() == 0);
        assert(head + comma_list(parts.take(0)) =~= head);
        while i < n
            invariant
                i <= n == items.len() == parts.len(),
                items == self.channels.items(),
                parts == channel_parts(items),
                s@ == head + comma_list(parts.take(i as int)),
            decreases n - i,
        {
            let e = self.channels.at(i);
            let part = channel_to_json(e.0.as_str(), &e.1);
            push_part(&mut s, part.as_str(), Ghost(head), Ghost(parts), i);
            i = i + 1;
        }
        assert(parts.take(i as int) =~= parts);
        s.append("},\"mapping\":{");
        let ghost head2 = s@;
        let ghost items2 = self.mapping.items();
        let ghost parts2 = mapping_parts(items2);
        let m: usize = self.mapping.len();
        let mut j: usize = 0;
        assert(parts2.take(0).len() == 0);
        assert(head2 + comma_list(parts2.take(0)) =~= head2);
        while j < m
            invariant
                j <= m == items2.len() == parts2.len(),
                items2 == self.mapping.items(),
                parts2 == mapping_parts(items2),
                s@ == head2 + comma_list(parts2.take(j as int)),
            decreases m - j,
        {
            let e = self.mapping.at(j);
            let mut part: String = json_string(e.0.as_str());
            part.append(":");
            let value = json_string(e.1.as_str());
            part.append(value.as_str());
            push_part(&mut s, part.as_str(), Ghost(head2), Ghost(parts2), j);
            j = j + 1;
        }
        assert(parts2.take(j as int) =~= parts2);
        s.append("},\"ambiguous\":[");
        let ghost head3 = s@;
        let ghost parts3 = ambiguous_parts(self.ambiguous@);
        let mut k: usize = 0;
        assert(parts3.take(0).len() == 0);
        assert(head3 + comma_list(parts3.take(0)) =~= head3);
        while k < self.ambiguous.len()
            invariant
                k <= self.ambiguous.len() == parts3.len(),
                parts3 == ambiguous_parts(self.ambiguous@),
                s@ == head3 + comma_list(parts3.take(k as int)),
            decreases self.ambiguous.len() - k,
        {
            let part = json_string(self.ambiguous[k].as_str());
            push_part(&mut s, part.as_str(), Ghost(head3), Ghost(parts3), k);
            k = k + 1;
        }
        assert(parts3.take(k as int) =~= parts3);
        s.append("]}");
        s
    }

    /// Writes the difference as CSV: a column of instants and three for each channel.
    pub fn to_csv(&self) -> (r: String)
        ensures
            r@ == csv_header(self.channels.items()) + "\n"@ + csv_rows(
                *self,
                self.time@.len(),
            ),
    {
        let mut out: String = "time".to_owned();
        let n: usize = self.channels.len();
        let ghost items = self.channels.items();
        let mut k: usize = 0;
        assert(items.take(0).len() == 0);
        while k < n
            invariant
                k <= n == items.len(),
                items == self.channels.items(),
                out@ == csv_header(items.take(k as int)),
            decreases n - k,
        {
            let p: &str = self.channels.at(k).0.as_str();
            assert(items.take(k + 1).drop_last() =~= items.take(k as int));
            assert(items.take(k + 1).last() == items[k as int]);
            let a = joined(p, " logged");
            let b = joined(p, " cf");
            let c = joined(p, " delta");
            let fa = csv_field(a.as_str());
            let fb = csv_field(b.as_str());
            let fc = csv_field(c.as_str());
            out.append(",");
            out.append(fa.as_str());
            out.append(",");
            out.append(fb.as_str());
            out.append(",");
            out.append(fc.as_str());
            k = k + 1;
        }
        assert(items.take(k as int) =~= items);
        out.append("\n");
        let ghost head = out@;
        let mut i: usize = 0;
        assert(head + csv_rows(*self, 0) =~= head);
        while i < self.time.len()
            invariant
                i <= self.time.len(),
                out@ == head + csv_rows(*self, i as nat),
            decreases self.time.len() - i,
        {
            let row = row_to_csv(self.time[i], &self.channels, i);
            let ghost so_far = out@;
            out.append(row.as_str());
            out.append("\n");
            assert(out@ =~= head + csv_rows(*self, (i + 1) as nat));
            i = i + 1;
        }
        out
    }
}

/// The claims on a log channel by the channels of a trace.
proof fn lemma_claims(log: Log, trace: Trace, names: Map<Seq<char>, bool>, key: Seq<char>)
    requires
        forall|k: Seq<char>| #[trigger]
            names.contains_key(k) == has_channel(trace.records@, k),
    ensures
        (exists|other: Seq<char>| #[trigger]
            names.contains_key(other) && other != key && matching(log, other) is Some && log_name(
                log,
                other,
            ) == log_name(log, key)) == (exists|other: Seq<char>|
            #![trigger has_channel(trace.records@, other)]
            has_channel(trace.records@, other) && other != key && matching(log, other) is Some
                && log_name(log, other) == log_name(log, key)),
{
    if exists|other: Seq<char>|
        #![trigger has_channel(trace.records@, other)]
        has_channel(trace.records@, other) && other != key && matching(log, other) is Some
            && log_name(log, other) == log_name(log, key) {
        let other = choose|other: Seq<char>|
            #![trigger has_channel(trace.records@, other)]
            has_channel(trace.records@, other) && other != key && matching(log, other) is Some
                && log_name(log, other) == log_name(log, key);
        assert(names.contains_key(other));
    }
}

/// Adding the key of the next entry keeps texts in order.
proof fn lemma_order_pushed(items: Seq<(String, bool)>, n: int, s: Seq<String>, t: String)
    requires
        0 <= n < items.len(),
        crate::map::in_order(items),
        texts_in_order(s),
        t@ == items[n].0@,
        forall|k: int| 0 <= k < s.len() ==> passed(items, n, (#[trigger] s[k])@),
    ensures
        texts_in_order(s.push(t)),
        forall|k: int| 0 <= k < s.push(t).len() ==> passed(items, n + 1, (#[trigger] s.push(t)[k])@),
{
    let u = s.push(t);
    lemma_passed(items, n);
    assert forall|a: int, b: int| 0 <= a < b < u.len() implies before(
        (#[trigger] u[a])@,
        (#[trigger] u[b])@,
    ) by {
        if b == s.len() {
            assert(passed(items, n, s[a]@));
            let j = choose|j: int| 0 <= j < n && (#[trigger] items[j]).0@ == s[a]@;
            assert(before(items[j].0@, items[n].0@));
        } else {
            assert(before(s[a]@, s[b]@));
        }
    }
    assert forall|k: int| 0 <= k < u.len() implies passed(items, n + 1, (#[trigger] u[k])@) by {
        if k < s.len() {
            assert(passed(items, n, s[k]@));
        }
    }
}

fn copy_numbers(v: &Vec<F64>) -> (r: Vec<F64>)
    ensures
        r@ == v@,
{
    let mut out: Vec<F64> = Vec::new();
    let mut i: usize = 0;
    while i < v.len()
        invariant
            i <= v.len(),
            out@ =~= v@.take(i as int),
        decreases v.len() - i,
    {
        out.push(v[i]);
        i = i + 1;
    }
    assert(v@.take(i as int) =~= v@);
    out
}

/// The deltas of a column with itself have no size.
proof fn lemma_no_size(column: Seq<F64>, n: nat)
    requires
        n <= column.len(),
    ensures
        greatest(column, column, n) == (F64 { bits: 0 }),
        mismatches(column, column, n) == 0,
    decreases n,
{
    if n > 0 {
        lemma_no_size(column, (n - 1) as nat);
        if column[n - 1].is_finite() {
            crate::float::laws::law_difference_with_itself(column[n - 1]);
        }
    }
}

/// A channel of a run that gives what the log holds does not differ.
pub proof fn law_identity_is_unchanged(log: Log, trace: Trace, eps: F64, path: Seq<char>)
    requires
        !eps.less(F64 { bits: 0 }),
        channel_diff(log, trace, eps, path) is Some,
        channel_diff(log, trace, eps, path)->Some_0.logged == channel_diff(
            log,
            trace,
            eps,
            path,
        )->Some_0.counterfactual,
    ensures
        !channel_diff(log, trace, eps, path)->Some_0.changed,
{
    let d = channel_diff(log, trace, eps, path)->Some_0;
    lemma_no_size(d.logged, d.logged.len());
}

/// Where each compared channel of a run gives what the log holds, the difference names no
/// changed channel.
pub proof fn law_identity_changes_no_channel(d: Diff, log: Log, trace: Trace, eps: F64)
    requires
        !eps.less(F64 { bits: 0 }),
        is_diff(d, log, trace, eps),
        forall|p: Seq<char>| #[trigger]
            d.channels@.contains_key(p) ==> d.channels@[p].logged@
                == d.channels@[p].counterfactual@,
    ensures
        forall|p: Seq<char>| #[trigger]
            d.channels@.contains_key(p) ==> !d.channels@[p].changed,
{
    assert forall|p: Seq<char>| #[trigger] d.channels@.contains_key(p) implies !d.channels@[p].changed by {
        law_identity_is_unchanged(log, trace, eps, p);
    }
}

} // verus!
