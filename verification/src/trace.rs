//! What a run records.

use crate::float::binary64::F64;
use crate::hardware::HardwareProvenance;
use crate::map::TextMap;
use crate::text::same;
use crate::value::Value;
use vstd::prelude::*;

verus! {

/// One assignment to a channel.
#[derive(Debug)]
pub struct TraceRecord {
    /// The channel.
    pub channel: String,
    /// The index of the tick.
    pub tick: usize,
    /// The value.
    pub value: Value,
}

/// A substituted input.
#[derive(Debug)]
pub struct Defaulted {
    /// The value that was taken.
    pub value: Value,
    /// The script that read the channel first.
    pub first_reader: String,
}

/// The record of a run.
#[derive(Debug)]
pub struct Trace {
    /// The instants of the ticks.
    pub time: Vec<F64>,
    /// The assignments in the order they were made.
    pub records: Vec<TraceRecord>,
    /// The names whose values came from outside.
    pub external: TextMap<bool>,
    /// The channels that took their startup value because nothing had set them.
    pub defaulted: TextMap<Defaulted>,
    /// The channels that were supplied from outside, with the tick.
    pub external_ticks: Vec<(String, usize)>,
    /// The answered hardware calls.
    pub hardware: Vec<HardwareProvenance>,
}

/// The last value assigned to a channel on a tick.
pub open spec fn value_at(records: Seq<TraceRecord>, channel: Seq<char>, tick: usize) -> Option<Value>
    decreases records.len(),
{
    if records.len() == 0 {
        None
    } else if records.last().channel@ == channel && records.last().tick == tick {
        Some(records.last().value)
    } else {
        value_at(records.drop_last(), channel, tick)
    }
}

/// The values assigned to a channel, in order.
pub open spec fn column_of(records: Seq<TraceRecord>, channel: Seq<char>) -> Seq<Value>
    decreases records.len(),
{
    if records.len() == 0 {
        Seq::empty()
    } else if records.last().channel@ == channel {
        column_of(records.drop_last(), channel).push(records.last().value)
    } else {
        column_of(records.drop_last(), channel)
    }
}

/// Whether a channel was ever assigned.
pub open spec fn has_channel(records: Seq<TraceRecord>, channel: Seq<char>) -> bool {
    exists|i: int| 0 <= i < records.len() && (#[trigger] records[i]).channel@ == channel
}

/// Whether a channel was supplied from outside on a tick.
pub open spec fn supplied_at(ticks: Seq<(String, usize)>, channel: Seq<char>, tick: usize) -> bool {
    exists|i: int|
        0 <= i < ticks.len() && (#[trigger] ticks[i]).0@ == channel && ticks[i].1 == tick
}

impl Trace {
    /// An empty trace.
    pub fn new() -> (r: Trace)
        ensures
            r.time@ == Seq::<F64>::empty(),
            r.records@ == Seq::<TraceRecord>::empty(),
            r.external@ == Map::<Seq<char>, bool>::empty(),
            r.defaulted@ == Map::<Seq<char>, Defaulted>::empty(),
            r.external_ticks@ == Seq::<(String, usize)>::empty(),
            r.hardware@ == Seq::<HardwareProvenance>::empty(),
    {
        Trace {
            time: Vec::new(),
            records: Vec::new(),
            external: TextMap::new(),
            defaulted: TextMap::new(),
            external_ticks: Vec::new(),
            hardware: Vec::new(),
        }
    }

    /// Opens a tick.
    pub fn push_tick(&mut self, t: F64)
        ensures
            final(self).time@ == old(self).time@.push(t),
            *final(self) == (Trace { time: final(self).time, ..*old(self) }),
    {
        self.time.push(t);
    }

    /// The index of the open tick.
    pub open spec fn open_tick(self) -> usize {
        if self.time.len() == 0 {
            0
        } else {
            (self.time.len() - 1) as usize
        }
    }

    /// Records an assignment on the open tick.
    pub fn record_channel(&mut self, channel: &str, value: Value)
        ensures
            final(self).records@.drop_last() == old(self).records@,
            final(self).records@.len() == old(self).records@.len() + 1,
            final(self).records@.last().channel@ == channel@,
            final(self).records@.last().tick == old(self).open_tick(),
            final(self).records@.last().value == value,
            *final(self) == (Trace { records: final(self).records, ..*old(self) }),
    {
        let tick: usize = if self.time.len() == 0 {
            0
        } else {
            self.time.len() - 1
        };
        self.records.push(TraceRecord { channel: channel.to_owned(), tick, value });
        assert(self.records@.drop_last() =~= old(self).records@);
    }

    /// Marks a name as driven from outside.
    pub fn mark_external(&mut self, name: &str)
        ensures
            final(self).external@ == old(self).external@.insert(name@, true),
            *final(self) == (Trace { external: final(self).external, ..*old(self) }),
    {
        self.external.insert(name.to_owned(), true);
    }

    /// Whether a trace records that a script took a substituted value: the first script that did
    /// is kept.
    pub open spec fn notes_default(
        self,
        before: Trace,
        name: Seq<char>,
        value: Value,
        reader: Seq<char>,
    ) -> bool {
        &&& self.external@ == before.external@.insert(name, true)
        &&& if before.defaulted@.contains_key(name) {
            self.defaulted@ == before.defaulted@
        } else {
            &&& self.defaulted@ == before.defaulted@.insert(name, self.defaulted@[name])
            &&& self.defaulted@[name].value == value
            &&& self.defaulted@[name].first_reader@ == reader
        }
        &&& self == (Trace { external: self.external, defaulted: self.defaulted, ..before })
    }

    /// Records that a script took a substituted value.
    pub fn note_default(&mut self, name: &str, value: Value, reader: &str)
        ensures
            final(self).notes_default(*old(self), name@, value, reader@),
    {
        self.external.insert(name.to_owned(), true);
        if !self.defaulted.contains(name) {
            let first_reader: String = reader.to_owned();
            self.defaulted.insert(name.to_owned(), Defaulted { value, first_reader });
        }
    }

    /// Whether a name is marked as driven from outside.
    pub fn is_external(&self, name: &str) -> (r: bool)
        ensures
            r == self.external@.contains_key(name@),
    {
        self.external.contains(name)
    }

    /// Records an answered hardware call.
    pub fn record_hardware(&mut self, record: HardwareProvenance)
        ensures
            final(self).hardware@ == old(self).hardware@.push(record),
            *final(self) == (Trace { hardware: final(self).hardware, ..*old(self) }),
    {
        self.hardware.push(record);
    }

    /// The last value assigned to a channel on a tick.
    pub fn channel_value_at_tick(&self, channel: &str, tick: usize) -> (r: Option<&Value>)
        ensures
            match value_at(self.records@, channel@, tick) {
                Some(v) => r matches Some(w) && *w == v,
                None => r is None,
            },
    {
        let mut n: usize = self.records.len();
        let ghost all = self.records@;
        assert(all.take(n as int) == all);
        while n > 0
            invariant
                n <= all.len(),
                all == self.records@,
                value_at(all, channel@, tick) == value_at(all.take(n as int), channel@, tick),
            decreases n,
        {
            let e = &self.records[n - 1];
            assert(all.take(n as int).last() == all[n - 1]);
            assert(all.take(n as int).drop_last() == all.take(n - 1));
            if e.tick == tick && same(e.channel.as_str(), channel) {
                return Some(&e.value);
            }
            n = n - 1;
        }
        None
    }

    /// The values assigned to a channel, in order.
    pub fn column(&self, channel: &str) -> (r: Vec<Value>)
        ensures
            r@ == column_of(self.records@, channel@),
    {
        let mut r: Vec<Value> = Vec::new();
        let mut i: usize = 0;
        let ghost all = self.records@;
        while i < self.records.len()
            invariant
                i <= all.len(),
                all == self.records@,
                r@ == column_of(all.take(i as int), channel@),
            decreases all.len() - i,
        {
            let e = &self.records[i];
            assert(all.take(i + 1).last() == all[i as int]);
            assert(all.take(i + 1).drop_last() == all.take(i as int));
            if same(e.channel.as_str(), channel) {
                r.push(e.value.duplicate());
            }
            i = i + 1;
        }
        assert(all.take(i as int) == all);
        r
    }

    /// Whether a channel was ever assigned.
    pub fn contains_channel(&self, channel: &str) -> (r: bool)
        ensures
            r == has_channel(self.records@, channel@),
    {
        let mut i: usize = 0;
        while i < self.records.len()
            invariant
                i <= self.records.len(),
                forall|j: int| 0 <= j < i ==> (#[trigger] self.records@[j]).channel@ != channel@,
            decreases self.records.len() - i,
        {
            if same(self.records[i].channel.as_str(), channel) {
                assert(self.records@[i as int].channel@ == channel@);
                return true;
            }
            i = i + 1;
        }
        false
    }

    /// Whether a channel was supplied from outside on a tick.
    pub fn channel_is_external_at_tick(&self, channel: &str, tick: usize) -> (r: bool)
        ensures
            r == supplied_at(self.external_ticks@, channel@, tick),
    {
        let mut i: usize = 0;
        while i < self.external_ticks.len()
            invariant
                i <= self.external_ticks.len(),
                forall|j: int|
                    0 <= j < i ==> !((#[trigger] self.external_ticks@[j]).0@ == channel@
                        && self.external_ticks@[j].1 == tick),
            decreases self.external_ticks.len() - i,
        {
            let e = &self.external_ticks[i];
            if e.1 == tick && same(e.0.as_str(), channel) {
                assert(self.external_ticks@[i as int].0@ == channel@);
                return true;
            }
            i = i + 1;
        }
        false
    }

    /// The assigned channels, each once and in order.
    pub fn channel_names(&self) -> (r: TextMap<bool>)
        ensures
            forall|k: Seq<char>| #[trigger] r@.contains_key(k) == has_channel(self.records@, k),
    {
        let mut r: TextMap<bool> = TextMap::new();
        let mut i: usize = 0;
        while i < self.records.len()
            invariant
                i <= self.records.len(),
                forall|k: Seq<char>| #[trigger]
                    r@.contains_key(k) == has_channel(self.records@.take(i as int), k),
            decreases self.records.len() - i,
        {
            let ghost s = self.records@.take(i as int);
            let ghost t = self.records@.take(i + 1);
            let ghost before = r@;
            let name = self.records[i].channel.clone();
            let ghost key = name@;
            r.insert(name, true);
            assert forall|k: Seq<char>| #[trigger] r@.contains_key(k) == has_channel(t, k) by {
                assert(t[i as int].channel@ == key);
                assert(before.contains_key(k) == has_channel(s, k));
                if has_channel(s, k) {
                    let j = choose|j: int| 0 <= j < s.len() && (#[trigger] s[j]).channel@ == k;
                    assert(t[j].channel@ == k);
                }
                if has_channel(t, k) && k != key {
                    let j = choose|j: int| 0 <= j < t.len() && (#[trigger] t[j]).channel@ == k;
                    assert(s[j].channel@ == k);
                }
            }
            i = i + 1;
        }
        assert(self.records@.take(i as int) == self.records@);
        r
    }
}

} // verus!
