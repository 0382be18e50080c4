//! What makes each function run.

use crate::float::binary64::F64;
use crate::map::TextMap;
use vstd::prelude::*;

verus! {

/// What makes a function run.
#[derive(Debug)]
pub enum TriggerStatus {
    /// It runs at a rate.
    Periodic(F64),
    /// It runs once before the periodic loop.
    Startup,
    /// Other functions call it.
    Helper,
    /// No trigger is selected.
    Unscheduled,
    /// The selected trigger cannot be resolved.
    Unresolved {
        /// The trigger as selected.
        trigger: String,
        /// Why it cannot be resolved.
        reason: String,
    },
}

/// What makes each function run.
#[derive(Debug)]
pub struct TriggerMap {
    /// The status of each function.
    pub statuses: TextMap<TriggerStatus>,
}

impl TriggerMap {
    /// The rate of a periodic function.
    pub open spec fn rate_of(self, function: Seq<char>) -> Option<F64> {
        if self.statuses@.contains_key(function) {
            match self.statuses@[function] {
                TriggerStatus::Periodic(hz) => Some(hz),
                _ => None,
            }
        } else {
            None
        }
    }

    /// The rate of a periodic function.
    pub fn periodic_rate(&self, function: &str) -> (r: Option<F64>)
        ensures
            r == self.rate_of(function@),
    {
        match self.statuses.get(function) {
            Some(TriggerStatus::Periodic(hz)) => Some(*hz),
            _ => None,
        }
    }
}

} // verus!
