//! What drives a run.

use crate::counterfactual::Override;
use crate::env::CallSite;
use crate::float::binary64::F64;
use crate::log::InputSeries;
use crate::value::Value;
use vstd::prelude::*;

verus! {

/// What is run.
#[derive(Debug, PartialEq)]
pub enum RunMode {
    /// One function on every tick.
    Function(String),
    /// What one channel depends on.
    Cone(String),
    /// Every periodic function when it is due.
    WholeProject,
}

/// A value that a channel starts from.
#[derive(Debug)]
pub struct InitialValue {
    /// The channel.
    pub channel: String,
    /// The value.
    pub value: Value,
}

/// A value that stands for what a hardware call reports.
#[derive(Debug)]
pub struct IoValue {
    /// The call.
    pub call: String,
    /// The one call site that it holds for; every site where there is none.
    pub site: Option<CallSite>,
    /// The value.
    pub value: Value,
}

/// What drives a run.
#[derive(Debug)]
pub struct Scenario {
    /// What is run.
    pub mode: RunMode,
    /// The values that channels start from.
    pub initial_state: Vec<InitialValue>,
    /// The channels that are driven.
    pub inputs: Vec<InputSeries>,
    /// The channels that are overridden.
    pub overrides: Vec<Override>,
    /// The values of hardware calls.
    pub io: Vec<IoValue>,
    /// The seconds to run.
    pub duration_s: F64,
    /// The ticks in a second.
    pub base_rate_hz: F64,
    /// Whether a channel that nothing has set reads as its startup default.
    pub allow_default_inputs: bool,
}

} // verus!
