//! The boundary to hardware: what a call hands out, and what comes back.

use crate::env::CallSite;
use crate::float::binary64::F64;
use crate::project::{dotted, dotted_text};
use crate::value::Value;
use vstd::prelude::*;

verus! {

/// The part of a run in which a call is made.
#[derive(Clone, Copy, PartialEq, Eq, Structural, Debug)]
pub enum EvalPhase {
    /// Before the first tick.
    Startup,
    /// On a tick.
    Periodic,
}

/// The place of a call on the timeline of a run.
#[derive(Clone, Copy, PartialEq, Eq, Structural, Debug)]
pub struct EvalTime {
    /// The part of the run.
    pub phase: EvalPhase,
    /// The index of the base tick.
    pub base_tick: u64,
    /// The seconds since the start.
    pub elapsed_s: F64,
    /// The seconds between base ticks.
    pub base_period_s: F64,
    /// The seconds between executions of the function.
    pub step_s: F64,
}

impl EvalTime {
    /// The startup instant.
    pub fn at_start(period_s: F64) -> (r: EvalTime)
        ensures
            r == (EvalTime {
                phase: EvalPhase::Startup,
                base_tick: 0,
                elapsed_s: F64 { bits: 0 },
                base_period_s: period_s,
                step_s: period_s,
            }),
    {
        EvalTime {
            phase: EvalPhase::Startup,
            base_tick: 0,
            elapsed_s: F64::from_bits(0),
            base_period_s: period_s,
            step_s: period_s,
        }
    }

    /// An instant on a tick.
    pub fn periodic(base_tick: u64, elapsed_s: F64, base_period_s: F64, step_s: F64) -> (r: EvalTime)
        ensures
            r == (EvalTime {
                phase: EvalPhase::Periodic,
                base_tick,
                elapsed_s,
                base_period_s,
                step_s,
            }),
    {
        EvalTime { phase: EvalPhase::Periodic, base_tick, elapsed_s, base_period_s, step_s }
    }
}

/// What a call is made on.
#[derive(Debug, Clone, PartialEq, Eq)]
pub enum ResolvedReceiver {
    /// An object of the builtin library.
    Library {
        /// Its catalog name.
        object: String,
    },
    /// A project symbol.
    Symbol {
        /// Its canonical path.
        path: String,
    },
    /// A spelling that resolves to nothing.
    Unresolved {
        /// The spelling.
        spelling: String,
    },
}

impl ResolvedReceiver {
    /// The name that the receiver is known by.
    pub open spec fn name(self) -> Seq<char> {
        match self {
            ResolvedReceiver::Library { object } => object@,
            ResolvedReceiver::Symbol { path } => path@,
            ResolvedReceiver::Unresolved { spelling } => spelling@,
        }
    }

    /// The name that the receiver is known by.
    pub fn name_text(&self) -> (r: &str)
        ensures
            r@ == self.name(),
    {
        match self {
            ResolvedReceiver::Library { object } => object.as_str(),
            ResolvedReceiver::Symbol { path } => path.as_str(),
            ResolvedReceiver::Unresolved { spelling } => spelling.as_str(),
        }
    }

    /// The same receiver again.
    pub fn duplicate(&self) -> (r: ResolvedReceiver)
        ensures
            r == *self,
    {
        match self {
            ResolvedReceiver::Library { object } => {
                ResolvedReceiver::Library { object: object.clone() }
            },
            ResolvedReceiver::Symbol { path } => ResolvedReceiver::Symbol { path: path.clone() },
            ResolvedReceiver::Unresolved { spelling } => {
                ResolvedReceiver::Unresolved { spelling: spelling.clone() }
            },
        }
    }
}

/// The route that a hardware call takes. It fixes the return type and what stands
/// in for an answer.
#[derive(Clone, Copy, Debug, PartialEq, Eq, Structural)]
pub enum HardwareRoute {
    /// A library object's method.
    Library,
    /// A method on an object of the project.
    Project,
}

/// One hardware call.
#[derive(Debug)]
pub struct HardwareCall {
    /// The route it takes.
    pub route: HardwareRoute,
    /// What it is made on.
    pub receiver: ResolvedReceiver,
    /// The receiver as written.
    pub source_receiver: String,
    /// The method.
    pub method: String,
    /// Where it is made.
    pub site: CallSite,
    /// Its arguments.
    pub arguments: Vec<Value>,
    /// When it is made.
    pub time: EvalTime,
}

impl HardwareCall {
    /// The library object it is made on, on the library route.
    pub open spec fn library(self) -> Option<Seq<char>> {
        match (self.route, self.receiver) {
            (HardwareRoute::Library, ResolvedReceiver::Library { object }) => Some(object@),
            _ => None,
        }
    }

    /// The library object it is made on, on the library route.
    pub fn library_object(&self) -> (r: Option<&str>)
        ensures
            match r {
                Some(o) => self.library() == Some(o@),
                None => self.library() is None,
            },
    {
        match (self.route, &self.receiver) {
            (HardwareRoute::Library, ResolvedReceiver::Library { object }) => Some(object.as_str()),
            _ => None,
        }
    }

    /// The resolved receiver and the method, with a dot between.
    pub open spec fn canonical(self) -> Seq<char> {
        dotted(self.receiver.name(), self.method@)
    }

    /// The receiver as written and the method, with a dot between.
    pub open spec fn source(self) -> Seq<char> {
        dotted(self.source_receiver@, self.method@)
    }

    /// The resolved receiver and the method, with a dot between.
    pub fn canonical_name(&self) -> (r: String)
        ensures
            r@ == self.canonical(),
    {
        dotted_text(self.receiver.name_text(), self.method.as_str())
    }

    /// The receiver as written and the method, with a dot between.
    pub fn source_name(&self) -> (r: String)
        ensures
            r@ == self.source(),
    {
        dotted_text(self.source_receiver.as_str(), self.method.as_str())
    }
}

/// What an adapter says to a call.
#[derive(Debug)]
pub enum AdapterReply {
    /// The value of the call.
    Value(Value),
    /// The adapter does not know the call.
    Unhandled,
}

/// Where the value of a hardware call came from.
#[derive(Clone, Copy, PartialEq, Eq, Structural, Debug)]
pub enum HardwareValueSource {
    /// A scenario value for this call site.
    ScenarioExact,
    /// A scenario value for every call of the name.
    ScenarioWildcard,
    /// An adapter.
    Adapter,
    /// The clock of the run.
    SystemModel,
    /// A documented or typed offline value.
    GenericStub,
}

impl HardwareValueSource {
    /// Whether the value came from outside the evaluator's own computation.
    pub open spec fn external(self) -> bool {
        !(self is SystemModel)
    }

    /// Whether the value came from outside the evaluator's own computation.
    pub fn is_external(self) -> (r: bool)
        ensures
            r == self.external(),
    {
        match self {
            HardwareValueSource::SystemModel => false,
            _ => true,
        }
    }
}

/// The record of one answered hardware call.
#[derive(Debug)]
pub struct HardwareProvenance {
    /// What the call was made on.
    pub receiver: ResolvedReceiver,
    /// The call as written.
    pub source_call: String,
    /// The method.
    pub method: String,
    /// Where it was made.
    pub site: CallSite,
    /// Where its value came from.
    pub source: HardwareValueSource,
}

impl HardwareProvenance {
    /// Whether this records `call` as answered from `source`.
    pub open spec fn records(self, call: HardwareCall, source: HardwareValueSource) -> bool {
        &&& self.receiver == call.receiver
        &&& self.source_call@ == call.source()
        &&& self.method@ == call.method@
        &&& self.site == call.site
        &&& self.source == source
    }

    /// The record of a call.
    pub fn new(call: &HardwareCall, source: HardwareValueSource) -> (r: HardwareProvenance)
        ensures
            r.records(*call, source),
    {
        HardwareProvenance {
            receiver: call.receiver.duplicate(),
            source_call: call.source_name(),
            method: call.method.clone(),
            site: call.site.duplicate(),
            source,
        }
    }

    /// The resolved receiver and the method, with a dot between.
    pub fn canonical_call(&self) -> (r: String)
        ensures
            r@ == dotted(self.receiver.name(), self.method@),
    {
        dotted_text(self.receiver.name_text(), self.method.as_str())
    }
}

} // verus!
