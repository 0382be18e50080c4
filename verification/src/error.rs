//! The error type. Evaluation never substitutes a guessed value.

use crate::float::binary64::F64;
use vstd::prelude::*;
use vstd::string::*;

verus! {

/// Why evaluation stopped.
#[derive(Debug, PartialEq)]
pub enum EvalError {
    /// A builtin that is not implemented.
    UnsupportedBuiltin {
        /// The receiver as written.
        object: String,
        /// The method as written.
        method: String,
    },
    /// A known builtin whose behavior is not established.
    UnsupportedBuiltinBehavior {
        /// The receiver.
        object: String,
        /// The method.
        method: String,
        /// The missing evidence.
        reason: String,
    },
    /// A syntactic construct that is not handled.
    UnsupportedConstruct {
        /// What was found.
        kind: String,
        /// Its byte offset.
        at: usize,
    },
    /// A name that resolves to nothing.
    UnresolvedSymbol {
        /// The name.
        name: String,
    },
    /// A parameter or table cell that the calibration lacks.
    MissingCalibration {
        /// The symbol path.
        path: String,
    },
    /// A mismatch of types.
    TypeError {
        /// What was wrong.
        detail: String,
    },
    /// An input that the scenario had to provide.
    MissingInput {
        /// The channel.
        channel: String,
    },
    /// Hardware metadata that nothing supplied.
    MissingHardwareMetadata {
        /// The call.
        call: String,
    },
    /// A wrong argument count or kind.
    BadCall {
        /// What was wrong.
        detail: String,
    },
    /// An error with the script and the instant at which it arose.
    InScript {
        /// The script.
        script: String,
        /// The tick instant, or `None` in the startup pass.
        t: Option<F64>,
        /// The error itself.
        source: Box<EvalError>,
    },
}

/// Whether an error is a type error with an explanation.
pub open spec fn is_type_error(e: EvalError, detail: Seq<char>) -> bool {
    e matches EvalError::TypeError { detail: d } && d@ == detail
}

/// Whether an error is a bad call with an explanation.
pub open spec fn is_bad_call(e: EvalError, detail: Seq<char>) -> bool {
    e matches EvalError::BadCall { detail: d } && d@ == detail
}

/// A type error with an explanation.
pub fn type_error(detail: &str) -> (r: EvalError)
    ensures
        is_type_error(r, detail@),
{
    EvalError::TypeError { detail: detail.to_owned() }
}

/// A bad call with an explanation.
pub fn bad_call(detail: &str) -> (r: EvalError)
    ensures
        is_bad_call(r, detail@),
{
    EvalError::BadCall { detail: detail.to_owned() }
}

/// An unsupported builtin, by its source spelling.
pub fn unsupported(object: &str, method: &str) -> (r: EvalError)
    ensures
        is_unsupported(r, object@, method@),
{
    EvalError::UnsupportedBuiltin { object: object.to_owned(), method: method.to_owned() }
}

/// Whether an error reports a builtin as unsupported.
pub open spec fn is_unsupported(e: EvalError, object: Seq<char>, method: Seq<char>) -> bool {
    e matches EvalError::UnsupportedBuiltin { object: o, method: m } && o@ == object && m@ == method
}

impl EvalError {
    /// Adds the script and the instant, unless a deeper boundary has done so.
    pub fn in_script(self, script: &str, t: Option<F64>) -> (r: EvalError)
        ensures
            r.root() == self.root(),
            self is InScript ==> r == self,
            !(self is InScript) ==> (r matches EvalError::InScript { script: s, t: u, source }
                && s@ == script@ && u == t && *source == self),
    {
        match self {
            EvalError::InScript { .. } => self,
            source => EvalError::InScript {
                script: script.to_owned(),
                t,
                source: Box::new(source),
            },
        }
    }

    /// The innermost error.
    pub open spec fn root(self) -> EvalError
        decreases self,
    {
        match self {
            EvalError::InScript { source, .. } => source.root(),
            other => other,
        }
    }

    /// The innermost error: what went wrong rather than where.
    pub fn root_cause(&self) -> (r: &EvalError)
        ensures
            *r == self.root(),
            !(*r is InScript),
        decreases self,
    {
        match self {
            EvalError::InScript { source, .. } => source.root_cause(),
            other => other,
        }
    }

    /// The same error again.
    pub fn duplicate(&self) -> (r: EvalError)
        ensures
            r == *self,
        decreases self,
    {
        match self {
            EvalError::UnsupportedBuiltin { object, method } => {
                EvalError::UnsupportedBuiltin { object: object.clone(), method: method.clone() }
            },
            EvalError::UnsupportedBuiltinBehavior { object, method, reason } => {
                EvalError::UnsupportedBuiltinBehavior {
                    object: object.clone(),
                    method: method.clone(),
                    reason: reason.clone(),
                }
            },
            EvalError::UnsupportedConstruct { kind, at } => {
                EvalError::UnsupportedConstruct { kind: kind.clone(), at: *at }
            },
            EvalError::UnresolvedSymbol { name } => {
                EvalError::UnresolvedSymbol { name: name.clone() }
            },
            EvalError::MissingCalibration { path } => {
                EvalError::MissingCalibration { path: path.clone() }
            },
            EvalError::TypeError { detail } => EvalError::TypeError { detail: detail.clone() },
            EvalError::MissingInput { channel } => {
                EvalError::MissingInput { channel: channel.clone() }
            },
            EvalError::MissingHardwareMetadata { call } => {
                EvalError::MissingHardwareMetadata { call: call.clone() }
            },
            EvalError::BadCall { detail } => EvalError::BadCall { detail: detail.clone() },
            EvalError::InScript { script, t, source } => {
                EvalError::InScript {
                    script: script.clone(),
                    t: *t,
                    source: Box::new(source.duplicate()),
                }
            },
        }
    }

    /// The message.
    pub fn to_text(&self) -> (r: String)
        ensures
            r@ == self.message(),
        decreases self,
    {
        match self {
            EvalError::UnsupportedBuiltin { object, method } => {
                cat4("unsupported builtin: ", object.as_str(), ".", method.as_str())
            },
            EvalError::UnsupportedBuiltinBehavior { object, method, reason } => {
                let head = cat4(
                    "unsupported builtin behavior: ",
                    object.as_str(),
                    ".",
                    method.as_str(),
                );
                head.concat(": ").concat(reason.as_str())
            },
            EvalError::UnsupportedConstruct { kind, at } => {
                let place = crate::text::decimal_text(*at as u64);
                cat4("unsupported construct ", kind.as_str(), " at byte ", place.as_str())
            },
            EvalError::UnresolvedSymbol { name } => {
                crate::text::joined("unresolved symbol: ", name.as_str())
            },
            EvalError::MissingCalibration { path } => {
                crate::text::joined("missing calibration value: ", path.as_str())
            },
            EvalError::TypeError { detail } => {
                crate::text::joined("type error: ", detail.as_str())
            },
            EvalError::MissingInput { channel } => {
                crate::text::joined("missing scenario input: ", channel.as_str())
            },
            EvalError::MissingHardwareMetadata { call } => {
                crate::text::joined("missing required hardware metadata for ", call.as_str()).concat(
                    "; add a scenario [[io]] value for this call or supply it from a HardwareAdapter",
                )
            },
            EvalError::BadCall { detail } => crate::text::joined("bad call: ", detail.as_str()),
            EvalError::InScript { script, t, source } => {
                let head = crate::text::joined("in ", script.as_str());
                let middle = match t {
                    Some(t) => head.concat(" at t = ").concat(t.to_thousandths_text().as_str()).concat(" s: "),
                    None => head.concat(" at startup: "),
                };
                let tail = source.to_text();
                middle.concat(tail.as_str())
            },
        }
    }

    /// The message.
    pub open spec fn message(self) -> Seq<char>
        decreases self,
    {
        match self {
            EvalError::UnsupportedBuiltin { object, method } => {
                "unsupported builtin: "@ + object@ + "."@ + method@
            },
            EvalError::UnsupportedBuiltinBehavior { object, method, reason } => {
                "unsupported builtin behavior: "@ + object@ + "."@ + method@ + ": "@ + reason@
            },
            EvalError::UnsupportedConstruct { kind, at } => {
                "unsupported construct "@ + kind@ + " at byte "@ + crate::text::decimal(at as nat)
            },
            EvalError::UnresolvedSymbol { name } => "unresolved symbol: "@ + name@,
            EvalError::MissingCalibration { path } => "missing calibration value: "@ + path@,
            EvalError::TypeError { detail } => "type error: "@ + detail@,
            EvalError::MissingInput { channel } => "missing scenario input: "@ + channel@,
            EvalError::MissingHardwareMetadata { call } => {
                "missing required hardware metadata for "@ + call@
                    + "; add a scenario [[io]] value for this call or supply it from a HardwareAdapter"@
            },
            EvalError::BadCall { detail } => "bad call: "@ + detail@,
            EvalError::InScript { script, t, source } => {
                let head = "in "@ + script@;
                let middle = match t {
                    Some(t) => head + " at t = "@ + t.thousandths_text() + " s: "@,
                    None => head + " at startup: "@,
                };
                middle + source.message()
            },
        }
    }
}

/// Four texts in a row.
fn cat4(a: &str, b: &str, c: &str, d: &str) -> (r: String)
    ensures
        r@ == a@ + b@ + c@ + d@,
{
    crate::text::joined(a, b).concat(c).concat(d)
}

} // verus!
