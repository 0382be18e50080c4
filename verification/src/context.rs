//! What a script sees while it executes.

use crate::builtins::object::ObjectRules;
use crate::calib::Calibration;
use crate::catalog::Intrinsics;
use crate::env::{Env, StateStore};
use crate::error::EvalError;
use crate::float::binary64::F64;
use crate::hardware::EvalTime;
use crate::project::{after_prefix, has_prefix, Project, SymbolKind};
use crate::trace::Trace;
use crate::value::{M1Scalar, M1ScalarKind, Value};
use vstd::prelude::*;

verus! {

/// The declared family of a function's parameter, where its type alone does not tell.
#[derive(Debug)]
pub struct ParamKind {
    /// The canonical path of the function.
    pub function: String,
    /// The parameter.
    pub param: String,
    /// The family.
    pub kind: M1ScalarKind,
}

/// The context of a call.
#[derive(Debug)]
pub struct EvalCtx<'a> {
    /// The project.
    pub project: &'a Project,
    /// The calibration.
    pub calib: &'a Calibration,
    /// The builtin signatures.
    pub catalog: &'a Intrinsics,
    /// The validation rules.
    pub object_rules: &'a ObjectRules,
    /// The names of the scripts that can be executed.
    pub scripts: &'a Vec<String>,
    /// The families of function parameters.
    pub signature_types: &'a Vec<ParamKind>,
    /// The value store.
    pub env: Env,
    /// The state of stateful operators.
    pub state: StateStore,
    /// The record of the run, if one is kept.
    pub trace: Option<Trace>,
    /// The group of the executing script.
    pub group: Option<String>,
    /// The function that is executing.
    pub fn_symbol: Option<String>,
    /// The script that is executing.
    pub script_name: String,
    /// The seconds between executions of the function.
    pub dt: F64,
    /// The place on the timeline.
    pub time: EvalTime,
    /// How many user functions are entered.
    pub depth: u32,
}

/// The calibrated value of a parameter: under its path, or under its path without the leading `Root.`.
pub open spec fn calibrated(calib: Calibration, path: Seq<char>) -> Option<M1Scalar> {
    if calib.params@.contains_key(path) {
        Some(calib.params@[path])
    } else if has_prefix(path, "Root."@) && calib.params@.contains_key(path.skip(5)) {
        Some(calib.params@[path.skip(5)])
    } else {
        None
    }
}

/// The calibrated value of a parameter.
pub fn calibrated_param(calib: &Calibration, path: &str) -> (r: Option<M1Scalar>)
    ensures
        r == calibrated(*calib, path@),
{
    proof {
        reveal_strlit("Root.");
    }
    match calib.param(path) {
        Some(v) => Some(v),
        None => match after_prefix(path, "Root.") {
            Some(rest) => calib.param(rest.as_str()),
            None => None,
        },
    }
}

/// What reading a symbol comes to.
pub enum ReadView {
    /// A value.
    Value(Value),
    /// A parameter's startup value, which counts as driven from outside.
    Startup(Value),
    /// The startup value of a channel that nothing has set, which is a substitution.
    Default(Value),
    /// No calibration.
    MissingCalibration,
    /// No input.
    MissingInput,
}

/// What reading a symbol comes to: the value that was set; else, for a parameter,
/// its calibration or its startup value; else the startup value where unset
/// channels may take it.
pub open spec fn reading(ctx: EvalCtx, path: Seq<char>) -> ReadView {
    let symbols = ctx.project.symbols@;
    if ctx.env.values@.contains_key(path) {
        ReadView::Value(ctx.env.values@[path])
    } else if symbols.contains_key(path) && symbols[path].kind is Parameter {
        match (calibrated(*ctx.calib, path), symbols[path].startup) {
            (Some(v), _) => ReadView::Value(Value::M1(v)),
            (None, Some(v)) => ReadView::Startup(v),
            (None, None) => ReadView::MissingCalibration,
        }
    } else if symbols.contains_key(path) && ctx.env.default_unseeded_channels
        && symbols[path].startup is Some {
        ReadView::Default(symbols[path].startup->Some_0)
    } else {
        ReadView::MissingInput
    }
}

/// The trace after a name is marked as driven from outside.
pub open spec fn marked(before: Option<Trace>, after: Option<Trace>, name: Seq<char>) -> bool {
    match (before, after) {
        (Some(b), Some(a)) => a.external@ == b.external@.insert(name, true) && a == (Trace {
            external: a.external,
            ..b
        }),
        (None, None) => true,
        _ => false,
    }
}

/// Marks a name as driven from outside, where a trace is kept.
pub fn mark_external(ctx: &mut EvalCtx, name: &str)
    ensures
        marked(old(ctx).trace, final(ctx).trace, name@),
        *final(ctx) == (EvalCtx { trace: final(ctx).trace, ..*old(ctx) }),
{
    match &mut ctx.trace {
        Some(trace) => {
            trace.mark_external(name);
        },
        None => {},
    }
}

/// The context after the executing script has taken a substituted value.
pub open spec fn substituted(before: EvalCtx, after: EvalCtx, name: Seq<char>, value: Value) -> bool {
    &&& after == (EvalCtx { trace: after.trace, ..before })
    &&& match (before.trace, after.trace) {
        (Some(b), Some(a)) => a.notes_default(b, name, value, before.script_name@),
        (None, None) => true,
        _ => false,
    }
}

/// Whether a result and a context are those of reading a symbol.
pub open spec fn reads(
    before: EvalCtx,
    after: EvalCtx,
    path: Seq<char>,
    r: Result<Value, EvalError>,
) -> bool {
    match reading(before, path) {
        ReadView::Value(v) => r == Ok::<Value, EvalError>(v) && after == before,
        ReadView::Startup(v) => r == Ok::<Value, EvalError>(v) && marked(
            before.trace,
            after.trace,
            path,
        ) && after == (EvalCtx { trace: after.trace, ..before }),
        ReadView::Default(v) => r == Ok::<Value, EvalError>(v) && substituted(
            before,
            after,
            path,
            v,
        ),
        ReadView::MissingCalibration => (r matches Err(EvalError::MissingCalibration { path: p })
            && p@ == path) && after == before,
        ReadView::MissingInput => (r matches Err(EvalError::MissingInput { channel }) && channel@
            == path) && after == before,
    }
}

/// Reads a symbol.
pub fn read_symbol(path: &str, ctx: &mut EvalCtx) -> (r: Result<Value, EvalError>)
    ensures
        reads(*old(ctx), *final(ctx), path@, r),
{
    if let Some(v) = ctx.env.get(path) {
        return Ok(v.duplicate());
    }
    let project: &Project = ctx.project;
    let symbol = match project.symbols.get(path) {
        Some(s) => s,
        None => return Err(EvalError::MissingInput { channel: path.to_owned() }),
    };
    let parameter = match symbol.kind {
        SymbolKind::Parameter => true,
        _ => false,
    };
    if parameter {
        if let Some(v) = calibrated_param(ctx.calib, path) {
            return Ok(Value::M1(v));
        }
    } else if !ctx.env.default_unseeded_channels {
        return Err(EvalError::MissingInput { channel: path.to_owned() });
    }
    match &symbol.startup {
        Some(v) => {
            let value = v.duplicate();
            if parameter {
                mark_external(ctx, path);
            } else {
                match &mut ctx.trace {
                    Some(trace) => {
                        trace.note_default(path, value.duplicate(), ctx.script_name.as_str());
                    },
                    None => {},
                }
            }
            Ok(value)
        },
        None => {
            if parameter {
                Err(EvalError::MissingCalibration { path: path.to_owned() })
            } else {
                Err(EvalError::MissingInput { channel: path.to_owned() })
            }
        },
    }
}

} // verus!
