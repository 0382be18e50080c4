//! Routing of hardware calls.
//!
//! A call takes the first of these that answers: a scenario value for its call
//! site, a scenario value for its name, an adapter, the clock of the run, a
//! documented offline value, an offline value of the declared return type. A call
//! that none answers is unsupported. `System.FlashSize` and `System.FlashFree`
//! have no offline value: without a scenario value or an adapter they are errors.
//!
//! [`call`] and [`project_object_call`] answer from the scenario or hand out the
//! call; [`settle`] takes what an adapter says to it. Every answer is recorded.

use crate::catalog::Intrinsics;
use crate::coerce::{
    coerce_for_declared_type, coerce_for_scalar_kind, converts, kind_fault, to_kind, to_type,
    type_fault,
};
use crate::context::EvalCtx;
use crate::env::{CallSite, Env, OpState, SiteKey, StateStore};
use crate::error::{
    bad_call, is_bad_call, is_type_error, is_unsupported, unsupported, EvalError,
};
use crate::float::binary64::F64;
use crate::hardware::{
    AdapterReply, EvalTime, HardwareCall, HardwareProvenance, HardwareRoute,
    HardwareValueSource, ResolvedReceiver,
};
use crate::project::str_of;
use crate::text::{decimal, decimal_text, enclosed, joined, same};
use crate::trace::Trace;
use crate::value::{FixedPoint7dps, M1Scalar, M1ScalarKind, Value, ValueType};
use vstd::prelude::*;

verus! {

/// The value of a scenario entry for one call site.
pub open spec fn exact_value(env: Env, name: Seq<char>, site: SiteKey) -> Option<Value> {
    let i = Env::io_slot(env.io_sites@, name, site);
    if i < env.io_sites@.len() {
        Some(env.io_sites@[i].2)
    } else {
        None
    }
}

/// The value of a scenario entry for every call of a name.
pub open spec fn wildcard_value(env: Env, name: Seq<char>) -> Option<Value> {
    if env.io@.contains_key(name) {
        Some(env.io@[name])
    } else {
        None
    }
}

/// The first of two optional values.
pub open spec fn either(a: Option<Value>, b: Option<Value>) -> Option<Value> {
    match a {
        Some(v) => Some(v),
        None => b,
    }
}

/// The scenario value of a call: one for its site before one for its name, and the
/// canonical name before the written one.
pub open spec fn scenario_value(env: Env, call: HardwareCall) -> Option<(Value, HardwareValueSource)> {
    let site = call.site.key();
    match either(
        exact_value(env, call.canonical(), site),
        exact_value(env, call.source(), site),
    ) {
        Some(v) => Some((v, HardwareValueSource::ScenarioExact)),
        None => match either(
            wildcard_value(env, call.canonical()),
            wildcard_value(env, call.source()),
        ) {
            Some(v) => Some((v, HardwareValueSource::ScenarioWildcard)),
            None => None,
        },
    }
}

fn scenario_override(env: &Env, call: &HardwareCall) -> (r: Option<(Value, HardwareValueSource)>)
    ensures
        r == scenario_value(*env, *call),
{
    let canonical = call.canonical_name();
    let source = call.source_name();
    if let Some(v) = env.io_override_at(canonical.as_str(), &call.site) {
        return Some((v.duplicate(), HardwareValueSource::ScenarioExact));
    }
    if let Some(v) = env.io_override_at(source.as_str(), &call.site) {
        return Some((v.duplicate(), HardwareValueSource::ScenarioExact));
    }
    if let Some(v) = env.io_override(canonical.as_str()) {
        return Some((v.duplicate(), HardwareValueSource::ScenarioWildcard));
    }
    if let Some(v) = env.io_override(source.as_str()) {
        return Some((v.duplicate(), HardwareValueSource::ScenarioWildcard));
    }
    None
}

/// The value of a call in the family of its return type. A type without a family leaves it as it is.
pub open spec fn as_returned(value: Value, result: Option<Seq<char>>) -> Option<Value> {
    match result {
        None => Some(value),
        Some(t) => if t == "Integer"@ {
            to_kind(value, M1ScalarKind::Integer)
        } else if t == "UnsignedInteger"@ {
            to_kind(value, M1ScalarKind::UnsignedInteger)
        } else if t == "FloatingPoint"@ {
            to_kind(value, M1ScalarKind::FloatingPoint)
        } else if t == "FixedPoint7dps"@ {
            to_kind(value, M1ScalarKind::FixedPoint7dps)
        } else if t == "Boolean"@ {
            to_type(value, ValueType::Boolean)
        } else if t == "String"@ {
            to_type(value, ValueType::String)
        } else {
            Some(value)
        },
    }
}

/// What is wrong with the value of a call that is not in the family of its return type.
pub open spec fn return_fault(call: HardwareCall, value: Value, result: Option<Seq<char>>) -> Seq<
    char,
> {
    let key = call.canonical();
    let t = result->Some_0;
    if t == "Integer"@ {
        kind_fault(key, value, M1ScalarKind::Integer)
    } else if t == "UnsignedInteger"@ {
        kind_fault(key, value, M1ScalarKind::UnsignedInteger)
    } else if t == "FloatingPoint"@ {
        kind_fault(key, value, M1ScalarKind::FloatingPoint)
    } else if t == "FixedPoint7dps"@ {
        kind_fault(key, value, M1ScalarKind::FixedPoint7dps)
    } else if t == "Boolean"@ {
        type_fault(key, value, ValueType::Boolean)
    } else {
        type_fault(key, value, ValueType::String)
    }
}

fn coerce_hardware_value(value: Value, result: Option<&str>, call: &HardwareCall) -> (r: Result<
    Value,
    EvalError,
>)
    ensures
        converts(
            r,
            as_returned(value, str_of(result)),
            return_fault(*call, value, str_of(result)),
        ),
{
    let name: String = call.canonical_name();
    let key: &str = name.as_str();
    match result {
        None => Ok(value),
        Some(t) => {
            if same(t, "Integer") {
                coerce_for_scalar_kind(key, value, M1ScalarKind::Integer)
            } else if same(t, "UnsignedInteger") {
                coerce_for_scalar_kind(key, value, M1ScalarKind::UnsignedInteger)
            } else if same(t, "FloatingPoint") {
                coerce_for_scalar_kind(key, value, M1ScalarKind::FloatingPoint)
            } else if same(t, "FixedPoint7dps") {
                coerce_for_scalar_kind(key, value, M1ScalarKind::FixedPoint7dps)
            } else if same(t, "Boolean") {
                coerce_for_declared_type(key, value, ValueType::Boolean)
            } else if same(t, "String") {
                coerce_for_declared_type(key, value, ValueType::String)
            } else {
                Ok(value)
            }
        },
    }
}

/// The return type of a project-object method.
pub open spec fn project_result(method: Seq<char>) -> Option<Seq<char>> {
    if method == "TxOpen"@ || method == "GetUnsignedInteger"@ {
        Some("UnsignedInteger"@)
    } else if method == "GetInteger"@ {
        Some("Integer"@)
    } else if method == "GetScaled"@ || method == "GetFloat"@ {
        Some("FloatingPoint"@)
    } else if method == "Receive"@ || method == "GetBit"@ {
        Some("Boolean"@)
    } else {
        None
    }
}

fn project_return_type(method: &str) -> (r: Option<&'static str>)
    ensures
        str_of(r) == project_result(method@),
{
    if same(method, "TxOpen") || same(method, "GetUnsignedInteger") {
        Some("UnsignedInteger")
    } else if same(method, "GetInteger") {
        Some("Integer")
    } else if same(method, "GetScaled") || same(method, "GetFloat") {
        Some("FloatingPoint")
    } else if same(method, "Receive") || same(method, "GetBit") {
        Some("Boolean")
    } else {
        None
    }
}

/// The return type of a call.
pub open spec fn result_of(catalog: Intrinsics, call: HardwareCall) -> Option<Seq<char>> {
    match call.library() {
        Some(object) => catalog.result_type(object, call.method@),
        None => project_result(call.method@),
    }
}

fn call_return_type<'a>(catalog: &'a Intrinsics, call: &HardwareCall) -> (r: Option<&'a str>)
    ensures
        str_of(r) == result_of(*catalog, *call),
{
    match call.library_object() {
        Some(object) => catalog.library_return_type(object, call.method.as_str()),
        None => project_return_type(call.method.as_str()),
    }
}

/// An offline value.
pub enum Stub {
    /// A value.
    Given(Value),
    /// The empty text.
    EmptyText,
}

/// Whether a value is an offline value.
pub open spec fn is_stub(v: Value, s: Stub) -> bool {
    match s {
        Stub::Given(w) => v == w,
        Stub::EmptyText => v matches Value::Str(t) && t@ == Seq::<char>::empty(),
    }
}

/// The zero of a return type; the unit value for a type without one.
pub open spec fn zero_of(result: Seq<char>) -> Stub {
    if result == "Boolean"@ {
        Stub::Given(Value::Bool(false))
    } else if result == "FloatingPoint"@ {
        Stub::Given(Value::M1(M1Scalar::FloatingPoint(crate::float::binary32::F32 { bits: 0 })))
    } else if result == "FixedPoint7dps"@ {
        Stub::Given(Value::M1(M1Scalar::FixedPoint7dps(FixedPoint7dps { raw: 0 })))
    } else if result == "Integer"@ {
        Stub::Given(Value::M1(M1Scalar::Integer(0)))
    } else if result == "UnsignedInteger"@ {
        Stub::Given(Value::M1(M1Scalar::UnsignedInteger(0)))
    } else if result == "String"@ {
        Stub::EmptyText
    } else {
        Stub::Given(Value::Bool(true))
    }
}

/// The zero of a return type.
pub fn typed_io_default(result: &str) -> (r: Value)
    ensures
        is_stub(r, zero_of(result@)),
{
    if same(result, "Boolean") {
        Value::Bool(false)
    } else if same(result, "FloatingPoint") {
        Value::m1_float(crate::float::binary32::F32::from_bits(0))
    } else if same(result, "FixedPoint7dps") {
        Value::M1(M1Scalar::FixedPoint7dps(FixedPoint7dps::from_raw(0)))
    } else if same(result, "Integer") {
        Value::m1_integer(0)
    } else if same(result, "UnsignedInteger") {
        Value::m1_unsigned(0)
    } else if same(result, "String") {
        Value::Str(String::new())
    } else {
        Value::Bool(true)
    }
}

/// Whether a project-object method writes and gives the unit value offline.
pub open spec fn is_project_writer(method: Seq<char>) -> bool {
    ||| method == "Tx"@
    ||| method == "TxInitialise"@
    ||| method == "Init"@
    ||| method == "SetBit"@
    ||| method == "SetUnsignedInteger"@
    ||| method == "SetInteger"@
    ||| method == "SetScaled"@
    ||| method == "SetFloat"@
    ||| method == "SetFromBaseUnit"@
    ||| method == "Set"@
    ||| method == "Update"@
    ||| method == "SetState"@
    ||| method == "Buzze"@
}

fn project_writer(method: &str) -> (r: bool)
    ensures
        r == is_project_writer(method@),
{
    same(method, "Tx") || same(method, "TxInitialise") || same(method, "Init") || same(
        method,
        "SetBit",
    ) || same(method, "SetUnsignedInteger") || same(method, "SetInteger") || same(
        method,
        "SetScaled",
    ) || same(method, "SetFloat") || same(method, "SetFromBaseUnit") || same(method, "Set")
        || same(method, "Update") || same(method, "SetState") || same(method, "Buzze")
}

/// The offline value of a project-object method: the zero of its return type, or
/// the unit value of a writer.
pub open spec fn project_stub_of(method: Seq<char>) -> Option<Stub> {
    match project_result(method) {
        Some(t) => Some(zero_of(t)),
        None => if is_project_writer(method) {
            Some(Stub::Given(Value::Bool(true)))
        } else {
            None
        },
    }
}

/// Whether a project-object method has an offline value.
pub fn is_project_stub_method(method: &str) -> (r: bool)
    ensures
        r == project_stub_of(method@).is_some(),
{
    project_return_type(method).is_some() || project_writer(method)
}

fn project_stub(method: &str) -> (r: Option<Value>)
    ensures
        match project_stub_of(method@) {
            Some(s) => r matches Some(v) && is_stub(v, s),
            None => r is None,
        },
{
    match project_return_type(method) {
        Some(t) => Some(typed_io_default(t)),
        None => {
            if project_writer(method) {
                Some(Value::Bool(true))
            } else {
                None
            }
        },
    }
}

/// Whether a call asks for metadata whose zero could be taken for a fact.
pub open spec fn needs_metadata(object: Seq<char>, method: Seq<char>) -> bool {
    object == "System"@ && (method == "FlashSize"@ || method == "FlashFree"@)
}

/// Whether a call asks for metadata whose zero could be taken for a fact.
pub fn required_metadata(object: &str, method: &str) -> (r: bool)
    ensures
        r == needs_metadata(object@, method@),
{
    same(object, "System") && (same(method, "FlashSize") || same(method, "FlashFree"))
}

/// An offline value with a meaning of its own: no tuning tool, no effect, no logger.
pub open spec fn documented_value(object: Seq<char>, method: Seq<char>, args: nat) -> Option<bool> {
    if object == "System"@ && method == "XcpConnected"@ {
        Some(false)
    } else if object == "System"@ && (method == "AllowTuning"@ || method == "Debug"@ || method
        == "TimedDebug"@ || method == "Unused"@ || method == "Preserve"@) {
        Some(true)
    } else if object == "Logging"@ && (method == "Running"@ || method == "Unloading"@) && args == 0 {
        Some(false)
    } else {
        None
    }
}

fn documented_stub(object: &str, method: &str, args: usize) -> (r: Option<bool>)
    ensures
        r == documented_value(object@, method@, args as nat),
{
    if same(object, "System") && same(method, "XcpConnected") {
        Some(false)
    } else if same(object, "System") && (same(method, "AllowTuning") || same(method, "Debug")
        || same(method, "TimedDebug") || same(method, "Unused") || same(method, "Preserve")) {
        Some(true)
    } else if same(object, "Logging") && (same(method, "Running") || same(method, "Unloading"))
        && args == 0 {
        Some(false)
    } else {
        None
    }
}

/// What the clock of the run answers.
pub enum Clock {
    /// Nothing.
    Silent,
    /// A missing argument.
    Missing,
    /// An argument that is no unsigned integer.
    Mismatch,
    /// A value.
    Known(Value),
    /// The seconds since the call site last ran.
    Elapsed,
}

/// An argument as an unsigned integer.
pub open spec fn unsigned_of(v: Value) -> Option<u32> {
    match to_kind(v, M1ScalarKind::UnsignedInteger) {
        Some(Value::M1(M1Scalar::UnsignedInteger(n))) => Some(n),
        _ => None,
    }
}

/// The difference of two counters that wrap.
pub open spec fn ticks_between(from: u32, to: u32) -> Value {
    Value::M1(M1Scalar::UnsignedInteger(((to - from) % 0x1_0000_0000) as u32))
}

/// What the clock of the run answers to a call.
pub open spec fn clock_answer(
    object: Seq<char>,
    method: Seq<char>,
    args: Seq<Value>,
    time: EvalTime,
) -> Clock {
    let now = (time.base_tick % 0x1_0000_0000) as u32;
    if object != "System"@ {
        Clock::Silent
    } else if method == "ElapsedTime"@ {
        Clock::Elapsed
    } else if method == "TickPeriod"@ || method == "HiResTickPeriod"@ {
        Clock::Known(Value::M1(M1Scalar::FloatingPoint(time.base_period_s.narrow())))
    } else if method == "Ticks"@ || method == "HiResTicks"@ {
        Clock::Known(Value::M1(M1Scalar::UnsignedInteger(now)))
    } else if method == "TicksSince"@ || method == "HiResTicksSince"@ {
        if args.len() < 1 {
            Clock::Missing
        } else {
            match unsigned_of(args[0]) {
                Some(from) => Clock::Known(ticks_between(from, now)),
                None => Clock::Mismatch,
            }
        }
    } else if method == "TicksBetween"@ || method == "TicksRemaining"@ {
        if args.len() < 2 {
            Clock::Missing
        } else {
            match (unsigned_of(args[0]), unsigned_of(args[1])) {
                (Some(from), Some(to)) => Clock::Known(ticks_between(from, to)),
                _ => Clock::Mismatch,
            }
        }
    } else {
        Clock::Silent
    }
}

/// An argument of a clock method, for a message.
pub open spec fn argument_name(method: Seq<char>, number: nat) -> Seq<char> {
    "System."@ + method + " argument "@ + decimal(number)
}

/// What is wrong with an argument of a clock method that is no unsigned integer.
pub open spec fn argument_fault(method: Seq<char>, args: Seq<Value>, i: int) -> Seq<char> {
    kind_fault(argument_name(method, (i + 1) as nat), args[i], M1ScalarKind::UnsignedInteger)
}

/// What is wrong with a clock call that lacks an argument: the last that the method wants is
/// named.
pub open spec fn missing_argument(method: Seq<char>) -> Seq<char> {
    "System."@ + method + " is missing argument "@ + decimal(
        if method == "TicksSince"@ || method == "HiResTicksSince"@ {
            1
        } else {
            2
        },
    )
}

/// What is wrong with a clock call whose arguments are no unsigned integers: the second is
/// looked at first.
pub open spec fn clock_fault(method: Seq<char>, args: Seq<Value>) -> Seq<char> {
    if method == "TicksSince"@ || method == "HiResTicksSince"@ {
        argument_fault(method, args, 0)
    } else if unsigned_of(args[1]) is None {
        argument_fault(method, args, 1)
    } else {
        argument_fault(method, args, 0)
    }
}

fn missing(method: &str, number: u64) -> (r: EvalError)
    ensures
        is_bad_call(
            r,
            "System."@ + method@ + " is missing argument "@ + decimal(number as nat),
        ),
{
    let head: String = enclosed("System.", method, " is missing argument ");
    bad_call(joined(head.as_str(), decimal_text(number).as_str()).as_str())
}

fn unsigned_arg(args: &[Value], index: usize, method: &str) -> (r: Result<u32, EvalError>)
    requires
        index < args.len(),
    ensures
        match unsigned_of(args@[index as int]) {
            Some(n) => r == Ok::<u32, EvalError>(n),
            None => r matches Err(e) && is_type_error(
                e,
                argument_fault(method@, args@, index as int),
            ),
        },
{
    let head: String = enclosed("System.", method, " argument ");
    let key: String = joined(head.as_str(), decimal_text(index as u64 + 1).as_str());
    match coerce_for_scalar_kind(
        key.as_str(),
        args[index].duplicate(),
        M1ScalarKind::UnsignedInteger,
    ) {
        Ok(Value::M1(M1Scalar::UnsignedInteger(n))) => Ok(n),
        Ok(_) => Ok(0),
        Err(e) => Err(e),
    }
}

fn wrapped_difference(from: u32, to: u32) -> (r: Value)
    ensures
        r == ticks_between(from, to),
{
    let d: i64 = to as i64 - from as i64;
    let n: i64 = if d < 0 {
        d + 0x1_0000_0000
    } else {
        d
    };
    Value::m1_unsigned(n as u32)
}

/// The instant at which a call site last ran; the present one where it never did.
pub open spec fn last_run(state: OpState, now: F64) -> F64 {
    match state {
        OpState::SystemElapsed { last_execution_s } => last_execution_s,
        _ => now,
    }
}

/// Seconds since a call site last ran.
fn elapsed_time(site: &CallSite, now: F64, state: &mut StateStore) -> (r: Value)
    ensures
        ({
            let last = last_run(old(state).current(site.key()), now);
            &&& r == Value::M1(M1Scalar::FloatingPoint(now.minus(last).narrow()))
            &&& final(state)@ == old(state)@.insert(
                site.key(),
                OpState::SystemElapsed { last_execution_s: now },
            )
        }),
{
    let slot = state.entry(site.duplicate());
    let last: F64 = match *slot {
        OpState::SystemElapsed { last_execution_s } => last_execution_s,
        _ => now,
    };
    *slot = OpState::SystemElapsed { last_execution_s: now };
    Value::m1_float(now.minus(last).narrow())
}

/// What the clock of the run answers to a call, other than elapsed time.
fn system_model(object: &str, method: &str, args: &[Value], time: EvalTime) -> (r: Result<
    Option<Value>,
    EvalError,
>)
    requires
        !(clock_answer(object@, method@, args@, time) is Elapsed),
    ensures
        match clock_answer(object@, method@, args@, time) {
            Clock::Known(v) => r == Ok::<Option<Value>, EvalError>(Some(v)),
            Clock::Missing => r matches Err(e) && is_bad_call(e, missing_argument(method@)),
            Clock::Mismatch => r matches Err(e) && is_type_error(e, clock_fault(method@, args@)),
            _ => r == Ok::<Option<Value>, EvalError>(None),
        },
{
    if !same(object, "System") {
        return Ok(None);
    }
    let now: u32 = (time.base_tick % 0x1_0000_0000) as u32;
    if same(method, "TickPeriod") || same(method, "HiResTickPeriod") {
        Ok(Some(Value::m1_float(time.base_period_s.narrow())))
    } else if same(method, "Ticks") || same(method, "HiResTicks") {
        Ok(Some(Value::m1_unsigned(now)))
    } else if same(method, "TicksSince") || same(method, "HiResTicksSince") {
        if args.len() < 1 {
            return Err(missing(method, 1));
        }
        let from: u32 = unsigned_arg(args, 0, method)?;
        Ok(Some(wrapped_difference(from, now)))
    } else if same(method, "TicksBetween") || same(method, "TicksRemaining") {
        if args.len() < 2 {
            return Err(missing(method, 2));
        }
        let to: u32 = unsigned_arg(args, 1, method)?;
        let from: u32 = unsigned_arg(args, 0, method)?;
        Ok(Some(wrapped_difference(from, to)))
    } else {
        Ok(None)
    }
}

/// The trace after the answer to a call is recorded.
pub open spec fn traced(
    before: Option<Trace>,
    after: Option<Trace>,
    call: HardwareCall,
    source: HardwareValueSource,
) -> bool {
    match (before, after) {
        (Some(b), Some(a)) => {
            &&& a.hardware@.len() == b.hardware@.len() + 1
            &&& a.hardware@.drop_last() == b.hardware@
            &&& a.hardware@.last().records(call, source)
            &&& a.external@ == (if source.external() {
                b.external@.insert(call.source(), true)
            } else {
                b.external@
            })
            &&& a == (Trace { hardware: a.hardware, external: a.external, ..b })
        },
        (None, None) => true,
        _ => false,
    }
}

/// Records the answer to a call.
fn complete(trace: &mut Option<Trace>, call: &HardwareCall, source: HardwareValueSource)
    ensures
        traced(*old(trace), *final(trace), *call, source),
{
    match trace {
        Some(t) => {
            let ghost before = *t;
            if source.is_external() {
                let name = call.source_name();
                t.mark_external(name.as_str());
            }
            t.record_hardware(HardwareProvenance::new(call, source));
            assert(t.hardware@.drop_last() =~= before.hardware@);
        },
        None => {},
    }
}

/// What becomes of a hardware call.
#[derive(Debug)]
pub enum HardwareStep {
    /// It is answered.
    Done(Value),
    /// It is for the adapter.
    Ask(HardwareCall),
}

/// The arguments of a call again.
fn copy_args(args: &[Value]) -> (r: Vec<Value>)
    ensures
        r@ == args@,
{
    let mut v: Vec<Value> = Vec::new();
    let mut i: usize = 0;
    while i < args.len()
        invariant
            i <= args.len(),
            v@ == args@.take(i as int),
        decreases args.len() - i,
    {
        assert(args@.take(i + 1) =~= args@.take(i as int).push(args@[i as int]));
        v.push(args[i].duplicate());
        i = i + 1;
    }
    assert(args@.take(i as int) =~= args@);
    v
}

/// Whether a hardware call is the one that is made.
pub open spec fn is_call(
    call: HardwareCall,
    route: HardwareRoute,
    source_object: Seq<char>,
    method: Seq<char>,
    args: Seq<Value>,
    site: CallSite,
    time: EvalTime,
) -> bool {
    &&& call.route == route
    &&& call.source_receiver@ == source_object
    &&& call.method@ == method
    &&& call.arguments@ == args
    &&& call.site == site
    &&& call.time == time
}

/// Whether a step is that of a hardware call: the scenario's answer in the family
/// of the return type, or the call handed out.
pub open spec fn begins(
    before: EvalCtx,
    after: EvalCtx,
    call: HardwareCall,
    r: Result<HardwareStep, EvalError>,
) -> bool {
    match scenario_value(before.env, call) {
        Some((v, source)) => match as_returned(v, result_of(*before.catalog, call)) {
            Some(w) => (r matches Ok(HardwareStep::Done(x)) && x == w) && traced(
                before.trace,
                after.trace,
                call,
                source,
            ) && after == (EvalCtx { trace: after.trace, ..before }),
            None => (r matches Err(e) && is_type_error(
                e,
                return_fault(call, v, result_of(*before.catalog, call)),
            )) && after == before,
        },
        None => (r matches Ok(HardwareStep::Ask(c)) && c == call) && after == before,
    }
}

/// Starts a hardware call.
fn begin(
    route: HardwareRoute,
    receiver: ResolvedReceiver,
    source_object: &str,
    method: &str,
    args: &[Value],
    site: CallSite,
    ctx: &mut EvalCtx,
) -> (r: Result<HardwareStep, EvalError>)
    ensures
        exists|call: HardwareCall|
            call.receiver == receiver && is_call(
                call,
                route,
                source_object@,
                method@,
                args@,
                site,
                old(ctx).time,
            ) && #[trigger] begins(*old(ctx), *final(ctx), call, r),
{
    let call = HardwareCall {
        route,
        receiver,
        source_receiver: source_object.to_owned(),
        method: method.to_owned(),
        site,
        arguments: copy_args(args),
        time: ctx.time,
    };
    let ghost made = call;
    let result = match scenario_override(&ctx.env, &call) {
        Some((value, source)) => {
            let catalog: &Intrinsics = ctx.catalog;
            match coerce_hardware_value(value, call_return_type(catalog, &call), &call) {
                Ok(v) => {
                    complete(&mut ctx.trace, &call, source);
                    Ok(HardwareStep::Done(v))
                },
                Err(e) => Err(e),
            }
        },
        None => Ok(HardwareStep::Ask(call)),
    };
    assert(begins(*old(ctx), *ctx, made, result));
    result
}

/// Starts a call on an object of the project, whatever the receiver is resolved to.
pub fn project_object_call(
    receiver: ResolvedReceiver,
    source_object: &str,
    method: &str,
    args: &[Value],
    site: CallSite,
    ctx: &mut EvalCtx,
) -> (r: Result<HardwareStep, EvalError>)
    ensures
        exists|call: HardwareCall|
            call.receiver == receiver && is_call(
                call,
                HardwareRoute::Project,
                source_object@,
                method@,
                args@,
                site,
                old(ctx).time,
            ) && #[trigger] begins(*old(ctx), *final(ctx), call, r),
{
    begin(HardwareRoute::Project, receiver, source_object, method, args, site, ctx)
}

/// Starts a hardware call on a library object.
pub fn call(
    library_object: &str,
    source_object: &str,
    method: &str,
    args: &[Value],
    site: CallSite,
    ctx: &mut EvalCtx,
) -> (r: Result<HardwareStep, EvalError>)
    ensures
        exists|call: HardwareCall|
            (call.receiver matches ResolvedReceiver::Library { object } && object@
                == library_object@) && is_call(
                call,
                HardwareRoute::Library,
                source_object@,
                method@,
                args@,
                site,
                old(ctx).time,
            ) && #[trigger] begins(*old(ctx), *final(ctx), call, r),
{
    let object: String = library_object.to_owned();
    begin(
        HardwareRoute::Library,
        ResolvedReceiver::Library { object },
        source_object,
        method,
        args,
        site,
        ctx,
    )
}

/// Whether a result is an answer that is recorded.
pub open spec fn answers(
    before: EvalCtx,
    after: EvalCtx,
    call: HardwareCall,
    source: HardwareValueSource,
    state: Map<SiteKey, OpState>,
) -> bool {
    &&& traced(before.trace, after.trace, call, source)
    &&& after.state@ == state
    &&& after == (EvalCtx { trace: after.trace, state: after.state, ..before })
}

/// Whether a result is what a call comes to that no adapter answers.
pub open spec fn falls_back(
    before: EvalCtx,
    after: EvalCtx,
    call: HardwareCall,
    r: Result<Value, EvalError>,
) -> bool {
    let method = call.method@;
    let state = before.state@;
    let refused = (r matches Err(e) && is_unsupported(e, call.source_receiver@, method)) && after
        == before;
    match call.library() {
        Some(object) => match clock_answer(
            object,
            method,
            call.arguments@,
            before.time,
        ) {
            Clock::Missing => (r matches Err(e) && is_bad_call(e, missing_argument(method)))
                && after == before,
            Clock::Mismatch => (r matches Err(e) && is_type_error(
                e,
                clock_fault(method, call.arguments@),
            )) && after == before,
            Clock::Known(v) => r == Ok::<Value, EvalError>(v) && answers(
                before,
                after,
                call,
                HardwareValueSource::SystemModel,
                state,
            ),
            Clock::Elapsed => {
                let now = before.time.elapsed_s;
                let last = last_run(before.state.current(call.site.key()), now);
                &&& r == Ok::<Value, EvalError>(
                    Value::M1(M1Scalar::FloatingPoint(now.minus(last).narrow())),
                )
                &&& answers(
                    before,
                    after,
                    call,
                    HardwareValueSource::SystemModel,
                    state.insert(
                        call.site.key(),
                        OpState::SystemElapsed { last_execution_s: now },
                    ),
                )
            },
            Clock::Silent => if needs_metadata(object, method) {
                (r matches Err(EvalError::MissingHardwareMetadata { call: c }) && c@
                    == call.canonical()) && after == before
            } else {
                match documented_value(object, method, call.arguments@.len()) {
                    Some(b) => r == Ok::<Value, EvalError>(Value::Bool(b)) && answers(
                        before,
                        after,
                        call,
                        HardwareValueSource::GenericStub,
                        state,
                    ),
                    None => match before.catalog.result_type(object, method) {
                        Some(t) => (r matches Ok(v) && is_stub(v, zero_of(t))) && answers(
                            before,
                            after,
                            call,
                            HardwareValueSource::GenericStub,
                            state,
                        ),
                        None => refused,
                    },
                }
            },
        },
        None => match project_stub_of(method) {
            Some(s) => (r matches Ok(v) && is_stub(v, s)) && answers(
                before,
                after,
                call,
                HardwareValueSource::GenericStub,
                state,
            ),
            None => refused,
        },
    }
}

fn fall_back(call: &HardwareCall, ctx: &mut EvalCtx) -> (r: Result<Value, EvalError>)
    ensures
        falls_back(*old(ctx), *final(ctx), *call, r),
{
    let method: &str = call.method.as_str();
    let object: &str = match call.library_object() {
        Some(object) => object,
        None => {
            return match project_stub(method) {
                Some(v) => {
                    complete(&mut ctx.trace, call, HardwareValueSource::GenericStub);
                    Ok(v)
                },
                None => Err(unsupported(call.source_receiver.as_str(), method)),
            };
        },
    };
    if same(object, "System") && same(method, "ElapsedTime") {
        let now = ctx.time.elapsed_s;
        let v = elapsed_time(&call.site, now, &mut ctx.state);
        complete(&mut ctx.trace, call, HardwareValueSource::SystemModel);
        return Ok(v);
    }
    match system_model(object, method, call.arguments.as_slice(), ctx.time) {
        Ok(Some(v)) => {
            complete(&mut ctx.trace, call, HardwareValueSource::SystemModel);
            return Ok(v);
        },
        Ok(None) => {},
        Err(e) => return Err(e),
    }
    if required_metadata(object, method) {
        return Err(EvalError::MissingHardwareMetadata { call: call.canonical_name() });
    }
    match documented_stub(object, method, call.arguments.len()) {
        Some(b) => {
            complete(&mut ctx.trace, call, HardwareValueSource::GenericStub);
            return Ok(Value::Bool(b));
        },
        None => {},
    }
    let catalog: &Intrinsics = ctx.catalog;
    match catalog.library_return_type(object, method) {
        Some(t) => {
            let v = typed_io_default(t);
            complete(&mut ctx.trace, call, HardwareValueSource::GenericStub);
            Ok(v)
        },
        None => Err(unsupported(call.source_receiver.as_str(), method)),
    }
}

/// Finishes a hardware call with what the adapter says to it. Without an adapter
/// the reply is [`AdapterReply::Unhandled`].
pub fn settle(call: HardwareCall, reply: AdapterReply, ctx: &mut EvalCtx) -> (r: Result<
    Value,
    EvalError,
>)
    ensures
        match reply {
            AdapterReply::Value(v) => match as_returned(v, result_of(*old(ctx).catalog, call)) {
                Some(w) => r == Ok::<Value, EvalError>(w) && answers(
                    *old(ctx),
                    *final(ctx),
                    call,
                    HardwareValueSource::Adapter,
                    old(ctx).state@,
                ),
                None => (r matches Err(e) && is_type_error(
                    e,
                    return_fault(call, v, result_of(*old(ctx).catalog, call)),
                )) && *final(ctx) == *old(ctx),
            },
            AdapterReply::Unhandled => falls_back(*old(ctx), *final(ctx), call, r),
        },
{
    match reply {
        AdapterReply::Value(value) => {
            let catalog: &Intrinsics = ctx.catalog;
            match coerce_hardware_value(value, call_return_type(catalog, &call), &call) {
                Ok(v) => {
                    complete(&mut ctx.trace, &call, HardwareValueSource::Adapter);
                    Ok(v)
                },
                Err(e) => Err(e),
            }
        },
        AdapterReply::Unhandled => fall_back(&call, ctx),
    }
}

} // verus!
