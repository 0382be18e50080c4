//! The builtin library: which route a call takes, and the call itself.
//!
//! [`classify_member_call`] says what a call resolves to and how it is supported;
//! [`dispatch`] takes that route. The coverage report and the evaluator share the
//! classification, so the report says what will run.

pub mod calculate;
pub mod convert;
pub mod enum_conv;
pub mod io_stub;
pub mod limit;
pub mod object;
pub mod paths;
pub mod scalars;
pub mod stateful;
pub mod unix_time;
pub mod userfn;

use crate::builtins::calculate::{HostMath, Outcome};
use crate::builtins::enum_conv::{gives_integer, gives_name};
use crate::builtins::io_stub::{
    begins, is_call, is_project_stub_method, needs_metadata, project_stub_of, required_metadata,
    HardwareStep,
};
use crate::builtins::object::{constrains, gets_unscheduled, sets, validates};
use crate::builtins::paths::{
    unscheduled_path_of, unscheduled_value_path, value_path, value_path_of, Sought,
};
use crate::builtins::scalars::{not_numeric, numeric_single, single_of};
use crate::builtins::stateful::{operate, timer_step};
use crate::builtins::userfn::{enters, entry, script_backed_user_function, user_function, UserCall};
use crate::calib::{CalTable, Calibration};
use crate::catalog::{is_library_object, object_counts, Intrinsics};
use crate::context::{mark_external, marked, EvalCtx};
use crate::env::{CallSite, Env};
use crate::error::{is_bad_call, is_type_error, is_unsupported, unsupported, EvalError};
use crate::float::binary32::F32;
use crate::hardware::{HardwareCall, HardwareRoute, ResolvedReceiver};
use crate::map::TextMap;
use crate::project::{
    after_prefix, borrow_text, classify, dotted, dotted_text, has_dot, has_prefix, resolved,
    split_at_leaf, split_leaf, str_of, text_of, Project, SymbolKind, Target, TargetView,
};
use crate::table::{fits, interpolated, lookup, misfit_of};
use crate::text::{decimal, decimal_text, enclosed, joined, quoted, quoted_text, same};
use crate::value::{show_value, value_text, FixedPoint7dps, M1Scalar, Value, FIXED_SCALE};
use vstd::prelude::*;
use vstd::string::*;

verus! {

/// How a call is supported.
#[derive(Debug, Clone, Copy, PartialEq, Eq, Structural)]
pub enum BuiltinSupport {
    /// By a direct implementation.
    Direct,
    /// By an explicit offline model.
    Modeled,
    /// Only by a scenario value or an adapter.
    AdapterBacked,
    /// By a documented or typed offline value.
    Stubbed,
    /// Not at all.
    Unsupported,
}

/// The route that a call takes.
#[derive(Debug)]
pub enum CallRoute {
    /// A script-backed user function, by canonical path.
    UserFunction(String),
    /// A method without state, by library object.
    PureLibrary(String),
    /// A method with state, by library object.
    StatefulLibrary(String),
    /// A hardware call, by library object.
    IoLibrary(String),
    /// A function of the calibration-only mathematical library, by library object.
    MathAssumption(String),
    /// Interpolation in a table.
    TableLookup,
    /// One cell of a table.
    TableGet,
    /// The integer of a member of an enumeration.
    EnumAsInteger,
    /// The name of a member of an enumeration.
    EnumAsString,
    /// A range test.
    ObjectValidate,
    /// Holding a number within a range.
    ObjectConstrain,
    /// A read without a scheduling dependency.
    ObjectGetUnscheduled,
    /// A write to a channel.
    ChannelSet,
    /// A timer.
    Timer,
    /// A hardware call on a project object.
    ProjectIo,
    /// None.
    Unsupported,
}

/// The content of a [`CallRoute`].
pub enum RouteView {
    /// A script-backed user function, by canonical path.
    UserFunction(Seq<char>),
    /// A method without state, by library object.
    PureLibrary(Seq<char>),
    /// A method with state, by library object.
    StatefulLibrary(Seq<char>),
    /// A hardware call, by library object.
    IoLibrary(Seq<char>),
    /// A function of the calibration-only mathematical library, by library object.
    MathAssumption(Seq<char>),
    /// Interpolation in a table.
    TableLookup,
    /// One cell of a table.
    TableGet,
    /// The integer of a member of an enumeration.
    EnumAsInteger,
    /// The name of a member of an enumeration.
    EnumAsString,
    /// A range test.
    ObjectValidate,
    /// Holding a number within a range.
    ObjectConstrain,
    /// A read without a scheduling dependency.
    ObjectGetUnscheduled,
    /// A write to a channel.
    ChannelSet,
    /// A timer.
    Timer,
    /// A hardware call on a project object.
    ProjectIo,
    /// None.
    Unsupported,
}

impl View for CallRoute {
    type V = RouteView;

    open spec fn view(&self) -> RouteView {
        match *self {
            CallRoute::UserFunction(s) => RouteView::UserFunction(s@),
            CallRoute::PureLibrary(s) => RouteView::PureLibrary(s@),
            CallRoute::StatefulLibrary(s) => RouteView::StatefulLibrary(s@),
            CallRoute::IoLibrary(s) => RouteView::IoLibrary(s@),
            CallRoute::MathAssumption(s) => RouteView::MathAssumption(s@),
            CallRoute::TableLookup => RouteView::TableLookup,
            CallRoute::TableGet => RouteView::TableGet,
            CallRoute::EnumAsInteger => RouteView::EnumAsInteger,
            CallRoute::EnumAsString => RouteView::EnumAsString,
            CallRoute::ObjectValidate => RouteView::ObjectValidate,
            CallRoute::ObjectConstrain => RouteView::ObjectConstrain,
            CallRoute::ObjectGetUnscheduled => RouteView::ObjectGetUnscheduled,
            CallRoute::ChannelSet => RouteView::ChannelSet,
            CallRoute::Timer => RouteView::Timer,
            CallRoute::ProjectIo => RouteView::ProjectIo,
            CallRoute::Unsupported => RouteView::Unsupported,
        }
    }
}

/// The support and the route of a call.
#[derive(Debug)]
pub struct CallCapability {
    /// The support.
    pub support: BuiltinSupport,
    /// The route.
    pub route: CallRoute,
}

/// The content of a [`CallCapability`].
pub type CapabilityView = (BuiltinSupport, RouteView);

impl View for CallCapability {
    type V = CapabilityView;

    open spec fn view(&self) -> CapabilityView {
        (self.support, self.route@)
    }
}

/// What resolving a call depends on.
#[derive(Debug)]
pub struct CapabilityScope<'a> {
    /// The project, if one is loaded.
    pub project: Option<&'a Project>,
    /// The group of the calling script.
    pub group: Option<&'a str>,
    /// The function of the calling script.
    pub fn_symbol: Option<&'a str>,
    /// The locals in scope.
    pub locals: &'a TextMap<Value>,
    /// The names of the scripts that can be executed.
    pub scripts: &'a Vec<String>,
    /// The builtin signatures.
    pub catalog: &'a Intrinsics,
}

fn capability(support: BuiltinSupport, route: CallRoute) -> (r: CallCapability)
    ensures
        r@ == (support, route@),
{
    CallCapability { support, route }
}

/// The capability of a call that has no route.
pub open spec fn refused() -> CapabilityView {
    (BuiltinSupport::Unsupported, RouteView::Unsupported)
}

fn unsupported_capability() -> (r: CallCapability)
    ensures
        r@ == refused(),
{
    CallCapability { support: BuiltinSupport::Unsupported, route: CallRoute::Unsupported }
}

/// Whether a library method is implemented without state.
pub open spec fn is_pure(object: Seq<char>, method: Seq<char>) -> bool {
    ||| object == "Calculate"@ && (method == "Max"@ || method == "Min"@ || method == "Absolute"@ ||
        method == "Average"@ || method == "Modulo"@ || method == "Bias"@ || method == "PI"@ ||
        method == "NAN"@ || method == "Infinity"@ || method == "MaximumFloat"@ || method == "Floor"@ ||
        method == "Ceiling"@ || method == "Power"@ || method == "FastSquareRoot"@ ||
        method == "IsNAN"@ || method == "IsFinite"@ || method == "FastSin"@ || method == "FastCos"@ ||
        method == "FastTan"@ || method == "InverseSin"@ || method == "InverseCos"@ ||
        method == "InverseTan"@ || method == "InverseTan2"@)
    ||| object == "Convert"@ && (method == "ToInteger"@ || method == "ToUnsignedInteger"@ ||
        method == "ToFixed7DP"@)
    ||| object == "Limit"@ && (method == "Range"@ || method == "Max"@ || method == "Min"@)
    ||| object == "UnixTime"@ && unix_time::is_method(method)
}

fn pure_method(object: &str, method: &str) -> (r: bool)
    ensures
        r == is_pure(object@, method@),
{
    (same(object, "Calculate") && (same(method, "Max") || same(method, "Min") ||
        same(method, "Absolute") || same(method, "Average") || same(method, "Modulo") ||
        same(method, "Bias") || same(method, "PI") || same(method, "NAN") || same(method, "Infinity") ||
        same(method, "MaximumFloat") || same(method, "Floor") || same(method, "Ceiling") ||
        same(method, "Power") || same(method, "FastSquareRoot") || same(method, "IsNAN") ||
        same(method, "IsFinite") || same(method, "FastSin") || same(method, "FastCos") ||
        same(method, "FastTan") || same(method, "InverseSin") || same(method, "InverseCos") ||
        same(method, "InverseTan") || same(method, "InverseTan2"))) ||
        (same(object, "Convert") && (same(method, "ToInteger") || same(method, "ToUnsignedInteger") ||
        same(method, "ToFixed7DP"))) || (same(object, "Limit") && (same(method, "Range") ||
        same(method, "Max") || same(method, "Min"))) ||
        (same(object, "UnixTime") && unix_time::implements(method))
}

/// Whether a library method is a state machine.
pub open spec fn is_stateful(object: Seq<char>, method: Seq<char>) -> bool {
    ||| object == "Calculate"@ && (method == "Stable"@ || method == "Hysteresis"@ ||
        method == "Between"@ || method == "Beyond"@)
    ||| object == "Filter"@ && (method == "FirstOrder"@ || method == "Maximum"@ || method == "Minimum"@)
    ||| object == "Integral"@ && (method == "Normal"@)
    ||| object == "Derivative"@ && (method == "Normal"@ || method == "Filtered"@ || method == "Adaptive"@)
    ||| object == "Delay"@ && (method == "Rising"@ || method == "Falling"@ || method == "Stable"@)
    ||| object == "Debounce"@ && (method == "Stable"@ || method == "Filter"@)
    ||| object == "Change"@ && (method == "By"@ || method == "Up"@ || method == "Down"@ ||
        method == "To"@ || method == "From"@ || method == "Either"@)
}

fn stateful_method(object: &str, method: &str) -> (r: bool)
    ensures
        r == is_stateful(object@, method@),
{
    (same(object, "Calculate") && (same(method, "Stable") || same(method, "Hysteresis") ||
        same(method, "Between") || same(method, "Beyond"))) ||
        (same(object, "Filter") && (same(method, "FirstOrder") || same(method, "Maximum") ||
        same(method, "Minimum"))) || (same(object, "Integral") && (same(method, "Normal"))) ||
        (same(object, "Derivative") && (same(method, "Normal") || same(method, "Filtered") ||
        same(method, "Adaptive"))) || (same(object, "Delay") && (same(method, "Rising") ||
        same(method, "Falling") || same(method, "Stable"))) ||
        (same(object, "Debounce") && (same(method, "Stable") || same(method, "Filter"))) ||
        (same(object, "Change") && (same(method, "By") || same(method, "Up") || same(method, "Down") ||
        same(method, "To") || same(method, "From") || same(method, "Either")))
}

/// Whether a method of the calibration-only mathematical library is evaluated.
pub open spec fn is_math(object: Seq<char>, method: Seq<char>) -> bool {
    object == "Math"@ && (method == "atan2"@ || method == "fabs"@)
}

fn math_method(object: &str, method: &str) -> (r: bool)
    ensures
        r == is_math(object@, method@),
{
    same(object, "Math") && (same(method, "atan2") || same(method, "fabs"))
}

/// Whether a library object is hardware.
pub open spec fn is_hardware(object: Seq<char>) -> bool {
    object == "CanComms"@ || object == "Serial"@ || object == "System"@ || object == "Logging"@
}

fn hardware_object(object: &str) -> (r: bool)
    ensures
        r == is_hardware(object@),
{
    same(object, "CanComms") || same(object, "Serial") || same(object, "System") || same(
        object,
        "Logging",
    )
}

/// The capability of a call on a library object. An operator whose behavior is not known is
/// not supported, and its route says so. A hardware method that the catalog lacks is not
/// supported, and is left to the adapter.
pub open spec fn library_capability(
    catalog: Intrinsics,
    object: Seq<char>,
    method: Seq<char>,
) -> CapabilityView {
    if is_pure(object, method) {
        (BuiltinSupport::Direct, RouteView::PureLibrary(object))
    } else if is_stateful(object, method) {
        (BuiltinSupport::Modeled, RouteView::StatefulLibrary(object))
    } else if stateful::lacks_evidence(object, method) {
        (BuiltinSupport::Unsupported, RouteView::StatefulLibrary(object))
    } else if is_math(object, method) {
        (BuiltinSupport::Modeled, RouteView::MathAssumption(object))
    } else if is_hardware(object) && catalog.counts(object, method).len() > 0 {
        if needs_metadata(object, method) {
            (BuiltinSupport::AdapterBacked, RouteView::IoLibrary(object))
        } else {
            (BuiltinSupport::Stubbed, RouteView::IoLibrary(object))
        }
    } else if is_hardware(object) {
        (BuiltinSupport::Unsupported, RouteView::IoLibrary(object))
    } else {
        refused()
    }
}

fn classify_library(catalog: &Intrinsics, object: &str, method: &str) -> (r: CallCapability)
    ensures
        r@ == library_capability(*catalog, object@, method@),
{
    if pure_method(object, method) {
        capability(BuiltinSupport::Direct, CallRoute::PureLibrary(object.to_owned()))
    } else if stateful_method(object, method) {
        capability(BuiltinSupport::Modeled, CallRoute::StatefulLibrary(object.to_owned()))
    } else if stateful::is_evidence_gated(object, method) {
        capability(BuiltinSupport::Unsupported, CallRoute::StatefulLibrary(object.to_owned()))
    } else if math_method(object, method) {
        capability(BuiltinSupport::Modeled, CallRoute::MathAssumption(object.to_owned()))
    } else if hardware_object(object) && catalog.library_overloads(object, method).len() > 0 {
        let support = if required_metadata(object, method) {
            BuiltinSupport::AdapterBacked
        } else {
            BuiltinSupport::Stubbed
        };
        capability(support, CallRoute::IoLibrary(object.to_owned()))
    } else if hardware_object(object) {
        capability(BuiltinSupport::Unsupported, CallRoute::IoLibrary(object.to_owned()))
    } else {
        unsupported_capability()
    }
}

/// The capability of a call on a receiver that resolves to nothing.
pub open spec fn unresolved_capability(method: Seq<char>) -> CapabilityView {
    if project_stub_of(method) is Some {
        (BuiltinSupport::Stubbed, RouteView::ProjectIo)
    } else {
        refused()
    }
}

fn classify_unresolved_project_method(method: &str) -> (r: CallCapability)
    ensures
        r@ == unresolved_capability(method@),
{
    if is_project_stub_method(method) {
        capability(BuiltinSupport::Stubbed, CallRoute::ProjectIo)
    } else {
        unsupported_capability()
    }
}

/// Whether a symbol is a value that only a channel behind it makes writable.
pub open spec fn is_plain_value(project: Project, canon: Seq<char>) -> bool {
    let symbol = project.symbols@[canon];
    match symbol.kind {
        SymbolKind::Channel => true,
        SymbolKind::Parameter => true,
        SymbolKind::Constant => true,
        SymbolKind::Table => true,
        SymbolKind::Group => symbol.default_value is Some || project.symbols@.contains_key(
            dotted(canon, "Value"@),
        ),
        _ => false,
    }
}

/// Whether a symbol may be a hardware object.
pub open spec fn is_io_kind(kind: SymbolKind) -> bool {
    kind is Object || kind is Group || kind is Reference || kind is Other
}

/// Whether a method is one of a timer's.
pub open spec fn is_timer_method(method: Seq<char>) -> bool {
    method == "Start"@ || method == "Stop"@ || method == "Reset"@ || method == "Remaining"@
}

/// The capability of a call on a project symbol.
pub open spec fn project_capability(project: Project, canon: Seq<char>, method: Seq<char>) -> CapabilityView {
    if !project.symbols@.contains_key(canon) {
        refused()
    } else {
        let symbol = project.symbols@[canon];
        if symbol.kind is Table && method == "Lookup"@ {
            (BuiltinSupport::Modeled, RouteView::TableLookup)
        } else if symbol.kind is Table && method == "Get"@ {
            (BuiltinSupport::Direct, RouteView::TableGet)
        } else if method == "AsInteger"@ && value_path_of(project, Sought::Enumeration, canon)
            is Some {
            (BuiltinSupport::Direct, RouteView::EnumAsInteger)
        } else if method == "AsString"@ && value_path_of(project, Sought::Enumeration, canon)
            is Some {
            (BuiltinSupport::Direct, RouteView::EnumAsString)
        } else if method == "Set"@ && value_path_of(project, Sought::Writable, canon) is Some {
            (BuiltinSupport::Direct, RouteView::ChannelSet)
        } else if method == "GetUnscheduled"@ {
            if unscheduled_path_of(project, canon) is Some {
                (BuiltinSupport::Direct, RouteView::ObjectGetUnscheduled)
            } else {
                refused()
            }
        } else if method == "Set"@ && is_plain_value(project, canon) {
            refused()
        } else if method == "Validate"@ && value_path_of(project, Sought::Numeric, canon) is Some {
            (BuiltinSupport::Direct, RouteView::ObjectValidate)
        } else if method == "Constrain"@ && value_path_of(project, Sought::Numeric, canon)
            is Some {
            (BuiltinSupport::Direct, RouteView::ObjectConstrain)
        } else if text_of(symbol.classname) == Some("BuiltIn.Timer"@) && is_timer_method(method) {
            (BuiltinSupport::Modeled, RouteView::Timer)
        } else if is_io_kind(symbol.kind) && project_stub_of(method) is Some {
            (BuiltinSupport::Stubbed, RouteView::ProjectIo)
        } else {
            refused()
        }
    }
}

fn timer_method(method: &str) -> (r: bool)
    ensures
        r == is_timer_method(method@),
{
    same(method, "Start") || same(method, "Stop") || same(method, "Reset") || same(
        method,
        "Remaining",
    )
}

fn classify_project_method(project: &Project, canon: &str, method: &str) -> (r: CallCapability)
    ensures
        r@ == project_capability(*project, canon@, method@),
{
    let symbol = match project.symbols.get(canon) {
        Some(s) => s,
        None => return unsupported_capability(),
    };
    let table = match symbol.kind {
        SymbolKind::Table => true,
        _ => false,
    };
    if table && same(method, "Lookup") {
        return capability(BuiltinSupport::Modeled, CallRoute::TableLookup);
    }
    if table && same(method, "Get") {
        return capability(BuiltinSupport::Direct, CallRoute::TableGet);
    }
    if same(method, "AsInteger") && value_path(project, Sought::Enumeration, canon).is_some() {
        return capability(BuiltinSupport::Direct, CallRoute::EnumAsInteger);
    }
    if same(method, "AsString") && value_path(project, Sought::Enumeration, canon).is_some() {
        return capability(BuiltinSupport::Direct, CallRoute::EnumAsString);
    }
    if same(method, "Set") && value_path(project, Sought::Writable, canon).is_some() {
        return capability(BuiltinSupport::Direct, CallRoute::ChannelSet);
    }
    if same(method, "GetUnscheduled") {
        return if unscheduled_value_path(project, canon).is_some() {
            capability(BuiltinSupport::Direct, CallRoute::ObjectGetUnscheduled)
        } else {
            unsupported_capability()
        };
    }
    let child = dotted_text(canon, "Value");
    let plain = match symbol.kind {
        SymbolKind::Channel
        | SymbolKind::Parameter
        | SymbolKind::Constant
        | SymbolKind::Table => true,
        SymbolKind::Group => symbol.default_value.is_some() || project.symbols.contains(
            child.as_str(),
        ),
        _ => false,
    };
    if same(method, "Set") && plain {
        return unsupported_capability();
    }
    if same(method, "Validate") && value_path(project, Sought::Numeric, canon).is_some() {
        return capability(BuiltinSupport::Direct, CallRoute::ObjectValidate);
    }
    if same(method, "Constrain") && value_path(project, Sought::Numeric, canon).is_some() {
        return capability(BuiltinSupport::Direct, CallRoute::ObjectConstrain);
    }
    let timer = match &symbol.classname {
        Some(c) => same(c.as_str(), "BuiltIn.Timer"),
        None => false,
    };
    if timer && timer_method(method) {
        return capability(BuiltinSupport::Modeled, CallRoute::Timer);
    }
    let io = match symbol.kind {
        SymbolKind::Object | SymbolKind::Group | SymbolKind::Reference | SymbolKind::Other => true,
        _ => false,
    };
    if io && is_project_stub_method(method) {
        return capability(BuiltinSupport::Stubbed, CallRoute::ProjectIo);
    }
    unsupported_capability()
}

/// Whether an object is a member of an enumeration, written out.
pub open spec fn is_enum_literal(project: Project, object: Seq<char>) -> bool {
    match split_leaf(object) {
        Some((prefix, member)) => match project.enum_named(prefix) {
            Some(id) => project.enum_value(id, member) is Some,
            None => false,
        },
        None => false,
    }
}

fn enum_literal(project: &Project, object: &str) -> (r: bool)
    ensures
        r == is_enum_literal(*project, object@),
{
    match split_at_leaf(object) {
        Some((prefix, member)) => match project.enum_by_name(prefix.as_str()) {
            Some(id) => project.enum_has_member(id, member.as_str()),
            None => false,
        },
        None => false,
    }
}

/// Whether a receiver selects the library by name.
pub open spec fn is_library_anchor(object: Seq<char>) -> bool {
    object == "Library"@ || has_prefix(object, "Library."@)
}

fn library_anchor(object: &str) -> (r: bool)
    ensures
        r == is_library_anchor(object@),
{
    same(object, "Library") || after_prefix(object, "Library.").is_some()
}

/// A receiver without the `Library.` before it.
pub open spec fn without_anchor(object: Seq<char>) -> Seq<char> {
    if has_prefix(object, "Library."@) {
        object.skip("Library."@.len() as int)
    } else {
        object
    }
}

/// The library object that a receiver names directly.
pub open spec fn canonical_object(catalog: Intrinsics, object: Seq<char>) -> Option<Seq<char>> {
    let candidate = without_anchor(object);
    if !candidate.contains('.') && is_library_object(catalog.library@, candidate) {
        Some(candidate)
    } else {
        None
    }
}

fn canonical_library_object(catalog: &Intrinsics, object: &str) -> (r: Option<String>)
    ensures
        match canonical_object(*catalog, object@) {
            Some(s) => r matches Some(x) && x@ == s,
            None => r is None,
        },
{
    let candidate: String = match after_prefix(object, "Library.") {
        Some(rest) => rest,
        None => object.to_owned(),
    };
    if !has_dot(candidate.as_str()) && catalog.has_library_object(candidate.as_str()) {
        Some(candidate)
    } else {
        None
    }
}

/// The capability of a call that is resolved without a project.
pub open spec fn free_capability(
    catalog: Intrinsics,
    object: Seq<char>,
    method: Seq<char>,
) -> CapabilityView {
    match canonical_object(catalog, object) {
        Some(o) => library_capability(catalog, o, method),
        None => if is_library_anchor(object) {
            refused()
        } else {
            unresolved_capability(method)
        },
    }
}

fn classify_without_project(catalog: &Intrinsics, object: &str, method: &str) -> (r: CallCapability)
    ensures
        r@ == free_capability(*catalog, object@, method@),
{
    match canonical_library_object(catalog, object) {
        Some(o) => classify_library(catalog, o.as_str(), method),
        None => {
            if library_anchor(object) {
                unsupported_capability()
            } else {
                classify_unresolved_project_method(method)
            }
        },
    }
}

/// The capability of a call in a project. A user function comes first, then the
/// library, then a member of an enumeration, then the receiver's symbol.
pub open spec fn project_call_capability(
    project: Project,
    scripts: Seq<String>,
    catalog: Intrinsics,
    group: Option<Seq<char>>,
    function: Option<Seq<char>>,
    locals: Map<Seq<char>, Value>,
    object: Seq<char>,
    method: Seq<char>,
) -> CapabilityView {
    let full = dotted(object, method);
    match user_function(project, scripts, group, function, locals, full) {
        Some(canon) => (BuiltinSupport::Direct, RouteView::UserFunction(canon)),
        None => match resolved(project, full, group, function, locals) {
            TargetView::Builtin(o) => library_capability(catalog, o, method),
            _ => if is_enum_literal(project, object) {
                if method == "AsInteger"@ {
                    (BuiltinSupport::Direct, RouteView::EnumAsInteger)
                } else if method == "AsString"@ {
                    (BuiltinSupport::Direct, RouteView::EnumAsString)
                } else {
                    refused()
                }
            } else if is_library_anchor(object) {
                refused()
            } else {
                match resolved(project, object, group, function, locals) {
                    TargetView::Builtin(o) => library_capability(catalog, o, method),
                    TargetView::Symbol(canon) => project_capability(project, canon, method),
                    TargetView::Unresolved => unresolved_capability(method),
                    TargetView::Local(_) => refused(),
                }
            },
        },
    }
}

/// The capability of a call on a member.
pub open spec fn member_capability(
    scope: CapabilityScope,
    object: Seq<char>,
    method: Seq<char>,
) -> CapabilityView {
    match scope.project {
        None => free_capability(*scope.catalog, object, method),
        Some(project) => project_call_capability(
            *project,
            scope.scripts@,
            *scope.catalog,
            str_of(scope.group),
            str_of(scope.fn_symbol),
            scope.locals@,
            object,
            method,
        ),
    }
}

/// Classifies a call on a member.
pub fn classify_member_call(object: &str, method: &str, scope: &CapabilityScope) -> (r: CallCapability)
    ensures
        r@ == member_capability(*scope, object@, method@),
{
    let project: &Project = match scope.project {
        Some(p) => p,
        None => return classify_without_project(scope.catalog, object, method),
    };
    let full = dotted_text(object, method);
    match script_backed_user_function(
        project,
        scope.scripts,
        scope.group,
        scope.fn_symbol,
        scope.locals,
        full.as_str(),
    ) {
        Some(canon) => {
            return capability(BuiltinSupport::Direct, CallRoute::UserFunction(canon));
        },
        None => {},
    }
    match classify(full.as_str(), scope.group, scope.fn_symbol, project, scope.locals) {
        Target::Builtin { object: o } => {
            return classify_library(scope.catalog, o.as_str(), method);
        },
        _ => {},
    }
    if enum_literal(project, object) {
        return if same(method, "AsInteger") {
            capability(BuiltinSupport::Direct, CallRoute::EnumAsInteger)
        } else if same(method, "AsString") {
            capability(BuiltinSupport::Direct, CallRoute::EnumAsString)
        } else {
            unsupported_capability()
        };
    }
    if library_anchor(object) {
        return unsupported_capability();
    }
    match classify(object, scope.group, scope.fn_symbol, project, scope.locals) {
        Target::Builtin { object: o } => classify_library(scope.catalog, o.as_str(), method),
        Target::Symbol(canon) => classify_project_method(project, canon.as_str(), method),
        Target::Unresolved => classify_unresolved_project_method(method),
        Target::Local(_) => unsupported_capability(),
    }
}

/// The capability of a call of a bare name: a script-backed user function, or nothing.
pub open spec fn bare_capability(scope: CapabilityScope, callee: Seq<char>) -> CapabilityView {
    match scope.project {
        None => refused(),
        Some(project) => match user_function(
            *project,
            scope.scripts@,
            str_of(scope.group),
            str_of(scope.fn_symbol),
            scope.locals@,
            callee,
        ) {
            Some(canon) => (BuiltinSupport::Direct, RouteView::UserFunction(canon)),
            None => refused(),
        },
    }
}

/// Classifies a call of a bare name.
pub fn classify_bare_call(callee: &str, scope: &CapabilityScope) -> (r: CallCapability)
    ensures
        r@ == bare_capability(*scope, callee@),
{
    match scope.project {
        None => unsupported_capability(),
        Some(project) => match script_backed_user_function(
            project,
            scope.scripts,
            scope.group,
            scope.fn_symbol,
            scope.locals,
            callee,
        ) {
            Some(canon) => capability(BuiltinSupport::Direct, CallRoute::UserFunction(canon)),
            None => unsupported_capability(),
        },
    }
}

/// How a call is supported, without a project to resolve its receiver.
pub fn classify_builtin(object: &str, method: &str, catalog: &Intrinsics) -> (r: BuiltinSupport)
    ensures
        r == free_capability(*catalog, object@, method@).0,
{
    classify_without_project(catalog, object, method).support
}

/// What a call comes to, or what it waits for.
#[derive(Debug)]
pub enum Dispatched {
    /// A value.
    Done(Value),
    /// An answer of the host's mathematical library; see [`HostMath::finish`].
    Host(HostMath),
    /// An answer of the hardware adapter; see [`io_stub::settle`].
    Hardware(HardwareCall),
    /// The execution of a script; see [`userfn::leave`].
    Enter(UserCall),
}

/// Whether a list of counts holds a count.
fn admits(counts: &Vec<usize>, count: usize) -> (r: bool)
    ensures
        r == counts@.contains(count),
{
    let mut i: usize = 0;
    while i < counts.len()
        invariant
            i <= counts.len(),
            forall|j: int| 0 <= j < i ==> counts@[j] != count,
        decreases counts.len() - i,
    {
        if counts[i] == count {
            assert(counts@[i as int] == count);
            return true;
        }
        i = i + 1;
    }
    false
}

/// Whether a count comes after another that may be missing.
pub open spec fn follows(c: usize, last: Option<usize>) -> bool {
    match last {
        Some(l) => c > l,
        None => true,
    }
}

/// The least of the counts that come after another.
fn next_count(counts: &Vec<usize>, last: Option<usize>) -> (r: Option<usize>)
    ensures
        match r {
            Some(b) => counts@.contains(b) && follows(b, last) && forall|j: int|
                0 <= j < counts@.len() && follows(#[trigger] counts@[j], last) ==> b <= counts@[j],
            None => forall|j: int| 0 <= j < counts@.len() ==> !follows(#[trigger] counts@[j], last),
        },
{
    let mut best: Option<usize> = None;
    let mut i: usize = 0;
    while i < counts.len()
        invariant
            i <= counts.len(),
            match best {
                Some(b) => counts@.contains(b) && follows(b, last) && forall|j: int|
                    0 <= j < i && follows(#[trigger] counts@[j], last) ==> b <= counts@[j],
                None => forall|j: int| 0 <= j < i ==> !follows(#[trigger] counts@[j], last),
            },
        decreases counts.len() - i,
    {
        let c: usize = counts[i];
        let later: bool = match last {
            Some(l) => c > l,
            None => true,
        };
        let better: bool = match best {
            Some(b) => c < b,
            None => true,
        };
        if later && better {
            assert(counts@[i as int] == c);
            best = Some(c);
        }
        i = i + 1;
    }
    best
}

/// Whether a list holds the given counts, least first and each once.
pub open spec fn is_sorted_once(list: Seq<usize>, counts: Seq<usize>) -> bool {
    &&& forall|i: int, j: int| 0 <= i < j < list.len() ==> #[trigger] list[i] < #[trigger] list[j]
    &&& forall|c: usize| #[trigger] list.contains(c) == counts.contains(c)
}

/// Counts in decimal digits, joined by "or".
pub open spec fn or_list(list: Seq<usize>) -> Seq<char>
    decreases list.len(),
{
    if list.len() == 0 {
        Seq::empty()
    } else if list.len() == 1 {
        decimal(list[0] as nat)
    } else {
        or_list(list.drop_last()) + " or "@ + decimal(list.last() as nat)
    }
}

/// Whether a text shows the given counts, least first and each once, joined by "or".
pub open spec fn shows_counts(text: Seq<char>, counts: Seq<usize>) -> bool {
    exists|list: Seq<usize>| #[trigger] is_sorted_once(list, counts) && text == or_list(list)
}

/// The accepted argument counts, least first and each once, joined by "or".
fn arities_display(accepted: &Vec<usize>) -> (r: String)
    ensures
        shows_counts(r@, accepted@),
{
    let mut out: String = String::new();
    let mut last: Option<usize> = None;
    let ghost mut list: Seq<usize> = Seq::empty();
    let mut next: Option<usize> = next_count(accepted, last);
    assert(out@ =~= or_list(list));
    while next.is_some()
        invariant
            out@ == or_list(list),
            last is None == (list.len() == 0),
            last matches Some(l) ==> list.last() == l,
            forall|i: int, j: int|
                0 <= i < j < list.len() ==> #[trigger] list[i] < #[trigger] list[j],
            forall|i: int| 0 <= i < list.len() ==> accepted@.contains(#[trigger] list[i]),
            forall|j: int|
                0 <= j < accepted@.len() && !follows(#[trigger] accepted@[j], last)
                    ==> list.contains(accepted@[j]),
            match next {
                Some(b) => accepted@.contains(b) && follows(b, last) && forall|j: int|
                    0 <= j < accepted@.len() && follows(#[trigger] accepted@[j], last) ==> b
                        <= accepted@[j],
                None => forall|j: int|
                    0 <= j < accepted@.len() ==> !follows(#[trigger] accepted@[j], last),
            },
        decreases (match next {
            Some(b) => usize::MAX - b + 1,
            None => 0int,
        }),
    {
        let b: usize = next.unwrap();
        if last.is_some() {
            out.append(" or ");
        }
        let text = decimal_text(b as u64);
        out.append(text.as_str());
        proof {
            let grown = list.push(b);
            assert(grown.drop_last() =~= list);
            if list.len() == 0 {
                assert(out@ =~= or_list(grown));
            }
            assert(grown[list.len() as int] == b);
            assert forall|j: int|
                0 <= j < accepted@.len() && !follows(
                    #[trigger] accepted@[j],
                    Some(b),
                ) implies grown.contains(accepted@[j]) by {
                if follows(accepted@[j], last) {
                    assert(accepted@[j] == grown[list.len() as int]);
                } else {
                    let i = choose|i: int| 0 <= i < list.len() && list[i] == accepted@[j];
                    assert(grown[i] == accepted@[j]);
                }
            }
            list = grown;
        }
        last = Some(b);
        next = next_count(accepted, last);
    }
    proof {
        assert forall|c: usize| #[trigger] list.contains(c) == accepted@.contains(c) by {
            if accepted@.contains(c) {
                let j = choose|j: int| 0 <= j < accepted@.len() && accepted@[j] == c;
                assert(!follows(accepted@[j], last));
            }
        }
        assert(is_sorted_once(list, accepted@));
    }
    out
}

/// Whether an error names the call, the counts that it takes and the one that it got.
pub open spec fn is_count_error(
    e: EvalError,
    object: Seq<char>,
    method: Seq<char>,
    accepted: Seq<usize>,
    count: nat,
) -> bool {
    e matches EvalError::BadCall { detail } && exists|list: Seq<usize>|
        #[trigger] is_sorted_once(list, accepted) && detail@ == dotted(object, method) + " expects "@
            + or_list(list) + " argument(s), got "@ + decimal(count)
}

/// A bad call for an argument count.
fn wrong_count(object: &str, method: &str, accepted: &Vec<usize>, count: usize) -> (r: EvalError)
    ensures
        is_count_error(r, object@, method@, accepted@, count as nat),
{
    let name = dotted_text(object, method);
    let wanted = arities_display(accepted);
    let got = decimal_text(count as u64);
    EvalError::BadCall {
        detail: name.concat(" expects ").concat(wanted.as_str()).concat(" argument(s), got ").concat(
            got.as_str(),
        ),
    }
}

/// Whether a result is that of checking an argument count against the accepted
/// ones and against the number that the implementation reads.
pub open spec fn counted(
    r: Result<(), EvalError>,
    accepted: Seq<usize>,
    count: nat,
    least: nat,
    object: Seq<char>,
    method: Seq<char>,
) -> bool {
    if accepted.len() == 0 {
        r matches Err(e) && is_unsupported(e, object, method)
    } else if accepted.contains(count as usize) && count >= least {
        r is Ok
    } else {
        r matches Err(e) && is_count_error(e, object, method, accepted, count)
    }
}

fn check_count(accepted: &Vec<usize>, count: usize, least: usize, object: &str, method: &str) -> (r: Result<
    (),
    EvalError,
>)
    ensures
        counted(r, accepted@, count as nat, least as nat, object@, method@),
{
    if accepted.len() == 0 {
        Err(unsupported(object, method))
    } else if admits(accepted, count) && count >= least {
        Ok(())
    } else {
        Err(wrong_count(object, method, accepted, count))
    }
}

/// The least number of arguments that a method without state reads.
pub open spec fn pure_arity(object: Seq<char>, method: Seq<char>) -> nat {
    if object == "Calculate"@ {
        calculate::arity(method)
    } else if object == "Convert"@ {
        if method == "ToInteger"@ || method == "ToUnsignedInteger"@ || method == "ToFixed7DP"@ {
            1
        } else {
            0
        }
    } else if object == "Limit"@ {
        if method == "Range"@ {
            3
        } else if method == "Max"@ || method == "Min"@ {
            2
        } else {
            0
        }
    } else {
        unix_time::arity(method)
    }
}

fn pure_arity_of(object: &str, method: &str) -> (r: usize)
    ensures
        r == pure_arity(object@, method@),
{
    if same(object, "Calculate") {
        calculate::arity_of(method)
    } else if same(object, "Convert") {
        if same(method, "ToInteger") || same(method, "ToUnsignedInteger") || same(
            method,
            "ToFixed7DP",
        ) {
            1
        } else {
            0
        }
    } else if same(object, "Limit") {
        if same(method, "Range") {
            3
        } else if same(method, "Max") || same(method, "Min") {
            2
        } else {
            0
        }
    } else {
        unix_time::arity_of(method)
    }
}

/// Whether a result is the answer of a library method: an unsupported call for no
/// answer, a type error for an inner none.
pub open spec fn answered(
    r: Result<Dispatched, EvalError>,
    a: Option<Option<Value>>,
    fault: Seq<char>,
    object: Seq<char>,
    method: Seq<char>,
) -> bool {
    match a {
        None => r matches Err(e) && is_unsupported(e, object, method),
        Some(None) => r matches Err(e) && is_type_error(e, fault),
        Some(Some(v)) => r matches Ok(Dispatched::Done(x)) && x == v,
    }
}

/// Whether a result and an environment are those of a method without state.
pub open spec fn calls_pure(
    before: Env,
    after: Env,
    library: Seq<char>,
    object: Seq<char>,
    method: Seq<char>,
    args: Seq<Value>,
    r: Result<Dispatched, EvalError>,
) -> bool {
    if library == "Calculate"@ {
        &&& after == before
        &&& match calculate::answer(method, args) {
            None => r matches Err(e) && is_unsupported(e, object, method),
            Some(None) => r matches Err(e) && is_type_error(e, calculate::fault(method, args)),
            Some(Some(Outcome::Known(v))) => r matches Ok(Dispatched::Done(x)) && x == v,
            Some(Some(Outcome::Host(h))) => r matches Ok(Dispatched::Host(x)) && x == h,
        }
    } else if library == "Convert"@ {
        after == before && answered(
            r,
            convert::answer(method, args),
            convert::fault(method, args),
            object,
            method,
        )
    } else if library == "Limit"@ {
        after == before && answered(
            r,
            limit::answer(method, args),
            "Limit on non-numeric operands"@,
            object,
            method,
        )
    } else {
        match r {
            Ok(Dispatched::Done(v)) => unix_time::calls(
                before,
                after,
                method,
                args,
                Ok::<Value, EvalError>(v),
            ),
            Err(e) => unix_time::calls(before, after, method, args, Err::<Value, EvalError>(e)),
            _ => false,
        }
    }
}

fn call_pure(library: &str, object: &str, method: &str, args: &[Value], env: &mut Env) -> (r: Result<
    Dispatched,
    EvalError,
>)
    requires
        args.len() >= pure_arity(library@, method@),
    ensures
        calls_pure(*old(env), *final(env), library@, object@, method@, args@, r),
{
    if same(library, "Calculate") {
        match calculate::call(method, args) {
            Ok(Some(Outcome::Known(v))) => Ok(Dispatched::Done(v)),
            Ok(Some(Outcome::Host(h))) => Ok(Dispatched::Host(h)),
            Ok(None) => Err(unsupported(object, method)),
            Err(e) => Err(e),
        }
    } else if same(library, "Convert") {
        match convert::call(method, args) {
            Ok(Some(v)) => Ok(Dispatched::Done(v)),
            Ok(None) => Err(unsupported(object, method)),
            Err(e) => Err(e),
        }
    } else if same(library, "Limit") {
        match limit::call(method, args) {
            Ok(Some(v)) => Ok(Dispatched::Done(v)),
            Ok(None) => Err(unsupported(object, method)),
            Err(e) => Err(e),
        }
    } else {
        match unix_time::call(method, args, env) {
            Ok(v) => Ok(Dispatched::Done(v)),
            Err(e) => Err(e),
        }
    }
}

/// The table under a path, or under its path without the leading `Root.`.
pub open spec fn calibrated_table(calib: Calibration, path: Seq<char>) -> Option<CalTable> {
    if calib.tables@.contains_key(path) {
        Some(calib.tables@[path])
    } else if has_prefix(path, "Root."@) && calib.tables@.contains_key(
        path.skip("Root."@.len() as int),
    ) {
        Some(calib.tables@[path.skip("Root."@.len() as int)])
    } else {
        None
    }
}

fn find_table<'a>(calib: &'a Calibration, path: &str) -> (r: Option<&'a CalTable>)
    ensures
        match calibrated_table(*calib, path@) {
            Some(t) => r matches Some(x) && *x == t,
            None => r is None,
        },
{
    match calib.table(path) {
        Some(t) => Some(t),
        None => match after_prefix(path, "Root.") {
            Some(rest) => calib.table(rest.as_str()),
            None => None,
        },
    }
}

/// The table that an object names, by canonical path.
pub open spec fn table_named(ctx: EvalCtx, object: Seq<char>) -> Option<Seq<char>> {
    match resolved(
        *ctx.project,
        object,
        text_of(ctx.group),
        text_of(ctx.fn_symbol),
        ctx.env.locals@,
    ) {
        TargetView::Symbol(canon) => if ctx.project.symbols@.contains_key(canon)
            && ctx.project.symbols@[canon].kind is Table {
            Some(canon)
        } else {
            None
        },
        _ => None,
    }
}

fn table_path(object: &str, ctx: &EvalCtx) -> (r: Option<String>)
    ensures
        match table_named(*ctx, object@) {
            Some(p) => r matches Some(x) && x@ == p,
            None => r is None,
        },
{
    match classify(
        object,
        borrow_text(&ctx.group),
        borrow_text(&ctx.fn_symbol),
        ctx.project,
        &ctx.env.locals,
    ) {
        Target::Symbol(canon) => {
            let table = match ctx.project.symbols.get(canon.as_str()) {
                Some(s) => match s.kind {
                    SymbolKind::Table => true,
                    _ => false,
                },
                None => false,
            };
            if table {
                Some(canon)
            } else {
                None
            }
        },
        _ => None,
    }
}

/// The scalars of arguments; nothing where one is none.
pub open spec fn scalars_of(args: Seq<Value>) -> Option<Seq<M1Scalar>>
    decreases args.len(),
{
    if args.len() == 0 {
        Some(Seq::empty())
    } else {
        match (scalars_of(args.drop_last()), args.last().scalar()) {
            (Some(s), Some(x)) => Some(s.push(x)),
            _ => None,
        }
    }
}

fn collect_scalars(args: &[Value]) -> (r: Result<Vec<M1Scalar>, EvalError>)
    ensures
        match scalars_of(args@) {
            Some(s) => r matches Ok(v) && v@ == s,
            None => r matches Err(e) && is_type_error(e, not_numeric()),
        },
{
    let mut out: Vec<M1Scalar> = Vec::new();
    let mut i: usize = 0;
    while i < args.len()
        invariant
            i <= args.len(),
            scalars_of(args@.take(i as int)) == Some(out@),
        decreases args.len() - i,
    {
        assert(args@.take(i + 1).drop_last() =~= args@.take(i as int));
        assert(args@.take(i + 1).last() == args@[i as int]);
        match args[i].m1_scalar() {
            Ok(s) => {
                out.push(s);
            },
            Err(e) => {
                proof {
                    assert(scalars_of(args@.take(i + 1)) is None);
                    lemma_scalars_fail(args@, i + 1);
                }
                return Err(e);
            },
        }
        i = i + 1;
    }
    assert(args@.take(i as int) =~= args@);
    Ok(out)
}

proof fn lemma_scalars_fail(args: Seq<Value>, i: int)
    requires
        0 <= i <= args.len(),
        scalars_of(args.take(i)) is None,
    ensures
        scalars_of(args) is None,
    decreases args.len() - i,
{
    if i < args.len() {
        assert(args.take(i + 1).drop_last() =~= args.take(i));
        lemma_scalars_fail(args, i + 1);
    } else {
        assert(args.take(i) =~= args);
    }
}

/// Whether a result and a context are those of a table without calibration: an
/// error, or zero from outside where unset values may take their default.
pub open spec fn lacks_table(
    before: EvalCtx,
    after: EvalCtx,
    canon: Seq<char>,
    r: Result<Option<Value>, EvalError>,
) -> bool {
    if before.env.default_unseeded_channels {
        &&& r == Ok::<Option<Value>, EvalError>(
            Some(Value::M1(M1Scalar::FloatingPoint(F32 { bits: 0 }))),
        )
        &&& marked(before.trace, after.trace, canon)
        &&& after == (EvalCtx { trace: after.trace, ..before })
    } else {
        (r matches Err(EvalError::MissingCalibration { path }) && path@ == canon) && after == before
    }
}

fn missing_table(canon: &str, ctx: &mut EvalCtx) -> (r: Result<Option<Value>, EvalError>)
    ensures
        lacks_table(*old(ctx), *final(ctx), canon@, r),
{
    if ctx.env.default_unseeded_channels {
        mark_external(ctx, canon);
        Ok(Some(Value::m1_float(F32::from_bits(0))))
    } else {
        Err(EvalError::MissingCalibration { path: canon.to_owned() })
    }
}

/// Whether a result and a context are those of a table's `Lookup`.
pub open spec fn looks_up(
    before: EvalCtx,
    after: EvalCtx,
    object: Seq<char>,
    args: Seq<Value>,
    r: Result<Option<Value>, EvalError>,
) -> bool {
    match table_named(before, object) {
        None => r == Ok::<Option<Value>, EvalError>(None) && after == before,
        Some(canon) => match calibrated_table(*before.calib, canon) {
            None => lacks_table(before, after, canon, r),
            Some(table) => after == before && match scalars_of(args) {
                None => r matches Err(e) && is_type_error(e, not_numeric()),
                Some(inputs) => if fits(table@, inputs.len()) {
                    r == Ok::<Option<Value>, EvalError>(
                        Some(
                            Value::M1(
                                M1Scalar::FloatingPoint(interpolated(table@.0, table@.1, inputs)),
                            ),
                        ),
                    )
                } else {
                    r matches Err(e) && is_bad_call(e, misfit_of(table@, inputs.len()))
                },
            },
        },
    }
}

/// A table's `Lookup`, or `None` where the object is no table.
pub fn try_table_lookup(object: &str, args: &[Value], ctx: &mut EvalCtx) -> (r: Result<
    Option<Value>,
    EvalError,
>)
    ensures
        looks_up(*old(ctx), *final(ctx), object@, args@, r),
{
    let canon: String = match table_path(object, ctx) {
        Some(c) => c,
        None => return Ok(None),
    };
    let calib: &Calibration = ctx.calib;
    match find_table(calib, canon.as_str()) {
        None => missing_table(canon.as_str(), ctx),
        Some(table) => {
            let inputs = collect_scalars(args)?;
            match lookup(table, inputs.as_slice()) {
                Ok(s) => Ok(Some(Value::M1(s))),
                Err(e) => Err(e),
            }
        },
    }
}

/// The cell position that a value names: a whole number that is not negative.
pub open spec fn site_index(value: Value) -> Option<nat> {
    match value {
        Value::M1(M1Scalar::Integer(v)) => if v >= 0 {
            Some(v as nat)
        } else {
            None
        },
        Value::M1(M1Scalar::UnsignedInteger(v)) => Some(v as nat),
        Value::M1(M1Scalar::FloatingPoint(v)) => if v.is_finite() && (F32 { bits: 0 }).at_most(v)
            && !v.has_fraction() {
            Some(v.whole_part())
        } else {
            None
        },
        Value::M1(M1Scalar::FixedPoint7dps(v)) => if v.raw >= 0 && v.raw % FIXED_SCALE == 0 {
            Some((v.raw / FIXED_SCALE) as nat)
        } else {
            None
        },
        _ => None,
    }
}

/// The cell position that a value names, and at most `2^64`.
fn table_site_index(value: &Value) -> (r: Option<u128>)
    ensures
        match site_index(*value) {
            Some(n) => r matches Some(i) && (i == n || (i == 0x1_0000_0000_0000_0000
                && n >= i)),
            None => r is None,
        },
{
    match value {
        Value::M1(M1Scalar::Integer(v)) => {
            if *v >= 0 {
                Some(*v as u128)
            } else {
                None
            }
        },
        Value::M1(M1Scalar::UnsignedInteger(v)) => Some(*v as u128),
        Value::M1(M1Scalar::FloatingPoint(v)) => {
            if v.is_finite() && F32::from_bits(0).at_most(*v) && !v.fraction_left() {
                Some(v.whole_part_capped())
            } else {
                None
            }
        },
        Value::M1(M1Scalar::FixedPoint7dps(v)) => {
            let raw: i32 = v.raw;
            if raw >= 0 && raw % 10_000_000 == 0 {
                Some((raw / 10_000_000) as u128)
            } else {
                None
            }
        },
        _ => None,
    }
}

/// A position as far as a machine word shows it.
pub open spec fn shown_position(n: nat) -> nat {
    if n > 0xffff_ffff_ffff_ffff {
        0xffff_ffff_ffff_ffff
    } else {
        n
    }
}

/// Why a table's `Get` names no cell.
pub open spec fn cell_error(object: Seq<char>, args: Seq<Value>, cells: nat) -> Seq<char> {
    if args.len() != 1 {
        object + ".Get expects 1 site argument, got "@ + decimal(args.len())
    } else {
        match site_index(args[0]) {
            None => object + ".Get site must be a non-negative M1 integer, got "@ + value_text(
                args[0],
            ),
            Some(n) => object + ".Get site "@ + decimal(shown_position(n)) + " out of range for a "@
                + decimal(cells) + "-cell table body"@,
        }
    }
}

/// Whether a result and a context are those of a table's `Get`.
pub open spec fn gets_cell(
    before: EvalCtx,
    after: EvalCtx,
    object: Seq<char>,
    args: Seq<Value>,
    r: Result<Option<Value>, EvalError>,
) -> bool {
    match table_named(before, object) {
        None => r == Ok::<Option<Value>, EvalError>(None) && after == before,
        Some(canon) => match calibrated_table(*before.calib, canon) {
            None => lacks_table(before, after, canon, r),
            Some(table) => {
                &&& after == before
                &&& if args.len() == 1 && site_index(args[0]) is Some && site_index(args[0])->Some_0
                    < table.body@.len() {
                    r == Ok::<Option<Value>, EvalError>(
                        Some(Value::M1(table.body@[site_index(args[0])->Some_0 as int])),
                    )
                } else {
                    r matches Err(EvalError::BadCall { detail }) && detail@ == cell_error(
                        object,
                        args,
                        table.body@.len(),
                    )
                }
            },
        },
    }
}

/// A table's `Get`: one cell by its position, or `None` where the object is no
/// table. A position out of range is a bad call.
pub fn try_table_get(object: &str, args: &[Value], ctx: &mut EvalCtx) -> (r: Result<
    Option<Value>,
    EvalError,
>)
    ensures
        gets_cell(*old(ctx), *final(ctx), object@, args@, r),
{
    let canon: String = match table_path(object, ctx) {
        Some(c) => c,
        None => return Ok(None),
    };
    let calib: &Calibration = ctx.calib;
    match find_table(calib, canon.as_str()) {
        None => missing_table(canon.as_str(), ctx),
        Some(table) => {
            if args.len() != 1 {
                let got = decimal_text(args.len() as u64);
                let detail = joined(object, ".Get expects 1 site argument, got ").concat(got.as_str());
                return Err(EvalError::BadCall { detail });
            }
            match table_site_index(&args[0]) {
                Some(i) => {
                    if i < table.body.len() as u128 {
                        Ok(Some(Value::M1(table.body[i as usize])))
                    } else {
                        let shown: u64 = if i > 0xffff_ffff_ffff_ffff {
                            0xffff_ffff_ffff_ffff
                        } else {
                            i as u64
                        };
                        let site = decimal_text(shown);
                        let cells = decimal_text(table.body.len() as u64);
                        let detail = joined(object, ".Get site ").concat(site.as_str()).concat(
                            " out of range for a ",
                        ).concat(cells.as_str()).concat("-cell table body");
                        Err(EvalError::BadCall { detail })
                    }
                },
                None => Err(
                    EvalError::BadCall {
                        detail: enclosed(
                            object,
                            ".Get site must be a non-negative M1 integer, got ",
                            show_value(&args[0]).as_str(),
                        ),
                    },
                ),
            }
        },
    }
}

/// The context in which calls are classified.
pub open spec fn context_capability(ctx: EvalCtx, object: Seq<char>, method: Seq<char>) -> CapabilityView {
    project_call_capability(
        *ctx.project,
        ctx.scripts@,
        *ctx.catalog,
        text_of(ctx.group),
        text_of(ctx.fn_symbol),
        ctx.env.locals@,
        object,
        method,
    )
}

/// Whether a result wraps that of a method which may not apply.
pub open spec fn wraps(
    r: Result<Dispatched, EvalError>,
    inner: Result<Option<Value>, EvalError>,
    object: Seq<char>,
    method: Seq<char>,
) -> bool {
    match inner {
        Ok(Some(v)) => r matches Ok(Dispatched::Done(x)) && x == v,
        Ok(None) => r matches Err(e) && is_unsupported(e, object, method),
        Err(e) => r matches Err(f) && f == e,
    }
}

/// The argument count check of a project-object method.
pub open spec fn object_count_ok(ctx: EvalCtx, method: Seq<char>, count: nat, least: nat) -> bool {
    object_counts(ctx.catalog.object_methods@, method).contains(count as usize) && count >= least
}

/// Whether a result is the refusal of an argument count.
pub open spec fn count_refused(
    r: Result<Dispatched, EvalError>,
    accepted: Seq<usize>,
    object: Seq<char>,
    method: Seq<char>,
    count: nat,
) -> bool {
    if accepted.len() == 0 {
        r matches Err(e) && is_unsupported(e, object, method)
    } else {
        r matches Err(e) && is_count_error(e, object, method, accepted, count)
    }
}

/// The least number of arguments that a timer method reads.
pub open spec fn timer_arity(method: Seq<char>) -> nat {
    if method == "Start"@ {
        1
    } else {
        0
    }
}

/// The key of a timer's state: its canonical path, or its spelling where it resolves to nothing.
pub open spec fn timer_key(ctx: EvalCtx, object: Seq<char>) -> (Seq<char>, usize) {
    match resolved(
        *ctx.project,
        object,
        text_of(ctx.group),
        text_of(ctx.fn_symbol),
        ctx.env.locals@,
    ) {
        TargetView::Symbol(path) => (path, 0),
        _ => (object, 0),
    }
}

fn timer_object_key(object: &str, ctx: &EvalCtx) -> (r: CallSite)
    ensures
        r.key() == timer_key(*ctx, object@),
{
    match classify(
        object,
        borrow_text(&ctx.group),
        borrow_text(&ctx.fn_symbol),
        ctx.project,
        &ctx.env.locals,
    ) {
        Target::Symbol(path) => CallSite(path, 0),
        _ => CallSite(object.to_owned(), 0),
    }
}

/// Whether a result and a context are those of an operator step.
pub open spec fn steps(
    before: EvalCtx,
    after: EvalCtx,
    key: (Seq<char>, usize),
    outcome: Option<Option<(crate::env::OpState, Value)>>,
    fault: Seq<char>,
    touched: bool,
    object: Seq<char>,
    method: Seq<char>,
    r: Result<Dispatched, EvalError>,
) -> bool {
    &&& after == (EvalCtx { state: after.state, ..before })
    &&& match outcome {
        None => (r matches Err(e) && is_unsupported(e, object, method)) && after.state == before.state,
        Some(None) => (r matches Err(e) && is_type_error(e, fault)) && (if touched {
            after.state@ == before.state@.insert(key, before.state.current(key))
        } else {
            after.state == before.state
        }),
        Some(Some((next, value))) => (r matches Ok(Dispatched::Done(x)) && x == value)
            && after.state@ == before.state@.insert(key, next),
    }
}

/// Whether a result is that of a function of the mathematical library.
pub open spec fn calls_math(
    object: Seq<char>,
    method: Seq<char>,
    args: Seq<Value>,
    r: Result<Dispatched, EvalError>,
) -> bool {
    if method == "atan2"@ {
        match (single_of(args[0]), single_of(args[1])) {
            (Some(y), Some(x)) => r matches Ok(Dispatched::Host(h)) && h == HostMath::InverseTan2(y, x),
            _ => r matches Err(e) && is_type_error(e, not_numeric()),
        }
    } else if method == "fabs"@ {
        match single_of(args[0]) {
            Some(x) => r matches Ok(Dispatched::Done(v)) && v == Value::M1(
                M1Scalar::FloatingPoint(x.abs()),
            ),
            None => r matches Err(e) && is_type_error(e, not_numeric()),
        }
    } else {
        r matches Err(e) && is_unsupported(e, object, method)
    }
}

/// The least number of arguments of a function of the mathematical library.
pub open spec fn math_arity(method: Seq<char>) -> nat {
    if method == "atan2"@ {
        2
    } else if method == "fabs"@ {
        1
    } else {
        0
    }
}

fn call_math(object: &str, method: &str, args: &[Value]) -> (r: Result<Dispatched, EvalError>)
    requires
        args.len() >= math_arity(method@),
    ensures
        calls_math(object@, method@, args@, r),
{
    if same(method, "atan2") {
        let y = numeric_single(&args[0])?;
        let x = numeric_single(&args[1])?;
        Ok(Dispatched::Host(HostMath::InverseTan2(y, x)))
    } else if same(method, "fabs") {
        let x = numeric_single(&args[0])?;
        Ok(Dispatched::Done(Value::m1_float(x.abs())))
    } else {
        Err(unsupported(object, method))
    }
}

/// Whether a result and a context are those of a hardware call.
pub open spec fn calls_hardware(
    before: EvalCtx,
    after: EvalCtx,
    call: HardwareCall,
    r: Result<Dispatched, EvalError>,
) -> bool {
    match r {
        Ok(Dispatched::Done(v)) => begins(
            before,
            after,
            call,
            Ok::<HardwareStep, EvalError>(HardwareStep::Done(v)),
        ),
        Ok(Dispatched::Hardware(c)) => begins(
            before,
            after,
            call,
            Ok::<HardwareStep, EvalError>(HardwareStep::Ask(c)),
        ),
        Err(e) => begins(before, after, call, Err::<HardwareStep, EvalError>(e)),
        _ => false,
    }
}

/// Whether a call's receiver is that of a project object: its symbol, or its spelling.
pub open spec fn project_receiver(ctx: EvalCtx, object: Seq<char>, receiver: ResolvedReceiver) -> bool {
    match resolved(
        *ctx.project,
        object,
        text_of(ctx.group),
        text_of(ctx.fn_symbol),
        ctx.env.locals@,
    ) {
        TargetView::Symbol(p) => receiver matches ResolvedReceiver::Symbol { path } && path@ == p,
        _ => receiver matches ResolvedReceiver::Unresolved { spelling } && spelling@ == object,
    }
}

fn resolve_receiver(object: &str, ctx: &EvalCtx) -> (r: ResolvedReceiver)
    ensures
        project_receiver(*ctx, object@, r),
{
    match classify(
        object,
        borrow_text(&ctx.group),
        borrow_text(&ctx.fn_symbol),
        ctx.project,
        &ctx.env.locals,
    ) {
        Target::Symbol(path) => ResolvedReceiver::Symbol { path },
        _ => ResolvedReceiver::Unresolved { spelling: object.to_owned() },
    }
}

/// Whether a result and a context are those of entering a user function.
pub open spec fn enters_function(
    before: EvalCtx,
    after: EvalCtx,
    canon: Seq<char>,
    args: Seq<Value>,
    object: Seq<char>,
    method: Seq<char>,
    r: Result<Dispatched, EvalError>,
) -> bool {
    match r {
        Ok(Dispatched::Enter(c)) => enters(
            before,
            after,
            canon,
            args,
            Ok::<Option<UserCall>, EvalError>(Some(c)),
        ),
        Err(e) => {
            ||| entry(before, canon, args) is Absent && is_unsupported(e, object, method) && after
                == before
            ||| enters(before, after, canon, args, Err::<Option<UserCall>, EvalError>(e))
        },
        _ => false,
    }
}

/// Whether a result and a context are those of a call on a member.
pub open spec fn dispatches(
    before: EvalCtx,
    after: EvalCtx,
    object: Seq<char>,
    method: Seq<char>,
    args: Seq<Value>,
    site: CallSite,
    r: Result<Dispatched, EvalError>,
) -> bool {
    let count = args.len();
    let object_ok = object_count_ok(before, method, count, 0);
    let object_refused = count_refused(
        r,
        object_counts(before.catalog.object_methods@, method),
        object,
        method,
        count,
    ) && after == before;
    match context_capability(before, object, method).1 {
        RouteView::UserFunction(canon) => enters_function(
            before,
            after,
            canon,
            args,
            object,
            method,
            r,
        ),
        RouteView::TableLookup => exists|inner: Result<Option<Value>, EvalError>|
            #[trigger] looks_up(before, after, object, args, inner) && wraps(r, inner, object, method),
        RouteView::TableGet => exists|inner: Result<Option<Value>, EvalError>|
            #[trigger] gets_cell(before, after, object, args, inner) && wraps(r, inner, object, method),
        RouteView::PureLibrary(library) => {
            let accepted = before.catalog.counts(library, method);
            if accepted.contains(count as usize) && count >= pure_arity(library, method) {
                calls_pure(before.env, after.env, library, object, method, args, r) && after == (
                EvalCtx { env: after.env, ..before })
            } else {
                count_refused(r, accepted, object, method, count) && after == before
            }
        },
        RouteView::StatefulLibrary(library) => {
            let accepted = before.catalog.counts(library, method);
            if !(accepted.contains(count as usize) && count >= stateful::least_arity(library, method)) {
                count_refused(r, accepted, object, method, count) && after == before
            } else if stateful::lacks_evidence(library, method) {
                stateful::names_gap(r, method, args) && after == before
            } else {
                steps(
                    before,
                    after,
                    site.key(),
                    operate(library, method, args, before.state.current(site.key()), before.dt),
                    stateful::operand_fault(args, stateful::flag_place(library, method)),
                    false,
                    object,
                    method,
                    r,
                )
            }
        },
        RouteView::IoLibrary(library) => exists|call: HardwareCall|
            (call.receiver matches ResolvedReceiver::Library { object: o } && o@ == library)
                && is_call(
                    call,
                    HardwareRoute::Library,
                    object,
                    method,
                    args,
                    site,
                    before.time,
                )
                && #[trigger] calls_hardware(before, after, call, r),
        RouteView::MathAssumption(library) => {
            let accepted = before.catalog.counts(library, method);
            &&& after == before
            &&& if accepted.contains(count as usize) && count >= math_arity(method) {
                calls_math(object, method, args, r)
            } else {
                count_refused(r, accepted, object, method, count)
            }
        },
        RouteView::EnumAsInteger => if object_ok {
            exists|inner: Result<Option<Value>, EvalError>|
                #[trigger] gives_integer(before, after, object, inner) && wraps(r, inner, object, method)
        } else {
            object_refused
        },
        RouteView::EnumAsString => if object_ok {
            exists|inner: Result<Option<Value>, EvalError>|
                #[trigger] gives_name(before, after, object, inner) && wraps(r, inner, object, method)
        } else {
            object_refused
        },
        RouteView::ObjectValidate => if object_ok {
            (exists|inner: Result<Value, EvalError>|
                #[trigger] validates(before, object, args, inner) && finishes(r, inner)) && after
                == before
        } else {
            object_refused
        },
        RouteView::ObjectConstrain => if object_ok {
            (exists|inner: Result<Value, EvalError>|
                #[trigger] constrains(before, object, args, inner) && finishes(r, inner)) && after
                == before
        } else {
            object_refused
        },
        RouteView::ObjectGetUnscheduled => if object_ok {
            exists|inner: Result<Value, EvalError>|
                #[trigger] gets_unscheduled(before, after, object, inner) && finishes(r, inner)
        } else {
            object_refused
        },
        RouteView::ChannelSet => if object_ok {
            exists|inner: Result<Value, EvalError>|
                #[trigger] sets(before, after, object, args, inner) && finishes(r, inner)
        } else {
            object_refused
        },
        RouteView::Timer => if object_count_ok(before, method, count, timer_arity(method)) {
            steps(
                before,
                after,
                timer_key(before, object),
                timer_step(
                    method,
                    args,
                    before.state.current(timer_key(before, object)),
                    before.dt,
                ),
                not_numeric(),
                true,
                object,
                method,
                r,
            )
        } else {
            object_refused
        },
        RouteView::ProjectIo => exists|call: HardwareCall|
            project_receiver(before, object, call.receiver) && is_call(
                call,
                HardwareRoute::Project,
                object,
                method,
                args,
                site,
                before.time,
            ) && #[trigger] calls_hardware(before, after, call, r),
        RouteView::Unsupported => (r matches Err(e) && is_unsupported(e, object, method)) && after
            == before,
    }
}

/// Whether a result wraps a value.
pub open spec fn finishes(r: Result<Dispatched, EvalError>, inner: Result<Value, EvalError>) -> bool {
    match inner {
        Ok(v) => r matches Ok(Dispatched::Done(x)) && x == v,
        Err(e) => r matches Err(f) && f == e,
    }
}

fn wrap(inner: Result<Option<Value>, EvalError>, object: &str, method: &str) -> (r: Result<
    Dispatched,
    EvalError,
>)
    ensures
        wraps(r, inner, object@, method@),
{
    match inner {
        Ok(Some(v)) => Ok(Dispatched::Done(v)),
        Ok(None) => Err(unsupported(object, method)),
        Err(e) => Err(e),
    }
}

fn finish(inner: Result<Value, EvalError>) -> (r: Result<Dispatched, EvalError>)
    ensures
        finishes(r, inner),
{
    match inner {
        Ok(v) => Ok(Dispatched::Done(v)),
        Err(e) => Err(e),
    }
}

fn begin_hardware(step: Result<HardwareStep, EvalError>) -> (r: Result<Dispatched, EvalError>)
    ensures
        match step {
            Ok(HardwareStep::Done(v)) => r matches Ok(Dispatched::Done(x)) && x == v,
            Ok(HardwareStep::Ask(c)) => r matches Ok(Dispatched::Hardware(x)) && x == c,
            Err(e) => r matches Err(f) && f == e,
        },
{
    match step {
        Ok(HardwareStep::Done(v)) => Ok(Dispatched::Done(v)),
        Ok(HardwareStep::Ask(c)) => Ok(Dispatched::Hardware(c)),
        Err(e) => Err(e),
    }
}

/// Dispatches one call on a member.
///
/// The call is classified, and its route is taken. A call that waits for the host,
/// the hardware or a script is handed out; see [`Dispatched`].
pub fn dispatch(object: &str, method: &str, args: &[Value], site: CallSite, ctx: &mut EvalCtx) -> (r: Result<
    Dispatched,
    EvalError,
>)
    ensures
        dispatches(*old(ctx), *final(ctx), object@, method@, args@, site, r),
{
    let capability: CallCapability = {
        let scope = CapabilityScope {
            project: Some(ctx.project),
            group: borrow_text(&ctx.group),
            fn_symbol: borrow_text(&ctx.fn_symbol),
            locals: &ctx.env.locals,
            scripts: ctx.scripts,
            catalog: ctx.catalog,
        };
        classify_member_call(object, method, &scope)
    };
    let catalog: &Intrinsics = ctx.catalog;
    let count: usize = args.len();
    match capability.route {
        CallRoute::UserFunction(canon) => match userfn::enter(canon.as_str(), args, ctx) {
            Ok(Some(call)) => Ok(Dispatched::Enter(call)),
            Ok(None) => Err(unsupported(object, method)),
            Err(e) => Err(e),
        },
        CallRoute::TableLookup => wrap(try_table_lookup(object, args, ctx), object, method),
        CallRoute::TableGet => wrap(try_table_get(object, args, ctx), object, method),
        CallRoute::PureLibrary(library) => {
            let accepted = catalog.library_overloads(library.as_str(), method);
            let least: usize = pure_arity_of(library.as_str(), method);
            check_count(&accepted, count, least, object, method)?;
            call_pure(library.as_str(), object, method, args, &mut ctx.env)
        },
        CallRoute::StatefulLibrary(library) => {
            let accepted = catalog.library_overloads(library.as_str(), method);
            let least: usize = stateful::arity_of(library.as_str(), method);
            check_count(&accepted, count, least, object, method)?;
            let dt = ctx.dt;
            wrap(
                stateful::call(library.as_str(), method, args, site, &mut ctx.state, dt),
                object,
                method,
            )
        },
        CallRoute::IoLibrary(library) => {
            let step = io_stub::call(library.as_str(), object, method, args, site, ctx);
            let result = begin_hardware(step);
            proof {
                let call = choose|call: HardwareCall|
                    (call.receiver matches ResolvedReceiver::Library { object: o } && o@ == library@)
                        && is_call(
                            call,
                            HardwareRoute::Library,
                            object@,
                            method@,
                            args@,
                            site,
                            old(ctx).time,
                        )
                        && #[trigger] begins(*old(ctx), *ctx, call, step);
                assert(calls_hardware(*old(ctx), *ctx, call, result));
            }
            result
        },
        CallRoute::MathAssumption(library) => {
            let accepted = catalog.library_overloads(library.as_str(), method);
            let least: usize = if same(method, "atan2") {
                2
            } else if same(method, "fabs") {
                1
            } else {
                0
            };
            check_count(&accepted, count, least, object, method)?;
            call_math(object, method, args)
        },
        CallRoute::EnumAsInteger => {
            let accepted = catalog.object_method(method);
            check_count(&accepted, count, 0, object, method)?;
            wrap(enum_conv::as_integer(object, ctx), object, method)
        },
        CallRoute::EnumAsString => {
            let accepted = catalog.object_method(method);
            check_count(&accepted, count, 0, object, method)?;
            wrap(enum_conv::as_string(object, ctx), object, method)
        },
        CallRoute::ObjectValidate => {
            let accepted = catalog.object_method(method);
            check_count(&accepted, count, 0, object, method)?;
            finish(object::validate(object, args, ctx))
        },
        CallRoute::ObjectConstrain => {
            let accepted = catalog.object_method(method);
            check_count(&accepted, count, 0, object, method)?;
            finish(object::constrain(object, args, ctx))
        },
        CallRoute::ObjectGetUnscheduled => {
            let accepted = catalog.object_method(method);
            check_count(&accepted, count, 0, object, method)?;
            finish(object::get_unscheduled(object, ctx))
        },
        CallRoute::ChannelSet => {
            let accepted = catalog.object_method(method);
            check_count(&accepted, count, 0, object, method)?;
            finish(object::set(object, args, ctx))
        },
        CallRoute::Timer => {
            let accepted = catalog.object_method(method);
            let least: usize = if same(method, "Start") {
                1
            } else {
                0
            };
            check_count(&accepted, count, least, object, method)?;
            let key = timer_object_key(object, ctx);
            let dt = ctx.dt;
            wrap(stateful::timer(method, args, key, &mut ctx.state, dt), object, method)
        },
        CallRoute::ProjectIo => {
            let receiver = resolve_receiver(object, ctx);
            let ghost at = receiver;
            let step = io_stub::project_object_call(receiver, object, method, args, site, ctx);
            let result = begin_hardware(step);
            proof {
                let call = choose|call: HardwareCall|
                    call.receiver == at && is_call(
                        call,
                        HardwareRoute::Project,
                        object@,
                        method@,
                        args@,
                        site,
                        old(ctx).time,
                    ) && #[trigger] begins(*old(ctx), *ctx, call, step);
                assert(calls_hardware(*old(ctx), *ctx, call, result));
            }
            result
        },
        CallRoute::Unsupported => Err(unsupported(object, method)),
    }
}

/// Whether a result and a context are those of a call of a bare name.
pub open spec fn dispatches_bare(
    before: EvalCtx,
    after: EvalCtx,
    callee: Seq<char>,
    args: Seq<Value>,
    site: CallSite,
    r: Result<Dispatched, EvalError>,
) -> bool {
    let refused = (r matches Err(EvalError::UnsupportedConstruct { kind, at }) && at == site.1
        && kind@ == "call to non-function "@ + quoted_text(callee)) && after == before;
    match user_function(
        *before.project,
        before.scripts@,
        text_of(before.group),
        text_of(before.fn_symbol),
        before.env.locals@,
        callee,
    ) {
        None => refused,
        Some(canon) => match r {
            Ok(Dispatched::Enter(c)) => enters(
                before,
                after,
                canon,
                args,
                Ok::<Option<UserCall>, EvalError>(Some(c)),
            ),
            Err(e) => refused && entry(before, canon, args) is Absent || enters(
                before,
                after,
                canon,
                args,
                Err::<Option<UserCall>, EvalError>(e),
            ),
            _ => false,
        },
    }
}

/// Dispatches a call of a bare name, which only a user function can answer.
pub fn dispatch_bare(callee: &str, args: &[Value], site: CallSite, ctx: &mut EvalCtx) -> (r: Result<
    Dispatched,
    EvalError,
>)
    ensures
        dispatches_bare(*old(ctx), *final(ctx), callee@, args@, site, r),
{
    let capability: CallCapability = {
        let scope = CapabilityScope {
            project: Some(ctx.project),
            group: borrow_text(&ctx.group),
            fn_symbol: borrow_text(&ctx.fn_symbol),
            locals: &ctx.env.locals,
            scripts: ctx.scripts,
            catalog: ctx.catalog,
        };
        classify_bare_call(callee, &scope)
    };
    match capability.route {
        CallRoute::UserFunction(canon) => match userfn::enter(canon.as_str(), args, ctx) {
            Ok(Some(call)) => return Ok(Dispatched::Enter(call)),
            Ok(None) => {},
            Err(e) => return Err(e),
        },
        _ => {},
    }
    let name = quoted(callee);
    Err(
        EvalError::UnsupportedConstruct {
            kind: joined("call to non-function ", name.as_str()),
            at: site.offset(),
        },
    )
}

} // verus!
