//! Calls through dispatch: routing, argument counts, objects, hardware and user functions.

use m1_eval::builtins::calculate::HostMath;
use m1_eval::builtins::enum_conv::as_integer;
use m1_eval::builtins::io_stub::{
    is_project_stub_method, project_object_call, settle, typed_io_default, HardwareStep,
};
use m1_eval::builtins::object::{ObjectRules, ValidationRule};
use m1_eval::builtins::userfn::{enter, leave};
use m1_eval::builtins::{
    classify_builtin, classify_member_call, dispatch, dispatch_bare, BuiltinSupport, CapabilityScope,
    Dispatched,
};
use m1_eval::calib::{CalTable, Calibration};
use m1_eval::catalog::{Intrinsics, Overload};
use m1_eval::coerce::coerce_for_declared_type;
use m1_eval::context::{read_symbol, EvalCtx, ParamKind};
use m1_eval::coverage::{CoverageReport, ItemKind, UnresolvedTrigger};
use m1_eval::engine::Engine;
use m1_eval::env::{CallSite, Env, StateStore};
use m1_eval::error::EvalError;
use m1_eval::float::binary32::F32;
use m1_eval::float::binary64::F64;
use m1_eval::hardware::{
    AdapterReply, EvalPhase, EvalTime, HardwareCall, HardwareValueSource, ResolvedReceiver,
};
use m1_eval::loader::Loaded;
use m1_eval::map::TextMap;
use m1_eval::project::{EnumType, NameEntry, Project, ScriptInfo, Symbol, SymbolKind, Target};
use m1_eval::syntax::{NodeField, NodeKind, ParsedScript, SyntaxNode};
use m1_eval::trace::Trace;
use m1_eval::triggers::{TriggerMap, TriggerStatus};
use m1_eval::value::{FixedPoint7dps, M1Scalar, M1ScalarKind, Value, ValueType};

/// The binary32 number that the host writes as given.
fn single(x: f32) -> F32 {
    F32::from_bits(x.to_bits())
}

/// The binary64 number that the host writes as given.
fn double(x: f64) -> F64 {
    F64::from_bits(x.to_bits())
}

/// A script number.
fn mf(x: f32) -> Value {
    Value::m1_float(single(x))
}

/// Fixed point by its stored count.
fn fixed(raw: i32) -> Value {
    Value::M1(M1Scalar::FixedPoint7dps(FixedPoint7dps::from_raw(raw)))
}

/// The answer of the host's mathematical library.
fn host(question: HostMath) -> F32 {
    let f = |x: F32| f32::from_bits(x.to_bits());
    single(match question {
        HostMath::Power(x, y) => f(x).powf(f(y)),
        HostMath::Sin(x) => f(x).sin(),
        HostMath::Cos(x) => f(x).cos(),
        HostMath::Tan(x) => f(x).tan(),
        HostMath::InverseSin(x) => f(x).asin(),
        HostMath::InverseCos(x) => f(x).acos(),
        HostMath::InverseTan(x) => f(x).atan(),
        HostMath::InverseTan2(y, x) => f(y).atan2(f(x)),
    })
}

/// The library methods: object, method, parameter kinds and return type. The kinds are
/// `F`loat, `I`nteger, `U`nsigned, `B`oolean and `S`tring.
const LIBRARY: &[(&str, &str, &str, &str)] = &[
    ("Calculate", "Max", "II", "Integer"),
    ("Calculate", "Min", "II", "Integer"),
    ("Calculate", "Absolute", "I", "Integer"),
    ("Calculate", "Average", "II", "Integer"),
    ("Calculate", "Modulo", "II", "Integer"),
    ("Calculate", "Bias", "FFF", "FloatingPoint"),
    ("Calculate", "PI", "", "FloatingPoint"),
    ("Calculate", "NAN", "", "FloatingPoint"),
    ("Calculate", "Infinity", "", "FloatingPoint"),
    ("Calculate", "MaximumFloat", "", "FloatingPoint"),
    ("Calculate", "Floor", "F", "FloatingPoint"),
    ("Calculate", "Ceiling", "F", "FloatingPoint"),
    ("Calculate", "Power", "FF", "FloatingPoint"),
    ("Calculate", "FastSquareRoot", "F", "FloatingPoint"),
    ("Calculate", "IsNAN", "F", "Boolean"),
    ("Calculate", "IsFinite", "F", "Boolean"),
    ("Calculate", "FastSin", "F", "FloatingPoint"),
    ("Calculate", "FastCos", "F", "FloatingPoint"),
    ("Calculate", "FastTan", "F", "FloatingPoint"),
    ("Calculate", "InverseSin", "F", "FloatingPoint"),
    ("Calculate", "InverseCos", "F", "FloatingPoint"),
    ("Calculate", "InverseTan", "F", "FloatingPoint"),
    ("Calculate", "InverseTan2", "FF", "FloatingPoint"),
    ("Calculate", "Stable", "FF", "Boolean"),
    ("Calculate", "Hysteresis", "FFFF", "Boolean"),
    ("Calculate", "Between", "FFFF", "Boolean"),
    ("Calculate", "Beyond", "FFFF", "Boolean"),
    ("Convert", "ToInteger", "F", "Integer"),
    ("Convert", "ToUnsignedInteger", "F", "UnsignedInteger"),
    ("Convert", "ToFixed7DP", "I", "FixedPoint7dps"),
    ("Limit", "Range", "FFF", "FloatingPoint"),
    ("Limit", "Max", "FF", "FloatingPoint"),
    ("Limit", "Min", "FF", "FloatingPoint"),
    ("Filter", "FirstOrder", "FF", "FloatingPoint"),
    ("Filter", "FirstOrder", "FFB", "FloatingPoint"),
    ("Filter", "Maximum", "FF", "FloatingPoint"),
    ("Filter", "Minimum", "FF", "FloatingPoint"),
    ("Integral", "Normal", "FFFBF", "FloatingPoint"),
    ("Derivative", "Normal", "F", "FloatingPoint"),
    ("Derivative", "Filtered", "F", "FloatingPoint"),
    ("Derivative", "Adaptive", "FFF", "FloatingPoint"),
    ("Delay", "Rising", "BF", "Boolean"),
    ("Delay", "Falling", "BF", "Boolean"),
    ("Delay", "Stable", "FF", "Boolean"),
    ("Delay", "Signal15", "FI", "FloatingPoint"),
    ("Debounce", "Stable", "BF", "Boolean"),
    ("Debounce", "Fast", "BF", "Boolean"),
    ("Debounce", "Verify", "BF", "Boolean"),
    ("Debounce", "Filter", "BF", "Boolean"),
    ("Change", "By", "FF", "Boolean"),
    ("Change", "Up", "FF", "Boolean"),
    ("Change", "Down", "FF", "Boolean"),
    ("Change", "To", "B", "Boolean"),
    ("Change", "From", "B", "Boolean"),
    ("Change", "Either", "B", "Boolean"),
    ("Math", "atan2", "FF", "FloatingPoint"),
    ("Math", "fabs", "F", "FloatingPoint"),
    ("Math", "Sqrt", "F", "FloatingPoint"),
    ("CanComms", "GetFloat", "UI", "FloatingPoint"),
    ("CanComms", "GetFixed7DP", "UI", "FixedPoint7dps"),
    ("CanComms", "GetUnsignedInteger", "UI", "Integer"),
    ("CanComms", "GetID", "U", "Integer"),
    ("CanComms", "BusRxTotal", "U", "UnsignedInteger"),
    ("CanComms", "RxMessage", "U", "Boolean"),
    ("CanComms", "RxOpenStandard", "UUUU", "Handle"),
    ("CanComms", "SetFloat", "UIF", "Void"),
    ("Serial", "GetFloat", "UI", "FloatingPoint"),
    ("System", "ElapsedTime", "", "FloatingPoint"),
    ("System", "TickPeriod", "", "FloatingPoint"),
    ("System", "Ticks", "", "UnsignedInteger"),
    ("System", "TicksSince", "U", "UnsignedInteger"),
    ("System", "TicksBetween", "UU", "UnsignedInteger"),
    ("System", "FlashSize", "", "UnsignedInteger"),
    ("System", "FlashFree", "", "UnsignedInteger"),
    ("System", "XcpConnected", "", "Boolean"),
    ("System", "Debug", "S", "Void"),
    ("System", "AllowTuning", "B", "Void"),
    ("Logging", "Running", "", "Boolean"),
    ("Logging", "Running", "I", "Boolean"),
    ("Logging", "Unloading", "", "Boolean"),
];

/// The builtin signatures.
fn catalog() -> Intrinsics {
    let mut library = Vec::new();
    for &(object, method, params, returns) in LIBRARY {
        library.push(Overload {
            object: object.to_string(),
            method: method.to_string(),
            params: params.len(),
            returns: returns.to_string(),
        });
    }
    let object_methods = [
        ("AsInteger", 0),
        ("AsString", 0),
        ("Set", 1),
        ("Validate", 1),
        ("Constrain", 1),
        ("GetUnscheduled", 0),
        ("Start", 1),
        ("Stop", 0),
        ("Reset", 0),
        ("Remaining", 0),
    ]
    .map(|(method, count)| (method.to_string(), count))
    .to_vec();
    Intrinsics {
        library,
        object_methods,
    }
}

/// A symbol of a kind and a type.
fn symbol(kind: SymbolKind, value_type: ValueType) -> Symbol {
    Symbol {
        kind,
        value_type,
        declared_type: None,
        classname: None,
        default_value: None,
        in_params: None,
        call_rate_hz: None,
        startup: None,
    }
}

/// Builds a project.
struct Builder {
    project: Project,
}

impl Builder {
    fn new() -> Builder {
        Builder {
            project: Project {
                symbols: TextMap::new(),
                enums: Vec::new(),
                scripts: Vec::new(),
                names: Vec::new(),
            },
        }
    }

    fn add(&mut self, path: &str, symbol: Symbol) {
        self.project.symbols.insert(path.to_string(), symbol);
    }

    fn name(&mut self, group: &str, spelling: &str, target: Target) {
        self.project.names.push(NameEntry {
            group: Some(group.to_string()),
            function: None,
            spelling: spelling.to_string(),
            target,
        });
    }

    /// Adds a symbol of a group under its own name.
    fn member(&mut self, group: &str, name: &str, symbol: Symbol) {
        let path = format!("{group}.{name}");
        self.name(group, name, Target::Symbol(path.clone()));
        self.add(&path, symbol);
    }

    fn script(&mut self, name: &str, function: &str, group: &str) {
        self.project.scripts.push(ScriptInfo {
            name: name.to_string(),
            function: Some(function.to_string()),
            group: Some(group.to_string()),
        });
    }

    /// Makes the library known in a group.
    fn library(&mut self, group: &str) {
        let mut objects: Vec<&str> = Vec::new();
        for &(object, method, _, _) in LIBRARY {
            let target = || Target::Builtin {
                object: object.to_string(),
            };
            self.name(group, &format!("{object}.{method}"), target());
            self.name(group, &format!("Library.{object}.{method}"), target());
            if !objects.contains(&object) {
                objects.push(object);
                self.name(group, object, target());
                self.name(group, &format!("Library.{object}"), target());
            }
        }
    }
}

/// A project with a group of a few channels and a table.
fn mini() -> Project {
    let mut b = Builder::new();
    b.library("Root.Demo");
    b.add("Root.Demo", symbol(SymbolKind::Group, ValueType::Unknown));
    b.member("Root.Demo", "Speed", symbol(SymbolKind::Channel, ValueType::Float));
    b.member("Root.Demo", "Output", symbol(SymbolKind::Channel, ValueType::Float));
    b.member("Root.Demo", "Gain", symbol(SymbolKind::Parameter, ValueType::Float));
    b.member("Root.Demo", "Map", symbol(SymbolKind::Table, ValueType::Float));
    b.add("Root.Demo.Map.Value", symbol(SymbolKind::Channel, ValueType::Float));
    b.add("Root.Demo.Update", symbol(SymbolKind::Function, ValueType::Unknown));
    b.script("Demo.Update.m1scr", "Root.Demo.Update", "Root.Demo");
    b.project
}

/// The calibration of the mini project.
fn mini_calibration() -> Calibration {
    let list = |cells: &[f32]| -> Vec<M1Scalar> {
        cells.iter().map(|&x| M1Scalar::FloatingPoint(single(x))).collect()
    };
    let mut calib = Calibration::empty();
    calib.params.insert("Root.Demo.Gain".to_string(), M1Scalar::FloatingPoint(single(2.5)));
    calib.tables.insert(
        "Root.Demo.Map".to_string(),
        CalTable {
            axes: vec![list(&[0.0, 100.0]), list(&[0.0, 1.0])],
            body: list(&[10.0, 20.0, 30.0, 40.0]),
        },
    );
    calib
}

/// A project with an enumeration, objects, and channels with validation rules.
fn enums() -> Project {
    let mut b = Builder::new();
    b.library("Root.Demo");
    b.project.enums.push(EnumType {
        name: "Drive State".to_string(),
        members: vec![("Idle".to_string(), 0), ("Precharging".to_string(), 2)],
    });
    let group = "Root.Demo";
    let channel = |ty: ValueType| symbol(SymbolKind::Channel, ty);
    b.add(group, symbol(SymbolKind::Group, ValueType::Unknown));
    b.member(group, "Mode", channel(ValueType::Enum(0)));
    b.member(group, "Compound", symbol(SymbolKind::Group, ValueType::Unknown));
    b.add("Root.Demo.Compound.Value", channel(ValueType::Enum(0)));
    b.member(group, "Precharge State", channel(ValueType::Unsigned));
    b.member(group, "Service Bits", symbol(SymbolKind::Group, ValueType::Unknown));
    b.member(group, "DashVals", symbol(SymbolKind::Object, ValueType::Unknown));
    b.member(group, "DashVals.Aux Switch", symbol(SymbolKind::Object, ValueType::Unknown));
    b.member(group, "Fan Output", symbol(SymbolKind::Object, ValueType::Unknown));
    b.member(group, "Typed IO", symbol(SymbolKind::Object, ValueType::Float));
    let mut timer = symbol(SymbolKind::Object, ValueType::Unknown);
    timer.classname = Some("BuiltIn.Timer".to_string());
    b.member(group, "Startup Delay", timer);
    b.member(group, "Limited Signed", channel(ValueType::Integer));
    b.member(group, "Limited Float", channel(ValueType::Float));
    b.member(group, "Limited Unsigned", channel(ValueType::Unsigned));
    let mut limited = channel(ValueType::Float);
    limited.declared_type = Some("FixedPoint7dps".to_string());
    b.member(group, "Limited Fixed", limited);
    b.member(group, "Free Unsigned", channel(ValueType::Unsigned));
    b.member(group, "Positive Float", symbol(SymbolKind::Parameter, ValueType::Float));
    b.member(group, "Numeric Constant", symbol(SymbolKind::Constant, ValueType::Float));
    let mut compound = symbol(SymbolKind::Group, ValueType::Unknown);
    compound.default_value = Some("Value".to_string());
    b.member(group, "Limited Compound", compound);
    b.member("Root.Demo.Limited Compound", "Value", channel(ValueType::Unsigned));
    let mut calibration = symbol(SymbolKind::Group, ValueType::Unknown);
    calibration.default_value = Some("Calibration".to_string());
    b.member(group, "Calibration Compound", calibration);
    b.member(
        "Root.Demo.Calibration Compound",
        "Calibration",
        symbol(SymbolKind::Parameter, ValueType::Float),
    );
    b.member("Root.Demo.Calibration Compound", "Value", channel(ValueType::Float));
    b.add("Root.Demo.Update", symbol(SymbolKind::Function, ValueType::Unknown));
    b.script("Demo.Update.m1scr", "Root.Demo.Update", group);
    b.project
}

/// The validation rules of the project with an enumeration.
fn enum_rules() -> ObjectRules {
    let mut rules = ObjectRules::empty();
    let mut add = |path: &str, rule: ValidationRule| rules.validation.insert(path.to_string(), rule);
    let range = |min: f64, max: f64| ValidationRule::MinMax {
        min: double(min),
        max: double(max),
    };
    add("Root.Demo.Limited Signed", range(-2.0, 3.0));
    add("Root.Demo.Limited Float", range(-1.5, 2.25));
    add("Root.Demo.Limited Unsigned", range(0.0, 10.0));
    add("Root.Demo.Limited Fixed", range(-1.234_567_8, 1.0));
    add("Root.Demo.Limited Compound", range(0.0, 4.0));
    add("Root.Demo.Positive Float", ValidationRule::NonNegative);
    rules
}

/// A project with user functions.
fn user_functions() -> Project {
    let mut b = Builder::new();
    let function = |params: Option<&[(&str, ValueType)]>| {
        let mut s = symbol(SymbolKind::Function, ValueType::Unknown);
        s.in_params = params.map(|list| list.iter().map(|&(n, t)| (n.to_string(), t)).collect());
        s
    };
    let x: &[(&str, ValueType)] = &[("x", ValueType::Float)];
    for group in ["Root.Caller", "Root.Helper", "Root.Recur"] {
        b.library(group);
        b.add(group, symbol(SymbolKind::Group, ValueType::Unknown));
    }
    for name in ["Compute", "Echo", "FixedEcho", "FixedToFloat", "InferredFixed"] {
        b.add(&format!("Root.Helper.{name}"), function(Some(x)));
    }
    b.add("Root.Helper.ReturnInt", function(Some(&[])));
    b.add("Root.Caller.Update", function(None));
    b.add("Root.Caller.Kick", function(None));
    b.add("Root.Caller.Sub.Checkup", function(None));
    b.add("Root.Recur.Loop", function(Some(&[("n", ValueType::Float)])));
    b.member("Root.Caller", "Output", symbol(SymbolKind::Channel, ValueType::Float));
    for (group, spelling, path) in [
        ("Root.Caller", "Helper.Compute", "Root.Helper.Compute"),
        ("Root.Caller", "This.Sub.Checkup", "Root.Caller.Sub.Checkup"),
        ("Root.Caller", "Kick", "Root.Caller.Kick"),
        ("Root.Recur", "Recur.Loop", "Root.Recur.Loop"),
    ] {
        b.name(group, spelling, Target::Symbol(path.to_string()));
    }
    for name in USER_SCRIPTS {
        let path = format!("Root.{}", name.trim_end_matches(".m1scr"));
        let group = path.rsplit_once('.').unwrap().0.to_string();
        b.script(name, &path, &group);
    }
    b.project
}

/// The scripts of the project with user functions.
const USER_SCRIPTS: &[&str] = &[
    "Caller.Kick.m1scr",
    "Caller.Sub.Checkup.m1scr",
    "Caller.Update.m1scr",
    "Helper.Compute.m1scr",
    "Helper.Echo.m1scr",
    "Helper.FixedEcho.m1scr",
    "Helper.FixedToFloat.m1scr",
    "Helper.InferredFixed.m1scr",
    "Helper.ReturnInt.m1scr",
    "Recur.Loop.m1scr",
];

/// The families of parameters that the project with user functions declares.
fn user_kinds() -> Vec<ParamKind> {
    vec![ParamKind {
        function: "Root.Helper.FixedEcho".to_string(),
        param: "x".to_string(),
        kind: M1ScalarKind::FixedPoint7dps,
    }]
}

/// Owns what a call works on.
struct Harness {
    project: Project,
    calib: Calibration,
    catalog: Intrinsics,
    rules: ObjectRules,
    scripts: Vec<String>,
    kinds: Vec<ParamKind>,
    env: Env,
    state: StateStore,
    trace: Trace,
    group: &'static str,
    function: &'static str,
    script: &'static str,
}

impl Harness {
    fn over(project: Project) -> Harness {
        Harness {
            project,
            calib: Calibration::empty(),
            catalog: catalog(),
            rules: ObjectRules::empty(),
            scripts: Vec::new(),
            kinds: Vec::new(),
            env: Env::new(),
            state: StateStore::new(),
            trace: Trace::new(),
            group: "Root.Demo",
            function: "Root.Demo.Update",
            script: "Demo.Update.m1scr",
        }
    }

    fn new() -> Harness {
        let mut h = Harness::over(mini());
        h.calib = mini_calibration();
        h
    }

    fn empty_calib() -> Harness {
        Harness::over(mini())
    }

    fn objects() -> Harness {
        let mut h = Harness::over(enums());
        h.rules = enum_rules();
        h
    }

    fn callers() -> Harness {
        let mut h = Harness::over(user_functions());
        h.scripts = USER_SCRIPTS.iter().map(|s| s.to_string()).collect();
        h.kinds = user_kinds();
        h.group = "Root.Caller";
        h.function = "Root.Caller.Update";
        h.script = "Caller.Update.m1scr";
        h
    }

    /// Runs a step in a context over the owned parts.
    fn with<T>(&mut self, time: EvalTime, step: impl FnOnce(&mut EvalCtx) -> T) -> T {
        let mut ctx = EvalCtx {
            project: &self.project,
            calib: &self.calib,
            catalog: &self.catalog,
            object_rules: &self.rules,
            scripts: &self.scripts,
            signature_types: &self.kinds,
            env: std::mem::replace(&mut self.env, Env::new()),
            state: std::mem::replace(&mut self.state, StateStore::new()),
            trace: Some(std::mem::replace(&mut self.trace, Trace::new())),
            group: Some(self.group.to_string()),
            fn_symbol: Some(self.function.to_string()),
            script_name: self.script.to_string(),
            dt: double(0.01),
            time,
            depth: 0,
        };
        let result = step(&mut ctx);
        let (env, state, trace) = (ctx.env, ctx.state, ctx.trace);
        self.env = env;
        self.state = state;
        self.trace = trace.expect("a trace is kept");
        result
    }

    fn io_at(
        &mut self,
        object: &str,
        method: &str,
        args: &[Value],
        site: CallSite,
        time: EvalTime,
        adapter: Option<&mut RecordingAdapter>,
    ) -> Result<Value, EvalError> {
        let mut none = RecordingAdapter::silent();
        let adapter = adapter.unwrap_or(&mut none);
        self.with(time, |ctx| {
            let dispatched = dispatch(object, method, args, site, ctx)?;
            finish(dispatched, ctx, adapter)
        })
    }

    fn io(&mut self, object: &str, method: &str, args: &[Value]) -> Result<Value, EvalError> {
        let site = CallSite::new("Demo.Update.m1scr", 0);
        self.io_at(object, method, args, site, EvalTime::at_start(double(0.02)), None)
    }

    fn call(&mut self, object: &str, method: &str, args: &[Value]) -> Result<Value, EvalError> {
        self.io(object, method, args)
    }

    fn enter(&mut self, callee: &str, args: &[Value]) -> Result<Option<Value>, EvalError> {
        self.with(EvalTime::at_start(double(0.01)), |ctx| match enter(callee, args, ctx)? {
            Some(call) => {
                let outcome = run_script(&call.script, ctx);
                leave(call, outcome, ctx).map(Some)
            }
            None => Ok(None),
        })
    }

    fn support(&self, object: &str, method: &str) -> BuiltinSupport {
        let locals = TextMap::new();
        let scope = CapabilityScope {
            project: Some(&self.project),
            group: Some(self.group),
            fn_symbol: None,
            locals: &locals,
            scripts: &self.scripts,
            catalog: &self.catalog,
        };
        classify_member_call(object, method, &scope).support
    }
}

/// How a call is supported without a project.
fn classify(object: &str, method: &str) -> BuiltinSupport {
    classify_builtin(object, method, &catalog())
}

/// An adapter that gives one reply and keeps what it is asked.
struct RecordingAdapter {
    reply: Option<Value>,
    calls: Vec<HardwareCall>,
}

impl RecordingAdapter {
    fn silent() -> RecordingAdapter {
        RecordingAdapter {
            reply: None,
            calls: Vec::new(),
        }
    }

    fn replying(value: Value) -> RecordingAdapter {
        RecordingAdapter {
            reply: Some(value),
            calls: Vec::new(),
        }
    }

    fn ask(&mut self, call: &HardwareCall) -> AdapterReply {
        self.calls.push(HardwareCall {
            route: call.route,
            receiver: call.receiver.duplicate(),
            source_receiver: call.source_receiver.clone(),
            method: call.method.clone(),
            site: call.site.duplicate(),
            arguments: call.arguments.iter().map(|v| v.duplicate()).collect(),
            time: call.time,
        });
        match &self.reply {
            Some(value) => AdapterReply::Value(value.duplicate()),
            None => AdapterReply::Unhandled,
        }
    }
}

/// Brings a dispatched call to its value.
fn finish(
    dispatched: Dispatched,
    ctx: &mut EvalCtx,
    adapter: &mut RecordingAdapter,
) -> Result<Value, EvalError> {
    match dispatched {
        Dispatched::Done(value) => Ok(value),
        Dispatched::Host(question) => Ok(question.finish(host(question))),
        Dispatched::Hardware(call) => {
            let reply = adapter.ask(&call);
            settle(call, reply, ctx)
        }
        Dispatched::Enter(call) => {
            let outcome = run_script(&call.script, ctx);
            leave(call, outcome, ctx)
        }
    }
}

/// What the scripts of the project with user functions do.
fn run_script(script: &str, ctx: &mut EvalCtx) -> Result<(), EvalError> {
    let input = |ctx: &EvalCtx, name: &str| ctx.env.get_local(name).unwrap().duplicate();
    let out = match script {
        "Helper.Compute.m1scr" => {
            let x = input(ctx, "In.x").m1_scalar()?.single();
            Value::m1_float(x.times(single(2.0)))
        }
        "Helper.Echo.m1scr" | "Helper.FixedEcho.m1scr" => input(ctx, "In.x"),
        "Helper.ReturnInt.m1scr" => {
            coerce_for_declared_type("Out", Value::m1_integer(7), ValueType::Float)?
        }
        "Helper.FixedToFloat.m1scr" => coerce_for_declared_type("Out", fixed(0), ValueType::Float)?,
        "Helper.InferredFixed.m1scr" => fixed(0),
        "Caller.Sub.Checkup.m1scr" => mf(7.0),
        "Recur.Loop.m1scr" => {
            let n = input(ctx, "In.n");
            let site = CallSite::new("Recur.Loop.m1scr", 0);
            let dispatched = dispatch("Recur", "Loop", &[n], site, ctx)?;
            finish(dispatched, ctx, &mut RecordingAdapter::silent())?
        }
        other => panic!("no such script: {other}"),
    };
    ctx.env.out = Some(out);
    Ok(())
}

/// The methods of project objects that have an offline value.
const PROJECT_OBJECT_STUB_METHODS: &[&str] = &[
    "Tx",
    "TxOpen",
    "TxInitialise",
    "Init",
    "SetBit",
    "SetUnsignedInteger",
    "SetInteger",
    "SetScaled",
    "SetFloat",
    "SetFromBaseUnit",
    "Set",
    "GetScaled",
    "GetFloat",
    "GetUnsignedInteger",
    "GetInteger",
    "GetBit",
    "Receive",
    "Update",
    "SetState",
    "Buzze",
];

fn as_int(h: &mut Harness, object: &str) -> Result<Option<Value>, EvalError> {
    h.with(EvalTime::at_start(double(0.01)), |ctx| as_integer(object, ctx))
}

/// The offline value of a library method.
fn default_of(object: &str, method: &str) -> Option<Value> {
    catalog().library_return_type(object, method).map(typed_io_default)
}

#[test]
fn calculate_max_dispatches() {
    let mut h = Harness::new();
    assert_eq!(
        h.call(
            "Calculate",
            "Max",
            &[Value::m1_integer(2), Value::m1_integer(3)]
        )
        .unwrap(),
        Value::m1_integer(3)
    );
}

#[test]
fn local_named_calculate_does_not_shadow_qualified_builtin_call() {
    let mut h = Harness::new();
    h.env.set_local("Calculate", Value::m1_integer(0));

    assert_eq!(
        h.call(
            "Calculate",
            "Max",
            &[Value::m1_integer(1), Value::m1_integer(2)]
        )
        .unwrap(),
        Value::m1_integer(2)
    );
}

#[test]
fn library_qualified_calls_dispatch_through_canonical_objects() {
    let mut h = Harness::new();

    assert_eq!(
        h.call(
            "Library.Calculate",
            "Max",
            &[Value::m1_integer(1), Value::m1_integer(2)]
        )
        .unwrap(),
        Value::m1_integer(2)
    );
    assert_eq!(
        h.call(
            "Library.Debounce",
            "Filter",
            &[Value::Bool(true), mf(0.1)]
        )
        .unwrap(),
        Value::Bool(true)
    );
    assert_eq!(
        h.call("Library.Math", "fabs", &[mf(-3.5)])
            .unwrap(),
        mf(3.5)
    );
    assert_eq!(
        h.call(
            "Library.CanComms",
            "GetFloat",
            &[Value::m1_unsigned(1), Value::m1_integer(2)]
        )
        .unwrap(),
        mf(0.0)
    );
}

#[test]
fn unknown_library_anchored_object_does_not_fall_through_to_project_stub() {
    assert_eq!(
        classify("Library.NoSuchObject", "Set"),
        BuiltinSupport::Unsupported
    );

    let mut h = Harness::new();
    assert!(matches!(
        h.call("Library.NoSuchObject", "Set", &[Value::m1_integer(1)]),
        Err(EvalError::UnsupportedBuiltin { .. })
    ));
}

#[test]
fn limit_range_dispatches() {
    let mut h = Harness::new();
    assert_eq!(
        h.call(
            "Limit",
            "Range",
            &[
                mf(9.0),
                mf(0.0),
                mf(5.0)
            ]
        )
        .unwrap(),
        mf(5.0)
    );
}

#[test]
fn convert_to_integer_dispatches() {
    let mut h = Harness::new();
    assert_eq!(
        h.call("Convert", "ToInteger", &[mf(2.9)])
            .unwrap(),
        Value::m1_integer(3)
    );
}

#[test]
fn convert_dispatch_stays_on_m1_scalar_values() {
    let mut h = Harness::new();
    assert_eq!(
        h.call("Convert", "ToUnsignedInteger", &[mf(-2.6)])
            .unwrap(),
        Value::m1_unsigned(0)
    );
    assert_eq!(
        h.call("Convert", "ToFixed7DP", &[Value::m1_integer(1)])
            .unwrap(),
        Value::M1(M1Scalar::FixedPoint7dps(
            FixedPoint7dps::from_raw(10_000_000)
        ))
    );
}

#[test]
fn wrong_arity_is_bad_call() {
    let mut h = Harness::new();
    // Calculate.Max takes two arguments; one is a BadCall, not a guess.
    match h.call("Calculate", "Max", &[Value::m1_integer(1)]) {
        Err(EvalError::BadCall { .. }) => {}
        other => panic!("expected BadCall, got {other:?}"),
    }
    // Limit.Range takes three.
    match h.call(
        "Limit",
        "Range",
        &[Value::m1_integer(1), Value::m1_integer(2)],
    ) {
        Err(EvalError::BadCall { .. }) => {}
        other => panic!("expected BadCall, got {other:?}"),
    }
}

#[test]
fn unknown_method_on_pure_object_is_unsupported() {
    let mut h = Harness::new();
    match h.call("Calculate", "NotAMethod", &[Value::m1_integer(1)]) {
        Err(EvalError::UnsupportedBuiltin { object, method }) => {
            assert_eq!(object, "Calculate");
            assert_eq!(method, "NotAMethod");
        }
        other => panic!("expected UnsupportedBuiltin, got {other:?}"),
    }
}

#[test]
fn stateful_calculate_method_dispatches_to_state_engine() {
    let mut h = Harness::new();
    // Calculate.Stable (arity 2) is a stateful predicate: it is routed to the
    // state engine. Its first tick has not yet been stable, so it is false —
    // a real evaluated value, not a fail-loud error.
    match h.call(
        "Calculate",
        "Stable",
        &[mf(1.0), mf(0.1)],
    ) {
        Ok(Value::Bool(false)) => {}
        other => panic!("expected Ok(Bool(false)) on first tick, got {other:?}"),
    }
}

#[test]
fn filter_first_order_dispatches_to_state_engine() {
    let mut h = Harness::new();
    // A stateful library object routes through dispatch with arity validation;
    // the first tick of FirstOrder seeds to the input (1.0).
    match h.call(
        "Filter",
        "FirstOrder",
        &[mf(1.0), mf(0.1)],
    ) {
        Ok(Value::M1(M1Scalar::FloatingPoint(x))) => assert_eq!(x, single(1.0)),
        other => panic!("expected seeded Float(1.0), got {other:?}"),
    }
}

#[test]
fn debounce_filter_is_classified_and_dispatched_as_assumed() {
    let mut h = Harness::new();
    assert_eq!(
        classify("Debounce", "Filter"),
        BuiltinSupport::Modeled
    );
    assert_eq!(
        h.call(
            "Debounce",
            "Filter",
            &[Value::Bool(true), mf(0.1)]
        )
        .unwrap(),
        Value::Bool(true)
    );
}

#[test]
fn stateful_wrong_arity_is_bad_call() {
    let mut h = Harness::new();
    // Integral.Normal needs five arguments; fewer is a BadCall, not a guess.
    match h.call("Integral", "Normal", &[mf(1.0)]) {
        Err(EvalError::BadCall { .. }) => {}
        other => panic!("expected BadCall, got {other:?}"),
    }
}

#[test]
fn unimplemented_stateful_method_fails_loud() {
    let mut h = Harness::new();
    // Delay.Signal15 is a buffered sample delay we do not implement; the
    // object is recognised but the method falls through to fail loud.
    match h.call(
        "Delay",
        "Signal15",
        &[mf(1.0), Value::m1_integer(3)],
    ) {
        Err(EvalError::UnsupportedBuiltin { object, method }) => {
            assert_eq!(object, "Delay");
            assert_eq!(method, "Signal15");
        }
        other => panic!("expected UnsupportedBuiltin, got {other:?}"),
    }
}

#[test]
fn unknown_object_is_unsupported() {
    let mut h = Harness::new();
    match h.call("NoSuchObject", "Whatever", &[]) {
        Err(EvalError::UnsupportedBuiltin { .. }) => {}
        other => panic!("expected UnsupportedBuiltin, got {other:?}"),
    }
}

#[test]
fn math_atan2_routes_to_atan2() {
    let mut h = Harness::new();
    // atan2(1, 1) = pi/4. The calibration-only `Math` object is surfaced in
    // real ECU scripts; we route its `atan2` to the same evaluation as
    // Calculate.InverseTan2. Coverage marks the calibration-only route as an
    // assumption, not a hardware stub.
    match h.call(
        "Math",
        "atan2",
        &[mf(1.0), mf(1.0)],
    ) {
        Ok(Value::M1(M1Scalar::FloatingPoint(x))) => {
            assert_eq!(x, single(std::f32::consts::FRAC_PI_4))
        }
        other => panic!("expected Float(pi/4), got {other:?}"),
    }
}

#[test]
fn math_atan2_wrong_arity_is_bad_call() {
    let mut h = Harness::new();
    // Math.atan2 takes two arguments (validated against intrinsics).
    match h.call("Math", "atan2", &[mf(1.0)]) {
        Err(EvalError::BadCall { .. }) => {}
        other => panic!("expected BadCall, got {other:?}"),
    }
}

#[test]
fn math_atan2_is_classified_assumed() {
    assert_eq!(classify("Math", "atan2"), BuiltinSupport::Modeled);
}

#[test]
fn math_fabs_is_classified_assumed() {
    // Same provenance rationale as atan2: routed, but calibration-only.
    assert_eq!(classify("Math", "fabs"), BuiltinSupport::Modeled);
}

#[test]
fn table_get_is_classified_supported() {
    let h = Harness::new();
    assert_eq!(
        h.support("Map",
            "Get"
        ),
        BuiltinSupport::Direct
    );
}

#[test]
fn math_unknown_method_is_unsupported() {
    let mut h = Harness::new();
    // Only `atan2` is routed from the calibration-only Math object; anything
    // else fails loud rather than being silently evaluated.
    match h.call("Math", "Sqrt", &[mf(4.0)]) {
        Err(EvalError::UnsupportedBuiltin { object, method }) => {
            assert_eq!(object, "Math");
            assert_eq!(method, "Sqrt");
        }
        other => panic!("expected UnsupportedBuiltin, got {other:?}"),
    }
}

#[test]
fn table_lookup_interpolates_over_calibration() {
    let mut h = Harness::new();
    // The mini fixture's Demo.Map is 2-D: x in {0,100}, y in {0,1}, body
    // (10,20,30,40). Corner and midpoint values come straight from table.rs.
    assert_eq!(
        h.call(
            "Map",
            "Lookup",
            &[mf(0.0), mf(0.0)]
        )
        .unwrap(),
        mf(10.0)
    );
    assert_eq!(
        h.call(
            "Map",
            "Lookup",
            &[mf(100.0), mf(1.0)]
        )
        .unwrap(),
        mf(40.0)
    );
    // Halfway in x at y=0: between 10 and 30 -> 20.
    assert_eq!(
        h.call(
            "Map",
            "Lookup",
            &[mf(50.0), mf(0.0)]
        )
        .unwrap(),
        mf(20.0)
    );
    // Out-of-range inputs clamp.
    assert_eq!(
        h.call(
            "Map",
            "Lookup",
            &[mf(999.0), mf(9.0)]
        )
        .unwrap(),
        mf(40.0)
    );
}

#[test]
fn table_lookup_wrong_arity_is_bad_call() {
    let mut h = Harness::new();
    // Demo.Map has two axes; one coordinate is a BadCall.
    match h.call("Map", "Lookup", &[mf(0.0)]) {
        Err(EvalError::BadCall { .. }) => {}
        other => panic!("expected BadCall, got {other:?}"),
    }
}

#[test]
fn table_lookup_without_calibration_is_missing() {
    let mut h = Harness::empty_calib();
    // The table symbol resolves, but no calibration cells were loaded.
    match h.call(
        "Map",
        "Lookup",
        &[mf(0.0), mf(0.0)],
    ) {
        Err(EvalError::MissingCalibration { .. }) => {}
        other => panic!("expected MissingCalibration, got {other:?}"),
    }
}

#[test]
fn set_on_a_table_is_unsupported() {
    let mut h = Harness::new();
    match h.call("Map", "Set", &[Value::m1_integer(1)]) {
        Err(EvalError::UnsupportedBuiltin { object, method }) => {
            assert_eq!(object, "Map");
            assert_eq!(method, "Set");
        }
        other => panic!("expected receiver-aware UnsupportedBuiltin, got {other:?}"),
    }
}

#[test]
fn math_fabs_routes_to_abs() {
    let mut h = Harness::new();
    // `Math.fabs` appears in real ECU scripts;
    // route it to a plain absolute value like Calculate.Absolute.
    assert_eq!(
        h.call("Math", "fabs", &[mf(-3.5)]).unwrap(),
        mf(3.5)
    );
}

#[test]
fn table_get_reads_flat_site() {
    let mut h = Harness::new();
    // `.Get(i)` is a raw read of body cell i (row-major, no interpolation).
    // Demo.Map's body is (10,20,30,40).
    assert_eq!(
        h.call("Map", "Get", &[Value::m1_integer(0)]).unwrap(),
        mf(10.0)
    );
    assert_eq!(
        h.call("Map", "Get", &[Value::m1_integer(2)]).unwrap(),
        mf(30.0)
    );
    assert_eq!(
        h.call("Map", "Get", &[Value::m1_unsigned(3)]).unwrap(),
        mf(40.0)
    );
}

#[test]
fn table_get_out_of_range_is_bad_call() {
    let mut h = Harness::new();
    // A site past the body, or a negative site, fails loud — never clamps:
    // a raw site read has no clamping semantics to borrow.
    match h.call("Map", "Get", &[Value::m1_integer(4)]) {
        Err(EvalError::BadCall { .. }) => {}
        other => panic!("expected BadCall, got {other:?}"),
    }
    match h.call("Map", "Get", &[Value::m1_integer(-1)]) {
        Err(EvalError::BadCall { .. }) => {}
        other => panic!("expected BadCall, got {other:?}"),
    }
}

#[test]
fn table_get_wrong_arity_is_bad_call() {
    let mut h = Harness::new();
    match h.call("Map", "Get", &[]) {
        Err(EvalError::BadCall { .. }) => {}
        other => panic!("expected BadCall, got {other:?}"),
    }
}

#[test]
fn table_get_without_calibration_is_missing() {
    let mut h = Harness::empty_calib();
    match h.call("Map", "Get", &[Value::m1_integer(0)]) {
        Err(EvalError::MissingCalibration { .. }) => {}
        other => panic!("expected MissingCalibration, got {other:?}"),
    }
}

#[test]
fn lookup_on_non_table_is_not_a_table_lookup() {
    let mut h = Harness::new();
    // `Calculate.Lookup` is not a table lookup; Calculate has no Lookup
    // overload either, so it is UnsupportedBuiltin (fail loud), not a panic.
    match h.call("Calculate", "Lookup", &[mf(0.0)]) {
        Err(EvalError::UnsupportedBuiltin { .. }) => {}
        other => panic!("expected UnsupportedBuiltin, got {other:?}"),
    }
}

#[test]
fn dispatch_as_integer_on_enum_literal() {
    let mut h = Harness::objects();
    // `Drive State.Idle.AsInteger()` → 0 (ContainerOrder), via the literal form.
    assert_eq!(
        h.call("Drive State.Idle", "AsInteger", &[]).unwrap(),
        Value::m1_integer(0)
    );
    // Precharging is ContainerOrder 2.
    assert_eq!(
        h.call("Drive State.Precharging", "AsInteger", &[]).unwrap(),
        Value::m1_integer(2)
    );
}

#[test]
fn dispatch_as_integer_on_enum_channel() {
    let mut h = Harness::objects();
    let id = h.project.enum_by_name("Drive State").unwrap();
    h.env.set(
        "Root.Demo.Mode",
        Value::Enum {
            id,
            member: "Precharging".to_string(),
        },
    );
    // The value form reads the channel's current enum value and converts it.
    assert_eq!(
        h.call("Root.Demo.Mode", "AsInteger", &[]).unwrap(),
        Value::m1_integer(2)
    );
}

#[test]
fn dispatch_as_string_preserves_enum_member_names() {
    let mut h = Harness::objects();
    assert_eq!(
        h.call("Drive State.Precharging", "AsString", &[]).unwrap(),
        Value::Str("Precharging".to_string())
    );

    let id = h.project.enum_by_name("Drive State").unwrap();
    h.env.set(
        "Root.Demo.Mode",
        Value::Enum {
            id,
            member: "Idle".to_string(),
        },
    );
    assert_eq!(
        h.call("Mode", "AsString", &[]).unwrap(),
        Value::Str("Idle".to_string())
    );

    h.env.set(
        "Root.Demo.Compound.Value",
        Value::Enum {
            id,
            member: "Precharging".to_string(),
        },
    );
    assert_eq!(
        h.call("Compound", "AsString", &[]).unwrap(),
        Value::Str("Precharging".to_string())
    );
}

#[test]
fn dispatch_as_string_rejects_an_invalid_seeded_member() {
    let mut h = Harness::objects();
    let id = h.project.enum_by_name("Drive State").unwrap();
    h.env.set(
        "Root.Demo.Mode",
        Value::Enum {
            id,
            member: "Bogus".to_string(),
        },
    );

    let error = h.call("Mode", "AsString", &[]).unwrap_err();
    assert!(matches!(error, EvalError::TypeError { .. }));
    assert!(error.to_text().contains("Bogus"), "{error:?}");
    assert!(error.to_text().contains("Drive State"), "{error:?}");
}

#[test]
fn dispatch_as_integer_on_non_enum_fails_loud() {
    let mut h = Harness::objects();
    // A name that is neither an enum literal nor an enum-typed project symbol:
    // `.AsInteger` cannot convert it, so dispatch falls through to the Timer
    // attempt and ultimately fails loud rather than guessing.
    match h.call("No Such Thing", "AsInteger", &[]) {
        Err(EvalError::UnsupportedBuiltin { method, .. }) => {
            assert_eq!(method, "AsInteger");
        }
        other => panic!("expected UnsupportedBuiltin, got {other:?}"),
    }
}

#[test]
fn enum_conversions_are_classified_by_receiver() {
    let h = Harness::objects();
    assert_eq!(
        h.support("Drive State.Idle",
            "AsInteger"
        ),
        BuiltinSupport::Direct
    );
    assert_eq!(
        h.support("Drive State.Idle",
            "AsString"
        ),
        BuiltinSupport::Direct
    );
    assert_eq!(
        h.support("Mode",
            "AsString"
        ),
        BuiltinSupport::Direct
    );
    assert_eq!(
        h.support("Mode",
            "AsInteger"
        ),
        BuiltinSupport::Direct
    );
    assert_eq!(
        h.support("Precharge State",
            "AsInteger"
        ),
        BuiltinSupport::Unsupported,
        "a non-enum channel is not an AsInteger receiver"
    );
    assert_eq!(
        h.support("Precharge State",
            "AsString"
        ),
        BuiltinSupport::Unsupported,
        "a non-enum channel is not an AsString receiver"
    );
}

#[test]
fn timer_methods_require_a_timer_receiver_and_are_assumed() {
    let h = Harness::objects();
    for method in ["Start", "Stop", "Reset", "Remaining"] {
        assert_eq!(
            h.support("Startup Delay",
                method
            ),
            BuiltinSupport::Modeled,
            "Timer.{method} should use the documented timer assumption"
        );
        assert_eq!(
            h.support("Precharge State",
                method
            ),
            BuiltinSupport::Unsupported,
            "a channel cannot use Timer.{method}"
        );
    }
}

#[test]
fn channel_set_writes_the_channel_and_records_it() {
    let mut h = Harness::objects();
    // `Precharge State.Set(1)` writes the channel under its canonical path and
    // records the write to the trace, returning the unit value.
    let result = h
        .call("Precharge State", "Set", &[Value::m1_integer(1)])
        .expect("Channel.Set succeeds");
    assert_eq!(result, Value::Bool(true), "Set returns the unit value");
    // The canonical path now holds the written value.
    assert_eq!(
        h.env.get("Root.Demo.Precharge State"),
        Some(&Value::m1_unsigned(1))
    );
    // And the write was recorded to the trace.
    assert_eq!(
        h.trace.column("Root.Demo.Precharge State"),
        vec![Value::m1_unsigned(1)]
    );
}

#[test]
fn channel_set_via_absolute_path_writes_the_channel() {
    let mut h = Harness::objects();
    h.call("Root.Demo.Precharge State", "Set", &[Value::m1_unsigned(3)])
        .expect("Channel.Set on absolute path succeeds");
    assert_eq!(
        h.env.get("Root.Demo.Precharge State"),
        Some(&Value::m1_unsigned(3))
    );
}

#[test]
fn channel_set_rejects_float_to_integral_narrowing() {
    let mut h = Harness::objects();
    let error = h
        .call("Root.Demo.Precharge State", "Set", &[mf(3.5)])
        .unwrap_err();
    assert!(matches!(error, EvalError::TypeError { .. }));
}

#[test]
fn channel_set_wrong_arity_is_bad_call() {
    let mut h = Harness::objects();
    // `.Set` is a single-argument setter; zero or many args is a BadCall.
    match h.call("Precharge State", "Set", &[]) {
        Err(EvalError::BadCall { .. }) => {}
        other => panic!("expected BadCall on zero-arg Set, got {other:?}"),
    }
    match h.call(
        "Precharge State",
        "Set",
        &[Value::m1_integer(1), Value::m1_integer(2)],
    ) {
        Err(EvalError::BadCall { .. }) => {}
        other => panic!("expected BadCall on two-arg Set, got {other:?}"),
    }
}

#[test]
fn validate_uses_inclusive_project_ranges_and_positive_rules() {
    let mut h = Harness::objects();
    for (value, expected) in [(-3, false), (-2, true), (3, true), (4, false)] {
        assert_eq!(
            h.call("Limited Signed", "Validate", &[Value::m1_integer(value)])
                .unwrap(),
            Value::Bool(expected),
            "value {value}"
        );
    }
    assert_eq!(
        h.call("Positive Float", "Validate", &[mf(-0.5)])
            .unwrap(),
        Value::Bool(false)
    );
    assert_eq!(
        h.call("Positive Float", "Validate", &[mf(0.0)])
            .unwrap(),
        Value::Bool(true)
    );
    assert_eq!(
        h.call("Free Unsigned", "Validate", &[Value::m1_unsigned(u32::MAX)])
            .unwrap(),
        Value::Bool(true),
        "an object without validation accepts its numeric domain"
    );
}

#[test]
fn constrain_clamps_and_preserves_each_m1_scalar_family() {
    let mut h = Harness::objects();
    assert_eq!(
        h.call("Limited Signed", "Constrain", &[Value::m1_integer(-10)])
            .unwrap(),
        Value::m1_integer(-2)
    );
    assert_eq!(
        h.call("Limited Float", "Constrain", &[mf(8.0)])
            .unwrap(),
        mf(2.25)
    );
    assert_eq!(
        h.call(
            "Limited Fixed",
            "Constrain",
            &[Value::M1(M1Scalar::FixedPoint7dps(
                FixedPoint7dps::from_raw(-20_000_000)
            ))]
        )
        .unwrap(),
        Value::M1(M1Scalar::FixedPoint7dps(
            FixedPoint7dps::from_raw(-12_345_678)
        ))
    );
    assert_eq!(
        h.call(
            "Limited Unsigned",
            "Constrain",
            &[Value::m1_unsigned(u32::MAX)]
        )
        .unwrap(),
        Value::m1_unsigned(10)
    );
}

#[test]
fn set_coerces_then_clamps_to_the_target_rule() {
    let mut h = Harness::objects();
    h.call("Limited Signed", "Set", &[Value::m1_unsigned(20)])
        .unwrap();
    assert_eq!(
        h.env.get("Root.Demo.Limited Signed"),
        Some(&Value::m1_integer(3))
    );

    h.call("Limited Float", "Set", &[Value::m1_integer(-10)])
        .unwrap();
    assert_eq!(
        h.env.get("Root.Demo.Limited Float"),
        Some(&mf(-1.5))
    );

    assert_eq!(
        h.call("Positive Float", "Set", &[mf(-2.0)]),
        Err(EvalError::UnsupportedBuiltin {
            object: "Positive Float".to_string(),
            method: "Set".to_string(),
        }),
        "parameters are calibration-owned and not firmware-writable"
    );
}

#[test]
fn set_does_not_bypass_a_compounds_parameter_default() {
    let mut h = Harness::objects();
    h.env.set(
        "Root.Demo.Calibration Compound.Calibration",
        mf(1.0),
    );
    h.env
        .set("Root.Demo.Calibration Compound.Value", mf(2.0));

    assert_eq!(
        h.call("Calibration Compound", "Set", &[mf(3.0)]),
        Err(EvalError::UnsupportedBuiltin {
            object: "Calibration Compound".to_string(),
            method: "Set".to_string(),
        })
    );
    assert_eq!(
        h.env.get("Root.Demo.Calibration Compound.Calibration"),
        Some(&mf(1.0))
    );
    assert_eq!(
        h.env.get("Root.Demo.Calibration Compound.Value"),
        Some(&mf(2.0))
    );
}

#[test]
fn get_unscheduled_reads_the_exact_stored_scalar() {
    let mut h = Harness::objects();
    h.env.set("Root.Demo.Limited Signed", Value::m1_integer(-1));
    assert_eq!(
        h.call("Limited Signed", "GetUnscheduled", &[]).unwrap(),
        Value::m1_integer(-1)
    );
}

#[test]
fn numeric_value_compounds_follow_their_declared_default() {
    let mut h = Harness::objects();
    assert_eq!(
        h.call("Limited Compound", "Validate", &[Value::m1_unsigned(5)])
            .unwrap(),
        Value::Bool(false)
    );
    assert_eq!(
        h.call("Limited Compound", "Constrain", &[Value::m1_unsigned(5)])
            .unwrap(),
        Value::m1_unsigned(4)
    );
    assert_eq!(
        h.call("Limited Compound", "GetUnscheduled", &[]),
        Err(EvalError::UnsupportedBuiltin {
            object: "Limited Compound".to_string(),
            method: "GetUnscheduled".to_string(),
        }),
        "GetUnscheduled belongs to channels and generated table values"
    );
    h.call("Limited Compound", "Set", &[Value::m1_unsigned(9)])
        .unwrap();
    assert_eq!(
        h.env.get("Root.Demo.Limited Compound.Value"),
        Some(&Value::m1_unsigned(4)),
        "Set writes the concrete value child after applying the compound's range"
    );
}

#[test]
fn get_unscheduled_reads_a_tables_generated_value_channel() {
    let mut h = Harness::new();
    h.env.set("Root.Demo.Map.Value", mf(12.5));
    assert_eq!(
        h.call("Map", "GetUnscheduled", &[]).unwrap(),
        mf(12.5)
    );
}

#[test]
fn unsupported_object_method_pairs_name_the_exact_call() {
    let mut h = Harness::objects();
    for (object, method, args) in [
        ("Mode", "Validate", vec![Value::m1_integer(1)]),
        ("Limited Signed", "AsString", vec![]),
        ("Limited Compound", "GetUnscheduled", vec![]),
        ("Positive Float", "GetUnscheduled", vec![]),
        ("Numeric Constant", "GetUnscheduled", vec![]),
        ("Typed IO", "GetUnscheduled", vec![]),
        ("Startup Delay", "GetUnscheduled", vec![]),
        ("Drive State.Idle", "Set", vec![Value::m1_integer(1)]),
    ] {
        assert_eq!(
            h.call(object, method, &args),
            Err(EvalError::UnsupportedBuiltin {
                object: object.to_string(),
                method: method.to_string(),
            })
        );
    }
}

#[test]
fn typed_numeric_project_io_keeps_its_hardware_stub_route() {
    let mut h = Harness::objects();
    assert_eq!(
        h.support("Typed IO",
            "GetScaled",
        ),
        BuiltinSupport::Stubbed
    );
    assert_eq!(
        h.call("Typed IO", "GetScaled", &[]).unwrap(),
        mf(0.0)
    );
    assert_eq!(
        h.support("Limited Float",
            "GetScaled",
        ),
        BuiltinSupport::Unsupported,
        "ordinary numeric channels must not inherit hardware stubs"
    );
}

#[test]
fn core_object_methods_have_capability_parity() {
    let h = Harness::objects();
    for (object, method) in [
        ("Mode", "AsString"),
        ("Limited Signed", "Validate"),
        ("Limited Signed", "Constrain"),
        ("Limited Signed", "GetUnscheduled"),
        ("Limited Compound", "Validate"),
        ("Limited Compound", "Constrain"),
        ("Limited Compound", "Set"),
        ("Limited Signed", "Set"),
    ] {
        assert_eq!(
            h.support(object,
                method,
            ),
            BuiltinSupport::Direct,
            "{object}.{method}"
        );
    }
    for (object, method) in [
        ("Mode", "Constrain"),
        ("Limited Signed", "AsString"),
        ("Limited Compound", "GetUnscheduled"),
        ("Positive Float", "GetUnscheduled"),
        ("Positive Float", "Set"),
        ("Calibration Compound", "Set"),
        ("Numeric Constant", "GetUnscheduled"),
        ("Typed IO", "GetUnscheduled"),
        ("Startup Delay", "GetUnscheduled"),
    ] {
        assert_eq!(
            h.support(object,
                method,
            ),
            BuiltinSupport::Unsupported,
            "{object}.{method}"
        );
    }
}

#[test]
fn timer_dispatch_requires_a_timer_receiver() {
    let mut h = Harness::objects();
    assert_eq!(
        h.call("Startup Delay", "Start", &[mf(0.03)])
            .unwrap(),
        Value::Bool(true)
    );
    let remaining = h
        .call("Startup Delay", "Remaining", &[])
        .unwrap()
        .m1_scalar()
        .unwrap()
        .wide();
    let remaining = f64::from_bits(remaining.to_bits());
    assert!((remaining - 0.02).abs() < 1e-7);
    match h.call("Precharge State", "Start", &[mf(0.03)]) {
        Err(EvalError::UnsupportedBuiltin { .. }) => {}
        other => panic!("expected channel.Start to be unsupported, got {other:?}"),
    }
}

#[test]
fn set_is_classified_supported() {
    let h = Harness::objects();
    assert_eq!(
        h.support("Precharge State",
            "Set"
        ),
        BuiltinSupport::Direct
    );
    assert_eq!(
        h.support("Fan Output",
            "Set"
        ),
        BuiltinSupport::Stubbed
    );
}

#[test]
fn dbc_message_tx_open_returns_opaque_handle_and_is_external() {
    let mut h = Harness::objects();
    // A CAN message object's `.TxOpen()` cannot be evaluated offline; it
    // returns a documented opaque handle and is flagged externally driven.
    assert_eq!(
        h.call("DashVals", "TxOpen", &[]).unwrap(),
        Value::m1_unsigned(0)
    );
    assert!(h.trace.is_external("DashVals.TxOpen"));
}

#[test]
fn dbc_void_writers_return_unit_value() {
    let mut h = Harness::objects();
    // The void CAN writers all return the unit value (a no-op offline).
    for method in ["Tx", "TxInitialise", "Init", "SetBit", "SetUnsignedInteger"] {
        assert_eq!(
            h.call("DashVals", method, &[]).unwrap(),
            Value::Bool(true),
            "{method} should return the unit value"
        );
    }
}

#[test]
fn dbc_signal_receive_is_false_offline() {
    let mut h = Harness::objects();
    // No CAN message arrives offline, so `.Receive()` is false.
    assert_eq!(
        h.call("DashVals.Aux Switch", "Receive", &[]).unwrap(),
        Value::Bool(false)
    );
    assert!(h.trace.is_external("DashVals.Aux Switch.Receive"));
}

#[test]
fn dbc_signal_get_scaled_is_zero_offline() {
    let mut h = Harness::objects();
    // A CAN signal read has no offline value; the documented stub is 0.0 so a
    // whole-project run does not abort on every CAN read.
    assert_eq!(
        h.call("DashVals.Aux Switch", "GetScaled", &[]).unwrap(),
        mf(0.0)
    );
    assert!(h.trace.is_external("DashVals.Aux Switch.GetScaled"));
}

#[test]
fn io_stub_scenario_override_wins() {
    let mut h = Harness::objects();
    // A scenario can externally drive a CAN read (e.g. from a log replay).
    h.env
        .set_io_override("DashVals.Aux Switch.GetScaled", mf(42.0));
    assert_eq!(
        h.call("DashVals.Aux Switch", "GetScaled", &[]).unwrap(),
        mf(42.0)
    );
    assert!(h.trace.is_external("DashVals.Aux Switch.GetScaled"));
}

#[test]
fn group_compound_update_is_a_void_stub() {
    let mut h = Harness::objects();
    // `Service Bits.Update()` (a GroupCompound CAN service-bits push) is an
    // externally-driven void writer.
    assert_eq!(
        h.call("Service Bits", "Update", &[]).unwrap(),
        Value::Bool(true)
    );
    assert!(h.trace.is_external("Service Bits.Update"));
}

#[test]
fn output_set_state_is_a_void_stub() {
    let mut h = Harness::objects();
    // `Fan Output.SetState(...)` (a package Output object) is a void writer.
    assert_eq!(
        h.call("Fan Output", "SetState", &[Value::Bool(true)])
            .unwrap(),
        Value::Bool(true)
    );
    assert!(h.trace.is_external("Fan Output.SetState"));
}

#[test]
fn output_drive_reference_set_is_a_void_stub() {
    let mut h = Harness::objects();
    // `.Set` on a package/reference output member (a `BuiltIn.Reference` with `TargetCreation="AutoChannel"`) is
    // a hardware output-drive command: a void writer offline. A real channel
    // `.Set` never reaches this route — `try_channel_set` claims it first.
    assert_eq!(
        h.call(
            "Fan Output",
            "Set",
            &[Value::Enum {
                id: 1,
                member: "High Side".to_string(),
            }],
        )
        .unwrap(),
        Value::Bool(true)
    );
    assert!(h.trace.is_external("Fan Output.Set"));
}

#[test]
fn buzzer_buzze_is_a_void_stub() {
    let mut h = Harness::objects();
    // The buzzer's `.Buzze` is an externally-driven void writer (the buzzer is
    // hardware we cannot actuate offline).
    assert_eq!(
        h.call("Fan Output", "Buzze", &[]).unwrap(),
        Value::Bool(true)
    );
}

#[test]
fn unknown_object_method_still_fails_loud() {
    let mut h = Harness::objects();
    // A project object with a method that is neither a setter, an enum
    // accessor, a Timer method, nor a known IO stub fails loud — never a guess.
    match h.call("Fan Output", "NotAKnownMethod", &[]) {
        Err(EvalError::UnsupportedBuiltin { object, method }) => {
            assert_eq!(object, "Fan Output");
            assert_eq!(method, "NotAKnownMethod");
        }
        other => panic!("expected UnsupportedBuiltin, got {other:?}"),
    }
}

#[test]
fn phase15_calculate_overloads_are_classified_supported() {
    // Every pure Calculate overload must report Supported so the coverage report
    // agrees with the dispatch table.
    for method in [
        "Absolute",
        "Average",
        "NAN",
        "Infinity",
        "IsFinite",
        "MaximumFloat",
        "InverseSin",
        "InverseCos",
        "InverseTan",
    ] {
        assert_eq!(
            classify("Calculate", method),
            BuiltinSupport::Direct,
            "Calculate.{method} should be Supported"
        );
    }
}

#[test]
fn project_io_stub_catalog_matches_classification_and_dispatch() {
    let mut harness = Harness::objects();
    // Exercise every entry in the shared project-object catalog through both
    // coverage's classifier and runtime's dispatcher. This catches drift in
    // either direction when a new IO method is added.
    for &method in PROJECT_OBJECT_STUB_METHODS {
        assert!(is_project_stub_method(method), "{method}");
        assert_eq!(
            classify("DashVals", method),
            BuiltinSupport::Stubbed,
            "{method} should be a stub"
        );
        harness
            .call("DashVals", method, &[])
            .unwrap_or_else(|error| panic!("stubbed DashVals.{method} failed: {error:?}"));
    }
}

#[test]
fn io_library_methods_are_classified_stubbed() {
    // Every method on a Tier-3 IO *library* object (CanComms/Serial/System/
    // Logging) the generic typed-default stub now handles must classify as
    // Stubbed, so coverage stays consistent with what the IO stub returns at
    // runtime — including the `CanComms.*` reads/setup the old design left
    // unstubbed.
    let cases = [
        ("CanComms", "RxOpenStandard"),     // Handle -> unit stub
        ("CanComms", "GetFloat"),           // FloatingPoint -> 0.0
        ("CanComms", "GetUnsignedInteger"), // Integer -> 0
        ("CanComms", "RxMessage"),          // Boolean -> false
        ("CanComms", "SetFloat"),           // Void -> unit
        ("Serial", "GetFloat"),
        ("System", "ElapsedTime"),
        ("System", "TickPeriod"),
        ("Logging", "Running"),
    ];
    for (object, method) in cases {
        assert_eq!(
            classify(object, method),
            BuiltinSupport::Stubbed,
            "{object}.{method} should be a stub"
        );
    }
}

#[test]
fn system_tick_period_uses_the_base_grid_not_the_function_step() {
    let mut h = Harness::new();
    let time = EvalTime::periodic(4, double(0.04), double(0.01), double(0.02));
    assert_eq!(
        h.io_at(
            "System",
            "TickPeriod",
            &[],
            CallSite::new("Demo.Update.m1scr", 10),
            time,
            None,
        )
        .unwrap(),
        mf(0.01)
    );
    assert!(!h.trace.is_external("System.TickPeriod"));
    assert!(h.trace.hardware.iter().any(|record| {
        record.source == HardwareValueSource::SystemModel
            && record.canonical_call() == "System.TickPeriod"
    }));
}

#[test]
fn system_xcp_connected_is_false_offline() {
    let mut h = Harness::new();
    assert_eq!(
        h.io("System", "XcpConnected", &[]).unwrap(),
        Value::Bool(false)
    );
}

#[test]
fn system_void_side_effects_are_noops() {
    let mut h = Harness::new();
    assert_eq!(
        h.io("System", "Debug", &[Value::Str("hello".into())])
            .unwrap(),
        Value::Bool(true)
    );
    assert_eq!(
        h.io("System", "AllowTuning", &[Value::Bool(true)]).unwrap(),
        Value::Bool(true)
    );
}

#[test]
fn logging_running_is_false_offline() {
    let mut h = Harness::new();
    assert_eq!(h.io("Logging", "Running", &[]).unwrap(), Value::Bool(false));
    assert_eq!(
        h.io("Logging", "Unloading", &[]).unwrap(),
        Value::Bool(false)
    );
}

#[test]
fn scenario_override_wins_over_stub_and_failure() {
    let mut h = Harness::new();
    // Seed a scenario value for a CAN read that would otherwise fail loud.
    h.env
        .set_io_override("CanComms.GetFloat", mf(12.5));
    assert_eq!(
        h.io(
            "CanComms",
            "GetFloat",
            &[Value::m1_unsigned(0), Value::m1_integer(0)]
        )
        .unwrap(),
        mf(12.5)
    );
    assert!(h.trace.is_external("CanComms.GetFloat"));
}

#[test]
fn wildcard_scenario_keys_do_not_collide_across_receivers() {
    let mut h = Harness::new();
    h.env
        .set_io_override("CanComms.GetFloat", mf(12.5));
    h.env
        .set_io_override("Serial.GetFloat", mf(99.0));
    let args = [Value::m1_unsigned(0), Value::m1_integer(0)];

    assert_eq!(
        h.io("CanComms", "GetFloat", &args).unwrap(),
        mf(12.5)
    );
    assert_eq!(
        h.io("Serial", "GetFloat", &args).unwrap(),
        mf(99.0)
    );
}

#[test]
fn library_anchor_keeps_source_spelling_for_io_override_and_trace() {
    let mut h = Harness::new();
    h.env
        .set_io_override("Library.CanComms.GetFloat", mf(12.5));

    assert_eq!(
        h.io(
            "Library.CanComms",
            "GetFloat",
            &[Value::m1_unsigned(0), Value::m1_integer(0)]
        )
        .unwrap(),
        mf(12.5)
    );
    assert!(h.trace.is_external("Library.CanComms.GetFloat"));
    assert!(!h.trace.is_external("CanComms.GetFloat"));
}

#[test]
fn scenario_overrides_restore_declared_io_return_families() {
    let mut h = Harness::new();
    h.env
        .set_io_override("CanComms.GetFloat", Value::m1_integer(5));
    assert_eq!(
        h.io(
            "CanComms",
            "GetFloat",
            &[Value::m1_unsigned(0), Value::m1_integer(0)]
        )
        .unwrap(),
        mf(5.0)
    );

    h.env
        .set_io_override("System.FlashSize", Value::m1_integer(-1));
    assert_eq!(
        h.io("System", "FlashSize", &[]).unwrap(),
        Value::m1_unsigned(u32::MAX)
    );

    h.env.set_io_override(
        "DashVals.Aux Switch.GetUnsignedInteger",
        Value::m1_integer(-2),
    );
    assert_eq!(
        h.io("DashVals.Aux Switch", "GetUnsignedInteger", &[])
            .unwrap(),
        Value::m1_unsigned(u32::MAX - 1)
    );
}

#[test]
fn can_read_returns_typed_external_stub() {
    let mut h = Harness::new();
    // No scenario value, no specific stub: a real CAN read now returns the
    // type-correct externally-driven default (never a guessed reading).
    // `CanComms.GetFloat` declares a `FloatingPoint` return, so the stub is 0.0.
    assert_eq!(
        h.io(
            "CanComms",
            "GetFloat",
            &[Value::m1_unsigned(0), Value::m1_integer(0)]
        )
        .unwrap(),
        mf(0.0)
    );
    // The stub is flagged externally driven.
    assert!(h.trace.is_external("CanComms.GetFloat"));
}

#[test]
fn fixed_point_io_stub_preserves_its_declared_family() {
    let mut h = Harness::new();
    assert_eq!(
        h.io(
            "CanComms",
            "GetFixed7DP",
            &[Value::m1_unsigned(0), Value::m1_integer(0)]
        )
        .unwrap(),
        Value::M1(M1Scalar::FixedPoint7dps(FixedPoint7dps::from_raw(0)))
    );
}

#[test]
fn can_open_handle_returns_unit_external_stub() {
    let mut h = Harness::new();
    // `CanComms.RxOpenStandard` declares a `Handle` return — an opaque
    // receive handle with no determinate offline value — so the typed stub is
    // the benign unit (`Bool(true)`), externally driven, not a fail-loud abort.
    assert_eq!(
        h.io(
            "CanComms",
            "RxOpenStandard",
            &[
                Value::m1_unsigned(0),
                Value::m1_unsigned(0),
                Value::m1_unsigned(0),
                Value::m1_unsigned(0)
            ],
        )
        .unwrap(),
        Value::Bool(true)
    );
    assert!(h.trace.is_external("CanComms.RxOpenStandard"));
}

#[test]
fn can_void_writer_returns_unit_external_stub() {
    let mut h = Harness::new();
    // `CanComms.SetFloat` declares a `Void` return — a bus write that is a
    // no-op offline — so the typed stub is the benign unit value.
    assert_eq!(
        h.io(
            "CanComms",
            "SetFloat",
            &[
                Value::m1_unsigned(0),
                Value::m1_integer(0),
                mf(1.0)
            ],
        )
        .unwrap(),
        Value::Bool(true)
    );
    assert!(h.trace.is_external("CanComms.SetFloat"));
}

#[test]
fn system_elapsed_time_and_ticks_follow_the_evaluator_timeline() {
    let mut h = Harness::new();
    let time = EvalTime::periodic(125, double(1.25), double(0.01), double(0.05));
    assert_eq!(
        h.io_at(
            "System",
            "ElapsedTime",
            &[],
            CallSite::new("Demo.Update.m1scr", 20),
            time,
            None,
        )
        .unwrap(),
        mf(0.0)
    );
    assert_eq!(
        h.io_at(
            "System",
            "Ticks",
            &[],
            CallSite::new("Demo.Update.m1scr", 30),
            time,
            None,
        )
        .unwrap(),
        Value::m1_unsigned(125)
    );
    assert_eq!(
        h.io_at(
            "System",
            "TicksSince",
            &[Value::m1_unsigned(120)],
            CallSite::new("Demo.Update.m1scr", 40),
            time,
            None,
        )
        .unwrap(),
        Value::m1_unsigned(5)
    );
    assert_eq!(
        h.io_at(
            "System",
            "TicksBetween",
            &[Value::m1_unsigned(u32::MAX - 1), Value::m1_unsigned(1)],
            CallSite::new("Demo.Update.m1scr", 50),
            time,
            None,
        )
        .unwrap(),
        Value::m1_unsigned(3),
        "tick differences retain unsigned wraparound"
    );
    assert!(!h.trace.is_external("System.ElapsedTime"));
}

#[test]
fn system_elapsed_time_starts_when_the_site_first_executes() {
    let mut h = Harness::new();
    let site = CallSite::new("Demo.Update.m1scr", 20);
    assert_eq!(
        h.io_at(
            "System",
            "ElapsedTime",
            &[],
            site.duplicate(),
            EvalTime::periodic(750, double(7.5), double(0.01), double(0.01)),
            None,
        )
        .unwrap(),
        mf(0.0),
        "a late first execution establishes its own zero"
    );
    assert_eq!(
        h.io_at(
            "System",
            "ElapsedTime",
            &[],
            site,
            EvalTime::periodic(800, double(8.0), double(0.01), double(0.01)),
            None,
        )
        .unwrap(),
        mf(0.5)
    );
}

#[test]
fn system_elapsed_time_sites_keep_independent_epochs() {
    let mut h = Harness::new();
    let first = CallSite::new("Demo.Update.m1scr", 20);
    let second = CallSite::new("Demo.Update.m1scr", 40);

    assert_eq!(
        h.io_at(
            "System",
            "ElapsedTime",
            &[],
            first.duplicate(),
            EvalTime::periodic(100, double(1.0), double(0.01), double(0.01)),
            None,
        )
        .unwrap(),
        mf(0.0)
    );
    assert_eq!(
        h.io_at(
            "System",
            "ElapsedTime",
            &[],
            second.duplicate(),
            EvalTime::periodic(250, double(2.5), double(0.01), double(0.01)),
            None,
        )
        .unwrap(),
        mf(0.0)
    );
    let same_time = EvalTime::periodic(300, double(3.0), double(0.01), double(0.01));
    assert_eq!(
        h.io_at("System", "ElapsedTime", &[], first, same_time, None,)
            .unwrap(),
        mf(2.0)
    );
    assert_eq!(
        h.io_at("System", "ElapsedTime", &[], second, same_time, None,)
            .unwrap(),
        mf(0.5)
    );
}

#[test]
fn flash_metadata_fails_loud_without_scenario_or_adapter_data() {
    let mut h = Harness::new();
    for method in ["FlashSize", "FlashFree"] {
        let error = h.io("System", method, &[]).unwrap_err();
        assert_eq!(
            error,
            EvalError::MissingHardwareMetadata {
                call: format!("System.{method}")
            }
        );
        let message = error.to_text();
        assert!(message.contains("[[io]]"), "{message}");
        assert!(message.contains("HardwareAdapter"), "{message}");
    }
}

#[test]
fn adapter_receives_resolved_call_site_arguments_and_time() {
    let mut h = Harness::new();
    let site = CallSite::new("Demo.Update.m1scr", 77);
    let time = EvalTime::periodic(9, double(0.09), double(0.01), double(0.02));
    let args = [Value::m1_unsigned(4), Value::m1_integer(8)];
    let mut adapter = RecordingAdapter::replying(Value::m1_integer(12));

    let value = h
        .io_at(
            "Library.CanComms",
            "GetFloat",
            &args,
            site.duplicate(),
            time,
            Some(&mut adapter),
        )
        .unwrap();
    assert_eq!(value, mf(12.0));
    assert_eq!(adapter.calls.len(), 1);
    let call = &adapter.calls[0];
    assert_eq!(
        call.receiver,
        ResolvedReceiver::Library {
            object: "CanComms".to_string()
        }
    );
    assert_eq!(call.source_receiver, "Library.CanComms");
    assert_eq!(call.site, site);
    assert_eq!(call.arguments, args.to_vec());
    assert_eq!(call.time, time);
    assert!(h.trace.hardware.iter().any(|record| {
        record.source == HardwareValueSource::Adapter && record.site == site
    }));
}

#[test]
fn exact_site_then_wildcard_scenario_values_precede_the_adapter() {
    let mut h = Harness::new();
    let exact = CallSite::new("Demo.Update.m1scr", 10);
    let other = CallSite::new("Demo.Update.m1scr", 20);
    h.env
        .set_io_override("CanComms.GetFloat", mf(1.0));
    h.env
        .set_io_override_at("CanComms.GetFloat", exact.duplicate(), mf(2.0));
    let mut adapter = RecordingAdapter::replying(mf(3.0));
    let args = [Value::m1_unsigned(0), Value::m1_integer(0)];

    assert_eq!(
        h.io_at(
            "CanComms",
            "GetFloat",
            &args,
            exact,
            EvalTime::at_start(double(0.01)),
            Some(&mut adapter),
        )
        .unwrap(),
        mf(2.0)
    );
    assert_eq!(
        h.io_at(
            "CanComms",
            "GetFloat",
            &args,
            other,
            EvalTime::at_start(double(0.01)),
            Some(&mut adapter),
        )
        .unwrap(),
        mf(1.0)
    );
    assert!(adapter.calls.is_empty(), "scenario values must win");
    let sources: Vec<HardwareValueSource> = h
        .trace
        .hardware
        .iter()
        .map(|record| record.source)
        .collect();
    assert!(sources.contains(&HardwareValueSource::ScenarioExact));
    assert!(sources.contains(&HardwareValueSource::ScenarioWildcard));
}

#[test]
fn per_system_logging_overload_returns_typed_external_stub() {
    let mut h = Harness::new();
    // `Logging.Running(system)` (one Integer arg) has no *specific* stub (only
    // the zero-arg overload does), but it is a real `Boolean` IO method, so the
    // generic typed stub is false (externally driven), not a fail-loud abort.
    assert_eq!(
        h.io("Logging", "Running", &[Value::m1_integer(0)]).unwrap(),
        Value::Bool(false)
    );
    assert!(h.trace.is_external("Logging.Running"));
}

#[test]
fn unknown_io_method_fails_loud() {
    let mut h = Harness::new();
    // A method the registry does NOT list on the object is genuinely unknown:
    // we never invent a value for it, so it fails loud.
    match h.io("CanComms", "NotARealMethod", &[]) {
        Err(EvalError::UnsupportedBuiltin { object, method }) => {
            assert_eq!(object, "CanComms");
            assert_eq!(method, "NotARealMethod");
        }
        other => panic!("expected UnsupportedBuiltin, got {other:?}"),
    }
    // A failed call is not marked external.
    assert!(!h.trace.is_external("CanComms.NotARealMethod"));
}

#[test]
fn adapter_gets_first_refusal_before_an_unknown_hardware_method_fails() {
    let mut h = Harness::new();
    let mut adapter = RecordingAdapter::replying(Value::m1_unsigned(44));
    let value = h
        .io_at(
            "CanComms",
            "NotARealMethod",
            &[],
            CallSite::new("Demo.Update.m1scr", 90),
            EvalTime::at_start(double(0.01)),
            Some(&mut adapter),
        )
        .expect("adapter handles method absent from the catalog");
    assert_eq!(value, Value::m1_unsigned(44));
    assert_eq!(adapter.calls[0].canonical_name(), "CanComms.NotARealMethod");
}

#[test]
fn unknown_io_object_method_fails_loud() {
    let mut h = Harness::new();
    // `Serial` is an IO object, but `Frobnicate` is not a method the registry
    // lists for it — genuinely unknown, so fail loud rather than fabricate.
    match h.io("Serial", "Frobnicate", &[]) {
        Err(EvalError::UnsupportedBuiltin { object, method }) => {
            assert_eq!(object, "Serial");
            assert_eq!(method, "Frobnicate");
        }
        other => panic!("expected UnsupportedBuiltin, got {other:?}"),
    }
}

#[test]
fn typed_io_default_maps_each_return_kind() {
    // The generic fallback maps each registry return type to its zero/unit.
    // `GetFloat` → FloatingPoint, `GetID` → Integer, `BusRxTotal` →
    // UnsignedInteger, `RxMessage` → Boolean, `SetFloat` → Void,
    // `RxOpenStandard` → Handle (unmappable → unit).
    assert_eq!(
        default_of("CanComms", "GetFloat"),
        Some(mf(0.0))
    );
    assert_eq!(
        default_of("CanComms", "GetFixed7DP"),
        Some(Value::M1(M1Scalar::FixedPoint7dps(FixedPoint7dps::from_raw(0))))
    );
    assert_eq!(
        default_of("CanComms", "GetID"),
        Some(Value::m1_integer(0))
    );
    assert_eq!(
        default_of("CanComms", "BusRxTotal"),
        Some(Value::m1_unsigned(0))
    );
    assert_eq!(
        default_of("CanComms", "RxMessage"),
        Some(Value::Bool(false))
    );
    assert_eq!(
        default_of("CanComms", "SetFloat"),
        Some(Value::Bool(true))
    );
    assert_eq!(
        default_of("CanComms", "RxOpenStandard"),
        Some(Value::Bool(true))
    );
    // A method not in the registry → None (the caller fails loud).
    assert_eq!(default_of("CanComms", "NotARealMethod"), None);
}

#[test]
fn project_can_reader_stubs_are_typed() {
    let mut h = Harness::new();
    // A DBC CAN signal reader has no offline value; each stubs to the
    // type-correct zero of its M1 return type, flagged externally driven.
    assert_eq!(
        h.io("DashVals.Aux Switch", "GetInteger", &[]).unwrap(),
        Value::m1_integer(0)
    );
    assert_eq!(
        h.io("DashVals.Aux Switch", "GetBit", &[]).unwrap(),
        Value::Bool(false)
    );
    assert_eq!(
        h.io("DashVals.Aux Switch", "GetFloat", &[]).unwrap(),
        mf(0.0)
    );
    assert!(h.trace.is_external("DashVals.Aux Switch.GetInteger"));
    assert!(h.trace.is_external("DashVals.Aux Switch.GetBit"));
    assert!(h.trace.is_external("DashVals.Aux Switch.GetFloat"));
}

#[test]
fn project_can_writer_stubs_are_noops() {
    let mut h = Harness::new();
    // A DBC CAN signal write is a no-op offline: each returns the unit value
    // so an expression-statement call succeeds, flagged externally driven.
    for method in ["SetInteger", "SetScaled", "SetFloat", "SetFromBaseUnit"] {
        assert_eq!(
            h.io(
                "DashVals.Aux Switch",
                method,
                &[Value::m1_unsigned(0), Value::m1_integer(1)],
            )
            .unwrap(),
            Value::Bool(true),
            "{method} should stub to the unit value"
        );
        assert!(
            h.trace
                .is_external(&format!("DashVals.Aux Switch.{method}"))
        );
    }
}

#[test]
fn literal_form_returns_member_container_order() {
    let mut h = Harness::objects();
    // Idle has ContainerOrder 0.
    assert_eq!(
        as_int(&mut h, "Drive State.Idle").unwrap(),
        Some(Value::m1_integer(0))
    );
    // Precharging has ContainerOrder 2 (NOT ordinal index 1) — proves the
    // declared value is used, not the position in the member list.
    assert_eq!(
        as_int(&mut h, "Drive State.Precharging").unwrap(),
        Some(Value::m1_integer(2))
    );
}

#[test]
fn literal_form_unknown_member_fails_loud() {
    let mut h = Harness::objects();
    // The prefix is a real enum type but `Nope` is not one of its members.
    match as_int(&mut h, "Drive State.Nope") {
        Err(EvalError::TypeError { .. }) => {}
        other => panic!("expected TypeError for unknown member, got {other:?}"),
    }
}

#[test]
fn value_form_reads_enum_typed_channel() {
    let mut h = Harness::objects();
    let id = h.project.enum_by_name("Drive State").unwrap();
    // Seed the channel with the current enum value.
    h.env.set(
        "Root.Demo.Mode",
        Value::Enum {
            id,
            member: "Precharging".to_string(),
        },
    );
    // `Mode` resolves (group-relative) to Root.Demo.Mode, an enum channel.
    assert_eq!(as_int(&mut h, "Mode").unwrap(), Some(Value::m1_integer(2)));
    // And the absolute path works too.
    assert_eq!(
        as_int(&mut h, "Root.Demo.Mode").unwrap(),
        Some(Value::m1_integer(2))
    );
}

#[test]
fn value_form_reads_compound_dot_value_child() {
    let mut h = Harness::objects();
    let id = h.project.enum_by_name("Drive State").unwrap();
    // The value-compound's enum value lives on its `.Value` child.
    h.env.set(
        "Root.Demo.Compound.Value",
        Value::Enum {
            id,
            member: "Idle".to_string(),
        },
    );
    // Addressing the compound itself reads through to its `.Value` child.
    assert_eq!(
        as_int(&mut h, "Root.Demo.Compound").unwrap(),
        Some(Value::m1_integer(0))
    );
}

#[test]
fn value_form_unset_channel_is_missing_input() {
    let mut h = Harness::objects();
    // The channel is an enum source but no value was seeded: fail loud.
    match as_int(&mut h, "Root.Demo.Mode") {
        Err(EvalError::MissingInput { channel }) => {
            assert_eq!(channel, "Root.Demo.Mode");
        }
        other => panic!("expected MissingInput, got {other:?}"),
    }
}

#[test]
fn non_enum_source_falls_through() {
    let mut h = Harness::objects();
    // A name that resolves to no enum type and no project symbol returns
    // Ok(None) so dispatch can try other routes.
    assert_eq!(as_int(&mut h, "Totally.Unknown.Thing").unwrap(), None);
}

#[test]
fn calls_helper_and_reads_out_return() {
    let mut h = Harness::callers();
    // Helper.Compute(3.0) → Out = In.x * 2.0 = 6.0.
    assert_eq!(
        h.enter("Root.Helper.Compute", &[mf(3.0)])
            .unwrap(),
        Some(mf(6.0))
    );
    // And the group-relative spelling the caller would write resolves too.
    assert_eq!(
        h.enter("Helper.Compute", &[mf(5.0)]).unwrap(),
        Some(mf(10.0))
    );
}

#[test]
fn signature_types_coerce_parameters_and_returns_to_binary32() {
    let mut h = Harness::callers();
    assert_eq!(
        h.enter("Root.Helper.Echo", &[Value::m1_integer(7)]).unwrap(),
        Some(mf(7.0))
    );
    assert_eq!(
        h.enter("Root.Helper.ReturnInt", &[]).unwrap(),
        Some(mf(7.0))
    );
}

#[test]
fn raw_signature_metadata_directs_fixed_point_boundaries() {
    let mut h = Harness::callers();
    assert_eq!(
        h.enter("Root.Helper.FixedEcho", &[fixed(12_345_678)])
            .unwrap(),
        Some(fixed(12_345_678))
    );
    assert!(
        h.enter("Root.Helper.FixedEcho", &[mf(1.0)])
            .is_err()
    );
    assert_eq!(
        h.enter("Root.Helper.FixedToFloat", &[mf(0.0)])
            .unwrap(),
        Some(mf(0.0))
    );
    assert_eq!(
        h.enter("Root.Helper.InferredFixed", &[mf(0.0)])
            .unwrap(),
        Some(Value::M1(M1Scalar::FixedPoint7dps(
            FixedPoint7dps::from_raw(0),
        )))
    );
}

#[test]
fn caller_locals_survive_the_call() {
    let mut h = Harness::callers();
    // Seed a caller local; calling the helper (which binds its own In.x and
    // runs in a fresh frame) must not clobber it.
    h.env.set_local("y", Value::m1_integer(42));
    let _ = h.enter("Root.Helper.Compute", &[mf(1.0)])
        .unwrap();
    assert_eq!(h.env.get_local("y"), Some(&Value::m1_integer(42)));
    // The callee's In.x binding did NOT leak into the caller frame.
    assert_eq!(h.env.get_local("In.x"), None);
    // Nor did the callee's Out slot.
    assert_eq!(h.env.out, None);
}

#[test]
fn this_anchored_nested_callee_resolves() {
    let mut h = Harness::callers();
    // `This.Sub.Checkup()` from group Root.Caller names the FuncUserParam
    // Root.Caller.Sub.Checkup (no Signature, zero args). The `This` anchor must expand to
    // the enclosing group before classification.
    assert_eq!(
        h.enter("This.Sub.Checkup", &[]).unwrap(),
        Some(mf(7.0))
    );
}

#[test]
fn non_function_path_falls_through() {
    let mut h = Harness::callers();
    // A project channel is not a user function — Ok(None) so dispatch falls
    // through rather than trying to execute it as a body.
    assert_eq!(h.enter("Root.Caller.Output", &[]).unwrap(), None);
    // An unresolved name likewise falls through.
    assert_eq!(h.enter("No.Such.Function", &[]).unwrap(), None);
}

#[test]
fn arity_mismatch_is_bad_call() {
    let mut h = Harness::callers();
    // The helper declares one parameter; zero or two args is a fail-loud
    // BadCall, never a silent pad/truncate.
    match h.enter("Root.Helper.Compute", &[]) {
        Err(EvalError::BadCall { .. }) => {}
        other => panic!("expected BadCall on zero args, got {other:?}"),
    }
    match h.enter(
        "Root.Helper.Compute",
        &[mf(1.0), mf(2.0)],
    ) {
        Err(EvalError::BadCall { .. }) => {}
        other => panic!("expected BadCall on two args, got {other:?}"),
    }
}

#[test]
fn unbounded_recursion_fails_loud_at_depth_guard() {
    let mut h = Harness::callers();
    // `Recur.Loop` calls itself unconditionally (`Out = Recur.Loop(In.n)`).
    // Without a guard this overflows the stack; the depth guard turns it into
    // a fail-loud UnsupportedConstruct instead.
    let err = h.enter("Root.Recur.Loop", &[mf(1.0)])
        .expect_err("unbounded recursion fails loud");
    assert!(
        err.to_text().contains("Recur.Loop.m1scr"),
        "callee context names the recursively failing script: {err:?}"
    );
    match err.root_cause() {
        EvalError::UnsupportedConstruct { kind, .. } => {
            assert!(
                kind.contains("recursive"),
                "expected a recursion error, got {kind:?}"
            );
        }
        other => panic!("expected fail-loud recursion error, got {other:?}"),
    }
}

#[test]
fn nested_call_state_is_isolated_by_frame() {
    let mut h = Harness::callers();
    // Two calls with different arguments compute independently — the second
    // does not see the first's In.x (fresh frame each time).
    assert_eq!(
        h.enter("Root.Helper.Compute", &[mf(2.0)])
            .unwrap(),
        Some(mf(4.0))
    );
    assert_eq!(
        h.enter("Root.Helper.Compute", &[mf(7.0)])
            .unwrap(),
        Some(mf(14.0))
    );
}

/// A node without children.
fn leaf(kind: NodeKind, name: &str, text: &str, field: NodeField) -> SyntaxNode {
    SyntaxNode {
        kind,
        kind_name: name.to_string(),
        text: text.to_string(),
        field,
        named: true,
        children: Vec::new(),
    }
}

/// A name, dotted or not.
fn name_node(text: &str, field: NodeField) -> SyntaxNode {
    match text.rsplit_once('.') {
        Some((object, property)) => {
            let mut node = leaf(NodeKind::MemberExpression, "member_expression", text, field);
            node.children.push(name_node(object, NodeField::Object));
            node.children.push(leaf(
                NodeKind::Identifier,
                "identifier",
                property,
                NodeField::Property,
            ));
            node
        }
        None => leaf(NodeKind::Identifier, "identifier", text, field),
    }
}

/// An expression: a call with plain arguments, or something else.
fn expression(text: &str) -> SyntaxNode {
    let text = text.trim();
    match text.strip_suffix(')').and_then(|t| t.split_once('(')) {
        Some((callee, args)) => {
            let mut node = leaf(NodeKind::CallExpression, "call_expression", text, NodeField::Other);
            node.children.push(name_node(callee.trim(), NodeField::Function));
            for arg in args.split(',').filter(|a| !a.trim().is_empty()) {
                node.children.push(expression(arg));
            }
            node
        }
        None => leaf(NodeKind::Other, "expression", text, NodeField::Other),
    }
}

/// A statement without its semicolon.
fn statement(text: &str) -> SyntaxNode {
    let text = text.trim();
    let (declared, rest) = match text.strip_prefix("local ") {
        Some(rest) => (true, rest),
        None => (false, text),
    };
    match rest.split_once(" = ") {
        Some((name, value)) => {
            let (kind, kind_name) = if declared {
                (NodeKind::LocalDeclaration, "local_declaration")
            } else {
                (NodeKind::AssignmentStatement, "assignment_statement")
            };
            let mut node = leaf(kind, kind_name, text, NodeField::Other);
            node.children.push(leaf(NodeKind::Identifier, "identifier", name, NodeField::Name));
            node.children.push(expression(value));
            node
        }
        None => {
            let mut node = leaf(
                NodeKind::ExpressionStatement,
                "expression_statement",
                text,
                NodeField::Other,
            );
            node.children.push(expression(rest));
            node
        }
    }
}

/// The tree of a script of plain statements.
fn parsed(name: &str, source: &str) -> ParsedScript {
    let mut root = leaf(NodeKind::Other, "source_file", source, NodeField::Other);
    for part in source.split(';').filter(|p| !p.trim().is_empty()) {
        root.children.push(statement(part));
    }
    ParsedScript {
        name: name.to_string(),
        root,
    }
}

fn scripts_from(source: &str) -> Vec<ParsedScript> {
    vec![parsed("Demo.Update.m1scr", source)]
}

fn has(items: &[m1_eval::coverage::CoverageItem], name: &str) -> bool {
    items.iter().any(|item| item.name == name)
}

#[test]
fn assumptions_stubs_and_unresolved_receivers_are_distinct() {
    let scripts = scripts_from(
        "local i = Integral.Normal(Speed, 0.0, 100.0, false, 0.0);\n\
         local t = Demo.Map.Lookup(Speed, Load);\n\
         local c = CanComms.GetFloat(1, 2);\n\
         Output = i;\n",
    );
    let report = CoverageReport::analyse(&scripts, &catalog());
    assert!(has(&report.assumed, "Integral.Normal"), "{report:?}");
    assert!(has(&report.stubbed, "CanComms.GetFloat"), "{report:?}");
    // Without a project, coverage cannot prove that Demo.Map is a table.
    assert!(has(&report.unsupported, "Demo.Map.Lookup"), "{report:?}");
}

#[test]
fn table_lookup_and_arbitrary_set_use_the_resolved_receiver_kind() {
    let project = mini();
    let scripts = scripts_from("local x = Map.Lookup(Speed, Speed);\nMap.Set(1);\nOutput = x;\n");
    let report = CoverageReport::analyse_in(&scripts, Some(&project), &catalog());
    assert!(has(&report.assumed, "Map.Lookup"), "{report:?}");
    assert!(has(&report.unsupported, "Map.Set"), "{report:?}");
}

#[test]
fn set_is_supported_for_channels_and_stubbed_for_output_objects() {
    let project = enums();
    let scripts = scripts_from("Precharge State.Set(1);\nFan Output.Set(1);\n");
    let report = CoverageReport::analyse_in(&scripts, Some(&project), &catalog());
    assert!(has(&report.supported, "Precharge State.Set"), "{report:?}");
    assert!(has(&report.stubbed, "Fan Output.Set"), "{report:?}");
}

#[test]
fn implemented_debounce_filter_is_reported_as_an_assumption() {
    let report = CoverageReport::analyse(
        &scripts_from("Output = Debounce.Filter(true, 0.1);\n"),
        &catalog(),
    );
    assert!(has(&report.assumed, "Debounce.Filter"), "{report:?}");
    assert!(!has(&report.unsupported, "Debounce.Filter"), "{report:?}");
}

#[test]
fn local_named_calculate_does_not_change_builtin_coverage() {
    let project = mini();
    let scripts = scripts_from("local Calculate = 0;\nOutput = Calculate.Max(1, 2);\n");
    let report = CoverageReport::analyse_in(&scripts, Some(&project), &catalog());
    assert!(has(&report.supported, "Calculate.Max"), "{report:?}");
    assert!(!has(&report.unsupported, "Calculate.Max"), "{report:?}");
}

#[test]
fn library_qualified_calls_use_the_same_capability_buckets() {
    let report = CoverageReport::analyse(
        &scripts_from(
            "Library.Calculate.Max(1, 2);\n\
             Library.Debounce.Filter(true, 0.1);\n\
             Library.Math.fabs(-1.0);\n\
             Library.CanComms.GetFloat(1, 2);\n",
        ),
        &catalog(),
    );
    assert!(has(&report.supported, "Library.Calculate.Max"), "{report:?}");
    for name in ["Library.Debounce.Filter", "Library.Math.fabs"] {
        assert!(has(&report.assumed, name), "{name}: {report:?}");
    }
    assert!(has(&report.stubbed, "Library.CanComms.GetFloat"), "{report:?}");
}

#[test]
fn duplicate_display_name_keeps_the_weakest_script_capability() {
    let project = user_functions();
    let scripts = vec![
        parsed("Caller.Update.m1scr", "Output.Set(1);\n"),
        parsed("Helper.Compute.m1scr", "Output.Set(1);\n"),
    ];
    let report = CoverageReport::analyse_in(&scripts, Some(&project), &catalog());
    assert!(
        has(&report.stubbed, "Output.Set"),
        "the unresolved Helper occurrence must remain visible: {report:?}"
    );
    assert!(
        !has(&report.supported, "Output.Set"),
        "the supported Caller occurrence must not hide the stub: {report:?}"
    );
}

#[test]
fn duplicate_display_name_keeps_unsupported_over_supported() {
    let project = mini();
    let scripts = vec![
        parsed("Demo.Update.m1scr", "Map.Get(0);\n"),
        parsed("Detached.Update.m1scr", "Map.Get(0);\n"),
    ];
    let report = CoverageReport::analyse_in(&scripts, Some(&project), &catalog());
    assert!(
        has(&report.unsupported, "Map.Get"),
        "the unresolved occurrence must remain visible: {report:?}"
    );
    assert!(
        !has(&report.supported, "Map.Get"),
        "the resolved table occurrence must not hide the failure: {report:?}"
    );
}

#[test]
fn unimplemented_builtin_is_unsupported() {
    let scripts = scripts_from("Output = Calculate.NoSuchMethod(1);\n");
    let report = CoverageReport::analyse(&scripts, &catalog());
    assert!(has(&report.unsupported, "Calculate.NoSuchMethod"), "{report:?}");
}

#[test]
fn statement_constructs_are_reported_supported() {
    let mut script = parsed("Demo.Update.m1scr", "local x = 1;\n");
    let mut branch = leaf(NodeKind::IfStatement, "if_statement", "if (Speed > 0.0)", NodeField::Other);
    for text in ["Output = 1.0", "Output = 0.0"] {
        let mut block = leaf(NodeKind::Block, "block", text, NodeField::Other);
        block.children.push(statement(text));
        branch.children.push(block);
    }
    script.root.children.push(branch);
    let report = CoverageReport::analyse(&vec![script], &catalog());
    let constructs: Vec<&str> = report
        .supported
        .iter()
        .filter(|i| i.kind == ItemKind::Construct)
        .map(|i| i.name.as_str())
        .collect();
    assert_eq!(
        constructs,
        vec!["assignment_statement", "if_statement", "local_declaration"]
    );
}

/// The scripts of the project with user functions.
fn caller_scripts() -> Vec<ParsedScript> {
    USER_SCRIPTS
        .iter()
        .map(|&name| match name {
            "Caller.Update.m1scr" => parsed(name, "Output = Helper.Compute(1.0);\n"),
            "Caller.Kick.m1scr" => parsed(name, "This.Sub.Checkup();\n"),
            _ => parsed(name, "Out = 1.0;\n"),
        })
        .collect()
}

#[test]
fn user_function_call_is_supported_not_stubbed() {
    let project = user_functions();
    let report = CoverageReport::analyse_in(&caller_scripts(), Some(&project), &catalog());
    assert!(has(&report.supported, "Helper.Compute"), "{report:?}");
    assert!(!has(&report.unsupported, "Helper.Compute"), "{report:?}");
    assert!(!has(&report.stubbed, "Helper.Compute"), "{report:?}");
}

#[test]
fn local_shadowing_keeps_coverage_aligned_with_runtime_resolution() {
    let project = user_functions();
    let mut scripts = caller_scripts();
    scripts.retain(|script| script.name != "Caller.Update.m1scr");
    scripts.push(parsed(
        "Caller.Update.m1scr",
        "local Kick = 0;\nKick();\nlocal Output = 0;\nOutput.Set(1);\n",
    ));
    let report = CoverageReport::analyse_in(&scripts, Some(&project), &catalog());
    for name in ["Kick", "Output.Set"] {
        assert!(
            has(&report.unsupported, name),
            "a local-shadowed call must match the refusing route: {name}: {report:?}"
        );
        assert!(
            !has(&report.supported, name),
            "a local-shadowed call cannot remain supported: {name}: {report:?}"
        );
    }
    let mut h = Harness::callers();
    h.env.set_local("Kick", Value::m1_integer(0));
    let result = h.with(EvalTime::at_start(double(0.01)), |ctx| {
        dispatch_bare("Kick", &[], CallSite::new("Caller.Update.m1scr", 0), ctx)
    });
    assert!(matches!(
        result,
        Err(EvalError::UnsupportedConstruct { .. })
    ));
}

#[test]
fn this_anchored_user_function_call_is_supported() {
    let project = user_functions();
    let report = CoverageReport::analyse_in(&caller_scripts(), Some(&project), &catalog());
    assert!(has(&report.supported, "This.Sub.Checkup"), "{report:?}");
    assert!(!has(&report.unsupported, "This.Sub.Checkup"), "{report:?}");
}

#[test]
fn group_compound_update_without_project_context_is_still_stubbed() {
    let report = CoverageReport::analyse(&scripts_from("Service Bits.Update();\n"), &catalog());
    assert!(has(&report.stubbed, "Service Bits.Update"), "{report:?}");
}

#[test]
fn render_is_deterministic_and_labels_every_bucket() {
    let report = CoverageReport::analyse(
        &scripts_from("Output = Integral.Normal(Speed, 0.0, 1.0, false, 0.0);\n"),
        &catalog(),
    );
    let text = report.render();
    assert_eq!(
        text,
        "Supported:\n  construct assignment_statement\n\
         Assumed:\n  builtin Integral.Normal\n\
         Adapter-backed:\n  (none)\n\
         Stubbed:\n  (none)\n\
         Unsupported:\n  (none)\n\
         Schedule:\n  (none)\n"
    );
    assert_eq!(text, report.render());
}

/// A loaded project with functions and what makes them run.
fn loaded(functions: Vec<(&str, TriggerStatus)>) -> Loaded {
    let mut b = Builder::new();
    let mut statuses = TextMap::new();
    let mut scripts = Vec::new();
    for (name, status) in functions {
        let path = format!("Root.{name}");
        let script = format!("{name}.m1scr");
        b.add(&path, symbol(SymbolKind::Function, ValueType::Unknown));
        b.script(&script, &path, "Root");
        scripts.push(parsed(&script, "Output = 1.0;\n"));
        statuses.insert(path, status);
    }
    Loaded {
        project: b.project,
        calib: Calibration::empty(),
        catalog: catalog(),
        object_rules: ObjectRules::empty(),
        signature_types: Vec::new(),
        scripts,
        triggers: TriggerMap { statuses },
    }
}

/// A project with two rates and a startup function.
fn multirate() -> Loaded {
    loaded(vec![
        ("MR.Init", TriggerStatus::Startup),
        ("MR.Slow Writer", TriggerStatus::Periodic(double(50.0))),
        ("MR.Fast Writer", TriggerStatus::Periodic(double(100.0))),
        ("MR.Fast Reader", TriggerStatus::Periodic(double(100.0))),
        ("MR.Slow Integrator", TriggerStatus::Periodic(double(50.0))),
    ])
}

#[test]
fn schedule_reports_periodic_and_executed_startup_functions() {
    let report = CoverageReport::analyse_loaded(&multirate());
    assert_eq!(
        report.schedule,
        vec![
            ("Root.MR.Fast Reader".to_string(), Some(double(100.0))),
            ("Root.MR.Fast Writer".to_string(), Some(double(100.0))),
            ("Root.MR.Slow Integrator".to_string(), Some(double(50.0))),
            ("Root.MR.Slow Writer".to_string(), Some(double(50.0))),
            ("Root.MR.Init".to_string(), None),
        ]
    );
    assert_eq!(report.startup, vec!["Root.MR.Init"]);
}

#[test]
fn render_reports_startup_as_running_once() {
    let text = CoverageReport::analyse_loaded(&multirate()).render();
    assert!(text.contains("Schedule:"), "no Schedule section: {text}");
    assert!(
        text.contains("  Root.MR.Fast Writer @ 100 Hz\n"),
        "rated function not rendered: {text}"
    );
    assert!(
        text.contains("  Root.MR.Init (startup, runs once)\n"),
        "startup execution not rendered: {text}"
    );
}

#[test]
fn coverage_distinguishes_every_trigger_status() {
    let report = CoverageReport::analyse_loaded(&loaded(vec![
        ("T.Direct", TriggerStatus::Periodic(double(100.0))),
        ("T.Grouped", TriggerStatus::Periodic(double(50.0))),
        ("T.Parameterized", TriggerStatus::Periodic(double(200.0))),
        ("T.Startup", TriggerStatus::Startup),
        ("T.Helper", TriggerStatus::Helper),
        ("T.Unscheduled", TriggerStatus::Unscheduled),
        (
            "T.Invalid",
            TriggerStatus::Unresolved {
                trigger: "Events.On 999Hz".to_string(),
                reason: "missing component `Root.Events.On 999Hz`".to_string(),
            },
        ),
    ]));
    let rate = |name: &str| report.schedule.iter().find(|e| e.0 == name).map(|e| e.1);
    assert_eq!(rate("Root.T.Direct"), Some(Some(double(100.0))));
    assert_eq!(rate("Root.T.Grouped"), Some(Some(double(50.0))));
    assert_eq!(rate("Root.T.Parameterized"), Some(Some(double(200.0))));
    assert_eq!(report.startup, vec!["Root.T.Startup"]);
    assert_eq!(report.helpers, vec!["Root.T.Helper"]);
    assert_eq!(report.unscheduled, vec!["Root.T.Unscheduled"]);
    assert_eq!(
        report.unresolved,
        vec![UnresolvedTrigger {
            function: "Root.T.Invalid".to_string(),
            trigger: "Events.On 999Hz".to_string(),
            reason: "missing component `Root.Events.On 999Hz`".to_string(),
        }]
    );

    let rendered = report.render();
    assert!(rendered.contains("Root.T.Parameterized @ 200 Hz"));
    assert!(rendered.contains("Root.T.Startup (startup, runs once)"));
    assert!(rendered.contains("Root.T.Helper (helper, not scheduled directly)"));
    assert!(rendered.contains("Root.T.Unscheduled (unscheduled, no trigger selected)"));
    assert!(rendered.contains("Root.T.Invalid (unresolved trigger `Events.On 999Hz`: "));
    assert!(rendered.contains("missing component `Root.Events.On 999Hz`"));
}

#[test]
fn schedule_is_empty_without_project_context() {
    let report = CoverageReport::analyse(&scripts_from("Output = Speed;\n"), &catalog());
    assert!(report.schedule.is_empty());
    assert!(report.render().contains("Schedule:"));
}

#[test]
fn static_locals_and_unnamed_nodes_do_not_enter_the_scope() {
    let project = user_functions();
    let mut scripts = caller_scripts();
    scripts.retain(|script| script.name != "Caller.Update.m1scr");
    let mut script = parsed("Caller.Update.m1scr", "local Kick = 0;\nKick();\n");
    script.root.children[0].children.push(leaf(
        NodeKind::Static,
        "static",
        "static",
        NodeField::Other,
    ));
    let mut hidden = statement("Nowhere()");
    hidden.named = false;
    script.root.children.push(hidden);
    scripts.push(script);
    let report = CoverageReport::analyse_in(&scripts, Some(&project), &catalog());
    assert!(has(&report.supported, "Kick"), "{report:?}");
    assert!(!has(&report.unsupported, "Nowhere"), "{report:?}");
}

#[test]
fn project_object_catalog_matches_coverage_and_runtime_dispatch() {
    let mut harness = Harness::objects();
    let calls = [
        ("Mode", "AsInteger", vec![], BuiltinSupport::Direct),
        ("Mode", "AsString", vec![], BuiltinSupport::Direct),
        ("Precharge State", "Set", vec![Value::m1_integer(1)], BuiltinSupport::Direct),
        ("Limited Signed", "Validate", vec![Value::m1_integer(1)], BuiltinSupport::Direct),
        ("Limited Signed", "Constrain", vec![Value::m1_integer(1)], BuiltinSupport::Direct),
        ("Limited Signed", "GetUnscheduled", vec![], BuiltinSupport::Direct),
        ("Startup Delay", "Start", vec![mf(1.0)], BuiltinSupport::Modeled),
        ("Startup Delay", "Stop", vec![], BuiltinSupport::Modeled),
        ("Startup Delay", "Reset", vec![], BuiltinSupport::Modeled),
        ("Startup Delay", "Remaining", vec![], BuiltinSupport::Modeled),
        ("Service Bits", "Update", vec![], BuiltinSupport::Stubbed),
        ("Fan Output", "Set", vec![Value::m1_integer(1)], BuiltinSupport::Stubbed),
        ("DashVals", "TxOpen", vec![], BuiltinSupport::Stubbed),
        ("DashVals.Aux Switch", "GetScaled", vec![], BuiltinSupport::Stubbed),
        ("DashVals.Aux Switch", "Receive", vec![], BuiltinSupport::Stubbed),
    ];
    let source: String = calls.iter().map(|c| format!("{}.{}();\n", c.0, c.1)).collect();
    let report =
        CoverageReport::analyse_in(&scripts_from(&source), Some(&harness.project), &catalog());
    harness.env.set(
        "Root.Demo.Mode",
        Value::Enum {
            id: 0,
            member: "Idle".to_string(),
        },
    );
    harness.env.set("Root.Demo.Limited Signed", Value::m1_integer(1));
    for (object, method, args, support) in calls {
        let name = format!("{object}.{method}");
        let bucket = match support {
            BuiltinSupport::Direct => &report.supported,
            BuiltinSupport::Modeled => &report.assumed,
            _ => &report.stubbed,
        };
        assert!(has(bucket, &name), "{name} should be {support:?}: {report:?}");
        if let Err(error) = harness.call(object, method, &args) {
            panic!("coverage classified {name} executable, dispatch failed: {error:?}");
        }
    }

    let table_scripts = scripts_from("Map.Lookup(0.0, 0.0);\nMap.Get(0);\n");
    let project = mini();
    let table_report = CoverageReport::analyse_in(&table_scripts, Some(&project), &catalog());
    assert!(has(&table_report.assumed, "Map.Lookup"));
    assert!(has(&table_report.supported, "Map.Get"));
    let mut tables = Harness::new();
    tables
        .call("Map", "Lookup", &[mf(0.0), mf(0.0)])
        .expect("coverage-classified table lookup dispatches");
    tables
        .call("Map", "Get", &[Value::m1_integer(0)])
        .expect("coverage-classified table get dispatches");
}

#[test]
fn library_catalog_matches_coverage_and_runtime_dispatch() {
    let refused = [("Delay", "Signal15"), ("Math", "Sqrt")];
    let gated = [("Debounce", "Fast"), ("Debounce", "Verify")];
    let metadata = [("System", "FlashSize"), ("System", "FlashFree")];
    let stubs = ["CanComms", "Serial", "System", "Logging"];
    let stateful = ["Filter", "Integral", "Derivative", "Delay", "Debounce", "Change", "Math"];
    let timed = ["Stable", "Hysteresis", "Between", "Beyond"];
    let source: String = LIBRARY.iter().map(|m| format!("{}.{}();\n", m.0, m.1)).collect();
    let report = CoverageReport::analyse(&scripts_from(&source), &catalog());
    for &(object, method, params, _) in LIBRARY {
        let name = format!("{object}.{method}");
        let args: Vec<Value> = params
            .chars()
            .map(|kind| match kind {
                'B' => Value::Bool(true),
                'I' => Value::m1_integer(1),
                'U' => Value::m1_unsigned(1),
                'S' => Value::Str("x".to_string()),
                _ => mf(1.0),
            })
            .collect();
        let result = Harness::new().call(object, method, &args);
        if refused.contains(&(object, method)) {
            assert!(has(&report.unsupported, &name), "{name}: {report:?}");
            assert!(
                matches!(result, Err(EvalError::UnsupportedBuiltin { .. })),
                "{name}: {result:?}"
            );
        } else if gated.contains(&(object, method)) {
            assert!(has(&report.unsupported, &name), "{name}: {report:?}");
            assert!(
                matches!(result, Err(EvalError::UnsupportedBuiltinBehavior { .. })),
                "{name}: {result:?}"
            );
        } else if metadata.contains(&(object, method)) {
            assert!(has(&report.adapter_backed, &name), "{name}: {report:?}");
            assert!(
                matches!(result, Err(EvalError::MissingHardwareMetadata { .. })),
                "{name}: {result:?}"
            );
        } else {
            let bucket = if stubs.contains(&object) {
                &report.stubbed
            } else if stateful.contains(&object) || timed.contains(&method) {
                &report.assumed
            } else {
                &report.supported
            };
            assert!(has(bucket, &name), "{name}: {report:?}");
            assert!(result.is_ok(), "dispatch failed for classified {name}: {result:?}");
        }
    }
}

#[test]
fn startup_hardware_calls_receive_startup_time_and_keep_provenance() {
    let mut h = Harness::new();
    let site = CallSite::new("Hardware.Init.m1scr", 10);
    let mut adapter = RecordingAdapter::silent();
    let time = EvalTime::at_start(double(0.01));
    assert_eq!(
        h.io_at("System", "Ticks", &[], site, time, Some(&mut adapter)).unwrap(),
        Value::m1_unsigned(0)
    );
    let other = CallSite::new("Hardware.Init.m1scr", 40);
    assert_eq!(
        h.io_at("System", "ElapsedTime", &[], other, time, None).unwrap(),
        mf(0.0)
    );
    let startup = &adapter.calls[0];
    assert_eq!(startup.method, "Ticks");
    assert_eq!(startup.site.script(), "Hardware.Init.m1scr");
    assert_eq!(startup.time.phase, EvalPhase::Startup);
    assert_eq!(startup.time.base_tick, 0);
    assert_eq!(startup.time.elapsed_s, double(0.0));
    assert_eq!(startup.time.base_period_s, double(0.01));
    assert_eq!(startup.time.step_s, double(0.01));
    assert!(h.trace.hardware.iter().any(|record| {
        record.site.script() == "Hardware.Init.m1scr"
            && record.source == HardwareValueSource::SystemModel
            && record.canonical_call() == "System.Ticks"
    }));
}

#[test]
fn rate_gated_elapsed_time_uses_actual_execution_instants_and_resets_per_run() {
    for _ in 0..2 {
        let mut h = Harness::new();
        let mut elapsed = Vec::new();
        let mut held = mf(0.0);
        for tick in 0..5_u64 {
            if tick % 2 == 0 {
                let site = CallSite::new("Hardware.Slow.m1scr", 7);
                let now = double(tick as f64 * 0.01);
                let time = EvalTime::periodic(tick, now, double(0.01), double(0.02));
                held = h.io_at("System", "ElapsedTime", &[], site, time, None).unwrap();
            }
            elapsed.push(held.duplicate());
        }
        assert_eq!(
            elapsed,
            vec![mf(0.0), mf(0.0), mf(0.02), mf(0.02), mf(0.02)],
            "a new run must not retain the first run's call-site state"
        );
    }
}

#[test]
fn missing_flash_metadata_aborts_with_script_and_tick_context() {
    let mut h = Harness::new();
    let error = h
        .call("System", "FlashSize", &[])
        .unwrap_err()
        .in_script("Hardware.Update.m1scr", Some(double(0.0)));
    assert_eq!(
        error.root_cause(),
        &EvalError::MissingHardwareMetadata {
            call: "System.FlashSize".to_string()
        }
    );
    let message = error.to_text();
    assert!(message.contains("Hardware.Update.m1scr"), "{message}");
    assert!(message.contains("t = 0.000 s"), "{message}");
    assert!(message.contains("[[io]]"), "{message}");
}

#[test]
fn scenario_exact_site_override_does_not_collide_with_the_other_call() {
    let mut h = Harness::new();
    let first = CallSite::new("Hardware.Update.m1scr", 120);
    let second = CallSite::new("Hardware.Update.m1scr", 160);
    h.env.set_io_override("System.FlashSize", Value::m1_integer(4_194_304));
    h.env
        .set_io_override_at("System.FlashSize", first.duplicate(), Value::m1_integer(8_388_608));
    let time = EvalTime::at_start(double(0.01));
    for _ in 0..3 {
        assert_eq!(
            h.io_at("System", "FlashSize", &[], first.duplicate(), time, None).unwrap(),
            Value::m1_unsigned(8_388_608)
        );
        assert_eq!(
            h.io_at("System", "FlashSize", &[], second.duplicate(), time, None).unwrap(),
            Value::m1_unsigned(4_194_304)
        );
    }
    assert!(h.trace.hardware.iter().any(|record| {
        record.source == HardwareValueSource::ScenarioExact && record.site.offset() == 120
    }));
    assert!(h.trace.hardware.iter().any(|record| {
        record.source == HardwareValueSource::ScenarioWildcard
            && record.canonical_call() == "System.FlashSize"
    }));
}

/// An engine over a project with functions at the given rates.
fn engine(rates: &[(&'static str, f64)]) -> Engine {
    let functions = rates
        .iter()
        .map(|&(name, hz)| (name, TriggerStatus::Periodic(double(hz))))
        .collect();
    Engine::load(loaded(functions))
}

fn text(content: &str) -> Result<String, String> {
    Ok(content.to_string())
}

#[test]
fn load_log_starts_none() {
    // A freshly loaded engine has no counterfactual baseline attached.
    assert!(engine(&[]).log().is_none(), "log must be None until load_log");
}

#[test]
fn load_log_csv_attaches_channels_as_ground_truth() {
    let csv = "time,Engine Speed,Wheel Speed\n\
               s,rpm,km/h\n\
               0.0,800,0\n\
               0.5,1200,30\n";
    let mut engine = engine(&[]);
    engine.load_log("/tmp/logs/run.csv", text(csv)).expect("CSV log attaches");
    let log = engine.log().expect("log attached after load_log");
    assert_eq!(log.channel_names(), vec!["Engine Speed", "Wheel Speed"]);
    assert_eq!(
        log.meta.units.get("Engine Speed").map(String::as_str),
        Some("rpm")
    );
    assert!(log.meta.source.ends_with("run.csv"), "source = {}", log.meta.source);
    let speed = &log.channels[log.series_for("Engine Speed").unwrap()];
    assert_eq!(speed.sample(double(0.25)), Some(&mf(800.0)));
    assert_eq!(speed.sample(double(0.5)), Some(&mf(1200.0)));
}

#[test]
fn load_log_csv_extension_is_case_insensitive() {
    let mut engine = engine(&[]);
    engine
        .load_log("run.CSV", text("time,Engine Speed\n0.0,800\n0.5,1200\n"))
        .expect("uppercase .CSV log attaches");
    assert_eq!(engine.log().expect("attached").channels.len(), 1);
}

#[test]
fn load_log_malformed_csv_fails_loud() {
    let mut engine = engine(&[]);
    for csv in [
        "t,Engine Speed\n0.0,800\n",
        "time,Engine Speed\n0.0,fast\n",
        "time,Engine Speed\n0.0\n",
        "",
    ] {
        match engine.load_log("run.csv", text(csv)) {
            Err(EvalError::UnsupportedConstruct { .. }) => {}
            other => panic!("expected fail-loud on malformed CSV, got {other:?}"),
        }
        // A failed load leaves the engine without a (partial/garbage) log.
        assert!(engine.log().is_none(), "failed load must not attach a log");
    }
}

#[test]
fn load_log_missing_file_fails_loud() {
    let mut engine = engine(&[]);
    match engine.load_log("does-not-exist.csv", Err("not found".to_string())) {
        Err(EvalError::MissingInput { channel }) => {
            assert_eq!(channel, "does-not-exist.csv: not found");
        }
        other => panic!("expected MissingInput for absent file, got {other:?}"),
    }
}

#[test]
fn load_log_unknown_extension_fails_loud() {
    let mut engine = engine(&[]);
    match engine.load_log("run.txt", text("time,x\n0,1\n")) {
        Err(EvalError::UnsupportedConstruct { kind, .. }) => {
            assert!(kind.contains(".txt"), "kind names the bad ext: {kind}");
        }
        other => panic!("expected UnsupportedConstruct for `.txt`, got {other:?}"),
    }
    match engine.load_log("logs.csv/run", text("time,x\n0,1\n")) {
        Err(EvalError::UnsupportedConstruct { kind, .. }) => {
            assert!(kind.contains(".(none)"), "kind names the missing ext: {kind}");
        }
        other => panic!("expected UnsupportedConstruct without extension, got {other:?}"),
    }
}

#[test]
fn load_log_ld_without_feature_fails_loud_naming_feature() {
    let mut engine = engine(&[]);
    match engine.load_log("run.ld", text("not really an ld file")) {
        Err(EvalError::UnsupportedConstruct { kind, .. }) => {
            assert!(
                kind.contains("ld") && kind.contains("--features"),
                "fail-loud message must name the `ld` feature: {kind}"
            );
        }
        other => panic!("expected fail-loud `.ld`-without-feature error, got {other:?}"),
    }
    assert!(engine.log().is_none());
}

#[test]
fn default_counterfactual_base_covers_non_dividing_rates() {
    let mut engine = engine(&[("CR.Fast", 10.0), ("CR.Slow", 4.0)]);
    engine
        .load_log("run.csv", text("time,Root.CR.Sensor\n0.0,5.0\n0.5,5.0\n1.0,5.0\n"))
        .expect("log loads");
    engine.override_channel("Root.CR.Sensor=7.0").expect("override parses");
    let plan = engine
        .plan_counterfactual()
        .expect("default base must schedule both 10 and 4 Hz exactly");
    assert_eq!(plan.cfg.base_rate_hz, double(20.0));
    assert_eq!(plan.cfg.duration_s, double(0.0));
}

#[test]
fn default_counterfactual_base_is_a_hundred_without_a_common_grid() {
    for rates in [&[][..], &[("A.F", 0.5)], &[("A.F", 999_983.0), ("A.G", 2.0)]] {
        let mut engine = engine(rates);
        engine.load_log("run.csv", text("time,x\n0,1\n")).expect("log loads");
        assert_eq!(
            engine.plan_counterfactual().unwrap().cfg.base_rate_hz,
            double(100.0)
        );
    }
}

#[test]
fn run_counterfactual_without_a_log_fails_loud() {
    let engine = engine(&[]);
    assert!(matches!(
        engine.plan_counterfactual(),
        Err(EvalError::MissingInput { .. })
    ));
    match engine.run_counterfactual(Ok(Trace::new())) {
        Err(EvalError::MissingInput { .. }) => {}
        other => panic!("expected MissingInput without a log, got {other:?}"),
    }
    assert!(matches!(
        engine.run_counterfactual_diff(Ok(Trace::new())),
        Err(EvalError::MissingInput { .. })
    ));
}

#[test]
fn override_channel_malformed_spec_fails_loud() {
    let mut engine = engine(&[]);
    match engine.override_channel("no-equals-here") {
        Err(EvalError::UnsupportedConstruct { kind, .. }) => assert_eq!(
            kind,
            "override spec \"no-equals-here\" has no `=` (expected `CHANNEL=value-or-expression`)"
        ),
        other => panic!("expected UnsupportedConstruct for a malformed spec, got {other:?}"),
    }
    assert!(engine.overrides.is_empty());
}

#[test]
fn coverage_reports_without_a_run() {
    let report = engine(&[("Demo.Update", 100.0)]).coverage();
    assert!(
        report.unsupported.is_empty(),
        "unexpected unsupported: {:?}",
        report.unsupported
    );
}

#[test]
fn overrides_accumulate_and_the_replay_is_compared_with_the_log() {
    let mut engine = engine(&[]);
    engine
        .load_log("run.csv", text("time,Root.CF.Mid,Root.CF.Other\n0.0,20,42\n0.01,40,42\n"))
        .expect("log attaches");
    engine.override_channel("Root.CF.Sensor=100.0").unwrap();
    engine.override_channel("Root.CF.Mid=Root.CF.Mid * 2").unwrap();
    assert_eq!(engine.overrides.len(), 2);
    assert_eq!(engine.overrides[1].channel(), "Root.CF.Mid");
    let mut trace = Trace::new();
    for t in [0.0, 0.01] {
        trace.push_tick(double(t));
        trace.record_channel("Root.CF.Mid", mf(200.0));
        trace.record_channel("Root.CF.Other", mf(42.0));
    }
    let result = engine.run_counterfactual_diff(Ok(trace)).expect("replay compares");
    assert_eq!(result.diff.changed_channels(), vec!["Root.CF.Mid"]);
    assert_eq!(result.trace.time.len(), 2);
}

#[test]
fn what_is_set_is_what_is_read() {
    let mut h = Harness::objects();
    for (given, stored) in [(-9, -2), (0, 0), (9, 3)] {
        h.call("Limited Signed", "Set", &[Value::m1_integer(given)]).unwrap();
        assert_eq!(
            h.call("Limited Signed", "GetUnscheduled", &[]).unwrap(),
            Value::m1_integer(stored)
        );
        assert_eq!(
            h.call("Limited Signed", "Validate", &[Value::m1_integer(stored)]).unwrap(),
            Value::Bool(true)
        );
        assert_eq!(
            h.call("Limited Signed", "Constrain", &[Value::m1_integer(stored)]).unwrap(),
            Value::m1_integer(stored)
        );
    }
}

#[test]
fn user_functions_nest_up_to_the_limit() {
    let mut h = Harness::callers();
    let depth = h.with(EvalTime::at_start(double(0.01)), |ctx| {
        let mut calls = 0;
        while let Ok(Some(_)) = enter("Root.Caller.Kick", &[], ctx) {
            calls += 1;
        }
        calls
    });
    assert_eq!(depth, 64);
}

#[test]
fn run_counterfactual_signature_uses_only_crate_types() {
    fn accepts(engine: &Engine, replay: Result<Trace, EvalError>) -> Result<Trace, EvalError> {
        engine.run_counterfactual(replay)
    }
    assert!(accepts(&engine(&[]), Ok(Trace::new())).is_err());
}

#[test]
fn set_values_come_before_calibration() {
    let mut h = Harness::new();
    let read = |h: &mut Harness| {
        h.with(EvalTime::at_start(double(0.01)), |ctx| read_symbol("Root.Demo.Gain", ctx))
    };
    assert_eq!(read(&mut h).unwrap(), mf(2.5));
    h.env.set("Root.Demo.Gain", mf(4.0));
    assert_eq!(read(&mut h).unwrap(), mf(4.0));
    let mut bare = Harness::empty_calib();
    assert!(matches!(
        read(&mut bare),
        Err(EvalError::MissingCalibration { .. })
    ));
}

#[test]
fn refused_counts_name_the_accepted_ones_in_order() {
    let mut h = Harness::new();
    assert_eq!(
        h.call("Filter", "FirstOrder", &[mf(1.0)]),
        Err(EvalError::BadCall {
            detail: "Filter.FirstOrder expects 2 or 3 argument(s), got 1".to_string(),
        })
    );
    h.catalog.library.reverse();
    h.catalog.library.push(Overload {
        object: "Filter".to_string(),
        method: "FirstOrder".to_string(),
        params: 2,
        returns: "FloatingPoint".to_string(),
    });
    assert_eq!(
        h.call("Filter", "FirstOrder", &[]),
        Err(EvalError::BadCall {
            detail: "Filter.FirstOrder expects 2 or 3 argument(s), got 0".to_string(),
        })
    );
    assert_eq!(
        h.call("Limit", "Range", &[]),
        Err(EvalError::BadCall {
            detail: "Limit.Range expects 3 argument(s), got 0".to_string(),
        })
    );
}

#[test]
fn the_anchor_and_locals_leave_library_calls_alone() {
    let args = [Value::m1_integer(1), Value::m1_integer(2)];
    for local in ["Calculate", "Library", "Calculate.Max"] {
        let mut h = Harness::new();
        let plain = h.call("Calculate", "Max", &args).unwrap();
        h.env.locals.insert(local.to_string(), Value::Bool(true));
        assert_eq!(h.call("Calculate", "Max", &args).unwrap(), plain, "{local}");
        assert_eq!(h.call("Library.Calculate", "Max", &args).unwrap(), plain, "{local}");
        assert_eq!(plain, Value::m1_integer(2));
    }
}

#[test]
fn a_name_may_hold_in_one_function_only() {
    let mut h = Harness::new();
    let entry = |function: Option<&str>, path: &str| NameEntry {
        group: Some("Root.Demo".to_string()),
        function: function.map(str::to_string),
        spelling: "Here".to_string(),
        target: Target::Symbol(path.to_string()),
    };
    h.project.names.push(entry(Some("Root.Demo.Other"), "Root.Demo.Speed"));
    h.project.names.push(entry(None, "Root.Demo.Output"));
    h.call("Here", "Set", &[mf(1.0)]).unwrap();
    h.function = "Root.Demo.Other";
    h.call("Here", "Set", &[mf(2.0)]).unwrap();
    assert_eq!(h.env.get("Root.Demo.Output"), Some(&mf(1.0)));
    assert_eq!(h.env.get("Root.Demo.Speed"), Some(&mf(2.0)));
}

#[test]
fn a_project_call_takes_the_project_stub_on_any_receiver() {
    let mut h = Harness::new();
    let mut ask = |method: &str| {
        h.with(EvalTime::at_start(double(0.01)), |ctx| {
            let receiver = ResolvedReceiver::Library {
                object: "System".to_string(),
            };
            let site = CallSite::new("Demo.Update.m1scr", 0);
            match project_object_call(receiver, "System", method, &[], site, ctx)? {
                HardwareStep::Ask(call) => settle(call, AdapterReply::Unhandled, ctx),
                HardwareStep::Done(value) => Ok(value),
            }
        })
    };
    assert_eq!(ask("Receive"), Ok(Value::Bool(false)));
    assert_eq!(ask("TxOpen"), Ok(Value::m1_unsigned(0)));
    // The clock belongs to the library's route.
    assert_eq!(
        ask("Ticks"),
        Err(EvalError::UnsupportedBuiltin {
            object: "System".to_string(),
            method: "Ticks".to_string(),
        })
    );
}

#[test]
fn messages_of_calls_name_their_arguments() {
    let mut h = Harness::new();
    let bad = |text: &str| {
        Err(EvalError::BadCall {
            detail: text.to_string(),
        })
    };
    assert_eq!(h.call("Map", "Get", &[]), bad("Map.Get expects 1 site argument, got 0"));
    assert_eq!(
        h.call("Map", "Get", &[Value::m1_integer(-1)]),
        bad("Map.Get site must be a non-negative M1 integer, got M1(Integer(-1))")
    );
    assert_eq!(
        h.call("Map", "Get", &[Value::m1_integer(9)]),
        bad("Map.Get site 9 out of range for a 4-cell table body")
    );
    for (method, args, text) in [
        ("TicksSince", vec![], "System.TicksSince is missing argument 1"),
        ("TicksBetween", vec![Value::m1_unsigned(1)], "System.TicksBetween is missing argument 2"),
        ("TicksRemaining", vec![], "System.TicksRemaining is missing argument 2"),
    ] {
        assert_eq!(h.call("System", method, &args), bad(text), "{method}");
    }
    assert_eq!(
        h.call("System", "TicksBetween", &[Value::Bool(true), Value::Bool(false)]),
        Err(EvalError::TypeError {
            detail: "System.TicksBetween argument 2 expects M1 UnsignedInteger, got Bool(false)"
                .to_string(),
        })
    );
    let mut callers = Harness::callers();
    assert_eq!(
        callers.enter("Root.Helper.Compute", &[]),
        Err(EvalError::BadCall {
            detail: "user function \"Root.Helper.Compute\" expects 1 argument(s), got 0".to_string(),
        })
    );
    assert_eq!(
        callers.enter("Root.Helper.FixedEcho", &[Value::Bool(true)]),
        Err(EvalError::TypeError {
            detail: "Root.Helper.FixedEcho.In.x expects M1 FixedPoint7dps, got Bool(true)"
                .to_string(),
        })
    );
    match callers.enter("Root.Recur.Loop", &[mf(1.0)]).unwrap_err().root_cause() {
        EvalError::UnsupportedConstruct { kind, at: 0 } => assert_eq!(
            kind,
            "recursive user-function call (depth 64 exceeded) into \"Root.Recur.Loop\""
        ),
        other => panic!("expected the depth to be bounded, got {other:?}"),
    }
    let mut objects = Harness::objects();
    let refused = objects.with(EvalTime::at_start(double(0.01)), |ctx| {
        as_integer("Drive State.Off", ctx)
    });
    assert_eq!(
        refused,
        Err(EvalError::TypeError {
            detail: "\"Off\" is not a member of enum \"Drive State\"".to_string(),
        })
    );
}

#[test]
fn system_model_metadata_and_generic_stubs_use_distinct_buckets() {
    let scripts = scripts_from(
        "local elapsed = System.ElapsedTime();\nlocal flash = System.FlashSize();\n\
         local can = CanComms.GetFloat(1u, 2);\n",
    );
    let report = CoverageReport::analyse(&scripts, &catalog());
    assert!(has(&report.adapter_backed, "System.FlashSize"), "{report:?}");
    assert!(has(&report.stubbed, "CanComms.GetFloat"), "{report:?}");
}

#[test]
fn a_plan_hands_the_logged_series_on() {
    let mut engine = engine(&[]);
    engine.load_log("run.csv", text("time,x,y\n0,1,2\n1,3,4\n")).expect("log loads");
    let plan = engine.plan_counterfactual().expect("a plan");
    assert!(plan.overrides.is_empty());
    let names: Vec<&str> = plan.inputs.iter().map(|s| s.channel.as_str()).collect();
    assert_eq!(names, ["x", "y"]);
    engine.override_channel("x=5").expect("an override");
    let plan = engine.plan_counterfactual().expect("a plan");
    assert_eq!((plan.inputs.len(), plan.overrides.len()), (2, 1));
}

#[test]
fn substituted_inputs_are_recorded_with_their_first_reader() {
    let mut h = Harness::new();
    h.env.default_unseeded_channels = true;
    let mut speed = symbol(SymbolKind::Channel, ValueType::Float);
    speed.startup = Some(mf(1.5));
    h.project.symbols.insert("Root.Demo.Speed".to_string(), speed);
    let read = |h: &mut Harness| {
        h.with(EvalTime::at_start(double(0.01)), |ctx| read_symbol("Root.Demo.Speed", ctx))
    };
    assert_eq!(read(&mut h), Ok(mf(1.5)));
    h.script = "Demo.Later.m1scr";
    assert_eq!(read(&mut h), Ok(mf(1.5)));
    assert_eq!(h.trace.defaulted.len(), 1);
    let (path, taken) = h.trace.defaulted.at(0);
    assert_eq!((path.as_str(), &taken.value), ("Root.Demo.Speed", &mf(1.5)));
    assert_eq!(taken.first_reader, "Demo.Update.m1scr");
    assert!(h.trace.is_external("Root.Demo.Speed"));
}
