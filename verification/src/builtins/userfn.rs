//! Calls of user functions.
//!
//! A user function is a project function or method with a script. A call switches
//! frames: [`enter`] saves the caller's frame and binds the parameters as the
//! locals `In.<name>`; the script is then executed; [`leave`] reads the return
//! object and restores the caller's frame, also where the script failed. Channel
//! values, `static local` variables and operator state are not part of a frame.

use crate::coerce::{
    coerce_for_declared_type, coerce_for_scalar_kind, kind_fault, to_kind, to_type, type_fault,
};
use crate::context::{EvalCtx, ParamKind};
use crate::env::Env;
use crate::error::{is_type_error, EvalError};
use crate::float::binary64::F64;
use crate::map::TextMap;
use crate::project::{
    borrow_text, classify, resolved, script_function, script_group, str_of, text_of, Project,
    Symbol, SymbolKind, Target, TargetView,
};
use crate::text::{decimal, decimal_text, enclosed, joined, quoted, quoted_text, same};
use crate::trace::Trace;
use crate::value::{M1ScalarKind, Value, ValueType};
use vstd::prelude::*;
use vstd::string::*;

verus! {

/// How deep user functions may call each other.
pub const MAX_CALL_DEPTH: u32 = 64;

/// A user function that is being executed, with the frame that it was called from.
#[derive(Debug)]
pub struct UserCall {
    /// The canonical path of the function.
    pub function: String,
    /// The script to execute.
    pub script: String,
    /// The instant of the call, or `None` before the first tick.
    pub t: Option<F64>,
    /// The caller's locals.
    pub locals: TextMap<Value>,
    /// The caller's return object.
    pub out: Option<Value>,
    /// The caller's group.
    pub group: Option<String>,
    /// The caller's function.
    pub fn_symbol: Option<String>,
    /// The caller's script.
    pub script_name: String,
    /// The caller's depth.
    pub depth: u32,
}

impl UserCall {
    /// Whether the saved frame is that of a context.
    pub open spec fn holds_frame_of(self, ctx: EvalCtx) -> bool {
        &&& self.locals@ == ctx.env.locals@
        &&& self.out == ctx.env.out
        &&& self.group == ctx.group
        &&& self.fn_symbol == ctx.fn_symbol
        &&& self.script_name@ == ctx.script_name@
        &&& self.depth == ctx.depth
    }
}

/// The first of the given scripts that is the body of a function.
pub open spec fn body_of(project: Project, scripts: Seq<String>, function: Seq<char>) -> Option<Seq<char>>
    decreases scripts.len(),
{
    if scripts.len() == 0 {
        None
    } else if script_function(project.scripts@, scripts[0]@) == Some(function) {
        Some(scripts[0]@)
    } else {
        body_of(project, scripts.drop_first(), function)
    }
}

/// The script that is the body of a function.
pub fn backing_script(project: &Project, scripts: &Vec<String>, function: &str) -> (r: Option<String>)
    ensures
        match body_of(*project, scripts@, function@) {
            Some(s) => r matches Some(x) && x@ == s,
            None => r is None,
        },
{
    let mut i: usize = 0;
    let ghost all = scripts@;
    assert(all.skip(0) =~= all);
    while i < scripts.len()
        invariant
            i <= all.len(),
            all == scripts@,
            body_of(*project, all, function@) == body_of(*project, all.skip(i as int), function@),
        decreases all.len() - i,
    {
        assert(all.skip(i as int)[0] == all[i as int]);
        assert(all.skip(i as int).drop_first() =~= all.skip(i + 1));
        match project.function_symbol_for_script(scripts[i].as_str()) {
            Some(f) => {
                if same(f, function) {
                    return Some(scripts[i].clone());
                }
            },
            None => {},
        }
        i = i + 1;
    }
    None
}

/// The script-backed user function that a callee names.
pub open spec fn user_function(
    project: Project,
    scripts: Seq<String>,
    group: Option<Seq<char>>,
    function: Option<Seq<char>>,
    locals: Map<Seq<char>, Value>,
    callee: Seq<char>,
) -> Option<Seq<char>> {
    match resolved(project, callee, group, function, locals) {
        TargetView::Symbol(canon) => if project.symbols@.contains_key(canon) && (
        project.symbols@[canon].kind is Function || project.symbols@[canon].kind is Method)
            && body_of(project, scripts, canon) is Some {
            Some(canon)
        } else {
            None
        },
        _ => None,
    }
}

/// The script-backed user function that a callee names.
pub fn script_backed_user_function(
    project: &Project,
    scripts: &Vec<String>,
    group: Option<&str>,
    function: Option<&str>,
    locals: &TextMap<Value>,
    callee: &str,
) -> (r: Option<String>)
    ensures
        match user_function(
            *project,
            scripts@,
            str_of(group),
            str_of(function),
            locals@,
            callee@,
        ) {
            Some(s) => r matches Some(x) && x@ == s,
            None => r is None,
        },
{
    match classify(callee, group, function, project, locals) {
        Target::Symbol(canon) => {
            let is_function = match project.symbols.get(canon.as_str()) {
                Some(s) => match s.kind {
                    SymbolKind::Function | SymbolKind::Method => true,
                    _ => false,
                },
                None => false,
            };
            if is_function && backing_script(project, scripts, canon.as_str()).is_some() {
                Some(canon)
            } else {
                None
            }
        },
        _ => None,
    }
}

/// The declared family of a parameter.
pub open spec fn param_kind(s: Seq<ParamKind>, function: Seq<char>, param: Seq<char>) -> Option<M1ScalarKind>
    decreases s.len(),
{
    if s.len() == 0 {
        None
    } else if s[0].function@ == function && s[0].param@ == param {
        Some(s[0].kind)
    } else {
        param_kind(s.drop_first(), function, param)
    }
}

fn find_param_kind(s: &Vec<ParamKind>, function: &str, param: &str) -> (r: Option<M1ScalarKind>)
    ensures
        r == param_kind(s@, function@, param@),
{
    let mut i: usize = 0;
    let ghost all = s@;
    assert(all.skip(0) =~= all);
    while i < s.len()
        invariant
            i <= all.len(),
            all == s@,
            param_kind(all, function@, param@) == param_kind(
                all.skip(i as int),
                function@,
                param@,
            ),
        decreases all.len() - i,
    {
        assert(all.skip(i as int)[0] == all[i as int]);
        assert(all.skip(i as int).drop_first() =~= all.skip(i + 1));
        if same(s[i].function.as_str(), function) && same(s[i].param.as_str(), param) {
            return Some(s[i].kind);
        }
        i = i + 1;
    }
    None
}

/// An argument as its parameter stores it.
pub open spec fn bound_argument(
    kinds: Seq<ParamKind>,
    function: Seq<char>,
    param: (String, ValueType),
    value: Value,
) -> Option<Value> {
    match param_kind(kinds, function, param.0@) {
        Some(kind) => to_kind(value, kind),
        None => to_type(value, param.1),
    }
}

/// What is wrong with an argument that does not fit its parameter.
pub open spec fn argument_fault(
    kinds: Seq<ParamKind>,
    function: Seq<char>,
    param: (String, ValueType),
    value: Value,
) -> Seq<char> {
    let key = function + ".In."@ + param.0@;
    match param_kind(kinds, function, param.0@) {
        Some(kind) => kind_fault(key, value, kind),
        None => type_fault(key, value, param.1),
    }
}

/// The locals that the first `n` arguments bind, or what is wrong with the first that does
/// not fit its parameter.
pub open spec fn bound_locals(
    kinds: Seq<ParamKind>,
    function: Seq<char>,
    params: Seq<(String, ValueType)>,
    args: Seq<Value>,
    n: nat,
) -> Result<Map<Seq<char>, Value>, Seq<char>>
    decreases n,
{
    if n == 0 {
        Ok(Map::empty())
    } else {
        let i = n - 1;
        match (
            bound_locals(kinds, function, params, args, i as nat),
            bound_argument(kinds, function, params[i], args[i]),
        ) {
            (Err(fault), _) => Err(fault),
            (Ok(_), None) => Err(argument_fault(kinds, function, params[i], args[i])),
            (Ok(m), Some(v)) => Ok(m.insert("In."@ + params[i].0@, v)),
        }
    }
}

proof fn lemma_binding_fails(
    kinds: Seq<ParamKind>,
    function: Seq<char>,
    params: Seq<(String, ValueType)>,
    args: Seq<Value>,
    i: nat,
    n: nat,
)
    requires
        i <= n,
        bound_locals(kinds, function, params, args, i) is Err,
    ensures
        bound_locals(kinds, function, params, args, n) == bound_locals(
            kinds,
            function,
            params,
            args,
            i,
        ),
    decreases n - i,
{
    if i < n {
        lemma_binding_fails(kinds, function, params, args, i + 1, n);
    }
}

/// What a call of a user function comes to before its script is executed.
pub enum Entry {
    /// The callee is no script-backed user function.
    Absent,
    /// The argument count is not that of the signature: the function and its count.
    BadArity(Seq<char>, nat),
    /// The call of a function is nested too deep.
    TooDeep(Seq<char>),
    /// An argument does not fit its parameter, with what is wrong.
    Mismatch(Seq<char>),
    /// The function is entered, with its path, its script and its locals.
    Enter(Seq<char>, Seq<char>, Map<Seq<char>, Value>),
}

/// What a call of a user function comes to before its script is executed. A
/// function without a signature takes any arguments and binds none.
pub open spec fn entry(ctx: EvalCtx, callee: Seq<char>, args: Seq<Value>) -> Entry {
    match user_function(
        *ctx.project,
        ctx.scripts@,
        text_of(ctx.group),
        text_of(ctx.fn_symbol),
        ctx.env.locals@,
        callee,
    ) {
        None => Entry::Absent,
        Some(canon) => {
            let script = body_of(*ctx.project, ctx.scripts@, canon)->Some_0;
            let params = ctx.project.symbols@[canon].in_params;
            if params is Some && params->Some_0.len() != args.len() {
                Entry::BadArity(canon, params->Some_0.len() as nat)
            } else if ctx.depth >= MAX_CALL_DEPTH {
                Entry::TooDeep(canon)
            } else {
                match params {
                    None => Entry::Enter(canon, script, Map::empty()),
                    Some(p) => match bound_locals(
                        ctx.signature_types@,
                        canon,
                        p@,
                        args,
                        args.len(),
                    ) {
                        Ok(m) => Entry::Enter(canon, script, m),
                        Err(fault) => Entry::Mismatch(fault),
                    },
                }
            }
        },
    }
}

/// The instant of the open tick.
pub open spec fn instant(trace: Option<Trace>) -> Option<F64> {
    match trace {
        Some(t) => if t.time.len() > 0 {
            Some(t.time@.last())
        } else {
            None
        },
        None => None,
    }
}

fn current_instant(trace: &Option<Trace>) -> (r: Option<F64>)
    ensures
        r == instant(*trace),
{
    match trace {
        Some(t) => {
            if t.time.len() > 0 {
                Some(t.time[t.time.len() - 1])
            } else {
                None
            }
        },
        None => None,
    }
}

/// Binds the arguments of a call.
fn bind_arguments(
    kinds: &Vec<ParamKind>,
    function: &str,
    params: &Vec<(String, ValueType)>,
    args: &[Value],
) -> (r: Result<TextMap<Value>, EvalError>)
    requires
        params.len() == args.len(),
    ensures
        match bound_locals(kinds@, function@, params@, args@, args@.len()) {
            Ok(m) => r matches Ok(t) && t@ == m,
            Err(fault) => r matches Err(e) && is_type_error(e, fault),
        },
{
    let mut locals: TextMap<Value> = TextMap::new();
    let mut i: usize = 0;
    while i < args.len()
        invariant
            i <= args.len() == params.len(),
            bound_locals(kinds@, function@, params@, args@, i as nat) == Ok::<
                Map<Seq<char>, Value>,
                Seq<char>,
            >(locals@),
        decreases args.len() - i,
    {
        let p = &params[i];
        let key: String = enclosed(function, ".In.", p.0.as_str());
        let bound = match find_param_kind(kinds, function, p.0.as_str()) {
            Some(kind) => coerce_for_scalar_kind(key.as_str(), args[i].duplicate(), kind),
            None => coerce_for_declared_type(key.as_str(), args[i].duplicate(), p.1),
        };
        match bound {
            Ok(v) => {
                locals.insert(joined("In.", p.0.as_str()), v);
            },
            Err(e) => {
                proof {
                    assert(bound_locals(kinds@, function@, params@, args@, (i + 1) as nat) is Err);
                    lemma_binding_fails(
                        kinds@,
                        function@,
                        params@,
                        args@,
                        (i + 1) as nat,
                        args@.len(),
                    );
                }
                return Err(e);
            },
        }
        i = i + 1;
    }
    Ok(locals)
}

/// Why an argument count does not fit a function.
pub open spec fn arity_text(canon: Seq<char>, wanted: nat, given: nat) -> Seq<char> {
    "user function "@ + quoted_text(canon) + " expects "@ + decimal(wanted) + " argument(s), got "@
        + decimal(given)
}

/// Why a function is not entered once more.
pub open spec fn depth_text(canon: Seq<char>) -> Seq<char> {
    "recursive user-function call (depth 64 exceeded) into "@ + quoted_text(canon)
}

/// Whether a result and a context are those of entering a user function.
pub open spec fn enters(
    before: EvalCtx,
    after: EvalCtx,
    callee: Seq<char>,
    args: Seq<Value>,
    r: Result<Option<UserCall>, EvalError>,
) -> bool {
    match entry(before, callee, args) {
            Entry::Absent => (r matches Ok(None)) && after == before,
            Entry::BadArity(canon, n) => (r matches Err(EvalError::BadCall { detail }) && detail@
                == arity_text(canon, n, args.len())) && after == before,
            Entry::TooDeep(canon) => (r matches Err(EvalError::UnsupportedConstruct { kind, at })
                && at == 0 && kind@ == depth_text(canon)) && after == before,
            Entry::Mismatch(fault) => (r matches Err(e) && is_type_error(e, fault)) && after == before,
            Entry::Enter(canon, script, locals) => {
                &&& r matches Ok(Some(call)) && call.holds_frame_of(before) && call.function@
                    == canon && call.script@ == script && call.t == instant(before.trace)
                &&& after.env.locals@ == locals
                &&& after.env == (Env {
                    locals: after.env.locals,
                    out: None,
                    ..before.env
                })
                &&& text_of(after.group) == script_group(before.project.scripts@, script)
                &&& text_of(after.fn_symbol) == Some(canon)
                &&& after.script_name@ == script
                &&& after.depth == before.depth + 1
                &&& after == (EvalCtx {
                    env: after.env,
                    group: after.group,
                    fn_symbol: after.fn_symbol,
                    script_name: after.script_name,
                    depth: after.depth,
                    ..before
                })
            },
        }
}

/// Enters a user function, or gives `None` where the callee is none. On an error
/// the caller's frame is untouched.
pub fn enter(callee: &str, args: &[Value], ctx: &mut EvalCtx) -> (r: Result<Option<UserCall>, EvalError>)
    ensures
        enters(*old(ctx), *final(ctx), callee@, args@, r),
{
    let canon: String = match script_backed_user_function(
        ctx.project,
        ctx.scripts,
        borrow_text(&ctx.group),
        borrow_text(&ctx.fn_symbol),
        &ctx.env.locals,
        callee,
    ) {
        Some(c) => c,
        None => return Ok(None),
    };
    let project: &Project = ctx.project;
    let script: String = match backing_script(project, ctx.scripts, canon.as_str()) {
        Some(s) => s,
        None => return Ok(None),
    };
    let symbol: &Symbol = match project.symbols.get(canon.as_str()) {
        Some(s) => s,
        None => return Ok(None),
    };
    match &symbol.in_params {
        Some(params) => {
            if params.len() != args.len() {
                let name = quoted(canon.as_str());
                let wanted = decimal_text(params.len() as u64);
                let given = decimal_text(args.len() as u64);
                let detail = joined("user function ", name.as_str()).concat(" expects ").concat(
                    wanted.as_str(),
                ).concat(" argument(s), got ").concat(given.as_str());
                return Err(EvalError::BadCall { detail });
            }
        },
        None => {},
    }
    if ctx.depth >= MAX_CALL_DEPTH {
        let name = quoted(canon.as_str());
        return Err(
            EvalError::UnsupportedConstruct {
                kind: joined(
                    "recursive user-function call (depth 64 exceeded) into ",
                    name.as_str(),
                ),
                at: 0,
            },
        );
    }
    let mut locals: TextMap<Value> = match &symbol.in_params {
        Some(params) => bind_arguments(ctx.signature_types, canon.as_str(), params, args)?,
        None => TextMap::new(),
    };
    let t = current_instant(&ctx.trace);
    let mut group: Option<String> = match project.group_for_script(script.as_str()) {
        Some(g) => Some(g.to_owned()),
        None => None,
    };
    let mut fn_symbol: Option<String> = Some(canon.clone());
    let mut script_name: String = script.clone();
    let mut out: Option<Value> = None;
    core::mem::swap(&mut ctx.env.locals, &mut locals);
    core::mem::swap(&mut ctx.env.out, &mut out);
    core::mem::swap(&mut ctx.group, &mut group);
    core::mem::swap(&mut ctx.fn_symbol, &mut fn_symbol);
    core::mem::swap(&mut ctx.script_name, &mut script_name);
    let depth: u32 = ctx.depth;
    ctx.depth = depth + 1;
    Ok(
        Some(
            UserCall { function: canon, script, t, locals, out, group, fn_symbol, script_name, depth },
        ),
    )
}

/// Leaves a user function: gives its return object, or the unit value where it
/// set none, and restores the caller's frame. An error of the script names the
/// script, unless a deeper one is named already.
pub fn leave(call: UserCall, outcome: Result<(), EvalError>, ctx: &mut EvalCtx) -> (r: Result<
    Value,
    EvalError,
>)
    ensures
        call.holds_frame_of(*final(ctx)),
        final(ctx).env == (Env {
            locals: final(ctx).env.locals,
            out: final(ctx).env.out,
            ..old(ctx).env
        }),
        *final(ctx) == (EvalCtx {
            env: final(ctx).env,
            group: final(ctx).group,
            fn_symbol: final(ctx).fn_symbol,
            script_name: final(ctx).script_name,
            depth: final(ctx).depth,
            ..*old(ctx)
        }),
        match outcome {
            Ok(_) => r == Ok::<Value, EvalError>(
                match old(ctx).env.out {
                    Some(v) => v,
                    None => Value::Bool(true),
                },
            ),
            Err(e) => r matches Err(f) && f.root() == e.root() && (if e is InScript {
                f == e
            } else {
                f matches EvalError::InScript { script, t, source } && script@ == call.script@ && t
                    == call.t && *source == e
            }),
        },
{
    let mut out: Option<Value> = call.out;
    core::mem::swap(&mut ctx.env.out, &mut out);
    ctx.env.locals = call.locals;
    ctx.group = call.group;
    ctx.fn_symbol = call.fn_symbol;
    ctx.script_name = call.script_name;
    ctx.depth = call.depth;
    match outcome {
        Ok(_) => match out {
            Some(v) => Ok(v),
            None => Ok(Value::Bool(true)),
        },
        Err(e) => {
            let f = e.in_script(call.script.as_str(), call.t);
            Err(f)
        },
    }
}

} // verus!
