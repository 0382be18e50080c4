//! What the scripts of a project use, and how well each use is supported.
//!
//! Every call is resolved with the capability rules that dispatch goes by. Every
//! statement that a user would recognise is reported as well. Uses with one name
//! are one item, which is filed under the weakest support among them.

use crate::builtins::{
    classify_bare_call, classify_member_call, free_capability, project_call_capability,
    BuiltinSupport, CapabilityScope,
};
use crate::builtins::userfn::user_function;
use crate::catalog::Intrinsics;
use crate::float::binary64::F64;
use crate::loader::Loaded;
use crate::map::{in_order, lemma_map_of, map_of, TextMap};
use crate::project::{dotted, dotted_text, script_function, script_group, str_of, Project};
use crate::syntax::{NodeField, NodeKind, ParsedScript, SyntaxNode};
use crate::text::{
    before, comes_before, lemma_before_total, lemma_before_transitive, same, trim, trimmed,
};
use crate::triggers::{TriggerMap, TriggerStatus};
use crate::value::Value;
use vstd::prelude::*;
use vstd::string::*;

verus! {

/// Whether an item is a builtin call or a language construct.
#[derive(Debug, Clone, Copy, PartialEq, Eq, Structural)]
pub enum ItemKind {
    /// A call.
    Builtin,
    /// A statement.
    Construct,
}

/// One thing that scripts use.
#[derive(Debug, PartialEq, Eq)]
pub struct CoverageItem {
    /// What is used.
    pub name: String,
    /// Whether it is a call or a construct.
    pub kind: ItemKind,
}

/// A function whose trigger cannot be resolved.
#[derive(Debug, PartialEq, Eq)]
pub struct UnresolvedTrigger {
    /// The function.
    pub function: String,
    /// The trigger as selected.
    pub trigger: String,
    /// Why it cannot be resolved.
    pub reason: String,
}

/// One use in a script.
#[derive(Debug)]
pub struct Use {
    /// What is used.
    pub name: String,
    /// Whether it is a call or a construct.
    pub kind: ItemKind,
    /// How it is supported.
    pub support: BuiltinSupport,
}

/// The content of a [`Use`].
pub type UseView = (Seq<char>, ItemKind, BuiltinSupport);

impl View for Use {
    type V = UseView;

    open spec fn view(&self) -> UseView {
        (self.name@, self.kind, self.support)
    }
}

/// The contents of uses.
pub open spec fn uses_view(uses: Seq<Use>) -> Seq<UseView> {
    uses.map_values(|u: Use| u@)
}

/// What the walk of a script depends on.
pub struct WalkCtx<'a> {
    /// The project, if one is loaded.
    pub project: Option<&'a Project>,
    /// The group of the script.
    pub group: Option<&'a str>,
    /// The function of the script.
    pub fn_symbol: Option<&'a str>,
    /// The names of the scripts that can be executed.
    pub scripts: &'a Vec<String>,
    /// The builtin signatures.
    pub catalog: &'a Intrinsics,
}

/// The content of a [`WalkCtx`].
pub struct Surroundings {
    /// The project, if one is loaded.
    pub project: Option<Project>,
    /// The group of the script.
    pub group: Option<Seq<char>>,
    /// The function of the script.
    pub fn_symbol: Option<Seq<char>>,
    /// The names of the scripts that can be executed.
    pub scripts: Seq<String>,
    /// The builtin signatures.
    pub catalog: Intrinsics,
}

/// The content of an optional project.
pub open spec fn project_of(p: Option<&Project>) -> Option<Project> {
    match p {
        Some(p) => Some(*p),
        None => None,
    }
}

impl<'a> View for WalkCtx<'a> {
    type V = Surroundings;

    open spec fn view(&self) -> Surroundings {
        Surroundings {
            project: project_of(self.project),
            group: str_of(self.group),
            fn_symbol: str_of(self.fn_symbol),
            scripts: self.scripts@,
            catalog: *self.catalog,
        }
    }
}

/// The locals that are declared so far.
pub type Locals = Map<Seq<char>, Value>;

/// How a call on an object is supported.
pub open spec fn member_support(
    cx: Surroundings,
    locals: Locals,
    object: Seq<char>,
    method: Seq<char>,
) -> BuiltinSupport {
    match cx.project {
        None => free_capability(cx.catalog, object, method).0,
        Some(project) => project_call_capability(
            project,
            cx.scripts,
            cx.catalog,
            cx.group,
            cx.fn_symbol,
            locals,
            object,
            method,
        ).0,
    }
}

/// How a call of a bare name is supported.
pub open spec fn bare_support(cx: Surroundings, locals: Locals, callee: Seq<char>) -> BuiltinSupport {
    match cx.project {
        None => BuiltinSupport::Unsupported,
        Some(project) => if user_function(
            project,
            cx.scripts,
            cx.group,
            cx.fn_symbol,
            locals,
            callee,
        ) is Some {
            BuiltinSupport::Direct
        } else {
            BuiltinSupport::Unsupported
        },
    }
}

/// The use that a node itself is, as a call.
pub open spec fn call_use(node: SyntaxNode, cx: Surroundings, locals: Locals) -> Option<UseView> {
    if node.kind is CallExpression {
        match node.by_field(NodeField::Function) {
            Some(callee) => match callee.kind {
                NodeKind::MemberExpression => match node.object_method() {
                    Some((o, m)) => Some(
                        (dotted(o, m), ItemKind::Builtin, member_support(cx, locals, o, m)),
                    ),
                    None => None,
                },
                NodeKind::Identifier => Some(
                    (callee.text@, ItemKind::Builtin, bare_support(cx, locals, callee.text@)),
                ),
                _ => None,
            },
            None => None,
        }
    } else {
        None
    }
}

/// Whether a node is a statement that a user would recognise. Each of them is supported.
pub open spec fn reportable(kind: NodeKind) -> bool {
    kind is AssignmentStatement || kind is ExpressionStatement || kind is LocalDeclaration
        || kind is IfStatement || kind is WhenStatement || kind is ExpandStatement
}

/// Whether a node is a statement that a user would recognise.
pub fn is_reportable_construct(kind: NodeKind) -> (r: bool)
    ensures
        r == reportable(kind),
{
    match kind {
        NodeKind::AssignmentStatement => true,
        NodeKind::ExpressionStatement => true,
        NodeKind::LocalDeclaration => true,
        NodeKind::IfStatement => true,
        NodeKind::WhenStatement => true,
        NodeKind::ExpandStatement => true,
        _ => false,
    }
}

/// The uses that a node itself is.
pub open spec fn own_uses(node: SyntaxNode, cx: Surroundings, locals: Locals) -> Seq<UseView> {
    let call = match call_use(node, cx, locals) {
        Some(u) => seq![u],
        None => Seq::empty(),
    };
    if reportable(node.kind) {
        call.push((node.kind_name@, ItemKind::Construct, BuiltinSupport::Direct))
    } else {
        call
    }
}

/// The locals after a node: a declaration adds its name, unless it is static.
pub open spec fn declared(node: SyntaxNode, locals: Locals) -> Locals {
    if node.kind is LocalDeclaration && !node.is_static() {
        match node.by_field(NodeField::Name) {
            Some(name) => locals.insert(trimmed(name.text@), Value::Bool(false)),
            None => locals,
        }
    } else {
        locals
    }
}

/// The uses in a node and the locals after it. A declaration takes effect after its
/// own parts.
pub open spec fn walked(node: SyntaxNode, cx: Surroundings, locals: Locals) -> (Seq<UseView>, Locals)
    decreases node, node.children@.len() + 1,
{
    let below = walked_below(node, node.children@.len(), cx, locals);
    (own_uses(node, cx, locals) + below.0, declared(node, below.1))
}

/// The uses in the first `n` children of a node and the locals after them.
pub open spec fn walked_below(node: SyntaxNode, n: nat, cx: Surroundings, locals: Locals) -> (
    Seq<UseView>,
    Locals,
)
    decreases node, n,
{
    if n == 0 || n > node.children@.len() {
        (Seq::empty(), locals)
    } else {
        let before = walked_below(node, (n - 1) as nat, cx, locals);
        if node.children@[n - 1].named {
            let here = walked(node.children@[n - 1], cx, before.1);
            (before.0 + here.0, here.1)
        } else {
            before
        }
    }
}

/// Adds the uses that a node itself is.
fn note_own(node: &SyntaxNode, cx: &WalkCtx, locals: &TextMap<Value>, uses: &mut Vec<Use>)
    ensures
        uses_view(final(uses)@) == uses_view(old(uses)@) + own_uses(*node, cx@, locals@),
{
    let ghost start = uses_view(uses@);
    if node.kind == NodeKind::CallExpression {
        if let Some(callee) = node.child_by_field(NodeField::Function) {
            let scope = CapabilityScope {
                project: cx.project,
                group: cx.group,
                fn_symbol: cx.fn_symbol,
                locals,
                scripts: cx.scripts,
                catalog: cx.catalog,
            };
            match callee.kind {
                NodeKind::MemberExpression => {
                    if let Some((object, method)) = node.call_object_method() {
                        let support = classify_member_call(
                            object.as_str(),
                            method.as_str(),
                            &scope,
                        ).support;
                        let name = dotted_text(object.as_str(), method.as_str());
                        uses.push(Use { name, kind: ItemKind::Builtin, support });
                    }
                },
                NodeKind::Identifier => {
                    let support = classify_bare_call(callee.text.as_str(), &scope).support;
                    uses.push(Use { name: callee.text.clone(), kind: ItemKind::Builtin, support });
                },
                _ => {},
            }
        }
    }
    proof {
        let call = match call_use(*node, cx@, locals@) {
            Some(u) => seq![u],
            None => Seq::empty(),
        };
        assert(uses_view(uses@) =~= start + call);
    }
    if is_reportable_construct(node.kind) {
        uses.push(
            Use {
                name: node.kind_name.clone(),
                kind: ItemKind::Construct,
                support: BuiltinSupport::Direct,
            },
        );
    }
    assert(uses_view(uses@) =~= start + own_uses(*node, cx@, locals@));
}

/// Adds the uses in a node, and its declarations to the locals.
pub fn walk(node: &SyntaxNode, cx: &WalkCtx, locals: &mut TextMap<Value>, uses: &mut Vec<Use>)
    ensures
        uses_view(final(uses)@) == uses_view(old(uses)@) + walked(*node, cx@, old(locals)@).0,
        final(locals)@ == walked(*node, cx@, old(locals)@).1,
    decreases *node,
{
    let ghost start = uses_view(uses@);
    let ghost scope = locals@;
    note_own(node, cx, locals, uses);
    let ghost own = own_uses(*node, cx@, scope);
    let mut i: usize = 0;
    assert(uses_view(uses@) =~= start + own + walked_below(*node, 0, cx@, scope).0);
    while i < node.children.len()
        invariant
            i <= node.children.len(),
            uses_view(uses@) == start + own + walked_below(*node, i as nat, cx@, scope).0,
            locals@ == walked_below(*node, i as nat, cx@, scope).1,
        decreases node.children.len() - i,
    {
        let child = &node.children[i];
        let ghost known = uses_view(uses@);
        let ghost held = walked_below(*node, i as nat, cx@, scope);
        if child.named {
            walk(child, cx, locals, uses);
            assert(start + own + (held.0 + walked(*child, cx@, held.1).0) =~= known + walked(
                *child,
                cx@,
                held.1,
            ).0);
        }
        i = i + 1;
    }
    assert(start + own + walked_below(*node, i as nat, cx@, scope).0 =~= start + walked(
        *node,
        cx@,
        scope,
    ).0);
    if node.kind == NodeKind::LocalDeclaration {
        if !node.has_static() {
            if let Some(name) = node.child_by_field(NodeField::Name) {
                locals.insert(trim(name.text.as_str()), Value::Bool(false));
            }
        }
    }
}

/// How weak a support is.
pub open spec fn weakness(s: BuiltinSupport) -> int {
    match s {
        BuiltinSupport::Direct => 0,
        BuiltinSupport::Modeled => 1,
        BuiltinSupport::Stubbed => 2,
        BuiltinSupport::AdapterBacked => 3,
        BuiltinSupport::Unsupported => 4,
    }
}

fn weakness_of(s: BuiltinSupport) -> (r: u8)
    ensures
        r == weakness(s),
{
    match s {
        BuiltinSupport::Direct => 0,
        BuiltinSupport::Modeled => 1,
        BuiltinSupport::Stubbed => 2,
        BuiltinSupport::AdapterBacked => 3,
        BuiltinSupport::Unsupported => 4,
    }
}

/// The weaker of a support and one that may be missing.
pub open spec fn weaker(a: Option<BuiltinSupport>, b: BuiltinSupport) -> BuiltinSupport {
    match a {
        Some(a) if weakness(a) > weakness(b) => a,
        _ => b,
    }
}

fn weaker_of(a: Option<BuiltinSupport>, b: BuiltinSupport) -> (r: BuiltinSupport)
    ensures
        r == weaker(a, b),
{
    match a {
        Some(a) => {
            if weakness_of(a) > weakness_of(b) {
                a
            } else {
                b
            }
        },
        None => b,
    }
}

/// The weakest support among the uses of an item.
pub open spec fn weakest(uses: Seq<UseView>, name: Seq<char>, kind: ItemKind) -> Option<BuiltinSupport>
    decreases uses.len(),
{
    if uses.len() == 0 {
        None
    } else {
        let rest = weakest(uses.drop_last(), name, kind);
        if uses.last().0 == name && uses.last().1 == kind {
            Some(weaker(rest, uses.last().2))
        } else {
            rest
        }
    }
}

/// An item is filed where some use of it is, and no use of it is weaker.
pub proof fn law_weakest_use_decides(uses: Seq<UseView>, name: Seq<char>, kind: ItemKind)
    ensures
        match weakest(uses, name, kind) {
            Some(s) => uses.contains((name, kind, s)) && forall|i: int|
                0 <= i < uses.len() && (#[trigger] uses[i]).0 == name && uses[i].1 == kind
                    ==> weakness(uses[i].2) <= weakness(s),
            None => forall|i: int|
                0 <= i < uses.len() ==> !((#[trigger] uses[i]).0 == name && uses[i].1 == kind),
        },
    decreases uses.len(),
{
    if uses.len() > 0 {
        let rest = uses.drop_last();
        law_weakest_use_decides(rest, name, kind);
        match weakest(uses, name, kind) {
            Some(s) => {
                if uses.last() == (name, kind, s) {
                    assert(uses[uses.len() - 1] == uses.last());
                } else {
                    let i = choose|i: int| 0 <= i < rest.len() && rest[i] == (name, kind, s);
                    assert(uses[i] == rest[i]);
                }
                assert forall|i: int|
                    0 <= i < uses.len() && (#[trigger] uses[i]).0 == name && uses[i].1
                        == kind implies weakness(uses[i].2) <= weakness(s) by {
                    if i < rest.len() {
                        assert(rest[i] == uses[i]);
                    }
                }
            },
            None => {
                assert forall|i: int| 0 <= i < uses.len() implies !((#[trigger] uses[i]).0 == name
                    && uses[i].1 == kind) by {
                    if i < rest.len() {
                        assert(rest[i] == uses[i]);
                    }
                }
            },
        }
    }
}

/// The weakest supports of a name, as a call and as a construct.
pub type Supports = (Option<BuiltinSupport>, Option<BuiltinSupport>);

/// The weakest supports of a name.
pub open spec fn supports(uses: Seq<UseView>, name: Seq<char>) -> Supports {
    (weakest(uses, name, ItemKind::Builtin), weakest(uses, name, ItemKind::Construct))
}

/// Whether a table holds the weakest supports of all names.
pub open spec fn is_tally(m: Map<Seq<char>, Supports>, uses: Seq<UseView>) -> bool {
    forall|k: Seq<char>|
        if #[trigger] m.contains_key(k) {
            m[k] == supports(uses, k)
        } else {
            supports(uses, k) == (None::<BuiltinSupport>, None::<BuiltinSupport>)
        }
}

fn tally(uses: &Vec<Use>) -> (r: TextMap<Supports>)
    ensures
        is_tally(r@, uses_view(uses@)),
{
    let mut r: TextMap<Supports> = TextMap::new();
    let ghost all = uses_view(uses@);
    let mut i: usize = 0;
    while i < uses.len()
        invariant
            i <= uses.len(),
            all == uses_view(uses@),
            is_tally(r@, all.take(i as int)),
        decreases uses.len() - i,
    {
        let u = &uses[i];
        let held: Supports = match r.get(u.name.as_str()) {
            Some(s) => *s,
            None => (None, None),
        };
        proof {
            assert(r@.contains_key(u.name@) || !r@.contains_key(u.name@));
            assert(held == supports(all.take(i as int), u.name@));
        }
        let next: Supports = match u.kind {
            ItemKind::Builtin => (Some(weaker_of(held.0, u.support)), held.1),
            ItemKind::Construct => (held.0, Some(weaker_of(held.1, u.support))),
        };
        let ghost known = r@;
        r.insert(u.name.clone(), next);
        proof {
            let t = all.take(i + 1);
            assert(t.drop_last() =~= all.take(i as int));
            assert(t.last() == u@);
            assert forall|k: Seq<char>|
                if #[trigger] r@.contains_key(k) {
                    r@[k] == supports(t, k)
                } else {
                    supports(t, k) == (None::<BuiltinSupport>, None::<BuiltinSupport>)
                } by {
                assert(known.contains_key(k) || !known.contains_key(k));
            }
        }
        i = i + 1;
    }
    assert(all.take(i as int) =~= all);
    r
}

/// Whether an item is listed.
pub open spec fn lists(items: Seq<CoverageItem>, name: Seq<char>, kind: ItemKind) -> bool {
    exists|i: int| 0 <= i < items.len() && (#[trigger] items[i]).name@ == name && items[i].kind == kind
}

/// Whether an item comes before another: by name, a call before a construct.
pub open spec fn item_before(a: CoverageItem, b: CoverageItem) -> bool {
    before(a.name@, b.name@) || (a.name@ == b.name@ && a.kind is Builtin && b.kind is Construct)
}

/// Whether a list holds, in order and once each, the items whose weakest use has a support.
pub open spec fn is_bucket(items: Seq<CoverageItem>, uses: Seq<UseView>, s: BuiltinSupport) -> bool {
    &&& forall|name: Seq<char>, kind: ItemKind| #[trigger]
        lists(items, name, kind) == (weakest(uses, name, kind) == Some(s))
    &&& forall|i: int, j: int|
        0 <= i < j < items.len() ==> item_before(#[trigger] items[i], #[trigger] items[j])
}

fn bucket(tally: &TextMap<Supports>, s: BuiltinSupport, Ghost(uses): Ghost<Seq<UseView>>) -> (r: Vec<
    CoverageItem,
>)
    requires
        is_tally(tally@, uses),
    ensures
        is_bucket(r@, uses, s),
{
    let n: usize = tally.len();
    let ghost all = tally.items();
    let mut r: Vec<CoverageItem> = Vec::new();
    let mut i: usize = 0;
    while i < n
        invariant
            i <= n == all.len(),
            all == tally.items(),
            in_order(all),
            tally@ == map_of(all),
            is_tally(tally@, uses),
            forall|j: int|
                0 <= j < r@.len() ==> weakest(uses, (#[trigger] r@[j]).name@, r@[j].kind) == Some(s),
            forall|j: int| 0 <= j < r@.len() ==> among((#[trigger] r@[j]).name@, all, i as int),
            forall|j: int, kind: ItemKind|
                0 <= j < i && #[trigger] weakest(uses, all[j].0@, kind) == Some(s) ==> lists(
                    r@,
                    all[j].0@,
                    kind,
                ),
            forall|a: int, b: int|
                0 <= a < b < r@.len() ==> item_before(#[trigger] r@[a], #[trigger] r@[b]),
        decreases n - i,
    {
        let e = tally.at(i);
        proof {
            lemma_map_of(all, i as int);
            assert(tally@.contains_key(e.0@));
            assert(e.1 == supports(uses, e.0@));
        }
        let ghost start = r@;
        let first = match e.1.0 {
            Some(x) => x == s,
            None => false,
        };
        if first {
            r.push(CoverageItem { name: e.0.clone(), kind: ItemKind::Builtin });
        }
        let second = match e.1.1 {
            Some(x) => x == s,
            None => false,
        };
        if second {
            r.push(CoverageItem { name: e.0.clone(), kind: ItemKind::Construct });
        }
        proof {
            let name = e.0@;
            assert(first == (weakest(uses, name, ItemKind::Builtin) == Some(s)));
            assert(second == (weakest(uses, name, ItemKind::Construct) == Some(s)));
            assert forall|j: int| 0 <= j < start.len() implies r@[j] == start[j] by {}
            assert forall|j: int| 0 <= j < r@.len() implies among(
                (#[trigger] r@[j]).name@,
                all,
                i + 1,
            ) by {
                if j < start.len() {
                    assert(among(start[j].name@, all, i as int));
                    let m = choose|m: int| 0 <= m < i && #[trigger] all[m].0@ == start[j].name@;
                    assert(all[m].0@ == r@[j].name@);
                } else {
                    assert(all[i as int].0@ == r@[j].name@);
                }
            }
            assert forall|j: int, kind: ItemKind|
                0 <= j < i + 1 && #[trigger] weakest(uses, all[j].0@, kind) == Some(
                    s,
                ) implies lists(r@, all[j].0@, kind) by {
                if j < i {
                    assert(lists(start, all[j].0@, kind));
                    let m = choose|m: int|
                        0 <= m < start.len() && (#[trigger] start[m]).name@ == all[j].0@
                            && start[m].kind == kind;
                    assert(r@[m].name@ == all[j].0@ && r@[m].kind == kind);
                } else if kind is Builtin {
                    assert(r@[start.len() as int].name@ == name);
                } else {
                    assert(r@[r@.len() - 1].name@ == name);
                }
            }
            assert forall|a: int, b: int| 0 <= a < b < r@.len() implies item_before(
                #[trigger] r@[a],
                #[trigger] r@[b],
            ) by {
                if b < start.len() {
                    assert(item_before(start[a], start[b]));
                } else if a < start.len() {
                    assert(among(start[a].name@, all, i as int));
                    let m = choose|m: int| 0 <= m < i && #[trigger] all[m].0@ == start[a].name@;
                    assert(before(all[m].0@, all[i as int].0@));
                }
            }
        }
        i = i + 1;
    }
    proof {
        assert forall|name: Seq<char>, kind: ItemKind| #[trigger]
            lists(r@, name, kind) == (weakest(uses, name, kind) == Some(s)) by {
            if weakest(uses, name, kind) == Some(s) {
                assert(tally@.contains_key(name)) by {
                    if !tally@.contains_key(name) {
                        assert(supports(uses, name) == (None::<BuiltinSupport>, None::<BuiltinSupport>));
                    }
                }
                let j = choose|j: int| 0 <= j < all.len() && #[trigger] all[j].0@ == name;
                assert(weakest(uses, all[j].0@, kind) == Some(s));
            }
        }
    }
    r
}

/// Whether a name is among the keys of the first `n` entries.
pub open spec fn among<V>(name: Seq<char>, entries: Seq<(String, V)>, n: int) -> bool {
    exists|m: int| 0 <= m < n && #[trigger] entries[m].0@ == name
}

/// A function and its rate.
pub type EntryView = (Seq<char>, Option<F64>);

/// The contents of a schedule.
pub open spec fn schedule_view(s: Seq<(String, Option<F64>)>) -> Seq<EntryView> {
    s.map_values(|e: (String, Option<F64>)| (e.0@, e.1))
}

/// The rate of a function: by its trigger, and without triggers by its symbol.
pub open spec fn function_rate(project: Project, triggers: Option<TriggerMap>, function: Seq<char>) -> Option<
    F64,
> {
    match triggers {
        Some(t) => t.rate_of(function),
        None => if project.symbols@.contains_key(function) {
            project.symbols@[function].call_rate_hz
        } else {
            None
        },
    }
}

/// The entries of the first `n` scripts that back a function.
pub open spec fn schedule_entries(
    scripts: Seq<ParsedScript>,
    project: Project,
    triggers: Option<TriggerMap>,
    n: nat,
) -> Seq<EntryView>
    decreases n,
{
    if n == 0 {
        Seq::empty()
    } else {
        let rest = schedule_entries(scripts, project, triggers, (n - 1) as nat);
        match script_function(project.scripts@, scripts[n - 1].name@) {
            Some(f) => rest.push((f, function_rate(project, triggers, f))),
            None => rest,
        }
    }
}

/// The number that a rate is ordered by; the least one where there is no rate.
pub open spec fn rate_key(rate: Option<F64>) -> F64 {
    match rate {
        Some(hz) => hz,
        None => F64 { bits: 0xfff0_0000_0000_0000 },
    }
}

/// Whether an entry comes before another: the faster first, then by name.
pub open spec fn runs_before(a: EntryView, b: EntryView) -> bool {
    if rate_key(b.1).less(rate_key(a.1)) {
        true
    } else if rate_key(a.1).less(rate_key(b.1)) {
        false
    } else {
        before(a.0, b.0)
    }
}

/// Whether no rate is a NaN.
pub open spec fn rates_ordered(s: Seq<EntryView>) -> bool {
    forall|i: int| 0 <= i < s.len() ==> !rate_key((#[trigger] s[i]).1).is_nan()
}

/// Whether entries stand in order.
pub open spec fn in_schedule_order(s: Seq<EntryView>) -> bool {
    forall|i: int, j: int| 0 <= i < j < s.len() ==> !runs_before(#[trigger] s[j], #[trigger] s[i])
}

proof fn lemma_runs_before(a: EntryView, b: EntryView, c: EntryView)
    requires
        !rate_key(a.1).is_nan(),
        !rate_key(b.1).is_nan(),
        !rate_key(c.1).is_nan(),
        runs_before(a, b),
        runs_before(b, c),
    ensures
        runs_before(a, c),
        !runs_before(b, a),
{
    if before(a.0, b.0) && before(b.0, c.0) {
        lemma_before_transitive(a.0, b.0, c.0);
    }
    lemma_before_total(a.0, b.0);
}

proof fn lemma_runs_before_once(a: EntryView, b: EntryView)
    requires
        !rate_key(a.1).is_nan(),
        !rate_key(b.1).is_nan(),
        runs_before(a, b),
    ensures
        !runs_before(b, a),
{
    lemma_before_total(a.0, b.0);
}

fn rate_sort_key(rate: Option<F64>) -> (r: F64)
    ensures
        r == rate_key(rate),
{
    match rate {
        Some(hz) => hz,
        None => F64::from_bits(0xfff0_0000_0000_0000),
    }
}

/// Puts an entry into a schedule.
fn insert_entry(s: &mut Vec<(String, Option<F64>)>, function: String, rate: Option<F64>)
    ensures
        schedule_view(final(s)@).to_multiset() == schedule_view(old(s)@).to_multiset().insert(
            (function@, rate),
        ),
        rates_ordered(schedule_view(old(s)@)) && in_schedule_order(schedule_view(old(s)@))
            && !rate_key(rate).is_nan() ==> rates_ordered(schedule_view(final(s)@))
            && in_schedule_order(schedule_view(final(s)@)),
{
    let ghost v = schedule_view(s@);
    let ghost e: EntryView = (function@, rate);
    let key = rate_sort_key(rate);
    let mut p: usize = 0;
    while p < s.len()
        invariant
            p <= s.len(),
            v == schedule_view(s@),
            e == (function@, rate),
            key == rate_key(rate),
            forall|i: int| 0 <= i < p ==> !runs_before(e, #[trigger] v[i]),
        ensures
            p <= s.len(),
            forall|i: int| 0 <= i < p ==> !runs_before(e, #[trigger] v[i]),
            p < s.len() ==> runs_before(e, v[p as int]),
        decreases s.len() - p,
    {
        let other = rate_sort_key(s[p].1);
        let first = if other.less(key) {
            true
        } else if key.less(other) {
            false
        } else {
            comes_before(function.as_str(), s[p].0.as_str())
        };
        if first {
            break;
        }
        p = p + 1;
    }
    s.insert(p, (function, rate));
    proof {
        let w = schedule_view(s@);
        assert(w =~= v.insert(p as int, e));
        vstd::seq_lib::to_multiset_insert(v, p as int, e);
        if rates_ordered(v) && in_schedule_order(v) && !rate_key(rate).is_nan() {
            assert forall|i: int| 0 <= i < w.len() implies !rate_key((#[trigger] w[i]).1).is_nan() by {
                if i < p {
                    assert(w[i] == v[i]);
                } else if i > p {
                    assert(w[i] == v[i - 1]);
                }
            }
            assert forall|i: int, j: int| 0 <= i < j < w.len() implies !runs_before(
                #[trigger] w[j],
                #[trigger] w[i],
            ) by {
                if j < p {
                    assert(!runs_before(v[j], v[i]));
                } else if j == p {
                    assert(w[i] == v[i]);
                } else if i < p {
                    assert(!runs_before(v[j - 1], v[i]));
                } else if i > p {
                    assert(!runs_before(v[j - 1], v[i - 1]));
                } else {
                    let x = v[j - 1];
                    if runs_before(x, e) {
                        lemma_runs_before_once(x, e);
                        lemma_runs_before(x, e, v[p as int]);
                        lemma_runs_before_once(x, v[p as int]);
                        assert(!runs_before(v[j - 1], v[p as int]));
                    }
                }
            }
        }
    }
}

/// The content of an optional trigger map.
pub open spec fn triggers_of(t: Option<&TriggerMap>) -> Option<TriggerMap> {
    match t {
        Some(t) => Some(*t),
        None => None,
    }
}

/// Whether a list is the schedule of scripts: it has their entries, and stands in order.
pub open spec fn is_schedule(
    s: Seq<(String, Option<F64>)>,
    scripts: Seq<ParsedScript>,
    project: Option<Project>,
    triggers: Option<TriggerMap>,
) -> bool {
    match project {
        None => s.len() == 0,
        Some(p) => {
            let entries = schedule_entries(scripts, p, triggers, scripts.len());
            schedule_view(s).to_multiset() == entries.to_multiset() && (rates_ordered(entries)
                ==> in_schedule_order(schedule_view(s)))
        },
    }
}

/// The schedule of scripts.
pub fn build_schedule(
    scripts: &Vec<ParsedScript>,
    project: Option<&Project>,
    triggers: Option<&TriggerMap>,
) -> (r: Vec<(String, Option<F64>)>)
    ensures
        is_schedule(r@, scripts@, project_of(project), triggers_of(triggers)),
{
    let mut r: Vec<(String, Option<F64>)> = Vec::new();
    let project: &Project = match project {
        None => {
            return r;
        },
        Some(p) => p,
    };
    let ghost t = triggers_of(triggers);
    assert(schedule_view(r@) =~= schedule_entries(scripts@, *project, t, 0));
    let mut i: usize = 0;
    while i < scripts.len()
        invariant
            i <= scripts.len(),
            t == triggers_of(triggers),
            schedule_view(r@).to_multiset() == schedule_entries(
                scripts@,
                *project,
                t,
                i as nat,
            ).to_multiset(),
            rates_ordered(schedule_entries(scripts@, *project, t, i as nat)) ==> rates_ordered(
                schedule_view(r@),
            ) && in_schedule_order(schedule_view(r@)),
        decreases scripts.len() - i,
    {
        let ghost held = schedule_entries(scripts@, *project, t, i as nat);
        if let Some(f) = project.function_symbol_for_script(scripts[i].name.as_str()) {
            let rate: Option<F64> = match triggers {
                Some(map) => map.periodic_rate(f),
                None => match project.symbols.get(f) {
                    Some(symbol) => symbol.call_rate_hz,
                    None => None,
                },
            };
            let ghost e: EntryView = (f@, rate);
            insert_entry(&mut r, f.to_owned(), rate);
            proof {
                vstd::seq_lib::to_multiset_build(held, e);
                let next = held.push(e);
                assert(schedule_entries(scripts@, *project, t, (i + 1) as nat) == next);
                if rates_ordered(next) {
                    assert forall|j: int| 0 <= j < held.len() implies !rate_key(
                        (#[trigger] held[j]).1,
                    ).is_nan() by {
                        assert(next[j] == held[j]);
                    }
                    assert(next[held.len() as int] == e);
                }
            }
        }
        i = i + 1;
    }
    r
}

/// The roles that functions without a rate can have.
#[derive(Debug, Clone, Copy, PartialEq, Eq, Structural)]
pub enum Role {
    /// It runs once before the periodic loop.
    Startup,
    /// Other functions call it.
    Helper,
    /// No trigger is selected.
    Unscheduled,
}

/// Whether a status gives a role.
pub open spec fn gives_role(status: TriggerStatus, role: Role) -> bool {
    match role {
        Role::Startup => status is Startup,
        Role::Helper => status is Helper,
        Role::Unscheduled => status is Unscheduled,
    }
}

/// Whether a function has a role.
pub open spec fn has_role(triggers: Option<TriggerMap>, role: Role, function: Seq<char>) -> bool {
    match triggers {
        Some(t) => t.statuses@.contains_key(function) && gives_role(t.statuses@[function], role),
        None => false,
    }
}

/// Whether a text is listed.
pub open spec fn names(list: Seq<String>, name: Seq<char>) -> bool {
    exists|i: int| 0 <= i < list.len() && (#[trigger] list[i])@ == name
}

/// Whether a list holds the functions of a role, in order and once each.
pub open spec fn is_role_list(list: Seq<String>, triggers: Option<TriggerMap>, role: Role) -> bool {
    &&& forall|f: Seq<char>| #[trigger] names(list, f) == has_role(triggers, role, f)
    &&& forall|i: int, j: int|
        0 <= i < j < list.len() ==> before((#[trigger] list[i])@, (#[trigger] list[j])@)
}

fn role_list(triggers: Option<&TriggerMap>, role: Role) -> (r: Vec<String>)
    ensures
        is_role_list(r@, triggers_of(triggers), role),
{
    let mut r: Vec<String> = Vec::new();
    let map: &TextMap<TriggerStatus> = match triggers {
        None => {
            return r;
        },
        Some(t) => &t.statuses,
    };
    let n: usize = map.len();
    let ghost all = map.items();
    let mut i: usize = 0;
    while i < n
        invariant
            i <= n == all.len(),
            all == map.items(),
            in_order(all),
            forall|j: int| 0 <= j < r@.len() ==> among((#[trigger] r@[j])@, all, i as int),
            forall|j: int|
                0 <= j < i ==> names(r@, (#[trigger] all[j]).0@) == gives_role(all[j].1, role),
            forall|a: int, b: int|
                0 <= a < b < r@.len() ==> before((#[trigger] r@[a])@, (#[trigger] r@[b])@),
        decreases n - i,
    {
        let e = map.at(i);
        let fits = match (&e.1, role) {
            (TriggerStatus::Startup, Role::Startup) => true,
            (TriggerStatus::Helper, Role::Helper) => true,
            (TriggerStatus::Unscheduled, Role::Unscheduled) => true,
            _ => false,
        };
        let ghost start = r@;
        proof {
            assert forall|j: int| 0 <= j < start.len() implies before(
                (#[trigger] start[j])@,
                all[i as int].0@,
            ) by {
                assert(among(start[j]@, all, i as int));
                let m = choose|m: int| 0 <= m < i && #[trigger] all[m].0@ == start[j]@;
                assert(before(all[m].0@, all[i as int].0@));
            }
        }
        if fits {
            r.push(e.0.clone());
        }
        proof {
            assert forall|j: int| 0 <= j < r@.len() implies among((#[trigger] r@[j])@, all, i + 1) by {
                if j < start.len() {
                    assert(among(start[j]@, all, i as int));
                    let m = choose|m: int| 0 <= m < i && #[trigger] all[m].0@ == start[j]@;
                    assert(all[m].0@ == r@[j]@);
                } else {
                    assert(all[i as int].0@ == r@[j]@);
                }
            }
            assert forall|j: int| 0 <= j < i + 1 implies names(r@, (#[trigger] all[j]).0@)
                == gives_role(all[j].1, role) by {
                let name = all[j].0@;
                if j < i {
                    assert(names(start, name) == gives_role(all[j].1, role));
                    if names(start, name) {
                        let m = choose|m: int| 0 <= m < start.len() && (#[trigger] start[m])@ == name;
                        assert(r@[m]@ == name);
                    }
                    if names(r@, name) {
                        let m = choose|m: int| 0 <= m < r@.len() && (#[trigger] r@[m])@ == name;
                        if m >= start.len() {
                            assert(before(all[j].0@, all[i as int].0@));
                            lemma_before_total(name, all[i as int].0@);
                        } else {
                            assert(start[m]@ == name);
                        }
                    }
                } else {
                    if fits {
                        assert(r@[start.len() as int]@ == name);
                    } else if names(r@, name) {
                        let m = choose|m: int| 0 <= m < r@.len() && (#[trigger] r@[m])@ == name;
                        assert(before(start[m]@, all[i as int].0@));
                        lemma_before_total(name, name);
                    }
                }
            }
        }
        i = i + 1;
    }
    proof {
        let t = triggers_of(triggers);
        assert forall|f: Seq<char>| #[trigger] names(r@, f) == has_role(t, role, f) by {
            if names(r@, f) {
                let j = choose|j: int| 0 <= j < r@.len() && (#[trigger] r@[j])@ == f;
                assert(among(r@[j]@, all, n as int));
                let m = choose|m: int| 0 <= m < n && #[trigger] all[m].0@ == f;
                lemma_map_of(all, m);
                assert(names(r@, all[m].0@) == gives_role(all[m].1, role));
            }
            if has_role(t, role, f) {
                let m = choose|m: int| 0 <= m < all.len() && #[trigger] all[m].0@ == f;
                lemma_map_of(all, m);
                assert(names(r@, all[m].0@) == gives_role(all[m].1, role));
            }
        }
    }
    r
}

/// Whether an entry is that of a function with an unresolved trigger.
pub open spec fn is_unresolved(triggers: Option<TriggerMap>, u: UnresolvedTrigger) -> bool {
    match triggers {
        Some(t) => t.statuses@.contains_key(u.function@) && (
        t.statuses@[u.function@] matches TriggerStatus::Unresolved { trigger, reason } && trigger@
            == u.trigger@ && reason@ == u.reason@),
        None => false,
    }
}

/// Whether the trigger of a function is unresolved.
pub open spec fn has_unresolved(triggers: Option<TriggerMap>, function: Seq<char>) -> bool {
    match triggers {
        Some(t) => t.statuses@.contains_key(function) && t.statuses@[function] is Unresolved,
        None => false,
    }
}

/// Whether some entry is of a function.
pub open spec fn lists_function(list: Seq<UnresolvedTrigger>, function: Seq<char>) -> bool {
    exists|i: int| 0 <= i < list.len() && (#[trigger] list[i]).function@ == function
}

/// Whether a list holds the functions with unresolved triggers, in order and once each.
pub open spec fn is_unresolved_list(list: Seq<UnresolvedTrigger>, triggers: Option<TriggerMap>) -> bool {
    &&& forall|i: int| 0 <= i < list.len() ==> is_unresolved(triggers, #[trigger] list[i])
    &&& forall|f: Seq<char>| #[trigger] has_unresolved(triggers, f) ==> lists_function(list, f)
    &&& forall|i: int, j: int|
        0 <= i < j < list.len() ==> before(
            (#[trigger] list[i]).function@,
            (#[trigger] list[j]).function@,
        )
}

fn unresolved_list(triggers: Option<&TriggerMap>) -> (r: Vec<UnresolvedTrigger>)
    ensures
        is_unresolved_list(r@, triggers_of(triggers)),
{
    let mut r: Vec<UnresolvedTrigger> = Vec::new();
    let ghost t = triggers_of(triggers);
    let map: &TextMap<TriggerStatus> = match triggers {
        None => {
            return r;
        },
        Some(t) => &t.statuses,
    };
    let n: usize = map.len();
    let ghost all = map.items();
    let mut i: usize = 0;
    while i < n
        invariant
            i <= n == all.len(),
            all == map.items(),
            t matches Some(x) && x.statuses == *map,
            map@ == map_of(all),
            in_order(all),
            forall|j: int| 0 <= j < r@.len() ==> is_unresolved(t, #[trigger] r@[j]),
            forall|j: int| 0 <= j < r@.len() ==> among((#[trigger] r@[j]).function@, all, i as int),
            forall|j: int|
                0 <= j < i && (#[trigger] all[j]).1 is Unresolved ==> lists_function(r@, all[j].0@),
            forall|a: int, b: int|
                0 <= a < b < r@.len() ==> before(
                    (#[trigger] r@[a]).function@,
                    (#[trigger] r@[b]).function@,
                ),
        decreases n - i,
    {
        let e = map.at(i);
        let ghost start = r@;
        proof {
            lemma_map_of(all, i as int);
            assert forall|j: int| 0 <= j < start.len() implies before(
                (#[trigger] start[j]).function@,
                all[i as int].0@,
            ) by {
                assert(among(start[j].function@, all, i as int));
                let m = choose|m: int| 0 <= m < i && #[trigger] all[m].0@ == start[j].function@;
                assert(before(all[m].0@, all[i as int].0@));
            }
        }
        if let TriggerStatus::Unresolved { trigger, reason } = &e.1 {
            r.push(
                UnresolvedTrigger {
                    function: e.0.clone(),
                    trigger: trigger.clone(),
                    reason: reason.clone(),
                },
            );
        }
        proof {
            assert forall|j: int| 0 <= j < r@.len() implies among(
                (#[trigger] r@[j]).function@,
                all,
                i + 1,
            ) by {
                if j < start.len() {
                    assert(among(start[j].function@, all, i as int));
                    let m = choose|m: int| 0 <= m < i && #[trigger] all[m].0@ == start[j].function@;
                    assert(all[m].0@ == r@[j].function@);
                } else {
                    assert(all[i as int].0@ == r@[j].function@);
                }
            }
            assert forall|j: int|
                0 <= j < i + 1 && (#[trigger] all[j]).1 is Unresolved implies lists_function(
                r@,
                all[j].0@,
            ) by {
                if j < i {
                    assert(lists_function(start, all[j].0@));
                    let m = choose|m: int|
                        0 <= m < start.len() && (#[trigger] start[m]).function@ == all[j].0@;
                    assert(r@[m].function@ == all[j].0@);
                } else {
                    assert(r@[start.len() as int].function@ == all[j].0@);
                }
            }
        }
        i = i + 1;
    }
    proof {
        assert forall|f: Seq<char>| #[trigger] has_unresolved(t, f) implies lists_function(r@, f) by {
            let m = choose|m: int| 0 <= m < all.len() && #[trigger] all[m].0@ == f;
            lemma_map_of(all, m);
            assert(all[m].1 is Unresolved);
        }
    }
    r
}

/// What the scripts of a project use, by support, and how its functions run.
#[derive(Debug)]
pub struct CoverageReport {
    /// Uses with a direct implementation.
    pub supported: Vec<CoverageItem>,
    /// Uses with an offline model.
    pub assumed: Vec<CoverageItem>,
    /// Calls that only a scenario value or an adapter answers.
    pub adapter_backed: Vec<CoverageItem>,
    /// Hardware calls with an offline value.
    pub stubbed: Vec<CoverageItem>,
    /// Uses that fail at run time.
    pub unsupported: Vec<CoverageItem>,
    /// The functions with their rates, the fastest first.
    pub schedule: Vec<(String, Option<F64>)>,
    /// The functions that run once before the periodic loop.
    pub startup: Vec<String>,
    /// The functions that others call.
    pub helpers: Vec<String>,
    /// The functions without a trigger.
    pub unscheduled: Vec<String>,
    /// The functions whose trigger cannot be resolved.
    pub unresolved: Vec<UnresolvedTrigger>,
}

/// The names of scripts.
pub open spec fn script_names(scripts: Seq<ParsedScript>) -> Seq<String> {
    Seq::new(scripts.len(), |i: int| scripts[i].name)
}

/// The names of scripts.
fn names_of_scripts(scripts: &Vec<ParsedScript>) -> (r: Vec<String>)
    ensures
        r@ == script_names(scripts@),
{
    let mut r: Vec<String> = Vec::new();
    let mut i: usize = 0;
    while i < scripts.len()
        invariant
            i <= scripts.len(),
            r@.len() == i,
            forall|j: int| 0 <= j < i ==> #[trigger] r@[j] == scripts@[j].name,
        decreases scripts.len() - i,
    {
        r.push(scripts[i].name.clone());
        i = i + 1;
    }
    assert(r@ =~= script_names(scripts@));
    r
}

/// What the walk of a script depends on.
pub open spec fn surroundings(
    scripts: Seq<ParsedScript>,
    project: Option<Project>,
    catalog: Intrinsics,
    i: int,
) -> Surroundings {
    Surroundings {
        project,
        group: match project {
            Some(p) => script_group(p.scripts@, scripts[i].name@),
            None => None,
        },
        fn_symbol: match project {
            Some(p) => script_function(p.scripts@, scripts[i].name@),
            None => None,
        },
        scripts: script_names(scripts),
        catalog,
    }
}

/// The uses in the first `n` scripts. Each script starts without locals.
pub open spec fn all_uses(
    scripts: Seq<ParsedScript>,
    project: Option<Project>,
    catalog: Intrinsics,
    n: nat,
) -> Seq<UseView>
    decreases n,
{
    if n == 0 {
        Seq::empty()
    } else {
        all_uses(scripts, project, catalog, (n - 1) as nat) + walked(
            scripts[n - 1].root,
            surroundings(scripts, project, catalog, n - 1),
            Map::empty(),
        ).0
    }
}

/// Whether a report is that of scripts.
pub open spec fn is_report(
    r: CoverageReport,
    scripts: Seq<ParsedScript>,
    project: Option<Project>,
    triggers: Option<TriggerMap>,
    catalog: Intrinsics,
) -> bool {
    let uses = all_uses(scripts, project, catalog, scripts.len());
    &&& is_bucket(r.supported@, uses, BuiltinSupport::Direct)
    &&& is_bucket(r.assumed@, uses, BuiltinSupport::Modeled)
    &&& is_bucket(r.adapter_backed@, uses, BuiltinSupport::AdapterBacked)
    &&& is_bucket(r.stubbed@, uses, BuiltinSupport::Stubbed)
    &&& is_bucket(r.unsupported@, uses, BuiltinSupport::Unsupported)
    &&& is_schedule(r.schedule@, scripts, project, triggers)
    &&& is_role_list(r.startup@, triggers, Role::Startup)
    &&& is_role_list(r.helpers@, triggers, Role::Helper)
    &&& is_role_list(r.unscheduled@, triggers, Role::Unscheduled)
    &&& is_unresolved_list(r.unresolved@, triggers)
}

/// The lists of a report, from the supported to the unsupported.
pub open spec fn bucket_of(r: CoverageReport, s: BuiltinSupport) -> Seq<CoverageItem> {
    match s {
        BuiltinSupport::Direct => r.supported@,
        BuiltinSupport::Modeled => r.assumed@,
        BuiltinSupport::AdapterBacked => r.adapter_backed@,
        BuiltinSupport::Stubbed => r.stubbed@,
        BuiltinSupport::Unsupported => r.unsupported@,
    }
}

/// Every use is reported, and under one support only.
pub proof fn law_every_use_is_filed_once(
    r: CoverageReport,
    scripts: Seq<ParsedScript>,
    project: Option<Project>,
    triggers: Option<TriggerMap>,
    catalog: Intrinsics,
    i: int,
)
    requires
        is_report(r, scripts, project, triggers, catalog),
        0 <= i < all_uses(scripts, project, catalog, scripts.len()).len(),
    ensures
        ({
            let u = all_uses(scripts, project, catalog, scripts.len())[i];
            exists|s: BuiltinSupport| #[trigger]
                lists(bucket_of(r, s), u.0, u.1) && weakness(u.2) <= weakness(s) && forall|
                    t: BuiltinSupport,
                | #[trigger] lists(bucket_of(r, t), u.0, u.1) ==> t == s
        }),
{
    let uses = all_uses(scripts, project, catalog, scripts.len());
    let u = uses[i];
    law_weakest_use_decides(uses, u.0, u.1);
    let s = weakest(uses, u.0, u.1)->Some_0;
    assert(lists(bucket_of(r, s), u.0, u.1));
    assert forall|t: BuiltinSupport| #[trigger] lists(bucket_of(r, t), u.0, u.1) implies t == s by {
        match t {
            BuiltinSupport::Direct => assert(lists(r.supported@, u.0, u.1)),
            BuiltinSupport::Modeled => assert(lists(r.assumed@, u.0, u.1)),
            BuiltinSupport::AdapterBacked => assert(lists(r.adapter_backed@, u.0, u.1)),
            BuiltinSupport::Stubbed => assert(lists(r.stubbed@, u.0, u.1)),
            BuiltinSupport::Unsupported => assert(lists(r.unsupported@, u.0, u.1)),
        }
    }
}

/// The tag of an item.
pub open spec fn kind_tag(kind: ItemKind) -> Seq<char> {
    match kind {
        ItemKind::Builtin => "builtin"@,
        ItemKind::Construct => "construct"@,
    }
}

/// The lines of the first `n` items.
pub open spec fn item_lines(items: Seq<CoverageItem>, n: nat) -> Seq<char>
    decreases n,
{
    if n == 0 {
        Seq::empty()
    } else {
        item_lines(items, (n - 1) as nat) + "  "@ + kind_tag(items[n - 1].kind) + " "@
            + items[n - 1].name@ + "\n"@
    }
}

/// A labelled section of items.
pub open spec fn section_text(label: Seq<char>, items: Seq<CoverageItem>) -> Seq<char> {
    label + ":\n"@ + (if items.len() == 0 {
        "  (none)\n"@
    } else {
        item_lines(items, items.len())
    })
}

fn render_section(label: &str, items: &Vec<CoverageItem>) -> (r: String)
    ensures
        r@ == section_text(label@, items@),
{
    let mut r: String = label.to_owned();
    r.append(":\n");
    if items.len() == 0 {
        r.append("  (none)\n");
        return r;
    }
    let ghost head = r@;
    let mut i: usize = 0;
    assert(head + item_lines(items@, 0) =~= head);
    while i < items.len()
        invariant
            i <= items.len(),
            r@ == head + item_lines(items@, i as nat),
        decreases items.len() - i,
    {
        r.append("  ");
        match items[i].kind {
            ItemKind::Builtin => r.append("builtin"),
            ItemKind::Construct => r.append("construct"),
        }
        r.append(" ");
        r.append(items[i].name.as_str());
        r.append("\n");
        assert(r@ =~= head + item_lines(items@, (i + 1) as nat));
        i = i + 1;
    }
    r
}

/// The position of the first entry of a function, or the count.
pub open spec fn unresolved_index(list: Seq<UnresolvedTrigger>, function: Seq<char>) -> nat
    decreases list.len(),
{
    if list.len() == 0 || list[0].function@ == function {
        0
    } else {
        1 + unresolved_index(list.drop_first(), function)
    }
}

/// What a report says of a function without a rate.
pub open spec fn status_text(r: CoverageReport, function: Seq<char>) -> Seq<char> {
    let i = unresolved_index(r.unresolved@, function);
    if names(r.startup@, function) {
        " (startup, runs once)\n"@
    } else if names(r.helpers@, function) {
        " (helper, not scheduled directly)\n"@
    } else if i < r.unresolved@.len() {
        let u = r.unresolved@[i as int];
        if u.trigger@.len() == 0 {
            " (unresolved trigger: "@ + u.reason@ + ")\n"@
        } else {
            " (unresolved trigger `"@ + u.trigger@ + "`: "@ + u.reason@ + ")\n"@
        }
    } else if names(r.unscheduled@, function) {
        " (unscheduled, no trigger selected)\n"@
    } else {
        " (unscheduled)\n"@
    }
}

/// The lines of the first `n` entries of the schedule.
pub open spec fn schedule_lines(r: CoverageReport, n: nat) -> Seq<char>
    decreases n,
{
    if n == 0 {
        Seq::empty()
    } else {
        let e = r.schedule@[n - 1];
        schedule_lines(r, (n - 1) as nat) + "  "@ + e.0@ + (match e.1 {
            Some(hz) => " @ "@ + hz.text() + " Hz\n"@,
            None => status_text(r, e.0@),
        })
    }
}

/// The section on the schedule.
pub open spec fn schedule_text(r: CoverageReport) -> Seq<char> {
    "Schedule:\n"@ + (if r.schedule@.len() == 0 {
        "  (none)\n"@
    } else {
        schedule_lines(r, r.schedule@.len())
    })
}

fn contains_name(list: &Vec<String>, name: &str) -> (r: bool)
    ensures
        r == names(list@, name@),
{
    let mut i: usize = 0;
    while i < list.len()
        invariant
            i <= list.len(),
            forall|j: int| 0 <= j < i ==> (#[trigger] list@[j])@ != name@,
        decreases list.len() - i,
    {
        if same(list[i].as_str(), name) {
            assert(list@[i as int]@ == name@);
            return true;
        }
        i = i + 1;
    }
    false
}

fn find_unresolved(list: &Vec<UnresolvedTrigger>, function: &str) -> (r: Option<usize>)
    ensures
        match r {
            Some(i) => i < list@.len() && i == unresolved_index(list@, function@),
            None => unresolved_index(list@, function@) >= list@.len(),
        },
{
    let mut i: usize = 0;
    let ghost all = list@;
    assert(all.skip(0) =~= all);
    while i < list.len()
        invariant
            i <= all.len(),
            all == list@,
            unresolved_index(all, function@) == i + unresolved_index(all.skip(i as int), function@),
        decreases all.len() - i,
    {
        assert(all.skip(i as int)[0] == all[i as int]);
        assert(all.skip(i as int).drop_first() =~= all.skip(i + 1));
        if same(list[i].function.as_str(), function) {
            return Some(i);
        }
        i = i + 1;
    }
    None
}

/// The report in words, by the sections of [`CoverageReport::render`].
pub open spec fn report_text(r: CoverageReport) -> Seq<char> {
    section_text("Supported"@, r.supported@) + section_text("Assumed"@, r.assumed@) + section_text(
        "Adapter-backed"@,
        r.adapter_backed@,
    ) + section_text("Stubbed"@, r.stubbed@) + section_text("Unsupported"@, r.unsupported@)
        + schedule_text(r)
}

impl CoverageReport {
    /// Analyses scripts without a project.
    pub fn analyse(scripts: &Vec<ParsedScript>, catalog: &Intrinsics) -> (r: CoverageReport)
        ensures
            is_report(r, scripts@, None, None, *catalog),
    {
        CoverageReport::analyse_with_triggers(scripts, None, None, catalog)
    }

    /// Analyses scripts in a project, if there is one.
    pub fn analyse_in(scripts: &Vec<ParsedScript>, project: Option<&Project>, catalog: &Intrinsics) -> (r:
        CoverageReport)
        ensures
            is_report(r, scripts@, project_of(project), None, *catalog),
    {
        CoverageReport::analyse_with_triggers(scripts, project, None, catalog)
    }

    /// Analyses a loaded project.
    pub fn analyse_loaded(loaded: &Loaded) -> (r: CoverageReport)
        ensures
            is_report(
                r,
                loaded.scripts@,
                Some(loaded.project),
                Some(loaded.triggers),
                loaded.catalog,
            ),
    {
        CoverageReport::analyse_with_triggers(
            &loaded.scripts,
            Some(&loaded.project),
            Some(&loaded.triggers),
            &loaded.catalog,
        )
    }

    fn analyse_with_triggers(
        scripts: &Vec<ParsedScript>,
        project: Option<&Project>,
        triggers: Option<&TriggerMap>,
        catalog: &Intrinsics,
    ) -> (r: CoverageReport)
        ensures
            is_report(r, scripts@, project_of(project), triggers_of(triggers), *catalog),
    {
        let script_list = names_of_scripts(scripts);
        let mut uses: Vec<Use> = Vec::new();
        let ghost p = project_of(project);
        let mut i: usize = 0;
        assert(uses_view(uses@) =~= all_uses(scripts@, p, *catalog, 0));
        while i < scripts.len()
            invariant
                i <= scripts.len(),
                p == project_of(project),
                script_list@ == script_names(scripts@),
                uses_view(uses@) == all_uses(scripts@, p, *catalog, i as nat),
            decreases scripts.len() - i,
        {
            let script = &scripts[i];
            let group: Option<&str> = match project {
                Some(p) => p.group_for_script(script.name.as_str()),
                None => None,
            };
            let fn_symbol: Option<&str> = match project {
                Some(p) => p.function_symbol_for_script(script.name.as_str()),
                None => None,
            };
            let cx = WalkCtx { project, group, fn_symbol, scripts: &script_list, catalog };
            assert(cx@ == surroundings(scripts@, p, *catalog, i as int));
            let mut locals: TextMap<Value> = TextMap::new();
            walk(&script.root, &cx, &mut locals, &mut uses);
            i = i + 1;
        }
        let ghost all = uses_view(uses@);
        let table = tally(&uses);
        CoverageReport {
            supported: bucket(&table, BuiltinSupport::Direct, Ghost(all)),
            assumed: bucket(&table, BuiltinSupport::Modeled, Ghost(all)),
            adapter_backed: bucket(&table, BuiltinSupport::AdapterBacked, Ghost(all)),
            stubbed: bucket(&table, BuiltinSupport::Stubbed, Ghost(all)),
            unsupported: bucket(&table, BuiltinSupport::Unsupported, Ghost(all)),
            schedule: build_schedule(scripts, project, triggers),
            startup: role_list(triggers, Role::Startup),
            helpers: role_list(triggers, Role::Helper),
            unscheduled: role_list(triggers, Role::Unscheduled),
            unresolved: unresolved_list(triggers),
        }
    }

    /// What the report says of a function without a rate.
    fn status(&self, function: &str) -> (r: String)
        ensures
            r@ == status_text(*self, function@),
    {
        if contains_name(&self.startup, function) {
            return " (startup, runs once)\n".to_owned();
        }
        if contains_name(&self.helpers, function) {
            return " (helper, not scheduled directly)\n".to_owned();
        }
        if let Some(i) = find_unresolved(&self.unresolved, function) {
            let u = &self.unresolved[i];
            let mut r: String;
            if u.trigger.as_str().is_empty() {
                r = " (unresolved trigger: ".to_owned();
            } else {
                r = " (unresolved trigger `".to_owned();
                r.append(u.trigger.as_str());
                r.append("`: ");
            }
            r.append(u.reason.as_str());
            r.append(")\n");
            return r;
        }
        if contains_name(&self.unscheduled, function) {
            " (unscheduled, no trigger selected)\n".to_owned()
        } else {
            " (unscheduled)\n".to_owned()
        }
    }

    fn render_schedule(&self) -> (r: String)
        ensures
            r@ == schedule_text(*self),
    {
        let mut r: String = "Schedule:\n".to_owned();
        if self.schedule.len() == 0 {
            r.append("  (none)\n");
            return r;
        }
        let ghost head = r@;
        let mut i: usize = 0;
        assert(head + schedule_lines(*self, 0) =~= head);
        while i < self.schedule.len()
            invariant
                i <= self.schedule.len(),
                r@ == head + schedule_lines(*self, i as nat),
            decreases self.schedule.len() - i,
        {
            let e = &self.schedule[i];
            r.append("  ");
            r.append(e.0.as_str());
            match e.1 {
                Some(hz) => {
                    let t = hz.to_text();
                    r.append(" @ ");
                    r.append(t.as_str());
                    r.append(" Hz\n");
                },
                None => {
                    let t = self.status(e.0.as_str());
                    r.append(t.as_str());
                },
            }
            assert(r@ =~= head + schedule_lines(*self, (i + 1) as nat));
            i = i + 1;
        }
        r
    }

    /// The report in words: a section for each support, and one on the schedule. Empty
    /// sections are labelled too.
    pub fn render(&self) -> (r: String)
        ensures
            r@ == report_text(*self),
    {
        let mut r = render_section("Supported", &self.supported);
        let t = render_section("Assumed", &self.assumed);
        r.append(t.as_str());
        let t = render_section("Adapter-backed", &self.adapter_backed);
        r.append(t.as_str());
        let t = render_section("Stubbed", &self.stubbed);
        r.append(t.as_str());
        let t = render_section("Unsupported", &self.unsupported);
        r.append(t.as_str());
        let t = self.render_schedule();
        r.append(t.as_str());
        r
    }
}

} // verus!
