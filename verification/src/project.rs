//! The project as evaluation sees it: symbols, enumerations, scripts and what
//! each name in a script refers to.
//!
//! The type checker works out the facts of this module from the project file.
//! Here they are plain data.

use crate::float::binary64::F64;
use crate::map::TextMap;
use crate::text::same;
use crate::value::{Value, ValueType};
use vstd::prelude::*;
use vstd::string::*;

verus! {

/// What a symbol is.
#[derive(Clone, Copy, PartialEq, Eq, Structural, Debug)]
pub enum SymbolKind {
    /// A channel.
    Channel,
    /// A calibration parameter.
    Parameter,
    /// A constant.
    Constant,
    /// A calibration table.
    Table,
    /// A group.
    Group,
    /// An object of a package or of the firmware.
    Object,
    /// A reference.
    Reference,
    /// A user function.
    Function,
    /// A user method.
    Method,
    /// Anything else.
    Other,
}

/// A symbol.
#[derive(Debug)]
pub struct Symbol {
    /// What it is.
    pub kind: SymbolKind,
    /// The type of its value.
    pub value_type: ValueType,
    /// The type as the project file spells it.
    pub declared_type: Option<String>,
    /// The class as the project file spells it.
    pub classname: Option<String>,
    /// The member that a value compound stands for.
    pub default_value: Option<String>,
    /// The parameters of a function with a signature.
    pub in_params: Option<Vec<(String, ValueType)>>,
    /// The rate at which a function is called.
    pub call_rate_hz: Option<F64>,
    /// The value that it starts from where nothing has set it.
    pub startup: Option<Value>,
}

/// An enumeration.
#[derive(Debug)]
pub struct EnumType {
    /// Its name.
    pub name: String,
    /// Its members with their integers.
    pub members: Vec<(String, i64)>,
}

/// A script and the function that it is the body of.
#[derive(Debug)]
pub struct ScriptInfo {
    /// The file name.
    pub name: String,
    /// The canonical path of the function.
    pub function: Option<String>,
    /// The canonical path of the enclosing group.
    pub group: Option<String>,
}

/// What a name refers to.
#[derive(Debug)]
pub enum Target {
    /// A project symbol, by canonical path.
    Symbol(String),
    /// A local of the executing function.
    Local(String),
    /// An object of the builtin library.
    Builtin {
        /// Its catalog name.
        object: String,
    },
    /// Nothing.
    Unresolved,
}

/// The content of a [`Target`].
pub enum TargetView {
    /// A project symbol, by canonical path.
    Symbol(Seq<char>),
    /// A local of the executing function.
    Local(Seq<char>),
    /// An object of the builtin library.
    Builtin(Seq<char>),
    /// Nothing.
    Unresolved,
}

impl View for Target {
    type V = TargetView;

    open spec fn view(&self) -> TargetView {
        match *self {
            Target::Symbol(s) => TargetView::Symbol(s@),
            Target::Local(s) => TargetView::Local(s@),
            Target::Builtin { object } => TargetView::Builtin(object@),
            Target::Unresolved => TargetView::Unresolved,
        }
    }
}

impl Target {
    /// The same target again.
    pub fn duplicate(&self) -> (r: Target)
        ensures
            r@ == self@,
    {
        match self {
            Target::Symbol(s) => Target::Symbol(s.clone()),
            Target::Local(s) => Target::Local(s.clone()),
            Target::Builtin { object } => Target::Builtin { object: object.clone() },
            Target::Unresolved => Target::Unresolved,
        }
    }
}

/// What a spelling refers to in the scripts of a group, or in one function of it.
#[derive(Debug)]
pub struct NameEntry {
    /// The group, or `None` outside every group.
    pub group: Option<String>,
    /// The function whose script it holds in, or `None` where it holds in every script of
    /// the group.
    pub function: Option<String>,
    /// The spelling.
    pub spelling: String,
    /// What it refers to.
    pub target: Target,
}

/// A project.
#[derive(Debug)]
pub struct Project {
    /// The symbols, by canonical path.
    pub symbols: TextMap<Symbol>,
    /// The enumerations.
    pub enums: Vec<EnumType>,
    /// The scripts.
    pub scripts: Vec<ScriptInfo>,
    /// What the names in the scripts refer to.
    pub names: Vec<NameEntry>,
}

/// The content of an optional text.
pub open spec fn text_of(s: Option<String>) -> Option<Seq<char>> {
    match s {
        Some(s) => Some(s@),
        None => None,
    }
}

/// The content of an optional borrowed text.
pub open spec fn str_of(s: Option<&str>) -> Option<Seq<char>> {
    match s {
        Some(s) => Some(s@),
        None => None,
    }
}

/// Borrows an optional text.
pub fn borrow_text(s: &Option<String>) -> (r: Option<&str>)
    ensures
        str_of(r) == text_of(*s),
{
    match s {
        Some(s) => Some(s.as_str()),
        None => None,
    }
}

/// Whether an optional text is the given one.
pub fn same_text(a: &Option<String>, b: Option<&str>) -> (r: bool)
    ensures
        r == (text_of(*a) == str_of(b)),
{
    match (a, b) {
        (Some(a), Some(b)) => same(a.as_str(), b),
        (None, None) => true,
        _ => false,
    }
}

/// Whether an entry speaks of a spelling in the script of a function.
pub open spec fn speaks_of(
    entry: NameEntry,
    group: Option<Seq<char>>,
    function: Option<Seq<char>>,
    spelling: Seq<char>,
) -> bool {
    &&& text_of(entry.group) == group
    &&& entry.function is Some ==> text_of(entry.function) == function
    &&& entry.spelling@ == spelling
}

/// What the first matching entry says of a spelling.
pub open spec fn named(
    names: Seq<NameEntry>,
    group: Option<Seq<char>>,
    function: Option<Seq<char>>,
    spelling: Seq<char>,
) -> TargetView
    decreases names.len(),
{
    if names.len() == 0 {
        TargetView::Unresolved
    } else if speaks_of(names[0], group, function, spelling) {
        names[0].target@
    } else {
        named(names.drop_first(), group, function, spelling)
    }
}

/// Whether a spelling may name a local: one segment, or a parameter.
pub open spec fn local_spelling(spelling: Seq<char>) -> bool {
    !spelling.contains('.') || has_prefix(spelling, "In."@)
}

/// Whether a text starts with another.
pub open spec fn has_prefix(s: Seq<char>, prefix: Seq<char>) -> bool {
    prefix.len() <= s.len() && s.subrange(0, prefix.len() as int) == prefix
}

/// What a spelling refers to in a group and a function, with the given locals in scope. A local
/// hides other names only where the spelling has one segment or names a parameter.
/// A canonical path that no entry speaks of names its symbol.
pub open spec fn resolved(
    project: Project,
    spelling: Seq<char>,
    group: Option<Seq<char>>,
    function: Option<Seq<char>>,
    locals: Map<Seq<char>, Value>,
) -> TargetView {
    if local_spelling(spelling) && locals.contains_key(spelling) {
        TargetView::Local(spelling)
    } else {
        match named(project.names@, group, function, spelling) {
            TargetView::Unresolved => if project.symbols@.contains_key(spelling) {
                TargetView::Symbol(spelling)
            } else {
                TargetView::Unresolved
            },
            found => found,
        }
    }
}

/// Whether a text holds a dot.
pub fn has_dot(s: &str) -> (r: bool)
    ensures
        r == s@.contains('.'),
{
    let v = crate::text::chars_of(s);
    let mut i: usize = 0;
    while i < v.len()
        invariant
            i <= v.len(),
            v@ == s@,
            forall|j: int| 0 <= j < i ==> v@[j] != '.',
        decreases v.len() - i,
    {
        if v[i] == '.' {
            assert(s@[i as int] == '.');
            return true;
        }
        i = i + 1;
    }
    assert(!s@.contains('.')) by {
        if s@.contains('.') {
            let j = choose|j: int| 0 <= j < s@.len() && s@[j] == '.';
            assert(v@[j] != '.');
        }
    }
    false
}

/// What follows a prefix of a text, if it starts with it.
pub fn after_prefix(s: &str, prefix: &str) -> (r: Option<String>)
    ensures
        match r {
            Some(t) => has_prefix(s@, prefix@) && t@ == s@.skip(prefix@.len() as int),
            None => !has_prefix(s@, prefix@),
        },
{
    let v = crate::text::chars_of(s);
    let p = crate::text::chars_of(prefix);
    if p.len() > v.len() {
        return None;
    }
    let mut i: usize = 0;
    while i < p.len()
        invariant
            i <= p.len() <= v.len(),
            v@ == s@,
            p@ == prefix@,
            forall|j: int| 0 <= j < i ==> v@[j] == p@[j],
        decreases p.len() - i,
    {
        if v[i] != p[i] {
            assert(s@.subrange(0, p@.len() as int)[i as int] == s@[i as int]);
            return None;
        }
        i = i + 1;
    }
    assert(s@.subrange(0, p@.len() as int) =~= prefix@);
    let r = crate::text::text_of(&v, p.len(), v.len());
    assert(r@ =~= s@.skip(p@.len() as int));
    Some(r)
}

/// What the first matching entry says of a spelling.
fn named_target(
    spelling: &str,
    group: Option<&str>,
    function: Option<&str>,
    names: &Vec<NameEntry>,
) -> (r: Target)
    ensures
        r@ == named(names@, str_of(group), str_of(function), spelling@),
{
    let mut i: usize = 0;
    let ghost all = names@;
    assert(all.skip(0) == all);
    while i < names.len()
        invariant
            i <= all.len(),
            all == names@,
            named(all, str_of(group), str_of(function), spelling@) == named(
                all.skip(i as int),
                str_of(group),
                str_of(function),
                spelling@,
            ),
        decreases all.len() - i,
    {
        let e = &names[i];
        assert(all.skip(i as int)[0] == all[i as int]);
        assert(all.skip(i as int).drop_first() == all.skip(i + 1));
        let here: bool = match e.function {
            Some(_) => same_text(&e.function, function),
            None => true,
        };
        if here && same_text(&e.group, group) && same(e.spelling.as_str(), spelling) {
            return e.target.duplicate();
        }
        i = i + 1;
    }
    Target::Unresolved
}

/// What a spelling refers to.
pub fn classify(
    spelling: &str,
    group: Option<&str>,
    function: Option<&str>,
    project: &Project,
    locals: &TextMap<Value>,
) -> (r: Target)
    ensures
        r@ == resolved(*project, spelling@, str_of(group), str_of(function), locals@),
{
    let simple = if !has_dot(spelling) {
        true
    } else {
        after_prefix(spelling, "In.").is_some()
    };
    if simple && locals.contains(spelling) {
        return Target::Local(spelling.to_owned());
    }
    match named_target(spelling, group, function, &project.names) {
        Target::Unresolved => {
            if project.symbols.contains(spelling) {
                Target::Symbol(spelling.to_owned())
            } else {
                Target::Unresolved
            }
        },
        found => found,
    }
}

/// The index of the enumeration with a name, or the count where there is none.
pub open spec fn enum_index(enums: Seq<EnumType>, name: Seq<char>) -> nat
    decreases enums.len(),
{
    if enums.len() == 0 {
        0
    } else if enums[0].name@ == name {
        0
    } else {
        1 + enum_index(enums.drop_first(), name)
    }
}

/// The integer of the first member with a name.
pub open spec fn member_value(members: Seq<(String, i64)>, member: Seq<char>) -> Option<i64>
    decreases members.len(),
{
    if members.len() == 0 {
        None
    } else if members[0].0@ == member {
        Some(members[0].1)
    } else {
        member_value(members.drop_first(), member)
    }
}

/// The function of the first script with a name.
pub open spec fn script_function(scripts: Seq<ScriptInfo>, name: Seq<char>) -> Option<Seq<char>>
    decreases scripts.len(),
{
    if scripts.len() == 0 {
        None
    } else if scripts[0].name@ == name {
        text_of(scripts[0].function)
    } else {
        script_function(scripts.drop_first(), name)
    }
}

/// The group of the first script with a name.
pub open spec fn script_group(scripts: Seq<ScriptInfo>, name: Seq<char>) -> Option<Seq<char>>
    decreases scripts.len(),
{
    if scripts.len() == 0 {
        None
    } else if scripts[0].name@ == name {
        text_of(scripts[0].group)
    } else {
        script_group(scripts.drop_first(), name)
    }
}

impl Project {
    /// The enumeration with a name.
    pub open spec fn enum_named(self, name: Seq<char>) -> Option<usize> {
        if enum_index(self.enums@, name) < self.enums@.len() {
            Some(enum_index(self.enums@, name) as usize)
        } else {
            None
        }
    }

    /// The enumeration with a name.
    pub fn enum_by_name(&self, name: &str) -> (r: Option<usize>)
        ensures
            r == self.enum_named(name@),
            r matches Some(id) ==> id < self.enums.len(),
    {
        let mut i: usize = 0;
        let ghost all = self.enums@;
        assert(all.skip(0) == all);
        while i < self.enums.len()
            invariant
                i <= all.len(),
                all == self.enums@,
                enum_index(all, name@) == i + enum_index(all.skip(i as int), name@),
            decreases all.len() - i,
        {
            assert(all.skip(i as int)[0] == all[i as int]);
            assert(all.skip(i as int).drop_first() == all.skip(i + 1));
            if same(self.enums[i].name.as_str(), name) {
                return Some(i);
            }
            i = i + 1;
        }
        None
    }

    /// The integer of a member of an enumeration.
    pub open spec fn enum_value(self, id: usize, member: Seq<char>) -> Option<i64> {
        if id < self.enums@.len() {
            member_value(self.enums@[id as int].members@, member)
        } else {
            None
        }
    }

    /// The integer of a member of an enumeration.
    pub fn enum_member(&self, id: usize, member: &str) -> (r: Option<i64>)
        ensures
            r == self.enum_value(id, member@),
    {
        if id >= self.enums.len() {
            return None;
        }
        let members = &self.enums[id].members;
        let mut i: usize = 0;
        let ghost all = members@;
        assert(all.skip(0) == all);
        while i < members.len()
            invariant
                i <= all.len(),
                all == members@,
                id < self.enums.len(),
                members == self.enums@[id as int].members,
                member_value(all, member@) == member_value(all.skip(i as int), member@),
            decreases all.len() - i,
        {
            assert(all.skip(i as int)[0] == all[i as int]);
            assert(all.skip(i as int).drop_first() == all.skip(i + 1));
            if same(members[i].0.as_str(), member) {
                return Some(members[i].1);
            }
            i = i + 1;
        }
        None
    }

    /// Whether an enumeration has a member.
    pub fn enum_has_member(&self, id: usize, member: &str) -> (r: bool)
        ensures
            r == self.enum_value(id, member@).is_some(),
    {
        self.enum_member(id, member).is_some()
    }

    /// The function that a script is the body of.
    pub fn function_symbol_for_script(&self, name: &str) -> (r: Option<&str>)
        ensures
            str_of(r) == script_function(self.scripts@, name@),
    {
        let mut i: usize = 0;
        let ghost all = self.scripts@;
        assert(all.skip(0) == all);
        while i < self.scripts.len()
            invariant
                i <= all.len(),
                all == self.scripts@,
                script_function(all, name@) == script_function(all.skip(i as int), name@),
            decreases all.len() - i,
        {
            assert(all.skip(i as int)[0] == all[i as int]);
            assert(all.skip(i as int).drop_first() == all.skip(i + 1));
            if same(self.scripts[i].name.as_str(), name) {
                return borrow_text(&self.scripts[i].function);
            }
            i = i + 1;
        }
        None
    }

    /// The group that a script is in.
    pub fn group_for_script(&self, name: &str) -> (r: Option<&str>)
        ensures
            str_of(r) == script_group(self.scripts@, name@),
    {
        let mut i: usize = 0;
        let ghost all = self.scripts@;
        assert(all.skip(0) == all);
        while i < self.scripts.len()
            invariant
                i <= all.len(),
                all == self.scripts@,
                script_group(all, name@) == script_group(all.skip(i as int), name@),
            decreases all.len() - i,
        {
            assert(all.skip(i as int)[0] == all[i as int]);
            assert(all.skip(i as int).drop_first() == all.skip(i + 1));
            if same(self.scripts[i].name.as_str(), name) {
                return borrow_text(&self.scripts[i].group);
            }
            i = i + 1;
        }
        None
    }
}

/// Two names with a dot between.
pub open spec fn dotted(a: Seq<char>, b: Seq<char>) -> Seq<char> {
    a.push('.') + b
}

/// Two names with a dot between.
pub fn dotted_text(a: &str, b: &str) -> (r: String)
    ensures
        r@ == dotted(a@, b@),
{
    let mut r: String = a.to_owned();
    r.push('.');
    r.append(b);
    r
}

/// The position after the last dot of a text, or zero where there is none.
pub open spec fn leaf_start(s: Seq<char>) -> nat
    decreases s.len(),
{
    if s.len() == 0 {
        0
    } else if s.last() == '.' {
        s.len()
    } else {
        leaf_start(s.drop_last())
    }
}

/// The part before the last dot of a text, and the part after it.
pub open spec fn split_leaf(s: Seq<char>) -> Option<(Seq<char>, Seq<char>)> {
    let i = leaf_start(s);
    if i == 0 {
        None
    } else {
        Some((s.take(i - 1), s.skip(i as int)))
    }
}

/// The last dot is found where there is one.
pub proof fn lemma_leaf_start(s: Seq<char>)
    ensures
        leaf_start(s) <= s.len(),
        leaf_start(s) > 0 ==> s[leaf_start(s) - 1] == '.',
        forall|j: int| leaf_start(s) <= j < s.len() ==> s[j] != '.',
    decreases s.len(),
{
    if s.len() > 0 && s.last() != '.' {
        lemma_leaf_start(s.drop_last());
        assert forall|j: int| leaf_start(s) <= j < s.len() implies s[j] != '.' by {
            if j < s.len() - 1 {
                assert(s.drop_last()[j] == s[j]);
            }
        }
    }
}

/// Splits a text at its last dot.
pub fn split_at_leaf(s: &str) -> (r: Option<(String, String)>)
    ensures
        match split_leaf(s@) {
            Some((a, b)) => r matches Some((x, y)) && x@ == a && y@ == b,
            None => r is None,
        },
{
    let v = crate::text::chars_of(s);
    let mut n: usize = v.len();
    assert(v@.take(n as int) == v@);
    proof {
        lemma_leaf_start(v@);
    }
    while n > 0 && v[n - 1] != '.'
        invariant
            n <= v.len(),
            leaf_start(v@) == leaf_start(v@.take(n as int)),
        decreases n,
    {
        assert(v@.take(n as int).last() == v@[n - 1]);
        assert(v@.take(n as int).drop_last() == v@.take(n - 1));
        n = n - 1;
    }
    if n == 0 {
        return None;
    }
    assert(v@.take(n as int).last() == v@[n - 1]);
    assert(leaf_start(v@) == n);
    let a = crate::text::text_of(&v, 0, n - 1);
    let b = crate::text::text_of(&v, n, v.len());
    assert(a@ =~= v@.take(n - 1));
    assert(b@ =~= v@.skip(n as int));
    Some((a, b))
}

} // verus!
