//! The value store and the state of stateful operators.
//!
//! Values are keyed by canonical path or variable name. A path is one opaque
//! key: it may hold spaces and is never split on them. The state of a stateful
//! operator is keyed by the place in the source where the operator is called.

use crate::float::binary32::F32;
use crate::float::binary64::F64;
use crate::map::TextMap;
use crate::text::same;
use crate::value::{M1Scalar, Value};
use vstd::prelude::*;
use vstd::string::*;

verus! {

/// One occurrence of a call in the source: the script and the byte offset of the call.
#[derive(Debug, Clone, PartialEq, Eq, Hash)]
pub struct CallSite(pub String, pub usize);

/// The content of a call site.
pub type SiteKey = (Seq<char>, usize);

impl CallSite {
    /// The content of the call site.
    pub open spec fn key(self) -> SiteKey {
        (self.0@, self.1)
    }

    /// The call site of a script name and a byte offset.
    pub fn new(script: &str, byte_offset: usize) -> (r: CallSite)
        ensures
            r.key() == (script@, byte_offset),
    {
        CallSite(script.to_owned(), byte_offset)
    }

    /// The script name.
    pub fn script(&self) -> (r: &str)
        ensures
            r@ == self.key().0,
    {
        self.0.as_str()
    }

    /// The byte offset.
    pub fn offset(&self) -> (r: usize)
        ensures
            r == self.key().1,
    {
        self.1
    }

    /// The same call site again.
    pub fn duplicate(&self) -> (r: CallSite)
        ensures
            r == *self,
    {
        CallSite(self.0.clone(), self.1)
    }

    /// Whether two call sites are the same place.
    pub fn same_as(&self, other: &CallSite) -> (r: bool)
        ensures
            r == (self.key() == other.key()),
    {
        self.1 == other.1 && same(self.0.as_str(), other.0.as_str())
    }
}

/// The state of one stateful operator.
#[allow(inconsistent_fields)]
#[derive(Debug, Clone, Copy, PartialEq, Eq, Structural)]
pub enum OpState {
    /// Nothing recorded yet.
    Uninit,
    /// A first-order filter.
    Filter {
        /// The output.
        y: F32,
    },
    /// An integral.
    Integral {
        /// The accumulated area.
        acc: F32,
        /// The previous input.
        prev_x: F32,
    },
    /// A backward difference.
    Derivative {
        /// The previous input.
        prev_x: F32,
        /// The previous output.
        prev_d: F32,
    },
    /// A difference over accepted updates.
    DerivativeAdaptive {
        /// The input at the last accepted update.
        last_x: F32,
        /// The output held since.
        prev_d: F32,
        /// The seconds since.
        elapsed: F64,
    },
    /// A timed Boolean.
    Timed {
        /// The committed output.
        output: bool,
        /// The value being timed.
        candidate: bool,
        /// The seconds it has held.
        held: F64,
    },
    /// A change detector on a number.
    ChangeBy {
        /// The reference value.
        prev_x: M1Scalar,
        /// The seconds the condition has held.
        held: F64,
        /// Whether the pulse or the output is spent.
        pending: bool,
    },
    /// A change detector on a Boolean.
    ChangeEdge {
        /// The previous level.
        prev: bool,
        /// The seconds since the edge.
        held: F64,
    },
    /// A filtered debounce.
    DebounceFilter {
        /// The committed output.
        output: bool,
        /// The filtered level.
        level: F32,
    },
    /// A countdown.
    Timer {
        /// The seconds left.
        remaining: F64,
        /// Whether it is counting.
        running: bool,
    },
    /// The last run of an elapsed-time call.
    SystemElapsed {
        /// When the call last ran.
        last_execution_s: F64,
    },
}

/// The state of every stateful operator, by call site.
#[derive(Debug)]
pub struct StateStore(pub Vec<(CallSite, OpState)>);

/// The position of the first entry for a site, or the length where there is none.
pub open spec fn slot_of(s: Seq<(CallSite, OpState)>, site: SiteKey) -> int
    decreases s.len(),
{
    if s.len() == 0 {
        0
    } else if s[0].0.key() == site {
        0
    } else {
        1 + slot_of(s.drop_first(), site)
    }
}

/// `slot_of` by what it finds.
proof fn lemma_slot_of(s: Seq<(CallSite, OpState)>, site: SiteKey, i: int)
    requires
        0 <= i <= s.len(),
        forall|j: int| 0 <= j < i ==> (#[trigger] s[j]).0.key() != site,
        i < s.len() ==> s[i].0.key() == site,
    ensures
        slot_of(s, site) == i,
    decreases s.len(),
{
    if i > 0 {
        let t = s.drop_first();
        assert forall|j: int| 0 <= j < i - 1 implies (#[trigger] t[j]).0.key() != site by {
            assert(t[j] == s[j + 1]);
        }
        lemma_slot_of(t, site, i - 1);
    }
}

/// What `slot_of` finds.
proof fn lemma_slot_found(s: Seq<(CallSite, OpState)>, site: SiteKey)
    ensures
        0 <= slot_of(s, site) <= s.len(),
        forall|j: int| 0 <= j < slot_of(s, site) ==> (#[trigger] s[j]).0.key() != site,
        slot_of(s, site) < s.len() ==> s[slot_of(s, site)].0.key() == site,
    decreases s.len(),
{
    if s.len() > 0 && s[0].0.key() != site {
        let t = s.drop_first();
        lemma_slot_found(t, site);
        assert forall|j: int| 0 <= j < slot_of(s, site) implies (#[trigger] s[j]).0.key() != site by {
            if j > 0 {
                assert(t[j - 1] == s[j]);
            }
        }
    }
}

/// The states by site; of two entries for one site the first counts.
pub open spec fn states_of(s: Seq<(CallSite, OpState)>) -> Map<SiteKey, OpState> {
    Map::new(
        |site: SiteKey| slot_of(s, site) < s.len(),
        |site: SiteKey| s[slot_of(s, site)].1,
    )
}

impl View for StateStore {
    type V = Map<SiteKey, OpState>;

    open spec fn view(&self) -> Map<SiteKey, OpState> {
        states_of(self.0@)
    }
}

/// Writing into the entry of a site.
proof fn lemma_write(s: Seq<(CallSite, OpState)>, i: int, e: (CallSite, OpState), site: SiteKey)
    requires
        0 <= i < s.len(),
        slot_of(s, site) == i,
        e.0.key() == site,
    ensures
        states_of(s.update(i, e)) == states_of(s).insert(site, e.1),
{
    let t = s.update(i, e);
    let m = states_of(s).insert(site, e.1);
    lemma_slot_found(s, site);
    assert forall|k: SiteKey|
        #![trigger states_of(t).contains_key(k)]
        #![trigger m.contains_key(k)]
        #![trigger states_of(t)[k]]
        #![trigger m[k]]
        states_of(t).contains_key(k) == m.contains_key(k) && (m.contains_key(k)
            ==> states_of(t)[k] == m[k]) by {
        lemma_slot_found(s, k);
        let p = slot_of(s, k);
        assert forall|j: int| 0 <= j < p implies (#[trigger] t[j]).0.key() != k by {
            assert(s[j].0.key() != k);
        }
        lemma_slot_of(t, k, p);
    }
    assert(states_of(t) =~= m);
}

/// Adding an entry for a new site.
proof fn lemma_append(s: Seq<(CallSite, OpState)>, e: (CallSite, OpState))
    requires
        slot_of(s, e.0.key()) == s.len(),
    ensures
        states_of(s.push(e)) == states_of(s).insert(e.0.key(), e.1),
        slot_of(s.push(e), e.0.key()) == s.len(),
{
    let t = s.push(e);
    let site = e.0.key();
    let m = states_of(s).insert(site, e.1);
    lemma_slot_found(s, site);
    assert forall|k: SiteKey|
        #![trigger states_of(t).contains_key(k)]
        #![trigger m.contains_key(k)]
        #![trigger states_of(t)[k]]
        #![trigger m[k]]
        states_of(t).contains_key(k) == m.contains_key(k) && (m.contains_key(k)
            ==> states_of(t)[k] == m[k]) by {
        lemma_slot_found(s, k);
        let p = slot_of(s, k);
        let q = if p < s.len() || k == site {
            p
        } else {
            p + 1
        };
        assert forall|j: int| 0 <= j < q implies (#[trigger] t[j]).0.key() != k by {
            if j < s.len() {
                assert(s[j].0.key() != k);
            }
        }
        lemma_slot_of(t, k, q);
    }
    assert(states_of(t) =~= m);
    assert forall|j: int| 0 <= j < s.len() implies (#[trigger] t[j]).0.key() != site by {
        assert(s[j].0.key() != site);
    }
    lemma_slot_of(t, site, s.len() as int);
}

impl StateStore {
    /// An empty store.
    pub fn new() -> (r: StateStore)
        ensures
            r@ == Map::<SiteKey, OpState>::empty(),
            r.0.len() == 0,
    {
        let r = StateStore(Vec::new());
        assert(r@ =~= Map::<SiteKey, OpState>::empty());
        r
    }

    /// The position of the entry of a site.
    fn find(&self, site: &CallSite) -> (i: usize)
        ensures
            i == slot_of(self.0@, site.key()),
            i <= self.0.len(),
    {
        let mut i: usize = 0;
        while i < self.0.len() && !self.0[i].0.same_as(site)
            invariant
                i <= self.0.len(),
                forall|j: int| 0 <= j < i ==> (#[trigger] self.0@[j]).0.key() != site.key(),
            decreases self.0.len() - i,
        {
            i = i + 1;
        }
        proof {
            lemma_slot_of(self.0@, site.key(), i as int);
        }
        i
    }

    /// The state of a site, recorded as [`OpState::Uninit`] on first access.
    pub fn entry(&mut self, site: CallSite) -> (r: &mut OpState)
        ensures
            *r == old(self).current(site.key()),
            final(self)@ == old(self)@.insert(site.key(), *final(r)),
    {
        let i: usize = self.find(&site);
        let ghost key = site.key();
        let ghost before = self.0@;
        proof {
            lemma_slot_found(before, key);
        }
        if i == self.0.len() {
            proof {
                lemma_append(before, (site, OpState::Uninit));
            }
            self.0.push((site, OpState::Uninit));
        }
        let ghost s = self.0@;
        proof {
            lemma_slot_found(s, key);
            assert forall|v: OpState|
                #![trigger s.update(i as int, (s[i as int].0, v))]
                states_of(s.update(i as int, (s[i as int].0, v))) == states_of(before).insert(key, v) by {
                lemma_write(s, i as int, (s[i as int].0, v), key);
                assert(states_of(before).insert(key, OpState::Uninit).insert(key, v)
                    =~= states_of(before).insert(key, v));
            }
        }
        &mut self.0[i].1
    }

    /// The state that a call at a site starts from.
    pub open spec fn current(&self, site: SiteKey) -> OpState {
        if self@.contains_key(site) {
            self@[site]
        } else {
            OpState::Uninit
        }
    }

    /// The state of a site, if any is recorded.
    pub fn get(&self, site: &CallSite) -> (r: Option<&OpState>)
        ensures
            r.is_some() == self@.contains_key(site.key()),
            r.is_some() ==> *r.unwrap() == self@[site.key()],
    {
        let i: usize = self.find(site);
        if i < self.0.len() {
            Some(&self.0[i].1)
        } else {
            None
        }
    }
}

/// The key of a `static local`: its function, a unit separator and its name.
pub open spec fn static_name(fn_symbol: Seq<char>, var: Seq<char>) -> Seq<char> {
    fn_symbol.push('\u{1f}') + var
}

fn static_key(fn_symbol: &str, var: &str) -> (r: String)
    ensures
        r@ == static_name(fn_symbol@, var@),
{
    let mut r: String = fn_symbol.to_owned();
    r.push('\u{1f}');
    r.append(var);
    r
}

/// Channel and parameter values, function locals and `static local` variables.
#[derive(Debug)]
pub struct Env {
    /// Channel and parameter values, by canonical path.
    pub values: TextMap<Value>,
    /// The locals of the function that is executing.
    pub locals: TextMap<Value>,
    /// The `static local` variables, by function and name.
    pub statics: TextMap<Value>,
    /// What the executing function has assigned to its return object.
    pub out: Option<Value>,
    /// Scenario values for hardware calls, by call name.
    pub io: TextMap<Value>,
    /// Scenario values for single hardware calls, by call name and call site.
    pub io_sites: Vec<(String, CallSite, Value)>,
    /// The offset of local time from UTC.
    pub unix_timezone_offset_seconds: i32,
    /// Whether a channel that nothing has set reads as its startup default.
    pub default_unseeded_channels: bool,
}

impl Env {
    /// An empty environment.
    pub fn new() -> (r: Env)
        ensures
            r.values@ == Map::<Seq<char>, Value>::empty(),
            r.locals@ == Map::<Seq<char>, Value>::empty(),
            r.statics@ == Map::<Seq<char>, Value>::empty(),
            r.out is None,
            r.io@ == Map::<Seq<char>, Value>::empty(),
            r.io_sites@ == Seq::<(String, CallSite, Value)>::empty(),
            r.unix_timezone_offset_seconds == 0,
            !r.default_unseeded_channels,
    {
        Env {
            values: TextMap::new(),
            locals: TextMap::new(),
            statics: TextMap::new(),
            out: None,
            io: TextMap::new(),
            io_sites: Vec::new(),
            unix_timezone_offset_seconds: 0,
            default_unseeded_channels: false,
        }
    }

    /// The value at a canonical path.
    pub fn get(&self, path: &str) -> (r: Option<&Value>)
        ensures
            r.is_some() == self.values@.contains_key(path@),
            r.is_some() ==> *r.unwrap() == self.values@[path@],
    {
        self.values.get(path)
    }

    /// Sets the value at a canonical path.
    pub fn set(&mut self, path: &str, value: Value)
        ensures
            final(self).values@ == old(self).values@.insert(path@, value),
            *final(self) == (Env { values: final(self).values, ..*old(self) }),
    {
        self.values.insert(path.to_owned(), value);
    }

    /// The value of a local.
    pub fn get_local(&self, name: &str) -> (r: Option<&Value>)
        ensures
            r.is_some() == self.locals@.contains_key(name@),
            r.is_some() ==> *r.unwrap() == self.locals@[name@],
    {
        self.locals.get(name)
    }

    /// Sets a local.
    pub fn set_local(&mut self, name: &str, value: Value)
        ensures
            final(self).locals@ == old(self).locals@.insert(name@, value),
            *final(self) == (Env { locals: final(self).locals, ..*old(self) }),
    {
        self.locals.insert(name.to_owned(), value);
    }

    /// The value of a `static local` of a function.
    pub fn get_static(&self, fn_symbol: &str, var: &str) -> (r: Option<&Value>)
        ensures
            r.is_some() == self.statics@.contains_key(static_name(fn_symbol@, var@)),
            r.is_some() ==> *r.unwrap() == self.statics@[static_name(fn_symbol@, var@)],
    {
        let key = static_key(fn_symbol, var);
        self.statics.get(key.as_str())
    }

    /// Sets a `static local` of a function.
    pub fn set_static(&mut self, fn_symbol: &str, var: &str, value: Value)
        ensures
            final(self).statics@ == old(self).statics@.insert(
                static_name(fn_symbol@, var@),
                value,
            ),
            *final(self) == (Env { statics: final(self).statics, ..*old(self) }),
    {
        let key = static_key(fn_symbol, var);
        self.statics.insert(key, value);
    }

    /// Starts a function with no locals. Statics and channel values stay.
    pub fn enter_function(&mut self)
        ensures
            final(self).locals@ == Map::<Seq<char>, Value>::empty(),
            *final(self) == (Env { locals: final(self).locals, ..*old(self) }),
    {
        self.locals.clear();
    }

    /// Ends a function and drops its locals. Statics and channel values stay.
    pub fn leave_function(&mut self)
        ensures
            final(self).locals@ == Map::<Seq<char>, Value>::empty(),
            *final(self) == (Env { locals: final(self).locals, ..*old(self) }),
    {
        self.locals.clear();
    }

    /// The scenario value for a hardware call by name.
    pub fn io_override(&self, name: &str) -> (r: Option<&Value>)
        ensures
            r.is_some() == self.io@.contains_key(name@),
            r.is_some() ==> *r.unwrap() == self.io@[name@],
    {
        self.io.get(name)
    }

    /// Sets the scenario value for a hardware call by name.
    pub fn set_io_override(&mut self, name: &str, value: Value)
        ensures
            final(self).io@ == old(self).io@.insert(name@, value),
            *final(self) == (Env { io: final(self).io, ..*old(self) }),
    {
        self.io.insert(name.to_owned(), value);
    }

    /// The position of the scenario value for one hardware call, or the count where there is none.
    pub open spec fn io_slot(s: Seq<(String, CallSite, Value)>, name: Seq<char>, site: SiteKey) -> int
        decreases s.len(),
    {
        if s.len() == 0 {
            0
        } else if s.last().0@ == name && s.last().1.key() == site {
            s.len() - 1
        } else {
            let i = Env::io_slot(s.drop_last(), name, site);
            if i < s.len() - 1 {
                i
            } else {
                s.len() as int
            }
        }
    }

    /// The scenario value for one hardware call. The latest one counts.
    pub fn io_override_at(&self, name: &str, site: &CallSite) -> (r: Option<&Value>)
        ensures
            ({
                let i = Env::io_slot(self.io_sites@, name@, site.key());
                if i < self.io_sites.len() {
                    r.is_some() && *r.unwrap() == self.io_sites@[i].2
                } else {
                    r is None
                }
            }),
    {
        let mut n: usize = self.io_sites.len();
        let ghost total = self.io_sites@;
        assert(total.take(n as int) == total);
        while n > 0
            invariant
                n <= total.len(),
                total == self.io_sites@,
                ({
                    let i = Env::io_slot(total.take(n as int), name@, site.key());
                    let j = Env::io_slot(total, name@, site.key());
                    if i < n {
                        j == i
                    } else {
                        j == total.len()
                    }
                }),
            decreases n,
        {
            let e = &self.io_sites[n - 1];
            assert(total.take(n as int).last() == total[n - 1]);
            assert(total.take(n as int).drop_last() == total.take(n - 1));
            if same(e.0.as_str(), name) && e.1.same_as(site) {
                return Some(&e.2);
            }
            n = n - 1;
        }
        None
    }

    /// Sets the scenario value for one hardware call.
    pub fn set_io_override_at(&mut self, name: &str, site: CallSite, value: Value)
        ensures
            final(self).io_sites@.drop_last() == old(self).io_sites@,
            final(self).io_sites@.len() == old(self).io_sites@.len() + 1,
            final(self).io_sites@.last().0@ == name@,
            final(self).io_sites@.last().1 == site,
            final(self).io_sites@.last().2 == value,
            *final(self) == (Env { io_sites: final(self).io_sites, ..*old(self) }),
    {
        self.io_sites.push((name.to_owned(), site, value));
        assert(self.io_sites@.drop_last() =~= old(self).io_sites@);
    }
}

/// Two functions keep their `static local` variables apart.
///
/// The separator occurs in no symbol path, so the key tells function and variable.
pub proof fn law_statics_do_not_collide(f: Seq<char>, x: Seq<char>, g: Seq<char>, y: Seq<char>)
    requires
        !f.contains('\u{1f}'),
        !g.contains('\u{1f}'),
        static_name(f, x) == static_name(g, y),
    ensures
        f == g,
        x == y,
{
    let a = static_name(f, x);
    let b = static_name(g, y);
    assert(a[f.len() as int] == '\u{1f}');
    assert(b[g.len() as int] == '\u{1f}');
    if f.len() < g.len() {
        assert(b[f.len() as int] == g[f.len() as int]);
    }
    if g.len() < f.len() {
        assert(a[g.len() as int] == f[g.len() as int]);
    }
    assert forall|i: int| 0 <= i < f.len() implies f[i] == g[i] by {
        assert(a[i] == f[i] && b[i] == g[i]);
    }
    assert(f =~= g);
    assert(a.len() == f.len() + 1 + x.len() && b.len() == g.len() + 1 + y.len());
    assert forall|i: int| 0 <= i < x.len() implies x[i] == y[i] by {
        assert(a[f.len() + 1 + i] == x[i]);
        assert(b[f.len() + 1 + i] == y[i]);
    }
    assert(x =~= y);
}

} // verus!
