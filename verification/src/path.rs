//! Paths as texts whose parts are separated by `/`.
//!
//! Two spellings with the same parts are one path.

use crate::project::{after_prefix, has_prefix, split_at_leaf, split_leaf};
use crate::text::{chars_of, lower, lowered, same};
use vstd::prelude::*;

verus! {

/// What the parts of a path come to, read from the left.
pub struct PathScan {
    /// The parts so far, escaped and with a NUL between them.
    pub key: Seq<char>,
    /// The last part.
    pub name: Seq<char>,
    /// The part that is being read.
    pub current: Seq<char>,
    /// Whether a part leads upwards.
    pub climbs: bool,
}

/// A part in which no character is a NUL. The order of texts is kept: a NUL and the
/// character after it are written as two characters each.
pub open spec fn escaped(s: Seq<char>) -> Seq<char>
    decreases s.len(),
{
    if s.len() == 0 {
        Seq::empty()
    } else if s.last() == '\0' {
        escaped(s.drop_last()).push('\u{1}').push('\u{1}')
    } else if s.last() == '\u{1}' {
        escaped(s.drop_last()).push('\u{1}').push('\u{2}')
    } else {
        escaped(s.drop_last()).push(s.last())
    }
}

fn escape(s: &str) -> (r: String)
    ensures
        r@ == escaped(s@),
{
    let v = chars_of(s);
    let mut r: String = String::new();
    let mut i: usize = 0;
    assert(r@ =~= escaped(s@.take(0)));
    while i < v.len()
        invariant
            i <= v.len(),
            v@ == s@,
            r@ == escaped(s@.take(i as int)),
        decreases v.len() - i,
    {
        assert(s@.take(i + 1).drop_last() =~= s@.take(i as int));
        assert(s@.take(i + 1).last() == s@[i as int]);
        let c: char = v[i];
        if c == '\0' {
            r.push('\u{1}');
            r.push('\u{1}');
        } else if c == '\u{1}' {
            r.push('\u{1}');
            r.push('\u{2}');
        } else {
            r.push(c);
        }
        i = i + 1;
    }
    assert(s@.take(i as int) =~= s@);
    r
}

/// A scan with its current part ended. Empty parts and those that stay in place are dropped.
pub open spec fn ended(s: PathScan) -> PathScan {
    if s.current.len() == 0 || s.current == "."@ {
        PathScan { current: Seq::empty(), ..s }
    } else {
        PathScan {
            key: if s.key.len() == 0 {
                escaped(s.current)
            } else {
                s.key.push('\0') + escaped(s.current)
            },
            name: s.current,
            current: Seq::empty(),
            climbs: s.climbs || s.current == ".."@,
        }
    }
}

/// The scan of a text.
pub open spec fn scanned(s: Seq<char>) -> PathScan
    decreases s.len(),
{
    if s.len() == 0 {
        PathScan { key: Seq::empty(), name: Seq::empty(), current: Seq::empty(), climbs: false }
    } else {
        let p = scanned(s.drop_last());
        if s.last() == '/' {
            ended(p)
        } else {
            PathScan { current: p.current.push(s.last()), ..p }
        }
    }
}

/// The parts of a path, escaped and with a NUL between them. Paths are ordered by it.
pub open spec fn path_key(s: Seq<char>) -> Seq<char> {
    ended(scanned(s)).key
}

/// The last part of a path.
pub open spec fn base_name(s: Seq<char>) -> Seq<char> {
    ended(scanned(s)).name
}

/// Whether a path stays below the bundle and starts with a name.
pub open spec fn is_relative(s: Seq<char>) -> bool {
    s.len() > 0 && s[0] != '/' && s != "."@ && !has_prefix(s, "./"@) && !ended(scanned(s)).climbs
}

/// What was read of a path.
pub struct PathParts {
    /// The parts so far, escaped and with a NUL between them.
    pub key: String,
    /// The last part.
    pub name: String,
    /// The part that is being read.
    pub current: String,
    /// Whether a part leads upwards.
    pub climbs: bool,
}

impl View for PathParts {
    type V = PathScan;

    open spec fn view(&self) -> PathScan {
        PathScan { key: self.key@, name: self.name@, current: self.current@, climbs: self.climbs }
    }
}

fn end_part(p: PathParts) -> (r: PathParts)
    ensures
        r@ == ended(p@),
{
    if p.current.as_str().is_empty() || same(p.current.as_str(), ".") {
        let r = PathParts { key: p.key, name: p.name, current: String::new(), climbs: p.climbs };
        assert(r@.current =~= Seq::<char>::empty());
        r
    } else {
        let climbs = p.climbs || same(p.current.as_str(), "..");
        let part = escape(p.current.as_str());
        let mut key = p.key;
        if key.as_str().is_empty() {
            key = part;
        } else {
            key.push('\0');
            key.append(part.as_str());
        }
        let r = PathParts { key, name: p.current, current: String::new(), climbs };
        assert(r@.current =~= Seq::<char>::empty());
        r
    }
}

pub(crate) fn scan_path(s: &str) -> (r: PathParts)
    ensures
        r@ == ended(scanned(s@)),
{
    let v = chars_of(s);
    let mut p = PathParts {
        key: String::new(),
        name: String::new(),
        current: String::new(),
        climbs: false,
    };
    assert(p@ == scanned(s@.take(0))) by {
        assert(p@.key =~= Seq::<char>::empty());
        assert(p@.name =~= Seq::<char>::empty());
        assert(p@.current =~= Seq::<char>::empty());
    }
    let mut i: usize = 0;
    while i < v.len()
        invariant
            i <= v.len(),
            v@ == s@,
            p@ == scanned(s@.take(i as int)),
        decreases v.len() - i,
    {
        assert(s@.take(i + 1).drop_last() =~= s@.take(i as int));
        assert(s@.take(i + 1).last() == s@[i as int]);
        if v[i] == '/' {
            p = end_part(p);
        } else {
            p.current.push(v[i]);
        }
        i = i + 1;
    }
    assert(s@.take(i as int) =~= s@);
    end_part(p)
}

/// Whether a path stays below the bundle and starts with a name.
pub fn validate_relative_path(s: &str) -> (r: bool)
    ensures
        r == is_relative(s@),
{
    let v = chars_of(s);
    if v.len() == 0 || v[0] == '/' || same(s, ".") || after_prefix(s, "./").is_some() {
        return false;
    }
    let p = scan_path(s);
    !p.climbs
}

/// The extension of a path: what follows the last dot of its last part, where something
/// stands before that dot.
pub open spec fn extension_of(s: Seq<char>) -> Option<Seq<char>> {
    match split_leaf(base_name(s)) {
        Some((stem, leaf)) if stem.len() > 0 && base_name(s) != ".."@ => Some(leaf),
        _ => None,
    }
}

/// The extension of a path in lower case.
pub fn extension(s: &str) -> (r: Option<String>)
    ensures
        match extension_of(s@) {
            Some(e) => r matches Some(x) && x@ == lowered(e),
            None => r is None,
        },
{
    let p = scan_path(s);
    if same(p.name.as_str(), "..") {
        return None;
    }
    match split_at_leaf(p.name.as_str()) {
        Some((stem, leaf)) => {
            if stem.as_str().is_empty() {
                None
            } else {
                Some(lower(leaf.as_str()))
            }
        },
        None => None,
    }
}

} // verus!
