//! From an object to the symbol that stores its value.
//!
//! A channel, a parameter or a constant stores its own value. A value compound
//! stands for its declared default, or for its generated `.Value` child.

use crate::coerce::{declares_fixed, names_fixed};
use crate::map::TextMap;
use crate::project::{
    classify, dotted, dotted_text, resolved, text_of, Project, Symbol, SymbolKind, Target,
    TargetView,
};
use crate::value::{Value, ValueType};
use vstd::prelude::*;

verus! {

/// What kind of value is looked for.
#[derive(Clone, Copy, PartialEq, Eq, Structural, Debug)]
pub enum Sought {
    /// A channel that a script may write.
    Writable,
    /// A number.
    Numeric,
    /// A member of an enumeration.
    Enumeration,
}

/// Whether a symbol's type is numeric.
pub open spec fn is_numeric(symbol: Symbol) -> bool {
    symbol.value_type.is_numeric() || names_fixed(text_of(symbol.declared_type))
}

/// Whether a symbol may hold a value of its own.
pub open spec fn holds_value(kind: SymbolKind) -> bool {
    match kind {
        SymbolKind::Channel => true,
        SymbolKind::Parameter => true,
        SymbolKind::Constant => true,
        SymbolKind::Object => true,
        SymbolKind::Reference => true,
        SymbolKind::Other => true,
        _ => false,
    }
}

/// Whether a symbol stores what is looked for itself.
pub open spec fn stores(sought: Sought, symbol: Symbol) -> bool {
    match sought {
        Sought::Writable => symbol.kind is Channel,
        Sought::Numeric => holds_value(symbol.kind) && is_numeric(symbol),
        Sought::Enumeration => holds_value(symbol.kind) && symbol.value_type is Enum,
    }
}

/// Whether a symbol may stand for its `.Value` child.
pub open spec fn stands_for_child(sought: Sought, kind: SymbolKind) -> bool {
    match kind {
        SymbolKind::Group => true,
        SymbolKind::Table => !(sought is Writable),
        SymbolKind::Object => !(sought is Writable),
        _ => false,
    }
}

/// The symbol that a value compound's default names.
pub open spec fn default_target(project: Project, canon: Seq<char>) -> Option<Seq<char>> {
    let symbol = project.symbols@[canon];
    match symbol.default_value {
        Some(default) if symbol.kind is Group => match resolved(
            project,
            default@,
            Some(canon),
            None,
            Map::empty(),
        ) {
            TargetView::Symbol(path) => Some(path),
            _ => None,
        },
        _ => None,
    }
}

/// The symbol that stores an object's value, and the symbols passed on the way.
/// A symbol is passed once, and at most `fuel` deep. Nothing is written past a
/// declared default that is not writable.
pub open spec fn stored_at(
    project: Project,
    sought: Sought,
    canon: Seq<char>,
    seen: Map<Seq<char>, bool>,
    fuel: nat,
) -> (Option<Seq<char>>, Map<Seq<char>, bool>)
    decreases fuel,
{
    if fuel == 0 || seen.contains_key(canon) {
        (None, seen)
    } else {
        let seen = seen.insert(canon, true);
        if !project.symbols@.contains_key(canon) {
            (None, seen)
        } else if stores(sought, project.symbols@[canon]) {
            (Some(canon), seen)
        } else {
            let (found, seen) = match default_target(project, canon) {
                Some(path) => stored_at(project, sought, path, seen, (fuel - 1) as nat),
                None => (None, seen),
            };
            let child = dotted(canon, "Value"@);
            if found is Some || (sought is Writable && default_target(project, canon) is Some) {
                (found, seen)
            } else if stands_for_child(sought, project.symbols@[canon].kind)
                && project.symbols@.contains_key(child) {
                stored_at(project, sought, child, seen, (fuel - 1) as nat)
            } else {
                (None, seen)
            }
        }
    }
}

/// The symbol that stores an object's value.
pub open spec fn value_path_of(project: Project, sought: Sought, canon: Seq<char>) -> Option<Seq<char>> {
    stored_at(project, sought, canon, Map::empty(), (project.symbols.items().len() + 1) as nat).0
}

fn numeric_symbol(symbol: &Symbol) -> (r: bool)
    ensures
        r == is_numeric(*symbol),
{
    match symbol.value_type {
        ValueType::Integer | ValueType::Unsigned | ValueType::Float => true,
        _ => declares_fixed(&symbol.declared_type),
    }
}

fn symbol_stores(sought: Sought, symbol: &Symbol) -> (r: bool)
    ensures
        r == stores(sought, *symbol),
{
    let own = match symbol.kind {
        SymbolKind::Channel
        | SymbolKind::Parameter
        | SymbolKind::Constant
        | SymbolKind::Object
        | SymbolKind::Reference
        | SymbolKind::Other => true,
        _ => false,
    };
    match sought {
        Sought::Writable => match symbol.kind {
            SymbolKind::Channel => true,
            _ => false,
        },
        Sought::Numeric => own && numeric_symbol(symbol),
        Sought::Enumeration => own && match symbol.value_type {
            ValueType::Enum(_) => true,
            _ => false,
        },
    }
}

fn default_symbol(project: &Project, canon: &str, symbol: &Symbol) -> (r: Option<String>)
    requires
        project.symbols@.contains_key(canon@),
        project.symbols@[canon@] == *symbol,
    ensures
        match default_target(*project, canon@) {
            Some(path) => r matches Some(p) && p@ == path,
            None => r is None,
        },
{
    let group = match symbol.kind {
        SymbolKind::Group => true,
        _ => false,
    };
    match &symbol.default_value {
        Some(default) if group => {
            let none: TextMap<Value> = TextMap::new();
            match classify(default.as_str(), Some(canon), None, project, &none) {
                Target::Symbol(path) => Some(path),
                _ => None,
            }
        },
        _ => None,
    }
}

fn find_stored(project: &Project, sought: Sought, canon: &str, seen: &mut TextMap<bool>, fuel: u128) -> (r: Option<String>)
    ensures
        ({
            let (found, passed) = stored_at(*project, sought, canon@, old(seen)@, fuel as nat);
            final(seen)@ == passed && match found {
                Some(p) => r matches Some(x) && x@ == p,
                None => r is None,
            }
        }),
    decreases fuel,
{
    if fuel == 0 || seen.contains(canon) {
        return None;
    }
    seen.insert(canon.to_owned(), true);
    let symbol = match project.symbols.get(canon) {
        Some(s) => s,
        None => return None,
    };
    if symbol_stores(sought, symbol) {
        return Some(canon.to_owned());
    }
    let writable = match sought {
        Sought::Writable => true,
        _ => false,
    };
    if let Some(path) = default_symbol(project, canon, symbol) {
        let found = find_stored(project, sought, path.as_str(), seen, fuel - 1);
        if found.is_some() || writable {
            return found;
        }
    }
    let stands = match symbol.kind {
        SymbolKind::Group => true,
        SymbolKind::Table | SymbolKind::Object => !writable,
        _ => false,
    };
    if stands {
        let child = dotted_text(canon, "Value");
        if project.symbols.contains(child.as_str()) {
            return find_stored(project, sought, child.as_str(), seen, fuel - 1);
        }
    }
    None
}

/// The symbol that stores an object's value.
pub fn value_path(project: &Project, sought: Sought, canon: &str) -> (r: Option<String>)
    ensures
        match value_path_of(*project, sought, canon@) {
            Some(p) => r matches Some(x) && x@ == p,
            None => r is None,
        },
{
    let mut seen: TextMap<bool> = TextMap::new();
    let fuel: u128 = project.symbols.len() as u128 + 1;
    find_stored(project, sought, canon, &mut seen, fuel)
}

/// The channel that `GetUnscheduled` reads: a numeric channel, or the numeric
/// `.Value` channel of a table.
pub open spec fn unscheduled_path_of(project: Project, canon: Seq<char>) -> Option<Seq<char>> {
    let symbols = project.symbols@;
    let child = dotted(canon, "Value"@);
    if !symbols.contains_key(canon) {
        None
    } else if symbols[canon].kind is Channel && is_numeric(symbols[canon]) {
        Some(canon)
    } else if symbols[canon].kind is Table && symbols.contains_key(child)
        && symbols[child].kind is Channel && is_numeric(symbols[child]) {
        Some(child)
    } else {
        None
    }
}

/// The channel that `GetUnscheduled` reads.
pub fn unscheduled_value_path(project: &Project, canon: &str) -> (r: Option<String>)
    ensures
        match unscheduled_path_of(*project, canon@) {
            Some(p) => r matches Some(x) && x@ == p,
            None => r is None,
        },
{
    let symbol = match project.symbols.get(canon) {
        Some(s) => s,
        None => return None,
    };
    match symbol.kind {
        SymbolKind::Channel => {
            if numeric_symbol(symbol) {
                Some(canon.to_owned())
            } else {
                None
            }
        },
        SymbolKind::Table => {
            let child = dotted_text(canon, "Value");
            match project.symbols.get(child.as_str()) {
                Some(s) => match s.kind {
                    SymbolKind::Channel => {
                        if numeric_symbol(s) {
                            Some(child)
                        } else {
                            None
                        }
                    },
                    _ => None,
                },
                None => None,
            }
        },
        _ => None,
    }
}

/// What is found to store a value is a symbol that stores it.
pub proof fn law_stored_symbol_stores(
    project: Project,
    sought: Sought,
    canon: Seq<char>,
    seen: Map<Seq<char>, bool>,
    fuel: nat,
)
    ensures
        stored_at(project, sought, canon, seen, fuel).0 matches Some(path) ==> {
            &&& project.symbols@.contains_key(path)
            &&& stores(sought, project.symbols@[path])
        },
    decreases fuel,
{
    if fuel > 0 && !seen.contains_key(canon) && project.symbols@.contains_key(canon) && !stores(
        sought,
        project.symbols@[canon],
    ) {
        let next = seen.insert(canon, true);
        let less = (fuel - 1) as nat;
        let after = match default_target(project, canon) {
            Some(path) => {
                law_stored_symbol_stores(project, sought, path, next, less);
                stored_at(project, sought, path, next, less).1
            },
            None => next,
        };
        law_stored_symbol_stores(project, sought, dotted(canon, "Value"@), after, less);
    }
}

} // verus!
