//! The value store and the state of operators.

use m1_eval::env::{CallSite, Env, OpState, StateStore};
use m1_eval::float::binary64::F64;
use m1_eval::value::Value;

/// The binary64 number that the host writes as given.
fn double(x: f64) -> F64 {
    F64::from_bits(x.to_bits())
}


#[test]
fn set_get_roundtrip_on_spaced_path() {
    let mut env = Env::new();
    // M1 identifiers may contain spaces — the whole path is one key.
    env.set("Root.A.Cooling Fan.Output", Value::Float(double(1.5)));
    assert_eq!(
        env.get("Root.A.Cooling Fan.Output"),
        Some(&Value::Float(double(1.5)))
    );
    // A different spelling (split on space) must NOT collide.
    assert_eq!(env.get("Root.A.Cooling"), None);
}

#[test]
fn locals_clear_on_leave_function_but_statics_persist() {
    let mut env = Env::new();
    env.enter_function();
    env.set_local("scaled", Value::Int(3));
    env.set_static("Root.Demo.Update", "accum", Value::Float(double(10.0)));
    assert_eq!(env.get_local("scaled"), Some(&Value::Int(3)));

    env.leave_function();
    // Locals are gone.
    assert_eq!(env.get_local("scaled"), None);
    // The static survives.
    assert_eq!(
        env.get_static("Root.Demo.Update", "accum"),
        Some(&Value::Float(double(10.0)))
    );

    // Re-entering keeps the static available, fresh locals.
    env.enter_function();
    assert_eq!(env.get_local("scaled"), None);
    assert_eq!(
        env.get_static("Root.Demo.Update", "accum"),
        Some(&Value::Float(double(10.0)))
    );
}

#[test]
fn statics_of_different_functions_do_not_collide() {
    let mut env = Env::new();
    env.set_static("Root.Demo.Update", "x", Value::Int(1));
    env.set_static("Root.Other.Update", "x", Value::Int(2));
    assert_eq!(env.get_static("Root.Demo.Update", "x"), Some(&Value::Int(1)));
    assert_eq!(env.get_static("Root.Other.Update", "x"), Some(&Value::Int(2)));
}

#[test]
fn statestore_entry_is_stable_per_callsite() {
    let mut store = StateStore::new();
    let site = CallSite::new("Demo.Update.m1scr", 42);

    // First access default-constructs Uninit.
    assert_eq!(*store.entry(site.clone()), OpState::Uninit);
    // Mutating through the slot persists for the same site.
    *store.entry(site.clone()) = OpState::Uninit;
    assert!(store.get(&site).is_some());

    // A different site is an independent slot.
    let other = CallSite::new("Demo.Update.m1scr", 99);
    assert!(store.get(&other).is_none());
    let _ = store.entry(other.clone());
    assert_eq!(store.0.len(), 2);
}

#[test]
fn callsite_accessors() {
    let site = CallSite::new("Demo.Update.m1scr", 7);
    assert_eq!(site.script(), "Demo.Update.m1scr");
    assert_eq!(site.offset(), 7);
    // Equality keys on both components.
    assert_eq!(site, CallSite("Demo.Update.m1scr".into(), 7));
    assert_ne!(site, CallSite("Demo.Update.m1scr".into(), 8));
}
