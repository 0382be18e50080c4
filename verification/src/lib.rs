//! Deterministic, stepped evaluation of MoTeC M1 scripts.

pub mod big;
pub mod builtins;
pub mod calib;
pub mod catalog;
pub mod cli;
pub mod coerce;
pub mod conformance;
pub mod context;
pub mod counterfactual;
pub mod coverage;
pub mod decimal;
pub mod diff;
pub mod engine;
pub mod env;
pub mod error;
pub mod float;
pub mod hardware;
pub mod laws;
pub mod loader;
pub mod log;
pub mod map;
pub mod numeral;
pub mod path;
pub mod project;
pub mod render;
pub mod scenario;
pub mod syntax;
pub mod table;
pub mod text;
pub mod trace;
pub mod triggers;
pub mod value;
pub mod xml;
