//! What the command line decides.

use crate::path::{extension, extension_of};
use crate::scenario::{RunMode, Scenario};
use crate::text::{lowered, same};
use vstd::prelude::*;

verus! {

/// The format of a written file.
#[derive(Debug, Clone, Copy, PartialEq, Eq, Structural)]
pub enum OutFormat {
    /// JSON.
    Json,
    /// CSV.
    Csv,
}

/// Whether a path has an extension, in any case.
pub open spec fn ends_in(path: Seq<char>, ext: Seq<char>) -> bool {
    match extension_of(path) {
        Some(e) => lowered(e) == ext,
        None => false,
    }
}

fn has_extension(path: &str, ext: &str) -> (r: bool)
    ensures
        r == ends_in(path@, ext@),
{
    match extension(path) {
        Some(e) => same(e.as_str(), ext),
        None => false,
    }
}

/// The format for a path: CSV by its extension, else JSON.
pub fn format_for(path: &str) -> (r: OutFormat)
    ensures
        r == if ends_in(path@, "csv"@) {
            OutFormat::Csv
        } else {
            OutFormat::Json
        },
{
    if has_extension(path, "csv") {
        OutFormat::Csv
    } else {
        OutFormat::Json
    }
}

/// The language of a document.
#[derive(Debug, Clone, Copy, PartialEq, Eq, Structural)]
pub enum DocumentFormat {
    /// JSON.
    Json,
    /// TOML.
    Toml,
    /// Neither.
    Unknown,
}

/// The language of a fixture by its path: JSON or TOML, and no other.
pub fn fixture_format(path: &str) -> (r: DocumentFormat)
    ensures
        r == if ends_in(path@, "json"@) {
            DocumentFormat::Json
        } else if ends_in(path@, "toml"@) {
            DocumentFormat::Toml
        } else {
            DocumentFormat::Unknown
        },
{
    if has_extension(path, "json") {
        DocumentFormat::Json
    } else if has_extension(path, "toml") {
        DocumentFormat::Toml
    } else {
        DocumentFormat::Unknown
    }
}

/// The language of a scenario by its path: JSON, and else TOML.
pub fn scenario_format(path: &str) -> (r: DocumentFormat)
    ensures
        r == if ends_in(path@, "json"@) {
            DocumentFormat::Json
        } else {
            DocumentFormat::Toml
        },
{
    if has_extension(path, "json") {
        DocumentFormat::Json
    } else {
        DocumentFormat::Toml
    }
}

/// Whether an invocation names something to run.
#[derive(Debug, Clone, Copy, PartialEq, Eq, Structural)]
pub enum Usage {
    /// It does.
    Ready,
    /// There is no project.
    NoProject,
    /// There is nothing to do.
    NothingToDo,
}

/// Whether an invocation names something to run: a project, and a scenario, a report or a log.
pub fn usage(project: bool, scenario: bool, coverage: bool, log: bool) -> (r: Usage)
    ensures
        r == if !project {
            Usage::NoProject
        } else if scenario || coverage || log {
            Usage::Ready
        } else {
            Usage::NothingToDo
        },
{
    if !project {
        Usage::NoProject
    } else if scenario || coverage || log {
        Usage::Ready
    } else {
        Usage::NothingToDo
    }
}

/// Lets a flag ask for default inputs. It never takes back what a scenario asks for.
pub fn allow_defaults(scenario: &mut Scenario, flag: bool)
    ensures
        final(scenario).allow_default_inputs == (old(scenario).allow_default_inputs || flag),
        *final(scenario) == (Scenario {
            allow_default_inputs: final(scenario).allow_default_inputs,
            ..*old(scenario)
        }),
{
    if flag {
        scenario.allow_default_inputs = true;
    }
}

/// The mode that flags select over that of a scenario.
pub open spec fn selected_mode(
    mode: RunMode,
    function: Option<String>,
    target: Option<String>,
    whole_project: bool,
) -> RunMode {
    if whole_project {
        RunMode::WholeProject
    } else {
        match (function, target) {
            (Some(f), _) => RunMode::Function(f),
            (None, Some(t)) => RunMode::Cone(t),
            (None, None) => mode,
        }
    }
}

/// Lets flags select the mode over the scenario.
pub fn apply_mode_override(
    scenario: &mut Scenario,
    function: Option<String>,
    target: Option<String>,
    whole_project: bool,
)
    ensures
        final(scenario).mode == selected_mode(old(scenario).mode, function, target, whole_project),
        *final(scenario) == (Scenario { mode: final(scenario).mode, ..*old(scenario) }),
{
    if whole_project {
        scenario.mode = RunMode::WholeProject;
    } else if let Some(f) = function {
        scenario.mode = RunMode::Function(f);
    } else if let Some(t) = target {
        scenario.mode = RunMode::Cone(t);
    }
}

} // verus!
