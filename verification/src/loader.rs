//! What a loaded project consists of.

use crate::builtins::object::ObjectRules;
use crate::calib::Calibration;
use crate::catalog::Intrinsics;
use crate::context::ParamKind;
use crate::project::Project;
use crate::syntax::ParsedScript;
use crate::triggers::TriggerMap;
use vstd::prelude::*;

verus! {

/// A loaded project.
#[derive(Debug)]
pub struct Loaded {
    /// The project.
    pub project: Project,
    /// The calibration.
    pub calib: Calibration,
    /// The builtin signatures.
    pub catalog: Intrinsics,
    /// The validation rules.
    pub object_rules: ObjectRules,
    /// The families of function parameters and results.
    pub signature_types: Vec<ParamKind>,
    /// The scripts.
    pub scripts: Vec<ParsedScript>,
    /// What makes each function run.
    pub triggers: TriggerMap,
}

} // verus!
