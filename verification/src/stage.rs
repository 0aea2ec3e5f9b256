//! Plans of the statements that manage stages. The description of a stage
//! belongs to the catalog; the plans carry it as they are given it.

use vstd::prelude::*;

verus! {

/// The plan of `CREATE STAGE`.
#[derive(Clone, Debug, PartialEq, Eq)]
pub struct CreateStagePlan<StageInfo> {
    /// Whether a stage that exists already is passed over in silence.
    pub if_not_exists: bool,
    /// The tenant that the stage belongs to.
    pub tenant: String,
    /// The description of the stage.
    pub stage_info: StageInfo,
}

/// The plan of `DROP STAGE`.
#[derive(Clone, Debug, PartialEq, Eq)]
pub struct DropStagePlan {
    /// Whether a stage that does not exist is passed over in silence.
    pub if_exists: bool,
    /// The name of the stage.
    pub name: String,
}

/// The plan of `REMOVE`.
#[derive(Clone, Debug, PartialEq, Eq)]
pub struct RemoveStagePlan<StageInfo> {
    /// The description of the stage.
    pub stage: StageInfo,
    /// The path under the stage.
    pub path: String,
    /// The pattern that the names of the files to remove match.
    pub pattern: String,
}

} // verus!
