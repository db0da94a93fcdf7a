//! Records of executed cleanups and restores.
//!
//! Paths are held as text; timestamps are nanoseconds since the Unix epoch.
use vstd::prelude::*;

use crate::model::PlannedAction;

verus! {

/// What was done to the items of one cleanup run.
#[derive(Debug, Clone, PartialEq, Eq)]
pub struct ExecutionManifest {
    pub schema_version: String,
    pub run_id: String,
    pub created_at: i64,
    pub plan_schema_version: String,
    pub authorization: Option<ExecutionAuthorization>,
    pub summary: ExecutionSummary,
    pub items: Vec<ExecutionItem>,
}

/// Who authorized a cleanup run.
#[derive(Debug, Clone, PartialEq, Eq)]
pub struct ExecutionAuthorization {
    pub source: CleanupAuthorizationSource,
}

#[derive(Debug, Clone, Copy, PartialEq, Eq, Structural)]
pub enum CleanupAuthorizationSource {
    LocalUserConfirmation,
    ExplicitUserDelegation,
}

/// Counts of the items of a cleanup run by outcome.
#[derive(Debug, Clone, PartialEq, Eq, Structural)]
pub struct ExecutionSummary {
    pub attempted: usize,
    pub succeeded: usize,
    pub failed: usize,
}

impl Default for ExecutionSummary {
    fn default() -> (res: Self)
        ensures
            res.attempted == 0 && res.succeeded == 0 && res.failed == 0,
    {
        ExecutionSummary { attempted: 0, succeeded: 0, failed: 0 }
    }
}

/// One item of a cleanup run.
#[derive(Debug, Clone, PartialEq, Eq)]
pub struct ExecutionItem {
    pub path: String,
    pub planned_action: PlannedAction,
    pub status: ExecutionStatus,
    pub rule_id: String,
    pub rollback_receipt: Option<RollbackReceipt>,
    pub error: Option<String>,
}

#[derive(Debug, Clone, Copy, PartialEq, Eq, Structural)]
pub enum ExecutionStatus {
    Pending,
    Trashed,
    Failed,
    Skipped,
}

/// How an item that went to the trash can be brought back.
#[derive(Debug, Clone, PartialEq, Eq)]
pub struct RollbackReceipt {
    pub method: String,
    pub note: String,
    pub locator: Option<String>,
}

/// What was done to the items of one restore run.
#[derive(Debug, Clone, PartialEq, Eq)]
pub struct RestoreManifest {
    pub schema_version: String,
    pub restore_id: String,
    pub source_run_id: String,
    pub created_at: i64,
    pub summary: RestoreSummary,
    pub items: Vec<RestoreItem>,
}

/// Counts of the items of a restore run by outcome.
#[derive(Debug, Clone, PartialEq, Eq, Structural)]
pub struct RestoreSummary {
    pub attempted: usize,
    pub succeeded: usize,
    pub failed: usize,
    pub pending: usize,
    pub not_attempted: usize,
}

impl Default for RestoreSummary {
    fn default() -> (res: Self)
        ensures
            res.attempted == 0 && res.succeeded == 0 && res.failed == 0 && res.pending == 0
                && res.not_attempted == 0,
    {
        RestoreSummary { attempted: 0, succeeded: 0, failed: 0, pending: 0, not_attempted: 0 }
    }
}

/// One item of a restore run.
#[derive(Debug, Clone, PartialEq, Eq)]
pub struct RestoreItem {
    pub path: String,
    pub status: RestoreStatus,
    pub error: Option<String>,
}

#[derive(Debug, Clone, Copy, PartialEq, Eq, Structural)]
pub enum RestoreStatus {
    /// Selected for this run, but the executor has not been called.
    NotAttempted,
    /// The operation intent was recorded, but its outcome is not yet durable.
    Pending,
    Restored,
    Failed,
    Skipped,
}

} // verus!
