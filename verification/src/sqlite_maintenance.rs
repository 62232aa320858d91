//! SQLite maintenance: WAL checkpoint modes, pragma snapshots, maintenance
//! plans and the steps and report of a maintenance run.
use vstd::prelude::*;

verus! {

/// The modes of `PRAGMA wal_checkpoint`.
#[derive(Debug, Clone, Copy, PartialEq, Eq, Structural)]
pub enum WalCheckpointMode {
    Passive,
    Full,
    Restart,
    Truncate,
}

/// The SQL keyword of a checkpoint mode.
pub open spec fn checkpoint_keyword(mode: WalCheckpointMode) -> Seq<char> {
    match mode {
        WalCheckpointMode::Passive => "PASSIVE"@,
        WalCheckpointMode::Full => "FULL"@,
        WalCheckpointMode::Restart => "RESTART"@,
        WalCheckpointMode::Truncate => "TRUNCATE"@,
    }
}

impl WalCheckpointMode {
    pub fn as_sql(self) -> (s: &'static str)
        ensures
            s@ == checkpoint_keyword(self),
    {
        match self {
            WalCheckpointMode::Passive => "PASSIVE",
            WalCheckpointMode::Full => "FULL",
            WalCheckpointMode::Restart => "RESTART",
            WalCheckpointMode::Truncate => "TRUNCATE",
        }
    }
}

/// The row `PRAGMA wal_checkpoint` answers with.
#[derive(Debug, Clone, PartialEq, Eq)]
pub struct WalCheckpointResult {
    pub busy: i64,
    pub log_frames: i64,
    pub checkpointed_frames: i64,
}

/// `a * b`, saturated at the bounds of `i64`.
pub open spec fn saturating_mul(a: int, b: int) -> int {
    if a * b > i64::MAX {
        i64::MAX as int
    } else if a * b < i64::MIN {
        i64::MIN as int
    } else {
        a * b
    }
}

/// `i64::saturating_mul`.
fn saturating_mul_i64(a: i64, b: i64) -> (r: i64)
    ensures
        r == saturating_mul(a as int, b as int),
{
    match a.checked_mul(b) {
        Some(p) => p,
        None => {
            if (a < 0) == (b < 0) {
                assert(a * b >= 0) by (nonlinear_arith)
                    requires (a < 0) == (b < 0);
                i64::MAX
            } else {
                assert(a * b <= 0) by (nonlinear_arith)
                    requires (a < 0) != (b < 0);
                i64::MIN
            }
        },
    }
}

/// The pragmas read before and after maintenance.
#[derive(Debug, Clone, PartialEq, Eq)]
pub struct SqlitePragmaSnapshot {
    pub journal_mode: String,
    pub synchronous: i64,
    pub page_size: i64,
    pub page_count: i64,
    pub freelist_count: i64,
    pub freelist_bytes: i64,
}

impl SqlitePragmaSnapshot {
    /// A snapshot of the values read from the pragmas; the free-list size
    /// in bytes is the page size times the free-list page count, saturated.
    pub fn from_pragmas(
        journal_mode: String,
        synchronous: i64,
        page_size: i64,
        page_count: i64,
        freelist_count: i64,
    ) -> (r: Self)
        ensures
            r.journal_mode@ == journal_mode@,
            r.synchronous == synchronous,
            r.page_size == page_size,
            r.page_count == page_count,
            r.freelist_count == freelist_count,
            r.freelist_bytes == saturating_mul(page_size as int, freelist_count as int),
    {
        let freelist_bytes = saturating_mul_i64(page_size, freelist_count);
        SqlitePragmaSnapshot {
            journal_mode,
            synchronous,
            page_size,
            page_count,
            freelist_count,
            freelist_bytes,
        }
    }

    /// The database size in bytes: page size times page count, saturated.
    pub fn total_bytes(&self) -> (n: i64)
        ensures
            n == saturating_mul(self.page_size as int, self.page_count as int),
    {
        saturating_mul_i64(self.page_size, self.page_count)
    }
}

/// Which maintenance steps to run.
#[derive(Debug, Clone, PartialEq, Eq)]
pub struct SqliteMaintenancePlan {
    pub checkpoint: Option<WalCheckpointMode>,
    pub incremental_vacuum: bool,
    pub optimize: bool,
}

impl SqliteMaintenancePlan {
    /// A passive checkpoint and `PRAGMA optimize`.
    pub fn conservative() -> (r: Self)
        ensures
            r.checkpoint == Some(WalCheckpointMode::Passive),
            !r.incremental_vacuum,
            r.optimize,
    {
        SqliteMaintenancePlan {
            checkpoint: Some(WalCheckpointMode::Passive),
            incremental_vacuum: false,
            optimize: true,
        }
    }

    /// A truncating checkpoint, `PRAGMA optimize` and an incremental vacuum.
    pub fn reclaim() -> (r: Self)
        ensures
            r.checkpoint == Some(WalCheckpointMode::Truncate),
            r.incremental_vacuum,
            r.optimize,
    {
        SqliteMaintenancePlan {
            checkpoint: Some(WalCheckpointMode::Truncate),
            incremental_vacuum: true,
            optimize: true,
        }
    }

    pub fn with_checkpoint(self, mode: Option<WalCheckpointMode>) -> (r: Self)
        ensures
            r == (SqliteMaintenancePlan { checkpoint: mode, ..self }),
    {
        SqliteMaintenancePlan { checkpoint: mode, ..self }
    }

    pub fn with_incremental_vacuum(self, enabled: bool) -> (r: Self)
        ensures
            r == (SqliteMaintenancePlan { incremental_vacuum: enabled, ..self }),
    {
        SqliteMaintenancePlan { incremental_vacuum: enabled, ..self }
    }

    pub fn with_optimize(self, enabled: bool) -> (r: Self)
        ensures
            r == (SqliteMaintenancePlan { optimize: enabled, ..self }),
    {
        SqliteMaintenancePlan { optimize: enabled, ..self }
    }
}

/// One statement of a maintenance run.
#[derive(Debug, Clone, Copy, PartialEq, Eq, Structural)]
pub enum MaintenanceStep {
    Checkpoint(WalCheckpointMode),
    Optimize,
    IncrementalVacuum,
}

/// The statements a plan runs, in order: the checkpoint, then
/// `PRAGMA optimize`, then the incremental vacuum, each only if planned.
pub open spec fn plan_steps(plan: SqliteMaintenancePlan) -> Seq<MaintenanceStep> {
    let c = match plan.checkpoint {
        Some(m) => seq![MaintenanceStep::Checkpoint(m)],
        None => Seq::empty(),
    };
    let o = if plan.optimize { seq![MaintenanceStep::Optimize] } else { Seq::empty() };
    let v = if plan.incremental_vacuum { seq![MaintenanceStep::IncrementalVacuum] } else { Seq::empty() };
    c + o + v
}

impl SqliteMaintenancePlan {
    /// The statements to run between the two snapshots, in order.
    pub fn steps(&self) -> (s: Vec<MaintenanceStep>)
        ensures
            s@ == plan_steps(*self),
    {
        let mut s: Vec<MaintenanceStep> = Vec::new();
        match self.checkpoint {
            Some(m) => s.push(MaintenanceStep::Checkpoint(m)),
            None => {},
        }
        if self.optimize {
            s.push(MaintenanceStep::Optimize);
        }
        if self.incremental_vacuum {
            s.push(MaintenanceStep::IncrementalVacuum);
        }
        assert(s@ =~= plan_steps(*self));
        s
    }
}

/// What a maintenance run observed and did.
#[derive(Debug, Clone, PartialEq, Eq)]
pub struct SqliteMaintenanceReport {
    pub before: SqlitePragmaSnapshot,
    pub after: SqlitePragmaSnapshot,
    pub checkpoint: Option<WalCheckpointResult>,
    pub optimized: bool,
    pub vacuumed: bool,
}

impl SqliteMaintenanceReport {
    /// The report of a run of `plan`: the snapshots and checkpoint row it
    /// read, and whether it optimized and vacuumed, as the plan said.
    pub fn for_plan(
        plan: &SqliteMaintenancePlan,
        before: SqlitePragmaSnapshot,
        after: SqlitePragmaSnapshot,
        checkpoint: Option<WalCheckpointResult>,
    ) -> (r: Self)
        ensures
            r.before == before,
            r.after == after,
            r.checkpoint == checkpoint,
            r.optimized == plan.optimize,
            r.vacuumed == plan.incremental_vacuum,
    {
        SqliteMaintenanceReport {
            before,
            after,
            checkpoint,
            optimized: plan.optimize,
            vacuumed: plan.incremental_vacuum,
        }
    }
}

} // verus!
