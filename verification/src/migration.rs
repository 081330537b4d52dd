use vstd::prelude::*;
use crate::view_definition::{append_decimal_i64, spec_decimal};

verus! {

/// The schema version of the lakehouse tables this library reads and writes.
pub const LATEST_LAKEHOUSE_SCHEMA_VERSION: i32 = 4;

/// One step of the lakehouse schema migration; each runs in its own transaction and records the
/// version it reaches.
#[derive(Clone, Copy, Debug, PartialEq, Eq, Structural)]
pub enum MigrationStep {
    /// Creates `lakehouse_partitions`, `temporary_files` and `lakehouse_migration` (version 1).
    CreateTables,
    /// Adds the `file_metadata` column (version 2).
    UpgradeV1ToV2,
    /// Adds and fills the `num_rows` column (version 3).
    UpgradeV2ToV3,
    /// Moves file metadata to the `partition_metadata` table (version 4).
    UpgradeV3ToV4,
}

/// The step that upgrades a schema at `version`, if any.
pub open spec fn spec_next_step(version: int) -> Option<MigrationStep> {
    if version == 0 {
        Some(MigrationStep::CreateTables)
    } else if version == 1 {
        Some(MigrationStep::UpgradeV1ToV2)
    } else if version == 2 {
        Some(MigrationStep::UpgradeV2ToV3)
    } else if version == 3 {
        Some(MigrationStep::UpgradeV3ToV4)
    } else {
        None
    }
}

/// The version a step records once it has run.
pub open spec fn spec_step_target(step: MigrationStep) -> int {
    match step {
        MigrationStep::CreateTables => 1,
        MigrationStep::UpgradeV1ToV2 => 2,
        MigrationStep::UpgradeV2ToV3 => 3,
        MigrationStep::UpgradeV3ToV4 => 4,
    }
}

/// The steps a migration from `version` runs, in order, when each step reaches its target.
pub open spec fn spec_plan(version: int) -> Seq<MigrationStep>
    decreases 4 - version,
{
    if 0 <= version < 4 {
        seq![spec_next_step(version)->Some_0] + spec_plan(version + 1)
    } else {
        Seq::empty()
    }
}

/// The step that upgrades a schema at `version`: none at the latest version, nor at a version
/// this library does not know.
pub fn next_migration_step(version: i32) -> (r: Option<MigrationStep>)
    ensures
        r == spec_next_step(version as int),
{
    match version {
        0 => Some(MigrationStep::CreateTables),
        1 => Some(MigrationStep::UpgradeV1ToV2),
        2 => Some(MigrationStep::UpgradeV2ToV3),
        3 => Some(MigrationStep::UpgradeV3ToV4),
        _ => None,
    }
}

/// The version `step` records once it has run.
pub fn step_target_version(step: MigrationStep) -> (r: i32)
    ensures
        r == spec_step_target(step),
{
    match step {
        MigrationStep::CreateTables => 1,
        MigrationStep::UpgradeV1ToV2 => 2,
        MigrationStep::UpgradeV2ToV3 => 3,
        MigrationStep::UpgradeV3ToV4 => 4,
    }
}

/// The steps a migration from `version` runs, in order, each taking the schema to the version
/// the next one upgrades.
pub fn migration_plan(version: i32) -> (r: Vec<MigrationStep>)
    ensures
        r@ == spec_plan(version as int),
{
    let mut out: Vec<MigrationStep> = Vec::new();
    let mut v = version;
    while 0 <= v && v < LATEST_LAKEHOUSE_SCHEMA_VERSION
        invariant
            out@ + spec_plan(v as int) == spec_plan(version as int),
        decreases 4 - v,
    {
        let step = next_migration_step(v).unwrap();
        let ghost before = out@;
        out.push(step);
        proof {
            assert(spec_plan(v as int) == seq![step] + spec_plan(v + 1));
            assert(out@ + spec_plan(v + 1) =~= before + spec_plan(v as int));
        }
        v = step_target_version(step);
    }
    assert(spec_plan(v as int) =~= Seq::<MigrationStep>::empty());
    assert(out@ + spec_plan(v as int) =~= out@);
    out
}

/// Law: from any known version, the plan runs the consecutive upgrade steps, each landing on the
/// version the next one starts from, and ends at the latest version; from an unknown version it
/// runs nothing.
pub proof fn migration_plan_reaches_latest(version: int)
    ensures
        0 <= version <= 4 ==> spec_plan(version).len() == 4 - version,
        0 <= version <= 4 ==> forall|k: int| 0 <= k < spec_plan(version).len() ==> {
            &&& spec_next_step(version + k) == Some(#[trigger] spec_plan(version)[k])
            &&& spec_step_target(spec_plan(version)[k]) == version + k + 1
        },
        0 <= version < 4 ==> spec_step_target(spec_plan(version).last()) == LATEST_LAKEHOUSE_SCHEMA_VERSION,
        version < 0 || version > 4 ==> spec_plan(version).len() == 0,
    decreases 4 - version,
{
    if 0 <= version < 4 {
        migration_plan_reaches_latest(version + 1);
        let rest = spec_plan(version + 1);
        let p = spec_plan(version);
        assert(p == seq![spec_next_step(version)->Some_0] + rest);
        assert forall|k: int| 0 <= k < p.len() implies {
            &&& spec_next_step(version + k) == Some(#[trigger] p[k])
            &&& spec_step_target(p[k]) == version + k + 1
        } by {
            if k > 0 {
                assert(p[k] == rest[k - 1]);
                assert(spec_next_step(version + 1 + (k - 1)) == Some(rest[k - 1]));
            }
        }
        if version == 3 {
            assert(p.last() == p[0]);
        } else {
            assert(p.last() == rest.last());
        }
    }
}

/// Where a migration run stands when it reads the schema version.
#[derive(Clone, Copy, Debug, PartialEq, Eq, Structural)]
pub enum MigrationPhase {
    /// First read, without the migration lock.
    Unlocked,
    /// Read again once the migration lock is held.
    Locked,
    /// Read after the migration steps ran.
    Migrated,
}

/// What a migration run does next.
#[derive(Clone, Copy, Debug, PartialEq, Eq, Structural)]
pub enum MigrationAction {
    /// The schema is at the latest version: nothing to do.
    Done,
    /// Take the migration lock and read the version again (another process may have migrated).
    LockAndRecheck,
    /// Run the migration steps.
    Execute,
    /// The steps ran and the schema is still not at the latest version.
    VersionMismatch,
}

/// The decision a migration run takes on reading `version` in `phase`.
pub fn migration_decision(phase: MigrationPhase, version: i32) -> (r: MigrationAction)
    ensures
        version == LATEST_LAKEHOUSE_SCHEMA_VERSION ==> r == MigrationAction::Done,
        version != LATEST_LAKEHOUSE_SCHEMA_VERSION ==> r == (match phase {
            MigrationPhase::Unlocked => MigrationAction::LockAndRecheck,
            MigrationPhase::Locked => MigrationAction::Execute,
            MigrationPhase::Migrated => MigrationAction::VersionMismatch,
        }),
{
    if version == LATEST_LAKEHOUSE_SCHEMA_VERSION {
        return MigrationAction::Done;
    }
    match phase {
        MigrationPhase::Unlocked => MigrationAction::LockAndRecheck,
        MigrationPhase::Locked => MigrationAction::Execute,
        MigrationPhase::Migrated => MigrationAction::VersionMismatch,
    }
}

/// The number of file paths whose metadata one query of the metadata move fetches.
pub const METADATA_MIGRATION_BATCH: usize = 10;

/// `$1, $2, ..., $n`.
pub open spec fn spec_placeholders(n: nat) -> Seq<char>
    decreases n,
{
    if n == 0 {
        Seq::empty()
    } else if n == 1 {
        "$1"@
    } else {
        spec_placeholders((n - 1) as nat) + ", $"@ + spec_decimal(n as int)
    }
}

/// The query fetching the metadata of `n` file paths bound as `$1` to `$n`.
pub open spec fn spec_metadata_batch_query(n: nat) -> Seq<char> {
    "SELECT file_path, file_metadata, updated \n             FROM lakehouse_partitions \n             WHERE file_path IN ("@
        + spec_placeholders(n) + ")"@
}

/// The query fetching the metadata of a batch of `n` file paths, bound as `$1` to `$n`.
pub fn metadata_batch_query(n: usize) -> (r: String)
    requires
        n <= i64::MAX,
    ensures
        r@ == spec_metadata_batch_query(n as nat),
{
    let mut s = String::from_str("SELECT file_path, file_metadata, updated \n             FROM lakehouse_partitions \n             WHERE file_path IN (");
    let ghost prefix = s@;
    let mut i: usize = 0;
    while i < n
        invariant
            i <= n,
            n <= i64::MAX,
            s@ == prefix + spec_placeholders(i as nat),
        decreases n - i,
    {
        if i == 0 {
            s.append("$");
        } else {
            s.append(", $");
        }
        append_decimal_i64(&mut s, (i + 1) as i64);
        proof {
            reveal_strlit("$");
            reveal_strlit(", $");
            reveal_strlit("$1");
            if i == 0 {
                assert(spec_decimal(1) =~= seq!['1']);
                assert(spec_placeholders(1) =~= "$"@ + spec_decimal(1));
                assert(s@ =~= prefix + spec_placeholders(1));
            } else {
                assert(s@ =~= prefix + spec_placeholders(i as nat) + ", $"@ + spec_decimal((i + 1) as int));
                assert(spec_placeholders((i + 1) as nat) == spec_placeholders(i as nat) + ", $"@ + spec_decimal((i + 1) as int));
                assert(s@ =~= prefix + spec_placeholders((i + 1) as nat));
            }
        }
        i = i + 1;
    }
    s.append(")");
    proof {
        reveal_strlit(")");
        reveal_strlit("SELECT file_path, file_metadata, updated \n             FROM lakehouse_partitions \n             WHERE file_path IN (");
    }
    assert(s@ =~= spec_metadata_batch_query(n as nat));
    s
}

} // verus!
