//! Taking over the data of an older version.
use vstd::prelude::*;

use crate::decimal;
use crate::paths;
use crate::text;

verus! {

/// What was taken over.
#[derive(Clone, Copy, Debug, PartialEq, Eq, Structural)]
pub struct MigrationReport {
    pub copied_config: bool,
    pub copied_database: bool,
    pub imported_usage_rows: usize,
}

impl Default for MigrationReport {
    fn default() -> (r: MigrationReport)
        ensures
            !r.copied_config && !r.copied_database && r.imported_usage_rows == 0,
    {
        MigrationReport { copied_config: false, copied_database: false, imported_usage_rows: 0 }
    }
}

/// Which files are there.
#[derive(Clone, Copy, Debug, PartialEq, Eq, Structural)]
pub struct MigrationFacts {
    /// Whether there is a place of an older version.
    pub legacy_given: bool,
    /// Whether that is the place of the data.
    pub same_root: bool,
    /// Whether the data have a configuration.
    pub config_exists: bool,
    /// Whether the older version has one.
    pub legacy_config_exists: bool,
    /// Whether the data have a database.
    pub database_exists: bool,
    /// Whether the older version has one.
    pub legacy_database_exists: bool,
    /// Whether the database of the older version has a log of changes beside it.
    pub legacy_wal_exists: bool,
    /// Whether the database of the older version has an index of that log beside it.
    pub legacy_shm_exists: bool,
    /// Whether the older version has a record of requests in a file.
    pub legacy_usage_exists: bool,
    /// Whether that record was taken over before.
    pub usage_marker_exists: bool,
}

/// What is taken over.
#[derive(Clone, Copy, Debug, PartialEq, Eq, Structural)]
pub struct MigrationPlan {
    pub copy_config: bool,
    pub copy_database: bool,
    pub copy_wal: bool,
    pub copy_shm: bool,
    pub import_usage: bool,
}

/// Whether a file is copied: where it is missing and the older version has it.
pub open spec fn is_needed(target_exists: bool, source_exists: bool) -> bool {
    !target_exists && source_exists
}

/// Whether the configuration is copied.
pub fn copy_config_if_needed(target_exists: bool, source_exists: bool) -> (r: bool)
    ensures
        r == is_needed(target_exists, source_exists),
{
    !(target_exists || !source_exists)
}

/// Whether the database is copied.
pub fn copy_database_if_needed(target_exists: bool, source_exists: bool) -> (r: bool)
    ensures
        r == is_needed(target_exists, source_exists),
{
    !(target_exists || !source_exists)
}

/// Whether the record of requests is taken over: where there is one and it was not before.
pub fn import_usage_jsonl_once(usage_exists: bool, marker_exists: bool) -> (r: bool)
    ensures
        r == (usage_exists && !marker_exists),
{
    usage_exists && !marker_exists
}

/// What is taken over.
pub open spec fn migration_plan(f: MigrationFacts) -> MigrationPlan {
    let copying = f.legacy_given && !f.same_root;
    let database = copying && is_needed(f.database_exists, f.legacy_database_exists);
    MigrationPlan {
        copy_config: copying && is_needed(f.config_exists, f.legacy_config_exists),
        copy_database: database,
        copy_wal: database && f.legacy_wal_exists,
        copy_shm: database && f.legacy_shm_exists,
        import_usage: f.legacy_given && f.legacy_usage_exists && !f.usage_marker_exists,
    }
}

/// What is taken over, given which files are there.
pub fn migrate_legacy_data(f: MigrationFacts) -> (r: MigrationPlan)
    ensures
        r == migration_plan(f),
{
    let copying = f.legacy_given && !f.same_root;
    let copy_config = copying && copy_config_if_needed(f.config_exists, f.legacy_config_exists);
    let copy_database = copying && copy_database_if_needed(
        f.database_exists,
        f.legacy_database_exists,
    );
    MigrationPlan {
        copy_config,
        copy_database,
        copy_wal: copy_database && f.legacy_wal_exists,
        copy_shm: copy_database && f.legacy_shm_exists,
        import_usage: f.legacy_given && import_usage_jsonl_once(
            f.legacy_usage_exists,
            f.usage_marker_exists,
        ),
    }
}

/// What was taken over, given what was to be and how many records there were.
pub fn migration_report(plan: MigrationPlan, imported_rows: usize) -> (r: MigrationReport)
    ensures
        r == (MigrationReport {
            copied_config: plan.copy_config,
            copied_database: plan.copy_database,
            imported_usage_rows: if plan.import_usage {
                imported_rows
            } else {
                0
            },
        }),
{
    MigrationReport {
        copied_config: plan.copy_config,
        copied_database: plan.copy_database,
        imported_usage_rows: if plan.import_usage {
            imported_rows
        } else {
            0
        },
    }
}

/// Where it is noted that something was taken over.
pub fn migration_marker(data_root: &str, name: &str) -> (r: paths::FilePath)
    ensures
        r@ == (paths::PathView { base: data_root@, parts: seq![".migrations"@, name@] }),
{
    paths::grandchild(data_root, ".migrations", name)
}

/// What is noted once the record of requests was taken over.
pub fn marker_text(source: &str, imported_rows: usize) -> (r: String)
    ensures
        r@ == "source="@ + source@ + "\nimported_rows="@ + decimal::decimal(imported_rows as nat)
            + "\n"@,
{
    let rows = decimal::number_text(imported_rows as u64);
    text::cat5("source=", source, "\nimported_rows=", rows.as_str(), "\n")
}

/// Nothing that is there is overwritten.
pub proof fn law_existing_data_are_kept(f: MigrationFacts)
    ensures
        f.config_exists ==> !migration_plan(f).copy_config,
        f.database_exists ==> !migration_plan(f).copy_database && !migration_plan(f).copy_wal
            && !migration_plan(f).copy_shm,
{
}

/// What was taken over once is not taken over again: with the configuration, the database and the
/// note in place nothing is left to do.
pub proof fn law_migration_happens_once(f: MigrationFacts)
    ensures
        ({
            let after = MigrationFacts {
                config_exists: f.config_exists || migration_plan(f).copy_config,
                database_exists: f.database_exists || migration_plan(f).copy_database,
                usage_marker_exists: f.usage_marker_exists || migration_plan(f).import_usage,
                ..f
            };
            let again = migration_plan(after);
            !again.copy_config && !again.copy_database && !again.copy_wal && !again.copy_shm
                && !again.import_usage
        }),
{
}

/// What is missing is taken over from an older version that has it, elsewhere: the configuration, the
/// database with what lies beside it, and the record of requests where that was not done before.
pub proof fn law_missing_data_are_taken_over(f: MigrationFacts)
    ensures
        ({
            let p = migration_plan(f);
            let elsewhere = f.legacy_given && !f.same_root;
            &&& elsewhere && f.legacy_config_exists && !f.config_exists ==> p.copy_config
            &&& elsewhere && f.legacy_database_exists && !f.database_exists ==> p.copy_database
                && p.copy_wal == f.legacy_wal_exists && p.copy_shm == f.legacy_shm_exists
            &&& f.legacy_given && f.legacy_usage_exists && !f.usage_marker_exists ==> p.import_usage
            &&& f.config_exists || !f.legacy_config_exists || f.same_root ==> !p.copy_config
            &&& f.database_exists || !f.legacy_database_exists || f.same_root ==> !p.copy_database
                && !p.copy_wal && !p.copy_shm
            &&& f.usage_marker_exists || !f.legacy_usage_exists ==> !p.import_usage
            &&& !f.legacy_given ==> !p.copy_config && !p.copy_database && !p.copy_wal
                && !p.copy_shm && !p.import_usage
        }),
{
}

} // verus!
