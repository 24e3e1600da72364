use dbbackup::backup::{
    vacuum_into_sql, BackupJob, BackupOptions, BackupStatus, BackupStep, ExportLock,
};
use dbbackup::error::DatabaseError;
use dbbackup::naming::{BackupId, BackupNamingService};
use dbbackup::timestamp::Timestamp;

fn options(verify: bool) -> BackupOptions {
    let mut o = BackupOptions::default();
    o.verify = verify;
    o
}

#[test]
fn test_default_options() {
    let o = BackupOptions::default();
    assert_eq!(o.chunk_size, 64);
    assert_eq!(o.sleep_ms, 10);
    assert!(o.step_count.is_none());
    assert!(!o.verify);
}

#[test]
fn test_backup_completes() {
    let ts = Timestamp::new(2025, 6, 1, 14, 30, 0).unwrap();
    let mut job = BackupJob::start(String::from("1748788200"), ts, &options(false));
    // without verification the export goes straight to storing
    assert_eq!(job.on_export_result(&Ok(())), BackupStep::RunStore);
    job.on_store_result(&Ok(()), 4096);
    let result = job.into_result(125);
    assert_eq!(result.backup_id, "1748788200");
    assert_eq!(result.timestamp, ts);
    assert_eq!(result.duration_ms, 125);
    assert_eq!(result.size_bytes, 4096);
    assert_eq!(result.status, BackupStatus::Completed);
}

#[test]
fn test_backup_with_verification() {
    let ts = Timestamp::new(2025, 6, 1, 14, 30, 0).unwrap();
    let mut job = BackupJob::start(String::from("b1"), ts, &options(true));
    assert_eq!(job.on_export_result(&Ok(())), BackupStep::RunVerify);
    assert_eq!(job.on_verify_result(&Ok(())), BackupStep::RunStore);
    job.on_store_result(&Ok(()), 10);
    let result = job.into_result(1);
    assert_eq!(result.status, BackupStatus::Completed);
    assert_eq!(result.size_bytes, 10);
}

#[test]
fn test_storage_failure_yields_failed_result() {
    // a storage-layer failure folds into the result: Failed, size zero,
    // identifier and timing still populated
    let ts = Timestamp::new(2025, 6, 1, 14, 30, 0).unwrap();
    let mut job = BackupJob::start(String::from("b2"), ts, &options(false));
    assert_eq!(job.on_export_result(&Ok(())), BackupStep::RunStore);
    let failure: Result<(), DatabaseError> = Err(DatabaseError::Storage(String::from("bucket gone")));
    job.on_store_result(&failure, 4096);
    let result = job.into_result(50);
    assert_eq!(result.backup_id, "b2");
    assert_eq!(result.size_bytes, 0);
    assert_eq!(
        result.status,
        BackupStatus::Failed(String::from(
            "Failed to store backup: Storage error: bucket gone"
        ))
    );
}

#[test]
fn test_export_failure_yields_failed_result() {
    let ts = Timestamp::new(2025, 6, 1, 14, 30, 0).unwrap();
    let mut job = BackupJob::start(String::from("b3"), ts, &options(false));
    let failure: Result<(), DatabaseError> = Err(DatabaseError::Sqlite(String::from("locked")));
    assert_eq!(job.on_export_result(&failure), BackupStep::Finish);
    let result = job.into_result(5);
    assert_eq!(result.size_bytes, 0);
    assert_eq!(
        result.status,
        BackupStatus::Failed(String::from("SQLite error: locked"))
    );
}

#[test]
fn test_verification_failure_yields_failed_result() {
    // a verified-but-broken export fails even though bytes were written
    let ts = Timestamp::new(2025, 6, 1, 14, 30, 0).unwrap();
    let mut job = BackupJob::start(String::from("b4"), ts, &options(true));
    assert_eq!(job.on_export_result(&Ok(())), BackupStep::RunVerify);
    let failure: Result<(), DatabaseError> =
        Err(DatabaseError::Sqlite(String::from("malformed image")));
    assert_eq!(job.on_verify_result(&failure), BackupStep::Finish);
    let result = job.into_result(9);
    assert_eq!(result.size_bytes, 0);
    assert_eq!(
        result.status,
        BackupStatus::Failed(String::from("SQLite error: malformed image"))
    );
}

#[test]
fn test_job_identifier_follows_grammar() {
    // a job begun through the naming service carries an identifier that
    // parses back to the service's environment and the job's timestamp
    let naming = BackupNamingService::new("prod", Some("web1"));
    let ts = Timestamp::new(2025, 6, 1, 14, 30, 0).unwrap();
    let mut job = BackupJob::start_named(&naming, &ts, &options(false));
    let parsed = BackupId::parse(job.backup_id()).unwrap();
    assert_eq!(parsed.environment(), "prod");
    assert_eq!(parsed.server_id(), Some("web1"));
    assert_eq!(*parsed.timestamp(), ts);

    // the result carries the same identifier, unchanged
    let id = job.backup_id().to_owned();
    assert_eq!(job.on_export_result(&Ok(())), BackupStep::RunStore);
    job.on_store_result(&Ok(()), 1);
    let result = job.into_result(1);
    assert_eq!(result.backup_id, id);
}

#[test]
fn test_export_lock_serializes() {
    // a second attempt while an export is in flight is refused; after
    // release the lock can be taken again
    let mut lock = ExportLock::new();
    assert!(lock.try_acquire());
    assert!(!lock.try_acquire());
    assert!(!lock.try_acquire());
    lock.release();
    assert!(lock.try_acquire());
}

#[test]
fn test_vacuum_into_sql() {
    assert_eq!(
        vacuum_into_sql("/tmp/backup.db"),
        "VACUUM INTO '/tmp/backup.db'"
    );
    // a quote in the path is doubled
    assert_eq!(
        vacuum_into_sql("/tmp/o'brien.db"),
        "VACUUM INTO '/tmp/o''brien.db'"
    );
}
