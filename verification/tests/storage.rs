use dbbackup::config::BackupConfig;
use dbbackup::error::DatabaseError;
use dbbackup::local::{extract_local_backup_id, LocalStorageProvider};
use dbbackup::remote::{map_remote_error, RemoteFailureKind, RemoteOperation, S3StorageProvider};
use dbbackup::storage::{
    derived_environment, filter_ids_by_environment, resolve_backend, select_backend,
    sort_ids_descending, victims_beyond, BackendChoice, StorageProvider,
};
use dbbackup::store::MemoryStorageProvider;

fn test_config() -> BackupConfig {
    BackupConfig {
        use_aws: false,
        s3_bucket_name: String::new(),
        aws_region: String::from("us-west-2"),
        aws_role_arn: None,
        local_backup_dir: String::from("backups"),
        local_backup_max_count: 2,
    }
}

#[test]
fn test_store_and_retrieve_backup() {
    let mut provider = MemoryStorageProvider::new();

    // Store the backup
    let backup_id = "test123";
    let data = b"test backup data".to_vec();
    provider.store_backup(&data, backup_id, "dev").unwrap();

    // Verify the backup exists
    assert!(provider.backup_exists(backup_id).unwrap());

    // Retrieve the backup
    let retrieved = provider.retrieve_backup(backup_id).unwrap();

    // Verify the retrieved content
    assert_eq!(retrieved, b"test backup data".to_vec());
}

#[test]
fn test_list_and_cleanup_backups() {
    let mut provider = MemoryStorageProvider::new();

    // Store multiple backups
    let data = b"test backup data".to_vec();
    let backup_ids = ["001", "002", "003"];
    for id in &backup_ids {
        provider.store_backup(&data, id, "dev").unwrap();
    }

    // List backups and verify count
    let backups = provider.list_backups().unwrap();
    assert_eq!(backups.len(), 3);

    // Get latest backup
    let latest = provider.get_latest_backup().unwrap();
    assert!(latest.is_some());
    assert_eq!(latest.unwrap(), "003");

    // Clean up old backups (keep 2)
    provider.cleanup_old_backups(2).unwrap();

    // Verify only 2 backups remain
    let backups = provider.list_backups().unwrap();
    assert_eq!(backups.len(), 2);
    assert!(backups.contains(&"003".to_string()));
    assert!(backups.contains(&"002".to_string()));
    assert!(!backups.contains(&"001".to_string()));
}

#[test]
fn test_list_order_newest_first() {
    let mut provider = MemoryStorageProvider::new();
    let data = b"x".to_vec();
    for id in ["001", "003", "002"] {
        provider.store_backup(&data, id, "dev").unwrap();
    }
    let backups = provider.list_backups().unwrap();
    assert_eq!(backups, vec!["003".to_string(), "002".to_string(), "001".to_string()]);
    assert_eq!(provider.get_latest_backup().unwrap(), Some("003".to_string()));
}

#[test]
fn test_cleanup_is_idempotent() {
    let mut provider = MemoryStorageProvider::new();
    let data = b"x".to_vec();
    for id in ["001", "002", "003"] {
        provider.store_backup(&data, id, "dev").unwrap();
    }

    // keeping 2 deletes exactly the single oldest
    provider.cleanup_old_backups(2).unwrap();
    let after_first = provider.list_backups().unwrap();
    assert_eq!(after_first, vec!["003".to_string(), "002".to_string()]);

    // a repeat invocation changes nothing
    provider.cleanup_old_backups(2).unwrap();
    let after_second = provider.list_backups().unwrap();
    assert_eq!(after_second, after_first);
}

#[test]
fn test_retrieve_missing_is_not_found() {
    let provider = MemoryStorageProvider::new();
    let err = provider.retrieve_backup("backup_2025-06-01_143000_dev_abcdef").unwrap_err();
    assert!(err.is_not_found());
    assert!(matches!(err, DatabaseError::BackupNotFound));
}

#[test]
fn test_delete_backup_absent_is_ok() {
    let mut provider = MemoryStorageProvider::new();
    provider.delete_backup("nothing-here").unwrap();
    let data = b"payload".to_vec();
    provider.store_backup(&data, "001", "dev").unwrap();
    provider.delete_backup("001").unwrap();
    assert!(!provider.backup_exists("001").unwrap());
}

#[test]
fn test_store_is_idempotent() {
    let mut provider = MemoryStorageProvider::new();
    let first = b"first".to_vec();
    let second = b"second".to_vec();
    provider.store_backup(&first, "001", "dev").unwrap();
    provider.store_backup(&second, "001", "dev").unwrap();
    assert_eq!(provider.list_backups().unwrap().len(), 1);
    assert_eq!(provider.retrieve_backup("001").unwrap(), second);
}

#[test]
fn test_environment_scoped_listing() {
    let mut provider = MemoryStorageProvider::new();
    let data = b"x".to_vec();
    provider.store_backup(&data, "001", "dev").unwrap();
    provider.store_backup(&data, "002", "prod").unwrap();
    provider.store_backup(&data, "003", "dev").unwrap();

    let dev = provider.list_environment_backups("dev").unwrap();
    assert_eq!(dev, vec!["003".to_string(), "001".to_string()]);
    let prod = provider.list_environment_backups("prod").unwrap();
    assert_eq!(prod, vec!["002".to_string()]);
    assert_eq!(
        provider.get_latest_environment_backup("dev").unwrap(),
        Some("003".to_string())
    );
    assert_eq!(provider.get_latest_environment_backup("empty").unwrap(), None);

    provider.cleanup_environment_backups("dev", 1).unwrap();
    let dev = provider.list_environment_backups("dev").unwrap();
    assert_eq!(dev, vec!["003".to_string()]);
    // the other environment is untouched
    assert_eq!(provider.list_environment_backups("prod").unwrap().len(), 1);
}

#[test]
fn test_retrieval_uses_derived_environment() {
    // a blob stored under an environment other than the one its
    // identifier names is not what retrieval looks for
    let mut provider = MemoryStorageProvider::new();
    let data = b"x".to_vec();
    provider
        .store_backup(&data, "backup_2025-06-01_143000_dev_abcdef", "prod")
        .unwrap();
    let err = provider
        .retrieve_backup("backup_2025-06-01_143000_dev_abcdef")
        .unwrap_err();
    assert!(err.is_not_found());

    // stored under the derived environment, it round-trips
    provider
        .store_backup(&data, "backup_2025-06-01_143000_dev_abcdef", "dev")
        .unwrap();
    assert_eq!(
        provider
            .retrieve_backup("backup_2025-06-01_143000_dev_abcdef")
            .unwrap(),
        data
    );
}

#[test]
fn test_sort_ids_descending() {
    let ids = vec![
        String::from("backup_2025-06-01_143000_dev_aaaaaa"),
        String::from("backup_2025-06-02_090000_dev_bbbbbb"),
        String::from("backup_2024-12-31_235959_dev_cccccc"),
    ];
    let sorted = sort_ids_descending(ids);
    assert_eq!(
        sorted,
        vec![
            String::from("backup_2025-06-02_090000_dev_bbbbbb"),
            String::from("backup_2025-06-01_143000_dev_aaaaaa"),
            String::from("backup_2024-12-31_235959_dev_cccccc"),
        ]
    );
}

#[test]
fn test_victims_beyond() {
    let listing = vec![String::from("003"), String::from("002"), String::from("001")];
    assert_eq!(victims_beyond(&listing, 2), vec![String::from("001")]);
    assert_eq!(victims_beyond(&listing, 0), listing);
    assert!(victims_beyond(&listing, 3).is_empty());
    assert!(victims_beyond(&listing, 10).is_empty());
}

#[test]
fn test_derived_environment() {
    assert_eq!(
        derived_environment("backup_2025-06-01_143000_prod_abcdef"),
        "prod"
    );
    // an identifier that does not parse falls back to dev
    assert_eq!(derived_environment("whatever"), "dev");
}

#[test]
fn test_filter_ids_by_environment() {
    let ids = vec![
        String::from("backup_2025-06-01_143000_dev_aaaaaa"),
        String::from("backup_2025-06-02_090000_prod_bbbbbb"),
        String::from("unparseable"),
        String::from("backup_2025-06-03_100000_dev_cccccc"),
    ];
    let dev = filter_ids_by_environment(ids.clone(), "dev");
    assert_eq!(
        dev,
        vec![
            String::from("backup_2025-06-01_143000_dev_aaaaaa"),
            String::from("unparseable"),
            String::from("backup_2025-06-03_100000_dev_cccccc"),
        ]
    );
    let prod = filter_ids_by_environment(ids, "prod");
    assert_eq!(prod, vec![String::from("backup_2025-06-02_090000_prod_bbbbbb")]);
}

#[test]
fn test_local_backup_path() {
    let mut config = test_config();
    config.local_backup_dir = String::from("/var/backups");
    let provider = LocalStorageProvider::new(&config);
    assert_eq!(
        provider.get_backup_path("test123", "dev"),
        "/var/backups/dev/backup-test123.db"
    );
    assert_eq!(provider.max_backups(), 2);
}

#[test]
fn test_local_generate_backup_id() {
    let id = LocalStorageProvider::generate_backup_id();
    assert!(!id.is_empty());
    assert!(id.chars().all(|c| c.is_ascii_digit()));
}

#[test]
fn test_get_backup_key() {
    let mut config = test_config();
    config.s3_bucket_name = String::from("test-bucket");
    config.local_backup_dir = String::from("/tmp");
    let provider = S3StorageProvider::new(&config);

    assert_eq!(provider.get_backup_key("123"), "backups/backup-123.db");
}

#[test]
fn test_extract_backup_id() {
    let mut config = test_config();
    config.s3_bucket_name = String::from("test-bucket");
    config.local_backup_dir = String::from("/tmp");
    let provider = S3StorageProvider::new(&config);

    assert_eq!(
        provider.extract_backup_id("backups/backup-123.db"),
        Some("123".to_string())
    );
    assert_eq!(provider.extract_backup_id("backups/something-else.db"), None);
}

#[test]
fn test_extract_local_backup_id() {
    assert_eq!(extract_local_backup_id("backup-123.db"), Some("123".to_string()));
    assert_eq!(
        extract_local_backup_id("backup-backup_2025-06-01_143000_dev_abcdef.db"),
        Some("backup_2025-06-01_143000_dev_abcdef".to_string())
    );
    assert_eq!(extract_local_backup_id("something-else.db"), None);
    assert_eq!(extract_local_backup_id("backup-1.txt"), None);
    assert_eq!(extract_local_backup_id("backup-.db"), Some(String::new()));
}

#[test]
fn test_map_remote_error() {
    // a missing object during retrieval is the domain's not-found
    let e = map_remote_error(
        RemoteOperation::Retrieve,
        RemoteFailureKind::Service(404),
        "no such key",
    );
    assert!(matches!(e, DatabaseError::BackupNotFound));

    // the same status during any other operation is a storage error
    let e = map_remote_error(
        RemoteOperation::Delete,
        RemoteFailureKind::Service(404),
        "no such key",
    );
    assert!(matches!(e, DatabaseError::Storage(ref m) if m == "no such key"));

    // other service statuses and transport failures stay storage errors
    let e = map_remote_error(
        RemoteOperation::Retrieve,
        RemoteFailureKind::Service(500),
        "server fell over",
    );
    assert!(matches!(e, DatabaseError::Storage(ref m) if m == "server fell over"));
    let e = map_remote_error(RemoteOperation::Store, RemoteFailureKind::Timeout, "late");
    assert!(matches!(e, DatabaseError::Storage(ref m) if m == "late"));
    let e = map_remote_error(RemoteOperation::List, RemoteFailureKind::Dispatch, "down");
    assert!(matches!(e, DatabaseError::Storage(ref m) if m == "down"));
}

#[test]
fn test_error_messages() {
    assert_eq!(DatabaseError::BackupNotFound.message(), "Backup not found");
    assert_eq!(
        DatabaseError::Io(String::from("disk full")).message(),
        "IO error: disk full"
    );
    assert_eq!(
        DatabaseError::Storage(String::from("bad")).message(),
        "Storage error: bad"
    );
    assert_eq!(
        DatabaseError::Sqlite(String::from("locked")).message(),
        "SQLite error: locked"
    );
    assert_eq!(
        DatabaseError::Config(String::from("no dir")).message(),
        "Configuration error: no dir"
    );
    assert_eq!(
        DatabaseError::Aws(String::from("denied")).message(),
        "AWS error: denied"
    );
}

#[test]
fn test_select_backend() {
    let mut config = test_config();
    // disabled: local, probe or not
    assert_eq!(select_backend(&config, true), BackendChoice::Local);
    // enabled but no bucket: local
    config.use_aws = true;
    assert_eq!(select_backend(&config, true), BackendChoice::Local);
    // enabled with a bucket: the probe decides
    config.s3_bucket_name = String::from("bucket");
    assert_eq!(select_backend(&config, true), BackendChoice::Remote);
    assert_eq!(select_backend(&config, false), BackendChoice::Local);
    // a failed remote construction falls back to local
    assert_eq!(resolve_backend(BackendChoice::Remote, false), BackendChoice::Local);
    assert_eq!(resolve_backend(BackendChoice::Remote, true), BackendChoice::Remote);
    assert_eq!(resolve_backend(BackendChoice::Local, true), BackendChoice::Local);
}

#[test]
fn test_default_config() {
    let config = BackupConfig::default();
    assert!(!config.use_aws);
    assert!(config.s3_bucket_name.is_empty());
    assert_eq!(config.aws_region, "us-west-2");
    assert!(config.aws_role_arn.is_none());
    assert_eq!(config.local_backup_dir, "./backups");
    assert_eq!(config.local_backup_max_count, 10);
    assert!(!config.remote_configured());
}
