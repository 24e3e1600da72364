use dbbackup::naming::{get_environment_from_backup_id, get_backup_s3_key, get_backup_storage_path,
    BackupId, BackupNamingService};
use dbbackup::timestamp::Timestamp;

#[test]
fn test_generate_backup_id() {
    let service = BackupNamingService::new("dev", None);

    // Create a fixed timestamp for testing
    let timestamp = Timestamp::new(2025, 6, 1, 14, 30, 0).unwrap();

    let backup_id = service.generate_backup_id_with_time(&timestamp);

    // The format should be backup_2025-06-01_143000_dev_RANDOM
    assert!(backup_id.starts_with("backup_2025-06-01_143000_dev_"));
    assert_eq!(backup_id.len(), 35); // Fixed length with 6-char random suffix
}

#[test]
fn test_generate_backup_id_with_server() {
    let service = BackupNamingService::new("prod", Some("server1"));

    // Create a fixed timestamp for testing
    let timestamp = Timestamp::new(2025, 6, 1, 14, 30, 0).unwrap();

    let backup_id = service.generate_backup_id_with_time(&timestamp);

    // The format should be backup_2025-06-01_143000_prod_server1_RANDOM
    assert!(backup_id.starts_with("backup_2025-06-01_143000_prod_server1_"));
}

#[test]
fn test_parse_backup_id() {
    // Test parsing a backup ID without server ID
    let backup_id = "backup_2025-06-01_143000_dev_abcdef";
    let parsed = BackupId::parse(backup_id).unwrap();

    assert_eq!(parsed.id(), backup_id);
    assert_eq!(parsed.environment(), "dev");
    assert_eq!(parsed.server_id(), None);
    assert_eq!(parsed.random_suffix(), "abcdef");

    let expected_timestamp = Timestamp::new(2025, 6, 1, 14, 30, 0).unwrap();
    assert_eq!(*parsed.timestamp(), expected_timestamp);

    // Test parsing a backup ID with server ID
    let backup_id = "backup_2025-06-01_143000_prod_server1_abcdef";
    let parsed = BackupId::parse(backup_id).unwrap();

    assert_eq!(parsed.environment(), "prod");
    assert_eq!(parsed.server_id(), Some("server1"));
    assert_eq!(parsed.random_suffix(), "abcdef");
}

#[test]
fn test_parse_invalid_backup_id() {
    // Too few parts
    assert!(BackupId::parse("backup_2025-06-01_143000_dev").is_none());

    // Wrong prefix
    assert!(BackupId::parse("wrong_2025-06-01_143000_dev_abcdef").is_none());

    // Invalid date format
    assert!(BackupId::parse("backup_20250601_143000_dev_abcdef").is_none());
}

#[test]
fn test_get_environment_from_backup_id() {
    assert_eq!(
        get_environment_from_backup_id("backup_2025-06-01_143000_dev_abcdef"),
        Some("dev".to_string())
    );

    assert_eq!(
        get_environment_from_backup_id("backup_2025-06-01_143000_prod_server1_abcdef"),
        Some("prod".to_string())
    );

    assert_eq!(get_environment_from_backup_id("invalid"), None);
}

#[test]
fn test_get_backup_storage_path() {
    let base_dir = "/backups";
    let backup_id = "backup_2025-06-01_143000_dev_abcdef";

    let path = get_backup_storage_path(base_dir, backup_id).unwrap();
    assert_eq!(path, "/backups/dev/backup_2025-06-01_143000_dev_abcdef.db");
}

#[test]
fn test_get_backup_s3_key() {
    let backup_id = "backup_2025-06-01_143000_dev_abcdef";

    let key = get_backup_s3_key("backups", backup_id).unwrap();
    assert_eq!(
        key,
        "backups/dev/backup-backup_2025-06-01_143000_dev_abcdef.db"
    );
}

#[test]
fn test_render_round_trip() {
    // a rendered identifier parses back to what went in
    let service = BackupNamingService::new("dev", None);
    let timestamp = Timestamp::new(2025, 6, 1, 14, 30, 35).unwrap();
    let id = service.render_backup_id(&timestamp, "xyz123");

    let parsed = BackupId::parse(&id).unwrap();
    assert_eq!(parsed.environment(), "dev");
    assert_eq!(parsed.server_id(), None);
    assert_eq!(parsed.random_suffix(), "xyz123");
    assert_eq!(*parsed.timestamp(), timestamp);

    let service = BackupNamingService::new("prod", Some("web2"));
    let id = service.render_backup_id(&timestamp, "q0q0q0");
    let parsed = BackupId::parse(&id).unwrap();
    assert_eq!(parsed.environment(), "prod");
    assert_eq!(parsed.server_id(), Some("web2"));
    assert_eq!(parsed.random_suffix(), "q0q0q0");
    assert_eq!(*parsed.timestamp(), timestamp);
}

#[test]
fn test_generated_suffix_is_alphanumeric() {
    // would fail if the random sampler handed anything but letters and digits
    let service = BackupNamingService::new("dev", None);
    let timestamp = Timestamp::new(2025, 6, 1, 14, 30, 0).unwrap();
    for _ in 0..16 {
        let id = service.generate_backup_id_with_time(&timestamp);
        let parsed = BackupId::parse(&id).unwrap();
        let suffix = parsed.random_suffix();
        assert_eq!(suffix.len(), 6);
        assert!(suffix.chars().all(|c| c.is_ascii_alphanumeric()));
    }
}

#[test]
fn test_generate_backup_id_now_parses() {
    // the clock-based identifier follows the grammar
    let service = BackupNamingService::new("dev", None);
    let id = service.generate_backup_id();
    assert!(BackupId::parse(&id).is_some());
}

#[test]
fn test_environment_dir() {
    let service = BackupNamingService::new("staging", None);
    assert_eq!(service.environment_dir(), "staging");
}

#[test]
fn test_timestamp_validity() {
    // month, day and time-of-day bounds; leap years
    assert!(Timestamp::new(2025, 6, 1, 14, 30, 0).is_some());
    assert!(Timestamp::new(2025, 13, 1, 0, 0, 0).is_none());
    assert!(Timestamp::new(2025, 0, 1, 0, 0, 0).is_none());
    assert!(Timestamp::new(2025, 6, 31, 0, 0, 0).is_none());
    assert!(Timestamp::new(2025, 6, 30, 0, 0, 0).is_some());
    assert!(Timestamp::new(2024, 2, 29, 0, 0, 0).is_some());
    assert!(Timestamp::new(2025, 2, 29, 0, 0, 0).is_none());
    assert!(Timestamp::new(2000, 2, 29, 0, 0, 0).is_some());
    assert!(Timestamp::new(1900, 2, 29, 0, 0, 0).is_none());
    assert!(Timestamp::new(2025, 6, 1, 24, 0, 0).is_none());
    assert!(Timestamp::new(2025, 6, 1, 23, 60, 0).is_none());
    assert!(Timestamp::new(2025, 6, 1, 23, 59, 60).is_none());
}

#[test]
fn test_parse_rejects_malformed_time() {
    // short, long and non-digit time segments yield no match, not a panic
    assert!(BackupId::parse("backup_2025-06-01_14_dev_abcdef").is_none());
    assert!(BackupId::parse("backup_2025-06-01_1430001_dev_abcdef").is_none());
    assert!(BackupId::parse("backup_2025-06-01_14300x_dev_abcdef").is_none());
    assert!(BackupId::parse("backup_2025-06-01_256161_dev_abcdef").is_none());
    // an impossible calendar date is rejected too
    assert!(BackupId::parse("backup_2025-02-29_143000_dev_abcdef").is_none());
    assert!(BackupId::parse("backup_2025-00-01_143000_dev_abcdef").is_none());
}
