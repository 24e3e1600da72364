//! Configuration surface of the backup subsystem, as plain values. The
//! surrounding program reads it from wherever it keeps configuration and
//! hands it in; the library decides from it alone.

use vstd::prelude::*;
use vstd::string::*;

verus! {

/// Configuration for backup storage: whether remote object storage is
/// enabled, where it lives, and where local backups go.
#[derive(Clone, Debug)]
pub struct BackupConfig {
    /// Whether remote object storage should be used at all.
    pub use_aws: bool,
    /// Bucket that remote backups go to.
    pub s3_bucket_name: String,
    /// Region of the remote store.
    pub aws_region: String,
    /// Role to assume for remote operations, if any.
    pub aws_role_arn: Option<String>,
    /// Directory local backups go to.
    pub local_backup_dir: String,
    /// How many local backups retention keeps.
    pub local_backup_max_count: usize,
}

impl Default for BackupConfig {
    /// Local-only storage under `./backups`, keeping ten backups.
    fn default() -> (r: Self)
        ensures
            !r.use_aws,
            r.s3_bucket_name@ == Seq::<char>::empty(),
            r.aws_region@ == "us-west-2"@,
            r.aws_role_arn is None,
            r.local_backup_dir@ == "./backups"@,
            r.local_backup_max_count == 10,
    {
        BackupConfig {
            use_aws: false,
            s3_bucket_name: String::new(),
            aws_region: String::from_str("us-west-2"),
            aws_role_arn: None,
            local_backup_dir: String::from_str("./backups"),
            local_backup_max_count: 10,
        }
    }
}

impl BackupConfig {
    /// True when the configuration alone permits the remote backend:
    /// remote storage enabled and a bucket named. Only then is a
    /// connectivity probe worth making; a failed probe falls back to
    /// local storage regardless.
    pub fn remote_configured(&self) -> (r: bool)
        ensures
            r == (self.use_aws && self.s3_bucket_name@.len() > 0),
    {
        self.use_aws && !self.s3_bucket_name.as_str().is_empty()
    }
}

} // verus!
