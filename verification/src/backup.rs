//! The backup workflow: one export at a time, in fixed phases.
//!
//! Creating a backup exports a point-in-time-consistent copy of the live
//! database into scratch space, optionally verifies it, and hands it to
//! the storage backend. The effects — SQL, filesystem, network — belong
//! to the surrounding program; the decisions live here: which phase
//! follows which outcome, and what result record the caller receives.
//! A failed step folds into a `Failed` result; `create_backup` never
//! raises for it.

use vstd::prelude::*;
use vstd::string::*;

use crate::error::DatabaseError;
use crate::naming::{seg_free, spec_backup_id, BackupNamingService};
use crate::text::is_alnum_char;
use crate::timestamp::Timestamp;

verus! {

/// Status of a finished backup operation.
#[derive(Clone, Debug)]
pub enum BackupStatus {
    /// The backup completed and was stored.
    Completed,
    /// The backup failed; the reason is carried.
    Failed(String),
    /// The backup was cancelled.
    Cancelled,
}

impl PartialEq for BackupStatus {
    fn eq(&self, other: &BackupStatus) -> (r: bool) {
        match (self, other) {
            (BackupStatus::Completed, BackupStatus::Completed) => true,
            (BackupStatus::Failed(a), BackupStatus::Failed(b)) => crate::text::str_eq(
                a.as_str(),
                b.as_str(),
            ),
            (BackupStatus::Cancelled, BackupStatus::Cancelled) => true,
            _ => false,
        }
    }
}

impl vstd::std_specs::cmp::PartialEqSpecImpl for BackupStatus {
    open spec fn obeys_eq_spec() -> bool {
        true
    }

    open spec fn eq_spec(&self, other: &BackupStatus) -> bool {
        match (self, other) {
            (BackupStatus::Completed, BackupStatus::Completed) => true,
            (BackupStatus::Failed(a), BackupStatus::Failed(b)) => a@ == b@,
            (BackupStatus::Cancelled, BackupStatus::Cancelled) => true,
            _ => false,
        }
    }
}

/// Options for configuring backup behavior. The export itself is a
/// single atomic statement; only `verify` steers the workflow. The
/// chunk, sleep and step knobs describe an incremental copy strategy
/// that the atomic export does not use.
#[derive(Clone, Debug)]
pub struct BackupOptions {
    /// Number of pages an incremental copy would move per step.
    pub chunk_size: usize,
    /// Sleep between incremental steps, in milliseconds.
    pub sleep_ms: u64,
    /// Cap on incremental steps, `None` for no cap.
    pub step_count: Option<usize>,
    /// Whether to verify the export by reading it back before storing.
    pub verify: bool,
}

impl Default for BackupOptions {
    /// 64 pages per step, 10 ms between steps, no step cap, no
    /// verification.
    fn default() -> (r: Self)
        ensures
            r.chunk_size == 64,
            r.sleep_ms == 10,
            r.step_count is None,
            !r.verify,
    {
        BackupOptions { chunk_size: 64, sleep_ms: 10, step_count: None, verify: false }
    }
}

/// Result of a backup operation: the identifier always populated, so a
/// failure can be correlated with the export it belongs to.
#[derive(Clone, Debug)]
pub struct BackupResult {
    /// Identifier generated for this backup.
    pub backup_id: String,
    /// When the backup began.
    pub timestamp: Timestamp,
    /// How long the operation took, in milliseconds.
    pub duration_ms: u64,
    /// Stored size in bytes; zero when the backup failed.
    pub size_bytes: u64,
    /// How the operation ended.
    pub status: BackupStatus,
}

/// The phase an export job is in.
#[derive(Clone, Copy, Debug, PartialEq, Eq, Structural)]
pub enum BackupPhase {
    /// The database is being exported into scratch space.
    Exporting,
    /// The exported file is being read back and checked.
    Verifying,
    /// The exported file is being handed to the storage backend.
    Storing,
    /// The job has ended, one way or the other.
    Done,
}

/// What the surrounding program must do next for a job.
#[derive(Clone, Copy, Debug, PartialEq, Eq, Structural)]
pub enum BackupStep {
    /// Read the export back and check it.
    RunVerify,
    /// Hand the export to the storage backend.
    RunStore,
    /// Nothing; the job has ended.
    Finish,
}

/// One backup job, driven as a state machine: the surrounding program
/// performs each phase's effect and reports its outcome; the job decides
/// the next phase and assembles the final result.
pub struct BackupJob {
    backup_id: String,
    timestamp: Timestamp,
    verify: bool,
    phase: BackupPhase,
    failure: Option<String>,
    size_bytes: u64,
}

impl BackupJob {
    /// The phase the job is in.
    pub closed spec fn spec_phase(&self) -> BackupPhase {
        self.phase
    }

    /// The identifier this job exports under.
    pub closed spec fn spec_backup_id(&self) -> Seq<char> {
        self.backup_id@
    }

    /// Whether the job verifies the export before storing.
    pub closed spec fn spec_verify(&self) -> bool {
        self.verify
    }

    /// The failure message recorded so far, if any.
    pub closed spec fn spec_failure(&self) -> Option<Seq<char>> {
        match self.failure {
            Some(ref m) => Some(m@),
            None => None,
        }
    }

    /// The stored size recorded so far.
    pub closed spec fn spec_size_bytes(&self) -> u64 {
        self.size_bytes
    }

    /// The timestamp the job began at.
    pub closed spec fn spec_timestamp(&self) -> Timestamp {
        self.timestamp
    }

    /// Begin a job: the export phase comes first.
    pub fn start(backup_id: String, timestamp: Timestamp, options: &BackupOptions) -> (r: Self)
        ensures
            r.spec_phase() == BackupPhase::Exporting,
            r.spec_backup_id() == backup_id@,
            r.spec_timestamp() == timestamp,
            r.spec_verify() == options.verify,
            r.spec_failure() is None,
            r.spec_size_bytes() == 0,
    {
        BackupJob {
            backup_id,
            timestamp,
            verify: options.verify,
            phase: BackupPhase::Exporting,
            failure: None,
            size_bytes: 0,
        }
    }

    /// Begin a job whose identifier the naming service renders for the
    /// given moment, so that the job's — and so the result's —
    /// identifier follows the identifier grammar: the service's
    /// environment and server tag, the timestamp, and a six-character
    /// alphanumeric suffix.
    pub fn start_named(
        naming: &BackupNamingService,
        timestamp: &Timestamp,
        options: &BackupOptions,
    ) -> (r: Self)
        requires
            timestamp.wf(),
        ensures
            r.spec_phase() == BackupPhase::Exporting,
            r.spec_timestamp() == *timestamp,
            r.spec_verify() == options.verify,
            r.spec_failure() is None,
            r.spec_size_bytes() == 0,
            exists|sfx: Seq<char>|
                #[trigger] spec_backup_id(
                    naming.spec_environment(),
                    naming.spec_server(),
                    *timestamp,
                    sfx,
                ) == r.spec_backup_id() && sfx.len() == 6 && seg_free(sfx) && (forall|i: int|
                    0 <= i < 6 ==> is_alnum_char(#[trigger] sfx[i])),
    {
        let backup_id = naming.generate_backup_id_with_time(timestamp);
        Self::start(backup_id, *timestamp, options)
    }

    /// The identifier this job exports under.
    pub fn backup_id(&self) -> (r: &str)
        ensures
            r@ == self.spec_backup_id(),
    {
        self.backup_id.as_str()
    }

    /// Feed in the export's outcome. Success moves on to verification
    /// when requested, else to storing; failure ends the job with the
    /// error folded into the eventual `Failed` status and a size of
    /// zero.
    pub fn on_export_result(&mut self, outcome: &Result<(), DatabaseError>) -> (step: BackupStep)
        requires
            old(self).spec_phase() == BackupPhase::Exporting,
        ensures
            final(self).spec_backup_id() == old(self).spec_backup_id(),
            final(self).spec_timestamp() == old(self).spec_timestamp(),
            final(self).spec_verify() == old(self).spec_verify(),
            final(self).spec_size_bytes() == old(self).spec_size_bytes(),
            match outcome {
                Ok(_) => final(self).spec_failure() == old(self).spec_failure() && if old(self).spec_verify() {
                    final(self).spec_phase() == BackupPhase::Verifying && step
                        == BackupStep::RunVerify
                } else {
                    final(self).spec_phase() == BackupPhase::Storing && step
                        == BackupStep::RunStore
                },
                Err(e) => final(self).spec_phase() == BackupPhase::Done && step
                    == BackupStep::Finish && final(self).spec_failure() == Some(e.spec_message()),
            },
    {
        match outcome {
            Ok(_) => {
                if self.verify {
                    self.phase = BackupPhase::Verifying;
                    BackupStep::RunVerify
                } else {
                    self.phase = BackupPhase::Storing;
                    BackupStep::RunStore
                }
            },
            Err(e) => {
                self.phase = BackupPhase::Done;
                self.failure = Some(e.message());
                BackupStep::Finish
            },
        }
    }

    /// Feed in the verification's outcome. The export was already
    /// written, but a verification failure still ends the job as
    /// `Failed` with a size of zero; success moves on to storing.
    pub fn on_verify_result(&mut self, outcome: &Result<(), DatabaseError>) -> (step: BackupStep)
        requires
            old(self).spec_phase() == BackupPhase::Verifying,
        ensures
            final(self).spec_backup_id() == old(self).spec_backup_id(),
            final(self).spec_timestamp() == old(self).spec_timestamp(),
            final(self).spec_size_bytes() == old(self).spec_size_bytes(),
            match outcome {
                Ok(_) => final(self).spec_phase() == BackupPhase::Storing && step
                    == BackupStep::RunStore && final(self).spec_failure() == old(self).spec_failure(),
                Err(e) => final(self).spec_phase() == BackupPhase::Done && step
                    == BackupStep::Finish && final(self).spec_failure() == Some(e.spec_message()),
            },
    {
        match outcome {
            Ok(_) => {
                self.phase = BackupPhase::Storing;
                BackupStep::RunStore
            },
            Err(e) => {
                self.phase = BackupPhase::Done;
                self.failure = Some(e.message());
                BackupStep::Finish
            },
        }
    }

    /// Feed in the storage backend's outcome together with the export's
    /// byte size. A storage failure ends the job as `Failed` with a
    /// size of zero — the caller still receives the identifier and
    /// timing; success records the stored size.
    pub fn on_store_result(&mut self, outcome: &Result<(), DatabaseError>, size_bytes: u64)
        requires
            old(self).spec_phase() == BackupPhase::Storing,
        ensures
            final(self).spec_backup_id() == old(self).spec_backup_id(),
            final(self).spec_timestamp() == old(self).spec_timestamp(),
            final(self).spec_phase() == BackupPhase::Done,
            match outcome {
                Ok(_) => final(self).spec_failure() == old(self).spec_failure() && final(self).spec_size_bytes() == size_bytes,
                Err(e) => final(self).spec_failure() == Some(
                    "Failed to store backup: "@ + e.spec_message(),
                ) && final(self).spec_size_bytes() == 0,
            },
    {
        match outcome {
            Ok(_) => {
                self.phase = BackupPhase::Done;
                self.size_bytes = size_bytes;
            },
            Err(e) => {
                self.phase = BackupPhase::Done;
                let mut m = String::from_str("Failed to store backup: ");
                m.append(e.message().as_str());
                self.failure = Some(m);
                self.size_bytes = 0;
            },
        }
    }

    /// The result record of a finished job: the identifier and timestamp
    /// always populated, the status `Completed` exactly when no phase
    /// failed, and a size of zero on failure.
    pub fn into_result(self, duration_ms: u64) -> (r: BackupResult)
        requires
            self.spec_phase() == BackupPhase::Done,
        ensures
            r.backup_id@ == self.spec_backup_id(),
            r.timestamp == self.spec_timestamp(),
            r.duration_ms == duration_ms,
            r.size_bytes == self.spec_size_bytes(),
            match self.spec_failure() {
                None => r.status is Completed,
                Some(m) => r.status matches BackupStatus::Failed(f) && f@ == m,
            },
    {
        let status = match self.failure {
            None => BackupStatus::Completed,
            Some(m) => BackupStatus::Failed(m),
        };
        BackupResult {
            backup_id: self.backup_id,
            timestamp: self.timestamp,
            duration_ms,
            size_bytes: self.size_bytes,
            status,
        }
    }
}

/// What acquiring the export lock does: the lock ends up held, and the
/// caller is granted it exactly when nobody held it before.
pub open spec fn spec_acquire(held: bool) -> (bool, bool) {
    (true, !held)
}

/// The advisory exclusive lock that serializes exports of one manager
/// instance. This models the decision; the waiting itself is the async
/// runtime's mutex in the surrounding program.
pub struct ExportLock {
    held: bool,
}

impl ExportLock {
    /// Whether an export is in flight.
    pub closed spec fn spec_held(&self) -> bool {
        self.held
    }

    /// A free lock: no export in flight.
    pub fn new() -> (r: Self)
        ensures
            !r.spec_held(),
    {
        ExportLock { held: false }
    }

    /// Try to begin an export: granted exactly when no export is in
    /// flight; either way an export is in flight afterwards.
    pub fn try_acquire(&mut self) -> (granted: bool)
        ensures
            (final(self).spec_held(), granted) == spec_acquire(old(self).spec_held()),
    {
        let granted = !self.held;
        self.held = true;
        granted
    }

    /// End the export in flight.
    pub fn release(&mut self)
        requires
            old(self).spec_held(),
        ensures
            !final(self).spec_held(),
    {
        self.held = false;
    }
}

/// At most one export runs at a time: once the lock is granted, every
/// further attempt to acquire it is refused until it is released.
pub proof fn lemma_export_exclusive(held_before: bool)
    ensures
        spec_acquire(spec_acquire(held_before).0).1 == false,
{
}

/// The SQL statement that exports the whole live database into the file
/// at `dest` in one atomic step. A quote inside the path is doubled, as
/// SQL string syntax asks.
pub open spec fn spec_quote_escaped(s: Seq<char>) -> Seq<char>
    decreases s.len(),
{
    if s.len() == 0 {
        Seq::empty()
    } else {
        spec_quote_escaped(s.drop_last()) + (if s.last() == '\'' {
            seq!['\'', '\'']
        } else {
            seq![s.last()]
        })
    }
}

/// Builds the atomic whole-database export statement for the given
/// destination path.
pub fn vacuum_into_sql(dest: &str) -> (r: String)
    ensures
        r@ == "VACUUM INTO '"@ + spec_quote_escaped(dest@) + seq!['\''],
{
    let dc = crate::text::chars_of(dest);
    let mut out = crate::text::chars_of("VACUUM INTO '");
    let ghost head = "VACUUM INTO '"@;
    let mut i: usize = 0;
    proof {
        assert(dest@.take(0) =~= Seq::<char>::empty());
        assert(out@ =~= head + spec_quote_escaped(dest@.take(0)));
    }
    while i < dc.len()
        invariant
            i <= dc@.len(),
            dc@ == dest@,
            out@ == head + spec_quote_escaped(dest@.take(i as int)),
        decreases dc@.len() - i,
    {
        let ghost prefix = dest@.take(i as int);
        let ghost next = dest@.take(i + 1);
        proof {
            assert(next.drop_last() =~= prefix);
            assert(next.last() == dest@[i as int]);
        }
        let c = dc[i];
        if c == '\'' {
            out.push('\'');
            out.push('\'');
        } else {
            out.push(c);
        }
        proof {
            assert(out@ =~= head + spec_quote_escaped(next));
        }
        i = i + 1;
    }
    out.push('\'');
    proof {
        assert(dest@.take(dest@.len() as int) =~= dest@);
        assert(out@ =~= "VACUUM INTO '"@ + spec_quote_escaped(dest@) + seq!['\'']);
    }
    crate::text::string_of_chars(&out)
}

} // verus!
