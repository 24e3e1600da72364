//! The remote object-storage backend's key layout and failure
//! classification. The surrounding program talks to the object store;
//! which key a blob lives under, which identifier a key names, and how a
//! failed call is classified are decided and verified here.
//!
//! The remote key layout is flat — `{prefix}backup-{id}.db`, with no
//! environment directory — unlike the local backend's.

use vstd::prelude::*;
use vstd::string::*;

use crate::config::BackupConfig;
use crate::error::DatabaseError;
use crate::naming::spec_backup_word;
use crate::text::{chars_of, push_chars, string_of_chars};

verus! {

/// The object key of a blob in the remote layout:
/// `{prefix}backup-{id}.db`.
pub open spec fn spec_remote_key(prefix: Seq<char>, id: Seq<char>) -> Seq<char> {
    prefix + spec_backup_word() + seq!['-'] + id + seq!['.', 'd', 'b']
}

/// How a remote call failed, as plain values: the transport and service
/// failure classes the object-store client distinguishes, with the HTTP
/// status of a service failure.
#[derive(Clone, Copy, Debug, PartialEq, Eq, Structural)]
pub enum RemoteFailureKind {
    /// The request could not be constructed.
    Construction,
    /// The request never reached the service.
    Dispatch,
    /// The response could not be understood.
    Response,
    /// The call timed out.
    Timeout,
    /// The service answered with an error; the HTTP status is carried.
    Service(u16),
    /// Anything else.
    Unknown,
}

/// Which storage operation a remote call was made for.
#[derive(Clone, Copy, Debug, PartialEq, Eq, Structural)]
pub enum RemoteOperation {
    Store,
    Retrieve,
    List,
    Delete,
    Exists,
    Probe,
}

/// Classifies a failed remote call: a missing object during retrieval is
/// the domain's `BackupNotFound`; every other failure is a storage error
/// carrying the call's diagnostic text.
pub fn map_remote_error(operation: RemoteOperation, kind: RemoteFailureKind, detail: &str) -> (r:
    DatabaseError)
    ensures
        (operation is Retrieve && kind == RemoteFailureKind::Service(404)) <==> r
            is BackupNotFound,
        !(operation is Retrieve && kind == RemoteFailureKind::Service(404)) ==> (
        r matches DatabaseError::Storage(m) && m@ == detail@),
{
    match (operation, kind) {
        (RemoteOperation::Retrieve, RemoteFailureKind::Service(status)) => {
            if status == 404 {
                DatabaseError::BackupNotFound
            } else {
                DatabaseError::Storage(detail.to_owned())
            }
        },
        _ => DatabaseError::Storage(detail.to_owned()),
    }
}

/// True when a failed existence probe means the object is absent rather
/// than the probe broken: the service answered that there is no such
/// object.
pub fn head_means_absent(kind: &RemoteFailureKind) -> (r: bool)
    ensures
        r == (*kind == RemoteFailureKind::Service(404)),
{
    match kind {
        RemoteFailureKind::Service(status) => *status == 404,
        _ => false,
    }
}

/// Remote object storage layout for database backups, keyed under a
/// fixed prefix in one bucket. Connectivity is the surrounding
/// program's concern: it probes the bucket at construction and falls
/// back to local storage when the probe fails.
#[derive(Clone, Debug)]
pub struct S3StorageProvider {
    bucket: String,
    prefix: String,
    temp_dir: String,
}

impl S3StorageProvider {
    /// The bucket this provider stores into.
    pub closed spec fn spec_bucket(&self) -> Seq<char> {
        self.bucket@
    }

    /// The key prefix backups live under.
    pub closed spec fn spec_prefix(&self) -> Seq<char> {
        self.prefix@
    }

    /// The local scratch directory for downloads.
    pub closed spec fn spec_temp_dir(&self) -> Seq<char> {
        self.temp_dir@
    }

    /// A provider for the configured bucket, keyed under `backups/`,
    /// with the local backup directory as scratch space.
    pub fn new(config: &BackupConfig) -> (r: Self)
        ensures
            r.spec_bucket() == config.s3_bucket_name@,
            r.spec_prefix() == "backups/"@,
            r.spec_temp_dir() == config.local_backup_dir@,
    {
        S3StorageProvider {
            bucket: config.s3_bucket_name.clone(),
            prefix: String::from_str("backups/"),
            temp_dir: config.local_backup_dir.clone(),
        }
    }

    /// The bucket name.
    pub fn bucket(&self) -> (r: &str)
        ensures
            r@ == self.spec_bucket(),
    {
        self.bucket.as_str()
    }

    /// The key prefix backups live under.
    pub fn prefix(&self) -> (r: &str)
        ensures
            r@ == self.spec_prefix(),
    {
        self.prefix.as_str()
    }

    /// The object key for a backup with the given identifier.
    pub fn get_backup_key(&self, backup_id: &str) -> (r: String)
        ensures
            r@ == spec_remote_key(self.spec_prefix(), backup_id@),
    {
        let mut out = chars_of(self.prefix.as_str());
        out.push('b');
        out.push('a');
        out.push('c');
        out.push('k');
        out.push('u');
        out.push('p');
        out.push('-');
        let idc = chars_of(backup_id);
        push_chars(&mut out, &idc);
        out.push('.');
        out.push('d');
        out.push('b');
        proof {
            assert(out@ =~= spec_remote_key(self.spec_prefix(), backup_id@));
        }
        string_of_chars(&out)
    }

    /// The identifier a stored object's key names, or `None` for a key
    /// outside the backup layout. Exactly the keys this provider writes
    /// are recognized.
    pub fn extract_backup_id(&self, key: &str) -> (r: Option<String>)
        ensures
            match r {
                Some(id) => key@ == spec_remote_key(self.spec_prefix(), id@),
                None => forall|id: Seq<char>| key@ != spec_remote_key(self.spec_prefix(), id),
            },
    {
        let kc = chars_of(key);
        let pc = chars_of(self.prefix.as_str());
        let plen = pc.len();
        let klen = kc.len();
        if klen < 10 || klen - 10 < plen {
            proof {
                assert forall|id: Seq<char>| key@ != spec_remote_key(
                    self.spec_prefix(),
                    id,
                ) by {
                    assert(spec_remote_key(self.spec_prefix(), id).len() == plen + 10 + id.len());
                }
            }
            return None;
        }
        // the key must open with `{prefix}backup-`
        let mut i: usize = 0;
        while i < plen
            invariant
                i <= plen,
                plen + 10 <= klen,
                kc@ == key@,
                pc@ == self.spec_prefix(),
                plen == pc@.len(),
                klen == kc@.len(),
                forall|j: int| 0 <= j < i ==> kc@[j] == pc@[j],
            decreases plen - i,
        {
            if kc[i] != pc[i] {
                proof {
                    assert forall|id: Seq<char>| key@ != spec_remote_key(
                        self.spec_prefix(),
                        id,
                    ) by {
                        assert(spec_remote_key(self.spec_prefix(), id)[i as int] == pc@[i as int]);
                    }
                }
                return None;
            }
            i = i + 1;
        }
        let word = ['b', 'a', 'c', 'k', 'u', 'p', '-'];
        let mut w: usize = 0;
        while w < 7
            invariant
                w <= 7,
                plen + 10 <= klen,
                kc@ == key@,
                pc@ == self.spec_prefix(),
                plen == pc@.len(),
                klen == kc@.len(),
                word@ == spec_backup_word() + seq!['-'],
                forall|j: int| 0 <= j < w ==> kc@[plen + j] == word@[j],
            decreases 7 - w,
        {
            if kc[plen + w] != word[w] {
                proof {
                    assert forall|id: Seq<char>| key@ != spec_remote_key(
                        self.spec_prefix(),
                        id,
                    ) by {
                        assert(spec_remote_key(self.spec_prefix(), id)[plen + w] == word@[
                            w as int]);
                    }
                }
                return None;
            }
            w = w + 1;
        }
        // ... and close with `.db`
        let tail = ['.', 'd', 'b'];
        let mut t: usize = 0;
        while t < 3
            invariant
                t <= 3,
                plen + 10 <= klen,
                kc@ == key@,
                pc@ == self.spec_prefix(),
                plen == pc@.len(),
                klen == kc@.len(),
                tail@ == seq!['.', 'd', 'b'],
                forall|j: int| 0 <= j < t ==> kc@[klen - 3 + j] == tail@[j],
            decreases 3 - t,
        {
            if kc[klen - 3 + t] != tail[t] {
                proof {
                    assert forall|id: Seq<char>| key@ != spec_remote_key(
                        self.spec_prefix(),
                        id,
                    ) by {
                        let full = spec_remote_key(self.spec_prefix(), id);
                        if key@.len() == full.len() {
                            assert(full[klen - 3 + t] == tail@[t as int]);
                        }
                    }
                }
                return None;
            }
            t = t + 1;
        }
        // the identifier is what sits between
        let mut idc: Vec<char> = Vec::new();
        let mut p: usize = plen + 7;
        proof {
            assert(idc@ =~= key@.subrange(plen + 7, plen + 7));
        }
        while p < klen - 3
            invariant
                plen + 7 <= p <= klen - 3,
                plen + 10 <= klen,
                kc@ == key@,
                klen == kc@.len(),
                idc@ == key@.subrange(plen + 7, p as int),
            decreases klen - 3 - p,
        {
            idc.push(kc[p]);
            proof {
                assert(idc@ =~= key@.subrange(plen + 7, p + 1));
            }
            p = p + 1;
        }
        proof {
            assert(key@ =~= spec_remote_key(self.spec_prefix(), idc@));
        }
        Some(string_of_chars(&idc))
    }
}

} // verus!
