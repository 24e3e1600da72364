//! The local filesystem backend's layout and naming decisions. The
//! surrounding program performs the filesystem reads and writes; what it
//! stores where, and under which identifier, is decided and verified
//! here.

use vstd::prelude::*;
use vstd::string::*;

use crate::config::BackupConfig;
use crate::naming::spec_backup_word;
use crate::text::{chars_of, push_chars, spec_decimal, string_of_chars};

verus! {

/// The filesystem location of a blob in the local layout:
/// `{base}/{environment}/backup-{id}.db`.
pub open spec fn spec_local_blob_path(base: Seq<char>, env: Seq<char>, id: Seq<char>) -> Seq<
    char,
> {
    base + seq!['/'] + env + seq!['/'] + spec_backup_word() + seq!['-'] + id + seq!['.', 'd', 'b']
}

/// Local filesystem storage layout for database backups: blobs live
/// under one directory per environment, named `backup-{id}.db`.
#[derive(Clone, Debug)]
pub struct LocalStorageProvider {
    backup_dir: String,
    max_backups: usize,
}

impl LocalStorageProvider {
    /// The base directory blobs are placed under.
    pub closed spec fn spec_backup_dir(&self) -> Seq<char> {
        self.backup_dir@
    }

    /// How many backups retention keeps.
    pub closed spec fn spec_max_backups(&self) -> int {
        self.max_backups as int
    }

    /// A provider rooted at the configured local backup directory.
    pub fn new(config: &BackupConfig) -> (r: Self)
        ensures
            r.spec_backup_dir() == config.local_backup_dir@,
            r.spec_max_backups() == config.local_backup_max_count as int,
    {
        LocalStorageProvider {
            backup_dir: config.local_backup_dir.clone(),
            max_backups: config.local_backup_max_count,
        }
    }

    /// The number of backups this provider's retention keeps.
    pub fn max_backups(&self) -> (r: usize)
        ensures
            r as int == self.spec_max_backups(),
    {
        self.max_backups
    }

    /// The path a blob with this identifier and environment lives at.
    pub fn get_backup_path(&self, backup_id: &str, environment: &str) -> (r: String)
        ensures
            r@ == spec_local_blob_path(self.spec_backup_dir(), environment@, backup_id@),
    {
        let mut out = chars_of(self.backup_dir.as_str());
        out.push('/');
        let envc = chars_of(environment);
        push_chars(&mut out, &envc);
        out.push('/');
        out.push('b');
        out.push('a');
        out.push('c');
        out.push('k');
        out.push('u');
        out.push('p');
        out.push('-');
        let idc = chars_of(backup_id);
        push_chars(&mut out, &idc);
        out.push('.');
        out.push('d');
        out.push('b');
        proof {
            assert(out@ =~= spec_local_blob_path(
                self.spec_backup_dir(),
                environment@,
                backup_id@,
            ));
        }
        string_of_chars(&out)
    }

    /// A backup identifier from the current clock: the decimal rendering
    /// of the seconds since the Unix epoch, which sorts chronologically
    /// for equally wide renderings.
    pub fn generate_backup_id() -> (r: String)
        ensures
            exists|n: u64| r@ == spec_decimal(n as nat),
    {
        let seconds = unix_now_seconds();
        let digits = crate::text::decimal_chars(seconds);
        let r = string_of_chars(&digits);
        proof {
            assert(r@ == spec_decimal(seconds as nat));
        }
        r
    }
}

/// The file name of a blob in the local layout: `backup-{id}.db`.
pub open spec fn spec_local_blob_name(id: Seq<char>) -> Seq<char> {
    spec_backup_word() + seq!['-'] + id + seq!['.', 'd', 'b']
}

/// The identifier a local blob's file name carries, or `None` for a
/// file outside the backup layout. Exactly the names the local layout
/// writes are recognized.
pub fn extract_local_backup_id(file_name: &str) -> (r: Option<String>)
    ensures
        match r {
            Some(id) => file_name@ == spec_local_blob_name(id@),
            None => forall|id: Seq<char>| file_name@ != spec_local_blob_name(id),
        },
{
    let fc = chars_of(file_name);
    let flen = fc.len();
    if flen < 10 {
        proof {
            assert forall|id: Seq<char>| file_name@ != spec_local_blob_name(id) by {
                assert(spec_local_blob_name(id).len() == 10 + id.len());
            }
        }
        return None;
    }
    let word = ['b', 'a', 'c', 'k', 'u', 'p', '-'];
    let mut w: usize = 0;
    while w < 7
        invariant
            w <= 7,
            10 <= flen,
            fc@ == file_name@,
            flen == fc@.len(),
            word@ == spec_backup_word() + seq!['-'],
            forall|j: int| 0 <= j < w ==> fc@[j] == word@[j],
        decreases 7 - w,
    {
        if fc[w] != word[w] {
            proof {
                assert forall|id: Seq<char>| file_name@ != spec_local_blob_name(id) by {
                    assert(spec_local_blob_name(id)[w as int] == word@[w as int]);
                }
            }
            return None;
        }
        w = w + 1;
    }
    let tail = ['.', 'd', 'b'];
    let mut t: usize = 0;
    while t < 3
        invariant
            t <= 3,
            10 <= flen,
            fc@ == file_name@,
            flen == fc@.len(),
            tail@ == seq!['.', 'd', 'b'],
            forall|j: int| 0 <= j < t ==> fc@[flen - 3 + j] == tail@[j],
        decreases 3 - t,
    {
        if fc[flen - 3 + t] != tail[t] {
            proof {
                assert forall|id: Seq<char>| file_name@ != spec_local_blob_name(id) by {
                    let full = spec_local_blob_name(id);
                    if file_name@.len() == full.len() {
                        assert(full[flen - 3 + t] == tail@[t as int]);
                    }
                }
            }
            return None;
        }
        t = t + 1;
    }
    let mut idc: Vec<char> = Vec::new();
    let mut p: usize = 7;
    proof {
        assert(idc@ =~= file_name@.subrange(7, 7));
    }
    while p < flen - 3
        invariant
            7 <= p <= flen - 3,
            10 <= flen,
            fc@ == file_name@,
            flen == fc@.len(),
            idc@ == file_name@.subrange(7, p as int),
        decreases flen - 3 - p,
    {
        idc.push(fc[p]);
        proof {
            assert(idc@ =~= file_name@.subrange(7, p + 1));
        }
        p = p + 1;
    }
    proof {
        assert(file_name@ =~= spec_local_blob_name(idc@));
    }
    Some(string_of_chars(&idc))
}

/// Relies on `std::time::SystemTime::now` and
/// `duration_since(UNIX_EPOCH)`: the clock's reading as whole seconds
/// since the Unix epoch, or zero should the clock read earlier than the
/// epoch. Nothing is promised of the value: it is whatever the clock
/// reads.
#[verifier::external_body]
fn unix_now_seconds() -> u64 {
    std::time::SystemTime::now()
        .duration_since(std::time::UNIX_EPOCH)
        .map(|d| d.as_secs())
        .unwrap_or(0)
}

} // verus!
