//! The storage capability: a uniform contract over backends that persist
//! backup blobs keyed by identifier, grouped by environment.
//!
//! The contract is stated over a catalog model: the sequence of stored
//! records, each an environment, an identifier, and the blob's bytes.
//! Lookup and deletion derive the environment from the identifier itself;
//! listing returns identifiers newest first, which is descending string
//! order because identifiers begin with their timestamp; retention keeps
//! the newest `keep` entries and deletes the rest.

use vstd::prelude::*;
use vstd::relations::{sorted_by, total_ordering};
use vstd::seq_lib::group_to_multiset_ensures;
use vstd::string::*;

use crate::error::DatabaseError;
use crate::naming::spec_environment_of;
use crate::text::{
    lemma_lex_leq_antisymmetric, lemma_lex_leq_connected, lemma_lex_leq_reflexive,
    lemma_lex_leq_transitive, lex_leq, str_leq,
};

verus! {

// ----------------------------------------------------------------------
// The catalog model
// ----------------------------------------------------------------------
/// One stored backup, as the model sees it.
pub struct BackupRecord {
    pub environment: Seq<char>,
    pub id: Seq<char>,
    pub content: Seq<u8>,
}

/// The views of a sequence of identifier strings.
pub open spec fn spec_views(ids: Seq<String>) -> Seq<Seq<char>> {
    ids.map_values(|s: String| s@)
}

/// The identifiers of a catalog, in storage order.
pub open spec fn spec_ids(cat: Seq<BackupRecord>) -> Seq<Seq<char>> {
    cat.map_values(|r: BackupRecord| r.id)
}

/// First index of the record keyed by `(env, id)`, or -1 when absent.
pub open spec fn spec_find(cat: Seq<BackupRecord>, env: Seq<char>, id: Seq<char>) -> int
    decreases cat.len(),
{
    if cat.len() == 0 {
        -1
    } else if cat[0].environment == env && cat[0].id == id {
        0
    } else {
        let r = spec_find(cat.drop_first(), env, id);
        if r == -1 {
            -1
        } else {
            r + 1
        }
    }
}

/// True when record `r` is stored under exactly this environment and
/// identifier.
pub open spec fn spec_matches(r: BackupRecord, env: Seq<char>, id: Seq<char>) -> bool {
    r.environment == env && r.id == id
}

pub proof fn lemma_find_props(cat: Seq<BackupRecord>, env: Seq<char>, id: Seq<char>)
    ensures
        -1 <= spec_find(cat, env, id) < cat.len(),
        spec_find(cat, env, id) >= 0 ==> spec_matches(cat[spec_find(cat, env, id)], env, id),
        forall|k: int|
            0 <= k < cat.len() && (k < spec_find(cat, env, id) || spec_find(cat, env, id) == -1)
                ==> !spec_matches(#[trigger] cat[k], env, id),
    decreases cat.len(),
{
    let f = spec_find(cat, env, id);
    if cat.len() > 0 {
        lemma_find_props(cat.drop_first(), env, id);
        assert forall|k: int|
            0 <= k < cat.len() && (k < f || f == -1) implies !spec_matches(
            #[trigger] cat[k],
            env,
            id,
        ) by {
            if k > 0 {
                assert(cat[k] == cat.drop_first()[k - 1]);
            }
        }
    }
}

/// The first match is determined by a witness: a matching index before
/// which nothing matches.
pub proof fn lemma_find_at(cat: Seq<BackupRecord>, env: Seq<char>, id: Seq<char>, f: int)
    requires
        0 <= f < cat.len(),
        spec_matches(cat[f], env, id),
        forall|k: int| 0 <= k < f ==> !spec_matches(#[trigger] cat[k], env, id),
    ensures
        spec_find(cat, env, id) == f,
    decreases cat.len(),
{
    if f > 0 {
        assert(!spec_matches(cat[0], env, id));
        assert(cat.drop_first()[f - 1] == cat[f]);
        assert forall|k: int| 0 <= k < f - 1 implies !spec_matches(
            #[trigger] cat.drop_first()[k],
            env,
            id,
        ) by {
            assert(cat.drop_first()[k] == cat[k + 1]);
        }
        lemma_find_at(cat.drop_first(), env, id, f - 1);
    }
}

/// A catalog has no match for `(env, id)` exactly when `spec_find` says
/// so.
pub proof fn lemma_find_absent(cat: Seq<BackupRecord>, env: Seq<char>, id: Seq<char>)
    requires
        forall|k: int| 0 <= k < cat.len() ==> !spec_matches(#[trigger] cat[k], env, id),
    ensures
        spec_find(cat, env, id) == -1,
    decreases cat.len(),
{
    if cat.len() > 0 {
        assert forall|k: int| 0 <= k < cat.drop_first().len() implies !spec_matches(
            #[trigger] cat.drop_first()[k],
            env,
            id,
        ) by {
            assert(cat.drop_first()[k] == cat[k + 1]);
        }
        lemma_find_absent(cat.drop_first(), env, id);
    }
}

/// The catalog after storing `data` under `(env, id)`: the existing
/// record is replaced, or a new one appended. Storing is idempotent.
pub open spec fn spec_store(
    cat: Seq<BackupRecord>,
    env: Seq<char>,
    id: Seq<char>,
    data: Seq<u8>,
) -> Seq<BackupRecord> {
    let rec = BackupRecord { environment: env, id: id, content: data };
    let f = spec_find(cat, env, id);
    if f >= 0 {
        cat.update(f, rec)
    } else {
        cat.push(rec)
    }
}

/// The bytes stored under `(env, id)`, if any.
pub open spec fn spec_lookup(cat: Seq<BackupRecord>, env: Seq<char>, id: Seq<char>) -> Option<
    Seq<u8>,
> {
    let f = spec_find(cat, env, id);
    if f >= 0 {
        Some(cat[f].content)
    } else {
        None
    }
}

/// The catalog after deleting `(env, id)`; absence changes nothing and
/// is not an error.
pub open spec fn spec_delete(cat: Seq<BackupRecord>, env: Seq<char>, id: Seq<char>) -> Seq<
    BackupRecord,
> {
    let f = spec_find(cat, env, id);
    if f >= 0 {
        cat.remove(f)
    } else {
        cat
    }
}

/// Descending lexicographic order on identifiers: newest first, because
/// an identifier begins with its zero-padded timestamp.
pub open spec fn desc_order() -> spec_fn(Seq<char>, Seq<char>) -> bool {
    |a: Seq<char>, b: Seq<char>| lex_leq(b, a)
}

pub proof fn lemma_desc_order_total()
    ensures
        total_ordering(desc_order()),
{
    let r = desc_order();
    assert forall|x: Seq<char>| #[trigger] r(x, x) by {
        lemma_lex_leq_reflexive(x);
    }
    assert forall|x: Seq<char>, y: Seq<char>| #[trigger] r(x, y) && #[trigger] r(y, x) implies x
        == y by {
        lemma_lex_leq_antisymmetric(x, y);
    }
    assert forall|x: Seq<char>, y: Seq<char>, z: Seq<char>|
        #[trigger] r(x, y) && #[trigger] r(y, z) implies r(x, z) by {
        lemma_lex_leq_transitive(z, y, x);
    }
    assert forall|x: Seq<char>, y: Seq<char>| #[trigger] r(x, y) || #[trigger] r(y, x) by {
        lemma_lex_leq_connected(x, y);
    }
}

/// The listing of a catalog: its identifiers, newest first.
pub open spec fn spec_list(cat: Seq<BackupRecord>) -> Seq<Seq<char>> {
    spec_ids(cat).sort_by(desc_order())
}

/// The records of `cat` that belong to `env`.
pub open spec fn spec_scoped(cat: Seq<BackupRecord>, env: Seq<char>) -> Seq<BackupRecord> {
    cat.filter(|r: BackupRecord| r.environment == env)
}

/// The listing of one environment: its identifiers, newest first.
pub open spec fn spec_list_scoped(cat: Seq<BackupRecord>, env: Seq<char>) -> Seq<Seq<char>> {
    spec_ids(spec_scoped(cat, env)).sort_by(desc_order())
}

/// The identifiers beyond the `keep` newest of a listing.
pub open spec fn spec_victims(listing: Seq<Seq<char>>, keep: int) -> Seq<Seq<char>> {
    if keep <= listing.len() {
        listing.skip(keep)
    } else {
        Seq::empty()
    }
}

/// Whether retention removes record `r` given the victims of a listing:
/// its identifier is slated and the record sits where deletion by that
/// identifier looks, under the identifier's own environment.
pub open spec fn spec_pruned(r: BackupRecord, victims: Seq<Seq<char>>) -> bool {
    victims.contains(r.id) && r.environment == spec_environment_of(r.id)
}

/// The records of `cat` that retention with the given victims keeps.
pub open spec fn spec_prune(cat: Seq<BackupRecord>, victims: Seq<Seq<char>>) -> Seq<
    BackupRecord,
> {
    cat.filter(|r: BackupRecord| !spec_pruned(r, victims))
}

/// The catalog after global retention: every record whose identifier
/// lies beyond the `keep` newest is deleted.
pub open spec fn spec_cleanup(cat: Seq<BackupRecord>, keep: int) -> Seq<BackupRecord> {
    spec_prune(cat, spec_victims(spec_list(cat), keep))
}

/// The catalog after retention scoped to one environment.
pub open spec fn spec_cleanup_scoped(cat: Seq<BackupRecord>, env: Seq<char>, keep: int) -> Seq<
    BackupRecord,
> {
    spec_prune(cat, spec_victims(spec_list_scoped(cat, env), keep))
}

/// Which storage backend the factory selects.
#[derive(Clone, Copy, Debug, PartialEq, Eq, Structural)]
pub enum BackendChoice {
    /// Remote object storage.
    Remote,
    /// The local filesystem.
    Local,
}

/// Selects the storage backend: remote exactly when the configuration
/// enables it, names a bucket, and the connectivity probe succeeded.
/// Everything else falls back to the local filesystem — backend
/// availability is a soft dependency, never a failure of the whole
/// system.
pub fn select_backend(config: &crate::config::BackupConfig, probe_ok: bool) -> (r: BackendChoice)
    ensures
        (r is Remote) == (config.use_aws && config.s3_bucket_name@.len() > 0 && probe_ok),
{
    if config.remote_configured() && probe_ok {
        BackendChoice::Remote
    } else {
        BackendChoice::Local
    }
}

/// Holds the factory's fallback rule: a remote backend that could not
/// be constructed — the construction probe failed — deterministically
/// gives way to the local one.
pub fn resolve_backend(choice: BackendChoice, construction_ok: bool) -> (r: BackendChoice)
    ensures
        (r is Remote) == (choice is Remote && construction_ok),
{
    match choice {
        BackendChoice::Remote => {
            if construction_ok {
                BackendChoice::Remote
            } else {
                BackendChoice::Local
            }
        },
        BackendChoice::Local => BackendChoice::Local,
    }
}

/// The environment a backup identifier is placed and looked up under:
/// its parsed environment segment, or `dev` when the identifier does
/// not parse.
pub fn derived_environment(backup_id: &str) -> (r: String)
    ensures
        r@ == spec_environment_of(backup_id@),
{
    match crate::naming::get_environment_from_backup_id(backup_id) {
        Some(e) => e,
        None => {
            let s = String::from_str("dev");
            proof {
                reveal_strlit("dev");
                assert(s@ =~= seq!['d', 'e', 'v']);
            }
            s
        },
    }
}

// ----------------------------------------------------------------------
// Executable selection helpers
// ----------------------------------------------------------------------
/// The identifiers of a listing whose derived environment is `env`:
/// how a backend with a flat key layout scopes a listing.
pub open spec fn spec_scoped_ids(ids: Seq<Seq<char>>, env: Seq<char>) -> Seq<Seq<char>> {
    ids.filter(|id: Seq<char>| spec_environment_of(id) == env)
}

/// Keeps the identifiers that belong to `environment`, preserving
/// their order.
pub fn filter_ids_by_environment(ids: Vec<String>, environment: &str) -> (r: Vec<String>)
    ensures
        spec_views(r@) == spec_scoped_ids(spec_views(ids@), environment@),
{
    let mut out: Vec<String> = Vec::new();
    let mut i: usize = 0;
    let ghost all = spec_views(ids@);
    proof {
        reveal(Seq::filter);
        assert(all.take(0) =~= Seq::<Seq<char>>::empty());
        assert(spec_views(out@) =~= spec_scoped_ids(all.take(0), environment@));
    }
    while i < ids.len()
        invariant
            i <= ids@.len(),
            all == spec_views(ids@),
            all.len() == ids@.len(),
            spec_views(out@) == spec_scoped_ids(all.take(i as int), environment@),
        decreases ids@.len() - i,
    {
        let ghost prefix = all.take(i as int);
        let ghost next = all.take(i + 1);
        proof {
            reveal(Seq::filter);
            assert(next.drop_last() =~= prefix);
            assert(next.last() == all[i as int]);
        }
        let env = derived_environment(ids[i].as_str());
        if crate::text::str_eq(env.as_str(), environment) {
            let ghost prev = out@;
            out.push(ids[i].clone());
            proof {
                reveal(Seq::filter);
                assert(spec_environment_of(all[i as int]) == environment@);
                assert(spec_scoped_ids(next, environment@) == spec_scoped_ids(
                    prefix,
                    environment@,
                ).push(all[i as int]));
                assert(out@ == prev.push(ids@[i as int]));
                assert(prev.len() == spec_views(prev).len());
                assert forall|j: int| 0 <= j < out@.len() implies spec_views(out@)[j]
                    == spec_scoped_ids(next, environment@)[j] by {
                    if j < prev.len() {
                        assert(spec_views(out@)[j] == spec_views(prev)[j]);
                    }
                }
                assert(spec_views(out@) =~= spec_scoped_ids(next, environment@));
            }
        } else {
            proof {
                reveal(Seq::filter);
                assert(!(spec_environment_of(all[i as int]) == environment@));
                assert(spec_scoped_ids(next, environment@) == spec_scoped_ids(
                    prefix,
                    environment@,
                ));
            }
        }
        i = i + 1;
    }
    proof {
        assert(all.take(all.len() as int) =~= all);
    }
    out
}

/// The identifiers beyond the `keep` newest of a listing: what
/// retention deletes.
pub fn victims_beyond(listing: &Vec<String>, keep: usize) -> (r: Vec<String>)
    ensures
        spec_views(r@) == spec_victims(spec_views(listing@), keep as int),
{
    let mut out: Vec<String> = Vec::new();
    if keep > listing.len() {
        proof {
            assert(spec_views(out@) =~= spec_victims(spec_views(listing@), keep as int));
        }
        return out;
    }
    let mut i: usize = keep;
    proof {
        assert(spec_views(out@) =~= spec_views(listing@).subrange(keep as int, keep as int));
    }
    while i < listing.len()
        invariant
            keep <= i <= listing@.len(),
            spec_views(out@) == spec_views(listing@).subrange(keep as int, i as int),
        decreases listing@.len() - i,
    {
        let ghost prev = out@;
        out.push(listing[i].clone());
        proof {
            assert(out@ == prev.push(listing@[i as int]));
            assert(prev.len() == spec_views(prev).len());
            assert(spec_views(listing@).len() == listing@.len());
            assert forall|j: int| 0 <= j < out@.len() implies spec_views(out@)[j] == spec_views(
                listing@,
            ).subrange(keep as int, i + 1)[j] by {
                if j < prev.len() {
                    assert(spec_views(out@)[j] == spec_views(prev)[j]);
                }
            }
            assert(spec_views(out@) =~= spec_views(listing@).subrange(keep as int, i + 1));
        }
        i = i + 1;
    }
    proof {
        assert(spec_views(out@) =~= spec_victims(spec_views(listing@), keep as int));
    }
    out
}

// ----------------------------------------------------------------------
// Sorting identifiers, executable
// ----------------------------------------------------------------------
/// Sorts identifiers in descending lexicographic order — newest first
/// for timestamp-prefixed identifiers.
pub fn sort_ids_descending(v: Vec<String>) -> (r: Vec<String>)
    ensures
        sorted_by(spec_views(r@), desc_order()),
        spec_views(r@).to_multiset() == spec_views(v@).to_multiset(),
        r@.len() == v@.len(),
{
    broadcast use group_to_multiset_ensures;

    let mut src = v;
    let ghost orig = spec_views(src@);
    let mut out: Vec<String> = Vec::new();
    proof {
        assert(spec_views(out@) =~= Seq::<Seq<char>>::empty());
        assert(spec_views(out@).to_multiset().add(spec_views(src@).to_multiset())
            =~= orig.to_multiset());
    }
    while src.len() > 0
        invariant
            spec_views(out@).to_multiset().add(spec_views(src@).to_multiset())
                == orig.to_multiset(),
            sorted_by(spec_views(out@), desc_order()),
            forall|i: int, j: int|
                0 <= i < src@.len() && 0 <= j < out@.len() ==> lex_leq(
                    #[trigger] src@[i]@,
                    #[trigger] out@[j]@,
                ),
            out@.len() + src@.len() == orig.len(),
        decreases src@.len(),
    {
        broadcast use group_to_multiset_ensures;

        // find a maximal remaining identifier
        let mut mi: usize = 0;
        let mut j: usize = 1;
        proof {
            lemma_lex_leq_reflexive(src@[0]@);
        }
        while j < src.len()
            invariant
                mi < j,
                1 <= j <= src@.len(),
                src@.len() > 0,
                forall|k: int| 0 <= k < j ==> lex_leq(#[trigger] src@[k]@, src@[mi as int]@),
            decreases src@.len() - j,
        {
            if str_leq(src[mi].as_str(), src[j].as_str()) {
                let ghost old_mi = mi as int;
                mi = j;
                proof {
                    assert forall|k: int| 0 <= k < j + 1 implies lex_leq(
                        #[trigger] src@[k]@,
                        src@[mi as int]@,
                    ) by {
                        if k < j {
                            lemma_lex_leq_transitive(src@[k]@, src@[old_mi]@, src@[j as int]@);
                        } else {
                            lemma_lex_leq_reflexive(src@[j as int]@);
                        }
                    }
                }
            } else {
                proof {
                    lemma_lex_leq_connected(src@[mi as int]@, src@[j as int]@);
                }
            }
            j = j + 1;
        }
        let ghost before_src = src@;
        let ghost before_out = out@;
        let x = src.remove(mi);
        out.push(x);
        proof {
            assert(spec_views(src@) =~= spec_views(before_src).remove(mi as int));
            assert(spec_views(out@) =~= spec_views(before_out).push(before_src[mi as int]@));
            assert(spec_views(out@).to_multiset().add(spec_views(src@).to_multiset())
                =~= orig.to_multiset());
            // the pushed element keeps the output sorted and above the rest
            assert forall|i: int, j2: int|
                0 <= i < src@.len() && 0 <= j2 < out@.len() implies lex_leq(
                #[trigger] src@[i]@,
                #[trigger] out@[j2]@,
            ) by {
                if j2 == out@.len() - 1 {
                    if i < mi as int {
                        assert(src@[i] == before_src[i]);
                    } else {
                        assert(src@[i] == before_src[i + 1]);
                    }
                }
            }
            assert(sorted_by(spec_views(out@), desc_order()));
        }
    }
    proof {
        assert(spec_views(src@) =~= Seq::<Seq<char>>::empty());
        assert(spec_views(out@).to_multiset() =~= orig.to_multiset());
    }
    out
}


// ----------------------------------------------------------------------
// The capability
// ----------------------------------------------------------------------
/// A backend that persists backup blobs keyed by identifier.
///
/// `catalog` is the backend's model: the records it currently holds.
/// Each operation's contract relates the call's outcome to the catalog;
/// where an operation can fail for backend-specific reasons (transport,
/// filesystem), the contract binds what a successful call did, and binds
/// a `BackupNotFound` failure of retrieval to the blob's absence.
pub trait StorageProvider: Sized {
    /// The records this backend currently holds.
    spec fn catalog(&self) -> Seq<BackupRecord>;

    /// Persist `data` under `backup_id` in `environment`. Idempotent:
    /// storing the same key again replaces the blob. A failed store may
    /// leave the target key in any state, but touches no other key.
    fn store_backup(&mut self, data: &Vec<u8>, backup_id: &str, environment: &str) -> (r: Result<
        (),
        DatabaseError,
    >)
        ensures
            r is Ok ==> final(self).catalog() == spec_store(
                old(self).catalog(),
                environment@,
                backup_id@,
                data@,
            ),
            r is Err ==> forall|env2: Seq<char>, id2: Seq<char>|
                !(env2 == environment@ && id2 == backup_id@) ==> spec_lookup(
                    final(self).catalog(),
                    env2,
                    id2,
                ) == spec_lookup(old(self).catalog(), env2, id2),
    ;

    /// Fetch the blob stored under `backup_id`, in the environment the
    /// identifier itself names. Absence fails with `BackupNotFound` and
    /// nothing else does.
    fn retrieve_backup(&self, backup_id: &str) -> (r: Result<Vec<u8>, DatabaseError>)
        ensures
            match r {
                Ok(d) => spec_lookup(
                    self.catalog(),
                    spec_environment_of(backup_id@),
                    backup_id@,
                ) == Some(d@),
                Err(e) => (e is BackupNotFound <==> spec_lookup(
                    self.catalog(),
                    spec_environment_of(backup_id@),
                    backup_id@,
                ) is None),
            },
    ;

    /// All stored identifiers, newest first.
    fn list_backups(&self) -> (r: Result<Vec<String>, DatabaseError>)
        ensures
            r matches Ok(l) ==> spec_views(l@) == spec_list(self.catalog()),
    ;

    /// The identifiers of one environment, newest first.
    fn list_environment_backups(&self, environment: &str) -> (r: Result<Vec<String>, DatabaseError>)
        ensures
            r matches Ok(l) ==> spec_views(l@) == spec_list_scoped(self.catalog(), environment@),
    ;

    /// The newest stored identifier, if any.
    fn get_latest_backup(&self) -> (r: Result<Option<String>, DatabaseError>)
        ensures
            r matches Ok(o) ==> match o {
                Some(s) => spec_list(self.catalog()).len() > 0 && s@ == spec_list(
                    self.catalog(),
                )[0],
                None => spec_list(self.catalog()).len() == 0,
            },
    ;

    /// The newest identifier of one environment, if any.
    fn get_latest_environment_backup(&self, environment: &str) -> (r: Result<
        Option<String>,
        DatabaseError,
    >)
        ensures
            r matches Ok(o) ==> match o {
                Some(s) => spec_list_scoped(self.catalog(), environment@).len() > 0 && s@
                    == spec_list_scoped(self.catalog(), environment@)[0],
                None => spec_list_scoped(self.catalog(), environment@).len() == 0,
            },
    ;

    /// Remove the blob stored under `backup_id`, in the environment the
    /// identifier names; absence is not an error. A failed deletion
    /// touches no key but the target.
    fn delete_backup(&mut self, backup_id: &str) -> (r: Result<(), DatabaseError>)
        ensures
            r is Ok ==> final(self).catalog() == spec_delete(
                old(self).catalog(),
                spec_environment_of(backup_id@),
                backup_id@,
            ),
            r is Err ==> forall|env2: Seq<char>, id2: Seq<char>|
                !(env2 == spec_environment_of(backup_id@) && id2 == backup_id@) ==> spec_lookup(
                    final(self).catalog(),
                    env2,
                    id2,
                ) == spec_lookup(old(self).catalog(), env2, id2),
    ;

    /// Whether a blob is stored under `backup_id`.
    fn backup_exists(&self, backup_id: &str) -> (r: Result<bool, DatabaseError>)
        ensures
            r matches Ok(b) ==> b == (spec_lookup(
                self.catalog(),
                spec_environment_of(backup_id@),
                backup_id@,
            ) is Some),
    ;

    /// Keep only the `keep_count` newest backups; delete the rest. A
    /// failed cleanup may leave some victims deleted and others not, but
    /// touches no key retention did not slate.
    fn cleanup_old_backups(&mut self, keep_count: usize) -> (r: Result<(), DatabaseError>)
        ensures
            r is Ok ==> final(self).catalog() == spec_cleanup(
                old(self).catalog(),
                keep_count as int,
            ),
            r is Err ==> forall|env2: Seq<char>, id2: Seq<char>|
                !(spec_victims(spec_list(old(self).catalog()), keep_count as int).contains(id2)
                    && env2 == spec_environment_of(id2)) ==> spec_lookup(
                    final(self).catalog(),
                    env2,
                    id2,
                ) == spec_lookup(old(self).catalog(), env2, id2),
    ;

    /// Keep only the `keep_count` newest backups of one environment. A
    /// failed cleanup may leave some victims deleted and others not, but
    /// touches no key retention did not slate.
    fn cleanup_environment_backups(&mut self, environment: &str, keep_count: usize) -> (r: Result<
        (),
        DatabaseError,
    >)
        ensures
            r is Ok ==> final(self).catalog() == spec_cleanup_scoped(
                old(self).catalog(),
                environment@,
                keep_count as int,
            ),
            r is Err ==> forall|env2: Seq<char>, id2: Seq<char>|
                !(spec_victims(spec_list_scoped(old(self).catalog(), environment@), keep_count as int)
                    .contains(id2) && env2 == spec_environment_of(id2)) ==> spec_lookup(
                    final(self).catalog(),
                    env2,
                    id2,
                ) == spec_lookup(old(self).catalog(), env2, id2),
    ;
}

// ----------------------------------------------------------------------
// Laws of the catalog model
// ----------------------------------------------------------------------
/// A stored backup round-trips: after `data` is stored under an
/// environment and identifier, looking that key up yields exactly
/// `data`. Retrieval looks under the environment the identifier itself
/// names, so a blob stored there — as the backup workflow does — is the
/// one retrieved, byte for byte.
pub proof fn lemma_store_then_lookup(
    cat: Seq<BackupRecord>,
    env: Seq<char>,
    id: Seq<char>,
    data: Seq<u8>,
)
    ensures
        spec_lookup(spec_store(cat, env, id, data), env, id) == Some(data),
{
    lemma_find_props(cat, env, id);
    let f = spec_find(cat, env, id);
    let rec = BackupRecord { environment: env, id: id, content: data };
    if f >= 0 {
        let stored = cat.update(f, rec);
        assert(spec_matches(stored[f], env, id));
        assert forall|k: int| 0 <= k < f implies !spec_matches(#[trigger] stored[k], env, id) by {
            assert(stored[k] == cat[k]);
        }
        lemma_find_at(stored, env, id, f);
    } else {
        let stored = cat.push(rec);
        assert(spec_matches(stored[cat.len() as int], env, id));
        assert forall|k: int| 0 <= k < cat.len() implies !spec_matches(
            #[trigger] stored[k],
            env,
            id,
        ) by {
            assert(stored[k] == cat[k]);
        }
        lemma_find_at(stored, env, id, cat.len() as int);
    }
}

/// Lookup of an identifier is `None` exactly when no record sits under
/// the environment the identifier names — so retrieval of an identifier
/// nobody stored fails as `BackupNotFound` and as nothing else.
pub proof fn lemma_lookup_absent(cat: Seq<BackupRecord>, id: Seq<char>)
    ensures
        (spec_lookup(cat, spec_environment_of(id), id) is None) <==> (forall|k: int|
            0 <= k < cat.len() ==> !spec_matches(#[trigger] cat[k], spec_environment_of(id), id)),
{
    lemma_find_props(cat, spec_environment_of(id), id);
    if forall|k: int|
        0 <= k < cat.len() ==> !spec_matches(#[trigger] cat[k], spec_environment_of(id), id) {
        lemma_find_absent(cat, spec_environment_of(id), id);
    }
}

/// A filter keeps a sequence whole when every element passes.
proof fn lemma_filter_keeps_all<A>(s: Seq<A>, pred: spec_fn(A) -> bool)
    requires
        forall|i: int| 0 <= i < s.len() ==> pred(#[trigger] s[i]),
    ensures
        s.filter(pred) == s,
    decreases s.len(),
{
    reveal(Seq::filter);
    if s.len() > 0 {
        assert forall|i: int| 0 <= i < s.drop_last().len() implies pred(
            #[trigger] s.drop_last()[i],
        ) by {
            assert(s.drop_last()[i] == s[i]);
        }
        lemma_filter_keeps_all(s.drop_last(), pred);
        assert(pred(s.last()));
        assert(s.drop_last().push(s.last()) =~= s);
    }
}

/// Retention within the bound is a no-op: with no more records than
/// `keep`, cleanup deletes nothing.
pub proof fn lemma_cleanup_within_bound(cat: Seq<BackupRecord>, keep: int)
    requires
        cat.len() <= keep,
    ensures
        spec_cleanup(cat, keep) == cat,
{
    broadcast use group_to_multiset_ensures;

    lemma_desc_order_total();
    spec_ids(cat).lemma_sort_by_ensures(desc_order());
    let listing = spec_list(cat);
    assert(listing.to_multiset().len() == spec_ids(cat).to_multiset().len());
    assert(listing.len() == cat.len());
    let victims = spec_victims(listing, keep);
    if keep <= listing.len() {
        assert(victims =~= listing.skip(keep));
        assert(victims.len() == 0);
    }
    assert(victims =~= Seq::<Seq<char>>::empty());
    assert forall|i: int| 0 <= i < cat.len() implies !spec_pruned(#[trigger] cat[i], victims) by {
        if victims.contains(cat[i].id) {
            let j = choose|j: int| 0 <= j < victims.len() && victims[j] == cat[i].id;
        }
    }
    lemma_filter_keeps_all(cat, |r: BackupRecord| !spec_pruned(r, victims));
}

/// Pruning keeps a subsequence: its records, and so its identifiers,
/// all come from the catalog, each passing the filter, and distinct
/// identifiers stay distinct.
proof fn lemma_prune_members(cat: Seq<BackupRecord>, victims: Seq<Seq<char>>)
    requires
        spec_ids(cat).no_duplicates(),
    ensures
        spec_ids(spec_prune(cat, victims)).no_duplicates(),
        forall|i: int|
            0 <= i < spec_prune(cat, victims).len() ==> cat.contains(
                #[trigger] spec_prune(cat, victims)[i],
            ),
        forall|i: int|
            0 <= i < spec_prune(cat, victims).len() ==> !spec_pruned(
                #[trigger] spec_prune(cat, victims)[i],
                victims,
            ),
    decreases cat.len(),
{
    reveal(Seq::filter);
    if cat.len() > 0 {
        let butlast = cat.drop_last();
        assert forall|i: int, j: int|
            0 <= i < j < spec_ids(butlast).len() implies spec_ids(butlast)[i] != spec_ids(
            butlast,
        )[j] by {
            assert(spec_ids(cat)[i] == spec_ids(butlast)[i]);
            assert(spec_ids(cat)[j] == spec_ids(butlast)[j]);
        }
        lemma_prune_members(butlast, victims);
        let sub = spec_prune(butlast, victims);
        let whole = spec_prune(cat, victims);
        assert forall|i: int| 0 <= i < sub.len() implies cat.contains(#[trigger] sub[i]) by {
            assert(butlast.contains(sub[i]));
            let j = choose|j: int| 0 <= j < butlast.len() && butlast[j] == sub[i];
            assert(cat[j] == sub[i]);
        }
        if !spec_pruned(cat.last(), victims) {
            assert(whole == sub.push(cat.last()));
            assert(cat.contains(cat.last()));
            // the appended identifier is new: it does not occur among
            // the prefix identifiers, which the pruned ids come from
            assert forall|i: int, j: int|
                0 <= i < j < spec_ids(whole).len() implies spec_ids(whole)[i] != spec_ids(
                whole,
            )[j] by {
                if j < spec_ids(whole).len() - 1 {
                    assert(spec_ids(whole)[i] == spec_ids(sub)[i]);
                    assert(spec_ids(whole)[j] == spec_ids(sub)[j]);
                } else {
                    assert(spec_ids(whole)[i] == spec_ids(sub)[i]);
                    assert(spec_ids(whole)[j] == cat.last().id);
                    assert(butlast.contains(sub[i]));
                    let k = choose|k: int| 0 <= k < butlast.len() && butlast[k] == sub[i];
                    assert(spec_ids(cat)[k] == sub[i].id);
                    assert(spec_ids(cat)[cat.len() - 1] == cat.last().id);
                }
            }
        } else {
            assert(whole == sub);
        }
    }
}

/// A sequence's multiset and a sorted rearrangement hold the same
/// elements; membership carries over both ways.
proof fn lemma_same_multiset_same_members<A>(a: Seq<A>, b: Seq<A>)
    requires
        a.to_multiset() == b.to_multiset(),
    ensures
        forall|x: A| a.contains(x) <==> b.contains(x),
{
    broadcast use group_to_multiset_ensures;

    assert forall|x: A| a.contains(x) <==> b.contains(x) by {
        assert(a.contains(x) <==> a.to_multiset().count(x) > 0);
        assert(b.contains(x) <==> b.to_multiset().count(x) > 0);
    }
}

/// Retention keeps the newest and nothing else: after cleanup exactly
/// the records whose identifiers lie among the `keep` newest of the
/// listing survive — the count is `keep`, or the whole catalog when it
/// was smaller. The premises are the store's steady state: each record
/// sits under the environment its identifier names, and no identifier
/// occurs twice.
pub proof fn lemma_cleanup_keeps_newest(cat: Seq<BackupRecord>, keep: int)
    requires
        0 <= keep,
        forall|i: int|
            0 <= i < cat.len() ==> #[trigger] cat[i].environment == spec_environment_of(
                cat[i].id,
            ),
        spec_ids(cat).no_duplicates(),
    ensures
        spec_cleanup(cat, keep).len() == if keep <= cat.len() {
            keep
        } else {
            cat.len() as int
        },
        forall|i: int|
            0 <= i < cat.len() && !spec_victims(spec_list(cat), keep).contains(cat[i].id)
                ==> spec_cleanup(cat, keep).contains(#[trigger] cat[i]),
        forall|i: int|
            0 <= i < spec_cleanup(cat, keep).len() ==> !spec_victims(
                spec_list(cat),
                keep,
            ).contains(#[trigger] spec_cleanup(cat, keep)[i].id),
{
    broadcast use group_to_multiset_ensures;
    broadcast use vstd::seq_lib::seq_to_set_is_finite;
    broadcast use vstd::set::group_set_axioms;

    lemma_desc_order_total();
    spec_ids(cat).lemma_sort_by_ensures(desc_order());
    let ids = spec_ids(cat);
    let listing = spec_list(cat);
    let victims = spec_victims(listing, keep);
    let kept = spec_cleanup(cat, keep);
    let pred = |r: BackupRecord| !spec_pruned(r, victims);
    assert(listing.to_multiset().len() == ids.to_multiset().len());
    assert(listing.len() == cat.len());
    lemma_same_multiset_same_members(ids, listing);
    // the listing holds each identifier once
    ids.lemma_multiset_has_no_duplicates();
    listing.lemma_multiset_has_no_duplicates_conv();
    lemma_prune_members(cat, victims);
    // survivors: in the catalog, not slated
    assert forall|i: int| 0 <= i < kept.len() implies !victims.contains(
        #[trigger] kept[i].id,
    ) by {
        assert(cat.contains(kept[i]));
        let j = choose|j: int| 0 <= j < cat.len() && cat[j] == kept[i];
        assert(cat[j].environment == spec_environment_of(cat[j].id));
        assert(!spec_pruned(kept[i], victims));
    }
    // anything not slated survives
    assert forall|i: int|
        0 <= i < cat.len() && !victims.contains(cat[i].id) implies kept.contains(
        #[trigger] cat[i],
    ) by {
        assert(pred(cat[i]));
        cat.lemma_filter_contains(pred, i);
    }
    // at most `keep` survivors: their identifiers are distinct and all
    // lie among the first `keep` entries of the listing
    if keep < listing.len() {
        let newest = listing.take(keep);
        assert(listing =~= newest + listing.skip(keep));
        assert(victims =~= listing.skip(keep));
        assert forall|i: int| 0 <= i < spec_ids(kept).len() implies newest.to_set().contains(
            #[trigger] spec_ids(kept)[i],
        ) by {
            assert(cat.contains(kept[i]));
            let j = choose|j: int| 0 <= j < cat.len() && cat[j] == kept[i];
            assert(ids[j] == kept[i].id);
            assert(ids.contains(kept[i].id));
            assert(listing.contains(kept[i].id));
            let p = choose|p: int| 0 <= p < listing.len() && listing[p] == kept[i].id;
            if p >= keep {
                assert(victims[p - keep] == kept[i].id);
                assert(victims.contains(kept[i].id));
            } else {
                assert(newest[p] == kept[i].id);
                assert(newest.contains(kept[i].id));
            }
            assert(spec_ids(kept)[i] == kept[i].id);
        }
        assert(spec_ids(kept).to_set().subset_of(newest.to_set()));
        spec_ids(kept).unique_seq_to_set();
        newest.lemma_cardinality_of_set();
        vstd::set_lib::lemma_len_subset(spec_ids(kept).to_set(), newest.to_set());
        assert(spec_ids(kept).len() <= newest.to_set().len());
        assert(kept.len() == spec_ids(kept).len());
        assert(kept.len() <= keep);
        // ... and at least `keep` survive: each of the newest
        // identifiers keeps its record
        assert forall|p: int| 0 <= p < keep implies spec_ids(kept).to_set().contains(
            #[trigger] newest[p],
        ) by {
            assert(listing[p] == newest[p]);
            assert(listing.contains(newest[p]));
            assert(ids.contains(newest[p]));
            let j = choose|j: int| 0 <= j < ids.len() && ids[j] == newest[p];
            assert(cat[j].id == newest[p]);
            if victims.contains(newest[p]) {
                let q = choose|q: int| 0 <= q < victims.len() && victims[q] == newest[p];
                assert(listing[keep + q] == newest[p]);
            }
            assert(kept.contains(cat[j]));
            let k = choose|k: int| 0 <= k < kept.len() && kept[k] == cat[j];
            assert(spec_ids(kept)[k] == newest[p]);
            assert(spec_ids(kept).contains(newest[p]));
        }
        assert forall|p: int, q: int| 0 <= p < q < newest.len() implies newest[p]
            != newest[q] by {
            assert(listing[p] == newest[p]);
            assert(listing[q] == newest[q]);
        }
        assert(newest.no_duplicates());
        assert(newest.to_set().subset_of(spec_ids(kept).to_set()));
        newest.unique_seq_to_set();
        vstd::set_lib::lemma_len_subset(newest.to_set(), spec_ids(kept).to_set());
        assert(kept.len() >= keep);
    } else {
        lemma_cleanup_within_bound(cat, keep);
        assert(kept == cat);
    }
}

/// Retention is idempotent: cleaning up a catalog that retention has
/// already pruned changes nothing. Premises as in
/// [`lemma_cleanup_keeps_newest`].
pub proof fn lemma_cleanup_idempotent(cat: Seq<BackupRecord>, keep: int)
    requires
        0 <= keep,
        forall|i: int|
            0 <= i < cat.len() ==> #[trigger] cat[i].environment == spec_environment_of(
                cat[i].id,
            ),
        spec_ids(cat).no_duplicates(),
    ensures
        spec_cleanup(spec_cleanup(cat, keep), keep) == spec_cleanup(cat, keep),
{
    lemma_cleanup_keeps_newest(cat, keep);
    lemma_cleanup_within_bound(spec_cleanup(cat, keep), keep);
}

} // verus!
