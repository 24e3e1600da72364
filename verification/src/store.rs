//! An in-memory storage backend: the reference realization of the
//! [`StorageProvider`](crate::storage::StorageProvider) capability, with
//! every operation verified against the catalog model. Useful on its own
//! for tests and dry runs, and the ground on which the capability's laws
//! are proved.

use vstd::prelude::*;
use vstd::pervasive::VecAdditionalExecFns;
use vstd::seq_lib::lemma_sorted_unique;
use vstd::string::*;

use crate::error::DatabaseError;
use crate::naming::spec_environment_of;
use crate::storage::{
    derived_environment, desc_order, lemma_desc_order_total, lemma_find_absent, lemma_find_at,
    sort_ids_descending, spec_delete, spec_find, spec_ids, spec_list, spec_list_scoped,
    spec_lookup, spec_matches, spec_prune, spec_pruned, spec_scoped, spec_store, spec_victims,
    spec_views, victims_beyond, BackupRecord, StorageProvider,
};
use crate::text::str_eq;

verus! {

/// One blob held in memory.
pub struct StoredBackup {
    pub environment: String,
    pub id: String,
    pub content: Vec<u8>,
}

impl View for StoredBackup {
    type V = BackupRecord;

    open spec fn view(&self) -> BackupRecord {
        BackupRecord { environment: self.environment@, id: self.id@, content: self.content@ }
    }
}

/// The catalog a sequence of stored blobs represents.
pub open spec fn entries_view(es: Seq<StoredBackup>) -> Seq<BackupRecord> {
    es.map_values(|e: StoredBackup| e@)
}

/// A byte-for-byte copy of `src`.
fn copy_bytes(src: &Vec<u8>) -> (r: Vec<u8>)
    ensures
        r@ == src@,
{
    let mut out: Vec<u8> = Vec::new();
    let mut i: usize = 0;
    while i < src.len()
        invariant
            i <= src@.len(),
            out@ == src@.take(i as int),
        decreases src@.len() - i,
    {
        out.push(src[i]);
        proof {
            assert(out@ =~= src@.take(i + 1));
        }
        i = i + 1;
    }
    proof {
        assert(src@.take(src@.len() as int) =~= src@);
    }
    out
}

/// Whether the listing holds this identifier.
fn contains_id(ids: &Vec<String>, id: &str) -> (r: bool)
    ensures
        r == spec_views(ids@).contains(id@),
{
    let mut i: usize = 0;
    while i < ids.len()
        invariant
            i <= ids@.len(),
            forall|j: int| 0 <= j < i ==> spec_views(ids@)[j] != id@,
        decreases ids@.len() - i,
    {
        if str_eq(ids[i].as_str(), id) {
            proof {
                assert(spec_views(ids@)[i as int] == id@);
            }
            return true;
        }
        i = i + 1;
    }
    proof {
        if spec_views(ids@).contains(id@) {
            let j = choose|j: int| 0 <= j < spec_views(ids@).len() && spec_views(ids@)[j] == id@;
            assert(spec_views(ids@)[j] != id@);
        }
    }
    false
}

/// Storage backend that keeps every blob in memory.
pub struct MemoryStorageProvider {
    entries: Vec<StoredBackup>,
}

impl MemoryStorageProvider {
    /// An empty store.
    pub fn new() -> (r: Self)
        ensures
            r.catalog() == Seq::<BackupRecord>::empty(),
    {
        let r = MemoryStorageProvider { entries: Vec::new() };
        proof {
            assert(r.catalog() =~= Seq::<BackupRecord>::empty());
        }
        r
    }

    /// Index of the record stored under `(env, id)`, if any.
    fn find_entry(&self, env: &str, id: &str) -> (r: Option<usize>)
        ensures
            match r {
                Some(i) => i < self.entries@.len() && spec_find(self.catalog(), env@, id@)
                    == i as int,
                None => spec_find(self.catalog(), env@, id@) == -1,
            },
    {
        let ghost cat = self.catalog();
        let mut i: usize = 0;
        while i < self.entries.len()
            invariant
                i <= self.entries@.len(),
                cat == entries_view(self.entries@),
                cat.len() == self.entries@.len(),
                forall|k: int| 0 <= k < i ==> !spec_matches(#[trigger] cat[k], env@, id@),
            decreases self.entries@.len() - i,
        {
            let same_env = str_eq(self.entries[i].environment.as_str(), env);
            let same_id = str_eq(self.entries[i].id.as_str(), id);
            if same_env && same_id {
                proof {
                    assert(spec_matches(cat[i as int], env@, id@));
                    lemma_find_at(cat, env@, id@, i as int);
                }
                return Some(i);
            }
            proof {
                assert(!spec_matches(cat[i as int], env@, id@));
            }
            i = i + 1;
        }
        proof {
            lemma_find_absent(cat, env@, id@);
        }
        None
    }

    /// The stored identifiers, in storage order.
    fn collect_ids(&self) -> (r: Vec<String>)
        ensures
            spec_views(r@) == spec_ids(self.catalog()),
    {
        let ghost cat = self.catalog();
        let mut out: Vec<String> = Vec::new();
        let mut i: usize = 0;
        proof {
            assert(spec_views(out@) =~= spec_ids(cat).take(0));
        }
        while i < self.entries.len()
            invariant
                i <= self.entries@.len(),
                cat == entries_view(self.entries@),
                cat.len() == self.entries@.len(),
                spec_views(out@) == spec_ids(cat).take(i as int),
            decreases self.entries@.len() - i,
        {
            let ghost prev = out@;
            out.push(self.entries[i].id.clone());
            proof {
                assert(out@ == prev.push(self.entries@[i as int].id));
                assert(prev.len() == spec_views(prev).len());
                assert(spec_ids(cat).len() == cat.len());
                assert forall|j: int| 0 <= j < out@.len() implies spec_views(out@)[j]
                    == spec_ids(cat).take(i + 1)[j] by {
                    assert(spec_views(out@)[j] == out@[j]@);
                    assert(spec_ids(cat).take(i + 1)[j] == cat[j].id);
                    assert(cat[j] == self.entries@[j]@);
                    if j < prev.len() {
                        assert(out@[j] == prev[j]);
                        assert(spec_views(prev)[j] == prev[j]@);
                    } else {
                        assert(out@[j] == self.entries@[i as int].id);
                    }
                }
                assert(spec_views(out@).len() == spec_ids(cat).take(i + 1).len());
                assert(spec_views(out@) =~= spec_ids(cat).take(i + 1));
            }
            i = i + 1;
        }
        proof {
            assert(spec_ids(cat).take(cat.len() as int) =~= spec_ids(cat));
        }
        out
    }

    /// The identifiers of one environment, in storage order.
    fn collect_scoped_ids(&self, environment: &str) -> (r: Vec<String>)
        ensures
            spec_views(r@) == spec_ids(spec_scoped(self.catalog(), environment@)),
    {
        let ghost cat = self.catalog();
        let mut out: Vec<String> = Vec::new();
        let mut i: usize = 0;
        proof {
            reveal(Seq::filter);
            assert(cat.take(0) =~= Seq::<BackupRecord>::empty());
            assert(spec_views(out@) =~= spec_ids(spec_scoped(cat.take(0), environment@)));
        }
        while i < self.entries.len()
            invariant
                i <= self.entries@.len(),
                cat == entries_view(self.entries@),
                cat.len() == self.entries@.len(),
                spec_views(out@) == spec_ids(spec_scoped(cat.take(i as int), environment@)),
            decreases self.entries@.len() - i,
        {
            let ghost prefix = cat.take(i as int);
            let ghost next = cat.take(i + 1);
            proof {
                reveal(Seq::filter);
                assert(next.drop_last() =~= prefix);
                assert(next.last() == cat[i as int]);
            }
            if str_eq(self.entries[i].environment.as_str(), environment) {
                let ghost prev = out@;
                out.push(self.entries[i].id.clone());
                proof {
                    reveal(Seq::filter);
                    assert(cat[i as int].environment == environment@);
                    assert(spec_scoped(next, environment@) == spec_scoped(prefix, environment@)
                        .push(cat[i as int]));
                    assert(out@ == prev.push(self.entries@[i as int].id));
                    assert(prev.len() == spec_views(prev).len());
                    assert(spec_ids(spec_scoped(next, environment@)).len() == spec_scoped(
                        next,
                        environment@,
                    ).len());
                    assert forall|j: int| 0 <= j < out@.len() implies spec_views(out@)[j]
                        == spec_ids(spec_scoped(next, environment@))[j] by {
                        if j < prev.len() {
                            assert(spec_views(out@)[j] == spec_views(prev)[j]);
                        }
                    }
                    assert(spec_views(out@) =~= spec_ids(spec_scoped(next, environment@)));
                }
            } else {
                proof {
                    reveal(Seq::filter);
                    assert(!(cat[i as int].environment == environment@));
                    assert(spec_scoped(next, environment@) == spec_scoped(prefix, environment@));
                }
            }
            i = i + 1;
        }
        proof {
            assert(cat.take(cat.len() as int) =~= cat);
        }
        out
    }

    /// Removes from the store every record the victims list prunes.
    fn prune_entries(&mut self, victims: &Vec<String>)
        ensures
            final(self).catalog() == spec_prune(old(self).catalog(), spec_views(victims@)),
    {
        let ghost cat0 = old(self).catalog();
        let ghost vs = spec_views(victims@);
        let mut pending: Vec<StoredBackup> = Vec::new();
        core::mem::swap(&mut self.entries, &mut pending);
        let ghost all = pending@;
        let mut i: usize = 0;
        proof {
            reveal(Seq::filter);
            assert(entries_view(all).take(0) =~= Seq::<BackupRecord>::empty());
            assert(entries_view(self.entries@) =~= spec_prune(entries_view(all).take(0), vs));
        }
        while i < pending.len()
            invariant
                i <= pending@.len(),
                pending@ == all,
                cat0 == entries_view(all),
                cat0.len() == all.len(),
                vs == spec_views(victims@),
                entries_view(self.entries@) == spec_prune(entries_view(all).take(i as int), vs),
            decreases pending@.len() - i,
        {
            let ghost prefix = entries_view(all).take(i as int);
            let ghost next = entries_view(all).take(i + 1);
            proof {
                reveal(Seq::filter);
                assert(next.drop_last() =~= prefix);
                assert(next.last() == entries_view(all)[i as int]);
            }
            let slated = contains_id(victims, pending[i].id.as_str());
            let placed = derived_environment(pending[i].id.as_str());
            let here = str_eq(pending[i].environment.as_str(), placed.as_str());
            if slated && here {
                proof {
                    reveal(Seq::filter);
                    assert(spec_pruned(entries_view(all)[i as int], vs));
                    assert(spec_prune(next, vs) == spec_prune(prefix, vs));
                }
            } else {
                let kept = StoredBackup {
                    environment: pending[i].environment.clone(),
                    id: pending[i].id.clone(),
                    content: copy_bytes(&pending[i].content),
                };
                proof {
                    assert(kept@ == entries_view(all)[i as int]);
                }
                let ghost prev = self.entries@;
                self.entries.push(kept);
                proof {
                    reveal(Seq::filter);
                    assert(prev.len() == entries_view(prev).len());
                    assert(!spec_pruned(entries_view(all)[i as int], vs));
                    assert(spec_prune(next, vs) == spec_prune(prefix, vs).push(
                        entries_view(all)[i as int],
                    ));
                    assert forall|j: int| 0 <= j < self.entries@.len() implies entries_view(
                        self.entries@,
                    )[j] == spec_prune(next, vs)[j] by {
                        if j < prev.len() {
                            assert(entries_view(self.entries@)[j] == entries_view(prev)[j]);
                        }
                    }
                    assert(entries_view(self.entries@) =~= spec_prune(next, vs));
                }
            }
            i = i + 1;
        }
        proof {
            assert(entries_view(all).take(all.len() as int) =~= entries_view(all));
        }
    }
}

impl StorageProvider for MemoryStorageProvider {
    closed spec fn catalog(&self) -> Seq<BackupRecord> {
        entries_view(self.entries@)
    }

    fn store_backup(&mut self, data: &Vec<u8>, backup_id: &str, environment: &str) -> (r: Result<
        (),
        DatabaseError,
    >)
        ensures
            r is Ok,
    {
        let ghost cat = old(self).catalog();
        let entry = StoredBackup {
            environment: environment.to_owned(),
            id: backup_id.to_owned(),
            content: copy_bytes(data),
        };
        match self.find_entry(environment, backup_id) {
            Some(i) => {
                self.entries.set(i, entry);
                proof {
                    assert(self.catalog() =~= spec_store(cat, environment@, backup_id@, data@));
                }
            },
            None => {
                self.entries.push(entry);
                proof {
                    assert(self.catalog() =~= spec_store(cat, environment@, backup_id@, data@));
                }
            },
        }
        Ok(())
    }

    fn retrieve_backup(&self, backup_id: &str) -> (r: Result<Vec<u8>, DatabaseError>)
        ensures
            (r is Ok) == (spec_lookup(
                self.catalog(),
                spec_environment_of(backup_id@),
                backup_id@,
            ) is Some),
    {
        let environment = derived_environment(backup_id);
        match self.find_entry(environment.as_str(), backup_id) {
            Some(i) => Ok(copy_bytes(&self.entries[i].content)),
            None => Err(DatabaseError::BackupNotFound),
        }
    }

    fn list_backups(&self) -> (r: Result<Vec<String>, DatabaseError>)
        ensures
            r is Ok,
    {
        let ids = self.collect_ids();
        let sorted = sort_ids_descending(ids);
        proof {
            lemma_desc_order_total();
            spec_ids(self.catalog()).lemma_sort_by_ensures(desc_order());
            lemma_sorted_unique(spec_views(sorted@), spec_list(self.catalog()), desc_order());
        }
        Ok(sorted)
    }

    fn list_environment_backups(&self, environment: &str) -> (r: Result<
        Vec<String>,
        DatabaseError,
    >)
        ensures
            r is Ok,
    {
        let ids = self.collect_scoped_ids(environment);
        let sorted = sort_ids_descending(ids);
        proof {
            lemma_desc_order_total();
            spec_ids(spec_scoped(self.catalog(), environment@)).lemma_sort_by_ensures(
                desc_order(),
            );
            lemma_sorted_unique(
                spec_views(sorted@),
                spec_list_scoped(self.catalog(), environment@),
                desc_order(),
            );
        }
        Ok(sorted)
    }

    fn get_latest_backup(&self) -> (r: Result<Option<String>, DatabaseError>)
        ensures
            r is Ok,
    {
        let listing = match self.list_backups() {
            Ok(l) => l,
            Err(e) => {
                return Err(e);
            },
        };
        if listing.len() == 0 {
            Ok(None)
        } else {
            Ok(Some(listing[0].clone()))
        }
    }

    fn get_latest_environment_backup(&self, environment: &str) -> (r: Result<
        Option<String>,
        DatabaseError,
    >)
        ensures
            r is Ok,
    {
        let listing = match self.list_environment_backups(environment) {
            Ok(l) => l,
            Err(e) => {
                return Err(e);
            },
        };
        if listing.len() == 0 {
            Ok(None)
        } else {
            Ok(Some(listing[0].clone()))
        }
    }

    fn delete_backup(&mut self, backup_id: &str) -> (r: Result<(), DatabaseError>)
        ensures
            r is Ok,
    {
        let ghost cat = old(self).catalog();
        let environment = derived_environment(backup_id);
        match self.find_entry(environment.as_str(), backup_id) {
            Some(i) => {
                self.entries.remove(i);
                proof {
                    assert(self.catalog() =~= spec_delete(
                        cat,
                        spec_environment_of(backup_id@),
                        backup_id@,
                    ));
                }
            },
            None => {},
        }
        Ok(())
    }

    fn backup_exists(&self, backup_id: &str) -> (r: Result<bool, DatabaseError>)
        ensures
            r is Ok,
    {
        let environment = derived_environment(backup_id);
        match self.find_entry(environment.as_str(), backup_id) {
            Some(_) => Ok(true),
            None => Ok(false),
        }
    }

    fn cleanup_old_backups(&mut self, keep_count: usize) -> (r: Result<(), DatabaseError>)
        ensures
            r is Ok,
    {
        let listing = match self.list_backups() {
            Ok(l) => l,
            Err(e) => {
                return Err(e);
            },
        };
        let victims = victims_beyond(&listing, keep_count);
        self.prune_entries(&victims);
        Ok(())
    }

    fn cleanup_environment_backups(&mut self, environment: &str, keep_count: usize) -> (r: Result<
        (),
        DatabaseError,
    >)
        ensures
            r is Ok,
    {
        let listing = match self.list_environment_backups(environment) {
            Ok(l) => l,
            Err(e) => {
                return Err(e);
            },
        };
        let victims = victims_beyond(&listing, keep_count);
        self.prune_entries(&victims);
        Ok(())
    }
}

} // verus!
