//! The backup store: snapshots of chosen files, each under an identifier of
//! its own, to which a caller can go back.

use crate::assoc::{
    as_map, has_key, keys_distinct, lemma_as_map, lemma_push, lemma_remove, lemma_set,
};
use crate::parser::{same_string, string_views};
use crate::review_service::{bytes_view, file_views, find_file, read_file};
use crate::text::text_of_bytes;
use vstd::prelude::*;
use vstd::utf8::{decode_utf8, valid_utf8};

verus! {

/// Why a file could not be had from a backup.
#[derive(Clone, Copy, Debug, PartialEq, Eq)]
pub enum BackupError {
    /// The store holds no backup with the identifier, or the backup never
    /// held the path.
    NotFound,
    /// The bytes that the backup holds for the path are no valid text.
    NotText,
}

/// The snapshots of a store: for each identifier the files of its backup,
/// each with its path relative to the project and its bytes.
pub struct BackupStore {
    sets: Vec<(String, Vec<(String, Vec<u8>)>)>,
}

/// The views of the backups of a store.
pub open spec fn set_views(sets: Seq<(String, Vec<(String, Vec<u8>)>)>) -> Seq<
    (Seq<char>, Map<Seq<char>, Seq<u8>>),
> {
    Seq::new(sets.len(), |i: int| (sets[i].0@, as_map(file_views(sets[i].1@))))
}

/// The files of a backup after the files behind `paths` were copied into it:
/// each path that the project has a file for gets the bytes of that file, a
/// path without a file is passed over.
pub open spec fn snapshot(
    base: Map<Seq<char>, Seq<u8>>,
    files: Seq<(Seq<char>, Seq<u8>)>,
    paths: Seq<Seq<char>>,
) -> Map<Seq<char>, Seq<u8>>
    decreases paths.len(),
{
    if paths.len() == 0 {
        base
    } else {
        let earlier = snapshot(base, files, paths.drop_last());
        match read_file(files, paths.last()) {
            Some(bytes) => earlier.insert(paths.last(), bytes),
            None => earlier,
        }
    }
}

/// The files that a store holds under an identifier; none where it holds no
/// backup with that identifier.
pub open spec fn files_of(
    store: Map<Seq<char>, Map<Seq<char>, Seq<u8>>>,
    id: Seq<char>,
) -> Map<Seq<char>, Seq<u8>> {
    if store.contains_key(id) {
        store[id]
    } else {
        Map::empty()
    }
}

/// The bytes that a store holds for a path of a backup.
pub open spec fn stored(
    store: Map<Seq<char>, Map<Seq<char>, Seq<u8>>>,
    id: Seq<char>,
    path: Seq<char>,
) -> Option<Seq<u8>> {
    if store.contains_key(id) && store[id].contains_key(path) {
        Some(store[id][path])
    } else {
        None
    }
}

/// A copy of some bytes.
pub fn copy_bytes(bytes: &Vec<u8>) -> (r: Vec<u8>)
    ensures
        r@ == bytes@,
{
    let mut out: Vec<u8> = Vec::new();
    let mut i: usize = 0;
    while i < bytes.len()
        invariant
            i <= bytes.len(),
            out@ =~= bytes@.take(i as int),
        decreases bytes.len() - i,
    {
        out.push(bytes[i]);
        i += 1;
    }
    assert(bytes@.take(bytes.len() as int) =~= bytes@);
    out
}

/// The index of the entry with the given key.
pub fn position_of<V>(entries: &Vec<(String, V)>, key: &String) -> (r: Option<usize>)
    ensures
        match r {
            Some(i) => i < entries.len() && entries@[i as int].0@ == key@,
            None => forall|j: int| 0 <= j < entries.len() ==> entries@[j].0@ != key@,
        },
{
    let mut i: usize = 0;
    while i < entries.len()
        invariant
            i <= entries.len(),
            forall|j: int| 0 <= j < i ==> entries@[j].0@ != key@,
        decreases entries.len() - i,
    {
        if same_string(&entries[i].0, key) {
            return Some(i);
        }
        i += 1;
    }
    None
}

/// Puts the bytes of one file into the files of a backup.
pub fn put_file(list: &mut Vec<(String, Vec<u8>)>, path: &String, bytes: &Vec<u8>)
    requires
        keys_distinct(file_views(old(list)@)),
    ensures
        keys_distinct(file_views(final(list)@)),
        as_map(file_views(final(list)@)) == as_map(file_views(old(list)@)).insert(path@, bytes@),
{
    let ghost before = file_views(list@);
    match position_of(list, path) {
        Some(i) => {
            list.set(i, (path.clone(), copy_bytes(bytes)));
            proof {
                assert(file_views(list@) =~= before.update(i as int, (before[i as int].0, bytes@)));
                lemma_set(before, i as int, bytes@);
            }
        },
        None => {
            list.push((path.clone(), copy_bytes(bytes)));
            proof {
                assert(file_views(list@) =~= before.push((path@, bytes@)));
                assert(!has_key(before, path@)) by {
                    if has_key(before, path@) {
                        let j = choose|j: int|
                            0 <= j < before.len() && #[trigger] before[j].0 == path@;
                        assert(old(list)@[j].0@ == path@);
                    }
                }
                lemma_push(before, path@, bytes@);
            }
        },
    }
}

impl BackupStore {
    #[verifier::type_invariant]
    spec fn well_formed(self) -> bool {
        &&& keys_distinct(set_views(self.sets@))
        &&& forall|i: int|
            0 <= i < self.sets@.len() ==> keys_distinct(file_views(#[trigger] self.sets@[i].1@))
    }

    /// The store as a map from each identifier to the files of its backup.
    pub closed spec fn view(&self) -> Map<Seq<char>, Map<Seq<char>, Seq<u8>>> {
        as_map(set_views(self.sets@))
    }

    /// A store without backups.
    pub fn new() -> (r: Self)
        ensures
            r@ == Map::<Seq<char>, Map<Seq<char>, Seq<u8>>>::empty(),
    {
        let sets: Vec<(String, Vec<(String, Vec<u8>)>)> = Vec::new();
        assert(set_views(sets@) =~= Seq::empty());
        BackupStore { sets }
    }

    /// Copies the files behind `paths` into the backup with the given
    /// identifier, which the caller has made fresh. `files` is the project:
    /// path and bytes of each file that exists. A path without a file is
    /// passed over. The backup exists afterwards even where nothing was
    /// copied.
    pub fn backup_files(
        &mut self,
        backup_id: &str,
        files: &Vec<(String, Vec<u8>)>,
        paths: &Vec<String>,
    )
        ensures
            final(self)@ == old(self)@.insert(
                backup_id@,
                snapshot(
                    files_of(old(self)@, backup_id@),
                    file_views(files@),
                    string_views(paths@),
                ),
            ),
    {
        proof {
            use_type_invariant(&*self);
        }
        let id: String = backup_id.to_owned();
        let ghost before = set_views(self.sets@);
        let mut sets: Vec<(String, Vec<(String, Vec<u8>)>)> = Vec::new();
        assert(set_views(sets@) =~= Seq::empty());
        core::mem::swap(&mut self.sets, &mut sets);
        let ghost taken = sets@;
        proof {
            lemma_as_map(before);
        }
        let mut list: Vec<(String, Vec<u8>)> = match position_of(&sets, &id) {
            Some(i) => {
                proof {
                    assert(before[i as int].0 == backup_id@);
                    assert(has_key(before, backup_id@));
                    lemma_remove(before, i as int);
                    before.remove_ensures(i as int);
                    taken.remove_ensures(i as int);
                }
                let entry = sets.remove(i);
                assert(set_views(sets@) =~= before.remove(i as int));
                assert forall|j: int| 0 <= j < sets@.len() implies keys_distinct(
                    file_views(#[trigger] sets@[j].1@),
                ) by {
                    if j < i {
                        assert(sets@[j] == taken[j]);
                    } else {
                        assert(sets@[j] == taken[j + 1]);
                    }
                }
                assert(entry == taken[i as int]);
                entry.1
            },
            None => {
                proof {
                    assert(!has_key(before, backup_id@)) by {
                        if has_key(before, backup_id@) {
                            let j = choose|j: int|
                                0 <= j < before.len() && #[trigger] before[j].0 == backup_id@;
                            assert(taken[j].0@ == backup_id@);
                        }
                    }
                    assert(as_map(before).remove(backup_id@) =~= as_map(before));
                }
                let fresh: Vec<(String, Vec<u8>)> = Vec::new();
                assert(file_views(fresh@) =~= Seq::empty());
                fresh
            },
        };
        let ghost rest = set_views(sets@);
        let ghost others = sets@;
        let ghost base = as_map(file_views(list@));
        let ghost fs = file_views(files@);
        let ghost ps = string_views(paths@);
        assert(base == files_of(as_map(before), backup_id@));
        assert(as_map(rest) == as_map(before).remove(backup_id@));
        assert(keys_distinct(rest));
        assert(!has_key(rest, backup_id@)) by {
            lemma_as_map(rest);
        }
        let mut k: usize = 0;
        while k < paths.len()
            invariant
                k <= paths.len(),
                others == sets@,
                fs == file_views(files@),
                ps == string_views(paths@),
                keys_distinct(file_views(list@)),
                as_map(file_views(list@)) == snapshot(base, fs, ps.take(k as int)),
            decreases paths.len() - k,
        {
            proof {
                assert(ps.take(k + 1).drop_last() =~= ps.take(k as int));
                assert(ps.take(k + 1).last() == paths@[k as int]@);
            }
            if let Some(bytes) = find_file(files, &paths[k]) {
                put_file(&mut list, &paths[k], bytes);
            }
            k += 1;
        }
        assert(ps.take(paths.len() as int) =~= ps);
        let ghost kept = as_map(file_views(list@));
        sets.push((id, list));
        proof {
            assert(set_views(sets@) =~= rest.push((backup_id@, kept)));
            lemma_push(rest, backup_id@, kept);
            assert(as_map(before).remove(backup_id@).insert(backup_id@, kept) =~= as_map(
                before,
            ).insert(backup_id@, kept));
            assert forall|i: int| 0 <= i < sets@.len() implies keys_distinct(
                file_views(#[trigger] sets@[i].1@),
            ) by {
                if i < others.len() {
                    assert(sets@[i] == others[i]);
                }
            }
        }
        self.sets = sets;
    }

    /// The files of a backup, where the store holds it.
    fn files_in(&self, backup_id: &str) -> (r: Option<&Vec<(String, Vec<u8>)>>)
        ensures
            match r {
                Some(list) => self@.contains_key(backup_id@) && self@[backup_id@] == as_map(
                    file_views(list@),
                ) && keys_distinct(file_views(list@)),
                None => !self@.contains_key(backup_id@),
            },
    {
        proof {
            use_type_invariant(self);
            lemma_as_map(set_views(self.sets@));
        }
        let id: String = backup_id.to_owned();
        let ghost es = set_views(self.sets@);
        match position_of(&self.sets, &id) {
            Some(i) => {
                proof {
                    assert(es[i as int].0 == backup_id@);
                    assert(has_key(es, backup_id@));
                    assert(as_map(es)[es[i as int].0] == es[i as int].1);
                }
                Some(&self.sets[i].1)
            },
            None => {
                proof {
                    if has_key(es, backup_id@) {
                        let j = choose|j: int|
                            0 <= j < es.len() && #[trigger] es[j].0 == backup_id@;
                        assert(self.sets@[j].0@ == backup_id@);
                    }
                }
                None
            },
        }
    }

    /// The bytes that a backup holds for a path.
    fn bytes_in(&self, backup_id: &str, relative_path: &str) -> (r: Option<&Vec<u8>>)
        ensures
            bytes_view(r) == stored(self@, backup_id@, relative_path@),
    {
        let path: String = relative_path.to_owned();
        match self.files_in(backup_id) {
            Some(list) => {
                let ghost es = file_views(list@);
                proof {
                    lemma_as_map(es);
                }
                match position_of(list, &path) {
                    Some(i) => {
                        proof {
                            assert(es[i as int] == (list@[i as int].0@, list@[i as int].1@));
                            assert(has_key(es, relative_path@));
                            assert(as_map(es)[es[i as int].0] == es[i as int].1);
                        }
                        Some(&list[i].1)
                    },
                    None => {
                        proof {
                            if has_key(es, relative_path@) {
                                let j = choose|j: int|
                                    0 <= j < es.len() && #[trigger] es[j].0 == relative_path@;
                                assert(list@[j].0@ == relative_path@);
                            }
                        }
                        None
                    },
                }
            },
            None => None,
        }
    }

    /// The bytes to put back in place of a file: those that the backup holds
    /// for the path. A backup that never held the path is an error.
    pub fn revert_file_from_backup(&self, backup_id: &str, relative_path: &str) -> (r: Result<
        Vec<u8>,
        BackupError,
    >)
        ensures
            match stored(self@, backup_id@, relative_path@) {
                Some(bytes) => r matches Ok(copy) && copy@ == bytes,
                None => r == Err::<Vec<u8>, BackupError>(BackupError::NotFound),
            },
    {
        match self.bytes_in(backup_id, relative_path) {
            Some(bytes) => Ok(copy_bytes(bytes)),
            None => Err(BackupError::NotFound),
        }
    }

    /// The text that a backup holds for a path. It is an error where the
    /// backup never held the path, and where what it holds is no valid text.
    pub fn read_file_from_backup(&self, backup_id: &str, relative_path: &str) -> (r: Result<
        String,
        BackupError,
    >)
        ensures
            match stored(self@, backup_id@, relative_path@) {
                Some(bytes) => if valid_utf8(bytes) {
                    r matches Ok(text) && text@ == decode_utf8(bytes)
                } else {
                    r == Err::<String, BackupError>(BackupError::NotText)
                },
                None => r == Err::<String, BackupError>(BackupError::NotFound),
            },
    {
        match self.bytes_in(backup_id, relative_path) {
            Some(bytes) => match text_of_bytes(bytes.as_slice()) {
                Some(text) => Ok(text.to_owned()),
                None => Err(BackupError::NotText),
            },
            None => Err(BackupError::NotFound),
        }
    }

    /// Takes a backup out of the store. Where the store holds no backup with
    /// the identifier, nothing changes.
    pub fn delete_backup(&mut self, backup_id: &str)
        ensures
            final(self)@ == old(self)@.remove(backup_id@),
    {
        proof {
            use_type_invariant(&*self);
        }
        let id: String = backup_id.to_owned();
        let ghost before = set_views(self.sets@);
        let mut sets: Vec<(String, Vec<(String, Vec<u8>)>)> = Vec::new();
        assert(set_views(sets@) =~= Seq::empty());
        core::mem::swap(&mut self.sets, &mut sets);
        let ghost taken = sets@;
        proof {
            lemma_as_map(before);
        }
        match position_of(&sets, &id) {
            Some(i) => {
                proof {
                    assert(before[i as int].0 == backup_id@);
                    lemma_remove(before, i as int);
                    taken.remove_ensures(i as int);
                }
                let _ = sets.remove(i);
                assert(set_views(sets@) =~= before.remove(i as int));
                assert forall|j: int| 0 <= j < sets@.len() implies keys_distinct(
                    file_views(#[trigger] sets@[j].1@),
                ) by {
                    if j < i {
                        assert(sets@[j] == taken[j]);
                    } else {
                        assert(sets@[j] == taken[j + 1]);
                    }
                }
            },
            None => {
                proof {
                    if has_key(before, backup_id@) {
                        let j = choose|j: int|
                            0 <= j < before.len() && #[trigger] before[j].0 == backup_id@;
                        assert(taken[j].0@ == backup_id@);
                    }
                    assert(as_map(before).remove(backup_id@) =~= as_map(before));
                }
            },
        }
        self.sets = sets;
    }
}

impl Default for BackupStore {
    fn default() -> (r: Self)
        ensures
            r@ == Map::<Seq<char>, Map<Seq<char>, Seq<u8>>>::empty(),
    {
        BackupStore::new()
    }
}

} // verus!
