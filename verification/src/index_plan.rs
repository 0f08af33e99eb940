//! The decisions of an index run: which files to read again, which id a
//! message is stored under, how the notebook changes once the writer has
//! reported, and which stored messages are gone for good.

use vstd::prelude::*;
use crate::index_metadata::{FileMeta, IndexMeta, reindex_needed};
use crate::string_map::{StringMap, pairs_map, unique_keys, string_set, contains_string,
    lemma_pairs_map_dom};
use crate::text::chars_of;

verus! {

/// The positions of the walked files `(path, mtime, flag suffix)` that must
/// be read again, in walk order.
pub open spec fn reindex_positions(states: Map<Seq<char>, FileMeta>, files: Seq<(String, u64, String)>) -> Seq<usize>
    decreases files.len(),
{
    if files.len() == 0 {
        Seq::empty()
    } else {
        let rest = reindex_positions(states, files.drop_last());
        let f = files.last();
        if reindex_needed(states, f.0@, f.1, f.2@) {
            rest.push((files.len() - 1) as usize)
        } else {
            rest
        }
    }
}

/// The walked files that are new, modified or whose flags changed, by
/// position.
pub fn files_to_reindex(meta: &IndexMeta, files: &Vec<(String, u64, String)>) -> (r: Vec<usize>)
    requires
        meta.wf(),
    ensures
        r@ == reindex_positions(meta.file_states@, files@),
{
    let mut r: Vec<usize> = Vec::new();
    let mut i: usize = 0;
    while i < files.len()
        invariant
            meta.wf(),
            i <= files@.len(),
            r@ == reindex_positions(meta.file_states@, files@.take(i as int)),
        decreases files.len() - i,
    {
        proof {
            assert(files@.take(i + 1).drop_last() =~= files@.take(i as int));
            assert(files@.take(i + 1).last() == files@[i as int]);
        }
        if meta.needs_reindex(files[i].0.as_str(), files[i].1, files[i].2.as_str()) {
            r.push(i);
        }
        i += 1;
    }
    assert(files@.take(files@.len() as int) =~= files@);
    r
}

/// The id a message is stored under: its Message-ID, or its path when it
/// has none.
pub open spec fn storage_id(message_id: Seq<char>, path: Seq<char>) -> Seq<char> {
    if message_id.len() == 0 {
        path
    } else {
        message_id
    }
}

pub fn message_id_or_path(message_id: String, path: &str) -> (r: String)
    ensures
        r@ == storage_id(message_id@, path@),
{
    if chars_of(message_id.as_str()).len() == 0 {
        String::from_str(path)
    } else {
        message_id
    }
}

/// Nothing to read and nothing vanished: the index is current.
pub fn index_is_current(jobs: usize, meta: &IndexMeta, files_on_disk: usize) -> (r: bool)
    requires
        meta.wf(),
    ensures
        r == (jobs == 0 && meta.file_states@.dom().len() == files_on_disk),
{
    jobs == 0 && meta.file_states.len() == files_on_disk
}

/// A file that was handed to the writer.
pub struct IndexUpdate {
    pub path: String,
    pub mtime: u64,
    /// Its Maildir flag suffix.
    pub suffix: String,
    /// The id it was indexed under.
    pub message_id: String,
}

/// The states the handed-over files get: the new state where the writer
/// stored the message, the old state (if any) where it did not.
pub open spec fn updated_states(
    old: Map<Seq<char>, FileMeta>,
    updates: Seq<IndexUpdate>,
    succeeded: Set<Seq<char>>,
) -> Map<Seq<char>, FileMeta>
    decreases updates.len(),
{
    if updates.len() == 0 {
        Map::empty()
    } else {
        let m = updated_states(old, updates.drop_last(), succeeded);
        let u = updates.last();
        if succeeded.contains(u.message_id@) {
            m.insert(u.path@, FileMeta { mtime: u.mtime, flags: u.suffix, message_id: u.message_id })
        } else if old.dom().contains(u.path@) {
            m.insert(u.path@, old[u.path@])
        } else {
            m
        }
    }
}

/// The notebook after a run: the files still on disk keep their states,
/// overridden by the states of the handed-over files.
pub open spec fn states_after(
    old: Map<Seq<char>, FileMeta>,
    on_disk: Set<Seq<char>>,
    updates: Seq<IndexUpdate>,
    succeeded: Set<Seq<char>>,
) -> Map<Seq<char>, FileMeta> {
    old.restrict(on_disk).union_prefer_right(updated_states(old, updates, succeeded))
}

/// The ids to remove from the index: those of tracked files that vanished
/// from disk, unless the writer stored that id again in this run.
pub open spec fn ids_to_delete(
    old: Map<Seq<char>, FileMeta>,
    on_disk: Set<Seq<char>>,
    succeeded: Set<Seq<char>>,
) -> Set<Seq<char>> {
    Set::new(
        |m: Seq<char>|
            m.len() > 0 && !succeeded.contains(m) && exists|p: Seq<char>|
                #![trigger old[p]]
                old.dom().contains(p) && !on_disk.contains(p) && old[p].message_id@ == m,
    )
}

/// The deletions found among the first `n` stored pairs.
pub open spec fn deleted_among(
    pairs: Seq<(String, FileMeta)>,
    n: int,
    on_disk: Set<Seq<char>>,
    succeeded: Set<Seq<char>>,
) -> Set<Seq<char>> {
    Set::new(
        |m: Seq<char>|
            m.len() > 0 && !succeeded.contains(m) && exists|j: int|
                #![trigger pairs[j]]
                0 <= j < n && !on_disk.contains(pairs[j].0@) && pairs[j].1.message_id@ == m,
    )
}

pub proof fn lemma_updated_dom(old: Map<Seq<char>, FileMeta>, updates: Seq<IndexUpdate>, succeeded: Set<Seq<char>>, p: Seq<char>)
    requires
        updated_states(old, updates, succeeded).dom().contains(p),
    ensures
        exists|i: int| 0 <= i < updates.len() && (#[trigger] updates[i]).path@ == p,
    decreases updates.len(),
{
    let u = updates.last();
    if updated_states(old, updates.drop_last(), succeeded).dom().contains(p) {
        lemma_updated_dom(old, updates.drop_last(), succeeded, p);
        let i = choose|i: int| 0 <= i < updates.drop_last().len() && (#[trigger] updates.drop_last()[i]).path@ == p;
        assert(updates[i] == updates.drop_last()[i]);
    } else {
        assert(updates[updates.len() - 1].path@ == p);
    }
}

pub proof fn lemma_updated_failed(old: Map<Seq<char>, FileMeta>, updates: Seq<IndexUpdate>, succeeded: Set<Seq<char>>, p: Seq<char>)
    requires
        forall|i: int| 0 <= i < updates.len() && (#[trigger] updates[i]).path@ == p ==> !succeeded.contains(updates[i].message_id@),
        updated_states(old, updates, succeeded).dom().contains(p),
    ensures
        old.dom().contains(p),
        updated_states(old, updates, succeeded)[p] == old[p],
    decreases updates.len(),
{
    let u = updates.last();
    assert(updates[updates.len() - 1] == u);
    if u.path@ == p && old.dom().contains(p) {
    } else {
        assert forall|i: int| 0 <= i < updates.drop_last().len() && (#[trigger] updates.drop_last()[i]).path@ == p
            implies !succeeded.contains(updates.drop_last()[i].message_id@) by {
            assert(updates.drop_last()[i] == updates[i]);
        }
        lemma_updated_failed(old, updates.drop_last(), succeeded, p);
    }
}

/// Every file the notebook tracks after a run is on disk, provided the
/// handed-over files came from the walk.
pub proof fn law_tracked_files_are_on_disk(
    old: Map<Seq<char>, FileMeta>,
    on_disk: Set<Seq<char>>,
    updates: Seq<IndexUpdate>,
    succeeded: Set<Seq<char>>,
)
    requires
        forall|i: int| 0 <= i < updates.len() ==> on_disk.contains((#[trigger] updates[i]).path@),
    ensures
        forall|p: Seq<char>| #[trigger] states_after(old, on_disk, updates, succeeded).dom().contains(p) ==> on_disk.contains(p),
{
    assert forall|p: Seq<char>| #[trigger] states_after(old, on_disk, updates, succeeded).dom().contains(p)
        implies on_disk.contains(p) by {
        if updated_states(old, updates, succeeded).dom().contains(p) {
            lemma_updated_dom(old, updates, succeeded, p);
        }
    }
}

/// A message the writer stored in this run is never deleted.
pub proof fn law_stored_ids_survive(
    old: Map<Seq<char>, FileMeta>,
    on_disk: Set<Seq<char>>,
    succeeded: Set<Seq<char>>,
    m: Seq<char>,
)
    requires
        succeeded.contains(m),
    ensures
        !ids_to_delete(old, on_disk, succeeded).contains(m),
{
}

/// A run in which no file was handed over and every tracked file is still
/// on disk leaves the notebook as it was and deletes nothing.
pub proof fn law_unchanged_run_is_idle(
    old: Map<Seq<char>, FileMeta>,
    on_disk: Set<Seq<char>>,
    succeeded: Set<Seq<char>>,
)
    requires
        forall|p: Seq<char>| #[trigger] old.dom().contains(p) ==> on_disk.contains(p),
    ensures
        states_after(old, on_disk, Seq::empty(), succeeded) == old,
        ids_to_delete(old, on_disk, succeeded) == Set::<Seq<char>>::empty(),
{
    assert(updated_states(old, Seq::<IndexUpdate>::empty(), succeeded) == Map::<Seq<char>, FileMeta>::empty());
    assert(old.restrict(on_disk) =~= old);
    assert(states_after(old, on_disk, Seq::empty(), succeeded) =~= old);
    assert(ids_to_delete(old, on_disk, succeeded) =~= Set::<Seq<char>>::empty());
}

/// The id of a tracked file that vanished from disk is deleted, unless the
/// writer stored that id again in this run (or it is empty).
pub proof fn law_vanished_file_is_deleted(
    old: Map<Seq<char>, FileMeta>,
    on_disk: Set<Seq<char>>,
    succeeded: Set<Seq<char>>,
    p: Seq<char>,
)
    requires
        old.dom().contains(p),
        !on_disk.contains(p),
        old[p].message_id@.len() > 0,
        !succeeded.contains(old[p].message_id@),
    ensures
        ids_to_delete(old, on_disk, succeeded).contains(old[p].message_id@),
{
}

/// A file still on disk whose re-indexing failed, or which was not handed
/// over at all, keeps the state it had.
pub proof fn law_unstored_files_keep_state(
    old: Map<Seq<char>, FileMeta>,
    on_disk: Set<Seq<char>>,
    updates: Seq<IndexUpdate>,
    succeeded: Set<Seq<char>>,
    p: Seq<char>,
)
    requires
        old.dom().contains(p),
        on_disk.contains(p),
        forall|i: int| 0 <= i < updates.len() && (#[trigger] updates[i]).path@ == p ==> !succeeded.contains(updates[i].message_id@),
    ensures
        states_after(old, on_disk, updates, succeeded).dom().contains(p),
        states_after(old, on_disk, updates, succeeded)[p] == old[p],
{
    if updated_states(old, updates, succeeded).dom().contains(p) {
        lemma_updated_failed(old, updates, succeeded, p);
    }
}

/// A file that was stored again gets the state it was stored with.
pub proof fn law_stored_file_takes_new_state(
    old: Map<Seq<char>, FileMeta>,
    on_disk: Set<Seq<char>>,
    updates: Seq<IndexUpdate>,
    succeeded: Set<Seq<char>>,
)
    requires
        updates.len() > 0,
        succeeded.contains(updates.last().message_id@),
    ensures
        ({
            let u = updates.last();
            states_after(old, on_disk, updates, succeeded)[u.path@] == FileMeta {
                mtime: u.mtime,
                flags: u.suffix,
                message_id: u.message_id,
            }
        }),
{
}

/// What the positions of the files to read again are: ascending positions
/// of the walk, exactly those of the files that need it.
pub proof fn lemma_reindex_positions(states: Map<Seq<char>, FileMeta>, files: Seq<(String, u64, String)>)
    requires
        files.len() <= usize::MAX,
    ensures
        ({
            let pos = reindex_positions(states, files);
            &&& forall|k: int| 0 <= k < pos.len() ==> (#[trigger] pos[k]) < files.len()
                && reindex_needed(states, files[pos[k] as int].0@, files[pos[k] as int].1, files[pos[k] as int].2@)
            &&& forall|a: int, b: int| 0 <= a < b < pos.len() ==> #[trigger] pos[a] < #[trigger] pos[b]
            &&& forall|j: int|
                0 <= j < files.len() && reindex_needed(states, files[j].0@, files[j].1, files[j].2@)
                    ==> exists|k: int| 0 <= k < pos.len() && #[trigger] pos[k] == j
        }),
    decreases files.len(),
{
    if files.len() > 0 {
        let init = files.drop_last();
        lemma_reindex_positions(states, init);
        let rest = reindex_positions(states, init);
        let pos = reindex_positions(states, files);
        assert forall|j: int|
            0 <= j < files.len() && reindex_needed(states, files[j].0@, files[j].1, files[j].2@)
                implies exists|k: int| 0 <= k < pos.len() && #[trigger] pos[k] == j by {
            if j < files.len() - 1 {
                assert(init[j] == files[j]);
                let k = choose|k: int| 0 <= k < rest.len() && #[trigger] rest[k] == j;
                assert(pos[k] == rest[k]);
            } else {
                assert(files.last() == files[j]);
                assert(pos == rest.push((files.len() - 1) as usize));
                assert(pos[rest.len() as int] == j);
            }
        }
        assert forall|k: int| 0 <= k < pos.len() implies (#[trigger] pos[k]) < files.len()
            && reindex_needed(states, files[pos[k] as int].0@, files[pos[k] as int].1, files[pos[k] as int].2@) by {
            if k < rest.len() {
                assert(pos[k] == rest[k]);
                assert(init[rest[k] as int] == files[rest[k] as int]);
            }
        }
    }
}

/// The state left for a path that exactly one stored update carries.
proof fn lemma_updated_unique(old: Map<Seq<char>, FileMeta>, updates: Seq<IndexUpdate>, succeeded: Set<Seq<char>>, i: int)
    requires
        0 <= i < updates.len(),
        succeeded.contains(updates[i].message_id@),
        forall|k: int| 0 <= k < updates.len() && k != i ==> (#[trigger] updates[k]).path@ != updates[i].path@,
    ensures
        updated_states(old, updates, succeeded).dom().contains(updates[i].path@),
        updated_states(old, updates, succeeded)[updates[i].path@].mtime == updates[i].mtime,
        updated_states(old, updates, succeeded)[updates[i].path@].flags@ == updates[i].suffix@,
    decreases updates.len(),
{
    if i < updates.len() - 1 {
        let init = updates.drop_last();
        assert(init[i] == updates[i]);
        assert forall|k: int| 0 <= k < init.len() && k != i implies (#[trigger] init[k]).path@ != init[i].path@ by {
            assert(init[k] == updates[k]);
        }
        lemma_updated_unique(old, init, succeeded, i);
        assert(updates[updates.len() - 1].path@ != updates[i].path@);
    }
}

/// Indexing settles: when every file the plan picked was handed to the
/// writer and stored, planning again over the same walk finds nothing to
/// read.
pub proof fn law_index_settles(
    old: Map<Seq<char>, FileMeta>,
    files: Seq<(String, u64, String)>,
    on_disk: Set<Seq<char>>,
    updates: Seq<IndexUpdate>,
    succeeded: Set<Seq<char>>,
)
    requires
        files.len() <= usize::MAX,
        forall|a: int, b: int| 0 <= a < b < files.len() ==> (#[trigger] files[a]).0@ != (#[trigger] files[b]).0@,
        forall|j: int| 0 <= j < files.len() ==> on_disk.contains((#[trigger] files[j]).0@),
        updates.len() == reindex_positions(old, files).len(),
        forall|i: int|
            0 <= i < updates.len() ==> {
                let f = files[reindex_positions(old, files)[i] as int];
                &&& (#[trigger] updates[i]).path@ == f.0@
                &&& updates[i].mtime == f.1
                &&& updates[i].suffix@ == f.2@
                &&& succeeded.contains(updates[i].message_id@)
            },
    ensures
        reindex_positions(states_after(old, on_disk, updates, succeeded), files).len() == 0,
{
    let pos = reindex_positions(old, files);
    let after = states_after(old, on_disk, updates, succeeded);
    let upd = updated_states(old, updates, succeeded);
    lemma_reindex_positions(old, files);
    lemma_reindex_positions(after, files);
    assert forall|j: int| 0 <= j < files.len() implies !reindex_needed(after, files[j].0@, files[j].1, files[j].2@) by {
        let f = files[j];
        if reindex_needed(old, f.0@, f.1, f.2@) {
            let i = choose|k: int| 0 <= k < pos.len() && #[trigger] pos[k] == j;
            assert forall|k: int| 0 <= k < updates.len() && k != i implies (#[trigger] updates[k]).path@ != updates[i].path@ by {
                assert(updates[k].path@ == files[pos[k] as int].0@);
                assert(updates[i].path@ == files[pos[i] as int].0@);
                if k < i {
                    assert(pos[k] < pos[i]);
                } else {
                    assert(pos[i] < pos[k]);
                }
            }
            lemma_updated_unique(old, updates, succeeded, i);
        } else {
            if upd.dom().contains(f.0@) {
                lemma_updated_dom(old, updates, succeeded, f.0@);
                let i = choose|i: int| 0 <= i < updates.len() && (#[trigger] updates[i]).path@ == f.0@;
                assert(updates[i].path@ == files[pos[i] as int].0@);
                assert(pos[i] as int != j);
                if (pos[i] as int) < j {
                    assert(files[pos[i] as int].0@ != files[j].0@);
                } else {
                    assert(files[j].0@ != files[pos[i] as int].0@);
                }
            }
        }
    }
    if reindex_positions(after, files).len() > 0 {
        let q = reindex_positions(after, files);
        assert(q[0] < files.len());
    }
}

/// Brings the notebook up to date after the writer reported which message
/// ids it stored, and returns the ids to delete from the index, each once.
pub fn apply_index_results(
    meta: &mut IndexMeta,
    on_disk: &Vec<String>,
    updates: &Vec<IndexUpdate>,
    succeeded: &Vec<String>,
    now: u64,
) -> (deleted: Vec<String>)
    requires
        old(meta).wf(),
    ensures
        final(meta).wf(),
        final(meta).last_indexed == now,
        final(meta).file_states@ == states_after(
            old(meta).file_states@,
            string_set(on_disk@),
            updates@,
            string_set(succeeded@),
        ),
        string_set(deleted@) == ids_to_delete(
            old(meta).file_states@,
            string_set(on_disk@),
            string_set(succeeded@),
        ),
        forall|i: int, j: int| 0 <= i < j < deleted@.len() ==> (#[trigger] deleted@[i])@ != (#[trigger] deleted@[j])@,
{
    let ghost old_states = meta.file_states@;
    let ghost disk = string_set(on_disk@);
    let ghost succ = string_set(succeeded@);
    // The states of the handed-over files.
    let mut fresh: StringMap<FileMeta> = StringMap::new();
    let mut i: usize = 0;
    while i < updates.len()
        invariant
            meta.wf(),
            meta.file_states@ == old_states,
            succ == string_set(succeeded@),
            i <= updates@.len(),
            fresh.wf(),
            fresh@ == updated_states(old_states, updates@.take(i as int), succ),
        decreases updates.len() - i,
    {
        let u = &updates[i];
        proof {
            assert(updates@.take(i + 1).drop_last() =~= updates@.take(i as int));
            assert(updates@.take(i + 1).last() == *u);
        }
        if contains_string(succeeded, u.message_id.as_str()) {
            fresh.insert(
                u.path.clone(),
                FileMeta { mtime: u.mtime, flags: u.suffix.clone(), message_id: u.message_id.clone() },
            );
        } else {
            match meta.file_states.get(u.path.as_str()) {
                Some(prev) => {
                    fresh.insert(u.path.clone(), prev.copy());
                },
                None => {},
            }
        }
        i += 1;
    }
    assert(updates@.take(updates@.len() as int) =~= updates@);
    // The ids of tracked files that vanished.
    let mut deleted: Vec<String> = Vec::new();
    let mut k: usize = 0;
    proof {
        meta.file_states.lemma_pairs();
        assert(string_set(deleted@) =~= deleted_among(meta.file_states.pairs(), 0, disk, succ));
    }
    while k < meta.file_states.len()
        invariant
            meta.wf(),
            meta.file_states@ == old_states,
            disk == string_set(on_disk@),
            succ == string_set(succeeded@),
            k <= meta.file_states.pairs().len(),
            string_set(deleted@) == deleted_among(meta.file_states.pairs(), k as int, disk, succ),
            forall|a: int, b: int| 0 <= a < b < deleted@.len() ==> (#[trigger] deleted@[a])@ != (#[trigger] deleted@[b])@,
        decreases meta.file_states.pairs().len() - k,
    {
        let ghost pairs = meta.file_states.pairs();
        let path = meta.file_states.key_at(k);
        let state = meta.file_states.value_at(k);
        let mid = state.message_id.as_str();
        if !contains_string(on_disk, path.as_str()) && chars_of(mid).len() > 0 && !contains_string(
            succeeded,
            mid,
        ) && !contains_string(&deleted, mid) {
            let ghost before = deleted@;
            deleted.push(state.message_id.clone());
            proof {
                assert(string_set(deleted@) =~= string_set(before).insert(mid@)) by {
                    assert forall|x: Seq<char>| string_set(deleted@).contains(x) <==> string_set(before).contains(x) || x == mid@ by {
                        if string_set(deleted@).contains(x) {
                            let j = choose|j: int| 0 <= j < deleted@.len() && #[trigger] crate::string_map::string_views(deleted@)[j] == x;
                            if j < before.len() {
                                assert(crate::string_map::string_views(before)[j] == x);
                            }
                        }
                        if string_set(before).contains(x) {
                            let j = choose|j: int| 0 <= j < before.len() && #[trigger] crate::string_map::string_views(before)[j] == x;
                            assert(crate::string_map::string_views(deleted@)[j] == x);
                        }
                        if x == mid@ {
                            assert(crate::string_map::string_views(deleted@)[before.len() as int] == x);
                        }
                    }
                }
                assert(deleted_among(pairs, k + 1, disk, succ) =~= deleted_among(pairs, k as int, disk, succ).insert(mid@)) by {
                    assert forall|x: Seq<char>| #[trigger] deleted_among(pairs, k + 1, disk, succ).contains(x) implies deleted_among(pairs, k as int, disk, succ).contains(x) || x == mid@ by {
                        let j = choose|j: int| #![trigger pairs[j]] 0 <= j < k + 1 && !disk.contains(pairs[j].0@) && pairs[j].1.message_id@ == x;
                        if j < k {
                        }
                    }
                    assert(pairs[k as int].1.message_id@ == mid@);
                }
                assert forall|a: int, b: int| 0 <= a < b < deleted@.len() implies (#[trigger] deleted@[a])@ != (#[trigger] deleted@[b])@ by {
                    if b == deleted@.len() - 1 {
                        assert(crate::string_map::string_views(before)[a] == deleted@[a]@);
                    }
                }
            }
        } else {
            proof {
                assert forall|x: Seq<char>| #[trigger] deleted_among(pairs, k + 1, disk, succ).contains(x) implies deleted_among(pairs, k as int, disk, succ).contains(x) || string_set(deleted@).contains(x) by {
                    let j = choose|j: int| #![trigger pairs[j]] 0 <= j < k + 1 && !disk.contains(pairs[j].0@) && pairs[j].1.message_id@ == x;
                }
                assert(deleted_among(pairs, k + 1, disk, succ) =~= deleted_among(pairs, k as int, disk, succ));
            }
        }
        k += 1;
    }
    proof {
        let pairs = meta.file_states.pairs();
        meta.file_states.lemma_pairs();
        assert forall|x: Seq<char>| deleted_among(pairs, pairs.len() as int, disk, succ).contains(x) <==> #[trigger] ids_to_delete(old_states, disk, succ).contains(x) by {
            if deleted_among(pairs, pairs.len() as int, disk, succ).contains(x) {
                let j = choose|j: int| #![trigger pairs[j]] 0 <= j < pairs.len() && !disk.contains(pairs[j].0@) && pairs[j].1.message_id@ == x;
                assert(old_states.dom().contains(pairs[j].0@));
                assert(old_states[pairs[j].0@] == pairs[j].1);
            }
            if ids_to_delete(old_states, disk, succ).contains(x) {
                let p = choose|p: Seq<char>| #![trigger old_states[p]] old_states.dom().contains(p) && !disk.contains(p) && old_states[p].message_id@ == x;
                meta.file_states.lemma_keys_listed(p);
                let j = choose|j: int| 0 <= j < pairs.len() && (#[trigger] pairs[j]).0@ == p;
                assert(old_states[pairs[j].0@] == pairs[j].1);
            }
        }
        assert(string_set(deleted@) =~= ids_to_delete(old_states, disk, succ));
    }
    // Files that vanished leave the notebook; handed-over files take their
    // new states.
    meta.file_states.retain_keys(on_disk);
    let ghost kept = meta.file_states@;
    let mut n: usize = 0;
    proof {
        fresh.lemma_pairs();
        assert(fresh.pairs().take(0) =~= Seq::<(String, FileMeta)>::empty());
        assert(kept.union_prefer_right(pairs_map(fresh.pairs().take(0))) =~= kept);
    }
    while n < fresh.len()
        invariant
            meta.wf(),
            fresh.wf(),
            n <= fresh.pairs().len(),
            pairs_map(fresh.pairs()) == fresh@,
            meta.file_states@ == kept.union_prefer_right(pairs_map(fresh.pairs().take(n as int))),
        decreases fresh.pairs().len() - n,
    {
        let ghost pairs = fresh.pairs();
        proof {
            assert(pairs.take(n + 1).drop_last() =~= pairs.take(n as int));
            assert(pairs.take(n + 1).last() == pairs[n as int]);
        }
        meta.file_states.insert(fresh.key_at(n).clone(), fresh.value_at(n).copy());
        assert(meta.file_states@ =~= kept.union_prefer_right(pairs_map(pairs.take(n + 1))));
        n += 1;
    }
    assert(fresh.pairs().take(fresh.pairs().len() as int) =~= fresh.pairs());
    meta.last_indexed = now;
    deleted
}

} // verus!
