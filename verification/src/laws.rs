//! The store's laws: what holds across operations, proved once and for all
//! over the spec-level transitions that every executable contract in this
//! library is stated against.
use vstd::prelude::*;

use crate::assets::{asset_key_pred, dedup_inserted, found_asset};
use crate::boards::{
    applied_update, board_without_asset, deleted_dir, entry_has_id, found_board, has_board,
    id_pred, metadata_of_entries, named_pred, new_board, saved_dir, stale_pred, drop_stale,
};
use crate::filename::board_file_name_spec;
use crate::scan::{first_where, lemma_first_where};
use crate::types::{AssetView, BoardMetadataView, BoardUpdateView, BoardView, DirEntryView, meta_of};

verus! {

/// How many metadata entries of a listing carry the given board id.
pub open spec fn meta_id_count(ms: Seq<BoardMetadataView>, id: u64) -> nat
    decreases ms.len(),
{
    if ms.len() == 0 {
        0
    } else {
        meta_id_count(ms.drop_last(), id) + if ms.last().id == id {
            1nat
        } else {
            0nat
        }
    }
}

/// How many directory entries hold a parsed board with the given id.
pub open spec fn entry_id_count(s: Seq<DirEntryView>, id: u64) -> nat
    decreases s.len(),
{
    if s.len() == 0 {
        0
    } else {
        entry_id_count(s.drop_last(), id) + if entry_has_id(s.last(), id) {
            1nat
        } else {
            0nat
        }
    }
}

/// Listing a directory yields exactly as many metadata entries with an id
/// as the directory has parsed boards with that id.
pub proof fn lemma_listing_counts_entries(s: Seq<DirEntryView>, id: u64)
    ensures
        meta_id_count(metadata_of_entries(s), id) == entry_id_count(s, id),
    decreases s.len(),
{
    if s.len() > 0 {
        lemma_listing_counts_entries(s.drop_last(), id);
        let rest = metadata_of_entries(s.drop_last());
        match s.last().doc {
            Some(b) => {
                assert(metadata_of_entries(s) == rest.push(meta_of(b)));
                assert(rest.push(meta_of(b)).drop_last() =~= rest);
                assert(rest.push(meta_of(b)).last() == meta_of(b));
            },
            None => {},
        }
    }
}

/// A directory in which no entry holds the id lists no such board.
pub proof fn lemma_count_zero(s: Seq<DirEntryView>, id: u64)
    requires
        forall|j: int| 0 <= j < s.len() ==> !entry_has_id(s[j], id),
    ensures
        entry_id_count(s, id) == 0,
    decreases s.len(),
{
    if s.len() > 0 {
        assert(forall|j: int| 0 <= j < s.len() - 1 ==> s.drop_last()[j] == s[j]);
        lemma_count_zero(s.drop_last(), id);
    }
}

/// A directory in which exactly one entry holds the id lists it once.
pub proof fn lemma_count_one(s: Seq<DirEntryView>, id: u64, k: int)
    requires
        0 <= k < s.len(),
        entry_has_id(s[k], id),
        forall|j: int| 0 <= j < s.len() && j != k ==> !entry_has_id(s[j], id),
    ensures
        entry_id_count(s, id) == 1,
    decreases s.len(),
{
    assert(forall|j: int| 0 <= j < s.len() - 1 ==> s.drop_last()[j] == s[j]);
    if k == s.len() - 1 {
        lemma_count_zero(s.drop_last(), id);
    } else {
        lemma_count_one(s.drop_last(), id, k);
    }
}

/// Saving a board whose id is new to the directory, then loading that id,
/// returns the board with every field intact — thumbnail, view state,
/// strokes, objects and groups included: the store carries opaque payloads
/// through untouched.
pub proof fn lemma_save_then_load(dir: Seq<DirEntryView>, b: BoardView)
    requires
        !has_board(dir, b.id),
    ensures
        found_board(saved_dir(dir, b), b.id) == Some(b),
{
    let id = b.id;
    lemma_first_where(dir, id_pred(id));
    assert(forall|j: int| 0 <= j < dir.len() ==> !(#[trigger] id_pred(id)(dir[j])));
    let ps = stale_pred(b);
    assert forall|j: int| 0 <= j < dir.len() implies !(#[trigger] ps(dir[j])) by {
        if ps(dir[j]) {
            assert(id_pred(id)(dir[j]));
        }
    }
    lemma_first_where(dir, ps);
    assert(first_where(dir, ps) == dir.len()) by {
        if first_where(dir, ps) < dir.len() {
            assert(ps(dir[first_where(dir, ps)]));
        }
    }
    assert(drop_stale(dir, b) == dir);
    let f = board_file_name_spec(b.name, b.id);
    let e = DirEntryView { file_name: f, doc: Some(b) };
    let pn = named_pred(f);
    lemma_first_where(dir, pn);
    let ku = first_where(dir, pn);
    let dir2 = saved_dir(dir, b);
    let p = id_pred(id);
    if ku < dir.len() {
        assert(dir2 == dir.update(ku, e));
        assert(entry_has_id(dir2[ku], id));
        lemma_first_where(dir2, p);
        let k2 = first_where(dir2, p);
        assert(k2 == ku) by {
            if k2 < dir2.len() && k2 != ku {
                assert(dir2[k2] == dir[k2]);
                assert(!p(dir2[k2]));
            }
            if k2 == dir2.len() {
                assert(!p(dir2[ku]));
            }
            if k2 > ku {
                assert(!p(dir2[ku]));
            }
        }
        assert(found_board(dir2, id) == dir2[ku].doc);
        assert(dir2[ku] == e);
    } else {
        assert(dir2 == dir.push(e));
        let last = dir.len() as int;
        assert(dir2[last] == e);
        assert(entry_has_id(dir2[last], id));
        lemma_first_where(dir2, p);
        let k2 = first_where(dir2, p);
        assert(k2 == last) by {
            if k2 < last {
                assert(dir2[k2] == dir[k2]);
                assert(!p(dir2[k2]));
            }
            if k2 == dir2.len() {
                assert(!p(dir2[last]));
            }
        }
        assert(found_board(dir2, id) == dir2[last].doc);
    }
}

/// A board created now and loaded by its id comes back equal in every
/// field, with its creation and update stamps equal.
pub proof fn lemma_create_then_load(
    dir: Seq<DirEntryView>,
    name: Seq<char>,
    bg_color: Seq<char>,
    now: u64,
)
    requires
        !has_board(dir, now),
    ensures
        ({
            let b = new_board(name, bg_color, now);
            &&& found_board(saved_dir(dir, b), now) == Some(b)
            &&& b.created_at == b.updated_at
        }),
{
    lemma_save_then_load(dir, new_board(name, bg_color, now));
}

/// Whether a parsed entry sits at the file name its own board derives —
/// true of every file the store itself wrote.
pub open spec fn canonical_entry(e: DirEntryView) -> bool {
    match e.doc {
        Some(d) => e.file_name == board_file_name_spec(d.name, d.id),
        None => true,
    }
}

/// No two entries share a file name, as in a real directory.
pub open spec fn distinct_file_names(s: Seq<DirEntryView>) -> bool {
    forall|i: int, j: int|
        0 <= i < s.len() && 0 <= j < s.len() && i != j ==> (#[trigger] s[i]).file_name != (
        #[trigger] s[j]).file_name
}

/// Every parsed entry sits at its canonical file name.
pub open spec fn entries_canonical(s: Seq<DirEntryView>) -> bool {
    forall|j: int| 0 <= j < s.len() ==> canonical_entry(#[trigger] s[j])
}

/// No board id is stored by two entries.
pub open spec fn one_entry_per_id(s: Seq<DirEntryView>) -> bool {
    forall|i: int, j: int|
        0 <= i < s.len() && 0 <= j < s.len() && (#[trigger] s[i]).doc is Some && (
        #[trigger] s[j]).doc is Some && s[i].doc->Some_0.id == s[j].doc->Some_0.id ==> i == j
}

/// What every directory the store maintains looks like: distinct file
/// names, one entry per board id, every parsed entry at its canonical file
/// name. An empty directory is well formed, and the lemmas below show that
/// saving and deleting keep it so.
pub open spec fn dir_wf(s: Seq<DirEntryView>) -> bool {
    &&& distinct_file_names(s)
    &&& entries_canonical(s)
    &&& one_entry_per_id(s)
}

/// Removing one entry keeps a directory well formed.
proof fn lemma_remove_preserves_wf(s: Seq<DirEntryView>, k: int)
    requires
        dir_wf(s),
        0 <= k < s.len(),
    ensures
        dir_wf(s.remove(k)),
{
    let r = s.remove(k);
    assert forall|j: int| 0 <= j < r.len() implies r[j] == if j < k {
        s[j]
    } else {
        s[j + 1]
    } by {}
    assert forall|i: int, j: int|
        0 <= i < r.len() && 0 <= j < r.len() && i != j implies (#[trigger] r[i]).file_name != (
    #[trigger] r[j]).file_name by {
        let i2: int = if i < k { i } else { i + 1 };
        let j2: int = if j < k { j } else { j + 1 };
        assert(r[i] == s[i2] && r[j] == s[j2] && i2 != j2);
    }
    assert forall|j: int| 0 <= j < r.len() implies canonical_entry(#[trigger] r[j]) by {
        let j2: int = if j < k { j } else { j + 1 };
        assert(r[j] == s[j2]);
    }
    assert forall|i: int, j: int|
        0 <= i < r.len() && 0 <= j < r.len() && (#[trigger] r[i]).doc is Some && (
    #[trigger] r[j]).doc is Some && r[i].doc->Some_0.id == r[j].doc->Some_0.id implies i == j by {
        let i2: int = if i < k { i } else { i + 1 };
        let j2: int = if j < k { j } else { j + 1 };
        assert(r[i] == s[i2] && r[j] == s[j2]);
    }
}

/// Saving any board into a well-formed directory leaves it well formed:
/// the rename pass removes at most one file, and the write lands on the one
/// entry already holding the canonical name, or on a fresh one.
pub proof fn lemma_save_preserves_wf(dir: Seq<DirEntryView>, b: BoardView)
    requires
        dir_wf(dir),
    ensures
        dir_wf(saved_dir(dir, b)),
{
    let ps = stale_pred(b);
    let ks = first_where(dir, ps);
    lemma_first_where(dir, ps);
    let s1 = drop_stale(dir, b);
    if ks < dir.len() {
        lemma_remove_preserves_wf(dir, ks);
    }
    assert(dir_wf(s1));
    // after the rename pass, no remaining entry with the board's id holds
    // another name, so any remaining holder of the id sits at the board's
    // own canonical file name
    let f = board_file_name_spec(b.name, b.id);
    let e2 = DirEntryView { file_name: f, doc: Some(b) };
    assert(canonical_entry(e2));
    let pn = named_pred(f);
    lemma_first_where(s1, pn);
    let ku = first_where(s1, pn);
    let d2 = saved_dir(dir, b);
    assert forall|j: int|
        0 <= j < s1.len() && (#[trigger] s1[j]).doc is Some && s1[j].doc->Some_0.id == b.id
        implies s1[j].file_name == f by {
        // the entry is not stale, or it would have been the first stale one
        // and gone: so its name is the board's, and it sits canonically
        if ks < dir.len() {
            let j2: int = if j < ks {
                j
            } else {
                j + 1
            };
            assert(s1[j] == dir[j2]);
            assert(entry_has_id(dir[j2], b.id));
            assert(entry_has_id(dir[ks], b.id));
            assert(j2 == ks);
            assert(false);
        } else {
            assert(!ps(s1[j]));
            assert(canonical_entry(s1[j]));
        }
    }
    if ku < s1.len() {
        assert(d2 == s1.update(ku, e2));
        assert(pn(s1[ku]));
        assert forall|i: int, j: int|
            0 <= i < d2.len() && 0 <= j < d2.len() && i != j implies (#[trigger] d2[i]).file_name
            != (#[trigger] d2[j]).file_name by {
            if i != ku && j != ku {
                assert(d2[i] == s1[i] && d2[j] == s1[j]);
            } else if i == ku {
                assert(d2[j] == s1[j]);
                assert(s1[j].file_name != s1[ku].file_name);
            } else {
                assert(d2[i] == s1[i]);
                assert(s1[i].file_name != s1[ku].file_name);
            }
        }
        assert forall|j: int| 0 <= j < d2.len() implies canonical_entry(#[trigger] d2[j]) by {
            if j != ku {
                assert(d2[j] == s1[j]);
            }
        }
        assert forall|i: int, j: int|
            0 <= i < d2.len() && 0 <= j < d2.len() && (#[trigger] d2[i]).doc is Some && (
        #[trigger] d2[j]).doc is Some && d2[i].doc->Some_0.id == d2[j].doc->Some_0.id implies i
            == j by {
            if i != ku && j != ku {
                assert(d2[i] == s1[i] && d2[j] == s1[j]);
            } else if i == ku && j != ku {
                assert(d2[j] == s1[j]);
                assert(s1[j].file_name == f);
                assert(s1[j].file_name != s1[ku].file_name);
                assert(pn(s1[j]));
            } else if j == ku && i != ku {
                assert(d2[i] == s1[i]);
                assert(s1[i].file_name == f);
                assert(s1[i].file_name != s1[ku].file_name);
                assert(pn(s1[i]));
            }
        }
    } else {
        assert(d2 == s1.push(e2));
        let last = s1.len() as int;
        assert(forall|j: int| 0 <= j < last ==> d2[j] == s1[j]);
        assert forall|i: int, j: int|
            0 <= i < d2.len() && 0 <= j < d2.len() && i != j implies (#[trigger] d2[i]).file_name
            != (#[trigger] d2[j]).file_name by {
            if i == last {
                assert(!pn(s1[j]));
            } else if j == last {
                assert(!pn(s1[i]));
            }
        }
        assert forall|j: int| 0 <= j < d2.len() implies canonical_entry(#[trigger] d2[j]) by {
            if j != last {
                assert(d2[j] == s1[j]);
            }
        }
        assert forall|i: int, j: int|
            0 <= i < d2.len() && 0 <= j < d2.len() && (#[trigger] d2[i]).doc is Some && (
        #[trigger] d2[j]).doc is Some && d2[i].doc->Some_0.id == d2[j].doc->Some_0.id implies i
            == j by {
            if i == last && j != last {
                assert(d2[j] == s1[j]);
                assert(s1[j].file_name == f);
                assert(!pn(s1[j]));
            } else if j == last && i != last {
                assert(d2[i] == s1[i]);
                assert(s1[i].file_name == f);
                assert(!pn(s1[i]));
            } else if i != last && j != last {
                assert(d2[i] == s1[i] && d2[j] == s1[j]);
            }
        }
    }
}

/// Deleting a board from a well-formed directory leaves it well formed.
pub proof fn lemma_delete_preserves_wf(dir: Seq<DirEntryView>, id: u64)
    requires
        dir_wf(dir),
    ensures
        dir_wf(deleted_dir(dir, id)),
{
    let k = first_where(dir, id_pred(id));
    lemma_first_where(dir, id_pred(id));
    if k < dir.len() {
        lemma_remove_preserves_wf(dir, k);
    }
}

/// Deleting an existing board id removes it from a subsequent listing,
/// provided the directory held one entry for that id, as the store
/// maintains.
pub proof fn lemma_delete_removes_from_listing(dir: Seq<DirEntryView>, id: u64)
    requires
        has_board(dir, id),
        one_entry_per_id(dir),
    ensures
        meta_id_count(metadata_of_entries(deleted_dir(dir, id)), id) == 0,
{
    let k = first_where(dir, id_pred(id));
    lemma_first_where(dir, id_pred(id));
    assert(id_pred(id)(dir[k]));
    let d2 = dir.remove(k);
    assert(deleted_dir(dir, id) == d2);
    assert forall|j: int| 0 <= j < d2.len() implies !entry_has_id(d2[j], id) by {
        if j < k {
            assert(d2[j] == dir[j]);
        } else {
            assert(d2[j] == dir[j + 1]);
        }
    }
    lemma_count_zero(d2, id);
    lemma_listing_counts_entries(d2, id);
}

/// Renaming a board through a partial update, then listing, yields exactly
/// one metadata entry for its id: the file under the old name goes, the one
/// under the new name comes, and nothing is duplicated. Holds of any
/// directory the store maintains: one entry per id, file names distinct,
/// every parsed entry at its canonical file name.
pub proof fn lemma_rename_keeps_one_listing(
    dir: Seq<DirEntryView>,
    id: u64,
    u: BoardUpdateView,
    now: u64,
)
    requires
        has_board(dir, id),
        dir_wf(dir),
    ensures
        ({
            let b = found_board(dir, id)->Some_0;
            let b2 = applied_update(b, u, now);
            meta_id_count(metadata_of_entries(saved_dir(dir, b2)), id) == 1
        }),
{
    let k0 = first_where(dir, id_pred(id));
    lemma_first_where(dir, id_pred(id));
    assert(id_pred(id)(dir[k0]));
    let b = found_board(dir, id)->Some_0;
    assert(dir[k0].doc == Some(b));
    assert(b.id == id);
    let b2 = applied_update(b, u, now);
    assert(b2.id == id);
    let f = board_file_name_spec(b2.name, id);
    let ps = stale_pred(b2);
    let ks = first_where(dir, ps);
    lemma_first_where(dir, ps);
    let s1 = drop_stale(dir, b2);
    let e2 = DirEntryView { file_name: f, doc: Some(b2) };
    let d2 = saved_dir(dir, b2);
    if ks < dir.len() {
        assert(ps(dir[ks]));
        assert(entry_has_id(dir[ks], id));
        assert(ks == k0);
        assert(s1 == dir.remove(k0));
        assert forall|j: int| 0 <= j < s1.len() implies !entry_has_id(s1[j], id) by {
            if j < k0 {
                assert(s1[j] == dir[j]);
            } else {
                assert(s1[j] == dir[j + 1]);
            }
        }
        let pn = named_pred(f);
        lemma_first_where(s1, pn);
        let ku = first_where(s1, pn);
        if ku < s1.len() {
            assert(d2 == s1.update(ku, e2));
            assert(entry_has_id(d2[ku], id));
            assert forall|j: int| 0 <= j < d2.len() && j != ku implies !entry_has_id(
                d2[j],
                id,
            ) by {
                assert(d2[j] == s1[j]);
            }
            lemma_count_one(d2, id, ku);
        } else {
            assert(d2 == s1.push(e2));
            let last = s1.len() as int;
            assert(entry_has_id(d2[last], id));
            assert forall|j: int| 0 <= j < d2.len() && j != last implies !entry_has_id(
                d2[j],
                id,
            ) by {
                assert(d2[j] == s1[j]);
            }
            lemma_count_one(d2, id, last);
        }
    } else {
        assert(forall|j: int| 0 <= j < dir.len() ==> !(#[trigger] ps(dir[j])));
        assert(!ps(dir[k0]));
        assert(b.name == b2.name);
        assert(s1 == dir);
        assert(canonical_entry(dir[k0]));
        assert(dir[k0].file_name == f);
        let pn = named_pred(f);
        lemma_first_where(dir, pn);
        let ku = first_where(dir, pn);
        assert(pn(dir[k0]));
        assert(ku < dir.len()) by {
            if ku == dir.len() {
                assert(!pn(dir[k0]));
            }
        }
        assert(pn(dir[ku]));
        assert(ku == k0) by {
            if ku != k0 {
                assert(dir[ku].file_name == dir[k0].file_name);
            }
        }
        assert(d2 == dir.update(k0, e2));
        assert(entry_has_id(d2[k0], id));
        assert forall|j: int| 0 <= j < d2.len() && j != k0 implies !entry_has_id(d2[j], id) by {
            assert(d2[j] == dir[j]);
        }
        lemma_count_one(d2, id, k0);
    }
    lemma_listing_counts_entries(d2, id);
}

/// Inserting the same `(name, src)` twice returns the same entry — same id
/// included — both times, and grows the library by exactly one entry, not
/// two: the second insert is answered from the entry the first one added.
pub proof fn lemma_dedup_insert_twice(
    s: Seq<AssetView>,
    name: Seq<char>,
    src: Seq<char>,
    tags1: Option<Seq<Seq<char>>>,
    metadata1: Option<Seq<char>>,
    id1: u64,
    tags2: Option<Seq<Seq<char>>>,
    metadata2: Option<Seq<char>>,
    id2: u64,
)
    requires
        found_asset(s, name, src) is None,
    ensures
        ({
            let (l1, a1) = dedup_inserted(s, name, src, tags1, metadata1, id1);
            let (l2, a2) = dedup_inserted(l1, name, src, tags2, metadata2, id2);
            &&& a2 == a1
            &&& a2.id == id1
            &&& l2 == l1
            &&& l2.len() == s.len() + 1
        }),
{
    let p = asset_key_pred(name, src);
    lemma_first_where(s, p);
    let a1 = AssetView { id: id1, name, src, tags: tags1, metadata: metadata1 };
    let l1 = s.push(a1);
    assert(p(a1));
    lemma_first_where(l1, p);
    let k = first_where(l1, p);
    assert(forall|j: int| 0 <= j < s.len() ==> l1[j] == s[j]);
    assert(l1[s.len() as int] == a1);
    assert(k < l1.len());
    assert(k == s.len() as int) by {
        if k < s.len() {
            assert(!p(s[k]));
        }
    }
    assert(found_asset(l1, name, src) == Some(a1));
}

/// Inserting two assets whose `(name, src)` keys differ creates two
/// distinct entries: the library grows by two, and the two new entries
/// disagree on name or on source.
pub proof fn lemma_dedup_insert_distinct(
    s: Seq<AssetView>,
    name1: Seq<char>,
    src1: Seq<char>,
    id1: u64,
    name2: Seq<char>,
    src2: Seq<char>,
    id2: u64,
    tags1: Option<Seq<Seq<char>>>,
    metadata1: Option<Seq<char>>,
    tags2: Option<Seq<Seq<char>>>,
    metadata2: Option<Seq<char>>,
)
    requires
        found_asset(s, name1, src1) is None,
        found_asset(s, name2, src2) is None,
        name1 != name2 || src1 != src2,
    ensures
        ({
            let (l1, a1) = dedup_inserted(s, name1, src1, tags1, metadata1, id1);
            let (l2, a2) = dedup_inserted(l1, name2, src2, tags2, metadata2, id2);
            &&& l2.len() == s.len() + 2
            &&& l2 == s.push(a1).push(a2)
            &&& a1.name != a2.name || a1.src != a2.src
        }),
{
    let p1 = asset_key_pred(name1, src1);
    let p2 = asset_key_pred(name2, src2);
    lemma_first_where(s, p1);
    lemma_first_where(s, p2);
    let a1 = AssetView { id: id1, name: name1, src: src1, tags: tags1, metadata: metadata1 };
    let l1 = s.push(a1);
    assert(forall|j: int| 0 <= j < s.len() ==> l1[j] == s[j]);
    assert(!p2(a1));
    lemma_first_where(l1, p2);
    let k = first_where(l1, p2);
    assert(k == l1.len() as int) by {
        if k < l1.len() {
            if k < s.len() {
                assert(!p2(s[k]));
            } else {
                assert(l1[k] == a1);
            }
        }
    }
    assert(found_asset(l1, name2, src2) is None);
}

/// Removing a board-local asset reference keeps every other asset — same
/// values, same order — removes every reference with the given id, stamps
/// the update time to a value no earlier than the previous one, and touches
/// nothing else on the board.
pub proof fn lemma_remove_board_asset(b: BoardView, asset_id: u64, now: u64)
    requires
        now >= b.updated_at,
    ensures
        ({
            let b2 = board_without_asset(b, asset_id, now);
            &&& b2.updated_at >= b.updated_at
            &&& forall|i: int|
                0 <= i < b2.assets.len() ==> (#[trigger] b2.assets[i]).id != asset_id
                    && b.assets.contains(b2.assets[i])
            &&& forall|i: int|
                0 <= i < b.assets.len() && (#[trigger] b.assets[i]).id != asset_id
                    ==> b2.assets.contains(b.assets[i])
            &&& b2.id == b.id
            &&& b2.name == b.name
            &&& b2.bg_color == b.bg_color
            &&& b2.created_at == b.created_at
            &&& b2.layers == b.layers
            &&& b2.thumbnail == b.thumbnail
            &&& b2.view_state == b.view_state
            &&& b2.strokes == b.strokes
            &&& b2.objects == b.objects
            &&& b2.groups == b.groups
        }),
{
    let b2 = board_without_asset(b, asset_id, now);
    let pred = |a: AssetView| a.id != asset_id;
    assert forall|i: int| 0 <= i < b2.assets.len() implies (#[trigger] b2.assets[i]).id != asset_id
        && b.assets.contains(b2.assets[i]) by {
        Seq::lemma_filter_pred(b.assets, pred, i);
        lemma_filter_elements_come_from(b.assets, pred, i);
    }
    assert forall|i: int|
        0 <= i < b.assets.len() && (#[trigger] b.assets[i]).id != asset_id implies b2.assets.contains(
        b.assets[i]) by {
        Seq::lemma_filter_contains(b.assets, pred, i);
    }
}

/// Every element of a filtered sequence occurs in the original.
proof fn lemma_filter_elements_come_from<T>(s: Seq<T>, pred: spec_fn(T) -> bool, i: int)
    requires
        0 <= i < s.filter(pred).len(),
    ensures
        s.contains(s.filter(pred)[i]),
    decreases s.len(),
{
    reveal(Seq::filter);
    if s.len() > 0 {
        let fs = s.filter(pred);
        let sub = s.drop_last().filter(pred);
        if pred(s.last()) && i == fs.len() - 1 {
            assert(fs[i] == s.last());
            assert(s[s.len() - 1] == s.last());
        } else {
            assert(fs[i] == sub[i]);
            lemma_filter_elements_come_from(s.drop_last(), pred, i);
            let w = choose|w: int| 0 <= w < s.drop_last().len() && s.drop_last()[w] == sub[i];
            assert(s[w] == sub[i]);
        }
    }
}

/// A partial update with no fields set changes the update stamp and
/// nothing else.
pub proof fn lemma_empty_update(b: BoardView, u: BoardUpdateView, now: u64)
    requires
        u.name is None,
        u.bg_color is None,
        u.layers is None,
        u.assets is None,
        u.thumbnail is None,
        u.view_state is None,
        u.strokes is None,
        u.objects is None,
        u.groups is None,
    ensures
        ({
            let b2 = applied_update(b, u, now);
            &&& b2.updated_at == now
            &&& b2.id == b.id
            &&& b2.name == b.name
            &&& b2.bg_color == b.bg_color
            &&& b2.created_at == b.created_at
            &&& b2.layers == b.layers
            &&& b2.assets == b.assets
            &&& b2.thumbnail == b.thumbnail
            &&& b2.view_state == b.view_state
            &&& b2.strokes == b.strokes
            &&& b2.objects == b.objects
            &&& b2.groups == b.groups
        }),
{
}

} // verus!
