//! The board store: a durable mapping from board id to board document,
//! materialized as one file per board in a dedicated directory, named
//! deterministically from the board's current name and id.
//!
//! The verified core works on the directory as an in-memory sequence of
//! entries (file name plus the board parsed from that file, if it parsed).
//! Mutating operations rewrite that sequence and return a plan — which file
//! to delete, which to write — that the caller mirrors on disk.
use vstd::prelude::*;

use crate::assets::without_asset;
use crate::filename::{board_file_name, board_file_name_spec};
use crate::scan::{first_where, lemma_first_where};
use crate::types::{
    Board, BoardMetadata, BoardUpdate, BoardUpdateView, BoardView, DirEntry, DirEntryView,
    StoreError, lemma_push_deep_view, lemma_remove_deep_view, lemma_update_deep_view, meta_of,
};

verus! {

/// Whether a directory entry holds a parsed board with the given id.
pub open spec fn entry_has_id(e: DirEntryView, id: u64) -> bool {
    e.doc matches Some(b) && b.id == id
}

/// The scan test for a board id.
pub open spec fn id_pred(id: u64) -> spec_fn(DirEntryView) -> bool {
    |e: DirEntryView| entry_has_id(e, id)
}

/// Whether some entry of the directory holds a parsed board with the id.
pub open spec fn has_board(s: Seq<DirEntryView>, id: u64) -> bool {
    first_where(s, id_pred(id)) < s.len()
}

/// The first parsed board with the given id, in directory order.
pub open spec fn found_board(s: Seq<DirEntryView>, id: u64) -> Option<BoardView> {
    let k = first_where(s, id_pred(id));
    if k < s.len() {
        s[k].doc
    } else {
        None
    }
}

/// The file name of the first entry holding a board with the given id.
pub open spec fn found_file(s: Seq<DirEntryView>, id: u64) -> Option<Seq<char>> {
    let k = first_where(s, id_pred(id));
    if k < s.len() {
        Some(s[k].file_name)
    } else {
        None
    }
}

/// The metadata projection of every parsed entry, in directory order;
/// entries that did not parse are skipped.
pub open spec fn metadata_of_entries(s: Seq<DirEntryView>) -> Seq<crate::types::BoardMetadataView>
    decreases s.len(),
{
    if s.len() == 0 {
        Seq::empty()
    } else {
        let rest = metadata_of_entries(s.drop_last());
        match s.last().doc {
            Some(b) => rest.push(meta_of(b)),
            None => rest,
        }
    }
}

/// A stale entry under a save: it stores the same board id under a
/// different name, so its file encodes an outdated name and must go.
pub open spec fn stale_pred(b: BoardView) -> spec_fn(DirEntryView) -> bool {
    |e: DirEntryView| e.doc matches Some(d) && d.id == b.id && d.name != b.name
}

/// The file a save deletes: the first stale entry's, if any.
pub open spec fn stale_file(s: Seq<DirEntryView>, b: BoardView) -> Option<Seq<char>> {
    let k = first_where(s, stale_pred(b));
    if k < s.len() {
        Some(s[k].file_name)
    } else {
        None
    }
}

/// The directory after the save's rename-detection pass: the first stale
/// entry removed, or unchanged when none is stale.
pub open spec fn drop_stale(s: Seq<DirEntryView>, b: BoardView) -> Seq<DirEntryView> {
    let k = first_where(s, stale_pred(b));
    if k < s.len() {
        s.remove(k)
    } else {
        s
    }
}

/// The scan test for a file name.
pub open spec fn named_pred(fname: Seq<char>) -> spec_fn(DirEntryView) -> bool {
    |e: DirEntryView| e.file_name == fname
}

/// The directory after writing the board at the given file name: the first
/// entry under that name is overwritten, or a new entry appended.
pub open spec fn upserted(s: Seq<DirEntryView>, fname: Seq<char>, b: BoardView) -> Seq<
    DirEntryView,
> {
    let e = DirEntryView { file_name: fname, doc: Some(b) };
    let k = first_where(s, named_pred(fname));
    if k < s.len() {
        s.update(k, e)
    } else {
        s.push(e)
    }
}

/// The whole effect of saving a board: drop the first stale entry, then
/// write the document at its canonical file name.
pub open spec fn saved_dir(s: Seq<DirEntryView>, b: BoardView) -> Seq<DirEntryView> {
    upserted(drop_stale(s, b), board_file_name_spec(b.name, b.id), b)
}

/// The directory after deleting a board by id: the first entry holding the
/// id removed, or unchanged when the id is absent.
pub open spec fn deleted_dir(s: Seq<DirEntryView>, id: u64) -> Seq<DirEntryView> {
    let k = first_where(s, id_pred(id));
    if k < s.len() {
        s.remove(k)
    } else {
        s
    }
}

/// A freshly created board: empty layers and assets, no optional payloads,
/// both timestamps the creation time, which also serves as the id.
pub open spec fn new_board(name: Seq<char>, bg_color: Seq<char>, now: u64) -> BoardView {
    BoardView {
        id: now,
        name: name,
        bg_color: bg_color,
        created_at: now,
        updated_at: now,
        layers: Seq::empty(),
        assets: Seq::empty(),
        thumbnail: None,
        view_state: None,
        strokes: None,
        objects: None,
        groups: None,
    }
}

/// A board after a partial update: present fields overwrite, absent fields
/// leave the board unchanged, the id and creation time never change, and
/// the update time is stamped.
pub open spec fn applied_update(b: BoardView, u: BoardUpdateView, now: u64) -> BoardView {
    BoardView {
        id: b.id,
        name: if u.name is Some {
            u.name->Some_0
        } else {
            b.name
        },
        bg_color: if u.bg_color is Some {
            u.bg_color->Some_0
        } else {
            b.bg_color
        },
        created_at: b.created_at,
        updated_at: now,
        layers: if u.layers is Some {
            u.layers->Some_0
        } else {
            b.layers
        },
        assets: if u.assets is Some {
            u.assets->Some_0
        } else {
            b.assets
        },
        thumbnail: if u.thumbnail is Some {
            u.thumbnail
        } else {
            b.thumbnail
        },
        view_state: if u.view_state is Some {
            u.view_state
        } else {
            b.view_state
        },
        strokes: if u.strokes is Some {
            u.strokes
        } else {
            b.strokes
        },
        objects: if u.objects is Some {
            u.objects
        } else {
            b.objects
        },
        groups: if u.groups is Some {
            u.groups
        } else {
            b.groups
        },
    }
}

/// A board after removing one board-local asset reference: assets with the
/// given id filtered out, the update time stamped, everything else kept.
pub open spec fn board_without_asset(b: BoardView, asset_id: u64, now: u64) -> BoardView {
    BoardView {
        id: b.id,
        name: b.name,
        bg_color: b.bg_color,
        created_at: b.created_at,
        updated_at: now,
        layers: b.layers,
        assets: without_asset(b.assets, asset_id),
        thumbnail: b.thumbnail,
        view_state: b.view_state,
        strokes: b.strokes,
        objects: b.objects,
        groups: b.groups,
    }
}

/// What the caller must mirror on disk after a mutating board operation:
/// delete `remove_file` if set, then write the board's document at
/// `write_file`.
#[derive(Debug, PartialEq)]
pub struct SavePlan {
    pub remove_file: Option<String>,
    pub write_file: String,
}

/// Index of the first entry holding a board with the given id.
fn find_by_id(entries: &Vec<DirEntry>, id: u64) -> (r: Option<usize>)
    ensures
        ({
            let k = first_where(entries.deep_view(), id_pred(id));
            match r {
                Some(i) => k == i && i < entries@.len(),
                None => k == entries.deep_view().len(),
            }
        }),
{
    let ghost s0 = entries.deep_view();
    let ghost p = id_pred(id);
    let n = entries.len();
    for i in 0..n
        invariant
            n == entries@.len(),
            s0 == entries.deep_view(),
            p == id_pred(id),
            forall|j: int| 0 <= j < i ==> !#[trigger] p(s0[j]),
    {
        proof {
            assert(s0[i as int] == entries@[i as int].deep_view());
        }
        let hit = match &entries[i].doc {
            Some(d) => d.id == id,
            None => false,
        };
        if hit {
            proof {
                assert(p(s0[i as int]));
                lemma_first_where(s0, p);
                assert(first_where(s0, p) == i);
            }
            return Some(i);
        }
        proof {
            assert(!p(s0[i as int]));
        }
    }
    proof {
        lemma_first_where(s0, p);
    }
    None
}

/// Index of the first stale entry under a save of this board.
fn find_stale(entries: &Vec<DirEntry>, board: &Board) -> (r: Option<usize>)
    ensures
        ({
            let k = first_where(entries.deep_view(), stale_pred(board.deep_view()));
            match r {
                Some(i) => k == i && i < entries@.len(),
                None => k == entries.deep_view().len(),
            }
        }),
{
    let ghost s0 = entries.deep_view();
    let ghost p = stale_pred(board.deep_view());
    let n = entries.len();
    for i in 0..n
        invariant
            n == entries@.len(),
            s0 == entries.deep_view(),
            p == stale_pred(board.deep_view()),
            forall|j: int| 0 <= j < i ==> !#[trigger] p(s0[j]),
    {
        proof {
            assert(s0[i as int] == entries@[i as int].deep_view());
        }
        let hit = match &entries[i].doc {
            Some(d) => d.id == board.id && !(d.name == board.name),
            None => false,
        };
        if hit {
            proof {
                assert(p(s0[i as int]));
                lemma_first_where(s0, p);
                assert(first_where(s0, p) == i);
            }
            return Some(i);
        }
        proof {
            assert(!p(s0[i as int]));
        }
    }
    proof {
        lemma_first_where(s0, p);
    }
    None
}

/// Index of the first entry stored under the given file name.
fn find_named(entries: &Vec<DirEntry>, fname: &String) -> (r: Option<usize>)
    ensures
        ({
            let k = first_where(entries.deep_view(), named_pred(fname@));
            match r {
                Some(i) => k == i && i < entries@.len(),
                None => k == entries.deep_view().len(),
            }
        }),
{
    let ghost s0 = entries.deep_view();
    let ghost p = named_pred(fname@);
    let n = entries.len();
    for i in 0..n
        invariant
            n == entries@.len(),
            s0 == entries.deep_view(),
            p == named_pred(fname@),
            forall|j: int| 0 <= j < i ==> !#[trigger] p(s0[j]),
    {
        proof {
            assert(s0[i as int] == entries@[i as int].deep_view());
        }
        if entries[i].file_name == *fname {
            proof {
                assert(p(s0[i as int]));
                lemma_first_where(s0, p);
                assert(first_where(s0, p) == i);
            }
            return Some(i);
        }
        proof {
            assert(!p(s0[i as int]));
        }
    }
    proof {
        lemma_first_where(s0, p);
    }
    None
}

/// List the metadata projection of every board that parses, in directory
/// order; entries that did not parse as boards are silently skipped, so one
/// corrupt file never blocks the whole listing.
pub fn load_all_boards(entries: &Vec<DirEntry>) -> (r: Vec<BoardMetadata>)
    ensures
        r.deep_view() == metadata_of_entries(entries.deep_view()),
{
    let ghost s0 = entries.deep_view();
    let mut out: Vec<BoardMetadata> = Vec::new();
    let n = entries.len();
    for i in 0..n
        invariant
            n == entries@.len(),
            s0 == entries.deep_view(),
            out.deep_view() == metadata_of_entries(s0.take(i as int)),
    {
        proof {
            assert(s0[i as int] == entries@[i as int].deep_view());
        }
        match &entries[i].doc {
            Some(b) => {
                let c = b.clone();
                let m = BoardMetadata {
                    id: c.id,
                    name: c.name,
                    bg_color: c.bg_color,
                    created_at: c.created_at,
                    updated_at: c.updated_at,
                    thumbnail: c.thumbnail,
                };
                let ghost pre = out;
                let ghost gm = m;
                out.push(m);
                proof {
                    lemma_push_deep_view(pre, out, gm);
                    assert(gm.deep_view() =~= meta_of(s0[i as int].doc->Some_0));
                }
            },
            None => {},
        }
        proof {
            assert(s0.take(i + 1).drop_last() =~= s0.take(i as int));
            assert(s0.take(i + 1).last() == s0[i as int]);
            assert(out.deep_view() =~= metadata_of_entries(s0.take(i + 1)));
        }
    }
    proof {
        assert(s0.take(n as int) =~= s0);
    }
    out
}

/// Load the first board with the given id, scanning the directory in
/// order; every id present in some parsed entry is found, and a missing id
/// is reported as `NotFound`.
pub fn load_board(entries: &Vec<DirEntry>, id: u64) -> (r: Result<Board, StoreError>)
    ensures
        match r {
            Ok(b) => {
                &&& has_board(entries.deep_view(), id)
                &&& found_board(entries.deep_view(), id) == Some(b.deep_view())
                &&& b.id == id
            },
            Err(e) => {
                &&& !has_board(entries.deep_view(), id)
                &&& e == (StoreError::NotFound { board_id: id })
            },
        },
{
    let ghost s0 = entries.deep_view();
    match find_by_id(entries, id) {
        Some(i) => {
            match &entries[i].doc {
                Some(d) => {
                    let b = d.clone();
                    proof {
                        lemma_first_where(s0, id_pred(id));
                        assert(s0[i as int] == entries@[i as int].deep_view());
                        assert(found_board(s0, id) == Some(b.deep_view()));
                    }
                    Ok(b)
                },
                None => {
                    proof {
                        lemma_first_where(s0, id_pred(id));
                        assert(s0[i as int] == entries@[i as int].deep_view());
                        assert(entry_has_id(s0[i as int], id));
                        assert(false);
                    }
                    Err(StoreError::NotFound { board_id: id })
                },
            }
        },
        None => Err(StoreError::NotFound { board_id: id }),
    }
}

/// Save a board: delete the first file that stores the same id under a
/// different name (a rename orphans its old file), then write the full
/// document at the canonical file name derived from the current name and
/// id, overwriting any file already there. Returns the plan the caller
/// mirrors on disk.
pub fn save_board(entries: &mut Vec<DirEntry>, board: &Board) -> (plan: SavePlan)
    ensures
        final(entries).deep_view() == saved_dir(old(entries).deep_view(), board.deep_view()),
        plan.remove_file.deep_view() == stale_file(old(entries).deep_view(), board.deep_view()),
        plan.write_file@ == board_file_name_spec(board.name@, board.id),
{
    let ghost s0 = entries.deep_view();
    let ghost bv = board.deep_view();
    let remove_file: Option<String> = match find_stale(entries, board) {
        Some(i) => {
            let ghost pre = *entries;
            let e = entries.remove(i);
            proof {
                lemma_remove_deep_view(pre, *entries, i as int);
                assert(e.deep_view() == s0[i as int]);
            }
            Some(e.file_name)
        },
        None => None,
    };
    let ghost s1 = entries.deep_view();
    proof {
        assert(s1 == drop_stale(s0, bv));
    }
    let fname = board_file_name(board.name.as_str(), board.id);
    let doc = board.clone();
    let entry = DirEntry { file_name: fname.clone(), doc: Some(doc) };
    proof {
        assert(entry.deep_view() =~= (DirEntryView {
            file_name: board_file_name_spec(bv.name, bv.id),
            doc: Some(bv),
        }));
    }
    match find_named(entries, &fname) {
        Some(i) => {
            let ghost pre = *entries;
            let ghost ge = entry;
            entries.set(i, entry);
            proof {
                lemma_update_deep_view(pre, *entries, i as int, ge);
            }
        },
        None => {
            let ghost pre = *entries;
            let ghost ge = entry;
            entries.push(entry);
            proof {
                lemma_push_deep_view(pre, *entries, ge);
            }
        },
    }
    SavePlan { remove_file, write_file: fname }
}

/// Create a board: fresh empty board whose id and both timestamps are the
/// caller's current time, saved into the directory.
pub fn create_board(
    entries: &mut Vec<DirEntry>,
    name: String,
    bg_color: String,
    now: u64,
) -> (r: (Board, SavePlan))
    ensures
        r.0.deep_view() == new_board(name@, bg_color@, now),
        final(entries).deep_view() == saved_dir(
            old(entries).deep_view(),
            new_board(name@, bg_color@, now),
        ),
        r.1.remove_file.deep_view() == stale_file(
            old(entries).deep_view(),
            new_board(name@, bg_color@, now),
        ),
        r.1.write_file@ == board_file_name_spec(name@, now),
{
    let board = Board {
        id: now,
        name,
        bg_color,
        created_at: now,
        updated_at: now,
        layers: Vec::new(),
        assets: Vec::new(),
        thumbnail: None,
        view_state: None,
        strokes: None,
        objects: None,
        groups: None,
    };
    proof {
        assert(board.deep_view() =~= new_board(board.name@, board.bg_color@, now));
    }
    let plan = save_board(entries, &board);
    (board, plan)
}

/// Apply a partial update to the board with the given id and re-save it:
/// only present fields overwrite, `updatedAt` is stamped with the caller's
/// current time, and a rename relocates the file. A missing id changes
/// nothing and is reported as `NotFound`.
pub fn update_board(
    entries: &mut Vec<DirEntry>,
    id: u64,
    updates: BoardUpdate,
    now: u64,
) -> (r: Result<(Board, SavePlan), StoreError>)
    ensures
        match r {
            Ok(p) => {
                &&& has_board(old(entries).deep_view(), id)
                &&& ({
                    let b = found_board(old(entries).deep_view(), id)->Some_0;
                    let b2 = applied_update(b, updates.deep_view(), now);
                    &&& p.0.deep_view() == b2
                    &&& final(entries).deep_view() == saved_dir(old(entries).deep_view(), b2)
                    &&& p.1.remove_file.deep_view() == stale_file(old(entries).deep_view(), b2)
                    &&& p.1.write_file@ == board_file_name_spec(b2.name, id)
                })
            },
            Err(e) => {
                &&& !has_board(old(entries).deep_view(), id)
                &&& *final(entries) == *old(entries)
                &&& e == (StoreError::NotFound { board_id: id })
            },
        },
{
    let ghost s0 = entries.deep_view();
    let mut board = match load_board(entries, id) {
        Ok(b) => b,
        Err(e) => {
            return Err(e);
        },
    };
    let ghost b0 = board.deep_view();
    let BoardUpdate {
        name,
        bg_color,
        layers,
        assets,
        thumbnail,
        view_state,
        strokes,
        objects,
        groups,
    } = updates;
    match name {
        Some(v) => {
            board.name = v;
        },
        None => {},
    }
    match bg_color {
        Some(v) => {
            board.bg_color = v;
        },
        None => {},
    }
    match layers {
        Some(v) => {
            board.layers = v;
        },
        None => {},
    }
    match assets {
        Some(v) => {
            board.assets = v;
        },
        None => {},
    }
    match thumbnail {
        Some(v) => {
            board.thumbnail = Some(v);
        },
        None => {},
    }
    match view_state {
        Some(v) => {
            board.view_state = Some(v);
        },
        None => {},
    }
    match strokes {
        Some(v) => {
            board.strokes = Some(v);
        },
        None => {},
    }
    match objects {
        Some(v) => {
            board.objects = Some(v);
        },
        None => {},
    }
    match groups {
        Some(v) => {
            board.groups = Some(v);
        },
        None => {},
    }
    board.updated_at = now;
    proof {
        assert(board.deep_view() =~= applied_update(b0, updates.deep_view(), now));
    }
    let plan = save_board(entries, &board);
    Ok((board, plan))
}

/// Delete the first file storing the given board id and return its file
/// name for the caller to unlink; a missing id changes nothing and is
/// reported as `NotFound`.
pub fn delete_board(entries: &mut Vec<DirEntry>, id: u64) -> (r: Result<String, StoreError>)
    ensures
        final(entries).deep_view() == deleted_dir(old(entries).deep_view(), id),
        match r {
            Ok(f) => {
                &&& has_board(old(entries).deep_view(), id)
                &&& found_file(old(entries).deep_view(), id) == Some(f@)
            },
            Err(e) => {
                &&& !has_board(old(entries).deep_view(), id)
                &&& *final(entries) == *old(entries)
                &&& e == (StoreError::NotFound { board_id: id })
            },
        },
{
    let ghost s0 = entries.deep_view();
    match find_by_id(entries, id) {
        Some(i) => {
            let ghost pre = *entries;
            let e = entries.remove(i);
            proof {
                lemma_remove_deep_view(pre, *entries, i as int);
                assert(e.deep_view() == s0[i as int]);
            }
            Ok(e.file_name)
        },
        None => Err(StoreError::NotFound { board_id: id }),
    }
}

/// Remove one board-local asset reference: load the board, filter its
/// assets to exclude the given asset id, stamp `updatedAt`, save, and
/// return the updated board. A missing board id changes nothing and is
/// reported as `NotFound`.
pub fn delete_board_asset(
    entries: &mut Vec<DirEntry>,
    board_id: u64,
    asset_id: u64,
    now: u64,
) -> (r: Result<(Board, SavePlan), StoreError>)
    ensures
        match r {
            Ok(p) => {
                &&& has_board(old(entries).deep_view(), board_id)
                &&& ({
                    let b = found_board(old(entries).deep_view(), board_id)->Some_0;
                    let b2 = board_without_asset(b, asset_id, now);
                    &&& p.0.deep_view() == b2
                    &&& final(entries).deep_view() == saved_dir(old(entries).deep_view(), b2)
                    &&& p.1.remove_file.deep_view() == stale_file(old(entries).deep_view(), b2)
                    &&& p.1.write_file@ == board_file_name_spec(b2.name, board_id)
                })
            },
            Err(e) => {
                &&& !has_board(old(entries).deep_view(), board_id)
                &&& *final(entries) == *old(entries)
                &&& e == (StoreError::NotFound { board_id: board_id })
            },
        },
{
    let ghost s0 = entries.deep_view();
    let mut board = match load_board(entries, board_id) {
        Ok(b) => b,
        Err(e) => {
            return Err(e);
        },
    };
    let ghost b0 = board.deep_view();
    crate::assets::delete_from_all_assets(&mut board.assets, asset_id);
    board.updated_at = now;
    proof {
        assert(board.deep_view() =~= board_without_asset(b0, asset_id, now));
    }
    let plan = save_board(entries, &board);
    Ok((board, plan))
}

} // verus!
