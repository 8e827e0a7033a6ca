//! The data model of the store: boards, their layers and assets, the
//! metadata projection used by list views, the partial-update record, and
//! the error taxonomy, together with the mathematical views that every
//! contract of this library speaks of.
//!
//! Numeric identities that the front end generates (layer ids, asset ids)
//! and the geometry of a layer are carried as raw 64-bit encodings of the
//! front end's numbers: the store never interprets them, it only compares
//! identities for equality. The caller owns the encoding and decoding.
use vstd::prelude::*;
use vstd::string::StringExecFns;

verus! {

/// A positioned, sized image element within a board. The store treats every
/// field but `id` as opaque payload.
#[derive(Debug, PartialEq)]
pub struct Layer {
    /// Raw encoding of the front end's numeric layer id.
    pub id: u64,
    pub name: String,
    /// Image reference: a data URI or a path.
    pub src: String,
    /// Raw encodings of the front end's numeric position and size.
    pub x: u64,
    pub y: u64,
    pub width: u64,
    pub height: u64,
    /// Defaults to true when absent from stored data, for forward
    /// compatibility with documents written before the field existed.
    pub visible: bool,
}

/// A named image/media reference; exists both as a board-local copy and as
/// an entry in the shared library.
#[derive(Debug, PartialEq)]
pub struct Asset {
    /// Raw encoding of the front end's numeric asset id.
    pub id: u64,
    pub name: String,
    /// Image reference: a data URI or a path.
    pub src: String,
    /// User-curated tag strings; absent on entries written before tags existed.
    pub tags: Option<Vec<String>>,
    /// Opaque JSON text, carried through without interpretation.
    pub metadata: Option<String>,
}

/// A user-created canvas document. One JSON file per board on disk.
#[derive(Debug, PartialEq)]
pub struct Board {
    /// Stable identity, assigned at creation as the epoch-millisecond
    /// timestamp; immutable across renames.
    pub id: u64,
    /// Display name; also drives the on-disk filename, so renaming forces a
    /// file relocation.
    pub name: String,
    pub bg_color: String,
    pub created_at: u64,
    /// Refreshed on every mutating operation.
    pub updated_at: u64,
    /// Insertion order is z-order.
    pub layers: Vec<Layer>,
    /// Board-local copies, independent of the shared library.
    pub assets: Vec<Asset>,
    /// Optional opaque payloads, carried through without interpretation.
    pub thumbnail: Option<String>,
    pub view_state: Option<String>,
    pub strokes: Option<String>,
    pub objects: Option<String>,
    pub groups: Option<String>,
}

/// Projection of a board for list views, so large payloads (layers,
/// strokes) are never carried along just to enumerate boards.
#[derive(Debug, PartialEq)]
pub struct BoardMetadata {
    pub id: u64,
    pub name: String,
    pub bg_color: String,
    pub created_at: u64,
    pub updated_at: u64,
    pub thumbnail: Option<String>,
}

/// A partial-update record: only present fields overwrite the corresponding
/// board field. For fields that the board itself holds as `Option`, a
/// present value always sets it; there is no way to clear one back to
/// absent through an update.
#[derive(Debug, PartialEq)]
pub struct BoardUpdate {
    pub name: Option<String>,
    pub bg_color: Option<String>,
    pub layers: Option<Vec<Layer>>,
    pub assets: Option<Vec<Asset>>,
    pub thumbnail: Option<String>,
    pub view_state: Option<String>,
    pub strokes: Option<String>,
    pub objects: Option<String>,
    pub groups: Option<String>,
}

/// Why a store operation failed. I/O and parse failures arise at the file
/// system edge, outside this core; the core itself only reports a missing
/// board id.
#[derive(Debug, PartialEq)]
pub enum StoreError {
    /// No document with the requested board id exists.
    NotFound { board_id: u64 },
}

/// One slot of the boards directory: a file name together with the board
/// parsed from that file, or `None` where the file did not parse as a
/// board. Such a slot is skipped by every scan, so one corrupt file never
/// blocks a listing.
#[derive(Debug, PartialEq)]
pub struct DirEntry {
    pub file_name: String,
    pub doc: Option<Board>,
}

/// Mathematical value of a `Layer`.
#[verifier::ext_equal]
pub struct LayerView {
    pub id: u64,
    pub name: Seq<char>,
    pub src: Seq<char>,
    pub x: u64,
    pub y: u64,
    pub width: u64,
    pub height: u64,
    pub visible: bool,
}

/// Mathematical value of an `Asset`.
#[verifier::ext_equal]
pub struct AssetView {
    pub id: u64,
    pub name: Seq<char>,
    pub src: Seq<char>,
    pub tags: Option<Seq<Seq<char>>>,
    pub metadata: Option<Seq<char>>,
}

/// Mathematical value of a `Board`.
#[verifier::ext_equal]
pub struct BoardView {
    pub id: u64,
    pub name: Seq<char>,
    pub bg_color: Seq<char>,
    pub created_at: u64,
    pub updated_at: u64,
    pub layers: Seq<LayerView>,
    pub assets: Seq<AssetView>,
    pub thumbnail: Option<Seq<char>>,
    pub view_state: Option<Seq<char>>,
    pub strokes: Option<Seq<char>>,
    pub objects: Option<Seq<char>>,
    pub groups: Option<Seq<char>>,
}

/// Mathematical value of a `BoardMetadata`.
#[verifier::ext_equal]
pub struct BoardMetadataView {
    pub id: u64,
    pub name: Seq<char>,
    pub bg_color: Seq<char>,
    pub created_at: u64,
    pub updated_at: u64,
    pub thumbnail: Option<Seq<char>>,
}

/// Mathematical value of a `BoardUpdate`.
#[verifier::ext_equal]
pub struct BoardUpdateView {
    pub name: Option<Seq<char>>,
    pub bg_color: Option<Seq<char>>,
    pub layers: Option<Seq<LayerView>>,
    pub assets: Option<Seq<AssetView>>,
    pub thumbnail: Option<Seq<char>>,
    pub view_state: Option<Seq<char>>,
    pub strokes: Option<Seq<char>>,
    pub objects: Option<Seq<char>>,
    pub groups: Option<Seq<char>>,
}

/// Mathematical value of a `DirEntry`.
#[verifier::ext_equal]
pub struct DirEntryView {
    pub file_name: Seq<char>,
    pub doc: Option<BoardView>,
}

impl DeepView for Layer {
    type V = LayerView;

    open spec fn deep_view(&self) -> LayerView {
        LayerView {
            id: self.id,
            name: self.name@,
            src: self.src@,
            x: self.x,
            y: self.y,
            width: self.width,
            height: self.height,
            visible: self.visible,
        }
    }
}

impl DeepView for Asset {
    type V = AssetView;

    open spec fn deep_view(&self) -> AssetView {
        AssetView {
            id: self.id,
            name: self.name@,
            src: self.src@,
            tags: self.tags.deep_view(),
            metadata: self.metadata.deep_view(),
        }
    }
}

impl DeepView for Board {
    type V = BoardView;

    open spec fn deep_view(&self) -> BoardView {
        BoardView {
            id: self.id,
            name: self.name@,
            bg_color: self.bg_color@,
            created_at: self.created_at,
            updated_at: self.updated_at,
            layers: self.layers.deep_view(),
            assets: self.assets.deep_view(),
            thumbnail: self.thumbnail.deep_view(),
            view_state: self.view_state.deep_view(),
            strokes: self.strokes.deep_view(),
            objects: self.objects.deep_view(),
            groups: self.groups.deep_view(),
        }
    }
}

impl DeepView for BoardMetadata {
    type V = BoardMetadataView;

    open spec fn deep_view(&self) -> BoardMetadataView {
        BoardMetadataView {
            id: self.id,
            name: self.name@,
            bg_color: self.bg_color@,
            created_at: self.created_at,
            updated_at: self.updated_at,
            thumbnail: self.thumbnail.deep_view(),
        }
    }
}

impl DeepView for BoardUpdate {
    type V = BoardUpdateView;

    open spec fn deep_view(&self) -> BoardUpdateView {
        BoardUpdateView {
            name: self.name.deep_view(),
            bg_color: self.bg_color.deep_view(),
            layers: self.layers.deep_view(),
            assets: self.assets.deep_view(),
            thumbnail: self.thumbnail.deep_view(),
            view_state: self.view_state.deep_view(),
            strokes: self.strokes.deep_view(),
            objects: self.objects.deep_view(),
            groups: self.groups.deep_view(),
        }
    }
}

impl DeepView for DirEntry {
    type V = DirEntryView;

    open spec fn deep_view(&self) -> DirEntryView {
        DirEntryView {
            file_name: self.file_name@,
            doc: self.doc.deep_view(),
        }
    }
}

/// The metadata projection of a board.
pub open spec fn meta_of(b: BoardView) -> BoardMetadataView {
    BoardMetadataView {
        id: b.id,
        name: b.name,
        bg_color: b.bg_color,
        created_at: b.created_at,
        updated_at: b.updated_at,
        thumbnail: b.thumbnail,
    }
}

/// Pushing one element extends a vector's deep view by that element's view.
pub proof fn lemma_push_deep_view<T: DeepView>(pre: Vec<T>, post: Vec<T>, x: T)
    requires
        post@ == pre@.push(x),
    ensures
        post.deep_view() == pre.deep_view().push(x.deep_view()),
{
    assert forall|j: int| 0 <= j < post@.len() implies post.deep_view()[j] == pre.deep_view(
    ).push(x.deep_view())[j] by {
        if j < pre@.len() {
            assert(post@[j] == pre@[j]);
        } else {
            assert(post@[j] == x);
        }
    }
    assert(post.deep_view() =~= pre.deep_view().push(x.deep_view()));
}

/// Overwriting one slot rewrites exactly that slot of the deep view.
pub proof fn lemma_update_deep_view<T: DeepView>(pre: Vec<T>, post: Vec<T>, i: int, x: T)
    requires
        0 <= i < pre@.len(),
        post@ == pre@.update(i, x),
    ensures
        post.deep_view() == pre.deep_view().update(i, x.deep_view()),
{
    assert forall|j: int| 0 <= j < post@.len() implies post.deep_view()[j] == pre.deep_view(
    ).update(i, x.deep_view())[j] by {
        if j != i {
            assert(post@[j] == pre@[j]);
        } else {
            assert(post@[j] == x);
        }
    }
    assert(post.deep_view() =~= pre.deep_view().update(i, x.deep_view()));
}

/// Removing one slot removes exactly that slot of the deep view.
pub proof fn lemma_remove_deep_view<T: DeepView>(pre: Vec<T>, post: Vec<T>, i: int)
    requires
        0 <= i < pre@.len(),
        post@ == pre@.remove(i),
    ensures
        post.deep_view() == pre.deep_view().remove(i),
{
    assert forall|j: int| 0 <= j < post@.len() implies post.deep_view()[j] == pre.deep_view(
    ).remove(i)[j] by {
        if j < i {
            assert(post@[j] == pre@[j]);
        } else {
            assert(post@[j] == pre@[j + 1]);
        }
    }
    assert(post.deep_view() =~= pre.deep_view().remove(i));
}

/// A `visible` field absent from a stored layer document reads as true.
pub fn default_visible() -> (b: bool)
    ensures
        b,
{
    true
}

impl Clone for Layer {
    fn clone(&self) -> (r: Self)
        ensures
            r.deep_view() == self.deep_view(),
    {
        Layer {
            id: self.id,
            name: self.name.clone(),
            src: self.src.clone(),
            x: self.x,
            y: self.y,
            width: self.width,
            height: self.height,
            visible: self.visible,
        }
    }
}

fn clone_string_opt(o: &Option<String>) -> (r: Option<String>)
    ensures
        r.deep_view() == o.deep_view(),
{
    match o {
        Some(s) => Some(s.clone()),
        None => None,
    }
}

fn clone_strings(v: &Vec<String>) -> (r: Vec<String>)
    ensures
        r.deep_view() == v.deep_view(),
{
    let mut out: Vec<String> = Vec::new();
    let n = v.len();
    for i in 0..n
        invariant
            n == v.len(),
            out.deep_view() == v.deep_view().take(i as int),
    {
        let x = v[i].clone();
        let ghost pre = out;
        let ghost gx = x;
        out.push(x);
        proof {
            lemma_push_deep_view(pre, out, gx);
            assert(gx.deep_view() == v.deep_view()[i as int]);
            assert(v.deep_view().take(i + 1) =~= pre.deep_view().push(gx.deep_view()));
        }
    }
    proof {
        assert(v.deep_view().take(n as int) =~= v.deep_view());
    }
    out
}

impl Clone for Asset {
    fn clone(&self) -> (r: Self)
        ensures
            r.deep_view() == self.deep_view(),
    {
        let tags = match &self.tags {
            Some(t) => Some(clone_strings(t)),
            None => None,
        };
        let r = Asset {
            id: self.id,
            name: self.name.clone(),
            src: self.src.clone(),
            tags,
            metadata: clone_string_opt(&self.metadata),
        };
        proof {
            assert(r.deep_view() =~= self.deep_view());
        }
        r
    }
}

fn clone_layers(v: &Vec<Layer>) -> (r: Vec<Layer>)
    ensures
        r.deep_view() == v.deep_view(),
{
    let mut out: Vec<Layer> = Vec::new();
    let n = v.len();
    for i in 0..n
        invariant
            n == v.len(),
            out.deep_view() == v.deep_view().take(i as int),
    {
        let x = v[i].clone();
        let ghost pre = out;
        let ghost gx = x;
        out.push(x);
        proof {
            lemma_push_deep_view(pre, out, gx);
            assert(gx.deep_view() == v.deep_view()[i as int]);
            assert(v.deep_view().take(i + 1) =~= pre.deep_view().push(gx.deep_view()));
        }
    }
    proof {
        assert(v.deep_view().take(n as int) =~= v.deep_view());
    }
    out
}

fn clone_assets(v: &Vec<Asset>) -> (r: Vec<Asset>)
    ensures
        r.deep_view() == v.deep_view(),
{
    let mut out: Vec<Asset> = Vec::new();
    let n = v.len();
    for i in 0..n
        invariant
            n == v.len(),
            out.deep_view() == v.deep_view().take(i as int),
    {
        let x = v[i].clone();
        let ghost pre = out;
        let ghost gx = x;
        out.push(x);
        proof {
            lemma_push_deep_view(pre, out, gx);
            assert(gx.deep_view() == v.deep_view()[i as int]);
            assert(v.deep_view().take(i + 1) =~= pre.deep_view().push(gx.deep_view()));
        }
    }
    proof {
        assert(v.deep_view().take(n as int) =~= v.deep_view());
    }
    out
}

impl Clone for Board {
    fn clone(&self) -> (r: Self)
        ensures
            r.deep_view() == self.deep_view(),
    {
        let r = Board {
            id: self.id,
            name: self.name.clone(),
            bg_color: self.bg_color.clone(),
            created_at: self.created_at,
            updated_at: self.updated_at,
            layers: clone_layers(&self.layers),
            assets: clone_assets(&self.assets),
            thumbnail: clone_string_opt(&self.thumbnail),
            view_state: clone_string_opt(&self.view_state),
            strokes: clone_string_opt(&self.strokes),
            objects: clone_string_opt(&self.objects),
            groups: clone_string_opt(&self.groups),
        };
        proof {
            assert(r.deep_view() =~= self.deep_view());
        }
        r
    }
}

impl Clone for BoardMetadata {
    fn clone(&self) -> (r: Self)
        ensures
            r.deep_view() == self.deep_view(),
    {
        BoardMetadata {
            id: self.id,
            name: self.name.clone(),
            bg_color: self.bg_color.clone(),
            created_at: self.created_at,
            updated_at: self.updated_at,
            thumbnail: clone_string_opt(&self.thumbnail),
        }
    }
}

/// The descriptive text a missing board id is reported with.
pub open spec fn not_found_message(id: u64) -> Seq<char> {
    "Board "@ + crate::filename::dec_digits(id as int) + " not found"@
}

impl StoreError {
    /// The board id the error reports as missing.
    pub fn missing_board_id(&self) -> (r: u64)
        ensures
            self matches StoreError::NotFound { board_id } && r == board_id,
    {
        match self {
            StoreError::NotFound { board_id } => *board_id,
        }
    }

    /// The error as the descriptive message callers report.
    pub fn message(&self) -> (r: String)
        ensures
            self matches StoreError::NotFound { board_id } && r@ == not_found_message(*board_id),
    {
        match self {
            StoreError::NotFound { board_id } => {
                let mut s = String::from_str("Board ");
                let digits = crate::filename::decimal_string(*board_id);
                s.append(digits.as_str());
                s.append(" not found");
                proof {
                    assert(s@ =~= not_found_message(*board_id));
                }
                s
            },
        }
    }
}

} // verus!
