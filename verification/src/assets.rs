//! The shared asset library: one persisted document holding the full asset
//! array. Insertion deduplicates on the exact `(name, src)` pair; deletion
//! is id-filtered and idempotent; an update replaces the entry with the
//! matching id in place and silently does nothing when no entry matches.
//!
//! Every operation works on the in-memory array; the caller persists the
//! whole document afterwards.
use vstd::prelude::*;

use crate::scan::{first_where, lemma_first_where};
use crate::types::{Asset, AssetView, lemma_push_deep_view, lemma_update_deep_view};

verus! {

/// The dedup key test: an exact match on both `name` and `src`.
pub open spec fn asset_key_pred(name: Seq<char>, src: Seq<char>) -> spec_fn(AssetView) -> bool {
    |a: AssetView| a.name == name && a.src == src
}

/// The first entry whose `(name, src)` pair matches exactly, if any.
pub open spec fn found_asset(s: Seq<AssetView>, name: Seq<char>, src: Seq<char>) -> Option<
    AssetView,
> {
    let k = first_where(s, asset_key_pred(name, src));
    if k < s.len() {
        Some(s[k])
    } else {
        None
    }
}

/// The library and the returned entry after a dedup insert: an existing
/// `(name, src)` match is returned unchanged (even if the caller supplied
/// different tags or metadata); otherwise a fresh entry with the given id
/// is appended.
pub open spec fn dedup_inserted(
    s: Seq<AssetView>,
    name: Seq<char>,
    src: Seq<char>,
    tags: Option<Seq<Seq<char>>>,
    metadata: Option<Seq<char>>,
    new_id: u64,
) -> (Seq<AssetView>, AssetView) {
    match found_asset(s, name, src) {
        Some(a) => (s, a),
        None => {
            let a = AssetView { id: new_id, name, src, tags, metadata };
            (s.push(a), a)
        },
    }
}

/// The library without every entry of the given id; unchanged when the id
/// is absent.
pub open spec fn without_asset(s: Seq<AssetView>, id: u64) -> Seq<AssetView> {
    s.filter(|a: AssetView| a.id != id)
}

/// The library with every entry of the replacement's id replaced by the
/// replacement, in place; unchanged where no entry matches.
pub open spec fn replace_asset(s: Seq<AssetView>, a: AssetView) -> Seq<AssetView> {
    Seq::new(s.len(), |i: int| if s[i].id == a.id { a } else { s[i] })
}

/// Insert into the shared library with `(name, src)` deduplication: return
/// the existing exact match unchanged if there is one, else append a fresh
/// entry under the caller's new id and return it. The caller supplies the
/// id (epoch milliseconds at call time, in the front end's encoding).
pub fn add_to_all_assets(
    assets: &mut Vec<Asset>,
    name: String,
    src: String,
    tags: Option<Vec<String>>,
    metadata: Option<String>,
    new_id: u64,
) -> (r: Asset)
    ensures
        final(assets).deep_view() == dedup_inserted(
            old(assets).deep_view(),
            name@,
            src@,
            tags.deep_view(),
            metadata.deep_view(),
            new_id,
        ).0,
        r.deep_view() == dedup_inserted(
            old(assets).deep_view(),
            name@,
            src@,
            tags.deep_view(),
            metadata.deep_view(),
            new_id,
        ).1,
{
    let ghost s0 = assets.deep_view();
    let ghost p = asset_key_pred(name@, src@);
    let n = assets.len();
    for i in 0..n
        invariant
            n == assets.len(),
            *assets == *old(assets),
            s0 == assets.deep_view(),
            p == asset_key_pred(name@, src@),
            forall|j: int| 0 <= j < i ==> !#[trigger] p(s0[j]),
    {
        if assets[i].name == name && assets[i].src == src {
            let r = assets[i].clone();
            proof {
                assert(s0[i as int] == assets@[i as int].deep_view());
                assert(p(s0[i as int]));
                lemma_first_where(s0, p);
                assert(first_where(s0, p) == i);
            }
            return r;
        }
        proof {
            assert(s0[i as int] == assets@[i as int].deep_view());
            assert(!p(s0[i as int]));
        }
    }
    proof {
        lemma_first_where(s0, p);
        assert(first_where(s0, p) == s0.len());
    }
    let a = Asset { id: new_id, name, src, tags, metadata };
    let r = a.clone();
    let ghost pre = *assets;
    let ghost ga = a;
    assets.push(a);
    proof {
        lemma_push_deep_view(pre, *assets, ga);
        assert(ga.deep_view() =~= dedup_inserted(
            s0,
            ga.name@,
            ga.src@,
            ga.tags.deep_view(),
            ga.metadata.deep_view(),
            new_id,
        ).1);
    }
    r
}

/// Remove every library entry with the given id and nothing else; absent
/// ids make this a no-op, so deletion is idempotent.
pub fn delete_from_all_assets(assets: &mut Vec<Asset>, id: u64)
    ensures
        final(assets).deep_view() == without_asset(old(assets).deep_view(), id),
{
    let ghost s0 = assets.deep_view();
    let mut out: Vec<Asset> = Vec::new();
    let n = assets.len();
    proof {
        reveal(Seq::filter);
    }
    for i in 0..n
        invariant
            n == assets.len(),
            *assets == *old(assets),
            s0 == assets.deep_view(),
            out.deep_view() == without_asset(s0.take(i as int), id),
    {
        proof {
            assert(s0[i as int] == assets@[i as int].deep_view());
        }
        if assets[i].id != id {
            let x = assets[i].clone();
            let ghost pre = out;
            let ghost gx = x;
            out.push(x);
            proof {
                lemma_push_deep_view(pre, out, gx);
            }
        }
        proof {
            reveal(Seq::filter);
            assert(s0.take(i + 1).drop_last() =~= s0.take(i as int));
            assert(s0.take(i + 1).last() == s0[i as int]);
            assert(out.deep_view() =~= without_asset(s0.take(i + 1), id));
        }
    }
    proof {
        assert(s0.take(n as int) =~= s0);
    }
    *assets = out;
}

/// Replace the library entry whose id matches the given asset with that
/// asset, in place. An id with no match leaves the library unchanged and is
/// not reported as a failure.
pub fn update_asset(assets: &mut Vec<Asset>, asset: Asset)
    ensures
        final(assets).deep_view() == replace_asset(old(assets).deep_view(), asset.deep_view()),
{
    let ghost s0 = assets.deep_view();
    let ghost av = asset.deep_view();
    let n = assets.len();
    for i in 0..n
        invariant
            n == assets.len(),
            assets@.len() == s0.len(),
            av == asset.deep_view(),
            forall|j: int|
                i <= j < s0.len() ==> #[trigger] assets.deep_view()[j] == s0[j],
            forall|j: int|
                0 <= j < i ==> #[trigger] assets.deep_view()[j] == replace_asset(s0, av)[j],
    {
        proof {
            assert(assets.deep_view()[i as int] == assets@[i as int].deep_view());
        }
        if assets[i].id == asset.id {
            let x = asset.clone();
            let ghost pre = *assets;
            let ghost gx = x;
            assets.set(i, x);
            proof {
                lemma_update_deep_view(pre, *assets, i as int, gx);
            }
        }
    }
    proof {
        assert(assets.deep_view() =~= replace_asset(s0, av));
    }
}

} // verus!
