//! Sorting tiles into the order of [`crate::order`].

use crate::model::{tiles_view, ExpandedTile, TileView};
use crate::order::{lemma_tile_order_total, tile_order};
use crate::rank::{rank_tiles, Rank};
use crate::seqs::lemma_empty_multiset;
use vstd::prelude::*;
use vstd::relations::{sorted_by, total_ordering};
use vstd::seq_lib::{lemma_multiset_commutative, lemma_sorted_unique, to_multiset_build};

verus! {

/// What each of the tiles that `refs` point to says, in order.
pub open spec fn ref_views(refs: Seq<&ExpandedTile>) -> Seq<TileView> {
    refs.map_values(|t: &ExpandedTile| t@)
}

/// Whether `tiles` are in order.
pub open spec fn sorted(tiles: Seq<TileView>) -> bool {
    sorted_by(tiles, tile_order())
}

/// Any list in order that holds the tiles of `tiles`, each as often as
/// `tiles` does, is `tiles` sorted.
pub proof fn lemma_sorted_is_sort(tiles: Seq<TileView>, ordered: Seq<TileView>)
    requires
        sorted(ordered),
        ordered.to_multiset() == tiles.to_multiset(),
    ensures
        ordered == tiles.sort_by(tile_order()),
{
    lemma_tile_order_total();
    tiles.lemma_sort_by_ensures(tile_order());
    lemma_sorted_unique(ordered, tiles.sort_by(tile_order()), tile_order());
}

/// Points to each of `tiles`, in order.
pub fn refs_of<'a>(tiles: &'a Vec<ExpandedTile>) -> (refs: Vec<&'a ExpandedTile>)
    ensures
        ref_views(refs@) == tiles_view(tiles@),
{
    let mut refs: Vec<&'a ExpandedTile> = Vec::new();
    let mut i: usize = 0;
    while i < tiles.len()
        invariant
            i <= tiles.len(),
            ref_views(refs@) == tiles_view(tiles@.take(i as int)),
        decreases tiles.len() - i,
    {
        let ghost before = ref_views(refs@);
        refs.push(&tiles[i]);
        assert(ref_views(refs@) =~= before.push(tiles@[i as int]@));
        assert(tiles_view(tiles@.take(i + 1)) =~= tiles_view(tiles@.take(i as int)).push(
            tiles@[i as int]@,
        ));
        i += 1;
    }
    assert(tiles@.take(i as int) =~= tiles@);
    refs
}

fn merge<'a>(
    left: &Vec<&'a ExpandedTile>,
    right: &Vec<&'a ExpandedTile>,
) -> (out: Vec<&'a ExpandedTile>)
    requires
        sorted(ref_views(left@)),
        sorted(ref_views(right@)),
    ensures
        sorted(ref_views(out@)),
        ref_views(out@).to_multiset() == ref_views(left@).to_multiset().add(
            ref_views(right@).to_multiset(),
        ),
{
    let ghost le = tile_order();
    let ghost lv = ref_views(left@);
    let ghost rv = ref_views(right@);
    let mut out: Vec<&'a ExpandedTile> = Vec::new();
    let mut i: usize = 0;
    let mut j: usize = 0;
    proof {
        lemma_tile_order_total();
        lemma_empty_multiset::<TileView>();
        assert(ref_views(out@) =~= Seq::empty());
        assert(lv.take(0) =~= Seq::empty());
        assert(rv.take(0) =~= Seq::empty());
    }
    while i < left.len() || j < right.len()
        invariant
            le == tile_order(),
            total_ordering(le),
            lv == ref_views(left@),
            rv == ref_views(right@),
            sorted_by(lv, le),
            sorted_by(rv, le),
            i <= left.len(),
            j <= right.len(),
            sorted_by(ref_views(out@), le),
            ref_views(out@).to_multiset() == lv.take(i as int).to_multiset().add(
                rv.take(j as int).to_multiset(),
            ),
            forall|k: int|
                0 <= k < out.len() && i < left.len() ==> le(
                    #[trigger] ref_views(out@)[k],
                    lv[i as int],
                ),
            forall|k: int|
                0 <= k < out.len() && j < right.len() ==> le(
                    #[trigger] ref_views(out@)[k],
                    rv[j as int],
                ),
        decreases left.len() - i + right.len() - j,
    {
        let ghost ov = ref_views(out@);
        let take_left = if i == left.len() {
            false
        } else if j == right.len() {
            true
        } else {
            match rank_tiles(left[i], right[j]) {
                Rank::Above => false,
                _ => true,
            }
        };
        if take_left {
            let x = left[i];
            out.push(x);
            proof {
                assert(ref_views(out@) =~= ov.push(lv[i as int]));
                assert(lv.take(i + 1) =~= lv.take(i as int).push(lv[i as int]));
                to_multiset_build(ov, lv[i as int]);
                to_multiset_build(lv.take(i as int), lv[i as int]);
                assert(ref_views(out@).to_multiset() =~= lv.take(i + 1).to_multiset().add(
                    rv.take(j as int).to_multiset(),
                ));
                assert(le(lv[i as int], lv[i as int]));
                if j < right.len() {
                    assert(le(lv[i as int], rv[j as int]));
                }
                if i + 1 < left.len() {
                    assert(le(lv[i as int], lv[i + 1]));
                    assert forall|k: int| 0 <= k < out.len() implies le(
                        #[trigger] ref_views(out@)[k],
                        lv[i + 1],
                    ) by {
                        assert(le(ref_views(out@)[k], lv[i as int]));
                    }
                }
            }
            i += 1;
        } else {
            let x = right[j];
            out.push(x);
            proof {
                assert(ref_views(out@) =~= ov.push(rv[j as int]));
                assert(rv.take(j + 1) =~= rv.take(j as int).push(rv[j as int]));
                to_multiset_build(ov, rv[j as int]);
                to_multiset_build(rv.take(j as int), rv[j as int]);
                assert(ref_views(out@).to_multiset() =~= lv.take(i as int).to_multiset().add(
                    rv.take(j + 1).to_multiset(),
                ));
                assert(le(rv[j as int], rv[j as int]));
                if i < left.len() {
                    assert(le(lv[i as int], rv[j as int]) || le(rv[j as int], lv[i as int]));
                    assert(le(rv[j as int], lv[i as int]));
                }
                if j + 1 < right.len() {
                    assert(le(rv[j as int], rv[j + 1]));
                    assert forall|k: int| 0 <= k < out.len() implies le(
                        #[trigger] ref_views(out@)[k],
                        rv[j + 1],
                    ) by {
                        assert(le(ref_views(out@)[k], rv[j as int]));
                    }
                }
            }
            j += 1;
        }
    }
    proof {
        assert(lv.take(i as int) =~= lv);
        assert(rv.take(j as int) =~= rv);
    }
    out
}

/// Sorts the tiles that `refs` point to.
pub fn sort_refs<'a>(refs: Vec<&'a ExpandedTile>) -> (out: Vec<&'a ExpandedTile>)
    ensures
        sorted(ref_views(out@)),
        ref_views(out@).to_multiset() == ref_views(refs@).to_multiset(),
        ref_views(out@) == ref_views(refs@).sort_by(tile_order()),
    decreases refs.len(),
{
    let ghost all = ref_views(refs@);
    if refs.len() <= 1 {
        proof {
            lemma_sorted_is_sort(all, all);
        }
        return refs;
    }
    let mid = refs.len() / 2;
    let mut left = refs;
    let right = left.split_off(mid);
    let ghost lv = ref_views(left@);
    let ghost rv = ref_views(right@);
    proof {
        assert(all =~= lv + rv);
        lemma_multiset_commutative(lv, rv);
    }
    let left_sorted = sort_refs(left);
    let right_sorted = sort_refs(right);
    let out = merge(&left_sorted, &right_sorted);
    proof {
        lemma_sorted_is_sort(all, ref_views(out@));
    }
    out
}

} // verus!
