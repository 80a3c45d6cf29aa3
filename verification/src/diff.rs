//! Comparing two expanded tilesets: the ids that a tileset uses twice, the
//! ids that only one of them has, and the ids whose tiles differ.

use crate::atlas::TileAtlas;
use crate::expand::expanded;
use crate::model::{ids_of, names_view, tiles_view, ExpandedTile, TileView, Tileset};
use crate::order::{lemma_name_le_properties, name_le, tile_order};
use crate::rank::{name_order, rank_names, same_name, same_tile, Rank};
use crate::seqs::{lemma_empty_multiset, lemma_take_next};
use crate::sort::{ref_views, refs_of, sort_refs, sorted};
use vstd::prelude::*;
use vstd::relations::sorted_by;
use vstd::string::StringExecFns;
use vstd::seq_lib::{to_multiset_build, to_multiset_remove};

verus! {

/// The characters of each of `names`, in order.
pub open spec fn strs_view(names: Seq<&str>) -> Seq<Seq<char>> {
    names.map_values(|s: &str| s@)
}

/// How often `id` comes among `ids` beyond the first time.
pub open spec fn spare(ids: Seq<Seq<char>>, id: Seq<char>) -> nat {
    if ids.to_multiset().count(id) > 0 {
        (ids.to_multiset().count(id) - 1) as nat
    } else {
        0
    }
}

/// How many of `tiles` have the id `id` beyond the first that has it.
pub open spec fn surplus(tiles: Seq<TileView>, id: Seq<char>) -> nat {
    spare(ids_of(tiles), id)
}

/// Lists with the same tiles have the same ids, each as often.
pub proof fn lemma_ids_permutation(a: Seq<TileView>, b: Seq<TileView>)
    requires
        a.to_multiset() == b.to_multiset(),
    ensures
        ids_of(a).to_multiset() == ids_of(b).to_multiset(),
    decreases a.len(),
{
    broadcast use vstd::seq_lib::group_to_multiset_ensures;
    broadcast use vstd::multiset::group_multiset_axioms;

    a.to_multiset_ensures();
    b.to_multiset_ensures();
    assert(a.to_multiset().len() == b.to_multiset().len());
    if a.len() == 0 {
        assert(ids_of(a) =~= ids_of(b));
    } else {
        let x = a.last();
        assert(a.contains(x));
        assert(a.to_multiset().count(x) > 0);
        assert(b.contains(x));
        let k = choose|k: int| 0 <= k < b.len() && b[k] == x;
        let a1 = a.drop_last();
        let b1 = b.remove(k);
        assert(a =~= a1.push(x));
        to_multiset_build(a1, x);
        to_multiset_remove(b, k);
        assert(a1.to_multiset() =~= a.to_multiset().remove(x));
        lemma_ids_permutation(a1, b1);
        assert(ids_of(a) =~= ids_of(a1).push(x.id));
        to_multiset_build(ids_of(a1), x.id);
        assert(ids_of(b).remove(k) =~= ids_of(b1));
        to_multiset_remove(ids_of(b), k);
        assert(ids_of(b).to_multiset() =~= ids_of(b1).to_multiset().insert(x.id));
    }
}

/// In sorted tiles, ids never go down.
pub proof fn lemma_sorted_ids(tiles: Seq<TileView>, i: int, j: int)
    requires
        sorted(tiles),
        0 <= i <= j < tiles.len(),
    ensures
        name_le(tiles[i].id, tiles[j].id),
{
    lemma_name_le_properties();
    if i < j {
        assert(tile_order()(tiles[i], tiles[j]));
    }
}

/// The ids of sorted tiles are sorted.
pub proof fn lemma_ids_sorted(tiles: Seq<TileView>)
    requires
        sorted(tiles),
    ensures
        sorted_by(ids_of(tiles), name_order()),
{
    assert forall|i: int, j: int| 0 <= i < j < tiles.len() implies name_order()(
        #[trigger] ids_of(tiles)[i],
        #[trigger] ids_of(tiles)[j],
    ) by {
        lemma_sorted_ids(tiles, i, j);
    }
}

/// Whether `names` go strictly up: they are sorted and none comes twice.
pub open spec fn ascending(names: Seq<Seq<char>>) -> bool {
    forall|i: int, j: int|
        0 <= i < j < names.len() ==> name_le(#[trigger] names[i], #[trigger] names[j]) && names[i]
            != names[j]
}

/// Whether `id` is the id of a tile of `a` that is not among `b`, while some
/// tile of `b` has the id: the two sides know the id and disagree on its tile.
pub open spec fn differs(a: Seq<TileView>, b: Seq<TileView>, id: Seq<char>) -> bool {
    exists|t: TileView|
        #[trigger] a.contains(t) && t.id == id && !b.contains(t) && ids_of(b).contains(id)
}

/// Whether `dups` are the ids that `tiles` use more than once: sorted, and an
/// id that `n` tiles use listed `n - 1` times.
pub open spec fn lists_duplicates(dups: Seq<Seq<char>>, tiles: Seq<TileView>) -> bool {
    &&& sorted_by(dups, name_order())
    &&& forall|id: Seq<char>| #[trigger] dups.to_multiset().count(id) == surplus(tiles, id)
}

/// Whether `only` are the ids that tiles of `a` have and no tile of `b` has:
/// each once, sorted.
pub open spec fn lists_exclusives(
    only: Seq<Seq<char>>,
    a: Seq<TileView>,
    b: Seq<TileView>,
) -> bool {
    &&& ascending(only)
    &&& forall|id: Seq<char>| #[trigger]
        only.contains(id) <==> ids_of(a).contains(id) && !ids_of(b).contains(id)
}

/// Whether `changed` are the ids of the tiles of `a` that are not among `b`
/// while `b` has a tile of that id: each once, sorted.
pub open spec fn lists_differing(
    changed: Seq<Seq<char>>,
    a: Seq<TileView>,
    b: Seq<TileView>,
) -> bool {
    &&& ascending(changed)
    &&& forall|id: Seq<char>| #[trigger] changed.contains(id) <==> differs(a, b, id)
}

/// The ids that the sorted tiles `ordered` use more than once.
fn duplicates_sorted<'a>(ordered: &Vec<&'a ExpandedTile>) -> (dups: Vec<&'a str>)
    requires
        sorted(ref_views(ordered@)),
    ensures
        lists_duplicates(strs_view(dups@), ref_views(ordered@)),
{
    let ghost tiles = ref_views(ordered@);
    let ghost ids = ids_of(tiles);
    let mut dups: Vec<&'a str> = Vec::new();
    let mut i: usize = 0;
    proof {
        lemma_empty_multiset::<Seq<char>>();
        assert(strs_view(dups@) =~= Seq::empty());
        assert(ids.take(0) =~= Seq::empty());
        lemma_name_le_properties();
    }
    while i < ordered.len()
        invariant
            i <= ordered.len(),
            tiles == ref_views(ordered@),
            ids == ids_of(tiles),
            sorted(tiles),
            sorted_by(strs_view(dups@), name_order()),
            forall|k: int|
                0 <= k < dups.len() && i < ordered.len() ==> name_le(
                    #[trigger] strs_view(dups@)[k],
                    ids[i as int],
                ),
            forall|id: Seq<char>| #[trigger]
                strs_view(dups@).to_multiset().count(id) == spare(ids.take(i as int), id),
        decreases ordered.len() - i,
    {
        broadcast use vstd::seq_lib::group_to_multiset_ensures;
        broadcast use vstd::multiset::group_multiset_axioms;

        let ghost before = strs_view(dups@);
        let ghost seen = ids.take(i as int);
        let here: &'a str = ordered[i].id.as_str();
        assert(here@ == ids[i as int]);
        proof {
            lemma_name_le_properties();
            assert(ids.take(i + 1) =~= seen.push(here@));
            to_multiset_build(seen, here@);
            if i + 1 < ordered.len() {
                lemma_sorted_ids(tiles, i as int, i + 1);
            }
        }
        let repeated = i > 0 && same_name(ordered[i - 1].id.as_str(), here);
        if repeated {
            dups.push(here);
            proof {
                assert(strs_view(dups@) =~= before.push(here@));
                to_multiset_build(before, here@);
                assert(seen[i - 1] == here@);
                assert(seen.contains(here@));
            }
        } else {
            proof {
                assert(strs_view(dups@) == before);
                if seen.contains(here@) {
                    let k = choose|k: int| 0 <= k < seen.len() && seen[k] == here@;
                    lemma_sorted_ids(tiles, k, i - 1);
                    lemma_sorted_ids(tiles, i - 1, i as int);
                    assert(false);
                }
            }
        }
        i += 1;
    }
    proof {
        assert(ids.take(i as int) =~= ids);
    }
    dups
}

/// The ids that `vars` use more than once, sorted. An id that `n` tiles use
/// is listed `n - 1` times.
pub fn find_duplicates<'a>(vars: &'a Vec<ExpandedTile>) -> (dups: Vec<&'a str>)
    ensures
        lists_duplicates(strs_view(dups@), tiles_view(vars@)),
{
    let ordered = sort_refs(refs_of(vars));
    proof {
        lemma_ids_permutation(ref_views(ordered@), tiles_view(vars@));
    }
    duplicates_sorted(&ordered)
}

/// In sorted names, a name that differs from the one before it differs from
/// all before it.
proof fn lemma_fresh_name(names: Seq<Seq<char>>, i: int)
    requires
        sorted_by(names, name_order()),
        0 <= i < names.len(),
        i == 0 || names[i - 1] != names[i],
    ensures
        !names.take(i).contains(names[i]),
        forall|m: int|
            0 <= m < i ==> name_le(#[trigger] names[m], names[i]) && names[m] != names[i],
{
    lemma_name_le_properties();
    assert forall|m: int| 0 <= m < i implies name_le(#[trigger] names[m], names[i]) && names[m]
        != names[i] by {
        assert(name_order()(names[m], names[i]));
        if m < i - 1 {
            assert(name_order()(names[m], names[i - 1]));
        }
        assert(name_order()(names[i - 1], names[i]));
    }
    let earlier = names.take(i);
    if earlier.contains(names[i]) {
        let k = choose|k: int| 0 <= k < earlier.len() && earlier[k] == names[i];
        assert(names[k] == names[i]);
    }
}

/// Whether the first `j` of `others` come strictly before `name`.
spec fn passed(others: Seq<Seq<char>>, j: int, name: Seq<char>) -> bool {
    forall|k: int| 0 <= k < j ==> name_le(#[trigger] others[k], name) && others[k] != name
}

/// Names that come before a name come before every name after it.
proof fn lemma_passed_later(others: Seq<Seq<char>>, j: int, name: Seq<char>, later: Seq<char>)
    requires
        passed(others, j, name),
        name_le(name, later),
    ensures
        passed(others, j, later),
{
    lemma_name_le_properties();
    assert forall|k: int| 0 <= k < j implies name_le(#[trigger] others[k], later) && others[k]
        != later by {
        assert(name_le(others[k], name));
    }
}

/// A name is not among sorted names when those before some place come
/// before it and the name at that place comes after it.
proof fn lemma_absent(others: Seq<Seq<char>>, j: int, name: Seq<char>)
    requires
        sorted_by(others, name_order()),
        0 <= j <= others.len(),
        passed(others, j, name),
        j < others.len() ==> !name_le(others[j], name),
    ensures
        !others.contains(name),
{
    lemma_name_le_properties();
    if others.contains(name) {
        let k = choose|k: int| 0 <= k < others.len() && others[k] == name;
        if k > j {
            assert(name_order()(others[j], others[k]));
        }
        assert(false);
    }
}

/// The ids that only the sorted tiles `a` have, and the sorted tiles `b` have
/// not.
fn exclusive_sorted(a: &Vec<&ExpandedTile>, b: &Vec<&ExpandedTile>) -> (only: Vec<String>)
    requires
        sorted(ref_views(a@)),
        sorted(ref_views(b@)),
    ensures
        lists_exclusives(names_view(only@), ref_views(a@), ref_views(b@)),
{
    let ghost aids = ids_of(ref_views(a@));
    let ghost bids = ids_of(ref_views(b@));
    let mut only: Vec<String> = Vec::new();
    let mut i: usize = 0;
    let mut j: usize = 0;
    proof {
        lemma_ids_sorted(ref_views(a@));
        lemma_ids_sorted(ref_views(b@));
    }
    while i < a.len()
        invariant
            i <= a.len(),
            j <= b.len(),
            aids == ids_of(ref_views(a@)),
            bids == ids_of(ref_views(b@)),
            sorted_by(aids, name_order()),
            sorted_by(bids, name_order()),
            i < a.len() ==> passed(bids, j as int, aids[i as int]),
            ascending(names_view(only@)),
            forall|id: Seq<char>| #[trigger]
                names_view(only@).contains(id) <==> aids.take(i as int).contains(id)
                    && !bids.contains(id),
        decreases (a.len() - i) + (b.len() - j),
    {
        let here = a[i].id.as_str();
        assert(here@ == aids[i as int]);
        let step = if j < b.len() {
            rank_names(b[j].id.as_str(), here)
        } else {
            Rank::Above
        };
        proof {
            lemma_name_le_properties();
            lemma_take_next(aids, i as int);
            if i + 1 < a.len() {
                assert(name_order()(aids[i as int], aids[i + 1]));
                lemma_passed_later(bids, j as int, aids[i as int], aids[i + 1]);
            }
        }
        match step {
            Rank::Below => {
                assert(bids[j as int] == b@[j as int]@.id);
                j += 1;
            },
            Rank::Same => {
                assert(bids[j as int] == here@);
                assert(bids.contains(here@));
                i += 1;
            },
            Rank::Above => {
                proof {
                    lemma_absent(bids, j as int, here@);
                }
                let repeated = i > 0 && same_name(a[i - 1].id.as_str(), here);
                if !repeated {
                    let ghost before = names_view(only@);
                    let name = a[i].id.clone();
                    only.push(name);
                    proof {
                        lemma_fresh_name(aids, i as int);
                        assert(names_view(only@) =~= before.push(here@));
                        assert forall|id: Seq<char>| #[trigger]
                            names_view(only@).contains(id) <==> before.contains(id) || id
                                == here@ by {
                            let after = names_view(only@);
                            if after.contains(id) {
                                let k = choose|k: int| 0 <= k < after.len() && after[k] == id;
                                if k < before.len() {
                                    assert(before[k] == id);
                                }
                            }
                            if before.contains(id) {
                                let k = choose|k: int| 0 <= k < before.len() && before[k] == id;
                                assert(after[k] == id);
                            }
                            if id == here@ {
                                assert(after[before.len() as int] == id);
                            }
                        }
                        assert forall|k: int, l: int|
                            0 <= k < l < names_view(only@).len() implies name_le(
                            #[trigger] names_view(only@)[k],
                            #[trigger] names_view(only@)[l],
                        ) && names_view(only@)[k] != names_view(only@)[l] by {
                            if l == before.len() {
                                assert(before.contains(before[k]));
                                let earlier = aids.take(i as int);
                                assert(earlier.contains(before[k]));
                                let m = choose|m: int|
                                    0 <= m < earlier.len() && earlier[m] == before[k];
                                assert(aids[m] == before[k]);
                            } else {
                                assert(before[k] == names_view(only@)[k]);
                                assert(before[l] == names_view(only@)[l]);
                            }
                        }
                    }
                } else {
                    assert(aids.take(i as int)[i - 1] == here@);
                }
                i += 1;
            },
        }
    }
    proof {
        assert(aids.take(i as int) =~= aids);
    }
    only
}

/// The ids whose tile among the sorted tiles `a` is not the same as their
/// tile among the sorted tiles `b`.
fn differing_sorted(a: &Vec<&ExpandedTile>, b: &Vec<&ExpandedTile>) -> (changed: Vec<String>)
    requires
        sorted(ref_views(a@)),
        sorted(ref_views(b@)),
        ids_of(ref_views(a@)).no_duplicates(),
        ids_of(ref_views(b@)).no_duplicates(),
    ensures
        lists_differing(names_view(changed@), ref_views(a@), ref_views(b@)),
{
    let ghost av = ref_views(a@);
    let ghost bv = ref_views(b@);
    let ghost aids = ids_of(av);
    let ghost bids = ids_of(bv);
    let mut changed: Vec<String> = Vec::new();
    let mut i: usize = 0;
    let mut j: usize = 0;
    proof {
        lemma_ids_sorted(av);
        lemma_ids_sorted(bv);
    }
    while i < a.len()
        invariant
            i <= a.len(),
            j <= b.len(),
            av == ref_views(a@),
            bv == ref_views(b@),
            aids == ids_of(av),
            bids == ids_of(bv),
            aids.no_duplicates(),
            bids.no_duplicates(),
            sorted_by(aids, name_order()),
            sorted_by(bids, name_order()),
            i < a.len() ==> passed(bids, j as int, aids[i as int]),
            ascending(names_view(changed@)),
            forall|id: Seq<char>| #[trigger]
                names_view(changed@).contains(id) <==> differs(av.take(i as int), bv, id),
        decreases (a.len() - i) + (b.len() - j),
    {
        let here = a[i].id.as_str();
        assert(here@ == aids[i as int]);
        let step = if j < b.len() {
            rank_names(b[j].id.as_str(), here)
        } else {
            Rank::Above
        };
        proof {
            lemma_name_le_properties();
            lemma_take_next(av, i as int);
            if i + 1 < a.len() {
                assert(name_order()(aids[i as int], aids[i + 1]));
                lemma_passed_later(bids, j as int, aids[i as int], aids[i + 1]);
            }
        }
        match step {
            Rank::Below => {
                assert(bids[j as int] == b@[j as int]@.id);
                j += 1;
            },
            Rank::Same => {
                assert(bids[j as int] == here@);
                assert(bids.contains(here@));
                let same = same_tile(a[i], b[j]);
                proof {
                    if same {
                        assert(bv[j as int] == av[i as int]);
                        assert(bv.contains(av[i as int]));
                    } else {
                        if bv.contains(av[i as int]) {
                            let k = choose|k: int| 0 <= k < bv.len() && bv[k] == av[i as int];
                            assert(bids[k] == bids[j as int]);
                            assert(false);
                        }
                    }
                    lemma_differs_next(av, bv, i as int);
                }
                if !same {
                    let ghost before = names_view(changed@);
                    let name = a[i].id.clone();
                    changed.push(name);
                    proof {
                        lemma_fresh_name(aids, i as int);
                        assert(names_view(changed@) =~= before.push(here@));
                        lemma_pushed_name(
                            before,
                            here@,
                            names_view(changed@),
                            aids,
                            i as int,
                            av,
                            bv,
                        );
                    }
                }
                i += 1;
            },
            Rank::Above => {
                proof {
                    lemma_absent(bids, j as int, here@);
                    lemma_differs_next(av, bv, i as int);
                }
                i += 1;
            },
        }
    }
    proof {
        assert(av.take(i as int) =~= av);
    }
    changed
}

/// What one more tile of `a` adds to the ids that differ.
proof fn lemma_differs_next(a: Seq<TileView>, b: Seq<TileView>, i: int)
    requires
        0 <= i < a.len(),
    ensures
        forall|id: Seq<char>| #[trigger]
            differs(a.take(i + 1), b, id) <==> differs(a.take(i), b, id) || (a[i].id == id
                && !b.contains(a[i]) && ids_of(b).contains(id)),
{
    lemma_take_next(a, i);
    assert forall|id: Seq<char>| #[trigger]
        differs(a.take(i + 1), b, id) <==> differs(a.take(i), b, id) || (a[i].id == id
            && !b.contains(a[i]) && ids_of(b).contains(id)) by {
        if differs(a.take(i + 1), b, id) {
            let t = choose|t: TileView| #[trigger]
                a.take(i + 1).contains(t) && t.id == id && !b.contains(t) && ids_of(b).contains(
                    id,
                );
            if t != a[i] {
                assert(a.take(i).contains(t));
            }
        }
        if differs(a.take(i), b, id) {
            let t = choose|t: TileView| #[trigger]
                a.take(i).contains(t) && t.id == id && !b.contains(t) && ids_of(b).contains(id);
            assert(a.take(i + 1).contains(t));
        }
        if a[i].id == id && !b.contains(a[i]) && ids_of(b).contains(id) {
            assert(a.take(i + 1).contains(a[i]));
        }
    }
}

/// A list of names that go strictly up still does after a name that comes
/// after all of them, and holds that name besides.
proof fn lemma_pushed_name(
    before: Seq<Seq<char>>,
    name: Seq<char>,
    after: Seq<Seq<char>>,
    aids: Seq<Seq<char>>,
    i: int,
    a: Seq<TileView>,
    b: Seq<TileView>,
)
    requires
        ascending(before),
        after == before.push(name),
        aids == ids_of(a),
        0 <= i < a.len(),
        name == aids[i],
        forall|m: int| 0 <= m < i ==> name_le(#[trigger] aids[m], aids[i]) && aids[m] != aids[i],
        forall|id: Seq<char>| #[trigger] before.contains(id) <==> differs(a.take(i), b, id),
    ensures
        ascending(after),
        forall|id: Seq<char>| #[trigger] after.contains(id) <==> before.contains(id) || id == name,
{
    assert forall|id: Seq<char>| #[trigger] after.contains(id) <==> before.contains(id) || id
        == name by {
        if after.contains(id) {
            let k = choose|k: int| 0 <= k < after.len() && after[k] == id;
            if k < before.len() {
                assert(before[k] == id);
            }
        }
        if before.contains(id) {
            let k = choose|k: int| 0 <= k < before.len() && before[k] == id;
            assert(after[k] == id);
        }
        if id == name {
            assert(after[before.len() as int] == id);
        }
    }
    assert forall|k: int, l: int| 0 <= k < l < after.len() implies name_le(
        #[trigger] after[k],
        #[trigger] after[l],
    ) && after[k] != after[l] by {
        if l == before.len() {
            assert(before.contains(before[k]));
            assert(differs(a.take(i), b, before[k]));
            let t = choose|t: TileView| #[trigger]
                a.take(i).contains(t) && t.id == before[k] && !b.contains(t) && ids_of(
                    b,
                ).contains(before[k]);
            let earlier = a.take(i);
            let m = choose|m: int| 0 <= m < earlier.len() && earlier[m] == t;
            assert(aids[m] == before[k]);
        } else {
            assert(before[k] == after[k]);
            assert(before[l] == after[l]);
        }
    }
}

/// Lists with the same tiles hold the same tiles and the same ids.
pub proof fn lemma_permutation_contains(a: Seq<TileView>, b: Seq<TileView>)
    requires
        a.to_multiset() == b.to_multiset(),
    ensures
        forall|t: TileView| #[trigger] a.contains(t) <==> b.contains(t),
        forall|id: Seq<char>| #[trigger] ids_of(a).contains(id) <==> ids_of(b).contains(id),
        forall|id: Seq<char>| #[trigger] surplus(a, id) == surplus(b, id),
        ids_of(a).no_duplicates() <==> ids_of(b).no_duplicates(),
{
    broadcast use vstd::seq_lib::group_to_multiset_ensures;

    lemma_ids_permutation(a, b);
    a.to_multiset_ensures();
    b.to_multiset_ensures();
    ids_of(a).to_multiset_ensures();
    ids_of(b).to_multiset_ensures();
    assert forall|t: TileView| #[trigger] a.contains(t) <==> b.contains(t) by {
        assert(a.contains(t) <==> a.to_multiset().count(t) > 0);
        assert(b.contains(t) <==> b.to_multiset().count(t) > 0);
    }
    assert forall|id: Seq<char>| #[trigger] ids_of(a).contains(id) <==> ids_of(b).contains(id) by {
        assert(ids_of(a).contains(id) <==> ids_of(a).to_multiset().count(id) > 0);
        assert(ids_of(b).contains(id) <==> ids_of(b).to_multiset().count(id) > 0);
    }
    if ids_of(a).no_duplicates() {
        ids_of(a).lemma_multiset_has_no_duplicates();
        ids_of(b).lemma_multiset_has_no_duplicates_conv();
    }
    if ids_of(b).no_duplicates() {
        ids_of(b).lemma_multiset_has_no_duplicates();
        ids_of(a).lemma_multiset_has_no_duplicates_conv();
    }
}

/// Lists with the same tiles differ from each other on the same ids.
pub proof fn lemma_permutation_differs(
    a: Seq<TileView>,
    sa: Seq<TileView>,
    b: Seq<TileView>,
    sb: Seq<TileView>,
)
    requires
        a.to_multiset() == sa.to_multiset(),
        b.to_multiset() == sb.to_multiset(),
    ensures
        forall|id: Seq<char>| #[trigger] differs(a, b, id) <==> differs(sa, sb, id),
{
    lemma_permutation_contains(a, sa);
    lemma_permutation_contains(b, sb);
    assert forall|id: Seq<char>| #[trigger] differs(a, b, id) <==> differs(sa, sb, id) by {
        if differs(a, b, id) {
            let t = choose|t: TileView| #[trigger]
                a.contains(t) && t.id == id && !b.contains(t) && ids_of(b).contains(id);
            assert(sa.contains(t) && !sb.contains(t) && ids_of(sb).contains(id));
        }
        if differs(sa, sb, id) {
            let t = choose|t: TileView| #[trigger]
                sa.contains(t) && t.id == id && !sb.contains(t) && ids_of(sb).contains(id);
            assert(a.contains(t) && !b.contains(t) && ids_of(b).contains(id));
        }
    }
}

/// No id is listed as used twice exactly when no two tiles share an id.
pub proof fn lemma_no_duplicates_listed(tiles: Seq<TileView>, dups: Seq<Seq<char>>)
    requires
        forall|id: Seq<char>| #[trigger] dups.to_multiset().count(id) == surplus(tiles, id),
    ensures
        dups.len() == 0 <==> ids_of(tiles).no_duplicates(),
{
    broadcast use vstd::seq_lib::group_to_multiset_ensures;
    broadcast use vstd::multiset::group_multiset_axioms;

    let ids = ids_of(tiles);
    dups.to_multiset_ensures();
    ids.to_multiset_ensures();
    if dups.len() == 0 {
        assert forall|id: Seq<char>| ids.to_multiset().contains(id) implies ids.to_multiset().count(
            id,
        ) == 1 by {
            assert(dups.to_multiset().count(id) == surplus(tiles, id));
            assert(!dups.contains(id));
        }
        ids.lemma_multiset_has_no_duplicates_conv();
    }
    if ids.no_duplicates() {
        ids.lemma_multiset_has_no_duplicates();
        if dups.len() > 0 {
            let id = dups[0];
            assert(dups.contains(id));
            assert(dups.to_multiset().count(id) == surplus(tiles, id));
            assert(false);
        }
    }
}

/// Copies names.
fn owned_names(names: &Vec<&str>) -> (r: Vec<String>)
    ensures
        names_view(r@) == strs_view(names@),
{
    let mut r: Vec<String> = Vec::new();
    let mut i: usize = 0;
    while i < names.len()
        invariant
            i <= names.len(),
            names_view(r@) == strs_view(names@.take(i as int)),
        decreases names.len() - i,
    {
        let ghost before = names_view(r@);
        let name = String::from_str(names[i]);
        r.push(name);
        assert(names_view(r@) =~= before.push(names@[i as int]@));
        assert(strs_view(names@.take(i + 1)) =~= strs_view(names@.take(i as int)).push(
            names@[i as int]@,
        ));
        i += 1;
    }
    assert(names@.take(i as int) =~= names@);
    r
}

/// The ids that tiles of `a` have and no tile of `b` has, each once, sorted.
pub fn exclusive_ids(a: &Vec<ExpandedTile>, b: &Vec<ExpandedTile>) -> (only: Vec<String>)
    ensures
        lists_exclusives(names_view(only@), tiles_view(a@), tiles_view(b@)),
{
    let sa = sort_refs(refs_of(a));
    let sb = sort_refs(refs_of(b));
    proof {
        lemma_permutation_contains(ref_views(sa@), tiles_view(a@));
        lemma_permutation_contains(ref_views(sb@), tiles_view(b@));
    }
    exclusive_sorted(&sa, &sb)
}

/// The ids that both sides have and whose tile in `a` is not among the tiles
/// of `b`, sorted. This asks that neither side uses an id twice.
pub fn differing_ids(a: &Vec<ExpandedTile>, b: &Vec<ExpandedTile>) -> (changed: Vec<String>)
    requires
        ids_of(tiles_view(a@)).no_duplicates(),
        ids_of(tiles_view(b@)).no_duplicates(),
    ensures
        lists_differing(names_view(changed@), tiles_view(a@), tiles_view(b@)),
{
    let sa = sort_refs(refs_of(a));
    let sb = sort_refs(refs_of(b));
    proof {
        lemma_permutation_contains(ref_views(sa@), tiles_view(a@));
        lemma_permutation_contains(ref_views(sb@), tiles_view(b@));
        lemma_permutation_differs(tiles_view(a@), ref_views(sa@), tiles_view(b@), ref_views(sb@));
    }
    differing_sorted(&sa, &sb)
}

/// What comparing two expanded tilesets finds, for the first and for the
/// second of them.
#[derive(Debug, Clone, PartialEq, Eq)]
pub struct Comparison {
    /// The ids that the first tileset uses more than once.
    pub duplicates_a: Vec<String>,
    /// The ids that the second tileset uses more than once.
    pub duplicates_b: Vec<String>,
    /// The ids that only the first tileset has.
    pub exclusives_a: Vec<String>,
    /// The ids that only the second tileset has.
    pub exclusives_b: Vec<String>,
    /// The ids that both have with different tiles, as each side sees them.
    /// Not given when either tileset uses an id more than once.
    pub different: Option<(Vec<String>, Vec<String>)>,
}

impl Comparison {
    /// Whether this is what comparing the tiles `a` with the tiles `b` finds.
    pub open spec fn describes(self, a: Seq<TileView>, b: Seq<TileView>) -> bool {
        &&& lists_duplicates(names_view(self.duplicates_a@), a)
        &&& lists_duplicates(names_view(self.duplicates_b@), b)
        &&& lists_exclusives(names_view(self.exclusives_a@), a, b)
        &&& lists_exclusives(names_view(self.exclusives_b@), b, a)
        &&& self.different is Some <==> ids_of(a).no_duplicates() && ids_of(b).no_duplicates()
        &&& self.different matches Some((changed_a, changed_b)) ==> {
            &&& lists_differing(names_view(changed_a@), a, b)
            &&& lists_differing(names_view(changed_b@), b, a)
        }
    }
}

/// Compares two expanded tilesets. The ids that either uses more than once
/// and the ids that only one of them has are always found; the ids on which
/// the two differ only when neither uses an id more than once.
pub fn compare_variations(a: &Vec<ExpandedTile>, b: &Vec<ExpandedTile>) -> (r: Comparison)
    ensures
        r.describes(tiles_view(a@), tiles_view(b@)),
{
    let sa = sort_refs(refs_of(a));
    let sb = sort_refs(refs_of(b));
    proof {
        lemma_permutation_contains(ref_views(sa@), tiles_view(a@));
        lemma_permutation_contains(ref_views(sb@), tiles_view(b@));
        lemma_permutation_differs(tiles_view(a@), ref_views(sa@), tiles_view(b@), ref_views(sb@));
        lemma_permutation_differs(tiles_view(b@), ref_views(sb@), tiles_view(a@), ref_views(sa@));
    }
    let duplicates_a = owned_names(&duplicates_sorted(&sa));
    let duplicates_b = owned_names(&duplicates_sorted(&sb));
    let exclusives_a = exclusive_sorted(&sa, &sb);
    let exclusives_b = exclusive_sorted(&sb, &sa);
    proof {
        lemma_no_duplicates_listed(ref_views(sa@), names_view(duplicates_a@));
        lemma_no_duplicates_listed(ref_views(sb@), names_view(duplicates_b@));
    }
    let different = if duplicates_a.len() == 0 && duplicates_b.len() == 0 {
        Some((differing_sorted(&sa, &sb), differing_sorted(&sb, &sa)))
    } else {
        None
    };
    Comparison { duplicates_a, duplicates_b, exclusives_a, exclusives_b, different }
}

/// Two tilesets expanded with content hashes, and what comparing them finds.
#[derive(Debug, Clone, PartialEq, Eq)]
pub struct TilesetComparison {
    /// The expansion of the first tileset.
    pub variations_a: Vec<ExpandedTile>,
    /// The expansion of the second tileset.
    pub variations_b: Vec<ExpandedTile>,
    /// What the two expansions have and have not in common.
    pub findings: Comparison,
}

/// Expands two tilesets, with each sprite id replaced by the content hash of
/// its sprite, and compares the expansions.
pub fn compare_tilesets(
    ts1: &Tileset,
    atlases1: &Vec<TileAtlas>,
    ts2: &Tileset,
    atlases2: &Vec<TileAtlas>,
) -> (r: TilesetComparison)
    ensures
        tiles_view(r.variations_a@) == expanded(ts1@, atlases1@, true),
        tiles_view(r.variations_b@) == expanded(ts2@, atlases2@, true),
        r.findings.describes(expanded(ts1@, atlases1@, true), expanded(ts2@, atlases2@, true)),
{
    let variations_a = ts1.generate_variations(atlases1, true);
    let variations_b = ts2.generate_variations(atlases2, true);
    let findings = compare_variations(&variations_a, &variations_b);
    TilesetComparison { variations_a, variations_b, findings }
}

} // verus!
