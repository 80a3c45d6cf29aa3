//! What holds of every expansion, whatever the tileset.

use crate::atlas::{lookup_hash, TileAtlas};
use crate::diff::{
    differs, lemma_ids_permutation, lemma_ids_sorted, lemma_no_duplicates_listed,
    lemma_permutation_contains, Comparison,
};
use crate::expand::{
    alias_tiles, alias_tiles_at, block_tiles_at, definition_tiles, emitted, expanded,
    parent_tile, part_tile, part_tiles_at, parts_tiles_at, resolved_refs, separator,
    tileset_tiles_at,
};
use crate::model::{ids_of, names_view, CompositeView, TileView};
use crate::order::{lemma_name_le_properties, lemma_tile_order_total, tile_order};
use crate::rank::name_order;
use crate::seqs::{concat_upto, lemma_concat_contains, lemma_concat_step};
use crate::sort::{lemma_sorted_is_sort, sorted};
use crate::sprite_id_with_weight::SpriteRefView;
use vstd::prelude::*;
use vstd::relations::total_ordering;
use vstd::seq_lib::lemma_sorted_unique;

verus! {

/// The expansion of a tileset is in order and holds every tile that the
/// tileset expands to, each as often as it comes.
pub proof fn lemma_expansion_sorted(
    tileset: Seq<Seq<CompositeView>>,
    atlases: Seq<TileAtlas>,
    do_hash: bool,
)
    ensures
        sorted(expanded(tileset, atlases, do_hash)),
        expanded(tileset, atlases, do_hash).to_multiset() == emitted(
            tileset,
            atlases,
            do_hash,
        ).to_multiset(),
        expanded(tileset, atlases, do_hash).len() == emitted(tileset, atlases, do_hash).len(),
{
    lemma_tile_order_total();
    let raw = emitted(tileset, atlases, do_hash);
    raw.lemma_sort_by_ensures(tile_order());
    raw.to_multiset_ensures();
    raw.sort_by(tile_order()).to_multiset_ensures();
}

/// Expanding a tileset has one outcome: any two lists in order that hold the
/// tiles that it expands to are the same list, tile for tile.
pub proof fn lemma_expansion_unique(
    tileset: Seq<Seq<CompositeView>>,
    atlases: Seq<TileAtlas>,
    do_hash: bool,
    first: Seq<TileView>,
    second: Seq<TileView>,
)
    requires
        sorted(first),
        sorted(second),
        first.to_multiset() == emitted(tileset, atlases, do_hash).to_multiset(),
        second.to_multiset() == emitted(tileset, atlases, do_hash).to_multiset(),
    ensures
        first == second,
        first == expanded(tileset, atlases, do_hash),
{
    lemma_sorted_is_sort(emitted(tileset, atlases, do_hash), first);
    lemma_sorted_is_sort(emitted(tileset, atlases, do_hash), second);
}

/// A tile without parts expands to one tile for each of its ids, in the order
/// of the ids, and none of these tiles differs from another but in its id.
pub proof fn lemma_alias_fan_out(def: CompositeView, atlases: Seq<TileAtlas>, do_hash: bool)
    requires
        def.parts.len() == 0,
    ensures
        ({
            let tiles = definition_tiles(def, atlases, do_hash);
            &&& tiles.len() == def.base.ids.len()
            &&& forall|a: int| 0 <= a < tiles.len() ==> (#[trigger] tiles[a]).id == def.base.ids[a]
            &&& forall|a: int, b: int|
                0 <= a < tiles.len() && 0 <= b < tiles.len() ==> #[trigger] tiles[a] == (TileView {
                    id: def.base.ids[a],
                    ..#[trigger] tiles[b]
                })
        }),
{
    lemma_fan_out_upto(def, atlases, do_hash, def.base.ids.len());
}

/// The tiles of a tile without parts under its first `n` ids.
proof fn lemma_fan_out_upto(def: CompositeView, atlases: Seq<TileAtlas>, do_hash: bool, n: nat)
    requires
        def.parts.len() == 0,
    ensures
        concat_upto(alias_tiles_at(def, atlases, do_hash), n).len() == n,
        forall|a: int|
            0 <= a < n ==> (#[trigger] concat_upto(alias_tiles_at(def, atlases, do_hash), n)[a])
                == parent_tile(def.base, a, atlases, do_hash),
    decreases n,
{
    let f = alias_tiles_at(def, atlases, do_hash);
    if n == 0 {
        lemma_concat_step(f, 0);
    } else {
        lemma_fan_out_upto(def, atlases, do_hash, (n - 1) as nat);
        lemma_concat_step(f, (n - 1) as nat);
        lemma_concat_step(parts_tiles_at(def, n - 1, atlases, do_hash), 0);
        assert(f(n - 1) =~= seq![parent_tile(def.base, n - 1, atlases, do_hash)]);
    }
}

/// Under every id of a tile, every id of every part of the tile gives a tile
/// that is named after both, with an underscore between them, that rotates
/// whatever the part says of rotating, and that is as high as the tile.
pub proof fn lemma_composite_part(
    def: CompositeView,
    alias: int,
    part: int,
    part_alias: int,
    atlases: Seq<TileAtlas>,
    do_hash: bool,
)
    requires
        0 <= alias < def.base.ids.len(),
        0 <= part < def.parts.len(),
        0 <= part_alias < def.parts[part].ids.len(),
    ensures
        ({
            let tile = part_tile(
                def.base.ids[alias],
                def.base.height_3d,
                def.parts[part],
                part_alias,
                atlases,
                do_hash,
            );
            &&& definition_tiles(def, atlases, do_hash).contains(tile)
            &&& tile.id == def.base.ids[alias] + separator() + def.parts[part].ids[part_alias]
            &&& tile.rotates
            &&& tile.height_3d == def.base.height_3d
        }),
{
    let tile = part_tile(
        def.base.ids[alias],
        def.base.height_3d,
        def.parts[part],
        part_alias,
        atlases,
        do_hash,
    );
    let of_part = part_tiles_at(
        def.base.ids[alias],
        def.base.height_3d,
        def.parts[part],
        atlases,
        do_hash,
    );
    assert(of_part(part_alias)[0] == tile);
    lemma_concat_contains(of_part, def.parts[part].ids.len(), part_alias, tile);
    let of_parts = parts_tiles_at(def, alias, atlases, do_hash);
    lemma_concat_contains(of_parts, def.parts.len(), part, tile);
    let under_alias = alias_tiles(def, alias, atlases, do_hash);
    let parts = concat_upto(of_parts, def.parts.len());
    let k = choose|k: int| 0 <= k < parts.len() && parts[k] == tile;
    assert(under_alias[k] == tile);
    lemma_concat_contains(alias_tiles_at(def, atlases, do_hash), def.base.ids.len(), alias, tile);
}

/// A tile that does not say whether it rotates rotates exactly if it is a
/// multitile; one that says so rotates as it says. The tile that it expands
/// to under each of its ids is among the tiles of the definition.
pub proof fn lemma_rotation_default(
    def: CompositeView,
    alias: int,
    atlases: Seq<TileAtlas>,
    do_hash: bool,
)
    requires
        0 <= alias < def.base.ids.len(),
    ensures
        ({
            let tile = parent_tile(def.base, alias, atlases, do_hash);
            &&& definition_tiles(def, atlases, do_hash).contains(tile)
            &&& tile.id == def.base.ids[alias]
            &&& def.base.rotates is None ==> tile.rotates == def.base.multitile
            &&& def.base.rotates matches Some(rotates) ==> tile.rotates == rotates
        }),
{
    let tile = parent_tile(def.base, alias, atlases, do_hash);
    let under_alias = alias_tiles(def, alias, atlases, do_hash);
    assert(under_alias[under_alias.len() - 1] == tile);
    lemma_concat_contains(alias_tiles_at(def, atlases, do_hash), def.base.ids.len(), alias, tile);
}

/// Every tile of every definition of a tileset is in its expansion.
pub proof fn lemma_definition_expanded(
    tileset: Seq<Seq<CompositeView>>,
    block: int,
    def: int,
    atlases: Seq<TileAtlas>,
    do_hash: bool,
    tile: TileView,
)
    requires
        0 <= block < tileset.len(),
        0 <= def < tileset[block].len(),
        definition_tiles(tileset[block][def], atlases, do_hash).contains(tile),
    ensures
        expanded(tileset, atlases, do_hash).contains(tile),
{
    lemma_concat_contains(
        block_tiles_at(tileset[block], atlases, do_hash),
        tileset[block].len(),
        def,
        tile,
    );
    lemma_concat_contains(
        tileset_tiles_at(tileset, atlases, do_hash),
        tileset.len(),
        block,
        tile,
    );
    lemma_expansion_sorted(tileset, atlases, do_hash);
    lemma_permutation_contains(
        expanded(tileset, atlases, do_hash),
        emitted(tileset, atlases, do_hash),
    );
}

/// A tile without ids expands to nothing, whatever parts it has.
pub proof fn lemma_no_id_no_tile(def: CompositeView, atlases: Seq<TileAtlas>, do_hash: bool)
    requires
        def.base.ids.len() == 0,
    ensures
        definition_tiles(def, atlases, do_hash) == Seq::<TileView>::empty(),
{
    lemma_concat_step(alias_tiles_at(def, atlases, do_hash), 0);
}

/// Resolving sprite references drops none, moves none and changes no weight:
/// each reference keeps its place, its weight and the number of its sprite
/// ids. Without content hashes the references stay as they are.
pub proof fn lemma_resolution_keeps_shape(
    refs: Seq<SpriteRefView>,
    atlases: Seq<TileAtlas>,
    do_hash: bool,
)
    ensures
        resolved_refs(refs, atlases, do_hash).len() == refs.len(),
        forall|i: int|
            0 <= i < refs.len() ==> {
                &&& (#[trigger] resolved_refs(refs, atlases, do_hash)[i]).weight == refs[i].weight
                &&& resolved_refs(refs, atlases, do_hash)[i].ids.len() == refs[i].ids.len()
            },
        forall|i: int, k: int|
            0 <= i < refs.len() && 0 <= k < refs[i].ids.len() ==> (#[trigger] resolved_refs(
                refs,
                atlases,
                do_hash,
            )[i].ids[k]) == (if do_hash {
                lookup_hash(atlases, refs[i].ids[k])
            } else {
                refs[i].ids[k]
            }),
        !do_hash ==> resolved_refs(refs, atlases, do_hash) == refs,
{
}

/// The content hash of a sprite does not depend on where the sprite lies:
/// sprites of the same size and the same pixels have the same hash, in
/// whatever atlas, at whatever place and under whatever id.
pub proof fn lemma_hash_ignores_position(a: TileAtlas, id_a: u32, b: TileAtlas, id_b: u32)
    requires
        a.owns(id_a),
        b.owns(id_b),
        a.cell_width() == b.cell_width(),
        a.cell_height() == b.cell_height(),
        a.sprite_pixels(id_a) == b.sprite_pixels(id_b),
    ensures
        a.sprite_hash(id_a) == b.sprite_hash(id_b),
{
}

/// Where a tileset uses an id more than once, the comparison lists the id as
/// used twice on that side and says nothing of ids that differ, for either
/// side.
pub proof fn lemma_duplicates_suppress_diff(found: Comparison, a: Seq<TileView>, b: Seq<TileView>)
    requires
        found.describes(a, b),
        !ids_of(a).no_duplicates() || !ids_of(b).no_duplicates(),
    ensures
        found.different is None,
        !ids_of(a).no_duplicates() ==> found.duplicates_a@.len() > 0,
        !ids_of(b).no_duplicates() ==> found.duplicates_b@.len() > 0,
{
    lemma_no_duplicates_listed(a, names_view(found.duplicates_a@));
    lemma_no_duplicates_listed(b, names_view(found.duplicates_b@));
}

/// No id is both had by one side alone and had by both sides with different
/// tiles.
pub proof fn lemma_exclusive_or_differing(a: Seq<TileView>, b: Seq<TileView>, id: Seq<char>)
    ensures
        !(ids_of(a).contains(id) && !ids_of(b).contains(id) && differs(a, b, id)),
        differs(a, b, id) ==> ids_of(a).contains(id) && ids_of(b).contains(id),
{
    if differs(a, b, id) {
        let t = choose|t: TileView| #[trigger]
            a.contains(t) && t.id == id && !b.contains(t) && ids_of(b).contains(id);
        let k = choose|k: int| 0 <= k < a.len() && a[k] == t;
        assert(ids_of(a)[k] == id);
    }
}

/// Sequences put together have the ids of their pieces.
proof fn lemma_concat_ids(
    f: spec_fn(int) -> Seq<TileView>,
    g: spec_fn(int) -> Seq<TileView>,
    n: nat,
)
    requires
        forall|i: int| 0 <= i < n ==> ids_of(#[trigger] f(i)) == ids_of(g(i)),
    ensures
        ids_of(concat_upto(f, n)) == ids_of(concat_upto(g, n)),
    decreases n,
{
    if n == 0 {
        lemma_concat_step(f, 0);
        lemma_concat_step(g, 0);
        assert(ids_of(concat_upto(f, n)) =~= ids_of(concat_upto(g, n)));
    } else {
        let m = (n - 1) as nat;
        lemma_concat_ids(f, g, m);
        lemma_concat_step(f, m);
        lemma_concat_step(g, m);
        assert(ids_of(f(m as int)) == ids_of(g(m as int)));
        assert(ids_of(concat_upto(f, m) + f(m as int)) =~= ids_of(concat_upto(f, m)) + ids_of(
            f(m as int),
        ));
        assert(ids_of(concat_upto(g, m) + g(m as int)) =~= ids_of(concat_upto(g, m)) + ids_of(
            g(m as int),
        ));
    }
}

/// The tiles of one definition have the same ids with and without hashes.
proof fn lemma_definition_ids(def: CompositeView, atlases: Seq<TileAtlas>)
    ensures
        ids_of(definition_tiles(def, atlases, true)) == ids_of(
            definition_tiles(def, atlases, false),
        ),
{
    let f = alias_tiles_at(def, atlases, true);
    let g = alias_tiles_at(def, atlases, false);
    assert forall|a: int| 0 <= a < def.base.ids.len() implies ids_of(#[trigger] f(a)) == ids_of(
        g(a),
    ) by {
        let pf = parts_tiles_at(def, a, atlases, true);
        let pg = parts_tiles_at(def, a, atlases, false);
        assert forall|p: int| 0 <= p < def.parts.len() implies ids_of(#[trigger] pf(p)) == ids_of(
            pg(p),
        ) by {
            let kf = part_tiles_at(
                def.base.ids[a],
                def.base.height_3d,
                def.parts[p],
                atlases,
                true,
            );
            let kg = part_tiles_at(
                def.base.ids[a],
                def.base.height_3d,
                def.parts[p],
                atlases,
                false,
            );
            assert forall|k: int| 0 <= k < def.parts[p].ids.len() implies ids_of(
                #[trigger] kf(k),
            ) == ids_of(kg(k)) by {
                assert(ids_of(kf(k)) =~= ids_of(kg(k)));
            }
            lemma_concat_ids(kf, kg, def.parts[p].ids.len());
        }
        lemma_concat_ids(pf, pg, def.parts.len());
        assert(ids_of(f(a)) =~= ids_of(concat_upto(pf, def.parts.len())).push(def.base.ids[a]));
        assert(ids_of(g(a)) =~= ids_of(concat_upto(pg, def.parts.len())).push(def.base.ids[a]));
    }
    lemma_concat_ids(f, g, def.base.ids.len());
}

/// Replacing sprite ids by content hashes changes no tile's id: the tiles of
/// the expansion with hashes have, place for place, the ids of the tiles of
/// the expansion without.
pub proof fn lemma_hashing_keeps_ids(tileset: Seq<Seq<CompositeView>>, atlases: Seq<TileAtlas>)
    ensures
        ids_of(emitted(tileset, atlases, true)) == ids_of(emitted(tileset, atlases, false)),
        ids_of(expanded(tileset, atlases, true)) == ids_of(expanded(tileset, atlases, false)),
        expanded(tileset, atlases, true).len() == expanded(tileset, atlases, false).len(),
{
    let f = tileset_tiles_at(tileset, atlases, true);
    let g = tileset_tiles_at(tileset, atlases, false);
    assert forall|b: int| 0 <= b < tileset.len() implies ids_of(#[trigger] f(b)) == ids_of(
        g(b),
    ) by {
        let df = block_tiles_at(tileset[b], atlases, true);
        let dg = block_tiles_at(tileset[b], atlases, false);
        assert forall|d: int| 0 <= d < tileset[b].len() implies ids_of(#[trigger] df(d)) == ids_of(
            dg(d),
        ) by {
            lemma_definition_ids(tileset[b][d], atlases);
        }
        lemma_concat_ids(df, dg, tileset[b].len());
    }
    lemma_concat_ids(f, g, tileset.len());
    let with = expanded(tileset, atlases, true);
    let without = expanded(tileset, atlases, false);
    lemma_expansion_sorted(tileset, atlases, true);
    lemma_expansion_sorted(tileset, atlases, false);
    lemma_ids_permutation(with, emitted(tileset, atlases, true));
    lemma_ids_permutation(without, emitted(tileset, atlases, false));
    lemma_ids_sorted(with);
    lemma_ids_sorted(without);
    lemma_name_le_properties();
    assert(total_ordering(name_order()));
    lemma_sorted_unique(ids_of(with), ids_of(without), name_order());
    assert(ids_of(with).len() == with.len());
    assert(ids_of(without).len() == without.len());
}

} // verus!
