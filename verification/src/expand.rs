//! Expanding the tiles of a tileset as they are written into concrete tiles:
//! one for every id of a tile, and one for every part of it under every id.

use crate::atlas::{get_sprite_hash, lookup_hash, TileAtlas};
use crate::model::{
    refs_view, tiles_view, CompositeTile, CompositeView, ExpandedTile, SingleTile, TileDefView,
    TileView, TilesNew, Tileset,
};
use crate::order::tile_order;
use crate::seqs::{concat_upto, lemma_concat_step};
use crate::single_or_vec::SingleOrVec;
use crate::sort::{ref_views, refs_of, sort_refs};
use crate::sprite_id_with_weight::{SpriteIdWithWeight, SpriteRefView};
use vstd::prelude::*;
use vstd::string::StringExecFns;

verus! {

/// The sprite ids `ids`, each replaced by the content hash of its sprite.
pub open spec fn hashed_ids(ids: Seq<u32>, atlases: Seq<TileAtlas>) -> Seq<u32> {
    ids.map_values(|id: u32| lookup_hash(atlases, id))
}

/// The sprite reference `r` with every sprite id replaced by the content hash
/// of its sprite. The weight stays.
pub open spec fn hashed_ref(r: SpriteRefView, atlases: Seq<TileAtlas>) -> SpriteRefView {
    SpriteRefView { ids: hashed_ids(r.ids, atlases), weight: r.weight }
}

/// The sprite references `refs`, each with its sprite ids replaced by content
/// hashes. Nothing is dropped or moved.
pub open spec fn hashed_refs(
    refs: Seq<SpriteRefView>,
    atlases: Seq<TileAtlas>,
) -> Seq<SpriteRefView> {
    refs.map_values(|r: SpriteRefView| hashed_ref(r, atlases))
}

/// The sprite references of an expanded tile: hashed where hashes were asked
/// for, as they were written where not.
pub open spec fn resolved_refs(
    refs: Seq<SpriteRefView>,
    atlases: Seq<TileAtlas>,
    do_hash: bool,
) -> Seq<SpriteRefView> {
    if do_hash {
        hashed_refs(refs, atlases)
    } else {
        refs
    }
}

/// What stands between the id of a tile and the id of a part of it.
pub open spec fn separator() -> Seq<char> {
    seq!['_']
}

/// The tile that `def` expands to under its id number `alias`. It rotates as
/// `def` says, and where `def` does not say, it rotates if it is a multitile.
pub open spec fn parent_tile(
    def: TileDefView,
    alias: int,
    atlases: Seq<TileAtlas>,
    do_hash: bool,
) -> TileView {
    TileView {
        id: def.ids[alias],
        fg: resolved_refs(def.fg, atlases, do_hash),
        bg: resolved_refs(def.bg, atlases, do_hash),
        rotates: match def.rotates {
            Some(rotates) => rotates,
            None => def.multitile,
        },
        multitile: def.multitile,
        animated: def.animated,
        height_3d: def.height_3d,
    }
}

/// The tile that `part` expands to under its id number `part_alias`, as a part
/// of the tile called `parent_id` of height `height`: named after both, always
/// rotating, and as high as its parent.
pub open spec fn part_tile(
    parent_id: Seq<char>,
    height: i32,
    part: TileDefView,
    part_alias: int,
    atlases: Seq<TileAtlas>,
    do_hash: bool,
) -> TileView {
    TileView {
        id: parent_id + separator() + part.ids[part_alias],
        fg: resolved_refs(part.fg, atlases, do_hash),
        bg: resolved_refs(part.bg, atlases, do_hash),
        rotates: true,
        multitile: part.multitile,
        animated: part.animated,
        height_3d: height,
    }
}

/// The tiles of one part under each of its ids, by the number of the id.
pub open spec fn part_tiles_at(
    parent_id: Seq<char>,
    height: i32,
    part: TileDefView,
    atlases: Seq<TileAtlas>,
    do_hash: bool,
) -> spec_fn(int) -> Seq<TileView> {
    |k: int| seq![part_tile(parent_id, height, part, k, atlases, do_hash)]
}

/// The tiles of one part: one for each of its ids, in order.
pub open spec fn part_tiles(
    parent_id: Seq<char>,
    height: i32,
    part: TileDefView,
    atlases: Seq<TileAtlas>,
    do_hash: bool,
) -> Seq<TileView> {
    concat_upto(part_tiles_at(parent_id, height, part, atlases, do_hash), part.ids.len())
}

/// The tiles of the parts of `def` under its id number `alias`, by the number
/// of the part.
pub open spec fn parts_tiles_at(
    def: CompositeView,
    alias: int,
    atlases: Seq<TileAtlas>,
    do_hash: bool,
) -> spec_fn(int) -> Seq<TileView> {
    |p: int| part_tiles(def.base.ids[alias], def.base.height_3d, def.parts[p], atlases, do_hash)
}

/// The tiles that `def` expands to under its id number `alias`: those of its
/// parts, part by part, and then the tile itself.
pub open spec fn alias_tiles(
    def: CompositeView,
    alias: int,
    atlases: Seq<TileAtlas>,
    do_hash: bool,
) -> Seq<TileView> {
    concat_upto(parts_tiles_at(def, alias, atlases, do_hash), def.parts.len()).push(
        parent_tile(def.base, alias, atlases, do_hash),
    )
}

/// The tiles of `def` under each of its ids, by the number of the id.
pub open spec fn alias_tiles_at(
    def: CompositeView,
    atlases: Seq<TileAtlas>,
    do_hash: bool,
) -> spec_fn(int) -> Seq<TileView> {
    |a: int| alias_tiles(def, a, atlases, do_hash)
}

/// The tiles that `def` expands to: those under its first id, then those
/// under its second, and so on. A tile without an id expands to nothing.
pub open spec fn definition_tiles(
    def: CompositeView,
    atlases: Seq<TileAtlas>,
    do_hash: bool,
) -> Seq<TileView> {
    concat_upto(alias_tiles_at(def, atlases, do_hash), def.base.ids.len())
}

/// The tiles of each tile of `block`, by the number of the tile.
pub open spec fn block_tiles_at(
    block: Seq<CompositeView>,
    atlases: Seq<TileAtlas>,
    do_hash: bool,
) -> spec_fn(int) -> Seq<TileView> {
    |d: int| definition_tiles(block[d], atlases, do_hash)
}

/// The tiles that the tiles of one atlas block expand to, in the order in
/// which the block lists them.
pub open spec fn block_tiles(
    block: Seq<CompositeView>,
    atlases: Seq<TileAtlas>,
    do_hash: bool,
) -> Seq<TileView> {
    concat_upto(block_tiles_at(block, atlases, do_hash), block.len())
}

/// The tiles of each block of `tileset`, by the number of the block.
pub open spec fn tileset_tiles_at(
    tileset: Seq<Seq<CompositeView>>,
    atlases: Seq<TileAtlas>,
    do_hash: bool,
) -> spec_fn(int) -> Seq<TileView> {
    |b: int| block_tiles(tileset[b], atlases, do_hash)
}

/// Every tile that `tileset` expands to, in the order of its blocks and of
/// their tiles.
pub open spec fn emitted(
    tileset: Seq<Seq<CompositeView>>,
    atlases: Seq<TileAtlas>,
    do_hash: bool,
) -> Seq<TileView> {
    concat_upto(tileset_tiles_at(tileset, atlases, do_hash), tileset.len())
}

/// The expansion of `tileset`: every tile that it expands to, sorted.
pub open spec fn expanded(
    tileset: Seq<Seq<CompositeView>>,
    atlases: Seq<TileAtlas>,
    do_hash: bool,
) -> Seq<TileView> {
    emitted(tileset, atlases, do_hash).sort_by(tile_order())
}

/// Copies sprite ids.
fn copy_ids(ids: &Vec<u32>) -> (r: Vec<u32>)
    ensures
        r@ == ids@,
{
    let mut r: Vec<u32> = Vec::new();
    let mut i: usize = 0;
    while i < ids.len()
        invariant
            i <= ids.len(),
            r@ == ids@.take(i as int),
        decreases ids.len() - i,
    {
        r.push(ids[i]);
        assert(r@ =~= ids@.take(i + 1));
        i += 1;
    }
    assert(ids@.take(i as int) =~= ids@);
    r
}

/// Replaces each sprite id by the content hash of its sprite.
fn hash_ids(ids: &Vec<u32>, atlases: &Vec<TileAtlas>) -> (r: Vec<u32>)
    ensures
        r@ == hashed_ids(ids@, atlases@),
{
    let mut r: Vec<u32> = Vec::new();
    let mut i: usize = 0;
    while i < ids.len()
        invariant
            i <= ids.len(),
            r@ == hashed_ids(ids@.take(i as int), atlases@),
        decreases ids.len() - i,
    {
        r.push(get_sprite_hash(atlases, ids[i]));
        assert(r@ =~= hashed_ids(ids@.take(i + 1), atlases@));
        i += 1;
    }
    assert(ids@.take(i as int) =~= ids@);
    r
}

/// Copies sprite references.
pub fn copy_sprites(refs: &SingleOrVec<SpriteIdWithWeight>) -> (r: SingleOrVec<SpriteIdWithWeight>)
    ensures
        refs_view(r@) == refs_view(refs@),
{
    let mut out: Vec<SpriteIdWithWeight> = Vec::new();
    let mut i: usize = 0;
    while i < refs.0.len()
        invariant
            i <= refs.0.len(),
            refs_view(out@) == refs_view(refs@.take(i as int)),
        decreases refs.0.len() - i,
    {
        let item = SpriteIdWithWeight {
            id: SingleOrVec(copy_ids(&refs.0[i].id.0)),
            weight: refs.0[i].weight,
        };
        let ghost prev = refs_view(out@);
        out.push(item);
        proof {
            assert(item@ == refs@[i as int]@);
            assert(refs_view(out@) =~= prev.push(item@));
            assert(refs_view(refs@.take(i + 1)) =~= refs_view(refs@.take(i as int)).push(item@));
        }
        i += 1;
    }
    assert(refs@.take(i as int) =~= refs@);
    SingleOrVec(out)
}

/// Copies sprite references, with every sprite id replaced by the content
/// hash of its sprite, and by 0 where no atlas owns the sprite.
pub fn hashed_sprites(
    refs: &SingleOrVec<SpriteIdWithWeight>,
    atlases: &Vec<TileAtlas>,
) -> (r: SingleOrVec<SpriteIdWithWeight>)
    ensures
        refs_view(r@) == hashed_refs(refs_view(refs@), atlases@),
{
    let mut out: Vec<SpriteIdWithWeight> = Vec::new();
    let mut i: usize = 0;
    while i < refs.0.len()
        invariant
            i <= refs.0.len(),
            refs_view(out@) == hashed_refs(refs_view(refs@.take(i as int)), atlases@),
        decreases refs.0.len() - i,
    {
        let item = SpriteIdWithWeight {
            id: SingleOrVec(hash_ids(&refs.0[i].id.0, atlases)),
            weight: refs.0[i].weight,
        };
        let ghost prev = refs_view(out@);
        out.push(item);
        proof {
            let upto = refs_view(refs@.take(i as int));
            let next = refs_view(refs@.take(i + 1));
            assert(next =~= upto.push(refs@[i as int]@));
            assert(refs_view(out@) =~= prev.push(item@));
            assert(item@ == hashed_ref(refs@[i as int]@, atlases@));
            assert(hashed_refs(next, atlases@) =~= hashed_refs(upto, atlases@).push(item@));
        }
        i += 1;
    }
    assert(refs@.take(i as int) =~= refs@);
    SingleOrVec(out)
}

/// Copies sprite references, with their sprite ids replaced by content
/// hashes where `do_hash` asks for it.
pub fn resolve_sprites(
    refs: &SingleOrVec<SpriteIdWithWeight>,
    atlases: &Vec<TileAtlas>,
    do_hash: bool,
) -> (r: SingleOrVec<SpriteIdWithWeight>)
    ensures
        refs_view(r@) == resolved_refs(refs_view(refs@), atlases@, do_hash),
{
    if do_hash {
        hashed_sprites(refs, atlases)
    } else {
        copy_sprites(refs)
    }
}

/// Replaces every sprite id in `ids` by the content hash of its sprite, and
/// by 0 where no atlas owns the sprite. Order and weights stay.
pub fn hash_sprites(ids: &mut SingleOrVec<SpriteIdWithWeight>, atlases: &Vec<TileAtlas>)
    ensures
        refs_view(final(ids)@) == hashed_refs(refs_view(old(ids)@), atlases@),
{
    let hashed = hashed_sprites(ids, atlases);
    *ids = hashed;
}

/// Adds the tiles of one part of a tile to `out`.
fn expand_part(
    out: &mut Vec<ExpandedTile>,
    parent_id: &String,
    height: i32,
    part: &SingleTile,
    atlases: &Vec<TileAtlas>,
    do_hash: bool,
)
    ensures
        tiles_view(final(out)@) == tiles_view(old(out)@) + part_tiles(
            parent_id@,
            height,
            part@,
            atlases@,
            do_hash,
        ),
{
    let ghost before = tiles_view(out@);
    let ghost f = part_tiles_at(parent_id@, height, part@, atlases@, do_hash);
    let mut k: usize = 0;
    proof {
        lemma_concat_step(f, 0);
        assert(before + concat_upto(f, 0) =~= before);
    }
    while k < part.id.0.len()
        invariant
            k <= part.id.0.len(),
            f == part_tiles_at(parent_id@, height, part@, atlases@, do_hash),
            tiles_view(out@) == before + concat_upto(f, k as nat),
        decreases part.id.0.len() - k,
    {
        let mut id = parent_id.clone();
        id.append("_");
        id.append(part.id.0[k].as_str());
        let tile = ExpandedTile {
            id,
            fg: resolve_sprites(&part.fg, atlases, do_hash),
            bg: resolve_sprites(&part.bg, atlases, do_hash),
            rotates: true,
            multitile: part.multitile,
            animated: part.animated,
            height_3d: height,
        };
        proof {
            reveal_strlit("_");
            assert("_"@ =~= separator());
            assert(tile@ == part_tile(parent_id@, height, part@, k as int, atlases@, do_hash));
            lemma_concat_step(f, k as nat);
        }
        let ghost prev = tiles_view(out@);
        out.push(tile);
        assert(tiles_view(out@) =~= prev.push(tile@));
        assert(tiles_view(out@) =~= before + concat_upto(f, (k + 1) as nat));
        k += 1;
    }
}

/// Adds the tiles of `tile` under its id number `alias` to `out`: first those
/// of its parts, then the tile itself.
fn expand_alias(
    out: &mut Vec<ExpandedTile>,
    tile: &CompositeTile,
    alias: usize,
    atlases: &Vec<TileAtlas>,
    do_hash: bool,
)
    requires
        alias < tile.base.id@.len(),
    ensures
        tiles_view(final(out)@) == tiles_view(old(out)@) + alias_tiles(
            tile@,
            alias as int,
            atlases@,
            do_hash,
        ),
{
    let ghost before = tiles_view(out@);
    let ghost f = parts_tiles_at(tile@, alias as int, atlases@, do_hash);
    let id: &String = &tile.base.id.0[alias];
    let height = tile.base.height_3d;
    let mut p: usize = 0;
    proof {
        lemma_concat_step(f, 0);
        assert(before + concat_upto(f, 0) =~= before);
    }
    while p < tile.additional_tiles.len()
        invariant
            p <= tile.additional_tiles.len(),
            alias < tile.base.id@.len(),
            id@ == tile@.base.ids[alias as int],
            height == tile@.base.height_3d,
            f == parts_tiles_at(tile@, alias as int, atlases@, do_hash),
            tiles_view(out@) == before + concat_upto(f, p as nat),
        decreases tile.additional_tiles.len() - p,
    {
        let ghost prev = tiles_view(out@);
        expand_part(out, id, height, &tile.additional_tiles[p], atlases, do_hash);
        proof {
            lemma_concat_step(f, p as nat);
            assert(tile@.parts[p as int] == tile.additional_tiles@[p as int]@);
            assert(tiles_view(out@) =~= before + concat_upto(f, (p + 1) as nat));
        }
        p += 1;
    }
    let rotates = match tile.base.rotates {
        Some(rotates) => rotates,
        None => tile.base.multitile,
    };
    let parent = ExpandedTile {
        id: id.clone(),
        fg: resolve_sprites(&tile.base.fg, atlases, do_hash),
        bg: resolve_sprites(&tile.base.bg, atlases, do_hash),
        rotates,
        multitile: tile.base.multitile,
        animated: tile.base.animated,
        height_3d: height,
    };
    assert(parent@ == parent_tile(tile@.base, alias as int, atlases@, do_hash));
    let ghost prev = tiles_view(out@);
    out.push(parent);
    assert(tiles_view(out@) =~= prev.push(parent@));
    assert(tiles_view(out@) =~= before + alias_tiles(tile@, alias as int, atlases@, do_hash));
}

/// Adds the tiles of `tile` to `out`, id by id.
fn expand_definition(
    out: &mut Vec<ExpandedTile>,
    tile: &CompositeTile,
    atlases: &Vec<TileAtlas>,
    do_hash: bool,
)
    ensures
        tiles_view(final(out)@) == tiles_view(old(out)@) + definition_tiles(
            tile@,
            atlases@,
            do_hash,
        ),
{
    let ghost before = tiles_view(out@);
    let ghost f = alias_tiles_at(tile@, atlases@, do_hash);
    let mut a: usize = 0;
    proof {
        lemma_concat_step(f, 0);
        assert(before + concat_upto(f, 0) =~= before);
    }
    while a < tile.base.id.0.len()
        invariant
            a <= tile.base.id.0.len(),
            f == alias_tiles_at(tile@, atlases@, do_hash),
            tiles_view(out@) == before + concat_upto(f, a as nat),
        decreases tile.base.id.0.len() - a,
    {
        expand_alias(out, tile, a, atlases, do_hash);
        proof {
            lemma_concat_step(f, a as nat);
            assert(tiles_view(out@) =~= before + concat_upto(f, (a + 1) as nat));
        }
        a += 1;
    }
}

/// Adds the tiles of the tiles of `block` to `out`, tile by tile.
fn expand_block(
    out: &mut Vec<ExpandedTile>,
    block: &TilesNew,
    atlases: &Vec<TileAtlas>,
    do_hash: bool,
)
    ensures
        tiles_view(final(out)@) == tiles_view(old(out)@) + block_tiles(block@, atlases@, do_hash),
{
    let ghost before = tiles_view(out@);
    let ghost f = block_tiles_at(block@, atlases@, do_hash);
    let mut d: usize = 0;
    proof {
        lemma_concat_step(f, 0);
        assert(before + concat_upto(f, 0) =~= before);
    }
    while d < block.tiles.len()
        invariant
            d <= block.tiles.len(),
            f == block_tiles_at(block@, atlases@, do_hash),
            tiles_view(out@) == before + concat_upto(f, d as nat),
        decreases block.tiles.len() - d,
    {
        expand_definition(out, &block.tiles[d], atlases, do_hash);
        proof {
            lemma_concat_step(f, d as nat);
            assert(block@[d as int] == block.tiles@[d as int]@);
            assert(tiles_view(out@) =~= before + concat_upto(f, (d + 1) as nat));
        }
        d += 1;
    }
}

/// Copies a tile.
pub fn copy_tile(tile: &ExpandedTile) -> (r: ExpandedTile)
    ensures
        r@ == tile@,
{
    ExpandedTile {
        id: tile.id.clone(),
        fg: copy_sprites(&tile.fg),
        bg: copy_sprites(&tile.bg),
        rotates: tile.rotates,
        multitile: tile.multitile,
        animated: tile.animated,
        height_3d: tile.height_3d,
    }
}

impl Tileset {
    /// Every tile that the tileset expands to, in the order in which the
    /// tileset lists them: not yet sorted.
    pub fn emit_variations(&self, atlases: &Vec<TileAtlas>, do_hash: bool) -> (r: Vec<ExpandedTile>)
        ensures
            tiles_view(r@) == emitted(self@, atlases@, do_hash),
    {
        let mut out: Vec<ExpandedTile> = Vec::new();
        let ghost f = tileset_tiles_at(self@, atlases@, do_hash);
        let mut b: usize = 0;
        proof {
            lemma_concat_step(f, 0);
            assert(tiles_view(out@) =~= concat_upto(f, 0));
        }
        while b < self.tiles_new.len()
            invariant
                b <= self.tiles_new.len(),
                f == tileset_tiles_at(self@, atlases@, do_hash),
                tiles_view(out@) == concat_upto(f, b as nat),
            decreases self.tiles_new.len() - b,
        {
            expand_block(&mut out, &self.tiles_new[b], atlases, do_hash);
            proof {
                lemma_concat_step(f, b as nat);
                assert(self@[b as int] == self.tiles_new@[b as int]@);
            }
            b += 1;
        }
        out
    }

    /// Expands the tileset: one tile for every id of every tile, one for every
    /// id of every part of it under each of those ids, all of them sorted.
    /// With `do_hash`, each sprite id is replaced by the content hash of its
    /// sprite as `atlases` give it.
    pub fn generate_variations(
        &self,
        atlases: &Vec<TileAtlas>,
        do_hash: bool,
    ) -> (r: Vec<ExpandedTile>)
        ensures
            tiles_view(r@) == expanded(self@, atlases@, do_hash),
    {
        let raw = self.emit_variations(atlases, do_hash);
        sorted_copy(&raw)
    }
}

/// The tiles of `tiles`, sorted.
pub fn sorted_copy(tiles: &Vec<ExpandedTile>) -> (r: Vec<ExpandedTile>)
    ensures
        tiles_view(r@) == tiles_view(tiles@).sort_by(tile_order()),
{
    let ordered = sort_refs(refs_of(tiles));
    let mut out: Vec<ExpandedTile> = Vec::new();
    let mut i: usize = 0;
    while i < ordered.len()
        invariant
            i <= ordered.len(),
            tiles_view(out@) == ref_views(ordered@).take(i as int),
        decreases ordered.len() - i,
    {
        let ghost prev = tiles_view(out@);
        let tile = copy_tile(ordered[i]);
        out.push(tile);
        assert(tiles_view(out@) =~= prev.push(tile@));
        assert(tiles_view(out@) =~= ref_views(ordered@).take(i + 1));
        i += 1;
    }
    assert(ref_views(ordered@).take(i as int) =~= ref_views(ordered@));
    out
}

} // verus!
