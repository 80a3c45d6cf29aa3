//! Extracting tiles from a tileset: the record of each tile asked for and
//! the images of the sprites that it shows.

use crate::atlas::{find_atlas, owner, save_tile_as, SpriteFile, SpriteFileView, TileAtlas};
use crate::expand::{copy_tile, expanded};
use crate::laws::lemma_hashing_keeps_ids;
use crate::model::{
    ids_of, names_view, refs_view, tiles_view, CompositeView, ExpandedTile, TileView, Tileset,
};
use crate::rank::same_name;
use crate::seqs::{concat_upto, lemma_concat_prefix, lemma_concat_step};
use crate::single_or_vec::SingleOrVec;
use crate::sprite_id_with_weight::{SpriteIdWithWeight, SpriteRefView};
use crate::text::{record_file_name, record_suffix};
use vstd::prelude::*;

verus! {

/// One thing to do, in order, to extract tiles.
#[derive(Debug, Clone, PartialEq, Eq)]
pub enum ExtractStep {
    /// Make a directory called `id` and write `tile` into it as `file`.
    WriteRecord { id: String, file: String, tile: ExpandedTile },
    /// Save the image of a sprite under its name, beside the directories of
    /// the tiles.
    SaveSprite { sprite: SpriteFile },
    /// No tile is called `id`: say so and go on.
    Missing { id: String },
    /// No atlas owns the sprite `tile_id` that a tile asked for shows: the
    /// extraction ends here.
    Unresolved { tile_id: u32 },
}

/// What a step says.
pub enum StepView {
    WriteRecord { id: Seq<char>, file: Seq<char>, tile: TileView },
    SaveSprite { sprite: SpriteFileView },
    Missing { id: Seq<char> },
    Unresolved { tile_id: u32 },
}

impl View for ExtractStep {
    type V = StepView;

    open spec fn view(&self) -> StepView {
        match *self {
            ExtractStep::WriteRecord { id, file, tile } => StepView::WriteRecord {
                id: id@,
                file: file@,
                tile: tile@,
            },
            ExtractStep::SaveSprite { sprite } => StepView::SaveSprite { sprite: sprite@ },
            ExtractStep::Missing { id } => StepView::Missing { id: id@ },
            ExtractStep::Unresolved { tile_id } => StepView::Unresolved { tile_id },
        }
    }
}

/// What each of `steps` says, in order.
pub open spec fn steps_view(steps: Seq<ExtractStep>) -> Seq<StepView> {
    steps.map_values(|s: ExtractStep| s@)
}

/// The index of the last of `tiles` that is called `id`, if any is.
pub open spec fn last_with_id(tiles: Seq<TileView>, id: Seq<char>) -> Option<int>
    decreases tiles.len(),
{
    if tiles.len() == 0 {
        None
    } else if tiles.last().id == id {
        Some(tiles.len() - 1)
    } else {
        last_with_id(tiles.drop_last(), id)
    }
}

/// The sprite ids of each of `refs`, by the number of the reference.
pub open spec fn ids_at(refs: Seq<SpriteRefView>) -> spec_fn(int) -> Seq<u32> {
    |k: int| refs[k].ids
}

/// Every sprite id that `refs` name, in order.
pub open spec fn sprite_ids(refs: Seq<SpriteRefView>) -> Seq<u32> {
    concat_upto(ids_at(refs), refs.len())
}

/// Every sprite id that `tile` names: those of its foreground, then those of
/// its background.
pub open spec fn shown_sprites(tile: TileView) -> Seq<u32> {
    sprite_ids(tile.fg) + sprite_ids(tile.bg)
}

/// What to do about the sprite `tile_id`: save its image under a name made of
/// its content hash, written with ten digits, where an atlas owns it.
pub open spec fn sprite_step(atlases: Seq<TileAtlas>, tile_id: u32) -> StepView {
    match owner(atlases, tile_id) {
        Some(a) => StepView::SaveSprite { sprite: atlases[a].hashed_file(tile_id) },
        None => StepView::Unresolved { tile_id },
    }
}

/// What to do about each of `sprites`, in order.
pub open spec fn sprite_steps(atlases: Seq<TileAtlas>, sprites: Seq<u32>) -> Seq<StepView> {
    sprites.map_values(|s: u32| sprite_step(atlases, s))
}

/// What to do about the tile called `id`. The tile is looked up among
/// `plain`, whose sprite ids say where the sprites are; its record is the tile
/// at the same place among `hashed`.
pub open spec fn tile_steps(
    plain: Seq<TileView>,
    hashed: Seq<TileView>,
    atlases: Seq<TileAtlas>,
    id: Seq<char>,
) -> Seq<StepView> {
    match last_with_id(plain, id) {
        None => seq![StepView::Missing { id }],
        Some(i) => seq![StepView::WriteRecord { id, file: id + record_suffix(), tile: hashed[i] }]
            + sprite_steps(atlases, shown_sprites(plain[i])),
    }
}

/// What to do about each of the tiles called `ids`, by the number of the id.
pub open spec fn tile_steps_at(
    plain: Seq<TileView>,
    hashed: Seq<TileView>,
    atlases: Seq<TileAtlas>,
    ids: Seq<Seq<char>>,
) -> spec_fn(int) -> Seq<StepView> {
    |k: int| tile_steps(plain, hashed, atlases, ids[k])
}

/// Everything there would be to do about the tiles called `ids` if every
/// sprite had an owner.
pub open spec fn all_steps(
    plain: Seq<TileView>,
    hashed: Seq<TileView>,
    atlases: Seq<TileAtlas>,
    ids: Seq<Seq<char>>,
) -> Seq<StepView> {
    concat_upto(tile_steps_at(plain, hashed, atlases, ids), ids.len())
}

/// `steps` up to the first that finds a sprite without an owner, and all of
/// them if none does.
pub open spec fn until_unresolved(steps: Seq<StepView>) -> Seq<StepView>
    decreases steps.len(),
{
    if steps.len() == 0 {
        steps
    } else {
        let kept = until_unresolved(steps.drop_last());
        if kept.len() > 0 && kept.last() is Unresolved {
            kept
        } else {
            kept.push(steps.last())
        }
    }
}

/// Whether none of `steps` finds a sprite without an owner.
pub open spec fn all_resolved(steps: Seq<StepView>) -> bool {
    forall|i: int| 0 <= i < steps.len() ==> !(#[trigger] steps[i] is Unresolved)
}

/// Steps that all find their sprites are all kept.
pub proof fn lemma_resolved_kept(steps: Seq<StepView>)
    requires
        all_resolved(steps),
    ensures
        until_unresolved(steps) == steps,
    decreases steps.len(),
{
    if steps.len() > 0 {
        lemma_resolved_kept(steps.drop_last());
        assert(steps.drop_last().push(steps.last()) =~= steps);
    }
}

/// Nothing is kept after a step that finds a sprite without an owner.
pub proof fn lemma_halt(steps: Seq<StepView>, rest: Seq<StepView>)
    requires
        steps.len() > 0,
        steps.last() is Unresolved,
        all_resolved(steps.drop_last()),
    ensures
        until_unresolved(steps + rest) == steps,
    decreases rest.len(),
{
    if rest.len() == 0 {
        assert(steps + rest =~= steps);
        lemma_resolved_kept(steps.drop_last());
        assert(steps.drop_last().push(steps.last()) =~= steps);
    } else {
        assert((steps + rest).drop_last() =~= steps + rest.drop_last());
        lemma_halt(steps, rest.drop_last());
    }
}

/// Finds the last of `tiles` that is called `id`.
pub fn find_last(tiles: &Vec<ExpandedTile>, id: &str) -> (r: Option<usize>)
    ensures
        match r {
            Some(i) => i < tiles.len() && last_with_id(tiles_view(tiles@), id@) == Some(i as int),
            None => last_with_id(tiles_view(tiles@), id@) is None,
        },
{
    let mut i: usize = tiles.len();
    proof {
        assert(tiles@.take(i as int) =~= tiles@);
    }
    while i > 0
        invariant
            i <= tiles.len(),
            last_with_id(tiles_view(tiles@), id@) == last_with_id(
                tiles_view(tiles@.take(i as int)),
                id@,
            ),
        decreases i,
    {
        proof {
            let upto = tiles_view(tiles@.take(i as int));
            assert(upto.last() == tiles@[i - 1]@);
            assert(upto.drop_last() =~= tiles_view(tiles@.take(i - 1)));
        }
        if same_name(tiles[i - 1].id.as_str(), id) {
            return Some(i - 1);
        }
        i -= 1;
    }
    None
}

/// Lists every sprite id that `refs` name, in order.
fn collect_ids(out: &mut Vec<u32>, refs: &SingleOrVec<SpriteIdWithWeight>)
    ensures
        final(out)@ == old(out)@ + sprite_ids(refs_view(refs@)),
{
    let ghost before = out@;
    let ghost f = ids_at(refs_view(refs@));
    let mut k: usize = 0;
    proof {
        lemma_concat_step(f, 0);
        assert(before + concat_upto(f, 0) =~= before);
    }
    while k < refs.0.len()
        invariant
            k <= refs.0.len(),
            f == ids_at(refs_view(refs@)),
            out@ == before + concat_upto(f, k as nat),
        decreases refs.0.len() - k,
    {
        let ids = &refs.0[k].id.0;
        let ghost start = out@;
        let mut m: usize = 0;
        while m < ids.len()
            invariant
                m <= ids.len(),
                out@ == start + ids@.take(m as int),
            decreases ids.len() - m,
        {
            out.push(ids[m]);
            assert(out@ =~= start + ids@.take(m + 1));
            m += 1;
        }
        proof {
            assert(ids@.take(m as int) =~= ids@);
            lemma_concat_step(f, k as nat);
            assert(f(k as int) == ids@);
            assert(out@ =~= before + concat_upto(f, (k + 1) as nat));
        }
        k += 1;
    }
}

/// Lists every sprite id that `tile` names: foreground, then background.
pub fn referenced_sprites(tile: &ExpandedTile) -> (r: Vec<u32>)
    ensures
        r@ == shown_sprites(tile@),
{
    let mut out: Vec<u32> = Vec::new();
    collect_ids(&mut out, &tile.fg);
    collect_ids(&mut out, &tile.bg);
    assert(out@ =~= shown_sprites(tile@));
    out
}

/// What to do about the tile called `id`, up to the first sprite without an
/// owner. `halted` says whether there was one.
fn plan_tile(
    plain: &Vec<ExpandedTile>,
    hashed: &Vec<ExpandedTile>,
    atlases: &Vec<TileAtlas>,
    id: &String,
) -> (r: (Vec<ExtractStep>, bool))
    requires
        plain.len() == hashed.len(),
    ensures
        ({
            let whole = tile_steps(tiles_view(plain@), tiles_view(hashed@), atlases@, id@);
            let steps = steps_view(r.0@);
            if r.1 {
                &&& 0 < steps.len() <= whole.len()
                &&& steps == whole.take(steps.len() as int)
                &&& steps.last() is Unresolved
                &&& all_resolved(steps.drop_last())
            } else {
                steps == whole && all_resolved(steps)
            }
        }),
{
    let ghost whole = tile_steps(tiles_view(plain@), tiles_view(hashed@), atlases@, id@);
    let mut steps: Vec<ExtractStep> = Vec::new();
    let index = match find_last(plain, id.as_str()) {
        Some(index) => index,
        None => {
            steps.push(ExtractStep::Missing { id: id.clone() });
            assert(steps_view(steps@) =~= whole);
            return (steps, false);
        },
    };
    let record = ExtractStep::WriteRecord {
        id: id.clone(),
        file: record_file_name(id.as_str()),
        tile: copy_tile(&hashed[index]),
    };
    let sprites = referenced_sprites(&plain[index]);
    let ghost first = seq![record@];
    let ghost rest = sprite_steps(atlases@, sprites@);
    assert(whole == first + rest);
    steps.push(record);
    assert(steps_view(steps@) =~= first);
    let mut k: usize = 0;
    while k < sprites.len()
        invariant
            k <= sprites.len(),
            whole == tile_steps(tiles_view(plain@), tiles_view(hashed@), atlases@, id@),
            whole == first + rest,
            first.len() == 1,
            !(first[0] is Unresolved),
            rest == sprite_steps(atlases@, sprites@),
            steps_view(steps@) == first + rest.take(k as int),
            all_resolved(steps_view(steps@)),
        decreases sprites.len() - k,
    {
        let tile_id = sprites[k];
        let ghost before = steps_view(steps@);
        match save_tile_as(atlases, tile_id) {
            Some(sprite) => {
                let step = ExtractStep::SaveSprite { sprite };
                assert(step@ == rest[k as int]);
                steps.push(step);
                assert(steps_view(steps@) =~= before.push(rest[k as int]));
                assert(steps_view(steps@) =~= first + rest.take(k + 1));
            },
            None => {
                let step = ExtractStep::Unresolved { tile_id };
                assert(step@ == rest[k as int]);
                steps.push(step);
                assert(steps_view(steps@) =~= before.push(rest[k as int]));
                assert(steps_view(steps@) =~= first + rest.take(k + 1));
                proof {
                    let now = steps_view(steps@);
                    assert(now.len() == k + 2);
                    assert(rest.len() == sprites.len());
                    assert(whole.len() == 1 + rest.len());
                    assert(now =~= whole.take(k + 2));
                    assert(now.drop_last() =~= before);
                    assert(now.last() == rest[k as int]);
                    assert(now.last() is Unresolved);
                    assert(all_resolved(now.drop_last()));
                }
                return (steps, true);
            },
        }
        k += 1;
    }
    assert(rest.take(k as int) =~= rest);
    (steps, false)
}

/// What to do to extract the tiles called `ids`, in order. Each tile is
/// looked up among `plain`, the expansion with sprite ids; its record is taken
/// from the same place in `hashed`, the expansion with content hashes. A tile
/// that is not there is reported and passed over. A sprite without an owner
/// ends the plan.
pub fn plan_extraction(
    plain: &Vec<ExpandedTile>,
    hashed: &Vec<ExpandedTile>,
    atlases: &Vec<TileAtlas>,
    ids: &Vec<String>,
) -> (steps: Vec<ExtractStep>)
    requires
        plain.len() == hashed.len(),
    ensures
        steps_view(steps@) == until_unresolved(
            all_steps(tiles_view(plain@), tiles_view(hashed@), atlases@, names_view(ids@)),
        ),
{
    let ghost f = tile_steps_at(
        tiles_view(plain@),
        tiles_view(hashed@),
        atlases@,
        names_view(ids@),
    );
    let ghost n = ids@.len();
    let mut steps: Vec<ExtractStep> = Vec::new();
    let mut k: usize = 0;
    proof {
        lemma_concat_step(f, 0);
        assert(steps_view(steps@) =~= concat_upto(f, 0));
    }
    while k < ids.len()
        invariant
            k <= ids.len(),
            n == ids@.len(),
            plain.len() == hashed.len(),
            f == tile_steps_at(tiles_view(plain@), tiles_view(hashed@), atlases@, names_view(ids@)),
            steps_view(steps@) == concat_upto(f, k as nat),
            all_resolved(steps_view(steps@)),
        decreases ids.len() - k,
    {
        let ghost before = steps_view(steps@);
        let (mut more, halted) = plan_tile(plain, hashed, atlases, &ids[k]);
        let ghost added = steps_view(more@);
        steps.append(&mut more);
        proof {
            assert(steps_view(steps@) =~= before + added);
            lemma_concat_step(f, k as nat);
            assert(f(k as int) == tile_steps(
                tiles_view(plain@),
                tiles_view(hashed@),
                atlases@,
                ids@[k as int]@,
            ));
        }
        if halted {
            proof {
                let whole = f(k as int);
                let done = before + added;
                let next = concat_upto(f, (k + 1) as nat);
                assert(next == before + whole);
                lemma_concat_prefix(f, (k + 1) as nat, n);
                let tail = concat_upto(f, n).skip(next.len() as int);
                let left = whole.skip(added.len() as int);
                assert(whole =~= added + left);
                assert(concat_upto(f, n) =~= done + (left + tail));
                assert(done.drop_last() =~= before + added.drop_last());
                lemma_halt(done, left + tail);
            }
            return steps;
        }
        k += 1;
    }
    proof {
        lemma_resolved_kept(steps_view(steps@));
    }
    steps
}

/// What to do to extract the tiles called `ids` from the tileset `ts`. The
/// tileset is expanded twice, with sprite ids and with content hashes: the
/// first expansion says where the sprites of a tile are, the second gives the
/// record of the tile.
pub fn extract_tiles(
    ts: &Tileset,
    atlases: &Vec<TileAtlas>,
    ids: &Vec<String>,
) -> (steps: Vec<ExtractStep>)
    ensures
        steps_view(steps@) == until_unresolved(
            all_steps(
                expanded(ts@, atlases@, false),
                expanded(ts@, atlases@, true),
                atlases@,
                names_view(ids@),
            ),
        ),
{
    let plain = ts.generate_variations(atlases, false);
    let hashed = ts.generate_variations(atlases, true);
    proof {
        lemma_hashing_keeps_ids(ts@, atlases@);
        assert(tiles_view(plain@).len() == plain@.len());
        assert(tiles_view(hashed@).len() == hashed@.len());
    }
    plan_extraction(&plain, &hashed, atlases, ids)
}

/// The record written for a tile is that of a tile with the id asked for:
/// where `id` is the id of a tile of the tileset, the steps for it begin with
/// the record of a tile called `id`.
pub proof fn lemma_record_has_id(
    tileset: Seq<Seq<CompositeView>>,
    atlases: Seq<TileAtlas>,
    id: Seq<char>,
)
    requires
        ids_of(expanded(tileset, atlases, false)).contains(id),
    ensures
        ({
            let steps = tile_steps(
                expanded(tileset, atlases, false),
                expanded(tileset, atlases, true),
                atlases,
                id,
            );
            &&& steps.len() > 0
            &&& steps[0] matches StepView::WriteRecord { id: dir, file, tile }
            &&& dir == id
            &&& file == id + record_suffix()
            &&& tile.id == id
            &&& expanded(tileset, atlases, true).contains(tile)
        }),
{
    let plain = expanded(tileset, atlases, false);
    let hashed = expanded(tileset, atlases, true);
    lemma_hashing_keeps_ids(tileset, atlases);
    let k = choose|k: int| 0 <= k < ids_of(plain).len() && ids_of(plain)[k] == id;
    lemma_last_with_id(plain, id, k);
    let i = last_with_id(plain, id).unwrap();
    assert(ids_of(plain)[i] == id);
    assert(ids_of(hashed)[i] == id);
    assert(hashed[i].id == id);
}

/// The last tile called `id` is found where any tile is called `id`.
pub proof fn lemma_last_with_id(tiles: Seq<TileView>, id: Seq<char>, k: int)
    requires
        0 <= k < tiles.len(),
        tiles[k].id == id,
    ensures
        last_with_id(tiles, id) matches Some(i) && k <= i < tiles.len() && tiles[i].id == id,
    decreases tiles.len(),
{
    if tiles.last().id != id {
        lemma_last_with_id(tiles.drop_last(), id, k);
    }
}

/// Whether no atlas owns the sprite, by the sprite's id.
pub open spec fn unowned(atlases: Seq<TileAtlas>) -> spec_fn(u32) -> bool {
    |tile_id: u32| owner(atlases, tile_id) is None
}

/// The sprite ids that each of `tiles` names, by the number of the tile.
pub open spec fn shown_at(tiles: Seq<TileView>) -> spec_fn(int) -> Seq<u32> {
    |k: int| shown_sprites(tiles[k])
}

/// The sprite ids that `tiles` name and no atlas owns: tile by tile, in the
/// order in which each tile names them, and as often.
pub open spec fn unowned_sprites(tiles: Seq<TileView>, atlases: Seq<TileAtlas>) -> Seq<u32> {
    concat_upto(shown_at(tiles), tiles.len()).filter(unowned(atlases))
}

/// Lists the sprite ids that `tiles` name and no atlas owns. With content
/// hashes, each of them is replaced by 0.
pub fn unresolved_sprites(tiles: &Vec<ExpandedTile>, atlases: &Vec<TileAtlas>) -> (r: Vec<u32>)
    ensures
        r@ == unowned_sprites(tiles_view(tiles@), atlases@),
{
    let ghost f = shown_at(tiles_view(tiles@));
    let ghost p = unowned(atlases@);
    let mut out: Vec<u32> = Vec::new();
    let mut k: usize = 0;
    proof {
        lemma_concat_step(f, 0);
        reveal(Seq::filter);
        assert(out@ =~= concat_upto(f, 0).filter(p));
    }
    while k < tiles.len()
        invariant
            k <= tiles.len(),
            f == shown_at(tiles_view(tiles@)),
            p == unowned(atlases@),
            out@ == concat_upto(f, k as nat).filter(p),
        decreases tiles.len() - k,
    {
        let sprites = referenced_sprites(&tiles[k]);
        let ghost before = concat_upto(f, k as nat);
        let mut m: usize = 0;
        proof {
            assert(before + sprites@.take(0) =~= before);
        }
        while m < sprites.len()
            invariant
                m <= sprites.len(),
                p == unowned(atlases@),
                out@ == (before + sprites@.take(m as int)).filter(p),
            decreases sprites.len() - m,
        {
            let ghost seen = before + sprites@.take(m as int);
            proof {
                reveal(Seq::filter);
                let next = before + sprites@.take(m + 1);
                assert(next.drop_last() =~= seen);
                assert(next.last() == sprites@[m as int]);
            }
            if find_atlas(atlases, sprites[m]).is_none() {
                out.push(sprites[m]);
            }
            m += 1;
        }
        proof {
            assert(sprites@.take(m as int) =~= sprites@);
            lemma_concat_step(f, k as nat);
            assert(f(k as int) == sprites@);
        }
        k += 1;
    }
    out
}

} // verus!
