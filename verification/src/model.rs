//! The tileset document and the tiles that it expands to.

use crate::single_or_vec::SingleOrVec;
use crate::sprite_id_with_weight::{SpriteIdWithWeight, SpriteRefView};
use vstd::prelude::*;

verus! {

/// The sprite size that atlases of a tileset have unless they say otherwise.
#[derive(Debug, Clone, Copy, PartialEq, Eq)]
pub struct TilesetTileInfo {
    pub iso: bool,
    pub width: u32,
    pub height: u32,
}

/// The place of some tiles in the order in which overlays are drawn.
#[derive(Debug)]
pub struct OverlayOrderElem {
    pub id: SingleOrVec<String>,
    pub order: i32,
}

/// A tile as it is written down: the ids that name it, its sprites and its
/// flags. Several ids are several names for the same tile.
#[derive(Clone, Debug, Ord, PartialOrd, Eq, PartialEq, Hash)]
pub struct SingleTile {
    pub id: SingleOrVec<String>,
    pub fg: SingleOrVec<SpriteIdWithWeight>,
    pub bg: SingleOrVec<SpriteIdWithWeight>,
    pub rotates: Option<bool>,
    pub multitile: bool,
    pub animated: bool,
    pub height_3d: i32,
}

/// A tile together with the parts of it that are drawn next to neighbours,
/// such as corners and edges.
#[derive(Debug)]
pub struct CompositeTile {
    pub base: SingleTile,
    pub additional_tiles: Vec<SingleTile>,
    pub comment: String,
}

/// A character drawn from a font atlas.
#[derive(Debug)]
pub struct SingleAscii {
    pub offset: i32,
    pub bold: bool,
    pub color: String,
}

/// One atlas image of a tileset and the tiles that are drawn from it.
#[derive(Debug)]
pub struct TilesNew {
    pub file: String,
    pub sprite_width: Option<u32>,
    pub sprite_height: Option<u32>,
    pub sprite_offset_x: Option<i32>,
    pub sprite_offset_y: Option<i32>,
    pub tiles: Vec<CompositeTile>,
    pub ascii: Vec<SingleAscii>,
    pub comment: String,
}

/// A tileset: default sprite sizes, atlas images with their tiles, and the
/// order of overlays.
#[derive(Debug)]
pub struct Tileset {
    pub tile_info: Vec<TilesetTileInfo>,
    pub tiles_new: Vec<TilesNew>,
    pub overlay_ordering: Vec<OverlayOrderElem>,
}

/// One concrete tile: a single id, its sprites, and every flag decided.
#[derive(Clone, Debug, Ord, PartialOrd, Eq, PartialEq, Hash)]
pub struct ExpandedTile {
    pub id: String,
    pub fg: SingleOrVec<SpriteIdWithWeight>,
    pub bg: SingleOrVec<SpriteIdWithWeight>,
    pub rotates: bool,
    pub multitile: bool,
    pub animated: bool,
    pub height_3d: i32,
}

/// What a written tile says.
pub struct TileDefView {
    pub ids: Seq<Seq<char>>,
    pub fg: Seq<SpriteRefView>,
    pub bg: Seq<SpriteRefView>,
    pub rotates: Option<bool>,
    pub multitile: bool,
    pub animated: bool,
    pub height_3d: i32,
}

/// What a written tile with parts says.
pub struct CompositeView {
    pub base: TileDefView,
    pub parts: Seq<TileDefView>,
}

/// What a concrete tile says.
pub struct TileView {
    pub id: Seq<char>,
    pub fg: Seq<SpriteRefView>,
    pub bg: Seq<SpriteRefView>,
    pub rotates: bool,
    pub multitile: bool,
    pub animated: bool,
    pub height_3d: i32,
}

/// What each of `refs` says, in order.
pub open spec fn refs_view(refs: Seq<SpriteIdWithWeight>) -> Seq<SpriteRefView> {
    refs.map_values(|r: SpriteIdWithWeight| r@)
}

/// The characters of each of `names`, in order.
pub open spec fn names_view(names: Seq<String>) -> Seq<Seq<char>> {
    names.map_values(|s: String| s@)
}

/// What each of `defs` says, in order.
pub open spec fn defs_view(defs: Seq<SingleTile>) -> Seq<TileDefView> {
    defs.map_values(|d: SingleTile| d@)
}

/// What each of `tiles` says, in order.
pub open spec fn composites_view(tiles: Seq<CompositeTile>) -> Seq<CompositeView> {
    tiles.map_values(|t: CompositeTile| t@)
}

/// What each of `tiles` says, in order.
pub open spec fn tiles_view(tiles: Seq<ExpandedTile>) -> Seq<TileView> {
    tiles.map_values(|t: ExpandedTile| t@)
}

/// The ids of `tiles`, in order.
pub open spec fn ids_of(tiles: Seq<TileView>) -> Seq<Seq<char>> {
    tiles.map_values(|t: TileView| t.id)
}

impl View for SingleTile {
    type V = TileDefView;

    open spec fn view(&self) -> TileDefView {
        TileDefView {
            ids: names_view(self.id@),
            fg: refs_view(self.fg@),
            bg: refs_view(self.bg@),
            rotates: self.rotates,
            multitile: self.multitile,
            animated: self.animated,
            height_3d: self.height_3d,
        }
    }
}

impl View for CompositeTile {
    type V = CompositeView;

    open spec fn view(&self) -> CompositeView {
        CompositeView { base: self.base@, parts: defs_view(self.additional_tiles@) }
    }
}

impl View for TilesNew {
    type V = Seq<CompositeView>;

    open spec fn view(&self) -> Seq<CompositeView> {
        composites_view(self.tiles@)
    }
}

impl View for Tileset {
    type V = Seq<Seq<CompositeView>>;

    /// The tiles of each atlas block, in the order of the blocks.
    open spec fn view(&self) -> Seq<Seq<CompositeView>> {
        self.tiles_new@.map_values(|b: TilesNew| b@)
    }
}

impl View for ExpandedTile {
    type V = TileView;

    open spec fn view(&self) -> TileView {
        TileView {
            id: self.id@,
            fg: refs_view(self.fg@),
            bg: refs_view(self.bg@),
            rotates: self.rotates,
            multitile: self.multitile,
            animated: self.animated,
            height_3d: self.height_3d,
        }
    }
}

} // verus!
