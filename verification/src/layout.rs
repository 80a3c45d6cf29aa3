//! Laying the atlases of a tileset out over one range of sprite ids: each
//! atlas owns the ids that follow those of the atlas before it.

use crate::atlas::{grid_cells, AtlasError, TileAtlas};
use crate::model::Tileset;
use crate::sheet::SheetImage;
use vstd::prelude::*;

verus! {

/// Why the atlases of a tileset could not be made.
#[derive(Debug, Clone, Copy, PartialEq, Eq)]
pub enum BuildError {
    /// There is not one image for each atlas block of the tileset.
    ImageCount,
    /// Atlas block `block` leaves a sprite dimension open and the tileset has
    /// no default sprite size.
    MissingGeometry { block: usize },
    /// The atlas of block `block` could not be made.
    Atlas { block: usize, error: AtlasError },
}

/// What is wrong with one atlas block.
pub enum BlockFault {
    /// A sprite dimension is open and there is no default.
    MissingGeometry,
    /// The atlas cannot be made, for the reason given.
    Atlas(AtlasError),
}

impl Tileset {
    /// The sprite size of atlas block `block`: the block's own width and
    /// height where it states them, and those of the tileset's first default
    /// where it does not.
    pub open spec fn cell_size(&self, block: int) -> Option<(u32, u32)> {
        let own = self.tiles_new@[block];
        match (own.sprite_width, own.sprite_height) {
            (Some(w), Some(h)) => Some((w, h)),
            (Some(w), None) => if self.tile_info@.len() > 0 {
                Some((w, self.tile_info@[0].height))
            } else {
                None
            },
            (None, Some(h)) => if self.tile_info@.len() > 0 {
                Some((self.tile_info@[0].width, h))
            } else {
                None
            },
            (None, None) => if self.tile_info@.len() > 0 {
                Some((self.tile_info@[0].width, self.tile_info@[0].height))
            } else {
                None
            },
        }
    }

    /// The number of sprites in the atlases of the blocks before `block`:
    /// the first sprite id of the atlas of `block`.
    pub open spec fn range_start(&self, images: Seq<SheetImage>, block: int) -> int
        decreases block,
    {
        if block <= 0 {
            0
        } else {
            let size = self.cell_size(block - 1).unwrap();
            self.range_start(images, block - 1) + grid_cells(images[block - 1], size.0, size.1)
        }
    }

    /// What is wrong with atlas block `block`, if anything.
    pub open spec fn block_fault(&self, images: Seq<SheetImage>, block: int) -> Option<BlockFault> {
        match self.cell_size(block) {
            None => Some(BlockFault::MissingGeometry),
            Some(size) => if size.0 == 0 || size.1 == 0 {
                Some(BlockFault::Atlas(AtlasError::ZeroCellSize))
            } else if self.range_start(images, block) + grid_cells(images[block], size.0, size.1)
                > u32::MAX {
                Some(BlockFault::Atlas(AtlasError::IdRangeOverflow))
            } else {
                None
            },
        }
    }

    /// Whether `atlases` are the atlases of the tileset over `images`: one
    /// for each block, cut from the image of the block into sprites of the
    /// block's size, and owning the ids from where the atlas before it ends.
    pub open spec fn laid_out(&self, images: Seq<SheetImage>, atlases: Seq<TileAtlas>) -> bool {
        &&& atlases.len() == self.tiles_new@.len()
        &&& images.len() == self.tiles_new@.len()
        &&& forall|b: int|
            0 <= b < atlases.len() ==> {
                &&& (#[trigger] atlases[b]).wf()
                &&& atlases[b].image() == images[b]
                &&& self.cell_size(b) == Some((atlases[b].cell_width(), atlases[b].cell_height()))
                &&& atlases[b].first_id() == self.range_start(images, b)
                &&& atlases[b].end_id() == self.range_start(images, b + 1)
            }
    }

    /// The sprite size of atlas block `block`.
    pub fn effective_cell_size(&self, block: usize) -> (r: Option<(u32, u32)>)
        requires
            block < self.tiles_new@.len(),
        ensures
            r == self.cell_size(block as int),
    {
        let own = &self.tiles_new[block];
        let width = match own.sprite_width {
            Some(w) => w,
            None => {
                if self.tile_info.len() == 0 {
                    return None;
                }
                self.tile_info[0].width
            },
        };
        let height = match own.sprite_height {
            Some(h) => h,
            None => {
                if self.tile_info.len() == 0 {
                    return None;
                }
                self.tile_info[0].height
            },
        };
        Some((width, height))
    }

    /// Makes the atlases of the tileset from the decoded images of its atlas
    /// blocks, in the order of the blocks. The first atlas owns the sprite ids
    /// from 0, and each other atlas those from where the one before it ends.
    /// Fails at the first block that has something wrong with it.
    pub fn build_atlases(&self, images: Vec<SheetImage>) -> (r: Result<Vec<TileAtlas>, BuildError>)
        ensures
            match r {
                Ok(atlases) => self.laid_out(images@, atlases@),
                Err(BuildError::ImageCount) => images@.len() != self.tiles_new@.len(),
                Err(BuildError::MissingGeometry { block }) => {
                    &&& images@.len() == self.tiles_new@.len()
                    &&& block < images@.len()
                    &&& forall|b: int| 0 <= b < block ==> self.block_fault(images@, b) is None
                    &&& self.block_fault(images@, block as int) == Some(BlockFault::MissingGeometry)
                },
                Err(BuildError::Atlas { block, error }) => {
                    &&& images@.len() == self.tiles_new@.len()
                    &&& block < images@.len()
                    &&& forall|b: int| 0 <= b < block ==> self.block_fault(images@, b) is None
                    &&& self.block_fault(images@, block as int) == Some(BlockFault::Atlas(error))
                },
            },
    {
        let count = self.tiles_new.len();
        if images.len() != count {
            return Err(BuildError::ImageCount);
        }
        let ghost all = images@;
        let mut rest = images;
        let mut atlases: Vec<TileAtlas> = Vec::new();
        let mut start: u32 = 0;
        let mut block: usize = 0;
        while block < count
            invariant
                count == self.tiles_new@.len(),
                all == images@,
                all.len() == count,
                block <= count,
                rest@ == all.subrange(block as int, count as int),
                atlases.len() == block,
                start == self.range_start(all, block as int),
                forall|b: int| 0 <= b < block ==> self.block_fault(all, b) is None,
                forall|b: int|
                    0 <= b < block ==> {
                        &&& (#[trigger] atlases@[b]).wf()
                        &&& atlases@[b].image() == all[b]
                        &&& self.cell_size(b) == Some(
                            (atlases@[b].cell_width(), atlases@[b].cell_height()),
                        )
                        &&& atlases@[b].first_id() == self.range_start(all, b)
                        &&& atlases@[b].end_id() == self.range_start(all, b + 1)
                    },
            decreases count - block,
        {
            let size = match self.effective_cell_size(block) {
                Some(size) => size,
                None => {
                    return Err(BuildError::MissingGeometry { block });
                },
            };
            let img = rest.remove(0);
            assert(img == all[block as int]);
            assert(rest@ =~= all.subrange(block + 1, count as int));
            match TileAtlas::build(img, size.0, size.1, start) {
                Ok(atlas) => {
                    proof {
                        atlas.lemma_wf();
                    }
                    start = atlas.tiles_end();
                    atlases.push(atlas);
                },
                Err(error) => {
                    return Err(BuildError::Atlas { block, error });
                },
            }
            block += 1;
        }
        Ok(atlases)
    }
}

/// The atlases of a tileset own one range of sprite ids without gaps: the
/// first starts at 0 and each other starts where the one before it ends, so
/// no sprite id has two owners.
pub proof fn lemma_ranges_contiguous(
    tileset: Tileset,
    images: Seq<SheetImage>,
    atlases: Seq<TileAtlas>,
)
    requires
        tileset.laid_out(images, atlases),
    ensures
        atlases.len() > 0 ==> atlases[0].first_id() == 0,
        forall|b: int|
            0 <= b < atlases.len() - 1 ==> (#[trigger] atlases[b]).end_id() == atlases[b
                + 1].first_id(),
        forall|a: int, b: int, id: u32|
            0 <= a < b < atlases.len() ==> !(#[trigger] atlases[a].owns(id) && #[trigger] atlases[b].owns(
                id,
            )),
{
    assert forall|a: int, b: int| 0 <= a < b < atlases.len() implies (#[trigger] atlases[a])
        .end_id() <= (#[trigger] atlases[b]).first_id() by {
        lemma_range_start_monotonic(tileset, images, atlases, a + 1, b);
    }
}

/// Later atlases start no earlier.
proof fn lemma_range_start_monotonic(
    tileset: Tileset,
    images: Seq<SheetImage>,
    atlases: Seq<TileAtlas>,
    a: int,
    b: int,
)
    requires
        tileset.laid_out(images, atlases),
        0 <= a <= b < atlases.len(),
    ensures
        tileset.range_start(images, a) <= tileset.range_start(images, b),
    decreases b - a,
{
    if a < b {
        lemma_range_start_monotonic(tileset, images, atlases, a, b - 1);
        assert(atlases[b - 1].first_id() <= atlases[b - 1].end_id()) by {
            atlases[b - 1].lemma_wf();
            assert(atlases[b - 1].columns() * atlases[b - 1].rows() >= 0) by (nonlinear_arith);
        }
    }
}

} // verus!
