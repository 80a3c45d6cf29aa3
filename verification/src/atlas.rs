//! Atlases: images cut into a grid of equally sized sprites, each sprite
//! known by a number in a range that the atlas owns.

use crate::hash::{hash_pixels, pixel_hash};
use crate::sheet::{crop, sheet_height, sheet_pixels, sheet_width, SheetImage};
use crate::text::{
    decimal_digits, hashed_file_name, image_suffix, sprite_file_name, zero_padded,
};
use vstd::prelude::*;

verus! {

/// Why an atlas could not be made.
#[derive(Debug, Clone, Copy, PartialEq, Eq)]
pub enum AtlasError {
    /// A sprite width or height of zero was asked for.
    ZeroCellSize,
    /// The sprite ids of the atlas would pass the largest id there is.
    IdRangeOverflow,
}

/// The image of one sprite, to be written to a file.
#[derive(Debug, Clone, PartialEq, Eq)]
pub struct SpriteFile {
    /// The name of the file.
    pub name: String,
    /// The width of the sprite in pixels.
    pub width: u32,
    /// The height of the sprite in pixels.
    pub height: u32,
    /// The channel bytes of the sprite, rows from top to bottom.
    pub pixels: Vec<u8>,
}

/// What the image file of a sprite holds.
pub struct SpriteFileView {
    pub name: Seq<char>,
    pub width: u32,
    pub height: u32,
    pub pixels: Seq<u8>,
}

impl View for SpriteFile {
    type V = SpriteFileView;

    open spec fn view(&self) -> SpriteFileView {
        SpriteFileView {
            name: self.name@,
            width: self.width,
            height: self.height,
            pixels: self.pixels@,
        }
    }
}

/// The number of whole sprites `cell_w` by `cell_h` pixels that fit in `img`,
/// side by side and row below row.
pub open spec fn grid_cells(img: SheetImage, cell_w: u32, cell_h: u32) -> nat {
    (sheet_width(img) / (cell_w as nat)) * (sheet_height(img) / (cell_h as nat))
}

/// An image cut into sprites `sprite_w` by `sprite_h` pixels, `tiles_x` to a
/// row and `tiles_y` rows. The sprites are numbered row by row from
/// `tiles_start`; `tiles_end` is the first number past them. Pixels right of
/// the last whole column or below the last whole row belong to no sprite.
pub struct TileAtlas {
    img: SheetImage,
    sprite_w: u32,
    sprite_h: u32,
    tiles_x: u32,
    tiles_y: u32,
    tiles_start: u32,
    tiles_end: u32,
}

impl TileAtlas {
    /// The image that the sprites are cut from.
    pub closed spec fn image(self) -> SheetImage {
        self.img
    }

    /// The width of a sprite in pixels.
    pub closed spec fn cell_width(self) -> u32 {
        self.sprite_w
    }

    /// The height of a sprite in pixels.
    pub closed spec fn cell_height(self) -> u32 {
        self.sprite_h
    }

    /// The number of sprites in a row.
    pub closed spec fn columns(self) -> u32 {
        self.tiles_x
    }

    /// The number of rows of sprites.
    pub closed spec fn rows(self) -> u32 {
        self.tiles_y
    }

    /// The id of the first sprite.
    pub closed spec fn first_id(self) -> u32 {
        self.tiles_start
    }

    /// The id after that of the last sprite.
    pub closed spec fn end_id(self) -> u32 {
        self.tiles_end
    }

    /// What holds of every atlas: the grid is the image divided by the sprite
    /// size, rounded down, and the id range has one id for each sprite.
    #[verifier::type_invariant]
    pub closed spec fn wf(self) -> bool {
        &&& self.sprite_w > 0
        &&& self.sprite_h > 0
        &&& self.tiles_x == sheet_width(self.img) / (self.sprite_w as nat)
        &&& self.tiles_y == sheet_height(self.img) / (self.sprite_h as nat)
        &&& self.tiles_end == self.tiles_start + self.tiles_x * self.tiles_y
    }

    /// The facts of [`TileAtlas::wf`], over the public names.
    pub proof fn lemma_wf(self)
        requires
            self.wf(),
        ensures
            self.cell_width() > 0,
            self.cell_height() > 0,
            self.columns() == sheet_width(self.image()) / (self.cell_width() as nat),
            self.rows() == sheet_height(self.image()) / (self.cell_height() as nat),
            self.end_id() == self.first_id() + self.columns() * self.rows(),
            self.end_id() == self.first_id() + grid_cells(
                self.image(),
                self.cell_width(),
                self.cell_height(),
            ),
    {
    }

    /// Whether the atlas owns sprite `tile_id`.
    pub open spec fn owns(self, tile_id: u32) -> bool {
        self.first_id() <= tile_id < self.end_id()
    }

    /// The column of sprite `tile_id` in the grid.
    pub open spec fn column_of(self, tile_id: u32) -> int {
        (tile_id - self.first_id()) % (self.columns() as int)
    }

    /// The row of sprite `tile_id` in the grid.
    pub open spec fn row_of(self, tile_id: u32) -> int {
        (tile_id - self.first_id()) / (self.columns() as int)
    }

    /// The channel bytes of sprite `tile_id`: the rectangle of the image at
    /// its column and row, one sprite wide and high.
    pub open spec fn sprite_pixels(self, tile_id: u32) -> Seq<u8> {
        crop(
            sheet_pixels(self.image()),
            sheet_width(self.image()),
            (self.column_of(tile_id) * self.cell_width()) as nat,
            (self.row_of(tile_id) * self.cell_height()) as nat,
            self.cell_width() as nat,
            self.cell_height() as nat,
        )
    }

    /// The content hash of sprite `tile_id`, and 0 for a sprite that the atlas
    /// does not own.
    pub open spec fn sprite_hash(self, tile_id: u32) -> u32 {
        if self.owns(tile_id) {
            pixel_hash(self.cell_width(), self.cell_height(), self.sprite_pixels(tile_id))
        } else {
            0
        }
    }

    /// The image file of sprite `tile_id`, named by the id written in base
    /// ten.
    pub open spec fn numbered_file(self, tile_id: u32) -> SpriteFileView {
        SpriteFileView {
            name: decimal_digits(tile_id as nat) + image_suffix(),
            width: self.cell_width(),
            height: self.cell_height(),
            pixels: self.sprite_pixels(tile_id),
        }
    }

    /// The image file of sprite `tile_id`, named by the content hash of the
    /// sprite written in base ten with ten digits.
    pub open spec fn hashed_file(self, tile_id: u32) -> SpriteFileView {
        SpriteFileView {
            name: zero_padded(self.sprite_hash(tile_id) as nat, 10) + image_suffix(),
            width: self.cell_width(),
            height: self.cell_height(),
            pixels: self.sprite_pixels(tile_id),
        }
    }

    /// Cuts `img` into sprites `cell_w` by `cell_h` and numbers them from
    /// `id_range_start`.
    pub fn build(
        img: SheetImage,
        cell_w: u32,
        cell_h: u32,
        id_range_start: u32,
    ) -> (r: Result<TileAtlas, AtlasError>)
        ensures
            r is Ok <==> {
                &&& cell_w > 0
                &&& cell_h > 0
                &&& id_range_start + grid_cells(img, cell_w, cell_h) <= u32::MAX
            },
            match r {
                Ok(atlas) => {
                    &&& atlas.wf()
                    &&& atlas.image() == img
                    &&& atlas.cell_width() == cell_w
                    &&& atlas.cell_height() == cell_h
                    &&& atlas.first_id() == id_range_start
                    &&& atlas.end_id() == id_range_start + grid_cells(img, cell_w, cell_h)
                },
                Err(AtlasError::ZeroCellSize) => cell_w == 0 || cell_h == 0,
                Err(AtlasError::IdRangeOverflow) => {
                    &&& cell_w > 0
                    &&& cell_h > 0
                    &&& id_range_start + grid_cells(img, cell_w, cell_h) > u32::MAX
                },
            },
    {
        if cell_w == 0 || cell_h == 0 {
            return Err(AtlasError::ZeroCellSize);
        }
        let tiles_x: u32 = img.width() / cell_w;
        let tiles_y: u32 = img.height() / cell_h;
        assert(tiles_x * tiles_y <= 0xffff_ffff * 0xffff_ffff) by (nonlinear_arith)
            requires
                tiles_x <= 0xffff_ffff,
                tiles_y <= 0xffff_ffff,
        ;
        let total: u64 = (tiles_x as u64) * (tiles_y as u64);
        let end: u64 = id_range_start as u64 + total;
        if end > u32::MAX as u64 {
            return Err(AtlasError::IdRangeOverflow);
        }
        Ok(
            TileAtlas {
                img,
                sprite_w: cell_w,
                sprite_h: cell_h,
                tiles_x,
                tiles_y,
                tiles_start: id_range_start,
                tiles_end: end as u32,
            },
        )
    }

    /// The width of a sprite in pixels.
    pub fn sprite_width(&self) -> (r: u32)
        ensures
            r == self.cell_width(),
    {
        self.sprite_w
    }

    /// The height of a sprite in pixels.
    pub fn sprite_height(&self) -> (r: u32)
        ensures
            r == self.cell_height(),
    {
        self.sprite_h
    }

    /// The id of the first sprite of the atlas.
    pub fn tiles_start(&self) -> (r: u32)
        ensures
            r == self.first_id(),
    {
        self.tiles_start
    }

    /// The id after that of the last sprite of the atlas.
    pub fn tiles_end(&self) -> (r: u32)
        ensures
            r == self.end_id(),
    {
        self.tiles_end
    }

    /// The number of sprites in the atlas.
    pub fn tiles_total(&self) -> (r: u32)
        ensures
            r == self.columns() * self.rows(),
            r == self.end_id() - self.first_id(),
    {
        proof {
            use_type_invariant(self);
        }
        self.tiles_end - self.tiles_start
    }

    /// Whether the image divides into sprites with no pixels left over.
    pub fn divides_evenly(&self) -> (r: bool)
        ensures
            r <==> sheet_width(self.image()) % (self.cell_width() as nat) == 0 && sheet_height(
                self.image(),
            ) % (self.cell_height() as nat) == 0,
    {
        proof {
            use_type_invariant(self);
        }
        self.img.width() % self.sprite_w == 0 && self.img.height() % self.sprite_h == 0
    }

    /// Whether the atlas owns sprite `tile_id`.
    pub fn in_bounds(&self, tile_id: u32) -> (r: bool)
        ensures
            r == self.owns(tile_id),
    {
        tile_id >= self.tiles_start && tile_id < self.tiles_end
    }

    /// The pixels of sprite `tile_id`, as channel bytes: rows from top to
    /// bottom, pixels from left to right, red, green, blue and alpha.
    pub fn get_sprite(&self, tile_id: u32) -> (r: Vec<u8>)
        requires
            self.owns(tile_id),
        ensures
            r@ == self.sprite_pixels(tile_id),
    {
        proof {
            use_type_invariant(self);
        }
        let width: u32 = self.img.width();
        let height: u32 = self.img.height();
        let id_within_atlas: u32 = tile_id - self.tiles_start;
        proof {
            lemma_cell_in_image(
                id_within_atlas as int,
                self.tiles_x as int,
                self.tiles_y as int,
                self.sprite_w as int,
                self.sprite_h as int,
                sheet_width(self.img) as int,
                sheet_height(self.img) as int,
            );
        }
        let within_x: u32 = id_within_atlas % self.tiles_x;
        let within_y: u32 = id_within_atlas / self.tiles_x;
        let x: u32 = within_x * self.sprite_w;
        let y: u32 = within_y * self.sprite_h;
        self.img.cut(x, y, self.sprite_w, self.sprite_h)
    }

    /// The files that dumping the sprites of the atlas into a directory
    /// writes there: the image of every sprite, in the order of their ids, each
    /// named by its id.
    pub fn dump_sprites_to_dir(&self) -> (files: Vec<SpriteFile>)
        ensures
            files.len() == self.end_id() - self.first_id(),
            forall|k: int|
                0 <= k < files.len() ==> (#[trigger] files[k])@ == self.numbered_file(
                    (self.first_id() + k) as u32,
                ),
    {
        proof {
            use_type_invariant(self);
        }
        let mut files: Vec<SpriteFile> = Vec::new();
        let mut tile_id: u32 = self.tiles_start;
        while tile_id < self.tiles_end
            invariant
                self.tiles_start <= tile_id <= self.tiles_end,
                files.len() == tile_id - self.tiles_start,
                forall|k: int|
                    0 <= k < files.len() ==> (#[trigger] files[k])@ == self.numbered_file(
                        (self.first_id() + k) as u32,
                    ),
            decreases self.tiles_end - tile_id,
        {
            files.push(
                SpriteFile {
                    name: sprite_file_name(tile_id),
                    width: self.sprite_w,
                    height: self.sprite_h,
                    pixels: self.get_sprite(tile_id),
                },
            );
            tile_id += 1;
        }
        files
    }

    /// The content hash of sprite `tile_id`, and 0 for a sprite that the atlas
    /// does not own.
    pub fn get_sprite_hash(&self, tile_id: u32) -> (r: u32)
        ensures
            r == self.sprite_hash(tile_id),
    {
        if !self.in_bounds(tile_id) {
            return 0;
        }
        let pixels = self.get_sprite(tile_id);
        hash_pixels(self.sprite_w, self.sprite_h, &pixels)
    }
}

/// The sprite numbered `local` in a grid of `tx` by `ty` sprites lies inside
/// an image that holds that many whole sprites.
proof fn lemma_cell_in_image(local: int, tx: int, ty: int, w: int, h: int, width: int, height: int)
    requires
        0 <= local < tx * ty,
        0 < w,
        0 < h,
        0 <= tx,
        0 <= ty,
        tx == width / w,
        ty == height / h,
        0 <= width,
        0 <= height,
    ensures
        0 < tx,
        0 <= local % tx < tx,
        0 <= local / tx < ty,
        0 <= (local % tx) * w,
        (local % tx) * w + w <= width,
        0 <= (local / tx) * h,
        (local / tx) * h + h <= height,
{
    assert(0 < tx) by (nonlinear_arith)
        requires
            0 <= local < tx * ty,
            0 <= tx,
            0 <= ty,
    ;
    let col = local % tx;
    let row = local / tx;
    assert(0 <= row < ty) by (nonlinear_arith)
        requires
            0 <= local < tx * ty,
            0 < tx,
            row == local / tx,
    ;
    assert(tx * w <= width) by (nonlinear_arith)
        requires
            tx == width / w,
            0 < w,
            0 <= width,
    ;
    assert(ty * h <= height) by (nonlinear_arith)
        requires
            ty == height / h,
            0 < h,
            0 <= height,
    ;
    assert(0 <= col * w && col * w + w <= tx * w) by (nonlinear_arith)
        requires
            0 <= col < tx,
            0 < w,
    ;
    assert(0 <= row * h && row * h + h <= ty * h) by (nonlinear_arith)
        requires
            0 <= row < ty,
            0 < h,
    ;
}

/// The index of the first atlas at or after `from` that owns sprite
/// `tile_id`, if there is one.
pub open spec fn owner_from(atlases: Seq<TileAtlas>, tile_id: u32, from: int) -> Option<int>
    decreases atlases.len() - from,
{
    if from < 0 || from >= atlases.len() {
        None
    } else if atlases[from].owns(tile_id) {
        Some(from)
    } else {
        owner_from(atlases, tile_id, from + 1)
    }
}

/// The index of the first atlas that owns sprite `tile_id`, if there is one.
pub open spec fn owner(atlases: Seq<TileAtlas>, tile_id: u32) -> Option<int> {
    owner_from(atlases, tile_id, 0)
}

/// The content hash of sprite `tile_id` as its first owner among `atlases`
/// gives it, and 0 for a sprite that none of them owns.
pub open spec fn lookup_hash(atlases: Seq<TileAtlas>, tile_id: u32) -> u32 {
    match owner(atlases, tile_id) {
        Some(i) => atlases[i].sprite_hash(tile_id),
        None => 0,
    }
}

/// Finds the first atlas that owns sprite `tile_id`.
pub fn find_atlas(atlases: &Vec<TileAtlas>, tile_id: u32) -> (r: Option<usize>)
    ensures
        match r {
            Some(i) => {
                &&& i < atlases.len()
                &&& atlases[i as int].owns(tile_id)
                &&& owner(atlases@, tile_id) == Some(i as int)
            },
            None => owner(atlases@, tile_id) is None,
        },
{
    let mut i: usize = 0;
    while i < atlases.len()
        invariant
            i <= atlases.len(),
            owner(atlases@, tile_id) == owner_from(atlases@, tile_id, i as int),
        decreases atlases.len() - i,
    {
        if atlases[i].in_bounds(tile_id) {
            return Some(i);
        }
        i += 1;
    }
    None
}

/// The content hash of sprite `tile_id`, looked up in the first atlas that
/// owns it; 0 when no atlas does.
pub fn get_sprite_hash(atlases: &Vec<TileAtlas>, tile_id: u32) -> (r: u32)
    ensures
        r == lookup_hash(atlases@, tile_id),
{
    match find_atlas(atlases, tile_id) {
        Some(i) => atlases[i].get_sprite_hash(tile_id),
        None => 0,
    }
}

/// The image file of sprite `tile_id`, cut from the first atlas that owns the
/// sprite and named by the content hash of the sprite. `None` when no atlas
/// owns the sprite.
pub fn save_tile_as(atlases: &Vec<TileAtlas>, tile_id: u32) -> (r: Option<SpriteFile>)
    ensures
        match r {
            Some(file) => {
                &&& owner(atlases@, tile_id) matches Some(a)
                &&& file@ == atlases@[a].hashed_file(tile_id)
            },
            None => owner(atlases@, tile_id) is None,
        },
{
    match find_atlas(atlases, tile_id) {
        Some(a) => {
            let atlas = &atlases[a];
            let pixels = atlas.get_sprite(tile_id);
            let hash = hash_pixels(atlas.sprite_width(), atlas.sprite_height(), &pixels);
            Some(
                SpriteFile {
                    name: hashed_file_name(hash),
                    width: atlas.sprite_width(),
                    height: atlas.sprite_height(),
                    pixels,
                },
            )
        },
        None => None,
    }
}

/// The content hash of a sprite that no atlas owns is 0.
pub proof fn lemma_unowned_hash_is_zero(atlases: Seq<TileAtlas>, tile_id: u32)
    requires
        forall|i: int| 0 <= i < atlases.len() ==> !(#[trigger] atlases[i]).owns(tile_id),
    ensures
        lookup_hash(atlases, tile_id) == 0,
{
    lemma_no_owner_from(atlases, tile_id, 0);
}

/// Where no atlas owns a sprite, none is found from any index on.
proof fn lemma_no_owner_from(atlases: Seq<TileAtlas>, tile_id: u32, from: int)
    requires
        0 <= from,
        forall|i: int| 0 <= i < atlases.len() ==> !(#[trigger] atlases[i]).owns(tile_id),
    ensures
        owner_from(atlases, tile_id, from) is None,
    decreases atlases.len() - from,
{
    if from < atlases.len() {
        lemma_no_owner_from(atlases, tile_id, from + 1);
    }
}

} // verus!
