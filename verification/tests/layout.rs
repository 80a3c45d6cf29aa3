use tileset_diff::atlas::AtlasError;
use tileset_diff::layout::BuildError;
use tileset_diff::model::{TilesNew, Tileset, TilesetTileInfo};
use tileset_diff::sheet::SheetImage;

fn blank(width: u32, height: u32) -> SheetImage {
    SheetImage::new(width, height, vec![0; (4 * width * height) as usize]).unwrap()
}

fn block(file: &str, width: Option<u32>, height: Option<u32>) -> TilesNew {
    TilesNew {
        file: file.to_string(),
        sprite_width: width,
        sprite_height: height,
        sprite_offset_x: None,
        sprite_offset_y: None,
        tiles: vec![],
        ascii: vec![],
        comment: String::new(),
    }
}

fn tileset_of(info: Vec<(u32, u32)>, blocks: Vec<TilesNew>) -> Tileset {
    Tileset {
        tile_info: info
            .into_iter()
            .map(|(width, height)| TilesetTileInfo { iso: false, width, height })
            .collect(),
        tiles_new: blocks,
        overlay_ordering: vec![],
    }
}

#[test]
fn atlases_own_contiguous_ranges_from_zero() {
    let ts = tileset_of(
        vec![(2, 2)],
        vec![block("a.png", None, None), block("b.png", None, None), block("c.png", None, None)],
    );
    let atlases = ts.build_atlases(vec![blank(4, 2), blank(6, 4), blank(2, 2)]).unwrap();
    assert_eq!(atlases.len(), 3);
    assert_eq!((atlases[0].tiles_start(), atlases[0].tiles_end()), (0, 2));
    assert_eq!((atlases[1].tiles_start(), atlases[1].tiles_end()), (2, 8));
    assert_eq!((atlases[2].tiles_start(), atlases[2].tiles_end()), (8, 9));
}

#[test]
fn atlas_without_sprites_takes_no_ids() {
    let ts = tileset_of(vec![(4, 4)], vec![block("a.png", None, None), block("b.png", None, None)]);
    let atlases = ts.build_atlases(vec![blank(3, 3), blank(8, 4)]).unwrap();
    assert_eq!((atlases[0].tiles_start(), atlases[0].tiles_end()), (0, 0));
    assert_eq!((atlases[1].tiles_start(), atlases[1].tiles_end()), (0, 2));
}

#[test]
fn block_size_overrides_the_default() {
    let ts = tileset_of(
        vec![(2, 2), (100, 100)],
        vec![
            block("a.png", Some(4), None),
            block("b.png", None, Some(1)),
            block("c.png", Some(1), Some(4)),
        ],
    );
    assert_eq!(ts.effective_cell_size(0), Some((4, 2)));
    assert_eq!(ts.effective_cell_size(1), Some((2, 1)));
    assert_eq!(ts.effective_cell_size(2), Some((1, 4)));
    let atlases = ts.build_atlases(vec![blank(8, 4), blank(8, 4), blank(8, 4)]).unwrap();
    assert_eq!((atlases[0].sprite_width(), atlases[0].sprite_height()), (4, 2));
    assert_eq!(atlases[0].tiles_total(), 4);
    assert_eq!(atlases[1].tiles_total(), 16);
    assert_eq!(atlases[2].tiles_total(), 8);
    assert_eq!(atlases[2].tiles_end(), 28);
}

#[test]
fn full_block_size_needs_no_default() {
    let ts = tileset_of(vec![], vec![block("a.png", Some(2), Some(2))]);
    assert_eq!(ts.effective_cell_size(0), Some((2, 2)));
    let atlases = ts.build_atlases(vec![blank(4, 4)]).unwrap();
    assert_eq!(atlases[0].tiles_total(), 4);
}

#[test]
fn tileset_without_blocks_has_no_atlases() {
    let ts = tileset_of(vec![(2, 2)], vec![]);
    assert!(ts.build_atlases(vec![]).unwrap().is_empty());
}

#[test]
fn build_fails_without_one_image_for_each_block() {
    let ts = tileset_of(vec![(2, 2)], vec![block("a.png", None, None)]);
    assert_eq!(ts.build_atlases(vec![]).err(), Some(BuildError::ImageCount));
    assert_eq!(ts.build_atlases(vec![blank(2, 2), blank(2, 2)]).err(), Some(BuildError::ImageCount));
}

#[test]
fn build_fails_where_a_dimension_is_open_and_there_is_no_default() {
    let ts = tileset_of(vec![], vec![block("a.png", Some(2), Some(2)), block("b.png", Some(2), None)]);
    assert_eq!(ts.effective_cell_size(1), None);
    assert_eq!(
        ts.build_atlases(vec![blank(2, 2), blank(2, 2)]).err(),
        Some(BuildError::MissingGeometry { block: 1 })
    );
}

#[test]
fn build_fails_on_a_cell_size_of_zero() {
    let ts = tileset_of(vec![(2, 0)], vec![block("a.png", None, Some(2)), block("b.png", None, None)]);
    assert_eq!(
        ts.build_atlases(vec![blank(2, 2), blank(2, 2)]).err(),
        Some(BuildError::Atlas { block: 1, error: AtlasError::ZeroCellSize })
    );
}

#[test]
fn empty_images_give_atlases_without_sprites() {
    let ts = tileset_of(vec![(1, 1)], vec![block("a.png", None, None), block("b.png", None, None)]);
    let wide = SheetImage::new(65536, 0, vec![]).unwrap();
    let atlases = ts.build_atlases(vec![wide, blank(3, 1)]).unwrap();
    assert_eq!(atlases[0].tiles_total(), 0);
    assert_eq!((atlases[1].tiles_start(), atlases[1].tiles_end()), (0, 3));
}
