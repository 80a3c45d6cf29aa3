use image::{Rgba, RgbaImage};
use tileset_diff::diff::compare_tilesets;
use tileset_diff::extract::unresolved_sprites;
use tileset_diff::model::{CompositeTile, SingleTile, TilesNew, Tileset, TilesetTileInfo};
use tileset_diff::sheet::SheetImage;
use tileset_diff::single_or_vec::SingleOrVec;
use tileset_diff::sprite_id_with_weight::SpriteIdWithWeight;
use tileset_diff::text::join_lines;

/// A sheet of cells two pixels wide and high, each filled with one colour.
fn sheet_of(columns: u32, colours: &[u8]) -> SheetImage {
    let rows = (colours.len() as u32 + columns - 1) / columns;
    let img = RgbaImage::from_fn(columns * 2, rows * 2, |x, y| {
        let cell = ((y / 2) * columns + x / 2) as usize;
        let c = colours.get(cell).copied().unwrap_or(0);
        Rgba([c, c / 2, 255 - c, 255])
    });
    SheetImage::new(columns * 2, rows * 2, img.into_raw()).unwrap()
}

fn tile_on(file: &str, id: &str, fg: &[u32], parts: &[(&str, u32)]) -> (String, CompositeTile) {
    let written = |id: &str, fg: &[u32]| SingleTile {
        id: SingleOrVec::from_single(id.to_string()),
        fg: SingleOrVec(vec![SpriteIdWithWeight { id: SingleOrVec(fg.to_vec()), weight: None }]),
        bg: SingleOrVec(vec![]),
        rotates: None,
        multitile: !parts.is_empty(),
        animated: false,
        height_3d: 0,
    };
    (
        file.to_string(),
        CompositeTile {
            base: written(id, fg),
            additional_tiles: parts.iter().map(|(part, sprite)| written(part, &[*sprite])).collect(),
            comment: String::new(),
        },
    )
}

fn tileset_of(files: &[&str], tiles: Vec<(String, CompositeTile)>) -> Tileset {
    let mut blocks: Vec<TilesNew> = files
        .iter()
        .map(|file| TilesNew {
            file: file.to_string(),
            sprite_width: None,
            sprite_height: None,
            sprite_offset_x: None,
            sprite_offset_y: None,
            tiles: vec![],
            ascii: vec![],
            comment: String::new(),
        })
        .collect();
    for (file, tile) in tiles {
        blocks.iter_mut().find(|b| b.file == file).unwrap().tiles.push(tile);
    }
    Tileset {
        tile_info: vec![TilesetTileInfo { iso: false, width: 2, height: 2 }],
        tiles_new: blocks,
        overlay_ordering: vec![],
    }
}

#[test]
fn repacked_tilesets_compare_equal() {
    // Colours 10, 20, 30, 40 in one atlas of two columns ...
    let one = tileset_of(
        &["all.png"],
        vec![
            tile_on("all.png", "grass", &[0, 1], &[]),
            tile_on("all.png", "wall", &[2], &[("corner", 3), ("edge", 1)]),
        ],
    );
    let atlases_one = one.build_atlases(vec![sheet_of(2, &[10, 20, 30, 40])]).unwrap();
    // ... and the same colours spread over two atlases in another order.
    let two = tileset_of(
        &["a.png", "b.png"],
        vec![
            tile_on("b.png", "wall", &[0], &[("corner", 4), ("edge", 3)]),
            tile_on("b.png", "grass", &[6, 3], &[]),
        ],
    );
    let atlases_two =
        two.build_atlases(vec![sheet_of(3, &[30, 99, 98, 20, 40]), sheet_of(1, &[10])]).unwrap();
    assert_eq!(atlases_two[1].tiles_start(), 6);

    let compared = compare_tilesets(&one, &atlases_one, &two, &atlases_two);
    assert_eq!(compared.variations_a, compared.variations_b);
    assert_eq!(compared.variations_a.len(), 4);
    let found = compared.findings;
    assert!(found.duplicates_a.is_empty() && found.duplicates_b.is_empty());
    assert!(found.exclusives_a.is_empty() && found.exclusives_b.is_empty());
    assert_eq!(found.different, Some((vec![], vec![])));
}

#[test]
fn changed_sprites_are_reported_by_id() {
    let one = tileset_of(
        &["all.png"],
        vec![
            tile_on("all.png", "grass", &[0], &[]),
            tile_on("all.png", "wall", &[1], &[("corner", 2)]),
            tile_on("all.png", "old", &[0], &[]),
        ],
    );
    let atlases_one = one.build_atlases(vec![sheet_of(2, &[10, 20, 30, 40])]).unwrap();
    let two = tileset_of(
        &["all.png"],
        vec![
            tile_on("all.png", "wall", &[0], &[("corner", 1)]),
            tile_on("all.png", "grass", &[2], &[]),
            tile_on("all.png", "new", &[2], &[]),
        ],
    );
    // The wall keeps its sprite, its corner and the grass get other pixels.
    let atlases_two = two.build_atlases(vec![sheet_of(2, &[20, 31, 11, 0])]).unwrap();

    let found = compare_tilesets(&one, &atlases_one, &two, &atlases_two).findings;
    assert_eq!(found.exclusives_a, vec![String::from("old")]);
    assert_eq!(found.exclusives_b, vec![String::from("new")]);
    let changed = vec![String::from("grass"), String::from("wall_corner")];
    assert_eq!(found.different, Some((changed.clone(), changed.clone())));
    assert_eq!(join_lines(&changed), "grass\nwall_corner");
}

#[test]
fn sprites_outside_every_atlas_hash_to_zero_on_both_sides() {
    let one = tileset_of(&["all.png"], vec![tile_on("all.png", "ghost", &[7], &[])]);
    let atlases_one = one.build_atlases(vec![sheet_of(2, &[10, 20])]).unwrap();
    let two = tileset_of(&["all.png"], vec![tile_on("all.png", "ghost", &[900], &[])]);
    let atlases_two = two.build_atlases(vec![sheet_of(1, &[50])]).unwrap();
    let compared = compare_tilesets(&one, &atlases_one, &two, &atlases_two);
    assert_eq!(compared.variations_a[0].fg.0[0].id.0, vec![0]);
    assert_eq!(compared.findings.different, Some((vec![], vec![])));
    let plain = one.generate_variations(&atlases_one, false);
    assert_eq!(unresolved_sprites(&plain, &atlases_one), vec![7]);
}
