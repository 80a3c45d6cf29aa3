use image::{Rgba, RgbaImage};
use tileset_diff::atlas::{get_sprite_hash, TileAtlas};
use tileset_diff::expand::{copy_tile, hash_sprites, resolve_sprites, sorted_copy};
use tileset_diff::model::{
    CompositeTile, ExpandedTile, SingleTile, TilesNew, Tileset, TilesetTileInfo,
};
use tileset_diff::sheet::SheetImage;
use tileset_diff::single_or_vec::SingleOrVec;
use tileset_diff::sprite_id_with_weight::SpriteIdWithWeight;

fn sprite(ids: &[u32], weight: Option<u32>) -> SpriteIdWithWeight {
    SpriteIdWithWeight { id: SingleOrVec(ids.to_vec()), weight }
}

fn written(ids: &[&str], fg: Vec<SpriteIdWithWeight>, bg: Vec<SpriteIdWithWeight>) -> SingleTile {
    SingleTile {
        id: SingleOrVec(ids.iter().map(|s| s.to_string()).collect()),
        fg: SingleOrVec(fg),
        bg: SingleOrVec(bg),
        rotates: None,
        multitile: false,
        animated: false,
        height_3d: 0,
    }
}

fn whole(base: SingleTile, parts: Vec<SingleTile>) -> CompositeTile {
    CompositeTile { base, additional_tiles: parts, comment: String::new() }
}

fn tileset(blocks: Vec<Vec<CompositeTile>>) -> Tileset {
    Tileset {
        tile_info: vec![TilesetTileInfo { iso: false, width: 2, height: 2 }],
        tiles_new: blocks
            .into_iter()
            .map(|tiles| TilesNew {
                file: String::from("tiles.png"),
                sprite_width: None,
                sprite_height: None,
                sprite_offset_x: None,
                sprite_offset_y: None,
                tiles,
                ascii: vec![],
                comment: String::new(),
            })
            .collect(),
        overlay_ordering: vec![],
    }
}

fn atlases() -> Vec<TileAtlas> {
    let img = RgbaImage::from_fn(4, 2, |x, y| Rgba([x as u8, y as u8, (x + y) as u8, 255]));
    vec![TileAtlas::build(SheetImage::new(4, 2, img.into_raw()).unwrap(), 2, 2, 0).unwrap()]
}

fn ids(tiles: &[ExpandedTile]) -> Vec<&str> {
    tiles.iter().map(|t| t.id.as_str()).collect()
}

#[test]
fn alias_fan_out() {
    let mut base = written(&["a", "b", "c"], vec![sprite(&[1], Some(3))], vec![sprite(&[0, 1], None)]);
    base.animated = true;
    base.height_3d = 4;
    let ts = tileset(vec![vec![whole(base, vec![])]]);
    let tiles = ts.generate_variations(&atlases(), false);
    assert_eq!(tiles.len(), 3);
    assert_eq!(ids(&tiles), vec!["a", "b", "c"]);
    for tile in &tiles {
        assert_eq!(tile.fg.0, vec![sprite(&[1], Some(3))]);
        assert_eq!(tile.bg.0, vec![sprite(&[0, 1], None)]);
        assert!(!tile.rotates);
        assert!(!tile.multitile);
        assert!(tile.animated);
        assert_eq!(tile.height_3d, 4);
    }
}

#[test]
fn composite_naming_and_rotation() {
    let mut wall = written(&["wall"], vec![sprite(&[0], None)], vec![]);
    wall.height_3d = 7;
    wall.rotates = Some(false);
    let mut corner = written(&["corner"], vec![sprite(&[1], None)], vec![]);
    corner.rotates = Some(false);
    corner.height_3d = 99;
    corner.multitile = true;
    let ts = tileset(vec![vec![whole(wall, vec![corner])]]);
    let tiles = ts.generate_variations(&atlases(), false);
    assert_eq!(ids(&tiles), vec!["wall", "wall_corner"]);
    let part = &tiles[1];
    assert!(part.rotates);
    assert_eq!(part.height_3d, 7);
    assert!(part.multitile);
    assert_eq!(part.fg.0, vec![sprite(&[1], None)]);
    let parent = &tiles[0];
    assert!(!parent.rotates);
    assert_eq!(parent.height_3d, 7);
}

#[test]
fn every_part_comes_under_every_id() {
    let base = written(&["w1", "w2"], vec![], vec![]);
    let edge = written(&["edge", "end"], vec![], vec![]);
    let center = written(&["center"], vec![], vec![]);
    let ts = tileset(vec![vec![whole(base, vec![edge, center])]]);
    let raw = ts.emit_variations(&atlases(), false);
    assert_eq!(
        ids(&raw),
        vec!["w1_edge", "w1_end", "w1_center", "w1", "w2_edge", "w2_end", "w2_center", "w2"]
    );
    let sorted = ts.generate_variations(&atlases(), false);
    assert_eq!(
        ids(&sorted),
        vec!["w1", "w1_center", "w1_edge", "w1_end", "w2", "w2_center", "w2_edge", "w2_end"]
    );
}

#[test]
fn rotation_default() {
    let mut multi = written(&["multi"], vec![], vec![]);
    multi.multitile = true;
    let single = written(&["single"], vec![], vec![]);
    let mut fixed = written(&["fixed"], vec![], vec![]);
    fixed.multitile = true;
    fixed.rotates = Some(false);
    let mut turned = written(&["turned"], vec![], vec![]);
    turned.rotates = Some(true);
    let ts = tileset(vec![vec![
        whole(multi, vec![]),
        whole(single, vec![]),
        whole(fixed, vec![]),
        whole(turned, vec![]),
    ]]);
    let tiles = ts.generate_variations(&atlases(), false);
    assert_eq!(ids(&tiles), vec!["fixed", "multi", "single", "turned"]);
    assert!(!tiles[0].rotates);
    assert!(tiles[1].rotates && tiles[1].multitile);
    assert!(!tiles[2].rotates && !tiles[2].multitile);
    assert!(tiles[3].rotates && !tiles[3].multitile);
}

#[test]
fn tile_without_ids_expands_to_nothing() {
    let none = written(&[], vec![sprite(&[0], None)], vec![]);
    let part = written(&["part"], vec![], vec![]);
    let ts = tileset(vec![vec![whole(none, vec![part])]]);
    assert!(ts.generate_variations(&atlases(), true).is_empty());
    assert!(tileset(vec![]).generate_variations(&atlases(), true).is_empty());
    assert!(tileset(vec![vec![], vec![]]).generate_variations(&atlases(), false).is_empty());
}

#[test]
fn part_without_ids_expands_to_nothing() {
    let base = written(&["x"], vec![], vec![]);
    let part = written(&[], vec![], vec![]);
    let ts = tileset(vec![vec![whole(base, vec![part])]]);
    assert_eq!(ids(&ts.generate_variations(&atlases(), false)), vec!["x"]);
}

#[test]
fn empty_sprite_lists_stay_empty() {
    let ts = tileset(vec![vec![whole(written(&["bare"], vec![], vec![]), vec![])]]);
    let tiles = ts.generate_variations(&atlases(), true);
    assert_eq!(tiles.len(), 1);
    assert!(tiles[0].fg.0.is_empty());
    assert!(tiles[0].bg.0.is_empty());
}

#[test]
fn hashing_replaces_every_sprite_id_and_nothing_else() {
    let atlases = atlases();
    let base = written(
        &["t"],
        vec![sprite(&[1, 0, 1], Some(5)), sprite(&[], None), sprite(&[7], Some(1))],
        vec![sprite(&[0], None)],
    );
    let ts = tileset(vec![vec![whole(base, vec![])]]);
    let tiles = ts.generate_variations(&atlases, true);
    let h0 = 1622661187;
    let h1 = 3915063495;
    assert_eq!(
        tiles[0].fg.0,
        vec![sprite(&[h1, h0, h1], Some(5)), sprite(&[], None), sprite(&[0], Some(1))]
    );
    assert_eq!(tiles[0].bg.0, vec![sprite(&[h0], None)]);
    assert_eq!(get_sprite_hash(&atlases, 0), h0);
    let plain = ts.generate_variations(&atlases, false);
    assert_eq!(plain[0].fg.0[0], sprite(&[1, 0, 1], Some(5)));
}

#[test]
fn hash_sprites_rewrites_in_place() {
    let atlases = atlases();
    let mut refs = SingleOrVec(vec![sprite(&[0, 5], Some(2)), sprite(&[1], None)]);
    hash_sprites(&mut refs, &atlases);
    assert_eq!(refs.0, vec![sprite(&[1622661187, 0], Some(2)), sprite(&[3915063495], None)]);
}

#[test]
fn resolve_sprites_without_hashing_copies() {
    let refs = SingleOrVec(vec![sprite(&[0, 5], Some(2)), sprite(&[1], None)]);
    assert_eq!(resolve_sprites(&refs, &atlases(), false), refs);
}

#[test]
fn expansion_is_idempotent() {
    let mut a = written(&["b", "a"], vec![sprite(&[1], None)], vec![sprite(&[0], Some(1))]);
    a.multitile = true;
    let part = written(&["z", "y"], vec![sprite(&[0], None)], vec![]);
    let other = written(&["a"], vec![sprite(&[0], None)], vec![]);
    let ts = tileset(vec![vec![whole(a, vec![part])], vec![whole(other, vec![])]]);
    let atlases = atlases();
    assert_eq!(ts.generate_variations(&atlases, true), ts.generate_variations(&atlases, true));
    assert_eq!(ts.generate_variations(&atlases, false), ts.generate_variations(&atlases, false));
}

#[test]
fn expansion_is_sorted_like_the_derived_order() {
    let mut a = written(&["m", "a", "z"], vec![sprite(&[1], None)], vec![sprite(&[0], Some(1))]);
    a.multitile = true;
    let part = written(&["q", "b"], vec![sprite(&[0], None)], vec![]);
    let same_id = written(&["a"], vec![sprite(&[0], None)], vec![]);
    let same_id_weighted = written(&["a"], vec![sprite(&[0], Some(0))], vec![]);
    let mut same_id_high = written(&["a"], vec![sprite(&[0], None)], vec![]);
    same_id_high.height_3d = -3;
    let ts = tileset(vec![
        vec![whole(a, vec![part])],
        vec![whole(same_id, vec![]), whole(same_id_weighted, vec![]), whole(same_id_high, vec![])],
    ]);
    let atlases = atlases();
    for do_hash in [false, true] {
        let mut expected = ts.emit_variations(&atlases, do_hash);
        expected.sort();
        assert_eq!(ts.generate_variations(&atlases, do_hash), expected);
    }
}

#[test]
fn sorted_copy_orders_by_every_field_in_turn() {
    let tile = |id: &str, fg: Vec<SpriteIdWithWeight>, rotates: bool, height: i32| ExpandedTile {
        id: id.to_string(),
        fg: SingleOrVec(fg),
        bg: SingleOrVec(vec![]),
        rotates,
        multitile: false,
        animated: false,
        height_3d: height,
    };
    let tiles = vec![
        tile("b", vec![], false, 0),
        tile("a", vec![sprite(&[1], Some(0))], false, 0),
        tile("a", vec![sprite(&[1], None)], true, 0),
        tile("a", vec![sprite(&[1], None)], false, 5),
        tile("a", vec![sprite(&[1], None)], false, -5),
        tile("a", vec![sprite(&[0, 9], None)], false, 0),
        tile("a", vec![], true, 0),
        tile("ab", vec![], false, 0),
        tile("B", vec![], false, 0),
        tile("", vec![], false, 0),
        tile("a", vec![sprite(&[1], None), sprite(&[], None)], false, 0),
    ];
    let sorted = sorted_copy(&tiles);
    let mut expected = tiles.clone();
    expected.sort();
    assert_eq!(sorted, expected);
    assert_eq!(
        ids(&sorted),
        vec!["", "B", "a", "a", "a", "a", "a", "a", "a", "ab", "b"]
    );
    assert_eq!(sorted[2], tile("a", vec![], true, 0));
    assert_eq!(sorted[3], tile("a", vec![sprite(&[0, 9], None)], false, 0));
    assert_eq!(sorted[4], tile("a", vec![sprite(&[1], None)], false, -5));
    assert_eq!(sorted[7], tile("a", vec![sprite(&[1], None), sprite(&[], None)], false, 0));
    assert_eq!(sorted[8], tile("a", vec![sprite(&[1], Some(0))], false, 0));
}

#[test]
fn sorted_copy_orders_names_by_their_bytes() {
    let tile = |id: &str| ExpandedTile {
        id: id.to_string(),
        fg: SingleOrVec(vec![]),
        bg: SingleOrVec(vec![]),
        rotates: false,
        multitile: false,
        animated: false,
        height_3d: 0,
    };
    let tiles = vec![tile("é"), tile("z"), tile("\u{10000}"), tile("\u{ffff}"), tile("Z"), tile("zz")];
    let sorted = sorted_copy(&tiles);
    assert_eq!(ids(&sorted), vec!["Z", "z", "zz", "é", "\u{ffff}", "\u{10000}"]);
}

#[test]
fn copy_tile_copies_every_field() {
    let tile = ExpandedTile {
        id: String::from("t_1"),
        fg: SingleOrVec(vec![sprite(&[4, 5], Some(6))]),
        bg: SingleOrVec(vec![sprite(&[], None), sprite(&[1], None)]),
        rotates: true,
        multitile: true,
        animated: true,
        height_3d: -2,
    };
    assert_eq!(copy_tile(&tile), tile);
}
