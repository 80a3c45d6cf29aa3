use image::{Rgba, RgbaImage};
use tileset_diff::atlas::{save_tile_as, SpriteFile, TileAtlas};
use tileset_diff::extract::{
    extract_tiles, find_last, plan_extraction, referenced_sprites, unresolved_sprites,
    ExtractStep,
};
use tileset_diff::model::{
    CompositeTile, ExpandedTile, SingleTile, TilesNew, Tileset, TilesetTileInfo,
};
use tileset_diff::sheet::SheetImage;
use tileset_diff::single_or_vec::SingleOrVec;
use tileset_diff::sprite_id_with_weight::SpriteIdWithWeight;

fn sprite(ids: &[u32], weight: Option<u32>) -> SpriteIdWithWeight {
    SpriteIdWithWeight { id: SingleOrVec(ids.to_vec()), weight }
}

fn tile(id: &str, fg: Vec<SpriteIdWithWeight>, bg: Vec<SpriteIdWithWeight>) -> ExpandedTile {
    ExpandedTile {
        id: id.to_string(),
        fg: SingleOrVec(fg),
        bg: SingleOrVec(bg),
        rotates: false,
        multitile: false,
        animated: false,
        height_3d: 0,
    }
}

fn written(id: &str, fg: Vec<SpriteIdWithWeight>, bg: Vec<SpriteIdWithWeight>) -> CompositeTile {
    CompositeTile {
        base: SingleTile {
            id: SingleOrVec::from_single(id.to_string()),
            fg: SingleOrVec(fg),
            bg: SingleOrVec(bg),
            rotates: None,
            multitile: false,
            animated: false,
            height_3d: 0,
        },
        additional_tiles: vec![],
        comment: String::new(),
    }
}

fn tileset(tiles: Vec<CompositeTile>) -> Tileset {
    Tileset {
        tile_info: vec![TilesetTileInfo { iso: false, width: 2, height: 2 }],
        tiles_new: vec![TilesNew {
            file: String::from("tiles.png"),
            sprite_width: None,
            sprite_height: None,
            sprite_offset_x: None,
            sprite_offset_y: None,
            tiles,
            ascii: vec![],
            comment: String::new(),
        }],
        overlay_ordering: vec![],
    }
}

fn atlases() -> Vec<TileAtlas> {
    let img = RgbaImage::from_fn(4, 2, |x, y| Rgba([x as u8, y as u8, (x + y) as u8, 255]));
    vec![TileAtlas::build(SheetImage::new(4, 2, img.into_raw()).unwrap(), 2, 2, 0).unwrap()]
}

const CELL_0: [u8; 16] = [0, 0, 0, 255, 1, 0, 1, 255, 0, 1, 1, 255, 1, 1, 2, 255];
const CELL_1: [u8; 16] = [2, 0, 2, 255, 3, 0, 3, 255, 2, 1, 3, 255, 3, 1, 4, 255];
const HASH_0: u32 = 1622661187;
const HASH_1: u32 = 3915063495;

fn save(hash: u32, pixels: &[u8]) -> ExtractStep {
    ExtractStep::SaveSprite {
        sprite: SpriteFile {
            name: format!("{:010}.png", hash),
            width: 2,
            height: 2,
            pixels: pixels.to_vec(),
        },
    }
}

#[test]
fn extraction_round_trip() {
    let ts = tileset(vec![
        written("floor", vec![sprite(&[0], None)], vec![]),
        written("wall", vec![sprite(&[1, 0], Some(2))], vec![sprite(&[1], None)]),
    ]);
    let steps = extract_tiles(&ts, &atlases(), &vec![String::from("wall")]);
    let record = tile(
        "wall",
        vec![sprite(&[HASH_1, HASH_0], Some(2))],
        vec![sprite(&[HASH_1], None)],
    );
    assert_eq!(
        steps,
        vec![
            ExtractStep::WriteRecord {
                id: String::from("wall"),
                file: String::from("wall.json"),
                tile: record,
            },
            save(HASH_1, &CELL_1),
            save(HASH_0, &CELL_0),
            save(HASH_1, &CELL_1),
        ]
    );
}

#[test]
fn extraction_passes_over_ids_that_are_not_there() {
    let ts = tileset(vec![written("floor", vec![sprite(&[0], None)], vec![])]);
    let steps = extract_tiles(
        &ts,
        &atlases(),
        &vec![String::from("nope"), String::from("floor"), String::from("")],
    );
    assert_eq!(steps.len(), 4);
    assert_eq!(steps[0], ExtractStep::Missing { id: String::from("nope") });
    assert!(matches!(&steps[1], ExtractStep::WriteRecord { id, .. } if id == "floor"));
    assert_eq!(steps[2], save(HASH_0, &CELL_0));
    assert_eq!(steps[3], ExtractStep::Missing { id: String::new() });
}

#[test]
fn extraction_ends_at_a_sprite_without_owner() {
    let ts = tileset(vec![
        written("broken", vec![sprite(&[1, 9, 0], None)], vec![sprite(&[0], None)]),
        written("fine", vec![sprite(&[0], None)], vec![]),
    ]);
    let steps = extract_tiles(
        &ts,
        &atlases(),
        &vec![String::from("fine"), String::from("broken"), String::from("fine")],
    );
    assert_eq!(steps.len(), 5);
    assert!(matches!(&steps[0], ExtractStep::WriteRecord { id, .. } if id == "fine"));
    assert_eq!(steps[1], save(HASH_0, &CELL_0));
    assert_eq!(
        steps[2],
        ExtractStep::WriteRecord {
            id: String::from("broken"),
            file: String::from("broken.json"),
            tile: tile(
                "broken",
                vec![sprite(&[HASH_1, 0, HASH_0], None)],
                vec![sprite(&[HASH_0], None)],
            ),
        }
    );
    assert_eq!(steps[3], save(HASH_1, &CELL_1));
    assert_eq!(steps[4], ExtractStep::Unresolved { tile_id: 9 });
}

#[test]
fn extraction_of_nothing_does_nothing() {
    let ts = tileset(vec![written("floor", vec![sprite(&[0], None)], vec![])]);
    assert!(extract_tiles(&ts, &atlases(), &vec![]).is_empty());
}

#[test]
fn extraction_of_a_tile_without_sprites_writes_only_the_record() {
    let ts = tileset(vec![written("bare", vec![sprite(&[], None)], vec![])]);
    let steps = extract_tiles(&ts, &atlases(), &vec![String::from("bare")]);
    assert_eq!(steps.len(), 1);
    assert!(matches!(&steps[0], ExtractStep::WriteRecord { file, .. } if file == "bare.json"));
}

#[test]
fn the_last_tile_of_an_id_is_the_one_extracted() {
    let plain = vec![
        tile("a", vec![sprite(&[0], None)], vec![]),
        tile("a", vec![sprite(&[1], None)], vec![]),
        tile("b", vec![], vec![]),
    ];
    let hashed = vec![
        tile("a", vec![sprite(&[10], None)], vec![]),
        tile("a", vec![sprite(&[11], None)], vec![]),
        tile("b", vec![], vec![]),
    ];
    assert_eq!(find_last(&plain, "a"), Some(1));
    assert_eq!(find_last(&plain, "b"), Some(2));
    assert_eq!(find_last(&plain, "c"), None);
    assert_eq!(find_last(&Vec::new(), "a"), None);
    let steps = plan_extraction(&plain, &hashed, &atlases(), &vec![String::from("a")]);
    assert_eq!(
        steps,
        vec![
            ExtractStep::WriteRecord {
                id: String::from("a"),
                file: String::from("a.json"),
                tile: hashed[1].clone(),
            },
            save(HASH_1, &CELL_1),
        ]
    );
}

#[test]
fn sprite_is_saved_under_its_hash() {
    let atlases = atlases();
    assert_eq!(
        save_tile_as(&atlases, 1),
        Some(SpriteFile {
            name: String::from("3915063495.png"),
            width: 2,
            height: 2,
            pixels: CELL_1.to_vec(),
        })
    );
    assert_eq!(save_tile_as(&atlases, 2), None);
    assert_eq!(save_tile_as(&Vec::new(), 0), None);
}

#[test]
fn sprites_are_listed_foreground_first() {
    let t = tile(
        "t",
        vec![sprite(&[3, 1], Some(1)), sprite(&[], None), sprite(&[2], None)],
        vec![sprite(&[1], None), sprite(&[0, 0], None)],
    );
    assert_eq!(referenced_sprites(&t), vec![3, 1, 2, 1, 0, 0]);
    assert!(referenced_sprites(&tile("e", vec![], vec![])).is_empty());
}

#[test]
fn sprites_without_owner_are_listed_as_often_as_named() {
    let tiles = vec![
        tile("a", vec![sprite(&[0, 2, 1], None)], vec![sprite(&[7], None)]),
        tile("b", vec![], vec![]),
        tile("c", vec![sprite(&[2], Some(1))], vec![sprite(&[1], None)]),
    ];
    assert_eq!(unresolved_sprites(&tiles, &atlases()), vec![2, 7, 2]);
    assert_eq!(unresolved_sprites(&tiles, &Vec::new()), vec![0, 2, 1, 7, 2, 1]);
    assert!(unresolved_sprites(&Vec::new(), &atlases()).is_empty());
}
