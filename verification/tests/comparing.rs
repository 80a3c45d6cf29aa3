use tileset_diff::diff::{
    compare_variations, differing_ids, exclusive_ids, find_duplicates, Comparison,
};
use tileset_diff::model::ExpandedTile;
use tileset_diff::rank::{
    rank_bytes, rank_flags, rank_ids, rank_names, rank_ref, rank_refs, rank_tiles, rank_weights,
    same_name, Rank,
};
use tileset_diff::single_or_vec::SingleOrVec;
use tileset_diff::sprite_id_with_weight::SpriteIdWithWeight;

fn sprite(ids: &[u32], weight: Option<u32>) -> SpriteIdWithWeight {
    SpriteIdWithWeight { id: SingleOrVec(ids.to_vec()), weight }
}

fn tile(id: &str, fg: &[u32]) -> ExpandedTile {
    ExpandedTile {
        id: id.to_string(),
        fg: SingleOrVec(vec![sprite(fg, None)]),
        bg: SingleOrVec(vec![]),
        rotates: false,
        multitile: false,
        animated: false,
        height_3d: 0,
    }
}

fn names(list: &[&str]) -> Vec<String> {
    list.iter().map(|s| s.to_string()).collect()
}

#[test]
fn bytes_compare_item_by_item() {
    assert_eq!(rank_bytes(b"", b""), Rank::Same);
    assert_eq!(rank_bytes(b"", b"a"), Rank::Below);
    assert_eq!(rank_bytes(b"a", b""), Rank::Above);
    assert_eq!(rank_bytes(b"abc", b"abd"), Rank::Below);
    assert_eq!(rank_bytes(b"abd", b"abc"), Rank::Above);
    assert_eq!(rank_bytes(b"ab", b"abc"), Rank::Below);
    assert_eq!(rank_bytes(b"b", b"abc"), Rank::Above);
    assert_eq!(rank_bytes(&[0xff], &[0x00, 0x01]), Rank::Above);
}

#[test]
fn names_compare_like_strings() {
    let all = [
        "", "a", "A", "ab", "b", "wall", "wall_corner", "wall2", "é", "\u{ffff}", "\u{10000}", "z",
    ];
    for a in all {
        for b in all {
            let expected = match a.cmp(b) {
                std::cmp::Ordering::Less => Rank::Below,
                std::cmp::Ordering::Equal => Rank::Same,
                std::cmp::Ordering::Greater => Rank::Above,
            };
            assert_eq!(rank_names(a, b), expected);
            assert_eq!(same_name(a, b), a == b);
        }
    }
}

#[test]
fn sprite_ids_compare_item_by_item() {
    assert_eq!(rank_ids(&vec![], &vec![]), Rank::Same);
    assert_eq!(rank_ids(&vec![1, 2], &vec![1, 2]), Rank::Same);
    assert_eq!(rank_ids(&vec![1, 2], &vec![1, 3]), Rank::Below);
    assert_eq!(rank_ids(&vec![2], &vec![1, 3]), Rank::Above);
    assert_eq!(rank_ids(&vec![1], &vec![1, 0]), Rank::Below);
    assert_eq!(rank_ids(&vec![u32::MAX], &vec![0, 0]), Rank::Above);
}

#[test]
fn no_weight_comes_before_any_weight() {
    assert_eq!(rank_weights(None, None), Rank::Same);
    assert_eq!(rank_weights(None, Some(0)), Rank::Below);
    assert_eq!(rank_weights(Some(0), None), Rank::Above);
    assert_eq!(rank_weights(Some(1), Some(2)), Rank::Below);
    assert_eq!(rank_weights(Some(2), Some(2)), Rank::Same);
    assert_eq!(rank_weights(Some(3), Some(2)), Rank::Above);
}

#[test]
fn unset_flag_comes_before_set_flag() {
    assert_eq!(rank_flags(false, false), Rank::Same);
    assert_eq!(rank_flags(true, true), Rank::Same);
    assert_eq!(rank_flags(false, true), Rank::Below);
    assert_eq!(rank_flags(true, false), Rank::Above);
}

#[test]
fn sprite_references_compare_by_ids_then_weight() {
    assert_eq!(rank_ref(&sprite(&[1], None), &sprite(&[1], None)), Rank::Same);
    assert_eq!(rank_ref(&sprite(&[1], Some(9)), &sprite(&[2], None)), Rank::Below);
    assert_eq!(rank_ref(&sprite(&[1], Some(9)), &sprite(&[1], None)), Rank::Above);
    assert_eq!(rank_ref(&sprite(&[1], Some(1)), &sprite(&[1], Some(9))), Rank::Below);
    assert_eq!(rank_refs(&vec![], &vec![sprite(&[], None)]), Rank::Below);
    assert_eq!(
        rank_refs(
            &vec![sprite(&[1], None), sprite(&[5], None)],
            &vec![sprite(&[1], None), sprite(&[4], Some(1))]
        ),
        Rank::Above
    );
    assert_eq!(rank_refs(&vec![sprite(&[1], None)], &vec![sprite(&[1], None)]), Rank::Same);
}

#[test]
fn tiles_compare_like_the_derived_order() {
    let mut tiles = vec![tile("a", &[1]), tile("a", &[2]), tile("b", &[0]), tile("", &[])];
    let mut high = tile("a", &[1]);
    high.height_3d = 1;
    let mut low = tile("a", &[1]);
    low.height_3d = -1;
    let mut turning = tile("a", &[1]);
    turning.rotates = true;
    let mut multi = tile("a", &[1]);
    multi.multitile = true;
    let mut moving = tile("a", &[1]);
    moving.animated = true;
    let mut behind = tile("a", &[1]);
    behind.bg = SingleOrVec(vec![sprite(&[0], None)]);
    tiles.extend(vec![high, low, turning, multi, moving, behind]);
    for a in &tiles {
        for b in &tiles {
            let expected = match a.cmp(b) {
                std::cmp::Ordering::Less => Rank::Below,
                std::cmp::Ordering::Equal => Rank::Same,
                std::cmp::Ordering::Greater => Rank::Above,
            };
            assert_eq!(rank_tiles(a, b), expected);
        }
    }
}

#[test]
fn duplicates_are_listed_once_less_than_they_come() {
    let vars = vec![
        tile("x", &[1]),
        tile("b", &[0]),
        tile("x", &[2]),
        tile("a", &[0]),
        tile("x", &[1]),
        tile("b", &[0]),
    ];
    assert_eq!(find_duplicates(&vars), vec!["b", "x", "x"]);
    assert!(find_duplicates(&vec![tile("a", &[0]), tile("b", &[0])]).is_empty());
    assert!(find_duplicates(&Vec::new()).is_empty());
}

#[test]
fn exclusive_ids_are_a_sorted_set_difference() {
    let a = vec![tile("q", &[0]), tile("p", &[0]), tile("p", &[1]), tile("z", &[0])];
    let b = vec![tile("r", &[0]), tile("q", &[5])];
    assert_eq!(exclusive_ids(&a, &b), names(&["p", "z"]));
    assert_eq!(exclusive_ids(&b, &a), names(&["r"]));
    assert!(exclusive_ids(&a, &a).is_empty());
    assert!(exclusive_ids(&Vec::new(), &a).is_empty());
    assert_eq!(exclusive_ids(&b, &Vec::new()), names(&["q", "r"]));
}

#[test]
fn differing_ids_are_on_both_sides_with_other_content() {
    let a =
        vec![tile("same", &[1]), tile("only_a", &[1]), tile("changed", &[1]), tile("also", &[3])];
    let b =
        vec![tile("changed", &[2]), tile("same", &[1]), tile("only_b", &[1]), tile("also", &[4])];
    assert_eq!(differing_ids(&a, &b), names(&["also", "changed"]));
    assert_eq!(differing_ids(&b, &a), names(&["also", "changed"]));
    assert!(differing_ids(&a, &a).is_empty());
    assert!(differing_ids(&a, &Vec::new()).is_empty());
}

#[test]
fn exclusive_and_differing_partition() {
    let a = vec![tile("p", &[1]), tile("q", &[1])];
    let b = vec![tile("q", &[2]), tile("r", &[1])];
    let found = compare_variations(&a, &b);
    assert_eq!(
        found,
        Comparison {
            duplicates_a: vec![],
            duplicates_b: vec![],
            exclusives_a: names(&["p"]),
            exclusives_b: names(&["r"]),
            different: Some((names(&["q"]), names(&["q"]))),
        }
    );
}

#[test]
fn duplicates_suppress_the_full_diff() {
    let a = vec![tile("x", &[1]), tile("x", &[2]), tile("y", &[1])];
    let b = vec![tile("x", &[3]), tile("y", &[2]), tile("w", &[0])];
    let found = compare_variations(&a, &b);
    assert_eq!(found.duplicates_a, names(&["x"]));
    assert!(found.duplicates_b.is_empty());
    assert_eq!(found.different, None);
    assert!(found.exclusives_a.is_empty());
    assert_eq!(found.exclusives_b, names(&["w"]));
    let other_way = compare_variations(&b, &a);
    assert!(other_way.duplicates_a.is_empty());
    assert_eq!(other_way.duplicates_b, names(&["x"]));
    assert_eq!(other_way.different, None);
}

#[test]
fn equal_tilesets_have_nothing_to_report() {
    let a = vec![tile("b", &[1]), tile("a", &[1])];
    let b = vec![tile("a", &[1]), tile("b", &[1])];
    let found = compare_variations(&a, &b);
    assert_eq!(found.different, Some((vec![], vec![])));
    assert!(found.exclusives_a.is_empty() && found.exclusives_b.is_empty());
    assert!(found.duplicates_a.is_empty() && found.duplicates_b.is_empty());
}
