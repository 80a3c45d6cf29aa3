//! Comparing tiles and their parts in the order of [`crate::order`].

use crate::model::{refs_view, ExpandedTile};
use crate::order::{
    byte_order, id_order, lemma_encoding_injective, lemma_lex_common_prefix, lex_order, name_le,
    ref_order, tile_order, weight_le,
};
use crate::sprite_id_with_weight::SpriteIdWithWeight;
use vstd::prelude::*;
use vstd::utf8::encode_utf8;

verus! {

/// Where one value stands relative to another in an order.
#[derive(Debug, Clone, Copy, PartialEq, Eq)]
pub enum Rank {
    /// It comes first.
    Below,
    /// The two are the same value.
    Same,
    /// It comes last.
    Above,
}

/// Where `a` stands relative to `b` in the order `le`.
pub open spec fn rank_by<T>(le: spec_fn(T, T) -> bool, a: T, b: T) -> Rank {
    if a == b {
        Rank::Same
    } else if le(a, b) {
        Rank::Below
    } else {
        Rank::Above
    }
}

/// [`name_le`] as a relation.
pub open spec fn name_order() -> spec_fn(Seq<char>, Seq<char>) -> bool {
    |a: Seq<char>, b: Seq<char>| name_le(a, b)
}

/// [`weight_le`] as a relation.
pub open spec fn weight_order() -> spec_fn(Option<u32>, Option<u32>) -> bool {
    |a: Option<u32>, b: Option<u32>| weight_le(a, b)
}

/// The order of flags: unset before set.
pub open spec fn flag_order() -> spec_fn(bool, bool) -> bool {
    |a: bool, b: bool| !a || b
}

/// Where two sequences stand that agree before index `i`, by what is found
/// at `i`.
proof fn lemma_lex_rank_at<T>(a: Seq<T>, b: Seq<T>, le: spec_fn(T, T) -> bool, i: int)
    requires
        0 <= i <= a.len(),
        i <= b.len(),
        forall|j: int| 0 <= j < i ==> a[j] == b[j],
    ensures
        i == a.len() && i == b.len() ==> rank_by(lex_order(le), a, b) == Rank::Same,
        i == a.len() && i < b.len() ==> rank_by(lex_order(le), a, b) == Rank::Below,
        i < a.len() && i == b.len() ==> rank_by(lex_order(le), a, b) == Rank::Above,
        i < a.len() && i < b.len() && a[i] != b[i] ==> rank_by(lex_order(le), a, b) == (if le(
            a[i],
            b[i],
        ) {
            Rank::Below
        } else {
            Rank::Above
        }),
{
    lemma_lex_common_prefix(a, b, le, 0, i);
    if i == a.len() && i == b.len() {
        assert(a =~= b);
    }
}

/// Compares two byte strings byte by byte.
pub fn rank_bytes(a: &[u8], b: &[u8]) -> (r: Rank)
    ensures
        r == rank_by(lex_order(byte_order()), a@, b@),
{
    let mut i: usize = 0;
    while i < a.len() && i < b.len()
        invariant
            i <= a.len(),
            i <= b.len(),
            forall|j: int| 0 <= j < i ==> a@[j] == b@[j],
        decreases a.len() - i,
    {
        if a[i] != b[i] {
            proof {
                lemma_lex_rank_at(a@, b@, byte_order(), i as int);
            }
            return if a[i] < b[i] {
                Rank::Below
            } else {
                Rank::Above
            };
        }
        i += 1;
    }
    proof {
        lemma_lex_rank_at(a@, b@, byte_order(), i as int);
    }
    if i < b.len() {
        Rank::Below
    } else if i < a.len() {
        Rank::Above
    } else {
        Rank::Same
    }
}

/// Compares two names by the bytes of their UTF-8 encoding.
pub fn rank_names(a: &str, b: &str) -> (r: Rank)
    ensures
        r == rank_by(name_order(), a@, b@),
{
    proof {
        if encode_utf8(a@) == encode_utf8(b@) {
            lemma_encoding_injective(a@, b@);
        }
    }
    rank_bytes(a.as_bytes(), b.as_bytes())
}

/// Whether two names are the same.
pub fn same_name(a: &str, b: &str) -> (r: bool)
    ensures
        r == (a@ == b@),
{
    match rank_names(a, b) {
        Rank::Same => true,
        _ => false,
    }
}

/// Compares two lists of sprite ids id by id.
pub fn rank_ids(a: &Vec<u32>, b: &Vec<u32>) -> (r: Rank)
    ensures
        r == rank_by(lex_order(id_order()), a@, b@),
{
    let mut i: usize = 0;
    while i < a.len() && i < b.len()
        invariant
            i <= a.len(),
            i <= b.len(),
            forall|j: int| 0 <= j < i ==> a@[j] == b@[j],
        decreases a.len() - i,
    {
        if a[i] != b[i] {
            proof {
                lemma_lex_rank_at(a@, b@, id_order(), i as int);
            }
            return if a[i] < b[i] {
                Rank::Below
            } else {
                Rank::Above
            };
        }
        i += 1;
    }
    proof {
        lemma_lex_rank_at(a@, b@, id_order(), i as int);
    }
    if i < b.len() {
        Rank::Below
    } else if i < a.len() {
        Rank::Above
    } else {
        Rank::Same
    }
}

/// Compares two weights: no weight comes before any weight.
pub fn rank_weights(a: Option<u32>, b: Option<u32>) -> (r: Rank)
    ensures
        r == rank_by(weight_order(), a, b),
{
    match (a, b) {
        (None, None) => Rank::Same,
        (None, Some(_)) => Rank::Below,
        (Some(_), None) => Rank::Above,
        (Some(x), Some(y)) => if x < y {
            Rank::Below
        } else if x > y {
            Rank::Above
        } else {
            Rank::Same
        },
    }
}

/// Compares two flags: unset comes before set.
pub fn rank_flags(a: bool, b: bool) -> (r: Rank)
    ensures
        r == rank_by(flag_order(), a, b),
{
    if a == b {
        Rank::Same
    } else if b {
        Rank::Below
    } else {
        Rank::Above
    }
}

/// Compares two sprite references: by their ids, then by their weight.
pub fn rank_ref(a: &SpriteIdWithWeight, b: &SpriteIdWithWeight) -> (r: Rank)
    ensures
        r == rank_by(ref_order(), a@, b@),
{
    match rank_ids(&a.id.0, &b.id.0) {
        Rank::Same => rank_weights(a.weight, b.weight),
        other => other,
    }
}

/// Compares two lists of sprite references item by item.
pub fn rank_refs(a: &Vec<SpriteIdWithWeight>, b: &Vec<SpriteIdWithWeight>) -> (r: Rank)
    ensures
        r == rank_by(lex_order(ref_order()), refs_view(a@), refs_view(b@)),
{
    let ghost av = refs_view(a@);
    let ghost bv = refs_view(b@);
    let mut i: usize = 0;
    while i < a.len() && i < b.len()
        invariant
            av == refs_view(a@),
            bv == refs_view(b@),
            i <= a.len(),
            i <= b.len(),
            forall|j: int| 0 <= j < i ==> av[j] == bv[j],
        decreases a.len() - i,
    {
        let here = rank_ref(&a[i], &b[i]);
        match here {
            Rank::Same => {},
            _ => {
                proof {
                    lemma_lex_rank_at(av, bv, ref_order(), i as int);
                }
                return here;
            },
        }
        i += 1;
    }
    proof {
        lemma_lex_rank_at(av, bv, ref_order(), i as int);
    }
    if i < b.len() {
        Rank::Below
    } else if i < a.len() {
        Rank::Above
    } else {
        Rank::Same
    }
}

/// Whether two tiles are the same in every field.
pub fn same_tile(a: &ExpandedTile, b: &ExpandedTile) -> (r: bool)
    ensures
        r == (a@ == b@),
{
    match rank_tiles(a, b) {
        Rank::Same => true,
        _ => false,
    }
}

/// Compares two tiles: by id, then by every other field in turn.
pub fn rank_tiles(a: &ExpandedTile, b: &ExpandedTile) -> (r: Rank)
    ensures
        r == rank_by(tile_order(), a@, b@),
{
    match rank_names(a.id.as_str(), b.id.as_str()) {
        Rank::Same => {},
        other => {
            return other;
        },
    }
    match rank_refs(&a.fg.0, &b.fg.0) {
        Rank::Same => {},
        other => {
            return other;
        },
    }
    match rank_refs(&a.bg.0, &b.bg.0) {
        Rank::Same => {},
        other => {
            return other;
        },
    }
    match rank_flags(a.rotates, b.rotates) {
        Rank::Same => {},
        other => {
            return other;
        },
    }
    match rank_flags(a.multitile, b.multitile) {
        Rank::Same => {},
        other => {
            return other;
        },
    }
    match rank_flags(a.animated, b.animated) {
        Rank::Same => {},
        other => {
            return other;
        },
    }
    if a.height_3d < b.height_3d {
        Rank::Below
    } else if a.height_3d > b.height_3d {
        Rank::Above
    } else {
        Rank::Same
    }
}

} // verus!
