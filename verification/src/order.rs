//! The order of tiles: by id first, then by every other field in turn.

use crate::model::TileView;
use crate::sprite_id_with_weight::SpriteRefView;
use vstd::prelude::*;
use vstd::relations::{antisymmetric, strongly_connected, total_ordering, transitive};
use vstd::utf8::{encode_utf8, encode_utf8_decode_utf8};

verus! {

/// Whether `a` comes no later than `b` when both are compared item by item
/// from index `from` on: the first items that differ decide, by `le`, and a
/// sequence that ends first comes first.
pub open spec fn lex_le_from<T>(a: Seq<T>, b: Seq<T>, le: spec_fn(T, T) -> bool, from: int) -> bool
    decreases a.len() - from,
{
    if from >= a.len() {
        true
    } else if from >= b.len() {
        false
    } else if a[from] == b[from] {
        lex_le_from(a, b, le, from + 1)
    } else {
        le(a[from], b[from])
    }
}

/// The order of sequences item by item, where items are ordered by `le`.
pub open spec fn lex_order<T>(le: spec_fn(T, T) -> bool) -> spec_fn(Seq<T>, Seq<T>) -> bool {
    |a: Seq<T>, b: Seq<T>| lex_le_from(a, b, le, 0)
}

/// Every sequence comes no later than itself.
pub proof fn lemma_lex_reflexive<T>(a: Seq<T>, le: spec_fn(T, T) -> bool, from: int)
    ensures
        lex_le_from(a, a, le, from),
    decreases a.len() - from,
{
    if from < a.len() {
        lemma_lex_reflexive(a, le, from + 1);
    }
}

/// Sequences that come no later than each other are the same from `from` on.
pub proof fn lemma_lex_antisymmetric<T>(a: Seq<T>, b: Seq<T>, le: spec_fn(T, T) -> bool, from: int)
    requires
        antisymmetric(le),
        0 <= from <= a.len(),
        from <= b.len(),
        lex_le_from(a, b, le, from),
        lex_le_from(b, a, le, from),
    ensures
        a.len() == b.len(),
        forall|i: int| from <= i < a.len() ==> a[i] == b[i],
    decreases a.len() - from,
{
    if from < a.len() {
        if a[from] != b[from] {
            assert(le(a[from], b[from]) && le(b[from], a[from]));
        }
        lemma_lex_antisymmetric(a, b, le, from + 1);
    }
}

/// Where `a` comes no later than `b`, and `b` no later than `c`, `a` comes no
/// later than `c`.
pub proof fn lemma_lex_transitive<T>(
    a: Seq<T>,
    b: Seq<T>,
    c: Seq<T>,
    le: spec_fn(T, T) -> bool,
    from: int,
)
    requires
        antisymmetric(le),
        transitive(le),
        0 <= from,
        lex_le_from(a, b, le, from),
        lex_le_from(b, c, le, from),
    ensures
        lex_le_from(a, c, le, from),
    decreases a.len() - from,
{
    if from < a.len() {
        if a[from] == b[from] && b[from] == c[from] {
            lemma_lex_transitive(a, b, c, le, from + 1);
        } else if a[from] == b[from] {
        } else if b[from] == c[from] {
        } else {
            assert(le(a[from], b[from]) && le(b[from], c[from]));
            assert(le(a[from], c[from]));
            if a[from] == c[from] {
                assert(le(c[from], b[from]));
            }
        }
    }
}

/// Of two sequences, one comes no later than the other.
pub proof fn lemma_lex_connected<T>(a: Seq<T>, b: Seq<T>, le: spec_fn(T, T) -> bool, from: int)
    requires
        strongly_connected(le),
        0 <= from,
    ensures
        lex_le_from(a, b, le, from) || lex_le_from(b, a, le, from),
    decreases a.len() - from,
{
    if from < a.len() && from < b.len() {
        if a[from] == b[from] {
            lemma_lex_connected(a, b, le, from + 1);
        } else {
            assert(le(a[from], b[from]) || le(b[from], a[from]));
        }
    }
}

/// Sequences that agree before index `upto` compare as their rests do.
pub proof fn lemma_lex_common_prefix<T>(
    a: Seq<T>,
    b: Seq<T>,
    le: spec_fn(T, T) -> bool,
    from: int,
    upto: int,
)
    requires
        0 <= from <= upto,
        upto <= a.len(),
        upto <= b.len(),
        forall|i: int| from <= i < upto ==> a[i] == b[i],
    ensures
        lex_le_from(a, b, le, from) == lex_le_from(a, b, le, upto),
    decreases upto - from,
{
    if from < upto {
        lemma_lex_common_prefix(a, b, le, from + 1, upto);
    }
}

/// Sequences are totally ordered item by item where their items are.
pub proof fn lemma_lex_order_total<T>(le: spec_fn(T, T) -> bool)
    requires
        total_ordering(le),
    ensures
        total_ordering(lex_order(le)),
{
    let r = lex_order(le);
    assert forall|x: Seq<T>| #[trigger] r(x, x) by {
        lemma_lex_reflexive(x, le, 0);
    }
    assert forall|x: Seq<T>, y: Seq<T>| #[trigger] r(x, y) && #[trigger] r(y, x) implies x == y by {
        lemma_lex_antisymmetric(x, y, le, 0);
        assert(x =~= y);
    }
    assert forall|x: Seq<T>, y: Seq<T>, z: Seq<T>| #[trigger]
        r(x, y) && #[trigger] r(y, z) implies r(x, z) by {
        lemma_lex_transitive(x, y, z, le, 0);
    }
    assert forall|x: Seq<T>, y: Seq<T>| #[trigger] r(x, y) || #[trigger] r(y, x) by {
        lemma_lex_connected(x, y, le, 0);
    }
}

/// The order of bytes by value.
pub open spec fn byte_order() -> spec_fn(u8, u8) -> bool {
    |x: u8, y: u8| x <= y
}

/// The order of sprite ids by value.
pub open spec fn id_order() -> spec_fn(u32, u32) -> bool {
    |x: u32, y: u32| x <= y
}

/// The order of names: byte by byte over their UTF-8 encoding.
pub open spec fn name_le(a: Seq<char>, b: Seq<char>) -> bool {
    lex_le_from(encode_utf8(a), encode_utf8(b), byte_order(), 0)
}

/// The order of weights: no weight comes before any weight.
pub open spec fn weight_le(a: Option<u32>, b: Option<u32>) -> bool {
    match (a, b) {
        (None, _) => true,
        (Some(_), None) => false,
        (Some(x), Some(y)) => x <= y,
    }
}

/// The order of sprite references: by their ids, then by their weight.
pub open spec fn ref_le(a: SpriteRefView, b: SpriteRefView) -> bool {
    if a.ids == b.ids {
        weight_le(a.weight, b.weight)
    } else {
        lex_le_from(a.ids, b.ids, id_order(), 0)
    }
}

/// [`ref_le`] as a relation.
pub open spec fn ref_order() -> spec_fn(SpriteRefView, SpriteRefView) -> bool {
    |a: SpriteRefView, b: SpriteRefView| ref_le(a, b)
}

/// The order of lists of sprite references, item by item.
pub open spec fn refs_le(a: Seq<SpriteRefView>, b: Seq<SpriteRefView>) -> bool {
    lex_le_from(a, b, ref_order(), 0)
}

/// The order of tiles: by id, then foreground, background, and the flags
/// `rotates`, `multitile` and `animated` (unset before set), then height.
pub open spec fn tile_le(a: TileView, b: TileView) -> bool {
    if a.id != b.id {
        name_le(a.id, b.id)
    } else if a.fg != b.fg {
        refs_le(a.fg, b.fg)
    } else if a.bg != b.bg {
        refs_le(a.bg, b.bg)
    } else if a.rotates != b.rotates {
        !a.rotates
    } else if a.multitile != b.multitile {
        !a.multitile
    } else if a.animated != b.animated {
        !a.animated
    } else {
        a.height_3d <= b.height_3d
    }
}

/// [`tile_le`] as a relation.
pub open spec fn tile_order() -> spec_fn(TileView, TileView) -> bool {
    |a: TileView, b: TileView| tile_le(a, b)
}

/// Names with the same encoding are the same name.
pub proof fn lemma_encoding_injective(a: Seq<char>, b: Seq<char>)
    requires
        encode_utf8(a) == encode_utf8(b),
    ensures
        a == b,
{
    encode_utf8_decode_utf8(a);
    encode_utf8_decode_utf8(b);
}

/// Bytes are totally ordered by value.
pub proof fn lemma_byte_order_total()
    ensures
        total_ordering(byte_order()),
{
}

/// Sprite ids are totally ordered by value.
pub proof fn lemma_id_order_total()
    ensures
        total_ordering(id_order()),
{
}

/// Names are totally ordered: any two compare, and only a name compares both
/// ways with itself.
pub proof fn lemma_name_le_properties()
    ensures
        forall|a: Seq<char>| #[trigger] name_le(a, a),
        forall|a: Seq<char>, b: Seq<char>|
            #[trigger] name_le(a, b) && #[trigger] name_le(b, a) ==> a == b,
        forall|a: Seq<char>, b: Seq<char>, c: Seq<char>| #[trigger]
            name_le(a, b) && #[trigger] name_le(b, c) ==> name_le(a, c),
        forall|a: Seq<char>, b: Seq<char>| #[trigger] name_le(a, b) || #[trigger] name_le(b, a),
{
    lemma_byte_order_total();
    lemma_lex_order_total(byte_order());
    let r = lex_order(byte_order());
    assert forall|a: Seq<char>| #[trigger] name_le(a, a) by {
        assert(r(encode_utf8(a), encode_utf8(a)));
    }
    assert forall|a: Seq<char>, b: Seq<char>| #[trigger] name_le(a, b) && #[trigger] name_le(
        b,
        a,
    ) implies a == b by {
        assert(r(encode_utf8(a), encode_utf8(b)) && r(encode_utf8(b), encode_utf8(a)));
        lemma_encoding_injective(a, b);
    }
    assert forall|a: Seq<char>, b: Seq<char>, c: Seq<char>| #[trigger]
        name_le(a, b) && #[trigger] name_le(b, c) implies name_le(a, c) by {
        assert(r(encode_utf8(a), encode_utf8(b)) && r(encode_utf8(b), encode_utf8(c)));
        assert(r(encode_utf8(a), encode_utf8(c)));
    }
    assert forall|a: Seq<char>, b: Seq<char>| #[trigger] name_le(a, b) || #[trigger] name_le(
        b,
        a,
    ) by {
        assert(r(encode_utf8(a), encode_utf8(b)) || r(encode_utf8(b), encode_utf8(a)));
    }
}

/// Sprite references are totally ordered.
pub proof fn lemma_ref_order_total()
    ensures
        total_ordering(ref_order()),
{
    lemma_id_order_total();
    lemma_lex_order_total(id_order());
    let ids = lex_order(id_order());
    let r = ref_order();
    assert forall|x: SpriteRefView| #[trigger] r(x, x) by {}
    assert forall|x: SpriteRefView, y: SpriteRefView| #[trigger] r(x, y) && #[trigger] r(
        y,
        x,
    ) implies x == y by {
        if x.ids != y.ids {
            assert(ids(x.ids, y.ids) && ids(y.ids, x.ids));
        }
    }
    assert forall|x: SpriteRefView, y: SpriteRefView, z: SpriteRefView| #[trigger]
        r(x, y) && #[trigger] r(y, z) implies r(x, z) by {
        assert(ids(x.ids, x.ids));
        if x.ids != y.ids {
            assert(ids(x.ids, y.ids));
        }
        if y.ids != z.ids {
            assert(ids(y.ids, z.ids));
        }
        if x.ids != y.ids && y.ids != z.ids {
            assert(ids(x.ids, z.ids));
            if x.ids == z.ids {
                assert(ids(z.ids, y.ids));
            }
        }
    }
    assert forall|x: SpriteRefView, y: SpriteRefView| #[trigger] r(x, y) || #[trigger] r(y, x) by {
        assert(ids(x.ids, y.ids) || ids(y.ids, x.ids));
    }
}

/// Tiles are totally ordered: any two compare, and only a tile compares both
/// ways with itself.
pub proof fn lemma_tile_order_total()
    ensures
        total_ordering(tile_order()),
{
    lemma_name_le_properties();
    lemma_ref_order_total();
    lemma_lex_order_total(ref_order());
    let refs = lex_order(ref_order());
    let r = tile_order();
    assert forall|x: TileView| #[trigger] r(x, x) by {}
    assert forall|x: TileView, y: TileView| #[trigger] r(x, y) && #[trigger] r(y, x) implies x
        == y by {
        if x.id != y.id {
            assert(name_le(x.id, y.id) && name_le(y.id, x.id));
        } else if x.fg != y.fg {
            assert(refs(x.fg, y.fg) && refs(y.fg, x.fg));
        } else if x.bg != y.bg {
            assert(refs(x.bg, y.bg) && refs(y.bg, x.bg));
        }
    }
    assert forall|x: TileView, y: TileView, z: TileView| #[trigger] r(x, y) && #[trigger] r(
        y,
        z,
    ) implies r(x, z) by {
        lemma_tile_le_transitive(x, y, z);
    }
    assert forall|x: TileView, y: TileView| #[trigger] r(x, y) || #[trigger] r(y, x) by {
        assert(name_le(x.id, y.id) || name_le(y.id, x.id));
        assert(refs(x.fg, y.fg) || refs(y.fg, x.fg));
        assert(refs(x.bg, y.bg) || refs(y.bg, x.bg));
    }
}

/// Where `x` comes no later than `y`, and `y` no later than `z`, `x` comes no
/// later than `z`.
proof fn lemma_tile_le_transitive(x: TileView, y: TileView, z: TileView)
    requires
        tile_le(x, y),
        tile_le(y, z),
    ensures
        tile_le(x, z),
{
    lemma_name_le_properties();
    lemma_ref_order_total();
    lemma_lex_order_total(ref_order());
    let refs = lex_order(ref_order());
    if x.id != y.id || y.id != z.id {
        assert(name_le(x.id, y.id) && name_le(y.id, z.id));
        assert(name_le(x.id, z.id));
        if x.id == z.id {
            assert(name_le(z.id, y.id) && name_le(y.id, x.id));
        }
    } else if x.fg != y.fg || y.fg != z.fg {
        assert(refs(x.fg, x.fg));
        assert(refs(x.fg, y.fg) && refs(y.fg, z.fg));
        assert(refs(x.fg, z.fg));
        if x.fg == z.fg {
            assert(refs(z.fg, y.fg) && refs(y.fg, x.fg));
        }
    } else if x.bg != y.bg || y.bg != z.bg {
        assert(refs(x.bg, x.bg));
        assert(refs(x.bg, y.bg) && refs(y.bg, z.bg));
        assert(refs(x.bg, z.bg));
        if x.bg == z.bg {
            assert(refs(z.bg, y.bg) && refs(y.bg, x.bg));
        }
    }
}

} // verus!
