//! The content hash of a sprite: a value that depends on the sprite's
//! dimensions and pixels and on nothing else.

use vstd::prelude::*;

verus! {

/// The state that hashing starts from.
pub const HASH_OFFSET: u64 = 0xcbf2_9ce4_8422_2325;

/// The factor by which the state is multiplied after each byte.
pub const HASH_PRIME: u64 = 0x0000_0100_0000_01b3;

/// The state after one more byte: the byte is folded into the low bits and
/// the state multiplied by [`HASH_PRIME`], wrapping at 64 bits.
pub open spec fn mix(state: u64, byte: u8) -> u64 {
    (state ^ (byte as u64)).wrapping_mul(HASH_PRIME)
}

/// The state after `bytes`, taken in order.
pub open spec fn mix_all(state: u64, bytes: Seq<u8>) -> u64
    decreases bytes.len(),
{
    if bytes.len() == 0 {
        state
    } else {
        mix(mix_all(state, bytes.drop_last()), bytes.last())
    }
}

/// The state after the four bytes of `word`, least significant first.
pub open spec fn mix_word(state: u64, word: u32) -> u64 {
    mix(
        mix(mix(mix(state, word as u8), (word >> 8u32) as u8), (word >> 16u32) as u8),
        (word >> 24u32) as u8,
    )
}

/// The content hash of a sprite `width` by `height` pixels: the width, the
/// height and then every channel byte of `pixels` are mixed in, in that order,
/// and the low 32 bits of the final state are the hash.
pub open spec fn pixel_hash(width: u32, height: u32, pixels: Seq<u8>) -> u32 {
    mix_all(mix_word(mix_word(HASH_OFFSET, width), height), pixels) as u32
}

fn mix_byte(state: u64, byte: u8) -> (r: u64)
    ensures
        r == mix(state, byte),
{
    (state ^ (byte as u64)).wrapping_mul(HASH_PRIME)
}

fn mix_u32(state: u64, word: u32) -> (r: u64)
    ensures
        r == mix_word(state, word),
{
    let b0: u8 = #[verifier::truncate] (word as u8);
    let b1: u8 = #[verifier::truncate] ((word >> 8u32) as u8);
    let b2: u8 = #[verifier::truncate] ((word >> 16u32) as u8);
    let b3: u8 = #[verifier::truncate] ((word >> 24u32) as u8);
    mix_byte(mix_byte(mix_byte(mix_byte(state, b0), b1), b2), b3)
}

/// Computes the content hash of a sprite from its dimensions and the channel
/// bytes of its pixels.
pub fn hash_pixels(width: u32, height: u32, pixels: &Vec<u8>) -> (r: u32)
    ensures
        r == pixel_hash(width, height, pixels@),
{
    let mut state: u64 = mix_u32(mix_u32(HASH_OFFSET, width), height);
    let ghost start = state;
    let mut i: usize = 0;
    while i < pixels.len()
        invariant
            i <= pixels.len(),
            state == mix_all(start, pixels@.take(i as int)),
        decreases pixels.len() - i,
    {
        assert(pixels@.take(i + 1).drop_last() =~= pixels@.take(i as int));
        state = mix_byte(state, pixels[i]);
        i += 1;
    }
    assert(pixels@.take(i as int) =~= pixels@);
    #[verifier::truncate]
    (state as u32)
}

} // verus!
