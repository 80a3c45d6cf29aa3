//! Comparison and extraction of tile definitions between tilesets, independent
//! of how each tileset packs its sprites into atlas images.
//!
//! A tileset lists tiles in a compact form: a tile may have several ids and
//! parts of its own, and it names its sprites by their place in the atlas
//! images. [`expand`] turns the tiles into concrete ones, one for each id, and
//! can replace each sprite id by a hash of the sprite's pixels ([`hash`],
//! [`atlas`], [`layout`]), so that tilesets packed differently compare equal
//! where they show the same pixels. [`diff`] compares two expansions, and
//! [`extract`] plans the extraction of single tiles with their sprites.
//! [`laws`] states what holds of every expansion.

pub mod atlas;
pub mod diff;
pub mod expand;
pub mod extract;
pub mod hash;
pub mod laws;
pub mod layout;
pub mod model;
pub mod order;
pub mod rank;
pub mod seqs;
pub mod sheet;
pub mod single_or_vec;
pub mod sort;
pub mod sprite_id_with_weight;
pub mod text;
