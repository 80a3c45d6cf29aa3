//! Sprite references with an optional selection weight.

use crate::single_or_vec::SingleOrVec;
use vstd::prelude::*;
use vstd::std_specs::convert::FromSpecImpl;

verus! {

/// The alternatives for one visual layer of a tile: a sequence of sprite ids
/// and, where one was written, the weight with which the layer is chosen.
#[derive(Clone, Debug, Default, Ord, PartialOrd, Eq, PartialEq, Hash)]
pub struct SpriteIdWithWeight {
    pub id: SingleOrVec<u32>,
    pub weight: Option<u32>,
}

/// The two shapes in which a sprite reference may be written.
#[derive(Debug)]
pub enum SpriteIdSource {
    /// A bare sprite id or list of sprite ids.
    IdOnly(SingleOrVec<u32>),
    /// An object that carries a weight beside the sprite ids.
    WithWeight { weight: u32, sprite: SingleOrVec<u32> },
}

/// What a sprite reference says: its sprite ids in order, and its weight.
pub struct SpriteRefView {
    pub ids: Seq<u32>,
    pub weight: Option<u32>,
}

impl View for SpriteIdWithWeight {
    type V = SpriteRefView;

    open spec fn view(&self) -> SpriteRefView {
        SpriteRefView { ids: self.id@, weight: self.weight }
    }
}

impl SpriteIdSource {
    /// The reference that this source stands for.
    pub open spec fn normal(self) -> SpriteRefView {
        match self {
            SpriteIdSource::IdOnly(id) => SpriteRefView { ids: id@, weight: None },
            SpriteIdSource::WithWeight { weight, sprite } => SpriteRefView {
                ids: sprite@,
                weight: Some(weight),
            },
        }
    }
}

impl FromSpecImpl<SpriteIdSource> for SpriteIdWithWeight {
    open spec fn obeys_from_spec() -> bool {
        true
    }

    open spec fn from_spec(v: SpriteIdSource) -> Self {
        match v {
            SpriteIdSource::IdOnly(id) => SpriteIdWithWeight { id, weight: None },
            SpriteIdSource::WithWeight { weight, sprite } => SpriteIdWithWeight {
                id: sprite,
                weight: Some(weight),
            },
        }
    }
}

impl From<SpriteIdSource> for SpriteIdWithWeight {
    /// Normalises either shape to one record: bare ids carry no weight, an
    /// object carries the weight it names.
    fn from(other: SpriteIdSource) -> (r: SpriteIdWithWeight)
        ensures
            r@ == other.normal(),
    {
        match other {
            SpriteIdSource::IdOnly(id) => SpriteIdWithWeight { id, weight: None },
            SpriteIdSource::WithWeight { weight, sprite } => SpriteIdWithWeight {
                weight: Some(weight),
                id: sprite,
            },
        }
    }
}

} // verus!
