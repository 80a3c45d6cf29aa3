//! A list of values that may be written either as one bare value or as a list.

use vstd::prelude::*;
use vstd::std_specs::convert::FromSpecImpl;

verus! {

/// An ordered list of values. Whatever shape the list was written in, it is
/// held as a sequence.
#[derive(Clone, Debug, Default, Ord, PartialOrd, Eq, PartialEq, Hash)]
pub struct SingleOrVec<T>(pub Vec<T>);

/// The two shapes in which a list may be written.
#[derive(Debug)]
pub enum SingleOrVecSource<T> {
    /// One bare value.
    Single(T),
    /// A list of values.
    Vector(Vec<T>),
}

impl<T> SingleOrVecSource<T> {
    /// The values that this source stands for, in order.
    pub open spec fn items(self) -> Seq<T> {
        match self {
            SingleOrVecSource::Single(v) => seq![v],
            SingleOrVecSource::Vector(v) => v@,
        }
    }
}

impl<T> View for SingleOrVec<T> {
    type V = Seq<T>;

    open spec fn view(&self) -> Seq<T> {
        self.0@
    }
}

impl<T> SingleOrVec<T> {
    /// A list of exactly one value.
    pub fn from_single(v: T) -> (r: Self)
        ensures
            r@ == seq![v],
    {
        let mut items: Vec<T> = Vec::new();
        items.push(v);
        SingleOrVec(items)
    }
}

impl<T> FromSpecImpl<SingleOrVecSource<T>> for SingleOrVec<T> {
    open spec fn obeys_from_spec() -> bool {
        false
    }

    open spec fn from_spec(v: SingleOrVecSource<T>) -> Self {
        arbitrary()
    }
}

impl<T> From<SingleOrVecSource<T>> for SingleOrVec<T> {
    /// Normalises either shape to a sequence: a bare value becomes a list of
    /// one, a list keeps its order.
    fn from(other: SingleOrVecSource<T>) -> (r: SingleOrVec<T>)
        ensures
            r@ == other.items(),
    {
        match other {
            SingleOrVecSource::Single(v) => SingleOrVec::from_single(v),
            SingleOrVecSource::Vector(v) => SingleOrVec(v),
        }
    }
}

} // verus!
