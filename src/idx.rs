//! Typed handles into an arena.
use std::marker::PhantomData;
use vstd::prelude::*;

verus! {

/// A position in an arena whose elements have type `T`.
///
/// The type parameter only tags the handle: at run time an `Idx<T>` is a
/// plain `usize`, and two handles of one type are equal exactly when their
/// positions are.
#[derive(Debug)]
pub struct Idx<T> {
    raw: usize,
    _ty: PhantomData<T>,
}

impl<T> View for Idx<T> {
    type V = usize;

    /// The position that the handle stands for.
    closed spec fn view(&self) -> usize {
        self.raw
    }
}

impl<T> Idx<T> {
    /// Makes the handle of position `raw`. No bounds are checked here.
    pub fn from_raw(raw: usize) -> (r: Idx<T>)
        ensures
            r@ == raw,
    {
        Idx { raw, _ty: PhantomData }
    }

    /// The position that the handle stands for.
    pub fn to_raw(self) -> (r: usize)
        ensures
            r == self@,
    {
        self.raw
    }
}

impl<T> Clone for Idx<T> {
    fn clone(&self) -> (r: Self)
        ensures
            r@ == self@,
    {
        Idx { raw: self.raw, _ty: PhantomData }
    }
}

impl<T> Copy for Idx<T> {

}

impl<T> PartialEq for Idx<T> {
    fn eq(&self, other: &Idx<T>) -> (r: bool) {
        self.raw == other.raw
    }
}

impl<T> vstd::std_specs::cmp::PartialEqSpecImpl for Idx<T> {
    open spec fn obeys_eq_spec() -> bool {
        true
    }

    open spec fn eq_spec(&self, other: &Idx<T>) -> bool {
        self@ == other@
    }
}

impl<T> Eq for Idx<T> {

}

} // verus!
