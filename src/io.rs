use vstd::prelude::*;

verus! {

/// Splits a duplex handle into a receiving and a transmitting half that borrow it.
pub trait Split<'src, T: 'src, U: 'src> {
    fn split(&'src self) -> (T, U);
}

/// Splits a duplex handle into a receiving and a transmitting half that borrow it mutably.
pub trait SplitMut<'src, T: 'src, U: 'src> {
    fn split_mut(&'src mut self) -> (T, U);
}

/// Splits a duplex handle into a receiving and a transmitting half that own their parts.
pub trait IntoSplit<T, U> {
    fn into_split(self) -> (T, U);
}

} // verus!
