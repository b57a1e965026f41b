use vstd::prelude::*;
use crate::letter::Letter;

verus! {

/// A total map from the four letters to values, one slot each.
pub struct Bag<T> {
    a: T,
    b: T,
    ainv: T,
    binv: T,
}

impl<T> Bag<T> {
    /// The value held for letter `l`.
    pub closed spec fn slot(&self, l: Letter) -> T {
        match l {
            Letter::A => self.a,
            Letter::B => self.b,
            Letter::AI => self.ainv,
            Letter::BI => self.binv,
        }
    }

    pub fn new(a: T, b: T, ainv: T, binv: T) -> (r: Bag<T>)
        ensures
            r.slot(Letter::A) == a,
            r.slot(Letter::B) == b,
            r.slot(Letter::AI) == ainv,
            r.slot(Letter::BI) == binv,
    {
        Bag { a, b, ainv, binv }
    }

    pub fn at(&self, l: Letter) -> (r: &T)
        ensures
            *r == self.slot(l),
    {
        match l {
            Letter::A => &self.a,
            Letter::B => &self.b,
            Letter::AI => &self.ainv,
            Letter::BI => &self.binv,
        }
    }
}

} // verus!
