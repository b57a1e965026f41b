use vstd::prelude::*;

verus! {

/// A generator of the free group on two letters, or the inverse of one.
#[derive(Debug, Clone, Copy, PartialEq, Eq, Structural)]
pub enum Letter {
    A,
    B,
    AI,
    BI,
}

/// The inverse letter: `a <-> a^-1`, `b <-> b^-1`.
pub open spec fn inverse(l: Letter) -> Letter {
    match l {
        Letter::A => Letter::AI,
        Letter::B => Letter::BI,
        Letter::AI => Letter::A,
        Letter::BI => Letter::B,
    }
}

/// The three letters that may follow `l` in a reduced word, in the
/// "left, straight, right" order that walks the limit set as one curve.
pub open spec fn successors(l: Letter) -> (Letter, Letter, Letter) {
    match l {
        Letter::A => (Letter::B, Letter::A, Letter::BI),
        Letter::B => (Letter::AI, Letter::B, Letter::A),
        Letter::AI => (Letter::BI, Letter::AI, Letter::B),
        Letter::BI => (Letter::A, Letter::BI, Letter::AI),
    }
}

/// The word whose image of the seed point `1` is the endpoint on the side of `l`.
pub open spec fn tail_of(l: Letter) -> Seq<Letter> {
    match l {
        Letter::A => seq![Letter::BI, Letter::AI],
        Letter::B => seq![Letter::BI],
        Letter::AI => Seq::empty(),
        Letter::BI => seq![Letter::AI],
    }
}

/// No letter of `w` stands next to its inverse.
pub open spec fn is_reduced(w: Seq<Letter>) -> bool {
    forall|i: int| 0 <= i < w.len() - 1 ==> #[trigger] w[i + 1] != inverse(w[i])
}

impl Letter {
    pub fn inv(&self) -> (r: Letter)
        ensures
            r == inverse(*self),
            inverse(r) == *self,
    {
        match self {
            Letter::A => Letter::AI,
            Letter::B => Letter::BI,
            Letter::AI => Letter::A,
            Letter::BI => Letter::B,
        }
    }

    /// The admissible continuations of a word ending in `self`, in drawing order.
    pub fn children(self) -> (r: (Letter, Letter, Letter))
        ensures
            r == successors(self),
            r.0 != inverse(self),
            r.1 != inverse(self),
            r.2 != inverse(self),
            r.1 == self,
    {
        match self {
            Letter::A => (Letter::B, Letter::A, Letter::BI),
            Letter::B => (Letter::AI, Letter::B, Letter::A),
            Letter::AI => (Letter::BI, Letter::AI, Letter::B),
            Letter::BI => (Letter::A, Letter::BI, Letter::AI),
        }
    }

    /// The tail word that carries the seed point to the endpoint of an
    /// infinite word ending in `self`.
    pub fn endpoint_tail(self) -> (r: Vec<Letter>)
        ensures
            r@ == tail_of(self),
    {
        match self {
            Letter::A => vec![Letter::BI, Letter::AI],
            Letter::B => vec![Letter::BI],
            Letter::AI => Vec::new(),
            Letter::BI => vec![Letter::AI],
        }
    }
}

} // verus!
