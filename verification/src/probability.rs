use crate::random::draw_ratio;
use rand::rngs::StdRng;
use vstd::prelude::*;

verus! {

/// A chance: the exact fraction `numerator / denominator`, between 0 and 1.
#[derive(Clone, Copy, Debug)]
pub struct Probability {
    numerator: u32,
    denominator: u32,
}

impl Probability {
    pub closed spec fn num(self) -> nat {
        self.numerator as nat
    }

    pub closed spec fn den(self) -> nat {
        self.denominator as nat
    }

    pub open spec fn wf(self) -> bool {
        0 < self.den() && self.num() <= self.den()
    }

    /// The chance is 1.
    pub open spec fn is_certain(self) -> bool {
        self.num() == self.den()
    }

    /// The chance is 0.
    pub open spec fn is_impossible(self) -> bool {
        self.num() == 0
    }

    /// The chance `numerator / denominator`, where it is one.
    pub fn new(numerator: u32, denominator: u32) -> (r: Option<Probability>)
        ensures
            r is Some <==> (0 < denominator && numerator <= denominator),
            r matches Some(p) ==> p.wf() && p.num() == numerator && p.den() == denominator,
    {
        if denominator == 0 || numerator > denominator {
            None
        } else {
            Some(Probability { numerator, denominator })
        }
    }

    /// The chance 1.
    pub fn always() -> (p: Probability)
        ensures
            p.wf(),
            p.is_certain(),
            !p.is_impossible(),
    {
        Probability { numerator: 1, denominator: 1 }
    }

    /// The chance 0.
    pub fn never() -> (p: Probability)
        ensures
            p.wf(),
            p.is_impossible(),
            !p.is_certain(),
    {
        Probability { numerator: 0, denominator: 1 }
    }

    /// Tells whether the chance lies between 0 and 1.
    pub fn is_valid(&self) -> (ok: bool)
        ensures
            ok == self.wf(),
    {
        0 < self.denominator && self.numerator <= self.denominator
    }

    pub fn numerator(&self) -> (n: u32)
        ensures
            n == self.num(),
    {
        self.numerator
    }

    pub fn denominator(&self) -> (d: u32)
        ensures
            d == self.den(),
    {
        self.denominator
    }

    /// Draws once: true with this chance. A chance of 1 always gives true, a chance
    /// of 0 never.
    pub fn draw(&self, rng: &mut StdRng) -> (hit: bool)
        requires
            self.wf(),
        ensures
            self.is_certain() ==> hit,
            self.is_impossible() ==> !hit,
    {
        draw_ratio(rng, self.numerator, self.denominator)
    }
}

} // verus!
