use vstd::prelude::*;

verus! {

/// A fitness score: the exact fraction `numerator / denominator`, between 0 and 1.
#[derive(Clone, Copy, Debug)]
pub struct Fitness {
    numerator: u32,
    denominator: u32,
}

/// The largest selection weight, reached by a fitness of 1.
pub const WEIGHT_SCALE: u32 = 100;

impl Fitness {
    pub closed spec fn num(self) -> nat {
        self.numerator as nat
    }

    pub closed spec fn den(self) -> nat {
        self.denominator as nat
    }

    /// The score lies in the unit interval: `0 <= num / den <= 1`.
    pub open spec fn wf(self) -> bool {
        0 < self.den() && self.num() <= self.den()
    }

    /// `self < other` as fractions, by cross-multiplication.
    pub open spec fn lt(self, other: Fitness) -> bool {
        self.num() * other.den() < other.num() * self.den()
    }

    /// `self >= other` as fractions.
    pub open spec fn ge(self, other: Fitness) -> bool {
        !self.lt(other)
    }

    /// The selection weight `floor(fitness * 100)`.
    pub open spec fn weight(self) -> nat {
        (WEIGHT_SCALE as nat * self.num()) / self.den()
    }

    /// The score `num / den`, for numbers of 32 bits.
    pub closed spec fn fraction(num: nat, den: nat) -> Fitness {
        Fitness { numerator: num as u32, denominator: den as u32 }
    }

    /// The least score, `0 / 1`.
    pub open spec fn least() -> Fitness {
        Fitness::fraction(0, 1)
    }

    /// The fraction `numerator / denominator`, where it is a score.
    pub fn new(numerator: u32, denominator: u32) -> (r: Option<Fitness>)
        ensures
            r is Some <==> (0 < denominator && numerator <= denominator),
            r matches Some(f) ==> f.wf() && f.num() == numerator && f.den() == denominator && f
                == Fitness::fraction(numerator as nat, denominator as nat),
    {
        if denominator == 0 || numerator > denominator {
            None
        } else {
            Some(Fitness { numerator, denominator })
        }
    }

    /// The least score, also given to an individual whose evaluation failed.
    pub fn zero() -> (f: Fitness)
        ensures
            f == Fitness::least(),
            f.wf(),
            f.num() == 0,
            f.den() == 1,
    {
        Fitness { numerator: 0, denominator: 1 }
    }

    /// Tells whether the score lies in the unit interval.
    pub fn is_valid(&self) -> (ok: bool)
        ensures
            ok == self.wf(),
    {
        0 < self.denominator && self.numerator <= self.denominator
    }

    pub fn numerator(&self) -> (n: u32)
        ensures
            n == self.num(),
    {
        self.numerator
    }

    pub fn denominator(&self) -> (d: u32)
        ensures
            d == self.den(),
    {
        self.denominator
    }

    pub fn less_than(&self, other: &Fitness) -> (r: bool)
        ensures
            r == self.lt(*other),
    {
        proof {
            lemma_product_fits(self.numerator, other.denominator);
            lemma_product_fits(other.numerator, self.denominator);
        }
        let left: u64 = self.numerator as u64 * other.denominator as u64;
        let right: u64 = other.numerator as u64 * self.denominator as u64;
        left < right
    }

    pub fn at_least(&self, other: &Fitness) -> (r: bool)
        ensures
            r == self.ge(*other),
    {
        !self.less_than(other)
    }

    pub fn selection_weight(&self) -> (w: u32)
        requires
            self.wf(),
        ensures
            w == self.weight(),
            w <= WEIGHT_SCALE,
    {
        proof {
            lemma_weight_bounded(*self);
        }
        let scaled: u64 = WEIGHT_SCALE as u64 * self.numerator as u64;
        (scaled / self.denominator as u64) as u32
    }
}

/// The product of two 32-bit numbers fits in 64 bits.
pub proof fn lemma_product_fits(a: u32, b: u32)
    ensures
        a * b <= u64::MAX,
{
    assert(a * b <= 0xffff_ffff * 0xffff_ffff) by (nonlinear_arith)
        requires
            0 <= a <= 0xffff_ffff,
            0 <= b <= 0xffff_ffff,
    ;
}

/// A fraction of 32-bit numbers has those numbers as its parts.
pub proof fn lemma_fraction(num: nat, den: nat)
    requires
        num <= u32::MAX,
        den <= u32::MAX,
    ensures
        Fitness::fraction(num, den).num() == num,
        Fitness::fraction(num, den).den() == den,
{
}

/// The least score is a score, weighs nothing, and no score is below it.
pub proof fn lemma_least(f: Fitness)
    ensures
        Fitness::least().wf(),
        Fitness::least().num() == 0,
        Fitness::least().den() == 1,
        Fitness::least().weight() == 0,
        !f.lt(Fitness::least()),
{
    assert(f.num() * 1 >= 0 * f.den()) by (nonlinear_arith);
}

/// A score weighs at most `WEIGHT_SCALE`.
pub proof fn lemma_weight_bounded(f: Fitness)
    requires
        f.wf(),
    ensures
        f.weight() <= WEIGHT_SCALE,
{
    let n = f.num() as int;
    let d = f.den() as int;
    assert((100 * n) / d <= 100) by (nonlinear_arith)
        requires
            0 <= n <= d,
            0 < d,
    ;
}

/// The weight never decreases as the score grows.
pub proof fn lemma_weight_monotone(a: Fitness, b: Fitness)
    requires
        a.wf(),
        b.wf(),
        !b.lt(a),
    ensures
        a.weight() <= b.weight(),
{
    let an = a.num() as int;
    let ad = a.den() as int;
    let bn = b.num() as int;
    let bd = b.den() as int;
    assert((100 * an) / ad <= (100 * bn) / bd) by (nonlinear_arith)
        requires
            0 <= an,
            0 < ad,
            0 <= bn,
            0 < bd,
            an * bd <= bn * ad,
    ;
}

/// Scores are ordered in a chain: `a >= b` and `b >= c` give `a >= c`.
pub proof fn lemma_order_transitive(a: Fitness, b: Fitness, c: Fitness)
    requires
        a.wf(),
        b.wf(),
        c.wf(),
        !a.lt(b),
        !b.lt(c),
    ensures
        !a.lt(c),
{
    let an = a.num() as int;
    let ad = a.den() as int;
    let bn = b.num() as int;
    let bd = b.den() as int;
    let cn = c.num() as int;
    let cd = c.den() as int;
    assert(an * cd >= cn * ad) by (nonlinear_arith)
        requires
            0 <= an,
            0 < ad,
            0 <= bn,
            0 < bd,
            0 <= cn,
            0 < cd,
            an * bd >= bn * ad,
            bn * cd >= cn * bd,
    ;
}

} // verus!
