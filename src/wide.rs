use vstd::prelude::*;

verus! {

/// One more than the largest `u128`.
pub open spec fn base() -> nat {
    u128::MAX as nat + 1
}

/// An unsigned integer of two `u128` limbs, wide enough for a sum of many
/// `u128` weights and for the remainders of a product of two `u128`s.
#[derive(Clone, Copy)]
pub struct Wide {
    pub hi: u128,
    pub lo: u128,
}

impl Wide {
    pub open spec fn value(self) -> nat {
        self.hi as nat * base() + self.lo as nat
    }

    pub fn from_u128(x: u128) -> (r: Wide)
        ensures
            r.value() == x as nat,
    {
        Wide { hi: 0, lo: x }
    }

    pub fn add(self, o: Wide) -> (r: Wide)
        requires
            self.value() + o.value() < base() * base(),
        ensures
            r.value() == self.value() + o.value(),
    {
        let carry: u128;
        let lo: u128;
        if self.lo > u128::MAX - o.lo {
            lo = self.lo - (u128::MAX - o.lo) - 1;
            carry = 1;
        } else {
            lo = self.lo + o.lo;
            carry = 0;
        }
        assert(self.hi as nat + o.hi as nat + carry < base()) by (nonlinear_arith)
            requires
                (self.hi as nat * base() + self.lo as nat + o.hi as nat * base() + (o.lo as nat))
                    < base() * base(),
                carry == 1 ==> self.lo as nat + o.lo as nat >= base(),
                self.lo < base(),
                o.lo < base(),
                carry <= 1,
        ;
        let hi = self.hi + o.hi + carry;
        assert(hi as nat * base() + lo as nat == self.value() + o.value()) by (nonlinear_arith)
            requires
                hi == self.hi + o.hi + carry,
                carry == 1 ==> lo + base() == self.lo + o.lo,
                carry == 0 ==> lo == self.lo + o.lo,
                carry <= 1,
        ;
        Wide { hi, lo }
    }

    pub fn sub(self, o: Wide) -> (r: Wide)
        requires
            self.value() >= o.value(),
        ensures
            r.value() == self.value() - o.value(),
    {
        if self.lo >= o.lo {
            assert(self.hi >= o.hi) by (nonlinear_arith)
                requires
                    self.hi as nat * base() + self.lo as nat >= o.hi as nat * base() + o.lo as nat,
                    self.lo < base(),
                    o.lo < base(),
            ;
            let r = Wide { hi: self.hi - o.hi, lo: self.lo - o.lo };
            assert(r.value() == self.value() - o.value()) by (nonlinear_arith)
                requires
                    r.hi == self.hi - o.hi,
                    r.lo == self.lo - o.lo,
            ;
            r
        } else {
            assert(self.hi > o.hi) by (nonlinear_arith)
                requires
                    self.hi as nat * base() + self.lo as nat >= o.hi as nat * base() + o.lo as nat,
                    self.lo < o.lo,
                    o.lo < base(),
            ;
            let lo = self.lo + (u128::MAX - o.lo) + 1;
            let r = Wide { hi: self.hi - o.hi - 1, lo };
            assert(r.value() == self.value() - o.value()) by (nonlinear_arith)
                requires
                    r.hi == self.hi - o.hi - 1,
                    r.lo as int == self.lo as int + base() - o.lo as int,
            ;
            r
        }
    }

    pub fn ge(self, o: Wide) -> (r: bool)
        ensures
            r == (self.value() >= o.value()),
    {
        proof {
            lemma_value_order(self, o);
        }
        self.hi > o.hi || (self.hi == o.hi && self.lo >= o.lo)
    }
}

proof fn lemma_value_order(a: Wide, b: Wide)
    ensures
        (a.value() >= b.value()) == (a.hi > b.hi || (a.hi == b.hi && a.lo >= b.lo)),
{
    if a.hi > b.hi {
        assert(a.value() >= b.value()) by (nonlinear_arith)
            requires
                a.hi > b.hi,
                b.lo < base(),
        ;
    } else if a.hi < b.hi {
        assert(a.value() < b.value()) by (nonlinear_arith)
            requires
                a.hi < b.hi,
                a.lo < base(),
        ;
    }
}

} // verus!
