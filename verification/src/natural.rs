//! Natural numbers of any size, as far as printing needs them.
use vstd::prelude::*;

verus! {

/// A power of the limb base.
pub open spec fn base_power(n: nat) -> nat
    decreases n,
{
    if n == 0 {
        1
    } else {
        0x1_0000_0000 * base_power((n - 1) as nat)
    }
}

/// A limb, nought past the last one.
pub open spec fn limb(s: Seq<u32>, i: int) -> nat {
    if 0 <= i < s.len() {
        s[i] as nat
    } else {
        0
    }
}

/// The number that the first `n` limbs hold, low limb first.
pub open spec fn value_of(s: Seq<u32>, n: nat) -> nat
    decreases n,
{
    if n == 0 {
        0
    } else {
        value_of(s, (n - 1) as nat) + limb(s, n - 1) * base_power((n - 1) as nat)
    }
}

/// A natural number.
pub struct Natural {
    limbs: Vec<u32>,
}

proof fn lemma_past_end(s: Seq<u32>, n: nat)
    requires
        n >= s.len(),
    ensures
        value_of(s, n) == value_of(s, s.len()),
    decreases n,
{
    if n > s.len() {
        lemma_past_end(s, (n - 1) as nat);
        assert(limb(s, n - 1) * base_power((n - 1) as nat) == 0) by (nonlinear_arith)
            requires
                limb(s, n - 1) == 0,
        ;
    }
}

proof fn lemma_prefix_value(s: Seq<u32>, x: u32, n: nat)
    requires
        n <= s.len(),
    ensures
        value_of(s.push(x), n) == value_of(s, n),
    decreases n,
{
    if n > 0 {
        lemma_prefix_value(s, x, (n - 1) as nat);
    }
}

proof fn lemma_below_power(s: Seq<u32>, n: nat)
    ensures
        value_of(s, n) < base_power(n),
        base_power(n) > 0,
    decreases n,
{
    if n > 0 {
        lemma_below_power(s, (n - 1) as nat);
        let x = base_power((n - 1) as nat);
        let l = limb(s, n - 1);
        assert(l * x + x <= 0x1_0000_0000 * x) by (nonlinear_arith)
            requires
                l <= 0xFFFF_FFFF,
        ;
    }
}

impl Natural {
    /// The number.
    pub closed spec fn view(&self) -> nat {
        value_of(self.limbs@, self.limbs@.len())
    }

    /// A small number.
    pub fn from_u64(v: u64) -> (r: Natural)
        ensures
            r@ == v,
    {
        let mut limbs: Vec<u32> = Vec::new();
        limbs.push((v % 0x1_0000_0000) as u32);
        limbs.push((v / 0x1_0000_0000) as u32);
        proof {
            reveal_with_fuel(value_of, 3);
            reveal_with_fuel(base_power, 3);
            assert(limbs@.len() == 2);
            assert(limb(limbs@, 0) == v % 0x1_0000_0000);
            assert(limb(limbs@, 1) == v / 0x1_0000_0000);
            let s = limbs@;
            assert(base_power(0) == 1);
            assert(base_power(1) == 0x1_0000_0000);
            assert(value_of(s, 1) == value_of(s, 0) + limb(s, 0) * base_power(0));
            assert(value_of(s, 2) == value_of(s, 1) + limb(s, 1) * base_power(1));
            assert(limb(s, 0) * 1 == limb(s, 0));
        }
        Natural { limbs }
    }

    /// The number times a small one.
    pub fn times(&self, k: u32) -> (r: Natural)
        ensures
            r@ == self@ * k,
    {
        let mut out: Vec<u32> = Vec::new();
        let mut carry: u64 = 0;
        let mut i: usize = 0;
        proof {
            assert(0 * k == 0) by (nonlinear_arith);
        }
        while i < self.limbs.len()
            invariant
                i <= self.limbs@.len(),
                out@.len() == i,
                carry <= 0xFFFF_FFFF,
                value_of(out@, i as nat) + carry * base_power(i as nat) == value_of(self.limbs@, i as nat) * k,
            decreases self.limbs@.len() - i,
        {
            let l: u32 = self.limbs[i];
            assert(l * k + carry <= 0xFFFF_FFFF_FFFF_FFFF && l * k <= 0xFFFF_FFFF_0000_0000) by (nonlinear_arith)
                requires
                    l <= 0xFFFF_FFFF,
                    k <= 0xFFFF_FFFF,
                    carry <= 0xFFFF_FFFF,
            ;
            let t: u64 = l as u64 * k as u64 + carry;
            let low: u32 = (t % 0x1_0000_0000) as u32;
            let next: u64 = t / 0x1_0000_0000;
            let ghost before = out@;
            out.push(low);
            proof {
                let x = base_power(i as nat);
                lemma_prefix_value(before, low, i as nat);
                assert(limb(out@, i as int) == low);
                assert(limb(self.limbs@, i as int) == l);
                assert(base_power((i + 1) as nat) == 0x1_0000_0000 * x);
                let a = value_of(before, i as nat);
                let b = value_of(self.limbs@, i as nat);
                assert((a + low * x) + next * (0x1_0000_0000 * x) == (b + l * x) * k) by (nonlinear_arith)
                    requires
                        a + carry * x == b * k,
                        l * k + carry == next * 0x1_0000_0000 + low,
                ;
            }
            carry = next;
            i = i + 1;
        }
        let ghost before = out@;
        out.push(carry as u32);
        proof {
            lemma_prefix_value(before, carry as u32, i as nat);
            assert(limb(out@, i as int) == carry);
        }
        Natural { limbs: out }
    }

    fn limb_at(&self, i: usize) -> (r: u32)
        ensures
            r == limb(self.limbs@, i as int),
    {
        if i < self.limbs.len() {
            self.limbs[i]
        } else {
            0
        }
    }

    /// The number less another, where it is not less than that.
    pub fn minus(&self, other: &Natural) -> (r: Option<Natural>)
        ensures
            match r {
                Some(d) => self@ >= other@ && d@ == self@ - other@,
                None => self@ < other@,
            },
    {
        let n: usize = if self.limbs.len() >= other.limbs.len() {
            self.limbs.len()
        } else {
            other.limbs.len()
        };
        let mut out: Vec<u32> = Vec::new();
        let mut borrow: u64 = 0;
        let mut i: usize = 0;
        while i < n
            invariant
                i <= n,
                out@.len() == i,
                borrow <= 1,
                value_of(out@, i as nat) + value_of(other.limbs@, i as nat) == value_of(self.limbs@, i as nat) + borrow
                    * base_power(i as nat),
            decreases n - i,
        {
            let a: u64 = self.limb_at(i) as u64;
            let b: u64 = other.limb_at(i) as u64;
            let t: u64 = 0x1_0000_0000 + a - b - borrow;
            let low: u32 = (t % 0x1_0000_0000) as u32;
            let next: u64 = 1 - t / 0x1_0000_0000;
            let ghost before = out@;
            out.push(low);
            proof {
                let x = base_power(i as nat);
                lemma_prefix_value(before, low, i as nat);
                assert(limb(out@, i as int) == low);
                let vo = value_of(before, i as nat);
                let va = value_of(self.limbs@, i as nat);
                let vb = value_of(other.limbs@, i as nat);
                assert((vo + low * x) + (vb + b * x) == (va + a * x) + next * (0x1_0000_0000 * x)) by (nonlinear_arith)
                    requires
                        vo + vb == va + borrow * x,
                        low + b + borrow == a + next * 0x1_0000_0000,
                ;
            }
            borrow = next;
            i = i + 1;
        }
        proof {
            lemma_past_end(self.limbs@, n as nat);
            lemma_past_end(other.limbs@, n as nat);
            lemma_below_power(out@, n as nat);
        }
        if borrow == 0 {
            Some(Natural { limbs: out })
        } else {
            None
        }
    }

    /// Whether the number is not less than another.
    pub fn at_least(&self, other: &Natural) -> (r: bool)
        ensures
            r == (self@ >= other@),
    {
        self.minus(other).is_some()
    }
}

} // verus!
