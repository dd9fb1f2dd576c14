//! What the bits of floating-point numbers are worth, and how their decimals are written.
use crate::float::{
    dec_fixed, doublings, exponent32, exponential, field32, field64, lemma_p2_positive, nearest_whole, negative32, p10,
    p2, positional, rounded, shared_divisor, significand32, target32, target64, up, whole32,
};
use crate::numerals::{law_decimal_is_worth_the_number, worth, worth_of};
use crate::text::{dec, digit, repeated, signed};
use vstd::prelude::*;

verus! {

/// The numbers that bits stand for follow each other without a gap: the bits one higher stand for the number that is
/// one unit in the last place further from nought. Either the unit is the same and the significand is one more, or the
/// unit is twice as large and half of what the significand would be remains.
pub proof fn law_singles_follow_each_other(bits: u32)
    requires
        bits != 0x7FFF_FFFF,
        bits != 0xFFFF_FFFF,
        field32((bits + 1) as u32) < 255,
    ensures
        ({
            let next = (bits + 1) as u32;
            let step = exponent32(next) - exponent32(bits);
            &&& step == 0 || step == 1
            &&& step == 0 ==> significand32(next) == significand32(bits) + 1
            &&& step == 1 ==> 2 * significand32(next) == significand32(bits) + 1
            &&& negative32(next) == negative32(bits)
        }),
{
    let next = (bits + 1) as u32;
    if bits % 0x80_0000 == 0x7F_FFFF {
        assert(next % 0x80_0000 == 0);
        assert(next / 0x80_0000 == bits / 0x80_0000 + 1);
    } else {
        assert(next % 0x80_0000 == bits % 0x80_0000 + 1);
        assert(next / 0x80_0000 == bits / 0x80_0000);
    }
}

/// Where the numbers start and what one is: no bits stand for nought, with and without the sign, and the bits of one
/// stand for two to the twenty-third units of which that many make one. The highest bit is the sign and changes nothing
/// else.
pub proof fn law_single_sign_and_unit(bits: u32)
    requires
        bits < 0x8000_0000,
    ensures
        significand32(0) == 0,
        significand32(0x3F80_0000) == p2(23),
        exponent32(0x3F80_0000) == -23,
        !negative32(bits),
        negative32((bits + 0x8000_0000) as u32),
        significand32((bits + 0x8000_0000) as u32) == significand32(bits),
        exponent32((bits + 0x8000_0000) as u32) == exponent32(bits),
        field32((bits + 0x8000_0000) as u32) == field32(bits),
{
    let other = (bits + 0x8000_0000) as u32;
    assert(other % 0x80_0000 == bits % 0x80_0000);
    assert(other / 0x80_0000 == bits / 0x80_0000 + 256);
    reveal_with_fuel(p2, 24);
}

/// The decimals that read back as a number reach up to where those of the next number start, and a decimal half way
/// between the two belongs to just one of them. The power of two by which the next one's bounds are larger is one or
/// two.
pub proof fn law_single_bounds_meet(bits: u32)
    requires
        bits != 0x7FFF_FFFF,
        bits != 0xFFFF_FFFF,
        significand32(bits) > 0,
        field32((bits + 1) as u32) < 255,
    ensures
        ({
            let here = target32(bits);
            let next = target32((bits + 1) as u32);
            let step = next.e - here.e;
            &&& step == 0 || step == 1
            &&& step == 0 ==> here.c + 2 == next.c - next.lo
            &&& step == 1 ==> here.c + 2 == 2 * (next.c - next.lo)
            &&& here.ends != next.ends
        }),
{
    law_singles_follow_each_other(bits);
    let next = (bits + 1) as u32;
    if bits % 0x80_0000 == 0x7F_FFFF {
        assert(next % 0x80_0000 == 0);
        assert(next / 0x80_0000 == bits / 0x80_0000 + 1);
    } else {
        assert(next % 0x80_0000 == bits % 0x80_0000 + 1);
        assert(next / 0x80_0000 == bits / 0x80_0000);
    }
}

/// The same of numbers in double precision, and what one is among those.
pub proof fn law_double_bounds_meet(bits: u64)
    requires
        bits != 0x7FFF_FFFF_FFFF_FFFF,
        bits != 0xFFFF_FFFF_FFFF_FFFF,
        target64(bits).c > 0,
        field64((bits + 1) as u64) < 2047,
    ensures
        ({
            let here = target64(bits);
            let next = target64((bits + 1) as u64);
            let step = next.e - here.e;
            &&& step == 0 || step == 1
            &&& step == 0 ==> here.c + 2 == next.c - next.lo && next.c == here.c + 4
            &&& step == 1 ==> here.c + 2 == 2 * (next.c - next.lo) && 2 * next.c == here.c + 4
            &&& here.ends != next.ends
        }),
        target64(0x3FF0_0000_0000_0000).c == p2(54),
        target64(0x3FF0_0000_0000_0000).e == -54,
{
    let next = (bits + 1) as u64;
    if bits % 0x10_0000_0000_0000 == 0xF_FFFF_FFFF_FFFF {
        assert(next % 0x10_0000_0000_0000 == 0);
        assert(next / 0x10_0000_0000_0000 == bits / 0x10_0000_0000_0000 + 1);
    } else {
        assert(next % 0x10_0000_0000_0000 == bits % 0x10_0000_0000_0000 + 1);
        assert(next / 0x10_0000_0000_0000 == bits / 0x10_0000_0000_0000);
    }
    reveal_with_fuel(p2, 55);
}

/// A rounded quotient is no further from the quotient than half of one, and where it is just that far it is even.
pub proof fn law_rounded_is_nearest(n: nat, d: nat)
    requires
        d > 0,
    ensures
        2 * n <= 2 * (rounded(n, d) * d) + d,
        2 * (rounded(n, d) * d) <= 2 * n + d,
        2 * n == 2 * (rounded(n, d) * d) + d || 2 * (rounded(n, d) * d) == 2 * n + d ==> rounded(n, d) % 2 == 0,
{
    let q = n / d;
    let r = n % d;
    assert(n == q * d + r && 0 <= r < d) by (nonlinear_arith)
        requires
            d > 0,
            q == n / d,
            r == n % d,
    ;
    assert((q + 1) * d == q * d + d) by (nonlinear_arith);
}

/// A number times a power of two is brought to the nearest whole number, and to the larger one from half way.
pub proof fn law_nearest_whole_is_nearest(q: nat, t: int)
    ensures
        t >= 0 ==> nearest_whole(q, t) == q * p2(t as nat),
        t < 0 ==> {
            &&& 2 * (nearest_whole(q, t) * p2((-t) as nat)) <= 2 * q + p2((-t) as nat)
            &&& 2 * q < 2 * (nearest_whole(q, t) * p2((-t) as nat)) + p2((-t) as nat)
        },
{
    if t < 0 {
        let h = p2((-t - 1) as nat);
        let d = p2((-t) as nat);
        lemma_p2_positive((-t - 1) as nat);
        assert(d == 2 * h);
        let n = nearest_whole(q, t);
        assert(n * d <= q + h < n * d + d) by (nonlinear_arith)
            requires
                d > 0,
                n == (q + h) / d,
        ;
    }
}

/// A number that is said to be whole is that whole number, below ten million, and of any other no such number is it.
pub proof fn law_whole_number_is_the_number(bits: u32, w: nat)
    requires
        field32(bits) < 255,
    ensures
        whole32(bits) == Some(w) <==> w < 10_000_000 && significand32(bits) * p2(up(exponent32(bits))) == w * p2(
            up(-exponent32(bits)),
        ),
{
    let m = significand32(bits);
    let e = exponent32(bits);
    if e >= 0 {
        assert(p2(up(-e)) == 1);
    } else {
        let d = p2((-e) as nat);
        lemma_p2_positive((-e) as nat);
        assert(p2(up(e)) == 1);
        assert((m % d == 0 && m / d == w) <==> m == w * d) by (nonlinear_arith)
            requires
                d > 0,
        ;
    }
}

/// A number is doubled until it reaches the other and no longer.
pub proof fn law_doubled_just_enough(a: nat, d: nat)
    requires
        a > 0,
    ensures
        a * p2(doublings(a, d)) >= d,
        doublings(a, d) > 0 ==> a * p2((doublings(a, d) - 1) as nat) < d,
    decreases (if a < d { d - a } else { 0 }),
{
    if a < d {
        law_doubled_just_enough(2 * a, d);
        let y = doublings(2 * a, d);
        assert(doublings(a, d) == 1 + y);
        let x = p2(y);
        assert(p2(1 + y) == 2 * x);
        assert(a * (2 * x) == (2 * a) * x) by (nonlinear_arith);
        if y > 0 {
            let z = p2((y - 1) as nat);
            assert(x == 2 * z);
            assert(a * (2 * z) == (2 * a) * z) by (nonlinear_arith);
        } else {
            assert(a * 1 == a);
        }
    } else {
        assert(a * 1 == a);
    }
}

/// One number goes into another.
pub open spec fn divides(g: nat, a: nat) -> bool {
    exists|x: nat| #[trigger] (x * g) == a
}

/// What two numbers share as a divisor goes into both, and whatever goes into both goes into it.
pub proof fn law_shared_divisor_is_greatest(a: nat, b: nat, other: nat)
    ensures
        divides(shared_divisor(a, b), a),
        divides(shared_divisor(a, b), b),
        divides(other, a) && divides(other, b) ==> divides(other, shared_divisor(a, b)),
    decreases b,
{
    let g = shared_divisor(a, b);
    if b == 0 {
        assert(1 * g == a);
        assert(0 * g == b);
    } else {
        law_shared_divisor_is_greatest(b, a % b, other);
        let x = choose|x: nat| #[trigger] (x * g) == b;
        let y = choose|y: nat| #[trigger] (y * g) == a % b;
        let q = a / b;
        assert(a == q * b + a % b) by (nonlinear_arith)
            requires
                b > 0,
                q == a / b,
        ;
        assert((q * x + y) * g == q * (x * g) + y * g) by (nonlinear_arith);
        assert((q * x + y) * g == a);
        if divides(other, a) && divides(other, b) {
            let u = choose|u: nat| #[trigger] (u * other) == a;
            let v = choose|v: nat| #[trigger] (v * other) == b;
            assert((u - q * v) * other == u * other - q * (v * other)) by (nonlinear_arith);
            if other > 0 {
                assert(u - q * v >= 0) by (nonlinear_arith)
                    requires
                        (u - q * v) * other >= 0,
                        other > 0,
                ;
                let w = (u - q * v) as nat;
                assert(w * other == a % b);
            } else {
                assert(b == 0) by (nonlinear_arith)
                    requires
                        v * other == b,
                        other == 0,
                ;
            }
        }
    }
}

proof fn lemma_pushed(s: Seq<char>, c: char)
    ensures
        worth(s.push(c), 10) == worth(s, 10) * 10 + worth_of(c),
{
    assert(s.push(c).drop_last() =~= s);
}

/// A number written with so many digits has just as many, and is worth what it leaves over a power of ten.
pub proof fn law_fixed_decimal_is_worth_the_rest(n: nat, width: nat)
    ensures
        dec_fixed(n, width).len() == width,
        n < p10(width) ==> worth(dec_fixed(n, width), 10) == n,
    decreases width,
{
    if width > 0 {
        law_fixed_decimal_is_worth_the_rest(n / 10, (width - 1) as nat);
        lemma_pushed(dec_fixed(n / 10, (width - 1) as nat), digit((n % 10) as int));
    }
}

proof fn lemma_noughts_behind(s: Seq<char>, count: nat)
    ensures
        worth(s + repeated('0', count), 10) == worth(s, 10) * p10(count),
    decreases count,
{
    if count == 0 {
        assert(s + repeated('0', 0) =~= s);
        assert(worth(s, 10) * 1 == worth(s, 10));
    } else {
        let less = (count - 1) as nat;
        lemma_noughts_behind(s, less);
        assert(s + repeated('0', count) =~= (s + repeated('0', less)).push('0'));
        lemma_pushed(s + repeated('0', less), '0');
        let x = worth(s, 10);
        let y = p10(less);
        assert((x * y) * 10 == x * (10 * y)) by (nonlinear_arith);
    }
}

proof fn lemma_noughts_before(s: Seq<char>, count: nat)
    ensures
        worth(repeated('0', count) + s, 10) == worth(s, 10),
    decreases s.len(), count,
{
    let all = repeated('0', count) + s;
    if s.len() > 0 {
        lemma_noughts_before(s.drop_last(), count);
        assert(all.drop_last() =~= repeated('0', count) + s.drop_last());
    } else if count > 0 {
        lemma_noughts_before(s, (count - 1) as nat);
        assert(all.drop_last() =~= repeated('0', (count - 1) as nat) + s);
        assert(all.last() == '0');
    }
}

/// A text without one of its characters.
pub open spec fn without(text: Seq<char>, at: int) -> Seq<char> {
    text.take(at) + text.skip(at + 1)
}

/// A decimal that is written out is worth its digits times its power of ten. With an exponent below nought, as many
/// digits stand behind the point as the exponent says, and without the point the text is worth the digits. With one
/// from nought on there is no point, but for the nought that may stand behind one.
pub proof fn law_written_out_decimal(d: nat, k: int, point: bool)
    ensures
        ({
            let text = positional(d, k, point);
            let at = text.len() - 1 + k;
            &&& k < 0 ==> {
                &&& 0 < at < text.len()
                &&& text[at] == '.'
                &&& worth(without(text, at), 10) == d
            }
            &&& k >= 0 && !point ==> worth(text, 10) == d * p10(k as nat)
            &&& k >= 0 && point ==> {
                &&& text.len() > 2
                &&& worth(text.take(text.len() - 2), 10) == d * p10(k as nat)
                &&& text.skip(text.len() - 2) == ".0"@
            }
        }),
{
    reveal_strlit("0.");
    reveal_strlit(".0");
    reveal_strlit(".");
    reveal_strlit("");
    law_decimal_is_worth_the_number(d);
    let s = dec(d);
    let text = positional(d, k, point);
    let before = s.len() + k;
    let at = text.len() - 1 + k;
    if k >= 0 {
        lemma_noughts_behind(s, k as nat);
        let number = s + repeated('0', k as nat);
        assert(positional(d, k, false) =~= number);
        assert(positional(d, k, true).take(number.len() as int) =~= number);
        assert(positional(d, k, true).skip(number.len() as int) =~= ".0"@);
    } else if before <= 0 {
        let count = (-before) as nat;
        assert(without(text, at) =~= repeated('0', count + 1) + s);
        lemma_noughts_before(s, count + 1);
    } else {
        assert(without(text, at) =~= s);
    }
}

/// A decimal written with a power of ten has one digit before the point, the rest of its digits behind it, and a power
/// that makes up for them.
pub proof fn law_decimal_with_a_power(d: nat, k: int)
    ensures
        ({
            let s = dec(d);
            let power = s.len() - 1 + k;
            let text = exponential(d, k);
            let split: int = if s.len() > 1 { s.len() as int + 1 } else { 1 };
            &&& text.take(1) == s.take(1)
            &&& s.len() > 1 ==> text[1] == '.' && worth(without(text.take(split), 1), 10) == d
            &&& s.len() == 1 ==> worth(text.take(1), 10) == d
            &&& text[split] == 'e'
            &&& text.skip(split + 1) == signed(power)
        }),
{
    reveal_strlit(".");
    reveal_strlit("e");
    law_decimal_is_worth_the_number(d);
    let s = dec(d);
    let text = exponential(d, k);
    let split: int = if s.len() > 1 { s.len() as int + 1 } else { 1 };
    assert(text.take(1) =~= s.take(1));
    assert(text.skip(split + 1) =~= signed(s.len() - 1 + k));
    if s.len() > 1 {
        assert(without(text.take(split), 1) =~= s);
    } else {
        assert(text.take(1) =~= s);
    }
}

} // verus!
