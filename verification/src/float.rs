//! The decimal text of binary floating-point numbers, worked out on their bits.
use crate::natural::Natural;
use crate::text::{cat2, cat3, cat4, chars_of, dec, decimal, decimal_signed, from_span, repeat, repeated, signed};
use vstd::prelude::*;

verus! {

/// A power of two.
pub open spec fn p2(n: nat) -> nat
    decreases n,
{
    if n == 0 {
        1
    } else {
        2 * p2((n - 1) as nat)
    }
}

/// A power of ten.
pub open spec fn p10(n: nat) -> nat
    decreases n,
{
    if n == 0 {
        1
    } else {
        10 * p10((n - 1) as nat)
    }
}

/// The part of an exponent above nought.
pub open spec fn up(x: int) -> nat {
    if x > 0 {
        x as nat
    } else {
        0
    }
}

/// A positive number to be printed and how far a decimal may be from it. The number is `c` times two to
/// the `e`; the decimals from `c - lo` to `c + 2` times that power read back as it, the ends among them
/// where `ends` says so.
pub struct Target {
    pub c: nat,
    pub lo: nat,
    pub ends: bool,
    pub e: int,
}

/// What the target's numbers are multiplied by to compare them with decimals of the exponent `k`.
pub open spec fn scale_up(e: int, k: int) -> nat {
    p2(up(e)) * p10(up(-k))
}

/// What decimals of the exponent `k` are multiplied by to compare them with the target's numbers.
pub open spec fn scale_down(e: int, k: int) -> nat {
    p10(up(k)) * p2(up(-e))
}

/// The decimal `d` times ten to the `k` reads back as the target.
pub open spec fn within(t: Target, d: nat, k: int) -> bool {
    let w = scale_up(t.e, k);
    let q = scale_down(t.e, k);
    if t.ends {
        (t.c - t.lo) * w <= d * q <= (t.c + 2) * w
    } else {
        (t.c - t.lo) * w < d * q < (t.c + 2) * w
    }
}

/// How far the decimal is from the target, on the common scale.
pub open spec fn distance(t: Target, d: nat, k: int) -> int {
    let x = d * scale_down(t.e, k) - t.c * scale_up(t.e, k);
    if x < 0 {
        -x
    } else {
        x
    }
}

/// The decimal reads back as the target, no decimal with fewer digits does, and of those with as many it
/// is the closest, the larger of two that are equally close.
pub open spec fn is_shortest(t: Target, d: nat, k: int) -> bool {
    &&& within(t, d, k)
    &&& forall|d2: nat, k2: int| k2 > k ==> !#[trigger] within(t, d2, k2)
    &&& forall|d2: nat| #[trigger]
        within(t, d2, k) ==> distance(t, d, k) < distance(t, d2, k) || (distance(t, d, k) == distance(t, d2, k) && d
            >= d2)
}

/// The shortest decimal that reads back as the target: its digits and its exponent.
pub open spec fn shortest(t: Target) -> (nat, int) {
    choose|r: (nat, int)| #[trigger] is_shortest(t, r.0, r.1)
}

proof fn lemma_shortest_alone(t: Target, d: nat, k: int)
    requires
        is_shortest(t, d, k),
    ensures
        shortest(t) == (d, k),
{
    let r = (d, k);
    assert(is_shortest(t, r.0, r.1));
    let s = shortest(t);
    assert(is_shortest(t, s.0, s.1));
    if s.1 > k {
        assert(!within(t, s.0, s.1));
    }
    if k > s.1 {
        assert(!within(t, d, k));
    }
    assert(within(t, s.0, k));
    assert(within(t, d, s.1));
}

proof fn lemma_p2_sum(a: nat, b: nat)
    ensures
        p2(a + b) == p2(a) * p2(b),
        p2(a) > 0,
    decreases a,
{
    if a > 0 {
        lemma_p2_sum((a - 1) as nat, b);
        let x = p2((a - 1) as nat);
        let y = p2(b);
        assert(2 * (x * y) == (2 * x) * y) by (nonlinear_arith);
        assert(p2(a + b) == 2 * p2((a + b - 1) as nat));
    } else {
        assert(1 * p2(b) == p2(b));
    }
}

/// A power of two is positive.
pub proof fn lemma_p2_positive(a: nat)
    ensures
        p2(a) > 0,
{
    lemma_p2_sum(a, 0);
}

proof fn lemma_p10_sum(a: nat, b: nat)
    ensures
        p10(a + b) == p10(a) * p10(b),
        p10(a) > 0,
    decreases a,
{
    if a > 0 {
        lemma_p10_sum((a - 1) as nat, b);
        let x = p10((a - 1) as nat);
        let y = p10(b);
        assert(10 * (x * y) == (10 * x) * y) by (nonlinear_arith);
        assert(p10(a + b) == 10 * p10((a + b - 1) as nat));
    } else {
        assert(1 * p10(b) == p10(b));
    }
}

proof fn lemma_p2_grows(a: nat, b: nat)
    requires
        a <= b,
    ensures
        p2(a) <= p2(b),
        a < b ==> p2(a) < p2(b),
    decreases b,
{
    lemma_p2_sum(a, 0);
    if a < b {
        lemma_p2_grows(a, (b - 1) as nat);
    }
}

proof fn lemma_p10_between(k: nat)
    ensures
        p2(3 * k) <= p10(k) <= p2(4 * k),
    decreases k,
{
    if k > 0 {
        lemma_p10_between((k - 1) as nat);
        let m = (k - 1) as nat;
        assert(p2(3 * k) == 8 * p2(3 * m)) by {
            assert(p2(3 * k) == 2 * p2((3 * k - 1) as nat));
            assert(p2((3 * k - 1) as nat) == 2 * p2((3 * k - 2) as nat));
            assert(p2((3 * k - 2) as nat) == 2 * p2((3 * k - 3) as nat));
        }
        assert(p2(4 * k) == 16 * p2(4 * m)) by {
            assert(p2(4 * k) == 2 * p2((4 * k - 1) as nat));
            assert(p2((4 * k - 1) as nat) == 2 * p2((4 * k - 2) as nat));
            assert(p2((4 * k - 2) as nat) == 2 * p2((4 * k - 3) as nat));
            assert(p2((4 * k - 3) as nat) == 2 * p2((4 * k - 4) as nat));
        }
    }
}

proof fn lemma_p2_numbers()
    ensures
        p2(23) == 0x80_0000,
        p2(24) == 0x100_0000,
        p2(57) == 0x200_0000_0000_0000,
{
    reveal_with_fuel(p2, 30);
    assert(p2(23) == 0x80_0000);
    assert(p2(24) == 0x100_0000);
    lemma_p2_sum(28, 29);
    assert(p2(28) == 0x1000_0000);
    assert(p2(29) == 0x2000_0000);
    assert(0x1000_0000nat * 0x2000_0000nat == 0x200_0000_0000_0000nat);
}

/// What both scales are multiplied by in the digits' division.
spec fn common_factor(k0: nat, j: nat) -> nat {
    if k0 >= j {
        p10(j)
    } else {
        p10(k0)
    }
}

/// On the scale of the digits' division, a decimal is within the target's bounds as it is on its own.
proof fn lemma_scaled(t: Target, k0: nat, j: nat, w: nat, q: nat)
    requires
        w == p2(up(t.e)) * p10(j),
        q == p10(k0) * p2(up(-t.e)),
        t.c >= t.lo,
    ensures
        forall|d: nat| #[trigger]
            within(t, d, k0 - j) <==> (if t.ends {
                (t.c - t.lo) * w <= d * q <= (t.c + 2) * w
            } else {
                (t.c - t.lo) * w < d * q < (t.c + 2) * w
            }),
        common_factor(k0, j) > 0,
        forall|d: nat| (#[trigger] distance(t, d, k0 - j)) * common_factor(k0, j) == (if d * q - t.c * w < 0 {
                    -(d * q - t.c * w)
                } else {
                    d * q - t.c * w
                }),
{
    let k = k0 - j;
    let a = p2(up(t.e));
    let b = p2(up(-t.e));
    let num = scale_up(t.e, k);
    let den = scale_down(t.e, k);
    let f = common_factor(k0, j);
    lemma_p10_sum(j, 0);
    lemma_p10_sum(k0, 0);
    if k >= 0 {
        lemma_p10_sum(k as nat, j);
        assert(num == a * p10(0));
        assert(a * 1 == a);
        assert(num * f == w);
        let x = p10(k as nat);
        let y = p10(j);
        assert((x * b) * y == (x * y) * b) by (nonlinear_arith);
        assert(den * f == q);
    } else {
        lemma_p10_sum((-k) as nat, k0);
        let x = p10((-k) as nat);
        let y = p10(k0);
        assert((a * x) * y == a * (x * y)) by (nonlinear_arith);
        assert(num * f == w);
        assert(den == p10(0) * b);
        assert(1 * b == b);
        assert(b * y == y * b) by (nonlinear_arith);
        assert(den * f == q);
    }
    assert forall|d: nat| #[trigger]
        within(t, d, k) <==> (if t.ends {
            (t.c - t.lo) * w <= d * q <= (t.c + 2) * w
        } else {
            (t.c - t.lo) * w < d * q < (t.c + 2) * w
        }) by {
        let l = (t.c - t.lo) as nat;
        let h = t.c + 2;
        lemma_scaling(l, num, d, den, f);
        lemma_scaling(d, den, h, num, f);
    }
    assert forall|d: nat| (#[trigger] distance(t, d, k)) * f == (if d * q - t.c * w < 0 {
            -(d * q - t.c * w)
        } else {
            d * q - t.c * w
        }) by {
        let x = d * den - t.c * num;
        let c = t.c;
        assert((d * den - c * num) * f == d * (den * f) - c * (num * f)) by (nonlinear_arith);
        assert(x * f == d * q - c * w);
        assert((-x) * f == -(x * f)) by (nonlinear_arith);
        assert(x < 0 ==> x * f < 0) by (nonlinear_arith)
            requires
                f > 0,
        ;
        assert(x >= 0 ==> x * f >= 0) by (nonlinear_arith)
            requires
                f > 0,
        ;
    }
}

/// Comparing two products is not changed by scaling both.
proof fn lemma_scaling(x: nat, a: nat, y: nat, b: nat, f: nat)
    requires
        f > 0,
    ensures
        x * a <= y * b <==> x * (a * f) <= y * (b * f),
        x * a < y * b <==> x * (a * f) < y * (b * f),
{
    let p = x * a;
    let r = y * b;
    assert(x * (a * f) == p * f) by (nonlinear_arith)
        requires
            p == x * a,
    ;
    assert(y * (b * f) == r * f) by (nonlinear_arith)
        requires
            r == y * b,
    ;
    assert(p <= r <==> p * f <= r * f) by (nonlinear_arith)
        requires
            f > 0,
    ;
    assert(p < r <==> p * f < r * f) by (nonlinear_arith)
        requires
            f > 0,
    ;
}

/// Where neither the digits so far nor the digits and one more read back as the target, nothing of as many
/// digits does.
proof fn lemma_nothing_fits(t: Target, k0: nat, j: nat, w: nat, q: nat, d: nat, r: nat)
    requires
        w == p2(up(t.e)) * p10(j),
        q == p10(k0) * p2(up(-t.e)),
        t.c >= t.lo,
        d * q + r == t.c * w,
        r < q,
        w > 0,
        !within(t, d, k0 - j),
        !within(t, d + 1, k0 - j),
    ensures
        forall|d2: nat| !#[trigger] within(t, d2, k0 - j),
{
    lemma_scaled(t, k0, j, w, q);
    let c = t.c;
    let l = (t.c - t.lo) as nat;
    let h = t.c + 2;
    assert forall|d2: nat| !#[trigger] within(t, d2, k0 - j) by {
        assert(l * w <= c * w) by (nonlinear_arith)
            requires
                l <= c,
        ;
        assert(c * w < h * w) by (nonlinear_arith)
            requires
                c + 2 == h,
                w > 0,
        ;
        if d2 <= d {
            assert(d2 * q <= d * q) by (nonlinear_arith)
                requires
                    d2 <= d,
            ;
        } else {
            assert((d + 1) * q <= d2 * q) by (nonlinear_arith)
                requires
                    d + 1 <= d2,
            ;
            assert((d + 1) * q == d * q + q) by (nonlinear_arith);
        }
    }
}

/// Of the decimals that read back as the target, the nearest is one of the two around it.
proof fn lemma_nearest(t: Target, k0: nat, j: nat, w: nat, q: nat, d: nat, r: nat, pick: nat)
    requires
        w == p2(up(t.e)) * p10(j),
        q == p10(k0) * p2(up(-t.e)),
        t.c >= t.lo,
        d * q + r == t.c * w,
        r < q,
        w > 0,
        within(t, pick, k0 - j),
        pick == d || pick == d + 1,
        pick == d ==> !within(t, d + 1, k0 - j) || 2 * r < q,
        pick == d + 1 ==> !within(t, d, k0 - j) || 2 * r >= q,
    ensures
        forall|d2: nat| #[trigger]
            within(t, d2, k0 - j) ==> distance(t, pick, k0 - j) < distance(t, d2, k0 - j) || (distance(
                t,
                pick,
                k0 - j,
            ) == distance(t, d2, k0 - j) && pick >= d2),
{
    lemma_scaled(t, k0, j, w, q);
    let k = k0 - j;
    let c = t.c;
    let l = (t.c - t.lo) as nat;
    let h = t.c + 2;
    let f = common_factor(k0, j);
    assert(l * w <= c * w) by (nonlinear_arith)
        requires
            l <= c,
    ;
    assert(c * w < h * w) by (nonlinear_arith)
        requires
            c + 2 == h,
            w > 0,
    ;
    assert((d + 1) * q == d * q + q) by (nonlinear_arith);
    assert(distance(t, d, k) * f == r);
    assert(distance(t, d + 1, k) * f == q - r);
    assert forall|d2: nat| #[trigger] within(t, d2, k) implies distance(t, pick, k) < distance(t, d2, k) || (distance(
        t,
        pick,
        k,
    ) == distance(t, d2, k) && pick >= d2) by {
        let x = distance(t, pick, k);
        let y = distance(t, d2, k);
        if d2 < d {
            assert(d2 * q + q <= d * q) by (nonlinear_arith)
                requires
                    d2 + 1 <= d,
            ;
        } else if d2 > d + 1 {
            assert(d2 * q >= (d + 1) * q + q) by (nonlinear_arith)
                requires
                    d2 >= d + 2,
            ;
        }
        assert(x * f < y * f || (x * f == y * f && pick >= d2));
        assert(x * f < y * f ==> x < y) by (nonlinear_arith)
            requires
                f > 0,
        ;
        assert(x * f == y * f ==> x == y) by (nonlinear_arith)
            requires
                f > 0,
        ;
    }
}

fn doubled(start: u64, times: u32) -> (r: Natural)
    ensures
        r@ == start * p2(times as nat),
{
    let mut r = Natural::from_u64(start);
    let mut i: u32 = 0;
    proof {
        assert(start * 1 == start);
    }
    while i < times
        invariant
            i <= times,
            r@ == start * p2(i as nat),
        decreases times - i,
    {
        r = r.times(2);
        proof {
            let x = p2(i as nat);
            assert((start * x) * 2 == start * (2 * x)) by (nonlinear_arith);
        }
        i = i + 1;
    }
    r
}

/// The shortest decimal that reads back as a number: its digits as one number, and its exponent. The
/// number is `m` times two to the `e`; `narrow` says that the number below it is half as far away as the
/// one above.
#[verifier::rlimit(80)]
#[verifier::spinoff_prover]
pub fn shortest_decimal(m: u64, e: i32, narrow: bool) -> (r: (u64, i64))
    requires
        1 <= m < 0x40_0000_0000_0000,
        -1200 <= e <= 1100,
    ensures
        (r.0 as nat, r.1 as int) == shortest(target(m as nat, e as int, narrow)),
        -1200 <= r.1 <= 1200,
        r.0 <= 0x1000_0000_0000_0000,
{
    let ghost t = target(m as nat, e as int, narrow);
    let c: u64 = 4 * m;
    let lo: u32 = if narrow {
        1
    } else {
        2
    };
    let ends = m % 2 == 0;
    let pos: u32 = if e > 2 {
        (e - 2) as u32
    } else {
        0
    };
    let neg: u32 = if e < 2 {
        (2 - e) as u32
    } else {
        0
    };
    let ghost a = p2(pos as nat);
    let ghost b = p2(neg as nat);
    assert(pos == up(t.e) && neg == up(-t.e));
    let mut rest = doubled(c, pos);
    let high = doubled(c + 2, pos);
    let mut w = doubled(1, pos);
    let mut q = doubled(1, neg);
    proof {
        lemma_p2_sum(pos as nat, 0);
        lemma_p2_sum(neg as nat, 0);
        lemma_p2_numbers();
        lemma_p2_sum(57, pos as nat);
        assert((c + 2) * a <= p2(57) * a) by (nonlinear_arith)
            requires
                c + 2 <= p2(57),
        ;
        assert(1 * a == a && 1 * b == b && p10(0) == 1);
        assert(p10(0) * b == b) by (nonlinear_arith)
            requires
                p10(0) == 1,
        ;
    }
    let mut k0: u32 = 0;
    while high.at_least(&q)
        invariant
            q@ == p10(k0 as nat) * b,
            q@ > 0,
            b == p2(neg as nat),
            b > 0,
            pos <= 1100,
            high@ <= p2((57 + pos) as nat),
            3 * k0 <= 60 + pos,
        decreases (if high@ >= q@ { high@ - q@ + 1 } else { 0 }),
    {
        proof {
            let x = p10(k0 as nat);
            assert((x * b) * 10 == (10 * x) * b) by (nonlinear_arith);
            lemma_p10_between(k0 as nat);
            assert(x <= x * b) by (nonlinear_arith)
                requires
                    b > 0,
            ;
            if 3 * k0 > 57 + pos {
                lemma_p2_grows((57 + pos) as nat, (3 * k0) as nat);
            }
        }
        q = q.times(10);
        k0 = k0 + 1;
    }
    let ghost qv = q@;
    let ghost k0n = k0 as nat;
    let mut d: u64 = 0;
    let mut j: u32 = 0;
    proof {
        assert(t.c * a == c * a);
        assert(0 * qv == 0) by (nonlinear_arith);
        assert(w@ == a * p10(0)) by {
            assert(a * 1 == a);
        }
        assert forall|d2: nat, k2: int| k2 > k0 implies !#[trigger] within(t, d2, k2) by {
            lemma_too_large(t, k0n, d2, k2, high@);
        }
        assert(c * a < (c + 2) * a) by (nonlinear_arith)
            requires
                a > 0,
        ;
    }
    loop
        invariant
            t == target(m as nat, e as int, narrow),
            c == 4 * m,
            1 <= m < 0x40_0000_0000_0000,
            lo == t.lo,
            ends == t.ends,
            t.c == c,
            lo == 1 || lo == 2,
            q@ == qv == p10(k0n) * p2(up(-t.e)),
            k0n == k0,
            k0 <= 400,
            a == p2(up(t.e)),
            a > 0,
            b == p2(neg as nat),
            neg == up(-t.e),
            neg <= 1202,
            w@ == a * p10(j as nat),
            w@ > 0,
            d * qv + rest@ == t.c * w@,
            rest@ < qv,
            d < 0x1000_0000_0000_0000,
            j <= 1100,
            forall|d2: nat, k2: int| k2 > k0 - j ==> !#[trigger] within(t, d2, k2),
        decreases (if w@ < qv { qv - w@ } else { 0 }),
    {
        let below = w.times(lo);
        let above = w.times(2);
        let gap = match q.minus(&rest) {
            Some(g) => g,
            None => Natural::from_u64(0),
        };
        let down = if ends {
            below.at_least(&rest)
        } else {
            !rest.at_least(&below)
        };
        let upper = if ends {
            above.at_least(&gap)
        } else {
            !gap.at_least(&above)
        };
        let ghost wv = w@;
        let ghost rv = rest@;
        let ghost k = k0 - j;
        proof {
            lemma_scaled(t, k0n, j as nat, wv, qv);
            let l = (t.c - t.lo) as nat;
            let tl = t.lo;
            let tc = t.c;
            assert(l * wv == tc * wv - tl * wv) by (nonlinear_arith)
                requires
                    l == tc - tl,
            ;
            assert(wv * tl == tl * wv) by (nonlinear_arith);
            assert((tc + 2) * wv == tc * wv + 2 * wv) by (nonlinear_arith);
            assert((d + 1) * qv == d * qv + qv) by (nonlinear_arith);
            assert(down == within(t, d as nat, k)) by {
                assert(d * qv <= (tc + 2) * wv);
            }
            assert(upper == within(t, (d + 1) as nat, k));
        }
        if down || upper {
            let twice = rest.times(2);
            let pick_upper = upper && (!down || twice.at_least(&q));
            let digits: u64 = if pick_upper {
                d + 1
            } else {
                d
            };
            proof {
                lemma_nearest(t, k0n, j as nat, wv, qv, d as nat, rv, digits as nat);
                assert(is_shortest(t, digits as nat, k));
                lemma_shortest_alone(t, digits as nat, k);
            }
            return (digits, k0 as i64 - j as i64);
        }
        proof {
            lemma_nothing_fits(t, k0n, j as nat, wv, qv, d as nat, rv);
            assert forall|d2: nat, k2: int| k2 > k0 - (j + 1) implies !#[trigger] within(t, d2, k2) by {
                if k2 == k {
                    assert(!within(t, d2, k0n - j as nat));
                }
            }
            // The remainder reaches at least one unit of the number, so the unit is below the divisor.
            let tl = t.lo;
            assert(rv >= wv) by {
                assert(wv * tl >= wv) by (nonlinear_arith)
                    requires
                        tl >= 1,
                ;
            }
            assert(wv < qv);
            let tc = t.c;
            assert(d < tc) by (nonlinear_arith)
                requires
                    d * qv + rv == tc * wv,
                    wv < qv,
                    tc > 0,
            ;
            lemma_steps_bounded(j as nat, k0n, neg as nat, wv, qv, a);
            let x = p10(j as nat);
            assert((a * x) * 10 == a * (10 * x)) by (nonlinear_arith);
            assert(10 * (d * qv + rv) == tc * (wv * 10)) by (nonlinear_arith)
                requires
                    d * qv + rv == tc * wv,
            ;
        }
        rest = rest.times(10);
        w = w.times(10);
        let mut digit: u64 = 0;
        let mut more = true;
        while more
            invariant
                q@ == qv,
                qv > 0,
                rv < qv,
                digit * qv + rest@ == 10 * rv,
                digit <= 9,
                !more ==> rest@ < qv,
            decreases (if more { 1int } else { 0int }), rest@,
        {
            match rest.minus(&q) {
                Some(smaller) => {
                    proof {
                        assert((digit + 1) * qv == digit * qv + qv) by (nonlinear_arith);
                        assert(digit < 9) by (nonlinear_arith)
                            requires
                                (digit + 1) * qv <= 10 * rv,
                                rv < qv,
                                qv > 0,
                        ;
                    }
                    rest = smaller;
                    digit = digit + 1;
                },
                None => {
                    more = false;
                },
            }
        }
        proof {
            assert((10 * d + digit) * qv + rest@ == 10 * (d * qv + rv)) by (nonlinear_arith)
                requires
                    digit * qv + rest@ == 10 * rv,
            ;
        }
        d = 10 * d + digit;
        j = j + 1;
    }
}

/// The bounds of a number that is `m` times two to the `e`.
pub open spec fn target(m: nat, e: int, narrow: bool) -> Target {
    Target {
        c: 4 * m,
        lo: if narrow {
            1
        } else {
            2
        },
        ends: m % 2 == 0,
        e: e - 2,
    }
}

/// A decade that a number does not reach into holds no decimal that reads back as it.
proof fn lemma_too_large(t: Target, k0: nat, d: nat, k: int, high: nat)
    requires
        t.c > t.lo,
        k > k0,
        high == (t.c + 2) * p2(up(t.e)),
        high < p10(k0) * p2(up(-t.e)),
    ensures
        !within(t, d, k),
{
    let a = p2(up(t.e));
    let b = p2(up(-t.e));
    lemma_p2_sum(up(t.e), 0);
    lemma_p2_sum(up(-t.e), 0);
    let num = scale_up(t.e, k);
    let den = scale_down(t.e, k);
    assert(num == a * p10(0));
    assert(a * 1 == a);
    assert(den == p10(k as nat) * b);
    let l = (t.c - t.lo) as nat;
    if d == 0 {
        assert(0 * den == 0) by (nonlinear_arith);
        assert(l * a > 0) by (nonlinear_arith)
            requires
                l > 0,
                a > 0,
        ;
        assert(d * den == 0) by (nonlinear_arith)
            requires
                d == 0,
        ;
    } else {
        lemma_p10_sum(k0, (k - k0) as nat);
        lemma_p10_sum((k - k0) as nat, 0);
        let x = p10(k0);
        let y = p10((k - k0) as nat);
        assert(x * b <= (x * y) * b) by (nonlinear_arith)
            requires
                y > 0,
        ;
        assert(den <= d * den) by (nonlinear_arith)
            requires
                d >= 1,
        ;
    }
}

/// The digits come to an end.
proof fn lemma_steps_bounded(j: nat, k0: nat, neg: nat, w: nat, q: nat, a: nat)
    requires
        a > 0,
        w == a * p10(j),
        q == p10(k0) * p2(neg),
        w < q,
        k0 <= 400,
        neg <= 1202,
    ensures
        j < 1100,
{
    lemma_p10_between(j);
    lemma_p10_between(k0);
    lemma_p2_sum(4 * k0, neg);
    let x = p10(j);
    assert(x <= a * x) by (nonlinear_arith)
        requires
            a > 0,
    ;
    let y = p10(k0);
    let z = p2(neg);
    assert(y * z <= p2(4 * k0) * z) by (nonlinear_arith)
        requires
            y <= p2(4 * k0),
    ;
    if 3 * j >= 4 * k0 + neg {
        lemma_p2_grows(4 * k0 + neg, 3 * j);
    }
}

/// A number in decimal with leading zeros up to `width` digits, or the last `width` digits of a longer one.
pub open spec fn dec_fixed(n: nat, width: nat) -> Seq<char>
    decreases width,
{
    if width == 0 {
        Seq::empty()
    } else {
        dec_fixed(n / 10, (width - 1) as nat).push(crate::text::digit((n % 10) as int))
    }
}

fn decimal_fixed(n: u64, width: usize) -> (r: String)
    ensures
        r@ == dec_fixed(n as nat, width as nat),
    decreases width,
{
    if width == 0 {
        String::new()
    } else {
        let mut out = decimal_fixed(n / 10, width - 1);
        let last = decimal(n % 10);
        proof {
            assert(last@ =~= seq![crate::text::digit((n % 10) as int)]);
            assert(out@ + last@ =~= out@.push(crate::text::digit((n % 10) as int)));
        }
        out.push_str(last.as_str());
        out
    }
}

fn decimal_wide(n: u128) -> (r: String)
    ensures
        r@ == dec(n as nat),
    decreases n,
{
    if n < 10 {
        decimal(n as u64)
    } else {
        let mut out = decimal_wide(n / 10);
        let last = decimal((n % 10) as u64);
        proof {
            assert(last@ =~= seq![crate::text::digit((n % 10) as int)]);
            assert(out@ + last@ =~= out@.push(crate::text::digit((n % 10) as int)));
        }
        out.push_str(last.as_str());
        out
    }
}

proof fn lemma_dec_len(n: nat, j: nat)
    requires
        n < p10(j),
        j >= 1,
    ensures
        1 <= dec(n).len() <= j,
    decreases n,
{
    if n >= 10 {
        assert(p10(j) == 10 * p10((j - 1) as nat));
        if j == 1 {
            assert(p10(0) == 1);
        }
        lemma_dec_len(n / 10, (j - 1) as nat);
    }
}

proof fn lemma_digits_count(d: u64)
    requires
        d <= 0x1000_0000_0000_0000,
    ensures
        1 <= dec(d as nat).len() <= 19,
{
    reveal_with_fuel(p10, 20);
    assert(p10(19) == 10_000_000_000_000_000_000);
    lemma_dec_len(d as nat, 19);
}

/// Digits and a decimal exponent written out, with a digit behind the point even of a whole number where
/// `point` says so.
pub open spec fn positional(d: nat, k: int, point: bool) -> Seq<char> {
    let s = dec(d);
    let at = s.len() + k;
    if at <= 0 {
        "0."@ + repeated('0', (-at) as nat) + s
    } else if k >= 0 {
        s + repeated('0', k as nat) + (if point { ".0"@ } else { ""@ })
    } else {
        s.subrange(0, at) + "."@ + s.subrange(at, s.len() as int)
    }
}

/// Digits and a decimal exponent with one digit before the point and a power of ten.
pub open spec fn exponential(d: nat, k: int) -> Seq<char> {
    let s = dec(d);
    let power = "e"@ + signed(s.len() + k - 1);
    if s.len() > 1 {
        s.subrange(0, 1) + "."@ + s.subrange(1, s.len() as int) + power
    } else {
        s + power
    }
}

fn positional_text(d: u64, k: i64, point: bool) -> (r: String)
    requires
        d <= 0x1000_0000_0000_0000,
        -1200 <= k <= 1200,
    ensures
        r@ == positional(d as nat, k as int, point),
{
    let digits = decimal(d);
    let chars = chars_of(digits.as_str());
    proof {
        lemma_digits_count(d);
    }
    let at: i64 = chars.len() as i64 + k;
    if at <= 0 {
        let zeros = repeat('0', (-at) as usize);
        cat3("0.", zeros.as_str(), digits.as_str())
    } else if k >= 0 {
        let zeros = repeat('0', k as usize);
        let tail = if point {
            ".0"
        } else {
            ""
        };
        cat3(digits.as_str(), zeros.as_str(), tail)
    } else {
        let whole = from_span(chars.as_slice(), 0, at as usize);
        let part = from_span(chars.as_slice(), at as usize, chars.len());
        cat3(whole.as_str(), ".", part.as_str())
    }
}

fn exponential_text(d: u64, k: i64) -> (r: String)
    requires
        d <= 0x1000_0000_0000_0000,
        -1200 <= k <= 1200,
    ensures
        r@ == exponential(d as nat, k as int),
{
    let digits = decimal(d);
    let chars = chars_of(digits.as_str());
    proof {
        lemma_digits_count(d);
    }
    let number = decimal_signed(chars.len() as i64 + k - 1);
    let power = cat2("e", number.as_str());
    if chars.len() > 1 {
        let first = from_span(chars.as_slice(), 0, 1);
        let rest = from_span(chars.as_slice(), 1, chars.len());
        cat4(first.as_str(), ".", rest.as_str(), power.as_str())
    } else {
        cat2(digits.as_str(), power.as_str())
    }
}

/// The sign of a number, nothing for a positive one.
pub open spec fn sign_text(negative: bool) -> Seq<char> {
    if negative {
        "-"@
    } else {
        ""@
    }
}

fn sign_of(negative: bool) -> (r: &'static str)
    ensures
        r@ == sign_text(negative),
{
    if negative {
        "-"
    } else {
        ""
    }
}

/// The fields of a 32-bit float: negative or not, the exponent's field, the fraction's field.
pub open spec fn negative32(bits: u32) -> bool {
    bits >= 0x8000_0000
}

/// The exponent's field of a 32-bit float.
pub open spec fn field32(bits: u32) -> nat {
    ((bits / 0x80_0000) % 256) as nat
}

/// The fraction's field of a 32-bit float.
pub open spec fn fraction32(bits: u32) -> nat {
    (bits % 0x80_0000) as nat
}

/// The bits of a 32-bit float without its sign.
pub open spec fn magnitude32(bits: u32) -> nat {
    (bits % 0x8000_0000) as nat
}

/// The whole number that a finite 32-bit float is a power of two away from.
pub open spec fn significand32(bits: u32) -> nat {
    if field32(bits) == 0 {
        fraction32(bits)
    } else {
        fraction32(bits) + 0x80_0000
    }
}

/// The power of two that a finite 32-bit float's significand is multiplied by.
pub open spec fn exponent32(bits: u32) -> int {
    if field32(bits) == 0 {
        -149
    } else {
        field32(bits) - 150
    }
}

/// What a 32-bit float other than nought is printed from.
pub open spec fn target32(bits: u32) -> Target {
    target(significand32(bits), exponent32(bits), fraction32(bits) == 0 && field32(bits) > 1)
}

/// The text of a 32-bit float: the shortest decimal that reads back as it, with a digit behind the point,
/// or with a power of ten where it is very large or very small.
pub open spec fn debug32(bits: u32) -> Seq<char> {
    let sign = sign_text(negative32(bits));
    if field32(bits) == 255 {
        if fraction32(bits) != 0 {
            "NaN"@
        } else {
            sign + "inf"@
        }
    } else if magnitude32(bits) == 0 {
        sign + "0.0"@
    } else {
        let (d, k) = shortest(target32(bits));
        if magnitude32(bits) >= 0x5A0E_1BCA || magnitude32(bits) < 0x38D1_B717 {
            sign + exponential(d, k)
        } else {
            sign + positional(d, k, true)
        }
    }
}

/// The text of a 32-bit float written out in full, a whole number without a point.
pub open spec fn display32(bits: u32) -> Seq<char> {
    let sign = sign_text(negative32(bits));
    if field32(bits) == 255 {
        if fraction32(bits) != 0 {
            "NaN"@
        } else {
            sign + "inf"@
        }
    } else if magnitude32(bits) == 0 {
        sign + "0"@
    } else {
        let (d, k) = shortest(target32(bits));
        sign + positional(d, k, false)
    }
}

/// The shortest decimal of a 32-bit float other than nought.
fn shortest32(bits: u32) -> (r: (u64, i64))
    requires
        field32(bits) != 255,
        magnitude32(bits) != 0,
    ensures
        (r.0 as nat, r.1 as int) == shortest(target32(bits)),
        -1200 <= r.1 <= 1200,
        r.0 <= 0x1000_0000_0000_0000,
{
    let field: u32 = (bits / 0x80_0000) % 256;
    let fraction: u32 = bits % 0x80_0000;
    let narrow = fraction == 0 && field > 1;
    if field == 0 {
        shortest_decimal(fraction as u64, -149, narrow)
    } else {
        shortest_decimal((fraction + 0x80_0000) as u64, field as i32 - 150, narrow)
    }
}

/// The text of a 32-bit float given by its bits, as a debugging listing has it.
pub fn debug_single(bits: u32) -> (r: String)
    ensures
        r@ == debug32(bits),
{
    let field: u32 = (bits / 0x80_0000) % 256;
    let fraction: u32 = bits % 0x80_0000;
    let magnitude: u32 = bits % 0x8000_0000;
    let sign = sign_of(bits >= 0x8000_0000);
    if field == 255 {
        if fraction != 0 {
            return "NaN".to_owned();
        }
        return cat2(sign, "inf");
    }
    if magnitude == 0 {
        return cat2(sign, "0.0");
    }
    let (d, k) = shortest32(bits);
    let text = if magnitude >= 0x5A0E_1BCA || magnitude < 0x38D1_B717 {
        exponential_text(d, k)
    } else {
        positional_text(d, k, true)
    };
    cat2(sign, text.as_str())
}

/// The text of a 32-bit float given by its bits, written out in full.
pub fn display_single(bits: u32) -> (r: String)
    ensures
        r@ == display32(bits),
{
    let field: u32 = (bits / 0x80_0000) % 256;
    let fraction: u32 = bits % 0x80_0000;
    let magnitude: u32 = bits % 0x8000_0000;
    let sign = sign_of(bits >= 0x8000_0000);
    if field == 255 {
        if fraction != 0 {
            return "NaN".to_owned();
        }
        return cat2(sign, "inf");
    }
    if magnitude == 0 {
        return cat2(sign, "0");
    }
    let (d, k) = shortest32(bits);
    let text = positional_text(d, k, false);
    cat2(sign, text.as_str())
}

/// The exponent's field of a 64-bit float.
pub open spec fn field64(bits: u64) -> nat {
    ((bits / 0x10_0000_0000_0000) % 2048) as nat
}

/// The fraction's field of a 64-bit float.
pub open spec fn fraction64(bits: u64) -> nat {
    (bits % 0x10_0000_0000_0000) as nat
}

/// The bits of a 64-bit float without its sign.
pub open spec fn magnitude64(bits: u64) -> nat {
    (bits % 0x8000_0000_0000_0000) as nat
}

/// What a 64-bit float other than nought is printed from.
pub open spec fn target64(bits: u64) -> Target {
    if field64(bits) == 0 {
        target(fraction64(bits), -1074, false)
    } else {
        target(
            fraction64(bits) + 0x10_0000_0000_0000,
            field64(bits) - 1075,
            fraction64(bits) == 0 && field64(bits) > 1,
        )
    }
}

/// The text of a 64-bit float: the shortest decimal that reads back as it, with a digit behind the point,
/// or with a power of ten where it is very large or very small.
pub open spec fn debug64(bits: u64) -> Seq<char> {
    let sign = sign_text(bits >= 0x8000_0000_0000_0000);
    if field64(bits) == 2047 {
        if fraction64(bits) != 0 {
            "NaN"@
        } else {
            sign + "inf"@
        }
    } else if magnitude64(bits) == 0 {
        sign + "0.0"@
    } else {
        let (d, k) = shortest(target64(bits));
        if magnitude64(bits) >= 0x4341_C379_37E0_8000 || magnitude64(bits) < 0x3F1A_36E2_EB1C_432D {
            sign + exponential(d, k)
        } else {
            sign + positional(d, k, true)
        }
    }
}

/// The text of a 64-bit float given by its bits, as a debugging listing has it.
pub fn debug_double(bits: u64) -> (r: String)
    ensures
        r@ == debug64(bits),
{
    let field: u64 = (bits / 0x10_0000_0000_0000) % 2048;
    let fraction: u64 = bits % 0x10_0000_0000_0000;
    let magnitude: u64 = bits % 0x8000_0000_0000_0000;
    let sign = sign_of(bits >= 0x8000_0000_0000_0000);
    if field == 2047 {
        if fraction != 0 {
            return "NaN".to_owned();
        }
        return cat2(sign, "inf");
    }
    if magnitude == 0 {
        return cat2(sign, "0.0");
    }
    let (d, k) = if field == 0 {
        shortest_decimal(fraction, -1074, false)
    } else {
        shortest_decimal(fraction + 0x10_0000_0000_0000, field as i32 - 1075, fraction == 0 && field > 1)
    };
    let text = if magnitude >= 0x4341_C379_37E0_8000 || magnitude < 0x3F1A_36E2_EB1C_432D {
        exponential_text(d, k)
    } else {
        positional_text(d, k, true)
    };
    cat2(sign, text.as_str())
}

/// A quotient rounded to the nearest whole number, to the even one of two that are equally near.
pub open spec fn rounded(n: nat, d: nat) -> nat {
    let q = n / d;
    let r = n % d;
    if 2 * r > d || (2 * r == d && q % 2 == 1) {
        q + 1
    } else {
        q
    }
}

/// A finite 32-bit float's magnitude times a million, rounded.
pub open spec fn millionths(bits: u32) -> nat {
    let m = significand32(bits);
    let e = exponent32(bits);
    if e >= 0 {
        m * p2(e as nat) * 1_000_000
    } else {
        rounded(m * 1_000_000, p2((-e) as nat))
    }
}

/// The text of a 32-bit float with six digits behind the point.
pub open spec fn fixed32(bits: u32) -> Seq<char> {
    let sign = sign_text(negative32(bits));
    if field32(bits) == 255 {
        if fraction32(bits) != 0 {
            "NaN"@
        } else {
            sign + "inf"@
        }
    } else {
        let n = millionths(bits);
        sign + dec(n / 1_000_000) + "."@ + dec_fixed(n % 1_000_000, 6)
    }
}

fn small_power(n: u32) -> (r: u64)
    requires
        n <= 56,
    ensures
        r == p2(n as nat),
        r > 0,
{
    let mut r: u64 = 1;
    let mut i: u32 = 0;
    proof {
        lemma_p2_numbers();
    }
    while i < n
        invariant
            i <= n <= 56,
            r == p2(i as nat),
            r > 0,
            p2(57) == 0x200_0000_0000_0000,
        decreases n - i,
    {
        proof {
            lemma_p2_grows((i + 1) as nat, 57);
        }
        r = r * 2;
        i = i + 1;
    }
    r
}

/// The quotient rounded to the nearest whole number, to the even one of two.
fn round_quotient(n: u64, d: u64) -> (r: u64)
    requires
        0 < d <= 0x100_0000_0000_0000,
        n < 0x1000_0000_0000_0000,
    ensures
        r == rounded(n as nat, d as nat),
        r <= 0x1000_0000_0000_0000,
{
    let q: u64 = n / d;
    let rem: u64 = n % d;
    assert(q <= n) by (nonlinear_arith)
        requires
            q == n / d,
            d > 0,
    ;
    assert(rem < d);
    if 2 * rem > d || (2 * rem == d && q % 2 == 1) {
        q + 1
    } else {
        q
    }
}

proof fn lemma_tiny_rounds_to_nothing(n: nat, d: nat)
    requires
        2 * n < d,
    ensures
        rounded(n, d) == 0,
{
    assert(n / d == 0) by (nonlinear_arith)
        requires
            n < d,
    ;
    assert(n % d == n) by (nonlinear_arith)
        requires
            n < d,
    ;
}

/// The text of a 32-bit float given by its bits, with six digits behind the point.
pub fn fixed_single(bits: u32) -> (r: String)
    ensures
        r@ == fixed32(bits),
{
    let field: u32 = (bits / 0x80_0000) % 256;
    let fraction: u32 = bits % 0x80_0000;
    let sign = sign_of(bits >= 0x8000_0000);
    if field == 255 {
        if fraction != 0 {
            return "NaN".to_owned();
        }
        return cat2(sign, "inf");
    }
    let m: u64 = if field == 0 {
        fraction as u64
    } else {
        fraction as u64 + 0x80_0000
    };
    if field >= 150 {
        let shift: u32 = field - 150;
        let mut whole: u128 = m as u128;
        let mut i: u32 = 0;
        proof {
            assert(m * 1 == m);
            lemma_wide_bound(0);
        }
        while i < shift
            invariant
                i <= shift <= 104,
                m < 0x100_0000,
                whole == m * p2(i as nat),
            decreases shift - i,
        {
            proof {
                lemma_wide_bound((i + 1) as nat);
                let x = p2(i as nat);
                assert((m * x) * 2 == m * (2 * x)) by (nonlinear_arith);
                lemma_p2_sum(i as nat, 0);
                assert(m * (2 * x) < 0x100_0000 * (2 * x)) by (nonlinear_arith)
                    requires
                        m < 0x100_0000,
                        x > 0,
                ;
            }
            whole = whole * 2;
            i = i + 1;
        }
        proof {
            let n = millionths(bits);
            assert(n == whole * 1_000_000);
            assert(n / 1_000_000 == whole);
            assert(n % 1_000_000 == 0);
        }
        let a = decimal_wide(whole);
        let b = decimal_fixed(0, 6);
        cat4(sign, a.as_str(), ".", b.as_str())
    } else {
        let shift: u32 = if field == 0 {
            149
        } else {
            150 - field
        };
        let n: u64 = if shift <= 50 {
            let d: u64 = small_power(shift);
            proof {
                lemma_p2_numbers();
                lemma_p2_grows(shift as nat, 56);
                assert(p2(57) == 2 * p2(56));
            }
            round_quotient(m * 1_000_000, d)
        } else {
            proof {
                lemma_p2_grows(50, shift as nat);
                lemma_p2_numbers();
                reveal_with_fuel(p2, 8);
                assert(p2(57) == 128 * p2(50));
                lemma_tiny_rounds_to_nothing((m * 1_000_000) as nat, p2(shift as nat));
            }
            0
        };
        let a = decimal(n / 1_000_000);
        let b = decimal_fixed(n % 1_000_000, 6);
        cat4(sign, a.as_str(), ".", b.as_str())
    }
}

proof fn lemma_wide_bound(n: nat)
    ensures
        n <= 104 ==> 0x100_0000 * p2(n) <= 0x1_0000_0000_0000_0000_0000_0000_0000_0000,
{
    if n <= 104 {
        lemma_p2_grows(n, 104);
        lemma_p2_numbers();
        lemma_p2_sum(57, 47);
        lemma_p2_sum(23, 24);
        assert(p2(47) == 0x8000_0000_0000);
        assert(p2(104) == 0x200_0000_0000_0000nat * 0x8000_0000_0000nat);
        let x = p2(n);
        assert(0x100_0000 * x <= 0x100_0000 * p2(104)) by (nonlinear_arith)
            requires
                x <= p2(104),
        ;
    }
}

/// The magnitude of a finite 32-bit float, where it is a whole number below ten million.
pub open spec fn whole32(bits: u32) -> Option<nat> {
    let m = significand32(bits);
    let e = exponent32(bits);
    if field32(bits) == 255 {
        None
    } else if e >= 0 {
        if m * p2(e as nat) < 10_000_000 {
            Some(m * p2(e as nat))
        } else {
            None
        }
    } else if m % p2((-e) as nat) == 0 && m / p2((-e) as nat) < 10_000_000 {
        Some(m / p2((-e) as nat))
    } else {
        None
    }
}

/// The magnitude of a 32-bit float given by its bits, where it is a whole number below ten million.
pub fn whole_single(bits: u32) -> (r: Option<u32>)
    ensures
        match r {
            Some(n) => whole32(bits) == Some(n as nat) && n < 10_000_000,
            None => whole32(bits) is None,
        },
{
    let field: u32 = (bits / 0x80_0000) % 256;
    let fraction: u32 = bits % 0x80_0000;
    if field == 255 {
        return None;
    }
    let m: u64 = if field == 0 {
        fraction as u64
    } else {
        fraction as u64 + 0x80_0000
    };
    if field >= 150 {
        proof {
            let n = (field - 150) as nat;
            lemma_p2_sum(n, 0);
            if n == 0 {
                assert(m * 1 == m);
            } else {
                lemma_p2_grows(1, n);
                assert(p2(1) == 2 * p2(0));
                let x = p2(n);
                assert(m * x >= 0x80_0000 * 2) by (nonlinear_arith)
                    requires
                        m >= 0x80_0000,
                        x >= 2,
                ;
            }
        }
        if field == 150 && m < 10_000_000 {
            Some(m as u32)
        } else {
            None
        }
    } else {
        let shift: u32 = if field == 0 {
            149
        } else {
            150 - field
        };
        if shift <= 50 {
            let d: u64 = small_power(shift);
            assert(m / d <= m) by (nonlinear_arith)
                requires
                    d > 0,
            ;
            if m % d == 0 && m / d < 10_000_000 {
                Some((m / d) as u32)
            } else {
                None
            }
        } else {
            proof {
                lemma_p2_grows(24, shift as nat);
                lemma_p2_numbers();
                let x = p2(shift as nat);
                let n = m as nat;
                assert(n % x == n && n / x == 0) by (nonlinear_arith)
                    requires
                        n < x,
                ;
            }
            if m == 0 {
                Some(0)
            } else {
                None
            }
        }
    }
}

/// How many low bits of a number lie below its 24 highest.
pub open spec fn excess(p: nat) -> nat
    decreases p,
{
    if p < 0x100_0000 {
        0
    } else {
        1 + excess(p / 2)
    }
}

/// A product rounded to 24 bits, and the power of two that it is then multiplied by.
pub open spec fn single_product(m: nat, e: int, over: nat) -> (nat, int) {
    let p = m * over;
    (rounded(p, p2(excess(p))), e + excess(p))
}

/// A number times a power of two, rounded to the nearest whole number, upwards from half way.
pub open spec fn nearest_whole(q: nat, t: int) -> nat {
    if t >= 0 {
        q * p2(t as nat)
    } else {
        (q + p2((-t - 1) as nat)) / p2((-t) as nat)
    }
}

/// How often a number is doubled to reach another.
pub open spec fn doublings(a: nat, d: nat) -> nat
    decreases (if a < d { d - a } else { 0 }),
{
    if a == 0 || a >= d {
        0
    } else {
        1 + doublings(2 * a, d)
    }
}

/// The 32-bit float nearest to a quotient: its significand and the power of two that this is divided by.
pub open spec fn single_quotient(a: nat, over: nat) -> (nat, int) {
    let y = doublings(a, 0x80_0000 * over);
    let q = rounded(a * p2(y), over);
    if q == 0x100_0000 {
        (0x80_0000, y - 1)
    } else {
        (q, y as int)
    }
}

/// The greatest common divisor.
pub open spec fn shared_divisor(a: nat, b: nat) -> nat
    decreases b,
{
    if b == 0 {
        a
    } else {
        shared_divisor(b, a % b)
    }
}

/// The numerator over `over` that a 32-bit float is exactly the float of, in lowest terms and below ten
/// million.
pub open spec fn numerator32(bits: u32, over: nat) -> Option<nat> {
    let m = significand32(bits);
    let e = exponent32(bits);
    let (q, t) = single_product(m, e, over);
    let a = nearest_whole(q, t);
    if 0 < a < 10_000_000 && single_quotient(a, over) == (m, -e) && shared_divisor(a, over) == 1 {
        Some(a)
    } else {
        None
    }
}

proof fn lemma_excess(p: nat)
    ensures
        p < 0x1_0000_0000 ==> excess(p) <= 8,
        p >= 0x100_0000 ==> p2(excess(p)) * 0x80_0000 <= p < p2(excess(p)) * 0x100_0000,
        p < 0x100_0000 ==> excess(p) == 0,
{
    reveal_with_fuel(excess, 10);
    lemma_excess_power(p);
}

proof fn lemma_excess_power(p: nat)
    ensures
        p >= 0x100_0000 ==> p2(excess(p)) * 0x80_0000 <= p < p2(excess(p)) * 0x100_0000,
    decreases p,
{
    if p >= 0x100_0000 {
        if p / 2 >= 0x100_0000 {
            lemma_excess_power(p / 2);
        } else {
            assert(excess(p / 2) == 0);
            assert(excess(p) == 1);
            assert(p2(1) == 2 * p2(0));
        }
    }
}

fn excess_of(p: u64) -> (r: u32)
    requires
        p < 0x1_0000_0000,
    ensures
        r == excess(p as nat),
        r <= 8,
    decreases p,
{
    proof {
        lemma_excess(p as nat);
    }
    if p < 0x100_0000 {
        0
    } else {
        1 + excess_of(p / 2)
    }
}

fn divisor_of(a: u32, b: u32) -> (r: u32)
    ensures
        r == shared_divisor(a as nat, b as nat),
    decreases b,
{
    if b == 0 {
        a
    } else {
        divisor_of(b, a % b)
    }
}

/// The 32-bit float nearest to a quotient of small numbers.
fn quotient_of(a: u32, over: u32) -> (r: (u64, i32))
    requires
        0 < a < 10_000_000,
        3 <= over <= 255,
    ensures
        (r.0 as nat, r.1 as int) == single_quotient(a as nat, over as nat),
{
    let goal: u64 = 0x80_0000 * over as u64;
    let mut x: u64 = a as u64;
    let mut y: i32 = 0;
    proof {
        assert(a * 1 == a);
    }
    while x < goal
        invariant
            0 < x,
            0 <= y,
            x < 2 * goal,
            goal == 0x80_0000 * over,
            3 <= over <= 255,
            x == a * p2(y as nat),
            y + doublings(x as nat, goal as nat) == doublings(a as nat, goal as nat),
            y <= x,
        decreases (if x < goal { goal - x } else { 0 }),
    {
        proof {
            let z = p2(y as nat);
            assert((a * z) * 2 == a * (2 * z)) by (nonlinear_arith);
        }
        x = x * 2;
        y = y + 1;
    }
    let q: u64 = round_quotient(x, over as u64);
    if q == 0x100_0000 {
        (0x80_0000, y - 1)
    } else {
        (q, y)
    }
}

/// The numerator over `over` that a 32-bit float given by its bits is exactly the float of.
pub fn numerator_single(bits: u32, over: u32) -> (r: Option<u32>)
    requires
        3 <= over <= 255,
        0 < field32(bits) < 255,
    ensures
        match r {
            Some(a) => numerator32(bits, over as nat) == Some(a as nat),
            None => numerator32(bits, over as nat) is None,
        },
{
    let field: u32 = (bits / 0x80_0000) % 256;
    let m: u64 = (bits % 0x80_0000) as u64 + 0x80_0000;
    let e: i32 = field as i32 - 150;
    assert(m * over < 0x1_0000_0000 && m * over >= 0x100_0000) by (nonlinear_arith)
        requires
            0x80_0000 <= m < 0x100_0000,
            3 <= over <= 255,
    ;
    let p: u64 = m * over as u64;
    let s: u32 = excess_of(p);
    let d: u64 = small_power(s);
    proof {
        lemma_p2_numbers();
        lemma_p2_grows(s as nat, 8);
        lemma_excess(p as nat);
        reveal_with_fuel(p2, 9);
    }
    let q: u64 = round_quotient(p, d);
    let t: i32 = e + s as i32;
    proof {
        assert(p / d >= 0x80_0000 && p / d < 0x100_0000) by (nonlinear_arith)
            requires
                d * 0x80_0000 <= p < d * 0x100_0000,
                d > 0,
        ;
        assert(0x80_0000 <= q <= 0x100_0000);
    }
    let a: u32 = if t >= 1 {
        proof {
            lemma_p2_grows(1, t as nat);
            assert(p2(1) == 2 * p2(0));
            let x = p2(t as nat);
            assert(q * x >= 0x80_0000 * 2) by (nonlinear_arith)
                requires
                    q >= 0x80_0000,
                    x >= 2,
            ;
        }
        return None;
    } else if t == 0 {
        proof {
            assert(q * 1 == q);
        }
        q as u32
    } else if t >= -50 {
        let half: u64 = small_power((-t - 1) as u32);
        let whole: u64 = small_power((-t) as u32);
        proof {
            lemma_p2_grows((-t) as nat, 56);
            assert(p2(57) == 2 * p2(56));
            assert(p2((-t) as nat) == 2 * p2((-t - 1) as nat));
            assert((q + half) / (whole as int) <= 0x100_0000) by (nonlinear_arith)
                requires
                    q <= 0x100_0000,
                    whole == 2 * half,
                    half >= 1,
            ;
        }
        ((q + half) / whole) as u32
    } else {
        proof {
            lemma_p2_grows(26, (-t - 1) as nat);
            reveal_with_fuel(p2, 4);
            assert(p2(26) == 4 * p2(24));
            let half = p2((-t - 1) as nat);
            let whole = p2((-t) as nat);
            assert(whole == 2 * half);
            assert((q + half) / (whole as int) == 0) by (nonlinear_arith)
                requires
                    whole == 2 * half,
                    q < half,
            ;
        }
        return None;
    };
    if a == 0 || a >= 10_000_000 {
        return None;
    }
    let (back, y) = quotient_of(a, over);
    if back == m && y == -e && divisor_of(a, over) == 1 {
        Some(a)
    } else {
        None
    }
}

} // verus!
