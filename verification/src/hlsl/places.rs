//! Where the components of a constant buffer lie, and that two of them are never called the same.
use super::names::{
    bit_length, described_mask, digits_in, footprint, low_bit, member_covering, power, reached, reached_base,
    BufferModel, MemberModel,
};
use super::words::is_digit;
use crate::numerals::{law_decimal_is_worth_the_number, law_decimals_differ};
use crate::text::{dec, digit};
use vstd::prelude::*;

verus! {

proof fn lemma_covering(members: Seq<MemberModel>, register: nat, comp: nat, from: int)
    ensures
        member_covering(members, register, comp, from) is Some ==> member_covering(
            members,
            register,
            comp,
            from,
        )->0.covers(register, comp),
    decreases members.len() - from,
{
    if 0 <= from < members.len() && !members[from].covers(register, comp) {
        lemma_covering(members, register, comp, from + 1);
    }
}

/// A component is called by a member that covers it, and counted from where the member starts in its register.
pub proof fn law_component_is_counted_from_its_member(b: BufferModel, inside: Seq<char>, register: nat, comp: u8)
    requires
        comp < 4,
        b.holder(register, comp as nat) is Some,
    ensures
        ({
            let m = b.holder(register, comp as nat)->0;
            let first = if register == m.register { m.first } else { 0 };
            &&& m.covers(register, comp as nat)
            &&& reached(b, inside, register, comp).1 + first == comp
            &&& reached(b, inside, register, comp).0 == reached_base(m, inside, register)
        }),
{
    lemma_covering(b.members, register, comp as nat, 0);
}

proof fn lemma_middle(before: Seq<char>, a: Seq<char>, b: Seq<char>, behind: Seq<char>)
    requires
        before + a + behind == before + b + behind,
    ensures
        a == b,
{
    let (x, y) = (before + a + behind, before + b + behind);
    assert(x.len() == y.len());
    assert(a =~= x.subrange(before.len() as int, (before.len() + a.len()) as int));
    assert(b =~= y.subrange(before.len() as int, (before.len() + b.len()) as int));
}

proof fn lemma_two_numbers(a: nat, b: nat, c: nat, d: nat)
    requires
        dec(a) + "]["@ + dec(b) == dec(c) + "]["@ + dec(d),
    ensures
        a == c && b == d,
{
    reveal_strlit("][");
    law_decimal_is_worth_the_number(a);
    law_decimal_is_worth_the_number(b);
    law_decimal_is_worth_the_number(c);
    law_decimal_is_worth_the_number(d);
    let (x, y) = (dec(a) + "]["@ + dec(b), dec(c) + "]["@ + dec(d));
    let (m, n) = (dec(a).len() as int, dec(c).len() as int);
    assert(x[m] == ']');
    assert(y[n] == ']');
    if m < n {
        assert(y[m] == dec(c)[m]);
    } else if n < m {
        assert(x[n] == dec(a)[n]);
    }
    assert(dec(a) =~= x.take(m));
    assert(dec(c) =~= y.take(m));
    assert(dec(b) =~= x.skip(m + 2));
    assert(dec(d) =~= y.skip(m + 2));
    law_decimals_differ(a, c);
    law_decimals_differ(b, d);
}

proof fn lemma_rows(m: MemberModel, inside: Seq<char>, p: nat, q: nat)
    requires
        m.register <= p < m.register + m.registers,
        m.register <= q < m.register + m.registers,
        reached_base(m, inside, p) == reached_base(m, inside, q),
    ensures
        p == q,
{
    let (x, y) = ((p - m.register) as nat, (q - m.register) as nat);
    if m.registers > 1 {
        if m.elements == 0 {
            let before = "("@ + inside + m.name + "["@;
            assert(reached_base(m, inside, p) =~= before + dec(x) + "])"@);
            assert(reached_base(m, inside, q) =~= before + dec(y) + "])"@);
            lemma_middle(before, dec(x), dec(y), "])"@);
            law_decimals_differ(x, y);
        } else if m.rows() > 1 {
            let n = m.rows() as nat;
            let before = "("@ + inside + m.name + "["@;
            let s = dec(x / n) + "]["@ + dec(x % n);
            let t = dec(y / n) + "]["@ + dec(y % n);
            assert(reached_base(m, inside, p) =~= before + s + "])"@);
            assert(reached_base(m, inside, q) =~= before + t + "])"@);
            lemma_middle(before, s, t, "])"@);
            lemma_two_numbers(x / n, x % n, y / n, y % n);
            assert(x == n * (x / n) + x % n && y == n * (y / n) + y % n) by (nonlinear_arith)
                requires
                    n > 0,
            ;
        } else {
            let before = inside + m.name + "["@;
            assert(reached_base(m, inside, p) =~= before + dec(x) + "]"@);
            assert(reached_base(m, inside, q) =~= before + dec(y) + "]"@);
            lemma_middle(before, dec(x), dec(y), "]"@);
            law_decimals_differ(x, y);
        }
    }
}

/// Two components of one member are never called the same: neither two of one register nor two of different registers,
/// whether the member is a matrix, an array or an array of matrices.
pub proof fn law_components_are_called_apart(b: BufferModel, inside: Seq<char>, p: nat, q: nat, c: u8, d: u8)
    requires
        c < 4,
        d < 4,
        b.holder(p, c as nat) is Some,
        b.holder(p, c as nat) == b.holder(q, d as nat),
    ensures
        reached(b, inside, p, c) == reached(b, inside, q, d) ==> p == q && c == d,
{
    law_component_is_counted_from_its_member(b, inside, p, c);
    law_component_is_counted_from_its_member(b, inside, q, d);
    if reached(b, inside, p, c) == reached(b, inside, q, d) {
        lemma_rows(b.holder(p, c as nat)->0, inside, p, q);
    }
}

/// A described field covers the components of its first register that its bytes take: from where it starts in the register,
/// as many as it has words.
pub proof fn law_described_field_covers_its_words(offset: u32, size: u32, k: nat)
    requires
        k < 4,
        4 <= size < 16,
        (offset % 16) / 4 + size / 4 <= 4,
    ensures
        (described_mask(offset, size) / power(k)) % 2 == 1 <==> (offset % 16) / 4 <= k < (offset % 16) / 4 + size / 4,
{
    reveal_with_fuel(power, 5);
    let (s, n) = (((offset % 16) / 4) as nat, (size / 4) as nat);
    assert(s == 0 || s == 1 || s == 2 || s == 3);
    assert(n == 1 || n == 2 || n == 3);
    assert(k == 0 || k == 1 || k == 2 || k == 3);
    assert(power(0) == 1 && power(1) == 2 && power(2) == 4 && power(3) == 8 && power(4) == 16);
    let (a, b) = (power(n) - 1, power(s) as int);
    assert(a * b == (if s == 0 { a } else if s == 1 { 2 * a } else if s == 2 { 4 * a } else { 8 * a })) by (nonlinear_arith)
        requires
            b == (if s == 0 { 1int } else if s == 1 { 2int } else if s == 2 { 4int } else { 8int }),
    ;
    let m = described_mask(offset, size);
    assert(m == a * b);
    if k == 0 {
        assert(m / power(k) == m / 1nat);
    } else if k == 1 {
        assert(m / power(k) == m / 2nat);
    } else if k == 2 {
        assert(m / power(k) == m / 4nat);
    } else {
        assert(m / power(k) == m / 8nat);
    }
}

/// The size of a number in bits: it fits in so many, and in none fewer.
pub proof fn law_bit_length_is_least(n: nat)
    ensures
        n < power(bit_length(n)),
        n > 0 ==> power((bit_length(n) - 1) as nat) <= n && bit_length(n) > 0,
    decreases n,
{
    if n > 0 {
        law_bit_length_is_least(n / 2);
        reveal_with_fuel(power, 3);
        reveal_with_fuel(bit_length, 3);
    }
}

/// The lowest bit of a mask divides it, and the next power of two does not.
pub proof fn law_low_bit_is_lowest(mask: nat)
    requires
        mask > 0,
    ensures
        mask % power(low_bit(mask)) == 0,
        (mask / power(low_bit(mask))) % 2 == 1,
        power(low_bit(mask)) > 0,
    decreases mask,
{
    if mask % 2 == 0 {
        law_low_bit_is_lowest(mask / 2);
        let p = power(low_bit(mask / 2));
        let h = mask / 2;
        assert(power(low_bit(mask)) == 2 * p);
        assert(mask == 2 * h);
        let k = h / p;
        vstd::arithmetic::div_mod::lemma_fundamental_div_mod(h as int, p as int);
        assert(mask == (2 * p) * k && mask == k * (2 * p)) by (nonlinear_arith)
            requires
                h == p * k,
                mask == 2 * h,
        ;
        vstd::arithmetic::div_mod::lemma_mod_multiples_basic(k as int, (2 * p) as int);
        vstd::arithmetic::div_mod::lemma_div_multiples_vanish(k as int, (2 * p) as int);
    } else {
        reveal_with_fuel(power, 2);
    }
}

/// The room that declared types take: a scalar a component, a vector as many as its size, a matrix a register for each row
/// and as many components as it has columns, and an array so much for each element.
pub proof fn law_types_take_their_room(rows: nat, columns: nat, elements: u32)
    requires
        1 <= rows <= 4,
        1 <= columns <= 4,
    ensures
        ({
            let times: nat = if elements == 0 { 1 } else { elements as nat };
            &&& footprint("float"@ + dec(rows) + "x"@ + dec(columns), elements) == (rows * times, columns)
            &&& footprint("float"@ + dec(columns), elements) == (times, columns)
            &&& footprint("float"@, elements) == (times, 1nat)
        }),
{
    reveal_strlit("float");
    reveal_strlit("x");
    reveal_with_fuel(digits_in, 9);
    let name = "float"@;
    assert(name.len() == 5 && !is_digit(name[0]) && !is_digit(name[1]) && !is_digit(name[2]) && !is_digit(name[3])
        && !is_digit(name[4]));
    assert(digits_in(name, 5) =~= Seq::<nat>::empty());
    let (r, c) = (digit(rows as int), digit(columns as int));
    let vector = name + dec(columns);
    assert(vector =~= name.push(c));
    assert(is_digit(c) && is_digit(r) && !is_digit('x'));
    lemma_prefix(name, vector, 5);
    assert(digits_in(vector, 6) =~= seq![columns]);
    let matrix = name + dec(rows) + "x"@ + dec(columns);
    assert(matrix =~= name.push(r).push('x').push(c));
    lemma_prefix(name, matrix, 5);
    assert(digits_in(matrix, 6) =~= seq![rows]);
    assert(digits_in(matrix, 7) =~= seq![rows]);
    assert(digits_in(matrix, 8) =~= seq![rows, columns]);
}

proof fn lemma_prefix(a: Seq<char>, b: Seq<char>, n: int)
    requires
        0 <= n <= a.len() <= b.len(),
        forall|i: int| 0 <= i < n ==> #[trigger] a[i] == b[i],
    ensures
        digits_in(a, n) == digits_in(b, n),
    decreases n,
{
    if n > 0 {
        lemma_prefix(a, b, n - 1);
    }
}

} // verus!
