//! What written numbers are worth.
use crate::text::{dec, digit, hex, hex_fixed, hex_fixed_upper, hex_upper, left_aligned, right_aligned, signed};
use vstd::prelude::*;

verus! {

/// What a character is worth as a digit: a decimal digit its distance from `0`, a letter ten more than its distance from
/// the first.
pub open spec fn worth_of(c: char) -> int {
    if '0' <= c <= '9' {
        c as int - '0' as int
    } else if 'a' <= c <= 'f' {
        c as int - 'a' as int + 10
    } else {
        c as int - 'A' as int + 10
    }
}

/// What digits are worth in a base, the last of them least.
pub open spec fn worth(s: Seq<char>, base: int) -> int
    decreases s.len(),
{
    if s.len() == 0 {
        0
    } else {
        worth(s.drop_last(), base) * base + worth_of(s.last())
    }
}

proof fn lemma_pushed(s: Seq<char>, c: char, base: int)
    ensures
        worth(s.push(c), base) == worth(s, base) * base + worth_of(c),
{
    assert(s.push(c).drop_last() =~= s);
}

/// A number in decimal is worth the number, is made of decimal digits, and starts with a nought only where it is nought.
pub proof fn law_decimal_is_worth_the_number(n: nat)
    ensures
        worth(dec(n), 10) == n,
        dec(n).len() > 0,
        forall|i: int| 0 <= i < dec(n).len() ==> '0' <= #[trigger] dec(n)[i] <= '9',
        dec(n)[0] == '0' ==> n == 0,
    decreases n,
{
    if n < 10 {
        lemma_pushed(Seq::empty(), digit(n as int), 10);
        assert(Seq::<char>::empty().push(digit(n as int)) =~= dec(n));
    } else {
        law_decimal_is_worth_the_number(n / 10);
        lemma_pushed(dec(n / 10), digit((n % 10) as int), 10);
    }
}

/// Two numbers are written alike only where they are one.
pub proof fn law_decimals_differ(a: nat, b: nat)
    ensures
        dec(a) == dec(b) <==> a == b,
{
    law_decimal_is_worth_the_number(a);
    law_decimal_is_worth_the_number(b);
}

/// A number with a sign is worth its size, and the sign says whether it is below nought.
pub proof fn law_signed_is_worth_the_number(n: int)
    ensures
        n >= 0 ==> worth(signed(n), 10) == n && signed(n)[0] != '-',
        n < 0 ==> signed(n)[0] == '-' && worth(signed(n).skip(1), 10) == -n,
{
    reveal_strlit("-");
    if n >= 0 {
        law_decimal_is_worth_the_number(n as nat);
    } else {
        law_decimal_is_worth_the_number((-n) as nat);
        assert(signed(n).skip(1) =~= dec((-n) as nat));
    }
}

/// A number in hexadecimal is worth the number.
pub proof fn law_hexadecimal_is_worth_the_number(n: nat)
    ensures
        worth(hex(n), 16) == n,
        worth(hex_upper(n), 16) == n,
        hex(n).len() > 0,
        hex(n)[0] == '0' ==> n == 0,
    decreases n,
{
    if n < 16 {
        assert(hex(n).drop_last() =~= Seq::<char>::empty());
        assert(hex_upper(n).drop_last() =~= Seq::<char>::empty());
        reveal_with_fuel(worth, 2);
    } else {
        law_hexadecimal_is_worth_the_number(n / 16);
        assert(hex(n).drop_last() =~= hex(n / 16));
        assert(hex_upper(n).drop_last() =~= hex_upper(n / 16));
    }
}

/// Sixteen to a power.
pub open spec fn sixteens(width: nat) -> int
    decreases width,
{
    if width == 0 {
        1
    } else {
        16 * sixteens((width - 1) as nat)
    }
}

/// A number in hexadecimal of a fixed width has that many digits, and is worth the number where they are enough.
pub proof fn law_fixed_hexadecimal_is_worth_the_number(n: nat, width: nat)
    requires
        n < sixteens(width),
    ensures
        hex_fixed(n, width).len() == width,
        hex_fixed_upper(n, width).len() == width,
        worth(hex_fixed(n, width), 16) == n,
        worth(hex_fixed_upper(n, width), 16) == n,
    decreases width,
{
    if width > 0 {
        law_fixed_hexadecimal_is_worth_the_number(n / 16, (width - 1) as nat);
        assert(hex_fixed(n, width).drop_last() =~= hex_fixed(n / 16, (width - 1) as nat));
        assert(hex_fixed_upper(n, width).drop_last() =~= hex_fixed_upper(n / 16, (width - 1) as nat));
    }
}

/// A text in a column is filled up with spaces behind it or before it, and never cut.
pub proof fn law_columns_keep_the_text(text: Seq<char>, width: nat, i: int)
    ensures
        left_aligned(text, width).take(text.len() as int) =~= text,
        right_aligned(text, width).skip(right_aligned(text, width).len() - text.len()) =~= text,
        left_aligned(text, width).len() == (if text.len() < width { width } else { text.len() }),
        right_aligned(text, width).len() == (if text.len() < width { width } else { text.len() }),
        text.len() <= i < width ==> left_aligned(text, width)[i] == ' ',
        0 <= i < width - text.len() ==> right_aligned(text, width)[i] == ' ',
{
}

} // verus!
