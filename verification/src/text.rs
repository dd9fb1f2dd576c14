//! Text as sequences of characters: joining, number formatting and padding.
use vstd::prelude::*;

verus! {

/// `String::push_str`: the other string is put behind what is there.
pub assume_specification[ String::push_str ](s: &mut String, other: &str)
    ensures
        final(s)@ == old(s)@ + other@,
;

/// `String::push`: one character is put behind what is there.
pub assume_specification[ String::push ](s: &mut String, c: char)
    ensures
        final(s)@ == old(s)@.push(c),
;

/// `str`'s `==`: two strings are equal when they hold the same characters.
#[verifier::external_body]
pub(crate) fn same(a: &str, b: &str) -> (r: bool)
    ensures
        r == (a@ == b@),
{
    a == b
}

/// The characters of a string, one by one.
pub fn chars_of(s: &str) -> (r: Vec<char>)
    ensures
        r@ == s@,
{
    let mut out: Vec<char> = Vec::new();
    for c in it: s.chars()
        invariant
            out@ == it.seq().take(it.index()),
            it.seq() == s@,
    {
        out.push(c);
    }
    out
}

/// A string out of its characters.
pub fn from_chars(chars: &[char]) -> (r: String)
    ensures
        r@ == chars@,
{
    let mut out = String::new();
    let mut i: usize = 0;
    while i < chars.len()
        invariant
            i <= chars@.len(),
            out@ == chars@.take(i as int),
        decreases chars@.len() - i,
    {
        out.push(chars[i]);
        i = i + 1;
    }
    out
}

/// A string out of part of a run of characters.
pub fn from_span(chars: &[char], from: usize, to: usize) -> (r: String)
    requires
        from <= to <= chars@.len(),
    ensures
        r@ == chars@.subrange(from as int, to as int),
{
    let mut out = String::new();
    let mut i: usize = from;
    while i < to
        invariant
            from <= i <= to <= chars@.len(),
            out@ == chars@.subrange(from as int, i as int),
        decreases to - i,
    {
        out.push(chars[i]);
        i = i + 1;
    }
    out
}

/// Two strings end to end.
pub fn cat2(a: &str, b: &str) -> (r: String)
    ensures
        r@ == a@ + b@,
{
    let mut out = a.to_owned();
    out.push_str(b);
    out
}

/// Three strings end to end.
pub fn cat3(a: &str, b: &str, c: &str) -> (r: String)
    ensures
        r@ == a@ + b@ + c@,
{
    let mut out = cat2(a, b);
    out.push_str(c);
    out
}

/// Four strings end to end.
pub fn cat4(a: &str, b: &str, c: &str, d: &str) -> (r: String)
    ensures
        r@ == a@ + b@ + c@ + d@,
{
    let mut out = cat3(a, b, c);
    out.push_str(d);
    out
}

/// Five strings end to end.
pub fn cat5(a: &str, b: &str, c: &str, d: &str, e: &str) -> (r: String)
    ensures
        r@ == a@ + b@ + c@ + d@ + e@,
{
    let mut out = cat4(a, b, c, d);
    out.push_str(e);
    out
}

/// Six strings end to end.
pub fn cat6(a: &str, b: &str, c: &str, d: &str, e: &str, f: &str) -> (r: String)
    ensures
        r@ == a@ + b@ + c@ + d@ + e@ + f@,
{
    let mut out = cat5(a, b, c, d, e);
    out.push_str(f);
    out
}

/// Seven strings end to end.
pub fn cat7(a: &str, b: &str, c: &str, d: &str, e: &str, f: &str, g: &str) -> (r: String)
    ensures
        r@ == a@ + b@ + c@ + d@ + e@ + f@ + g@,
{
    let mut out = cat6(a, b, c, d, e, f);
    out.push_str(g);
    out
}

/// The character of a digit below sixteen, letters in lower case.
pub open spec fn digit(d: int) -> char {
    if d == 0 { '0' }
    else if d == 1 { '1' }
    else if d == 2 { '2' }
    else if d == 3 { '3' }
    else if d == 4 { '4' }
    else if d == 5 { '5' }
    else if d == 6 { '6' }
    else if d == 7 { '7' }
    else if d == 8 { '8' }
    else if d == 9 { '9' }
    else if d == 10 { 'a' }
    else if d == 11 { 'b' }
    else if d == 12 { 'c' }
    else if d == 13 { 'd' }
    else if d == 14 { 'e' }
    else { 'f' }
}

/// The character of a digit below sixteen, letters in upper case.
pub open spec fn digit_upper(d: int) -> char {
    if d == 10 { 'A' }
    else if d == 11 { 'B' }
    else if d == 12 { 'C' }
    else if d == 13 { 'D' }
    else if d == 14 { 'E' }
    else if d == 15 { 'F' }
    else { digit(d) }
}

fn digit_char(d: u64) -> (c: char)
    requires
        d < 16,
    ensures
        c == digit(d as int),
{
    if d == 0 { '0' }
    else if d == 1 { '1' }
    else if d == 2 { '2' }
    else if d == 3 { '3' }
    else if d == 4 { '4' }
    else if d == 5 { '5' }
    else if d == 6 { '6' }
    else if d == 7 { '7' }
    else if d == 8 { '8' }
    else if d == 9 { '9' }
    else if d == 10 { 'a' }
    else if d == 11 { 'b' }
    else if d == 12 { 'c' }
    else if d == 13 { 'd' }
    else if d == 14 { 'e' }
    else { 'f' }
}

fn digit_char_upper(d: u64) -> (c: char)
    requires
        d < 16,
    ensures
        c == digit_upper(d as int),
{
    if d == 10 { 'A' }
    else if d == 11 { 'B' }
    else if d == 12 { 'C' }
    else if d == 13 { 'D' }
    else if d == 14 { 'E' }
    else if d == 15 { 'F' }
    else { digit_char(d) }
}

/// A number in decimal, without leading zeros.
pub open spec fn dec(n: nat) -> Seq<char>
    decreases n,
{
    if n < 10 {
        seq![digit(n as int)]
    } else {
        dec(n / 10).push(digit((n % 10) as int))
    }
}

/// A number in decimal with its sign where it is negative.
pub open spec fn signed(n: int) -> Seq<char> {
    if n < 0 {
        "-"@ + dec((-n) as nat)
    } else {
        dec(n as nat)
    }
}

/// A number in hexadecimal, without leading zeros, letters in lower case.
pub open spec fn hex(n: nat) -> Seq<char>
    decreases n,
{
    if n < 16 {
        seq![digit(n as int)]
    } else {
        hex(n / 16).push(digit((n % 16) as int))
    }
}

/// The last `width` hexadecimal digits of a number, leading zeros kept, letters in lower case.
pub open spec fn hex_fixed(n: nat, width: nat) -> Seq<char>
    decreases width,
{
    if width == 0 {
        Seq::empty()
    } else {
        hex_fixed(n / 16, (width - 1) as nat).push(digit((n % 16) as int))
    }
}

/// The last `width` hexadecimal digits of a number, leading zeros kept, letters in upper case.
pub open spec fn hex_fixed_upper(n: nat, width: nat) -> Seq<char>
    decreases width,
{
    if width == 0 {
        Seq::empty()
    } else {
        hex_fixed_upper(n / 16, (width - 1) as nat).push(digit_upper((n % 16) as int))
    }
}

/// `n` as decimal text.
pub fn decimal(n: u64) -> (r: String)
    ensures
        r@ == dec(n as nat),
    decreases n,
{
    if n < 10 {
        let mut out = String::new();
        out.push(digit_char(n));
        proof {
            assert(out@ =~= seq![digit(n as int)]);
        }
        out
    } else {
        let mut out = decimal(n / 10);
        out.push(digit_char(n % 10));
        out
    }
}

/// The number after `n` as decimal text.
pub fn decimal_next(n: u64) -> (r: String)
    ensures
        r@ == dec(n as nat + 1),
{
    if n < u64::MAX {
        decimal(n + 1)
    } else {
        let mut out = decimal(n / 10);
        out.push(digit_char(6));
        out
    }
}

/// `n` as decimal text with a sign.
pub fn decimal_signed(n: i64) -> (r: String)
    ensures
        r@ == signed(n as int),
{
    if n < 0 {
        let m: u64 = if n == i64::MIN {
            0x8000_0000_0000_0000u64
        } else {
            (-n) as u64
        };
        let digits = decimal(m);
        cat2("-", digits.as_str())
    } else {
        decimal(n as u64)
    }
}

/// `n` as hexadecimal text.
pub fn hexadecimal(n: u64) -> (r: String)
    ensures
        r@ == hex(n as nat),
    decreases n,
{
    if n < 16 {
        let mut out = String::new();
        out.push(digit_char(n));
        proof {
            assert(out@ =~= seq![digit(n as int)]);
        }
        out
    } else {
        let mut out = hexadecimal(n / 16);
        out.push(digit_char(n % 16));
        out
    }
}

/// The last `width` hexadecimal digits of `n`.
pub fn hexadecimal_fixed(n: u64, width: usize) -> (r: String)
    ensures
        r@ == hex_fixed(n as nat, width as nat),
    decreases width,
{
    if width == 0 {
        String::new()
    } else {
        let mut out = hexadecimal_fixed(n / 16, width - 1);
        out.push(digit_char(n % 16));
        out
    }
}

/// The last `width` hexadecimal digits of `n`, letters in upper case.
pub fn hexadecimal_fixed_upper(n: u64, width: usize) -> (r: String)
    ensures
        r@ == hex_fixed_upper(n as nat, width as nat),
    decreases width,
{
    if width == 0 {
        String::new()
    } else {
        let mut out = hexadecimal_fixed_upper(n / 16, width - 1);
        out.push(digit_char_upper(n % 16));
        out
    }
}

/// The text of a number in hex digits, letters in upper case.
pub open spec fn hex_upper(n: nat) -> Seq<char>
    decreases n,
{
    if n < 16 {
        seq![digit_upper(n as int)]
    } else {
        hex_upper(n / 16).push(digit_upper((n % 16) as int))
    }
}

/// The text of a number in hex digits, letters in upper case.
pub fn hexadecimal_upper(n: u64) -> (r: String)
    ensures
        r@ == hex_upper(n as nat),
    decreases n,
{
    let mut out = if n < 16 {
        String::new()
    } else {
        hexadecimal_upper(n / 16)
    };
    out.push(digit_char_upper(n % 16));
    proof {
        assert(out@ =~= hex_upper(n as nat));
    }
    out
}

/// `count` copies of a character.
pub open spec fn repeated(c: char, count: nat) -> Seq<char> {
    Seq::new(count, |i: int| c)
}

/// `text` filled up with blanks behind it to `width` characters.
pub open spec fn left_aligned(text: Seq<char>, width: nat) -> Seq<char> {
    if text.len() >= width {
        text
    } else {
        text + repeated(' ', (width - text.len()) as nat)
    }
}

/// `text` filled up with blanks before it to `width` characters.
pub open spec fn right_aligned(text: Seq<char>, width: nat) -> Seq<char> {
    if text.len() >= width {
        text
    } else {
        repeated(' ', (width - text.len()) as nat) + text
    }
}

/// `count` copies of a character, as a string.
pub fn repeat(c: char, count: usize) -> (r: String)
    ensures
        r@ == repeated(c, count as nat),
{
    let mut out = String::new();
    let mut i: usize = 0;
    while i < count
        invariant
            i <= count,
            out@ == repeated(c, i as nat),
        decreases count - i,
    {
        out.push(c);
        i = i + 1;
        proof {
            assert(out@ =~= repeated(c, i as nat));
        }
    }
    out
}

/// `text` filled up with blanks behind it.
pub fn align_left(text: &str, width: usize) -> (r: String)
    ensures
        r@ == left_aligned(text@, width as nat),
{
    let chars = chars_of(text);
    if chars.len() >= width {
        text.to_owned()
    } else {
        let blanks = repeat(' ', width - chars.len());
        cat2(text, blanks.as_str())
    }
}

/// `text` filled up with blanks before it.
pub fn align_right(text: &str, width: usize) -> (r: String)
    ensures
        r@ == right_aligned(text@, width as nat),
{
    let chars = chars_of(text);
    if chars.len() >= width {
        text.to_owned()
    } else {
        let blanks = repeat(' ', width - chars.len());
        cat2(blanks.as_str(), text)
    }
}

/// The parts with a separator between each two.
pub open spec fn joined(parts: Seq<Seq<char>>, separator: Seq<char>) -> Seq<char>
    decreases parts.len(),
{
    if parts.len() == 0 {
        Seq::empty()
    } else if parts.len() == 1 {
        parts[0]
    } else {
        joined(parts.drop_last(), separator) + separator + parts.last()
    }
}

/// What each string of a list holds.
pub open spec fn views(parts: Seq<String>) -> Seq<Seq<char>> {
    parts.map_values(|s: String| s@)
}

/// The strings with a separator between each two.
pub fn join(parts: &[String], separator: &str) -> (r: String)
    ensures
        r@ == joined(views(parts@), separator@),
{
    if parts.len() == 0 {
        return String::new();
    }
    let mut out = parts[0].clone();
    let mut i: usize = 1;
    proof {
        assert(views(parts@).take(1) =~= seq![parts@[0]@]);
    }
    while i < parts.len()
        invariant
            1 <= i <= parts@.len(),
            out@ == joined(views(parts@).take(i as int), separator@),
        decreases parts@.len() - i,
    {
        out.push_str(separator);
        out.push_str(parts[i].as_str());
        i = i + 1;
        proof {
            let all = views(parts@);
            assert(all.take(i as int).drop_last() =~= all.take(i - 1));
            assert(all.take(i as int).last() == parts@[i - 1]@);
        }
    }
    proof {
        assert(views(parts@).take(i as int) =~= views(parts@));
    }
    out
}

} // verus!
