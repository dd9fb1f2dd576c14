//! Looking into text: numbers, single characters and names in a line.
use crate::text::{chars_of, repeated};
use vstd::prelude::*;

verus! {

/// Whether a character beyond ASCII is alphanumeric in the sense of Unicode.
pub uninterp spec fn unicode_alphanumeric(c: char) -> bool;

/// Whether a character beyond ASCII is alphabetic in the sense of Unicode.
pub uninterp spec fn unicode_alphabetic(c: char) -> bool;

/// A character of ASCII.
pub open spec fn is_ascii(c: char) -> bool {
    (c as u32) < 128
}

/// Whether a character is alphanumeric in the sense of Unicode: of ASCII, the letters and the digits are.
pub open spec fn alphanumeric(c: char) -> bool {
    if is_ascii(c) {
        is_letter(c) || is_digit(c)
    } else {
        unicode_alphanumeric(c)
    }
}

/// Whether a character is alphabetic in the sense of Unicode: of ASCII, the letters are.
pub open spec fn alphabetic(c: char) -> bool {
    if is_ascii(c) {
        is_letter(c)
    } else {
        unicode_alphabetic(c)
    }
}

/// Whether a character is white space in the sense of Unicode: it has the property `White_Space`.
pub open spec fn whitespace(c: char) -> bool {
    let n = c as u32;
    ||| 9 <= n <= 13
    ||| n == 0x20
    ||| n == 0x85
    ||| n == 0xA0
    ||| n == 0x1680
    ||| 0x2000 <= n <= 0x200A
    ||| n == 0x2028
    ||| n == 0x2029
    ||| n == 0x202F
    ||| n == 0x205F
    ||| n == 0x3000
}

/// A digit.
pub open spec fn is_digit(c: char) -> bool {
    '0' <= c && c <= '9'
}

/// A letter without an accent.
pub open spec fn is_letter(c: char) -> bool {
    ('a' <= c && c <= 'z') || ('A' <= c && c <= 'Z')
}

/// A character that a register's name may go on with.
pub open spec fn is_ident(c: char) -> bool {
    is_digit(c) || is_letter(c) || c == '_'
}

/// A character of a word, in any script.
pub open spec fn is_word(c: char) -> bool {
    alphanumeric(c) || c == '_'
}

/// `char::is_alphanumeric`: a function of the character alone, and for an ASCII character true of the letters
/// and the digits. What it says of other characters is the name.
#[verifier::external_body]
fn alphanumeric_char(c: char) -> (r: bool)
    ensures
        is_ascii(c) ==> r == (is_letter(c) || is_digit(c)),
        !is_ascii(c) ==> r == unicode_alphanumeric(c),
{
    c.is_alphanumeric()
}

/// `char::is_alphabetic`: a function of the character alone, and for an ASCII character true of the letters.
/// What it says of other characters is the name.
#[verifier::external_body]
pub(crate) fn alphabetic_char(c: char) -> (r: bool)
    ensures
        is_ascii(c) ==> r == is_letter(c),
        !is_ascii(c) ==> r == unicode_alphabetic(c),
{
    c.is_alphabetic()
}

/// `char::is_whitespace`: true of the characters that Unicode lists under the property `White_Space`.
#[verifier::external_body]
fn whitespace_char(c: char) -> (r: bool)
    ensures
        r == whitespace(c),
{
    c.is_whitespace()
}

/// Whether a character is a digit.
pub fn digit_char(c: char) -> (r: bool)
    ensures
        r == is_digit(c),
{
    '0' <= c && c <= '9'
}

/// Whether a character is a letter without an accent.
pub fn letter_char(c: char) -> (r: bool)
    ensures
        r == is_letter(c),
{
    ('a' <= c && c <= 'z') || ('A' <= c && c <= 'Z')
}

/// Whether a register's name may go on with a character.
pub fn ident_char(c: char) -> (r: bool)
    ensures
        r == is_ident(c),
{
    digit_char(c) || letter_char(c) || c == '_'
}

/// Whether a character belongs to a word.
pub fn word_char(c: char) -> (r: bool)
    ensures
        r == is_word(c),
{
    alphanumeric_char(c) || c == '_'
}

/// The value of a digit.
pub open spec fn digit_value(c: char) -> nat {
    (c as int - '0' as int) as nat
}

/// The number that the first `n` digits spell.
pub open spec fn digits_value(s: Seq<char>, n: int) -> nat
    decreases n,
{
    if n <= 0 {
        0
    } else {
        digits_value(s, n - 1) * 10 + digit_value(s[n - 1])
    }
}

/// Every character is a digit.
pub open spec fn all_digits(s: Seq<char>) -> bool {
    forall|i: int| 0 <= i < s.len() ==> is_digit(#[trigger] s[i])
}

/// The digits of a number, which a plus may stand before.
pub open spec fn unsigned_part(s: Seq<char>) -> Seq<char> {
    if s.len() > 0 && s[0] == '+' {
        s.skip(1)
    } else {
        s
    }
}

/// The number a text spells, where it spells one of thirty-two bits.
pub open spec fn number_of(s: Seq<char>) -> Option<u32> {
    let t = unsigned_part(s);
    if t.len() > 0 && all_digits(t) && digits_value(t, t.len() as int) <= u32::MAX {
        Some(digits_value(t, t.len() as int) as u32)
    } else {
        None
    }
}

proof fn lemma_digits_grow(s: Seq<char>, m: int, n: int)
    requires
        0 <= m <= n,
    ensures
        digits_value(s, m) <= digits_value(s, n),
    decreases n - m,
{
    if m < n {
        lemma_digits_grow(s, m, n - 1);
    }
}

/// The value of a digit.
pub fn value_of(c: char) -> (r: u32)
    requires
        is_digit(c),
    ensures
        r == digit_value(c),
{
    c as u32 - '0' as u32
}

/// The number a text spells, where it spells one of thirty-two bits.
pub fn parse_number(s: &[char]) -> (r: Option<u32>)
    ensures
        r == number_of(s@),
{
    let from: usize = if s.len() > 0 && s[0] == '+' {
        1
    } else {
        0
    };
    let ghost t = unsigned_part(s@);
    proof {
        assert(t =~= s@.skip(from as int));
    }
    if s.len() == from {
        return None;
    }
    let mut total: u64 = 0;
    let mut i: usize = from;
    while i < s.len()
        invariant
            from <= i <= s@.len(),
            t == unsigned_part(s@),
            t == s@.skip(from as int),
            total == digits_value(t, i - from),
            total <= u32::MAX,
            forall|k: int| 0 <= k < i - from ==> is_digit(#[trigger] t[k]),
        decreases s@.len() - i,
    {
        assert(t[i - from] == s@[i as int]);
        if !digit_char(s[i]) {
            return None;
        }
        total = total * 10 + value_of(s[i]) as u64;
        if total > 0xFFFF_FFFF {
            proof {
                lemma_digits_grow(t, i + 1 - from, t.len() as int);
            }
            return None;
        }
        i = i + 1;
    }
    proof {
        assert(i - from == t.len());
    }
    Some(total as u32)
}

/// Where a character first stands, from a place on.
pub open spec fn first_of(s: Seq<char>, c: char, from: int) -> Option<int>
    decreases s.len() - from,
{
    if from < 0 || from >= s.len() {
        None
    } else if s[from] == c {
        Some(from)
    } else {
        first_of(s, c, from + 1)
    }
}

/// Where a character first stands, from a place on.
pub fn find_char(s: &[char], c: char, from: usize) -> (r: Option<usize>)
    requires
        from <= s@.len(),
    ensures
        match r {
            Some(at) => first_of(s@, c, from as int) == Some(at as int) && from <= at < s@.len(),
            None => first_of(s@, c, from as int) is None,
        },
{
    let mut i: usize = from;
    while i < s.len()
        invariant
            from <= i <= s@.len(),
            first_of(s@, c, from as int) == first_of(s@, c, i as int),
        decreases s@.len() - i,
    {
        if s[i] == c {
            return Some(i);
        }
        i = i + 1;
    }
    None
}

/// The lines of a text, from a place on.
pub open spec fn lines_from(s: Seq<char>, from: int) -> Seq<Seq<char>>
    decreases s.len() - from,
{
    if from < 0 || from > s.len() {
        Seq::empty()
    } else {
        match first_of(s, '\n', from) {
            Some(at) if from <= at < s.len() => seq![s.subrange(from, at)] + lines_from(s, at + 1),
            _ => seq![s.subrange(from, s.len() as int)],
        }
    }
}

/// The lines of the first texts of a list, one behind the other.
pub open spec fn lines_in(list: Seq<Seq<char>>, n: int) -> Seq<Seq<char>>
    decreases n,
{
    if n <= 0 {
        Seq::empty()
    } else {
        lines_in(list, n - 1) + lines_from(list[n - 1], 0)
    }
}

proof fn lemma_first_of(s: Seq<char>, c: char, from: int)
    requires
        0 <= from <= s.len(),
    ensures
        match first_of(s, c, from) {
            Some(at) => from <= at < s.len() && forall|i: int| from <= i < at ==> s[i] != c,
            None => forall|i: int| from <= i < s.len() ==> s[i] != c,
        },
    decreases s.len() - from,
{
    if from < s.len() && s[from] != c {
        lemma_first_of(s, c, from + 1);
    }
}

/// The lines of a text hold no line break.
pub proof fn lemma_lines_unbroken(s: Seq<char>, from: int)
    requires
        0 <= from,
    ensures
        forall|i: int| 0 <= i < lines_from(s, from).len() ==> !(#[trigger] lines_from(s, from)[i]).contains('\n'),
    decreases s.len() - from,
{
    if from <= s.len() {
        lemma_first_of(s, '\n', from);
        match first_of(s, '\n', from) {
            Some(at) => {
                lemma_lines_unbroken(s, at + 1);
                let rest = lines_from(s, at + 1);
                assert(lines_from(s, from) == seq![s.subrange(from, at)] + rest);
                assert forall|i: int| 0 <= i < lines_from(s, from).len() implies !(#[trigger] lines_from(
                    s,
                    from,
                )[i]).contains('\n') by {
                    if i > 0 {
                        assert(lines_from(s, from)[i] == rest[i - 1]);
                    }
                }
            },
            None => {},
        }
    }
}

/// The lines of texts hold no line break.
pub proof fn lemma_all_lines_unbroken(list: Seq<Seq<char>>, n: int)
    ensures
        forall|i: int| 0 <= i < lines_in(list, n).len() ==> !(#[trigger] lines_in(list, n)[i]).contains('\n'),
    decreases n,
{
    if n > 0 {
        lemma_all_lines_unbroken(list, n - 1);
        lemma_lines_unbroken(list[n - 1], 0);
        let before = lines_in(list, n - 1);
        let last = lines_from(list[n - 1], 0);
        assert forall|i: int| 0 <= i < lines_in(list, n).len() implies !(#[trigger] lines_in(list, n)[i]).contains(
            '\n',
        ) by {
            if i < before.len() {
                assert(lines_in(list, n)[i] == before[i]);
            } else {
                assert(lines_in(list, n)[i] == last[i - before.len()]);
            }
        }
    }
}

/// Where a character last stands before a place.
pub open spec fn last_of(s: Seq<char>, c: char, until: int) -> Option<int>
    decreases until,
{
    if until <= 0 {
        None
    } else if s[until - 1] == c {
        Some(until - 1)
    } else {
        last_of(s, c, until - 1)
    }
}

/// Where a character last stands.
pub fn find_last(s: &[char], c: char) -> (r: Option<usize>)
    ensures
        match r {
            Some(at) => last_of(s@, c, s@.len() as int) == Some(at as int) && at < s@.len(),
            None => last_of(s@, c, s@.len() as int) is None,
        },
{
    let mut i: usize = s.len();
    while i > 0
        invariant
            i <= s@.len(),
            last_of(s@, c, s@.len() as int) == last_of(s@, c, i as int),
        decreases i,
    {
        if s[i - 1] == c {
            return Some(i - 1);
        }
        i = i - 1;
    }
    None
}

/// A text stands in another at a place.
pub open spec fn occurs(s: Seq<char>, part: Seq<char>, at: int) -> bool {
    0 <= at && at + part.len() <= s.len() && s.subrange(at, at + part.len()) == part
}

/// Where a text first stands in another, from a place on.
pub open spec fn found(s: Seq<char>, part: Seq<char>, from: int) -> Option<int>
    decreases s.len() + 1 - from,
{
    if from < 0 || from + part.len() > s.len() {
        None
    } else if occurs(s, part, from) {
        Some(from)
    } else {
        found(s, part, from + 1)
    }
}

/// Whether a text stands in another at a place.
pub fn occurs_at(s: &[char], part: &[char], at: usize) -> (r: bool)
    requires
        at <= s@.len(),
    ensures
        r == occurs(s@, part@, at as int),
{
    if part.len() > s.len() - at {
        return false;
    }
    let mut i: usize = 0;
    while i < part.len()
        invariant
            i <= part@.len(),
            at + part@.len() <= s@.len() <= usize::MAX,
            forall|k: int| 0 <= k < i ==> s@[at + k] == #[trigger] part@[k],
        decreases part@.len() - i,
    {
        if s[at + i] != part[i] {
            proof {
                assert(s@.subrange(at as int, at + part@.len())[i as int] == s@[at + i]);
            }
            return false;
        }
        i = i + 1;
    }
    proof {
        assert(s@.subrange(at as int, at + part@.len()) =~= part@);
    }
    true
}

/// Where a text first stands in another, from a place on.
pub fn find_text(s: &[char], part: &[char], from: usize) -> (r: Option<usize>)
    requires
        from <= s@.len(),
    ensures
        match r {
            Some(at) => found(s@, part@, from as int) == Some(at as int) && from <= at && at + part@.len() <= s@.len(),
            None => found(s@, part@, from as int) is None,
        },
{
    let mut i: usize = from;
    while part.len() <= s.len() - i
        invariant
            from <= i <= s@.len(),
            found(s@, part@, from as int) == found(s@, part@, i as int),
        decreases s@.len() - i,
    {
        if occurs_at(s, part, i) {
            return Some(i);
        }
        if i == s.len() {
            proof {
                assert(s@.subrange(i as int, i + part@.len()) =~= part@);
            }
            return None;
        }
        i = i + 1;
    }
    None
}

/// The line names this register from a place on, as opposed to one whose name it merely begins.
pub open spec fn names_from(line: Seq<char>, name: Seq<char>, from: int) -> bool
    decreases line.len() - from,
{
    match found(line, name, from) {
        None => false,
        Some(at) => if at < from || at + name.len() > line.len() {
            false
        } else if bare(line, name, at) {
            true
        } else if name.len() == 0 {
            false
        } else {
            names_from(line, name, at + name.len())
        },
    }
}

/// What stands at a place has no more of a name before or behind it.
pub open spec fn bare(line: Seq<char>, name: Seq<char>, at: int) -> bool {
    &&& !(at > 0 && is_ident(line[at - 1]))
    &&& !(at + name.len() < line.len() && is_ident(line[at + name.len()]))
}

/// Whether what stands at a place has no more of a name before or behind it.
pub(crate) fn bare_at(line: &[char], length: usize, at: usize, Ghost(name): Ghost<Seq<char>>) -> (r: bool)
    requires
        at + length <= line@.len(),
        name.len() == length,
    ensures
        r == bare(line@, name, at as int),
{
    if at > 0 && ident_char(line[at - 1]) {
        return false;
    }
    !(at + length < line.len() && ident_char(line[at + length]))
}

/// Whether a line names this register, as opposed to one whose name it merely begins.
pub fn mentions(line: &str, name: &str) -> (r: bool)
    ensures
        r == names_from(line@, name@, 0),
{
    let l = chars_of(line);
    let n = chars_of(name);
    let mut from: usize = 0;
    while from <= l.len()
        invariant
            from <= l@.len(),
            l@ == line@,
            n@ == name@,
            names_from(line@, name@, 0) == names_from(line@, name@, from as int),
        decreases l@.len() - from,
    {
        match find_text(l.as_slice(), n.as_slice(), from) {
            None => {
                return false;
            },
            Some(at) => {
                if bare_at(l.as_slice(), n.len(), at, Ghost(name@)) {
                    return true;
                }
                if n.len() == 0 {
                    return false;
                }
                from = at + n.len();
            },
        }
    }
    false
}

/// A name is, or is subscripted by, a register: what indexes a name is written into it rather than kept
/// beside it, so a register read there shows up in the text and nowhere else.
pub open spec fn mentioned(name: Seq<char>, base: Seq<char>) -> bool
    decreases name.len(),
{
    match found(name, base, 0) {
        None => false,
        Some(at) => {
            let next = at + base.len();
            if at < 0 || next > name.len() {
                false
            } else if !(at > 0 && is_word(name[at - 1])) && !(next < name.len() && is_word(name[next])) {
                true
            } else if base.len() == 0 {
                false
            } else {
                mentioned(name.skip(next), base)
            }
        },
    }
}

/// A name that goes on behind a register's is no mention of the register.
pub proof fn law_longer_name_is_no_mention(base: Seq<char>, c: char)
    requires
        base.len() >= 2,
        is_ident(c),
    ensures
        !mentioned(base.push(c), base),
{
    reveal_with_fuel(mentioned, 2);
    let name = base.push(c);
    assert(name.subrange(0, base.len() as int) =~= base);
    assert(name.skip(base.len() as int).len() == 1);
}

/// Whether a name is, or is subscripted by, a register.
pub fn mentions_word(name: &str, base: &str) -> (r: bool)
    ensures
        r == mentioned(name@, base@),
{
    let l = chars_of(name);
    let n = chars_of(base);
    let mut from: usize = 0;
    proof {
        assert(name@.skip(0) =~= name@);
    }
    while from <= l.len()
        invariant
            from <= l@.len(),
            l@ == name@,
            n@ == base@,
            mentioned(name@, base@) == mentioned(name@.skip(from as int), base@),
        decreases l@.len() - from,
    {
        let ghost rest = name@.skip(from as int);
        proof {
            lemma_found_skip(name@, base@, from as int, 0);
        }
        match find_text(l.as_slice(), n.as_slice(), from) {
            None => {
                return false;
            },
            Some(at) => {
                let next: usize = at + n.len();
                let before: bool = at > from && word_char(l[at - 1]);
                let behind: bool = next < l.len() && word_char(l[next]);
                if !before && !behind {
                    return true;
                }
                if n.len() == 0 {
                    return false;
                }
                proof {
                    assert(rest.skip(next - from) =~= name@.skip(next as int));
                }
                from = next;
            },
        }
    }
    false
}

proof fn lemma_found_skip(s: Seq<char>, part: Seq<char>, from: int, k: int)
    requires
        0 <= from <= s.len(),
        0 <= k,
    ensures
        match found(s, part, from + k) {
            Some(at) => found(s.skip(from), part, k) == Some(at - from),
            None => found(s.skip(from), part, k) is None,
        },
    decreases s.len() + 1 - from - k,
{
    let t = s.skip(from);
    if from + k + part.len() <= s.len() {
        assert(t.subrange(k, k + part.len()) =~= s.subrange(from + k, from + k + part.len()));
        if !occurs(s, part, from + k) {
            lemma_found_skip(s, part, from, k + 1);
        }
    }
}

/// The text behind the white space it starts with.
pub open spec fn trimmed(s: Seq<char>) -> Seq<char>
    decreases s.len(),
{
    if s.len() > 0 && whitespace(s[0]) {
        trimmed(s.skip(1))
    } else {
        s
    }
}

/// How much white space a text starts with.
pub fn leading(s: &[char]) -> (r: usize)
    ensures
        r <= s@.len(),
        s@.skip(r as int) == trimmed(s@),
{
    let mut i: usize = 0;
    proof {
        assert(s@.skip(0) =~= s@);
    }
    while i < s.len() && whitespace_char(s[i])
        invariant
            i <= s@.len(),
            trimmed(s@.skip(i as int)) == trimmed(s@),
        decreases s@.len() - i,
    {
        proof {
            assert(s@.skip(i as int).skip(1) =~= s@.skip(i + 1));
        }
        i = i + 1;
    }
    i
}

/// Four blanks for each block that a line stands in.
pub open spec fn indent(depth: nat) -> Seq<char> {
    repeated(' ', 4 * depth)
}

/// Four blanks for each block that a line stands in.
pub fn indentation(depth: usize) -> (r: String)
    ensures
        r@ == indent(depth as nat),
{
    let mut out = String::new();
    let mut i: usize = 0;
    proof {
        assert(out@ =~= indent(0));
    }
    while i < depth
        invariant
            i <= depth,
            out@ == indent(i as nat),
        decreases depth - i,
    {
        out.push(' ');
        out.push(' ');
        out.push(' ');
        out.push(' ');
        i = i + 1;
        proof {
            assert(out@ =~= indent(i as nat));
        }
    }
    out
}

} // verus!
