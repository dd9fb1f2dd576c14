//! What the finished body is tidied of: register numbers that run sparse and high, casts that only carry bits,
//! and components that say nothing.
use super::expr::{ends_with, starts_with};
use super::matrix::texts;
use super::words::{
    all_digits, alphabetic, alphabetic_char, bare, bare_at, digit_char, find_text, found, is_digit, is_ident, is_letter,
    ident_char, leading, letter_char, occurs_at, trimmed,
};
use crate::text::{cat2, cat3, cat5, chars_of, dec, decimal, from_chars, from_span, same};
use vstd::prelude::*;

verus! {

/// A register's name starts at a place: `r` and a digit, with no more of a name before it.
pub open spec fn register_starts(line: Seq<char>, at: int) -> bool {
    &&& 0 <= at
    &&& at + 1 < line.len()
    &&& line[at] == 'r'
    &&& is_digit(line[at + 1])
    &&& !(at > 0 && is_ident(line[at - 1]))
}

/// Where the digits from a place on end.
pub open spec fn digits_end(line: Seq<char>, at: int) -> int
    decreases line.len() - at,
{
    if 0 <= at < line.len() && is_digit(line[at]) {
        digits_end(line, at + 1)
    } else {
        at
    }
}

/// Where a name stands in a list, from an index on.
pub open spec fn position(list: Seq<Seq<char>>, name: Seq<char>, from: int) -> int
    decreases list.len() - from,
{
    if from < 0 || from >= list.len() || list[from] == name {
        from
    } else {
        position(list, name, from + 1)
    }
}

/// The list with a name in it.
pub open spec fn listed(list: Seq<Seq<char>>, name: Seq<char>) -> Seq<Seq<char>> {
    if position(list, name, 0) < list.len() {
        list
    } else {
        list.push(name)
    }
}

/// A line from a place on with its registers renumbered, and the names met so far. A register takes the number
/// of names met before it. `r1a` is somebody else's name; only digits then a break is a register, and the typed
/// copies of one lane carry it as a prefix (`r184_x`), so both move together.
pub open spec fn renamed(line: Seq<char>, at: int, met: Seq<Seq<char>>) -> (Seq<char>, Seq<Seq<char>>)
    decreases line.len() - at,
{
    if at < 0 || at >= line.len() {
        (Seq::empty(), met)
    } else if !register_starts(line, at) {
        let (rest, done) = renamed(line, at + 1, met);
        (seq![line[at]] + rest, done)
    } else {
        let end = digits_end(line, at + 1);
        let name = line.subrange(at, end);
        if end <= at || end > line.len() {
            (Seq::empty(), met)
        } else if end < line.len() && is_letter(line[end]) {
            let (rest, done) = renamed(line, end, met);
            (name + rest, done)
        } else {
            let (rest, done) = renamed(line, end, listed(met, name));
            ("r"@ + dec(position(met, name, 0) as nat) + rest, done)
        }
    }
}

/// The first lines with their registers renumbered, and the names met so far.
pub open spec fn renumbered(lines: Seq<Seq<char>>, n: int, met: Seq<Seq<char>>) -> (Seq<Seq<char>>, Seq<Seq<char>>)
    decreases n,
{
    if n <= 0 {
        (Seq::empty(), met)
    } else {
        let (before, had) = renumbered(lines, n - 1, met);
        let (line, done) = renamed(lines[n - 1], 0, had);
        (before.push(line), done)
    }
}

fn starts_register(line: &Vec<char>, at: usize) -> (r: bool)
    requires
        at < line@.len(),
    ensures
        r == register_starts(line@, at as int),
{
    line[at] == 'r' && line.len() - at > 1 && digit_char(line[at + 1]) && !(at > 0 && ident_char(line[at - 1]))
}

fn end_of_digits(line: &Vec<char>, at: usize) -> (r: usize)
    requires
        at <= line@.len(),
    ensures
        r == digits_end(line@, at as int),
        at <= r <= line@.len(),
{
    let mut i: usize = at;
    while i < line.len() && digit_char(line[i])
        invariant
            at <= i <= line@.len(),
            digits_end(line@, at as int) == digits_end(line@, i as int),
        decreases line@.len() - i,
    {
        i = i + 1;
    }
    i
}

fn place_of(list: &Vec<String>, name: &str) -> (r: usize)
    ensures
        r == position(texts(list@), name@, 0),
        r <= list@.len(),
{
    let ghost all = texts(list@);
    let mut i: usize = 0;
    while i < list.len()
        invariant
            i <= list@.len(),
            all == texts(list@),
            position(all, name@, 0) == position(all, name@, i as int),
        decreases list@.len() - i,
    {
        assert(all[i as int] == list@[i as int]@);
        if same(list[i].as_str(), name) {
            return i;
        }
        i = i + 1;
    }
    i
}

fn rename(line: &str, met: &mut Vec<String>) -> (r: String)
    ensures
        (r@, texts(final(met)@)) == renamed(line@, 0, texts(old(met)@)),
{
    let held = chars_of(line);
    let ghost want = renamed(line@, 0, texts(met@));
    let mut out = String::new();
    let mut at: usize = 0;
    proof {
        assert(out@ + want.0 =~= want.0);
    }
    while at < held.len()
        invariant
            at <= held@.len(),
            held@ == line@,
            want.0 == out@ + renamed(line@, at as int, texts(met@)).0,
            want.1 == renamed(line@, at as int, texts(met@)).1,
        decreases held@.len() - at,
    {
        let ghost before = out@;
        let ghost had = texts(met@);
        let ghost here = renamed(line@, at as int, had);
        if !starts_register(&held, at) {
            out.push(held[at]);
            proof {
                let rest = renamed(line@, at + 1, had).0;
                assert(out@ + rest =~= before + here.0);
            }
            at = at + 1;
        } else {
            let end: usize = end_of_digits(&held, at + 1);
            let name = from_span(held.as_slice(), at, end);
            if end < held.len() && letter_char(held[end]) {
                out.push_str(name.as_str());
                proof {
                    let rest = renamed(line@, end as int, had).0;
                    assert(out@ + rest =~= before + here.0);
                }
            } else {
                let place: usize = place_of(met, name.as_str());
                let d = decimal(place as u64);
                out.push_str("r");
                out.push_str(d.as_str());
                if place == met.len() {
                    let ghost n = name@;
                    met.push(name);
                    proof {
                        assert(texts(met@) =~= had.push(n));
                    }
                }
                proof {
                    let rest = renamed(line@, end as int, texts(met@)).0;
                    assert(out@ + rest =~= before + here.0);
                }
            }
            at = end;
        }
    }
    proof {
        assert(out@ =~= want.0);
    }
    out
}

fn rename_all(lines: &mut Vec<String>, met: &mut Vec<String>)
    ensures
        (texts(final(lines)@), texts(final(met)@)) == renumbered(
            texts(old(lines)@),
            old(lines)@.len() as int,
            texts(old(met)@),
        ),
{
    let ghost had = texts(lines@);
    let ghost start = texts(met@);
    let mut out: Vec<String> = Vec::new();
    let mut i: usize = 0;
    proof {
        assert(texts(out@) =~= renumbered(had, 0, start).0);
    }
    while i < lines.len()
        invariant
            i <= lines@.len(),
            had == texts(lines@),
            lines@ == old(lines)@,
            texts(out@) == renumbered(had, i as int, start).0,
            texts(met@) == renumbered(had, i as int, start).1,
        decreases lines@.len() - i,
    {
        let ghost before = texts(out@);
        assert(had[i as int] == lines@[i as int]@);
        let line = rename(lines[i].as_str(), met);
        let ghost t = line@;
        out.push(line);
        proof {
            assert(texts(out@) =~= before.push(t));
        }
        i = i + 1;
    }
    *lines = out;
}

/// Registers renumbered densely, in the order the body first mentions them.
pub fn renumber(body: &mut Vec<String>, others: &mut Vec<String>)
    ensures
        ({
            let first = renumbered(texts(old(body)@), old(body)@.len() as int, Seq::empty());
            &&& texts(final(body)@) == first.0
            &&& texts(final(others)@) == renumbered(texts(old(others)@), old(others)@.len() as int, first.1).0
        }),
{
    let mut met: Vec<String> = Vec::new();
    proof {
        assert(texts(met@) =~= Seq::<Seq<char>>::empty());
    }
    rename_all(body, &mut met);
    rename_all(others, &mut met);
}

/// How wide registers have to be declared, by name.
pub struct WidthModel {
    pub name: Seq<char>,
    pub wide: nat,
}

/// One past the component that a letter names, nought where it names none.
pub open spec fn lane_width(c: char) -> nat {
    if c == 'x' {
        1
    } else if c == 'y' {
        2
    } else if c == 'z' {
        3
    } else if c == 'w' {
        4
    } else {
        0
    }
}

/// One past the highest component that a run of letters from a place on names, nought where it names none.
pub open spec fn lanes_width(line: Seq<char>, at: int) -> nat
    decreases line.len() - at,
{
    if at < 0 || at >= line.len() || lane_width(line[at]) == 0 {
        0
    } else {
        let rest = lanes_width(line, at + 1);
        if lane_width(line[at]) > rest {
            lane_width(line[at])
        } else {
            rest
        }
    }
}

/// How wide a mention of a register that ends at a place is. One used with no swizzle at all is whatever it was,
/// which is four.
pub open spec fn mention_width(line: Seq<char>, end: int) -> nat {
    if 0 <= end < line.len() && line[end] == '.' && lanes_width(line, end + 1) > 0 {
        lanes_width(line, end + 1)
    } else {
        4
    }
}

/// The widths after a register was met at one.
pub open spec fn widened(table: Seq<WidthModel>, name: Seq<char>, wide: nat, from: int) -> Seq<WidthModel>
    decreases table.len() - from,
{
    if from < 0 || from >= table.len() {
        table.push(WidthModel { name, wide })
    } else if table[from].name == name {
        table.update(
            from,
            WidthModel {
                name,
                wide: if wide > table[from].wide {
                    wide
                } else {
                    table[from].wide
                },
            },
        )
    } else {
        widened(table, name, wide, from + 1)
    }
}

/// The widths of the registers that a line names, from a place on.
pub open spec fn widths_in(line: Seq<char>, at: int, table: Seq<WidthModel>) -> Seq<WidthModel>
    decreases line.len() - at,
{
    if at < 0 || at >= line.len() {
        table
    } else if !register_starts(line, at) {
        widths_in(line, at + 1, table)
    } else {
        let end = digits_end(line, at + 1);
        if end <= at || end > line.len() {
            table
        } else if end < line.len() && (alphabetic(line[end]) || line[end] == '_') {
            widths_in(line, end, table)
        } else {
            widths_in(line, end, widened(table, line.subrange(at, end), mention_width(line, end), 0))
        }
    }
}

/// How wide each register has to be declared: one past the highest component the first lines name. Components
/// are not remapped, so a register read at `.z` stays three wide even where nothing touches `.y`.
pub open spec fn widths_of(lines: Seq<Seq<char>>, n: int) -> Seq<WidthModel>
    decreases n,
{
    if n <= 0 {
        Seq::empty()
    } else {
        widths_in(lines[n - 1], 0, widths_of(lines, n - 1))
    }
}

/// How wide a register of a name has to be declared, where the body names it.
pub open spec fn width_named(table: Seq<WidthModel>, name: Seq<char>, from: int) -> Option<nat>
    decreases table.len() - from,
{
    if from < 0 || from >= table.len() {
        None
    } else if table[from].name == name {
        Some(table[from].wide)
    } else {
        width_named(table, name, from + 1)
    }
}

/// How wide a register has to be declared.
pub struct Width {
    pub name: String,
    pub wide: usize,
}

/// What each width of a list holds.
pub open spec fn width_models(table: Seq<Width>) -> Seq<WidthModel> {
    Seq::new(table.len(), |i: int| WidthModel { name: table[i].name@, wide: table[i].wide as nat })
}

fn letter_width(c: char) -> (r: usize)
    ensures
        r == lane_width(c),
{
    match c {
        'x' => 1,
        'y' => 2,
        'z' => 3,
        'w' => 4,
        _ => 0,
    }
}

fn letters_width(line: &Vec<char>, at: usize) -> (r: usize)
    requires
        at <= line@.len(),
    ensures
        r == lanes_width(line@, at as int),
        r <= 4,
    decreases line@.len() - at,
{
    if at >= line.len() {
        return 0;
    }
    let here: usize = letter_width(line[at]);
    if here == 0 {
        return 0;
    }
    let rest: usize = letters_width(line, at + 1);
    if here > rest {
        here
    } else {
        rest
    }
}

fn widen(table: &mut Vec<Width>, name: String, wide: usize)
    ensures
        width_models(final(table)@) == widened(width_models(old(table)@), name@, wide as nat, 0),
{
    let ghost before = width_models(table@);
    let mut i: usize = 0;
    while i < table.len()
        invariant
            i <= table@.len(),
            table@ == old(table)@,
            before == width_models(table@),
            widened(before, name@, wide as nat, 0) == widened(before, name@, wide as nat, i as int),
        decreases table@.len() - i,
    {
        assert(before[i as int].name == table@[i as int].name@);
        if same(table[i].name.as_str(), name.as_str()) {
            let held: usize = table[i].wide;
            let most: usize = if wide > held {
                wide
            } else {
                held
            };
            let ghost n = name@;
            table.set(i, Width { name, wide: most });
            proof {
                assert(width_models(table@) =~= before.update(i as int, WidthModel { name: n, wide: most as nat }));
            }
            return;
        }
        i = i + 1;
    }
    let ghost n = name@;
    table.push(Width { name, wide });
    proof {
        assert(width_models(table@) =~= before.push(WidthModel { name: n, wide: wide as nat }));
    }
}

fn add_widths(line: &str, table: &mut Vec<Width>)
    ensures
        width_models(final(table)@) == widths_in(line@, 0, width_models(old(table)@)),
{
    let held = chars_of(line);
    let ghost want = widths_in(line@, 0, width_models(table@));
    let mut at: usize = 0;
    while at < held.len()
        invariant
            at <= held@.len(),
            held@ == line@,
            want == widths_in(line@, at as int, width_models(table@)),
        decreases held@.len() - at,
    {
        if !starts_register(&held, at) {
            at = at + 1;
        } else {
            let end: usize = end_of_digits(&held, at + 1);
            if !(end < held.len() && (alphabetic_char(held[end]) || held[end] == '_')) {
                let name = from_span(held.as_slice(), at, end);
                let wide: usize = if end < held.len() && held[end] == '.' {
                    let named: usize = letters_width(&held, end + 1);
                    if named > 0 {
                        named
                    } else {
                        4
                    }
                } else {
                    4
                };
                widen(table, name, wide);
            }
            at = end;
        }
    }
}

/// How wide each register has to be declared.
pub fn widths(body: &Vec<String>) -> (r: Vec<Width>)
    ensures
        width_models(r@) == widths_of(texts(body@), body@.len() as int),
{
    let ghost lines = texts(body@);
    let mut table: Vec<Width> = Vec::new();
    let mut i: usize = 0;
    proof {
        assert(width_models(table@) =~= widths_of(lines, 0));
    }
    while i < body.len()
        invariant
            i <= body@.len(),
            lines == texts(body@),
            width_models(table@) == widths_of(lines, i as int),
        decreases body@.len() - i,
    {
        assert(lines[i as int] == body@[i as int]@);
        add_widths(body[i].as_str(), &mut table);
        i = i + 1;
    }
    table
}

/// How wide a register of a name has to be declared, where the body names it.
pub fn width_for(table: &Vec<Width>, name: &str) -> (r: Option<usize>)
    ensures
        match r {
            Some(wide) => width_named(width_models(table@), name@, 0) == Some(wide as nat),
            None => width_named(width_models(table@), name@, 0) is None,
        },
{
    let ghost all = width_models(table@);
    let mut i: usize = 0;
    while i < table.len()
        invariant
            i <= table@.len(),
            all == width_models(table@),
            width_named(all, name@, 0) == width_named(all, name@, i as int),
        decreases table@.len() - i,
    {
        assert(all[i as int].name == table@[i as int].name@);
        if same(table[i].name.as_str(), name) {
            return Some(table[i].wide);
        }
        i = i + 1;
    }
    None
}

/// What stands at a place is a whole name with nothing but its first component taken: `r1.xx` is a broadcast into
/// two components and still means something on a scalar.
pub open spec fn lone_x(line: Seq<char>, length: int, at: int) -> bool {
    &&& !(at > 0 && is_ident(line[at - 1]))
    &&& !(at + length < line.len() && lane_width(line[at + length]) > 0)
}

/// A line from a place on with `.x` taken off a register that holds nothing else.
pub open spec fn narrowed(line: Seq<char>, name: Seq<char>, from: int) -> Seq<char>
    decreases line.len() - from,
{
    let wanted = name + ".x"@;
    match found(line, wanted, from) {
        None => line,
        Some(at) => if at < from || wanted.len() <= name.len() || at + wanted.len() > line.len() {
            line
        } else if lone_x(line, wanted.len() as int, at) {
            narrowed(line.take(at) + name + line.skip(at + wanted.len()), name, at + name.len())
        } else {
            narrowed(line, name, at + wanted.len())
        },
    }
}

/// A line with `.x` taken off the first registers of a list that hold nothing else.
pub open spec fn narrowed_by(line: Seq<char>, table: Seq<WidthModel>, n: int) -> Seq<char>
    decreases n,
{
    if n <= 0 {
        line
    } else if table[n - 1].wide == 1 {
        narrowed(narrowed_by(line, table, n - 1), table[n - 1].name, 0)
    } else {
        narrowed_by(line, table, n - 1)
    }
}

fn spliced(line: &Vec<char>, from: usize, to: usize, part: &Vec<char>) -> (r: Vec<char>)
    requires
        from <= to <= line@.len(),
    ensures
        r@ == line@.take(from as int) + part@ + line@.skip(to as int),
{
    let mut out: Vec<char> = Vec::new();
    let mut i: usize = 0;
    while i < from
        invariant
            i <= from <= line@.len(),
            out@ == line@.take(i as int),
        decreases from - i,
    {
        out.push(line[i]);
        proof {
            assert(out@ =~= line@.take(i + 1));
        }
        i = i + 1;
    }
    let mut i: usize = 0;
    let ghost head = line@.take(from as int);
    proof {
        assert(out@ =~= head + part@.take(0));
    }
    while i < part.len()
        invariant
            i <= part@.len(),
            out@ == head + part@.take(i as int),
        decreases part@.len() - i,
    {
        out.push(part[i]);
        proof {
            assert(out@ =~= head + part@.take(i + 1));
        }
        i = i + 1;
    }
    let ghost both = head + part@;
    let ghost tail = line@.skip(to as int);
    let mut i: usize = to;
    proof {
        assert(part@.take(part@.len() as int) =~= part@);
        assert(out@ =~= both + tail.take(0));
    }
    while i < line.len()
        invariant
            to <= i <= line@.len(),
            tail == line@.skip(to as int),
            out@ == both + tail.take(i - to),
        decreases line@.len() - i,
    {
        out.push(line[i]);
        proof {
            assert(out@ =~= both + tail.take(i + 1 - to));
        }
        i = i + 1;
    }
    proof {
        assert(tail.take(i - to) =~= tail);
    }
    out
}

fn narrow_line(line: Vec<char>, name: &str) -> (r: Vec<char>)
    ensures
        r@ == narrowed(line@, name@, 0),
{
    let n = chars_of(name);
    let wanted_text = cat2(name, ".x");
    let wanted = chars_of(wanted_text.as_str());
    let mut text = line;
    let mut from: usize = 0;
    proof {
        reveal_strlit(".x");
    }
    loop
        invariant
            from <= text@.len(),
            n@ == name@,
            wanted@ == name@ + ".x"@,
            wanted@.len() == n@.len() + 2,
            narrowed(line@, name@, 0) == narrowed(text@, name@, from as int),
        decreases text@.len() - from,
    {
        let total: usize = text.len();
        match find_text(text.as_slice(), wanted.as_slice(), from) {
            None => {
                return text;
            },
            Some(at) => {
                let end: usize = at + wanted.len();
                let before: bool = at > 0 && ident_char(text[at - 1]);
                let behind: bool = end < total && letter_width(text[end]) > 0;
                if !before && !behind {
                    text = spliced(&text, at, end, &n);
                    from = at + n.len();
                } else {
                    from = end;
                }
            },
        }
    }
}

/// `.x` taken off the registers that hold nothing else, since a `float` has no other component.
pub fn narrow(body: &mut Vec<String>, table: &Vec<Width>)
    ensures
        final(body)@.len() == old(body)@.len(),
        forall|i: int|
            0 <= i < old(body)@.len() ==> (#[trigger] final(body)@[i])@ == narrowed_by(
                old(body)@[i]@,
                width_models(table@),
                table@.len() as int,
            ),
{
    let ghost all = width_models(table@);
    let mut out: Vec<String> = Vec::new();
    let mut i: usize = 0;
    while i < body.len()
        invariant
            i <= body@.len(),
            body@ == old(body)@,
            all == width_models(table@),
            out@.len() == i,
            forall|k: int| 0 <= k < i ==> (#[trigger] out@[k])@ == narrowed_by(body@[k]@, all, all.len() as int),
        decreases body@.len() - i,
    {
        let mut line = chars_of(body[i].as_str());
        let mut k: usize = 0;
        while k < table.len()
            invariant
                i < body@.len(),
                k <= table@.len(),
                all == width_models(table@),
                line@ == narrowed_by(body@[i as int]@, all, k as int),
            decreases table@.len() - k,
        {
            assert(all[k as int].name == table@[k as int].name@);
            if table[k].wide == 1 {
                line = narrow_line(line, table[k].name.as_str());
            }
            k = k + 1;
        }
        out.push(from_chars(line.as_slice()));
        i = i + 1;
    }
    *body = out;
}

/// The register that a line assigns whole.
pub open spec fn assigned_name(line: Seq<char>) -> Option<Seq<char>> {
    let t = trimmed(line);
    match found(t, " = "@, 0) {
        None => None,
        Some(at) => {
            let held = t.take(at);
            if held.len() > 0 && held[0] == 'r' && all_digits(held.skip(1)) {
                Some(held)
            } else {
                None
            }
        },
    }
}

/// A text stands before another in the order of their characters, from an index on.
pub open spec fn text_less(a: Seq<char>, b: Seq<char>, at: int) -> bool
    decreases a.len() - at,
{
    if at < 0 || at >= b.len() {
        false
    } else if at >= a.len() {
        true
    } else if a[at] != b[at] {
        a[at] < b[at]
    } else {
        text_less(a, b, at + 1)
    }
}

/// A sorted list with a text in its place, where it is not in it yet.
pub open spec fn placed(list: Seq<Seq<char>>, text: Seq<char>, from: int) -> Seq<Seq<char>>
    decreases list.len() - from,
{
    if from < 0 || from >= list.len() || text_less(text, list[from], 0) {
        list.insert(from, text)
    } else if list[from] == text {
        list
    } else {
        placed(list, text, from + 1)
    }
}

/// The registers that the first lines assign whole, in the order of their names.
pub open spec fn assigned_names(lines: Seq<Seq<char>>, n: int) -> Seq<Seq<char>>
    decreases n,
{
    if n <= 0 {
        Seq::empty()
    } else {
        match assigned_name(lines[n - 1]) {
            None => assigned_names(lines, n - 1),
            Some(name) => placed(assigned_names(lines, n - 1), name, 0),
        }
    }
}

/// Where the bracket closes that is open with others behind it, so many in all, from a place on.
pub open spec fn closing(text: Seq<char>, from: int, open: nat) -> Option<int>
    decreases text.len() - from,
{
    if from < 0 || from >= text.len() {
        None
    } else if text[from] == '(' {
        closing(text, from + 1, open + 1)
    } else if text[from] != ')' {
        closing(text, from + 1, open)
    } else if open <= 1 {
        Some(from)
    } else {
        closing(text, from + 1, (open - 1) as nat)
    }
}

/// What a line writes to a register through the cast that carries bits, where the cast is all that it writes: the
/// bracket that the cast opens closes at the end of the line.
pub open spec fn cast_value(line: Seq<char>, name: Seq<char>) -> Option<Seq<char>> {
    let t = trimmed(line);
    let write = name + " = asfloat("@;
    if starts_with(t, write) && ends_with(t, ");"@) && closing(t, write.len() as int, 1) == Some(t.len() - 2) {
        Some(t.subrange(write.len() as int, t.len() - 2))
    } else {
        None
    }
}

/// The cast that undoes it round a mention of a register: to unsigned, or to signed.
pub open spec fn undone_by(line: Seq<char>, at: int, next: int) -> Option<bool> {
    if !(next < line.len() && line[next] == ')') {
        None
    } else if ends_with(line.take(at), "asuint("@) {
        Some(true)
    } else if ends_with(line.take(at), "asint("@) {
        Some(false)
    } else {
        None
    }
}

/// Whether every mention of a register in a line, from a place on, is one of the two casts undoing it, always the
/// same one, and which.
pub open spec fn undone(line: Seq<char>, name: Seq<char>, from: int, kind: Option<bool>) -> (bool, Option<bool>)
    decreases line.len() - from,
{
    match found(line, name, from) {
        None => (true, kind),
        Some(at) => {
            let next = at + name.len();
            if at < from || name.len() == 0 || next > line.len() {
                (true, kind)
            } else if !bare(line, name, at) {
                undone(line, name, next, kind)
            } else if undone_by(line, at, next) is Some && (kind is None || kind == undone_by(line, at, next)) {
                undone(line, name, next, undone_by(line, at, next))
            } else {
                (false, kind)
            }
        },
    }
}

/// What the first lines say of a register: whether one writes it through the cast, whether every mention but those
/// writes undoes that, and with which cast.
pub struct Tally {
    pub written: bool,
    pub usable: bool,
    pub kind: Option<bool>,
}

/// What the first lines say of a register.
pub open spec fn tally(lines: Seq<Seq<char>>, n: int, name: Seq<char>) -> Tally
    decreases n,
{
    if n <= 0 {
        Tally { written: false, usable: true, kind: None }
    } else {
        let before = tally(lines, n - 1, name);
        if !before.usable {
            before
        } else {
            match cast_value(lines[n - 1], name) {
                Some(value) => {
                    let (usable, kind) = undone(value, name, 0, before.kind);
                    Tally { written: true, usable, kind }
                },
                None => {
                    let (usable, kind) = undone(lines[n - 1], name, 0, before.kind);
                    Tally { written: before.written, usable, kind }
                },
            }
        }
    }
}

/// A text with another put in place of each place where a third stands, from a place on.
pub open spec fn replaced(line: Seq<char>, part: Seq<char>, other: Seq<char>, from: int) -> Seq<char>
    decreases line.len() - from,
{
    match found(line, part, from) {
        None => line.skip(from),
        Some(at) => if at < from || part.len() == 0 || at + part.len() > line.len() {
            line.skip(from)
        } else {
            line.subrange(from, at) + other + replaced(line, part, other, at + part.len())
        },
    }
}

/// The name of a cast, with its bracket.
pub open spec fn cast_name(unsigned: bool) -> Seq<char> {
    if unsigned {
        "asuint("@
    } else {
        "asint("@
    }
}

/// A line without the casts round a register. What it starts with stays.
pub open spec fn uncast_line(line: Seq<char>, name: Seq<char>, unsigned: bool) -> Seq<char> {
    let read = cast_name(unsigned) + name + ")"@;
    match cast_value(line, name) {
        Some(value) => line.take(line.len() - trimmed(line).len()) + name + " = "@ + replaced(value, read, name, 0) + ";"@,
        None => replaced(line, read, name, 0),
    }
}

/// The body and the registers that turned out to carry bits, with whether those are unsigned.
pub struct Uncast {
    pub lines: Seq<Seq<char>>,
    pub kinds: Seq<(Seq<char>, bool)>,
}

/// The body after the first registers of a list were looked at. The machine has one register file and it is
/// untyped, so an integer travelling in one is written through `asfloat` and read back through `asuint`. Where
/// every write is that cast and every read undoes it with the same one, the casts say nothing the declaration
/// cannot, and both come off.
pub open spec fn uncast_by(lines: Seq<Seq<char>>, names: Seq<Seq<char>>, n: int) -> Uncast
    decreases n,
{
    if n <= 0 {
        Uncast { lines, kinds: Seq::empty() }
    } else {
        let before = uncast_by(lines, names, n - 1);
        let name = names[n - 1];
        let said = tally(before.lines, before.lines.len() as int, name);
        if said.usable && said.written && said.kind is Some {
            Uncast {
                lines: Seq::new(before.lines.len(), |i: int| uncast_line(before.lines[i], name, said.kind->0)),
                kinds: before.kinds.push((name, said.kind->0)),
            }
        } else {
            before
        }
    }
}

/// The body with the casts off the registers that only carry bits, and those registers.
pub open spec fn uncasted(lines: Seq<Seq<char>>) -> Uncast {
    let names = assigned_names(lines, lines.len() as int);
    uncast_by(lines, names, names.len() as int)
}

/// Whether a register carries unsigned bits, or signed ones.
pub open spec fn kind_of(kinds: Seq<(Seq<char>, bool)>, name: Seq<char>, from: int) -> Option<bool>
    decreases kinds.len() - from,
{
    if from < 0 || from >= kinds.len() {
        None
    } else if kinds[from].0 == name {
        Some(kinds[from].1)
    } else {
        kind_of(kinds, name, from + 1)
    }
}

fn name_assigned(line: &str) -> (r: Option<String>)
    ensures
        match r {
            Some(name) => assigned_name(line@) == Some(name@),
            None => assigned_name(line@) is None,
        },
{
    let all = chars_of(line);
    let lead: usize = leading(all.as_slice());
    let total: usize = all.len();
    let text = from_span(all.as_slice(), lead, total);
    let t = chars_of(text.as_str());
    proof {
        assert(t@ =~= trimmed(line@));
    }
    let part = chars_of(" = ");
    match find_text(t.as_slice(), part.as_slice(), 0) {
        None => None,
        Some(at) => {
            let ghost held = t@.take(at as int);
            if at == 0 || t[0] != 'r' {
                return None;
            }
            let mut i: usize = 1;
            while i < at
                invariant
                    1 <= i <= at <= t@.len(),
                    t@ == trimmed(line@),
                    found(t@, " = "@, 0) == Some(at as int),
                    held == t@.take(at as int),
                    forall|k: int| 0 <= k < i - 1 ==> is_digit(#[trigger] held.skip(1)[k]),
                decreases at - i,
            {
                assert(held.skip(1)[i - 1] == t@[i as int]);
                if !digit_char(t[i]) {
                    return None;
                }
                i = i + 1;
            }
            proof {
                assert(t@.subrange(0, at as int) =~= held);
            }
            Some(from_span(t.as_slice(), 0, at))
        },
    }
}

fn less(a: &Vec<char>, b: &Vec<char>) -> (r: bool)
    ensures
        r == text_less(a@, b@, 0),
{
    let mut i: usize = 0;
    loop
        invariant
            i <= a@.len(),
            i <= b@.len(),
            text_less(a@, b@, 0) == text_less(a@, b@, i as int),
        decreases a@.len() - i,
    {
        if i >= b.len() {
            return false;
        }
        if i >= a.len() {
            return true;
        }
        if a[i] != b[i] {
            return a[i] < b[i];
        }
        i = i + 1;
    }
}

/// Put a text in its place in a sorted list, where it is not in it yet.
pub fn place(list: &mut Vec<String>, text: String)
    ensures
        texts(final(list)@) == placed(texts(old(list)@), text@, 0),
{
    let ghost before = texts(list@);
    let t = chars_of(text.as_str());
    let mut i: usize = 0;
    while i < list.len()
        invariant_except_break
            placed(before, text@, 0) == placed(before, text@, i as int),
        invariant
            i <= list@.len(),
            list@ == old(list)@,
            before == texts(list@),
            t@ == text@,
        ensures
            placed(before, text@, 0) == before.insert(i as int, text@),
        decreases list@.len() - i,
    {
        assert(before[i as int] == list@[i as int]@);
        let held = chars_of(list[i].as_str());
        if less(&t, &held) {
            break;
        }
        if same(list[i].as_str(), text.as_str()) {
            return;
        }
        i = i + 1;
    }
    let ghost m = text@;
    list.insert(i, text);
    proof {
        assert(texts(list@) =~= before.insert(i as int, m));
    }
}

/// The text behind the white space it starts with.
fn trim(line: &str) -> (r: Vec<char>)
    ensures
        r@ == trimmed(line@),
{
    let all = chars_of(line);
    let lead: usize = leading(all.as_slice());
    let total: usize = all.len();
    let text = from_span(all.as_slice(), lead, total);
    let t = chars_of(text.as_str());
    proof {
        assert(t@ =~= trimmed(line@));
    }
    t
}

fn begins_with(text: &Vec<char>, head: &Vec<char>) -> (r: bool)
    ensures
        r == starts_with(text@, head@),
{
    proof {
        if text@.len() >= head@.len() {
            assert(text@.subrange(0, head@.len() as int) == text@.subrange(0int, 0int + head@.len()));
        }
    }
    occurs_at(text.as_slice(), head.as_slice(), 0)
}

fn finishes_with(text: &Vec<char>, tail: &Vec<char>, end: usize) -> (r: bool)
    requires
        end <= text@.len(),
    ensures
        r == ends_with(text@.take(end as int), tail@),
{
    if tail.len() > end {
        return false;
    }
    let from: usize = end - tail.len();
    proof {
        assert(text@.take(end as int).subrange(from as int, end as int) =~= text@.subrange(from as int, end as int));
    }
    occurs_at(text.as_slice(), tail.as_slice(), from)
}

fn closing_bracket(text: &Vec<char>, from: usize) -> (r: Option<usize>)
    requires
        from <= text@.len(),
    ensures
        match r {
            Some(at) => closing(text@, from as int, 1) == Some(at as int),
            None => closing(text@, from as int, 1) is None,
        },
{
    let mut i: usize = from;
    let mut within: usize = 0;
    while i < text.len()
        invariant
            from <= i <= text@.len(),
            within <= i - from,
            closing(text@, from as int, 1) == closing(text@, i as int, 1 + within as nat),
        decreases text@.len() - i,
    {
        if text[i] == '(' {
            within = within + 1;
        } else if text[i] == ')' {
            if within == 0 {
                return Some(i);
            }
            within = within - 1;
        }
        i = i + 1;
    }
    None
}

proof fn lemma_closing_behind(text: Seq<char>, from: int, open: nat)
    requires
        closing(text, from, open) is Some,
    ensures
        from <= closing(text, from, open)->0 < text.len(),
    decreases text.len() - from,
{
    if text[from] == '(' {
        lemma_closing_behind(text, from + 1, open + 1);
    } else if text[from] != ')' {
        lemma_closing_behind(text, from + 1, open);
    } else if open > 1 {
        lemma_closing_behind(text, from + 1, (open - 1) as nat);
    }
}

fn written_cast(line: &str, name: &str) -> (r: Option<String>)
    ensures
        match r {
            Some(value) => cast_value(line@, name@) == Some(value@),
            None => cast_value(line@, name@) is None,
        },
{
    let t = trim(line);
    let head_text = cat2(name, " = asfloat(");
    let head = chars_of(head_text.as_str());
    let tail = chars_of(");");
    let total: usize = t.len();
    proof {
        assert(t@.take(total as int) =~= t@);
    }
    if !begins_with(&t, &head) || !finishes_with(&t, &tail, total) {
        return None;
    }
    match closing_bracket(&t, head.len()) {
        None => None,
        Some(at) => {
            proof {
                lemma_closing_behind(t@, head@.len() as int, 1);
                reveal_strlit(");");
            }
            if at == total - 2 {
                Some(from_span(t.as_slice(), head.len(), at))
            } else {
                None
            }
        },
    }
}

fn cast_round(line: &Vec<char>, at: usize, next: usize) -> (r: Option<bool>)
    requires
        at <= next <= line@.len(),
    ensures
        r == undone_by(line@, at as int, next as int),
{
    if next >= line.len() || line[next] != ')' {
        return None;
    }
    let unsigned = chars_of("asuint(");
    if finishes_with(line, &unsigned, at) {
        return Some(true);
    }
    let signed = chars_of("asint(");
    if finishes_with(line, &signed, at) {
        return Some(false);
    }
    None
}

fn mentions_undone(line: &str, name: &str, kind: Option<bool>) -> (r: (bool, Option<bool>))
    ensures
        r == undone(line@, name@, 0, kind),
{
    let l = chars_of(line);
    let n = chars_of(name);
    let mut from: usize = 0;
    let mut held: Option<bool> = kind;
    loop
        invariant
            from <= l@.len(),
            l@ == line@,
            n@ == name@,
            undone(line@, name@, 0, kind) == undone(line@, name@, from as int, held),
        decreases l@.len() - from,
    {
        let total: usize = l.len();
        match find_text(l.as_slice(), n.as_slice(), from) {
            None => {
                return (true, held);
            },
            Some(at) => {
                if n.len() == 0 {
                    return (true, held);
                }
                let next: usize = at + n.len();
                if bare_at(l.as_slice(), n.len(), at, Ghost(name@)) {
                    match cast_round(&l, at, next) {
                        None => {
                            return (false, held);
                        },
                        Some(one) => {
                            match held {
                                Some(other) => {
                                    if other != one {
                                        return (false, held);
                                    }
                                },
                                None => {},
                            }
                            held = Some(one);
                        },
                    }
                }
                from = next;
            },
        }
    }
}

/// What a register's mentions say of it.
struct Said {
    written: bool,
    usable: bool,
    kind: Option<bool>,
}

fn tally_of(lines: &Vec<String>, name: &str) -> (r: Said)
    ensures
        (Tally { written: r.written, usable: r.usable, kind: r.kind }) == tally(
            texts(lines@),
            lines@.len() as int,
            name@,
        ),
{
    let ghost all = texts(lines@);
    let mut said = Said { written: false, usable: true, kind: None };
    let mut i: usize = 0;
    while i < lines.len()
        invariant
            i <= lines@.len(),
            all == texts(lines@),
            (Tally { written: said.written, usable: said.usable, kind: said.kind }) == tally(all, i as int, name@),
        decreases lines@.len() - i,
    {
        assert(all[i as int] == lines@[i as int]@);
        if said.usable {
            match written_cast(lines[i].as_str(), name) {
                Some(value) => {
                    let (usable, kind) = mentions_undone(value.as_str(), name, said.kind);
                    said.written = true;
                    said.usable = usable;
                    said.kind = kind;
                },
                None => {
                    let (usable, kind) = mentions_undone(lines[i].as_str(), name, said.kind);
                    said.usable = usable;
                    said.kind = kind;
                },
            }
        }
        i = i + 1;
    }
    said
}

fn push_span(out: &mut Vec<char>, from: &Vec<char>, start: usize, end: usize)
    requires
        start <= end <= from@.len(),
    ensures
        final(out)@ == old(out)@ + from@.subrange(start as int, end as int),
{
    let mut i: usize = start;
    proof {
        assert(out@ =~= old(out)@ + from@.subrange(start as int, start as int));
    }
    while i < end
        invariant
            start <= i <= end <= from@.len(),
            out@ == old(out)@ + from@.subrange(start as int, i as int),
        decreases end - i,
    {
        out.push(from[i]);
        proof {
            assert(out@ =~= old(out)@ + from@.subrange(start as int, i + 1));
        }
        i = i + 1;
    }
}

fn replace_all(line: &str, part: &str, other: &str) -> (r: String)
    requires
        part@.len() > 0,
    ensures
        r@ == replaced(line@, part@, other@, 0),
{
    let l = chars_of(line);
    let p = chars_of(part);
    let o = chars_of(other);
    let ghost want = replaced(line@, part@, other@, 0);
    let mut out: Vec<char> = Vec::new();
    let mut from: usize = 0;
    let total: usize = l.len();
    proof {
        assert(out@ + want =~= want);
    }
    loop
        invariant
            from <= l@.len(),
            total == l@.len(),
            l@ == line@,
            p@ == part@,
            o@ == other@,
            part@.len() > 0,
            want == replaced(line@, part@, other@, 0),
            want == out@ + replaced(line@, part@, other@, from as int),
        decreases l@.len() - from,
    {
        let ghost before = out@;
        match find_text(l.as_slice(), p.as_slice(), from) {
            None => {
                push_span(&mut out, &l, from, total);
                proof {
                    assert(line@.skip(from as int) =~= l@.subrange(from as int, total as int));
                    assert(out@ =~= want);
                }
                return from_chars(out.as_slice());
            },
            Some(at) => {
                push_span(&mut out, &l, from, at);
                push_span(&mut out, &o, 0, o.len());
                proof {
                    let rest = replaced(line@, part@, other@, at + part@.len());
                    assert(o@.subrange(0, o@.len() as int) =~= other@);
                    assert(out@ =~= before + line@.subrange(from as int, at as int) + other@);
                    assert(out@ + rest =~= before + replaced(line@, part@, other@, from as int));
                }
                from = at + p.len();
            },
        }
    }
}

fn without_cast(line: &str, name: &str, unsigned: bool) -> (r: String)
    ensures
        r@ == uncast_line(line@, name@, unsigned),
{
    let cast = if unsigned {
        "asuint("
    } else {
        "asint("
    };
    let part = cat3(cast, name, ")");
    proof {
        reveal_strlit(")");
    }
    match written_cast(line, name) {
        Some(value) => {
            let all = chars_of(line);
            let lead: usize = leading(all.as_slice());
            let start = from_span(all.as_slice(), 0, lead);
            let inner = replace_all(value.as_str(), part.as_str(), name);
            proof {
                assert(line@.take(line@.len() - trimmed(line@).len()) =~= start@);
            }
            cat5(start.as_str(), name, " = ", inner.as_str(), ";")
        },
        None => replace_all(line, part.as_str(), name),
    }
}

/// Registers that only carry bits, with whether those are unsigned.
pub struct Kind {
    pub name: String,
    pub unsigned: bool,
}

/// What each kind of a list holds.
pub open spec fn kind_models(kinds: Seq<Kind>) -> Seq<(Seq<char>, bool)> {
    Seq::new(kinds.len(), |i: int| (kinds[i].name@, kinds[i].unsigned))
}

/// The body rewritten so that registers that only carry bits do so under the type those bits are, and those
/// registers. Bit-preserving in both directions, which is what makes it safe: the declared type changes to the
/// one the bits already were.
pub fn uncast(body: &mut Vec<String>) -> (r: Vec<Kind>)
    ensures
        texts(final(body)@) == uncasted(texts(old(body)@)).lines,
        kind_models(r@) == uncasted(texts(old(body)@)).kinds,
{
    let ghost start = texts(body@);
    let mut names: Vec<String> = Vec::new();
    let mut i: usize = 0;
    proof {
        assert(texts(names@) =~= assigned_names(start, 0));
    }
    while i < body.len()
        invariant
            i <= body@.len(),
            body@ == old(body)@,
            start == texts(body@),
            texts(names@) == assigned_names(start, i as int),
        decreases body@.len() - i,
    {
        assert(start[i as int] == body@[i as int]@);
        if let Some(name) = name_assigned(body[i].as_str()) {
            place(&mut names, name);
        }
        i = i + 1;
    }
    let ghost all = texts(names@);
    let mut kinds: Vec<Kind> = Vec::new();
    let mut k: usize = 0;
    proof {
        assert(kind_models(kinds@) =~= uncast_by(start, all, 0).kinds);
    }
    while k < names.len()
        invariant
            k <= names@.len(),
            start == texts(old(body)@),
            all == texts(names@),
            texts(body@) == uncast_by(start, all, k as int).lines,
            kind_models(kinds@) == uncast_by(start, all, k as int).kinds,
        decreases names@.len() - k,
    {
        let ghost before = uncast_by(start, all, k as int);
        assert(all[k as int] == names@[k as int]@);
        let said = tally_of(body, names[k].as_str());
        proof {
            assert(before.lines.len() == body@.len());
        }
        if said.usable && said.written {
            if let Some(unsigned) = said.kind {
                let mut out: Vec<String> = Vec::new();
                let mut j: usize = 0;
                while j < body.len()
                    invariant
                        k < names@.len(),
                        j <= body@.len(),
                        before.lines == texts(body@),
                        out@.len() == j,
                        forall|m: int|
                            0 <= m < j ==> (#[trigger] out@[m])@ == uncast_line(
                                before.lines[m],
                                names@[k as int]@,
                                unsigned,
                            ),
                    decreases body@.len() - j,
                {
                    assert(before.lines[j as int] == body@[j as int]@);
                    out.push(without_cast(body[j].as_str(), names[k].as_str(), unsigned));
                    j = j + 1;
                }
                proof {
                    assert(texts(out@) =~= Seq::new(
                        before.lines.len(),
                        |i: int| uncast_line(before.lines[i], all[k as int], unsigned),
                    ));
                }
                *body = out;
                let ghost had = kind_models(kinds@);
                kinds.push(Kind { name: names[k].clone(), unsigned });
                proof {
                    assert(kind_models(kinds@) =~= had.push((all[k as int], unsigned)));
                }
            }
        }
        k = k + 1;
    }
    proof {
        assert(all.len() == names@.len());
    }
    kinds
}

/// Whether a register carries unsigned bits, or signed ones.
pub fn kind_for(kinds: &Vec<Kind>, name: &str) -> (r: Option<bool>)
    ensures
        r == kind_of(kind_models(kinds@), name@, 0),
{
    let ghost all = kind_models(kinds@);
    let mut i: usize = 0;
    while i < kinds.len()
        invariant
            i <= kinds@.len(),
            all == kind_models(kinds@),
            kind_of(all, name@, 0) == kind_of(all, name@, i as int),
        decreases kinds@.len() - i,
    {
        assert(all[i as int].0 == kinds@[i as int].name@);
        if same(kinds[i].name.as_str(), name) {
            return Some(kinds[i].unsigned);
        }
        i = i + 1;
    }
    None
}

} // verus!
