//! What the declarations owe the body that they stand before: a register is declared wide enough for every component
//! that the body names of it and no wider than it has to be, and the casts come off a register only where every
//! mention of it stands inside the same one.

use super::expr::ends_with;
use super::tidy::{
    cast_value, closing, digits_end, lane_width, lanes_width, mention_width, placed, register_starts, replaced, tally,
    text_less, undone, undone_by, width_named, widened, widths_in, widths_of, WidthModel,
};
use super::words::{alphabetic, bare, found, is_digit, occurs};
use vstd::prelude::*;

verus! {

/// A letter that names a component.
pub open spec fn names_component(c: char) -> bool {
    c == 'x' || c == 'y' || c == 'z' || c == 'w'
}

proof fn lemma_lanes_width(line: Seq<char>, at: int, k: int)
    requires
        0 <= at <= k < line.len(),
        forall|j: int| at <= j <= k ==> names_component(#[trigger] line[j]),
    ensures
        lanes_width(line, at) >= lane_width(line[k]),
    decreases k - at,
{
    assert(names_component(line[at]));
    if at < k {
        lemma_lanes_width(line, at + 1, k);
    }
}

proof fn lemma_lanes_reach(line: Seq<char>, at: int)
    requires
        0 <= at <= line.len(),
    ensures
        lanes_width(line, at) <= 4,
    decreases line.len() - at,
{
    if at < line.len() {
        lemma_lanes_reach(line, at + 1);
    }
}

/// A register that is mentioned with a component is as wide as that component is far: a mention of `.x` asks for one,
/// of `.y` for two, of `.z` for three and of `.w` for four, wherever the letter stands among those of the mention.
/// One mentioned without a point is four wide, and none is wider.
pub proof fn law_mention_takes_in_its_components(line: Seq<char>, end: int, k: int)
    requires
        0 <= end <= line.len(),
    ensures
        1 <= mention_width(line, end) <= 4,
        end == line.len() || line[end] != '.' ==> mention_width(line, end) == 4,
        ({
            &&& end < k < line.len()
            &&& line[end] == '.'
            &&& forall|j: int| end < j <= k ==> names_component(#[trigger] line[j])
        }) ==> {
            &&& line[k] == 'x' ==> mention_width(line, end) >= 1
            &&& line[k] == 'y' ==> mention_width(line, end) >= 2
            &&& line[k] == 'z' ==> mention_width(line, end) >= 3
            &&& line[k] == 'w' ==> mention_width(line, end) >= 4
        },
        end + 1 < line.len() && line[end] == '.' && line[end + 1] == 'x' && (end + 2 == line.len()
            || !names_component(line[end + 2])) ==> mention_width(line, end) == 1,
{
    if end < line.len() {
        lemma_lanes_reach(line, end + 1);
        if end < k < line.len() && line[end] == '.' && (forall|j: int|
            end < j <= k ==> names_component(#[trigger] line[j])) {
            lemma_lanes_width(line, end + 1, k);
            assert(names_component(line[k]));
        }
        if end + 1 < line.len() {
            reveal_with_fuel(lanes_width, 3);
        }
    }
}

/// A register of a name is mentioned at a place of a line, so wide.
pub open spec fn mentioned(line: Seq<char>, at: int, name: Seq<char>, wide: nat) -> bool {
    let end = digits_end(line, at + 1);
    &&& register_starts(line, at)
    &&& !(end < line.len() && (alphabetic(line[end]) || line[end] == '_'))
    &&& name == line.subrange(at, end)
    &&& wide == mention_width(line, end)
}

proof fn lemma_digits_end(line: Seq<char>, at: int)
    requires
        0 <= at <= line.len(),
    ensures
        at <= digits_end(line, at) <= line.len(),
        forall|k: int| at <= k < digits_end(line, at) ==> is_digit(#[trigger] line[k]),
    decreases line.len() - at,
{
    if at < line.len() && is_digit(line[at]) {
        lemma_digits_end(line, at + 1);
    }
}

proof fn lemma_widened(table: Seq<WidthModel>, name: Seq<char>, wide: nat, other: Seq<char>, from: int)
    requires
        0 <= from <= table.len(),
    ensures
        ({
            let after = widened(table, name, wide, from);
            let was = width_named(table, other, from);
            let now = width_named(after, other, from);
            &&& after.len() >= table.len()
            &&& forall|k: int| 0 <= k < from ==> after[k] == table[k]
            &&& other != name ==> now == was
            &&& other == name ==> now is Some && now->0 >= wide && (now->0 == wide || now == was)
            &&& was is Some ==> now is Some && now->0 >= was->0
        }),
    decreases table.len() - from,
{
    let after = widened(table, name, wide, from);
    reveal_with_fuel(width_named, 2);
    if from >= table.len() {
        assert(after[from] == (WidthModel { name, wide }));
    } else if table[from].name == name {
        assert(after[from].name == name);
        if other != name {
            lemma_named_agree(table, after, other, from + 1);
        }
    } else {
        lemma_widened(table, name, wide, other, from + 1);
        assert(after == widened(table, name, wide, from + 1));
        assert(after[from] == table[from]);
    }
}

proof fn lemma_named_agree(a: Seq<WidthModel>, b: Seq<WidthModel>, name: Seq<char>, from: int)
    requires
        0 <= from <= a.len(),
        a.len() == b.len(),
        forall|k: int| from <= k < a.len() ==> a[k] == b[k],
    ensures
        width_named(a, name, from) == width_named(b, name, from),
    decreases a.len() - from,
{
    if from < a.len() {
        lemma_named_agree(a, b, name, from + 1);
    }
}

proof fn lemma_widths_in(line: Seq<char>, at: int, table: Seq<WidthModel>, name: Seq<char>)
    requires
        0 <= at <= line.len(),
    ensures
        ({
            let was = width_named(table, name, 0);
            let now = width_named(widths_in(line, at, table), name, 0);
            &&& was is Some ==> now is Some && now->0 >= was->0
            &&& forall|p: int, wide: nat|
                at <= p && #[trigger] mentioned(line, p, name, wide) ==> now is Some && now->0 >= wide
            &&& now is Some ==> now == was || exists|p: int| at <= p && #[trigger] mentioned(line, p, name, now->0)
        }),
    decreases line.len() - at,
{
    let was = width_named(table, name, 0);
    let now = width_named(widths_in(line, at, table), name, 0);
    if at < line.len() {
        if !register_starts(line, at) {
            lemma_widths_in(line, at + 1, table, name);
            assert forall|p: int, wide: nat| at <= p && #[trigger] mentioned(line, p, name, wide) implies now is Some
                && now->0 >= wide by {
                assert(p != at);
            }
        } else {
            lemma_digits_end(line, at + 1);
            let end = digits_end(line, at + 1);
            assert(end > at + 1) by {
                lemma_digits_end(line, at + 2);
            }
            let passes = !(end < line.len() && (alphabetic(line[end]) || line[end] == '_'));
            let here = line.subrange(at, end);
            let next = if passes {
                widened(table, here, mention_width(line, end), 0)
            } else {
                table
            };
            assert(widths_in(line, at, table) == widths_in(line, end, next));
            lemma_widened(table, here, mention_width(line, end), name, 0);
            lemma_widths_in(line, end, next, name);
            assert forall|p: int, wide: nat| at <= p && #[trigger] mentioned(line, p, name, wide) implies now is Some
                && now->0 >= wide by {
                if at < p < end {
                    assert(is_digit(line[p]));
                } else if p == at {
                    assert(name == here);
                    assert(wide == mention_width(line, end));
                }
            }
            if now is Some && now != was && now == width_named(next, name, 0) {
                assert(passes && name == here && now->0 == mention_width(line, end));
                assert(mentioned(line, at, name, now->0));
            }
        }
    }
}

/// A register is declared wide enough: at least as wide as each of its mentions in the body is, whichever line it
/// stands in and wherever in the line.
pub proof fn law_register_is_wide_enough(
    lines: Seq<Seq<char>>,
    n: int,
    i: int,
    at: int,
    name: Seq<char>,
    wide: nat,
)
    requires
        0 <= i < n <= lines.len(),
        0 <= at,
        mentioned(lines[i], at, name, wide),
    ensures
        width_named(widths_of(lines, n), name, 0) is Some,
        width_named(widths_of(lines, n), name, 0)->0 >= wide,
    decreases n,
{
    lemma_widths_in(lines[n - 1], 0, widths_of(lines, n - 1), name);
    if i < n - 1 {
        law_register_is_wide_enough(lines, n - 1, i, at, name, wide);
    }
}

/// A register is declared no wider than the body asks for: some line mentions it just as wide as it is declared. A
/// register that no line mentions has no width.
pub proof fn law_register_is_no_wider(lines: Seq<Seq<char>>, n: int, name: Seq<char>)
    requires
        0 <= n <= lines.len(),
        width_named(widths_of(lines, n), name, 0) is Some,
    ensures
        exists|i: int, at: int|
            0 <= i < n && 0 <= at && #[trigger] mentioned(
                lines[i],
                at,
                name,
                width_named(widths_of(lines, n), name, 0)->0,
            ),
    decreases n,
{
    if n > 0 {
        let now = width_named(widths_of(lines, n), name, 0);
        lemma_widths_in(lines[n - 1], 0, widths_of(lines, n - 1), name);
        if exists|p: int| 0 <= p && #[trigger] mentioned(lines[n - 1], p, name, now->0) {
            let p = choose|p: int| 0 <= p && #[trigger] mentioned(lines[n - 1], p, name, now->0);
            assert(mentioned(lines[n - 1], p, name, now->0));
        } else {
            law_register_is_no_wider(lines, n - 1, name);
        }
    }
}

/// A name that starts nowhere inside itself.
pub open spec fn starts_once(name: Seq<char>) -> bool {
    name.len() > 0 && forall|k: int| 0 < k < name.len() ==> #[trigger] name[k] != name[0]
}

/// A text is found in another where it first stands from a place on, and is not found only where it does not stand.
pub proof fn law_part_is_found_first(s: Seq<char>, part: Seq<char>, from: int)
    requires
        0 <= from,
    ensures
        found(s, part, from) is Some ==> found(s, part, from)->0 >= from && occurs(s, part, found(s, part, from)->0),
        forall|p: int|
            from <= p && #[trigger] occurs(s, part, p) ==> found(s, part, from) is Some && found(s, part, from)->0
                <= p,
    decreases s.len() + 1 - from,
{
    if from + part.len() <= s.len() && !occurs(s, part, from) {
        law_part_is_found_first(s, part, from + 1);
        assert forall|p: int| from <= p && #[trigger] occurs(s, part, p) implies found(s, part, from) is Some
            && found(s, part, from)->0 <= p by {
            assert(p != from);
        }
    }
}

proof fn lemma_undone(line: Seq<char>, name: Seq<char>, from: int, kind: Option<bool>)
    requires
        0 <= from <= line.len(),
        starts_once(name),
        undone(line, name, from, kind).0,
    ensures
        kind is Some ==> undone(line, name, from, kind).1 == kind,
        forall|p: int|
            from <= p && #[trigger] occurs(line, name, p) && bare(line, name, p) ==> undone_by(
                line,
                p,
                p + name.len(),
            ) is Some && undone_by(line, p, p + name.len()) == undone(line, name, from, kind).1,
    decreases line.len() - from,
{
    law_part_is_found_first(line, name, from);
    if found(line, name, from) is Some {
        let at = found(line, name, from)->0;
        let next = at + name.len();
        let by = undone_by(line, at, next);
        if bare(line, name, at) {
            lemma_undone(line, name, next, by);
        } else {
            lemma_undone(line, name, next, kind);
        }
        assert forall|p: int| from <= p && #[trigger] occurs(line, name, p) && bare(line, name, p) implies undone_by(
            line,
            p,
            p + name.len(),
        ) is Some && undone_by(line, p, p + name.len()) == undone(line, name, from, kind).1 by {
            if at < p < next {
                assert(line.subrange(p, p + name.len())[0] == line[p]);
                assert(line.subrange(at, next)[p - at] == line[p]);
                assert(name[p - at] == name[0]);
            }
        }
    }
}

/// The part of a line in which mentions of a register are reads of it: all of it, unless the line writes the register
/// through the cast that carries bits, and then what it writes.
pub open spec fn read_part(line: Seq<char>, name: Seq<char>) -> Seq<char> {
    match cast_value(line, name) {
        Some(value) => value,
        None => line,
    }
}

proof fn lemma_tally(lines: Seq<Seq<char>>, n: int, i: int, name: Seq<char>, p: int)
    requires
        0 <= i < n <= lines.len(),
        0 <= p,
        starts_once(name),
        tally(lines, n, name).usable,
        occurs(read_part(lines[i], name), name, p),
        bare(read_part(lines[i], name), name, p),
    ensures
        tally(lines, n, name).kind is Some,
        undone_by(read_part(lines[i], name), p, p + name.len()) == tally(lines, n, name).kind,
    decreases n,
{
    let before = tally(lines, n - 1, name);
    assert(before.usable);
    lemma_undone(read_part(lines[n - 1], name), name, 0, before.kind);
    if i < n - 1 {
        lemma_tally(lines, n - 1, i, name, p);
    }
}

/// Where the casts may come off a register, every mention of it that is read stands in brackets of a cast that undoes
/// the one it was written through, and it is the same cast at each of them: unsigned everywhere or signed everywhere.
pub proof fn law_casts_are_undone_everywhere(lines: Seq<Seq<char>>, n: int, i: int, name: Seq<char>, p: int)
    requires
        0 <= i < n <= lines.len(),
        0 <= p,
        starts_once(name),
        tally(lines, n, name).usable,
        occurs(read_part(lines[i], name), name, p),
        bare(read_part(lines[i], name), name, p),
    ensures
        ({
            let text = read_part(lines[i], name);
            let kind = tally(lines, n, name).kind;
            &&& p + name.len() < text.len()
            &&& text[p + name.len()] == ')'
            &&& kind == Some(true) || kind == Some(false)
            &&& kind == Some(true) ==> ends_with(text.take(p), "asuint("@)
            &&& kind == Some(false) ==> ends_with(text.take(p), "asint("@)
        }),
{
    lemma_tally(lines, n, i, name, p);
}

/// How many more brackets open than close between two places of a text.
pub open spec fn depth(text: Seq<char>, from: int, to: int) -> int
    decreases to - from,
{
    if from >= to {
        0
    } else {
        depth(text, from, to - 1) + if text[to - 1] == '(' {
            1int
        } else if text[to - 1] == ')' {
            -1int
        } else {
            0int
        }
    }
}

proof fn lemma_depth_from(text: Seq<char>, from: int, to: int)
    requires
        from < to,
    ensures
        depth(text, from, to) == depth(text, from, from + 1) + depth(text, from + 1, to),
    decreases to - from,
{
    reveal_with_fuel(depth, 2);
    if from + 1 < to {
        lemma_depth_from(text, from, to - 1);
    }
}

/// The bracket that closes is the one that belongs to the open one: what stands between holds as many brackets that
/// open as close, and nowhere before it have more closed than opened. Where none is found, none closes it.
pub proof fn law_bracket_is_closed_by_its_own(text: Seq<char>, from: int, open: nat)
    requires
        0 <= from <= text.len(),
        open >= 1,
    ensures
        match closing(text, from, open) {
            Some(end) => {
                &&& from <= end < text.len()
                &&& text[end] == ')'
                &&& open + depth(text, from, end) == 1
                &&& forall|m: int| from <= m <= end ==> open + #[trigger] depth(text, from, m) >= 1
            },
            None => forall|m: int| from <= m <= text.len() ==> open + #[trigger] depth(text, from, m) >= 1,
        },
    decreases text.len() - from,
{
    reveal_with_fuel(depth, 2);
    if from < text.len() {
        let here = depth(text, from, from + 1);
        let last = match closing(text, from, open) {
            Some(end) => end,
            None => text.len() as int,
        };
        if text[from] == '(' {
            law_bracket_is_closed_by_its_own(text, from + 1, open + 1);
        } else if text[from] != ')' {
            law_bracket_is_closed_by_its_own(text, from + 1, open);
        } else if open > 1 {
            law_bracket_is_closed_by_its_own(text, from + 1, (open - 1) as nat);
        }
        if !(text[from] == ')' && open <= 1) {
            assert forall|m: int| from <= m <= last implies open + #[trigger] depth(text, from, m) >= 1 by {
                if m > from {
                    lemma_depth_from(text, from, m);
                    assert((open + here) + depth(text, from + 1, m) >= 1);
                }
            }
            if last > from {
                lemma_depth_from(text, from, last);
            }
        }
    }
}

proof fn lemma_text_less(a: Seq<char>, b: Seq<char>, at: int, k: int)
    requires
        0 <= at <= k <= a.len(),
        k < b.len(),
        forall|j: int| at <= j < k ==> a[j] == b[j],
        k == a.len() || a[k] < b[k],
    ensures
        text_less(a, b, at),
        !text_less(b, a, at),
    decreases k - at,
{
    if at < k {
        lemma_text_less(a, b, at + 1, k);
    }
}

/// Of two texts that agree up to some place, the one that ends there or has the lesser character there stands first,
/// and the other does not. No text stands before itself.
pub proof fn law_texts_go_by_the_first_difference(a: Seq<char>, b: Seq<char>, k: int)
    requires
        0 <= k <= a.len(),
        k < b.len(),
        forall|j: int| 0 <= j < k ==> a[j] == b[j],
        k == a.len() || a[k] < b[k],
    ensures
        text_less(a, b, 0),
        !text_less(b, a, 0),
        !text_less(a, a, 0),
{
    lemma_text_less(a, b, 0, k);
    lemma_not_before_itself(a, 0);
}

proof fn lemma_not_before_itself(a: Seq<char>, at: int)
    requires
        0 <= at <= a.len(),
    ensures
        !text_less(a, a, at),
    decreases a.len() - at,
{
    if at < a.len() {
        lemma_not_before_itself(a, at + 1);
    }
}

proof fn lemma_text_order(a: Seq<char>, b: Seq<char>, c: Seq<char>, at: int)
    requires
        0 <= at <= a.len(),
        at <= b.len(),
        at <= c.len(),
        forall|j: int| 0 <= j < at ==> a[j] == b[j],
    ensures
        a == b || text_less(a, b, at) || text_less(b, a, at),
        text_less(a, b, at) && text_less(b, c, at) ==> text_less(a, c, at),
    decreases a.len() - at,
{
    if at < a.len() && at < b.len() && a[at] == b[at] {
        if at < c.len() {
            lemma_text_order(a, b, c, at + 1);
        } else {
            lemma_text_order(a, b, b, at + 1);
        }
    } else if at == a.len() && at == b.len() {
        assert(a =~= b);
    }
}

/// The texts of a list stand in order, each before every one behind it.
pub open spec fn in_order(list: Seq<Seq<char>>) -> bool {
    forall|i: int, j: int| 0 <= i < j < list.len() ==> text_less(#[trigger] list[i], #[trigger] list[j], 0)
}

proof fn lemma_placed(list: Seq<Seq<char>>, text: Seq<char>, from: int)
    requires
        0 <= from <= list.len(),
        in_order(list),
        forall|i: int| 0 <= i < from ==> text_less(#[trigger] list[i], text, 0),
    ensures
        in_order(placed(list, text, from)),
        list.contains(text) ==> placed(list, text, from) == list,
    decreases list.len() - from,
{
    lemma_not_before_itself(text, 0);
    if from >= list.len() || text_less(text, list[from], 0) {
        let after = list.insert(from, text);
        assert forall|i: int, j: int| 0 <= i < j < after.len() implies text_less(
            #[trigger] after[i],
            #[trigger] after[j],
            0,
        ) by {
            let x = if i < from { i } else { i - 1 };
            let y = if j < from { j } else { j - 1 };
            if i != from {
                assert(after[i] == list[x]);
            }
            if j != from {
                assert(after[j] == list[y]);
            }
            if i == from && y > from {
                assert(text_less(list[from], list[y], 0));
                lemma_text_order(text, list[from], list[y], 0);
            }
        }
        if list.contains(text) {
            let k = choose|k: int| 0 <= k < list.len() && list[k] == text;
            if k < from {
                assert(text_less(list[k], text, 0));
            } else if k > from {
                assert(text_less(list[from], list[k], 0));
                lemma_text_order(text, list[from], text, 0);
            }
        }
    } else if list[from] != text {
        lemma_text_order(text, list[from], text, 0);
        assert forall|i: int| 0 <= i < from + 1 implies text_less(#[trigger] list[i], text, 0) by {
            if i == from {
                assert(text_less(list[from], text, 0));
            }
        }
        lemma_placed(list, text, from + 1);
    }
}

/// A list in order stays in order when a text is put in its place, and one that holds the text stays as it is.
pub proof fn law_list_stays_in_order(list: Seq<Seq<char>>, text: Seq<char>)
    requires
        in_order(list),
    ensures
        in_order(placed(list, text, 0)),
        list.contains(text) ==> placed(list, text, 0) == list,
{
    lemma_placed(list, text, 0);
}

proof fn lemma_replaced_by_itself(line: Seq<char>, part: Seq<char>, from: int)
    requires
        0 <= from <= line.len(),
    ensures
        replaced(line, part, part, from) == line.skip(from),
    decreases line.len() - from,
{
    law_part_is_found_first(line, part, from);
    if found(line, part, from) is Some && part.len() > 0 {
        let at = found(line, part, from)->0;
        lemma_replaced_by_itself(line, part, at + part.len());
        assert(line.subrange(at, at + part.len()) == part);
        assert(line.subrange(from, at) + part + line.skip(at + part.len()) =~= line.skip(from));
    }
}

/// Putting a text in its own place changes nothing: what stands between the places is kept as it was, and no place is
/// passed twice. A text that does not hold the part at all stays whole, whatever was to stand there.
pub proof fn law_replacing_keeps_the_rest(line: Seq<char>, part: Seq<char>, other: Seq<char>)
    ensures
        replaced(line, part, part, 0) == line,
        (forall|p: int| 0 <= p ==> !occurs(line, part, p)) ==> replaced(line, part, other, 0) == line,
{
    lemma_replaced_by_itself(line, part, 0);
    assert(line.skip(0) =~= line);
    law_part_is_found_first(line, part, 0);
}

} // verus!
