//! What searches find.
use crate::container::{kind_of, ChunkKind, RawChunk};
use crate::hlsl::declared::{law_part_is_found_first, starts_once};
use crate::hlsl::words::{bare, first_of, found, last_of, lines_from, names_from, occurs, trimmed, whitespace};
use crate::shader::first_of_kind;
use crate::trial::{chunk_outcomes, first_difference, trial_of};
use crate::util::cstring_end;
use vstd::prelude::*;

verus! {

/// The first difference of two runs of bytes lies where one of them ends or where they differ, and before it they are
/// the same.
pub proof fn law_difference_is_the_first(a: Seq<u8>, b: Seq<u8>, from: int)
    requires
        0 <= from <= a.len(),
        from <= b.len(),
    ensures
        ({
            let at = first_difference(a, b, from);
            &&& from <= at <= a.len()
            &&& at <= b.len()
            &&& forall|i: int| from <= i < at ==> a[i] == b[i]
            &&& at < a.len() && at < b.len() ==> a[at] != b[at]
        }),
    decreases a.len() - from,
{
    if from < a.len() && from < b.len() && a[from] == b[from] {
        law_difference_is_the_first(a, b, from + 1);
    }
}

/// A string in a run of bytes ends at the first null byte, or where the run does.
pub proof fn law_string_ends_at_the_first_null(data: Seq<u8>, at: int)
    requires
        0 <= at <= data.len(),
    ensures
        ({
            let end = cstring_end(data, at);
            &&& at <= end <= data.len()
            &&& forall|i: int| at <= i < end ==> data[i] != 0
            &&& end < data.len() ==> data[end] == 0
        }),
    decreases data.len() - at,
{
    if at < data.len() && data[at] != 0 {
        law_string_ends_at_the_first_null(data, at + 1);
    }
}

/// A character is found where it first stands and, from the end, where it last stands; it is not found only where it
/// does not stand at all.
pub proof fn law_character_is_found(s: Seq<char>, c: char, from: int, until: int)
    requires
        0 <= from <= s.len(),
        0 <= until <= s.len(),
    ensures
        match first_of(s, c, from) {
            Some(at) => from <= at < s.len() && s[at] == c && forall|i: int| from <= i < at ==> s[i] != c,
            None => forall|i: int| from <= i < s.len() ==> s[i] != c,
        },
        match last_of(s, c, until) {
            Some(at) => 0 <= at < until && s[at] == c && forall|i: int| at < i < until ==> s[i] != c,
            None => forall|i: int| 0 <= i < until ==> s[i] != c,
        },
    decreases s.len() - from, until,
{
    if from < s.len() && s[from] != c {
        law_character_is_found(s, c, from + 1, until);
    } else if until > 0 && s[until - 1] != c {
        law_character_is_found(s, c, from, until - 1);
    }
}

proof fn lemma_named(line: Seq<char>, name: Seq<char>, from: int)
    requires
        0 <= from <= line.len(),
        starts_once(name),
    ensures
        names_from(line, name, from) ==> exists|p: int|
            from <= p && #[trigger] occurs(line, name, p) && bare(line, name, p),
        forall|p: int|
            from <= p && #[trigger] occurs(line, name, p) && bare(line, name, p) ==> names_from(line, name, from),
    decreases line.len() - from,
{
    law_part_is_found_first(line, name, from);
    if found(line, name, from) is Some {
        let at = found(line, name, from)->0;
        let next = at + name.len();
        if !bare(line, name, at) {
            lemma_named(line, name, next);
            assert forall|p: int|
                from <= p && #[trigger] occurs(line, name, p) && bare(line, name, p) implies names_from(
                line,
                name,
                from,
            ) by {
                if at < p < next {
                    assert(line.subrange(p, p + name.len())[0] == line[p]);
                    assert(line.subrange(at, next)[p - at] == line[p]);
                    assert(name[p - at] == name[0]);
                }
            }
        }
    }
}

/// A line names a register exactly where the name stands in it with no more of a name before or behind it.
pub proof fn law_line_names_what_stands_alone(line: Seq<char>, name: Seq<char>)
    requires
        starts_once(name),
    ensures
        names_from(line, name, 0) <==> exists|p: int|
            0 <= p && #[trigger] occurs(line, name, p) && bare(line, name, p),
{
    lemma_named(line, name, 0);
}

/// A text without the white space that it starts with starts with none, and only white space was taken off.
pub proof fn law_trimmed_starts_with_a_word(s: Seq<char>)
    ensures
        trimmed(s).len() <= s.len(),
        trimmed(s) == s.skip(s.len() - trimmed(s).len()),
        forall|i: int| 0 <= i < s.len() - trimmed(s).len() ==> whitespace(#[trigger] s[i]),
        trimmed(s).len() > 0 ==> !whitespace(trimmed(s)[0]),
    decreases s.len(),
{
    if s.len() > 0 && whitespace(s[0]) {
        let rest = s.skip(1);
        law_trimmed_starts_with_a_word(rest);
        assert(rest.skip(rest.len() - trimmed(rest).len()) =~= s.skip(s.len() - trimmed(s).len()));
        assert forall|i: int| 0 <= i < s.len() - trimmed(s).len() implies whitespace(#[trigger] s[i]) by {
            if i > 0 {
                assert(rest[i - 1] == s[i]);
            }
        }
    } else {
        assert(s.skip(0) =~= s);
    }
}

/// Lines with a break between each two.
pub open spec fn rejoined(lines: Seq<Seq<char>>) -> Seq<char>
    decreases lines.len(),
{
    if lines.len() == 0 {
        Seq::empty()
    } else if lines.len() == 1 {
        lines[0]
    } else {
        lines[0].push('\n') + rejoined(lines.skip(1))
    }
}

/// The lines of a text make up the text again, and hold no break.
pub proof fn law_lines_make_up_the_text(s: Seq<char>, from: int)
    requires
        0 <= from <= s.len(),
    ensures
        lines_from(s, from).len() > 0,
        rejoined(lines_from(s, from)) == s.skip(from),
        forall|i: int| 0 <= i < lines_from(s, from).len() ==> !(#[trigger] lines_from(s, from)[i]).contains('\n'),
    decreases s.len() - from,
{
    law_character_is_found(s, '\n', from, 0);
    let all = lines_from(s, from);
    match first_of(s, '\n', from) {
        Some(at) => {
            law_lines_make_up_the_text(s, at + 1);
            let rest = lines_from(s, at + 1);
            assert(all == seq![s.subrange(from, at)] + rest);
            assert(all.skip(1) =~= rest);
            assert(all[0] == s.subrange(from, at));
            assert(s.subrange(from, at).push('\n') + s.skip(at + 1) =~= s.skip(from));
            assert forall|i: int| 0 <= i < all.len() implies !(#[trigger] all[i]).contains('\n') by {
                if i > 0 {
                    assert(all[i] == rest[i - 1]);
                }
            }
        },
        None => {
            assert(all == seq![s.subrange(from, s.len() as int)]);
            assert(s.subrange(from, s.len() as int) =~= s.skip(from));
        },
    }
}

/// The chunk that is found of a kind is the first of it, and none is found only where there is none.
pub proof fn law_chunk_is_the_first_of_its_kind(chunks: Seq<RawChunk>, wanted: ChunkKind, from: int)
    requires
        0 <= from <= chunks.len(),
    ensures
        match first_of_kind(chunks, wanted, from) {
            Some(at) => {
                &&& from <= at < chunks.len()
                &&& kind_of(chunks[at].fourcc@) == wanted
                &&& forall|i: int| from <= i < at ==> kind_of((#[trigger] chunks[i]).fourcc@) != wanted
            },
            None => forall|i: int| from <= i < chunks.len() ==> kind_of((#[trigger] chunks[i]).fourcc@) != wanted,
        },
    decreases chunks.len() - from,
{
    if from < chunks.len() && kind_of(chunks[from].fourcc@) != wanted {
        law_chunk_is_the_first_of_its_kind(chunks, wanted, from + 1);
    }
}

/// Every chunk that holds a program is tried, under its own number and that of its container.
pub proof fn law_every_program_is_tried(at: usize, chunks: Seq<RawChunk>, n: int, i: int)
    requires
        0 <= i < n <= chunks.len() <= usize::MAX,
        kind_of(chunks[i].fourcc@) is Shader,
    ensures
        exists|k: int|
            0 <= k < chunk_outcomes(at, chunks, n).len() && (#[trigger] chunk_outcomes(at, chunks, n)[k]).chunk == i
                && chunk_outcomes(at, chunks, n)[k].container == at && chunk_outcomes(at, chunks, n)[k].trial == trial_of(
                chunks[i].data@,
                chunks[i].fourcc,
            ),
    decreases n,
{
    let before = chunk_outcomes(at, chunks, n - 1);
    let all = chunk_outcomes(at, chunks, n);
    if i == n - 1 {
        assert(all[before.len() as int].chunk == i);
    } else {
        law_every_program_is_tried(at, chunks, n - 1, i);
        let k = choose|k: int|
            0 <= k < before.len() && (#[trigger] before[k]).chunk == i && before[k].container == at && before[k].trial
                == trial_of(chunks[i].data@, chunks[i].fourcc);
        assert(all[k] == before[k]);
    }
}

} // verus!
