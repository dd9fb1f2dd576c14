//! Transform recovery: matrix multiplies and constructors, out of their unrolled pieces.
//!
//! Three things arrive here in pieces, since the machine has no instruction for a transform. Sometimes it is
//! one dot product per row of the result, each landing in its own component, and sometimes it is each row of
//! the matrix scaled by the component of the vector that picks it out, summed in one expression. Either way,
//! four of them against the same vector are the most recognisable thing in a vertex shader. And a register
//! filled a few components at a time is one value, which a constructor says in a line.
//!
//! Rows are assembled with a constructor rather than by naming the matrix, except where the run covers a
//! declared matrix from its first row: a constructor takes its arguments in source order whatever the packing,
//! whereas naming the matrix means `mul` depends on how it was declared.
use super::expr::{
    binary, binary_model, call, call2, call_model, component_count, copy_bytes, lane, lane_letter, lane_letters, letters,
    lemma_call_model, models, named, rendered, same_bytes, same_expr, unary, unary_model, choice, choice_model, Expr,
    ExprModel,
};
use super::names::{by_key, settled, unkeyed, Buffer, BufferModel, Names};
use super::words::{
    find_char, find_last, first_of, indent, indentation, last_of, mentioned, mentions_word, number_of, occurs, occurs_at,
    parse_number,
};
use crate::text::{cat2, cat3, cat4, cat5, chars_of, dec, decimal, from_span, same};
use vstd::prelude::*;

verus! {

/// One emitted assignment, kept beside its text so a run of them can be recognised.
#[derive(Clone)]
pub struct Emitted {
    /// Block nesting it was written at, since a run has to sit in one block.
    pub depth: usize,
    /// The register it was assigned to, under the name it goes by from that line on.
    pub base: String,
    /// Components of `base` it wrote.
    pub lanes: Vec<u8>,
    /// The value assigned, which is what a run is recognised from.
    pub expr: Expr,
}

/// What an emitted assignment holds.
pub struct EmittedModel {
    pub depth: nat,
    pub base: Seq<char>,
    pub lanes: Seq<u8>,
    pub expr: ExprModel,
}

impl Emitted {
    /// What the assignment holds.
    pub open spec fn view(&self) -> EmittedModel {
        EmittedModel { depth: self.depth as nat, base: self.base@, lanes: self.lanes@, expr: self.expr@ }
    }

    /// A copy of the assignment.
    pub fn duplicate(&self) -> (r: Self)
        ensures
            r@ == self@,
    {
        Emitted {
            depth: self.depth,
            base: self.base.clone(),
            lanes: copy_bytes(self.lanes.as_slice()),
            expr: self.expr.duplicate(),
        }
    }
}

/// What a line assigns, where it assigns anything.
pub open spec fn line_model(line: Option<Emitted>) -> Option<EmittedModel> {
    match line {
        Some(held) => Some(held@),
        None => None,
    }
}

/// What each line of a list assigns.
pub open spec fn line_models(lines: Seq<Option<Emitted>>) -> Seq<Option<EmittedModel>> {
    Seq::new(lines.len(), |i: int| line_model(lines[i]))
}

/// A copy of what a line assigns.
pub fn copy_line(line: &Option<Emitted>) -> (r: Option<Emitted>)
    ensures
        line_model(r) == line_model(*line),
{
    match line {
        Some(held) => Some(held.duplicate()),
        None => None,
    }
}

/// Shortest run worth folding. Two dot products are as clear written out, and a matrix of two rows is rare
/// enough that calling one would mislead more than it helped.
pub const SHORTEST: usize = 3;

/// A row of a matrix: where it is read from, which element of that, and how much of it is taken.
pub struct RowModel {
    pub matrix: Seq<char>,
    pub index: Seq<char>,
    pub columns: Seq<u8>,
}

struct Row {
    matrix: String,
    index: String,
    columns: Vec<u8>,
}

impl Row {
    spec fn view(&self) -> RowModel {
        RowModel { matrix: self.matrix@, index: self.index@, columns: self.columns@ }
    }
}

/// A name without the bracket a row of a declared matrix arrives in, since components cannot be taken off one
/// directly.
pub open spec fn unbracketed(base: Seq<char>) -> Seq<char> {
    let b = if base.len() > 0 && base[0] == '(' {
        base.skip(1)
    } else {
        base
    };
    if b.len() > 0 && b.last() == ')' {
        b.drop_last()
    } else {
        b
    }
}

/// A row of a matrix, where an expression is one. The last index is the row: an array of matrices carries the
/// element in front of it, and that element is what the row belongs to.
pub open spec fn row_of(e: ExprModel) -> Option<RowModel> {
    match e {
        ExprModel::Read { base, swizzle } => {
            let b = unbracketed(base);
            match last_of(b, '[', b.len() as int) {
                None => None,
                Some(open) => if b.last() == ']' {
                    Some(RowModel { matrix: b.take(open), index: b.subrange(open + 1, b.len() - 1), columns: swizzle })
                } else {
                    None
                },
            }
        },
        _ => None,
    }
}

proof fn lemma_last_of(s: Seq<char>, c: char, until: int)
    requires
        0 <= until <= s.len(),
    ensures
        last_of(s, c, until) matches Some(at) ==> 0 <= at < until && s[at] == c,
    decreases until,
{
    if until > 0 && s[until - 1] != c {
        lemma_last_of(s, c, until - 1);
    }
}

fn row(e: &Expr) -> (r: Option<Row>)
    ensures
        match r {
            Some(held) => row_of(e@) == Some(held@),
            None => row_of(e@) is None,
        },
{
    match e {
        Expr::Read { base, swizzle } => {
            let all = chars_of(base.as_str());
            let from: usize = if all.len() > 0 && all[0] == '(' {
                1
            } else {
                0
            };
            let mut to: usize = all.len();
            if to > from && all[to - 1] == ')' {
                to = to - 1;
            }
            let text = from_span(all.as_slice(), from, to);
            let b = chars_of(text.as_str());
            proof {
                let first = if base@.len() > 0 && base@[0] == '(' {
                    base@.skip(1)
                } else {
                    base@
                };
                assert(first =~= base@.skip(from as int));
                if all@.len() > from {
                    assert(first.last() == all@[all@.len() - 1]);
                }
                assert(b@ =~= unbracketed(base@));
            }
            match find_last(b.as_slice(), '[') {
                None => None,
                Some(open) => {
                    if b[b.len() - 1] != ']' {
                        return None;
                    }
                    proof {
                        lemma_last_of(b@, '[', b@.len() as int);
                        assert(b@.subrange(0, open as int) =~= b@.take(open as int));
                    }
                    Some(
                        Row {
                            matrix: from_span(b.as_slice(), 0, open),
                            index: from_span(b.as_slice(), open + 1, b.len() - 1),
                            columns: copy_bytes(swizzle.as_slice()),
                        },
                    )
                },
            }
        },
        _ => None,
    }
}

/// The terms of a sum, however it was bracketed.
pub open spec fn terms(e: ExprModel) -> Seq<ExprModel>
    decreases e,
{
    match e {
        ExprModel::Binary { op, left, right } => if op == "+"@ {
            terms(*left) + terms(*right)
        } else {
            seq![e]
        },
        _ => seq![e],
    }
}

/// What each expression of a list of references holds.
pub open spec fn ref_models(list: Seq<&Expr>) -> Seq<ExprModel> {
    Seq::new(list.len(), |i: int| list[i]@)
}

fn collect_terms<'a>(e: &'a Expr, into: &mut Vec<&'a Expr>)
    ensures
        ref_models(final(into)@) == ref_models(old(into)@) + terms(e@),
    decreases e,
{
    let ghost before = ref_models(into@);
    if let Expr::Binary { op, left, right } = e {
        if same(op, "+") {
            collect_terms(left, into);
            collect_terms(right, into);
            proof {
                assert(before + terms((**left)@) + terms((**right)@) =~= before + terms(e@));
            }
            return;
        }
    }
    into.push(e);
    proof {
        assert(ref_models(into@) =~= before + seq![e@]);
    }
}

/// One term of a weighted sum of rows: what does the weighting, which component of it, and the row that weight
/// applies to.
pub struct WeightModel {
    pub base: Seq<char>,
    pub lane: u8,
    pub held: ExprModel,
}

/// Every lane of a swizzle is the same one.
pub open spec fn one_lane(swizzle: Seq<u8>) -> bool {
    swizzle.len() > 0 && forall|i: int| 0 <= i < swizzle.len() ==> #[trigger] swizzle[i] == swizzle[0]
}

/// A weight and the row it applies to: one component, however many times it is spelled, or it weights nothing
/// in particular.
pub open spec fn weighing(splat: ExprModel, held: ExprModel) -> Option<WeightModel> {
    match splat {
        ExprModel::Read { base, swizzle } => if one_lane(swizzle) && row_of(held) is Some {
            Some(WeightModel { base, lane: swizzle[0], held })
        } else {
            None
        },
        _ => None,
    }
}

/// One term of a weighted sum of rows, where an expression is one.
pub open spec fn weight_of(e: ExprModel) -> Option<WeightModel> {
    match e {
        ExprModel::Binary { op, left, right } => if op != "*"@ {
            None
        } else if weighing(*left, *right) is Some {
            weighing(*left, *right)
        } else {
            weighing(*right, *left)
        },
        _ => None,
    }
}

struct Weight<'a> {
    base: &'a str,
    lane: u8,
    held: &'a Expr,
}

impl<'a> Weight<'a> {
    spec fn view(&self) -> WeightModel {
        WeightModel { base: self.base@, lane: self.lane, held: self.held@ }
    }
}

fn all_one_lane(swizzle: &Vec<u8>) -> (r: bool)
    ensures
        r == one_lane(swizzle@),
{
    if swizzle.len() == 0 {
        return false;
    }
    let mut i: usize = 0;
    while i < swizzle.len()
        invariant
            0 < swizzle@.len(),
            i <= swizzle@.len(),
            forall|k: int| 0 <= k < i ==> #[trigger] swizzle@[k] == swizzle@[0],
        decreases swizzle@.len() - i,
    {
        if swizzle[i] != swizzle[0] {
            return false;
        }
        i = i + 1;
    }
    true
}

fn weigh<'a>(splat: &'a Expr, held: &'a Expr) -> (r: Option<Weight<'a>>)
    ensures
        match r {
            Some(w) => weighing(splat@, held@) == Some(w@),
            None => weighing(splat@, held@) is None,
        },
{
    match splat {
        Expr::Read { base, swizzle } => {
            if all_one_lane(swizzle) && row(held).is_some() {
                Some(Weight { base: base.as_str(), lane: swizzle[0], held })
            } else {
                None
            }
        },
        _ => None,
    }
}

fn weight<'a>(e: &'a Expr) -> (r: Option<Weight<'a>>)
    ensures
        match r {
            Some(w) => weight_of(e@) == Some(w@),
            None => weight_of(e@) is None,
        },
{
    match e {
        Expr::Binary { op, left, right } => {
            if !same(op, "*") {
                return None;
            }
            let first = weigh(left, right);
            if first.is_some() {
                return first;
            }
            weigh(right, left)
        },
        _ => None,
    }
}

/// Where a text last stands in another, up to a place.
pub open spec fn last_found(s: Seq<char>, part: Seq<char>, until: int) -> Option<int>
    decreases until + 1,
{
    if until < 0 {
        None
    } else if occurs(s, part, until) {
        Some(until)
    } else {
        last_found(s, part, until - 1)
    }
}

/// An index split into where it starts and how far past that it reaches: `3` is nowhere plus three, `r0.x + 2`
/// is `r0.x` plus two. Rows of one matrix share a start and differ only in the offset.
pub open spec fn offset_of(index: Seq<char>) -> (Seq<char>, u32) {
    match number_of(index) {
        Some(step) => (Seq::empty(), step),
        None => match last_found(index, " + "@, index.len() as int) {
            None => (index, 0),
            Some(at) => match number_of(index.skip(at + 3)) {
                Some(step) => (index.take(at), step),
                None => (index, 0),
            },
        },
    }
}

fn offset(index: &str) -> (r: (String, u32))
    ensures
        (r.0@, r.1) == offset_of(index@),
{
    let all = chars_of(index);
    if let Some(step) = parse_number(all.as_slice()) {
        let none = String::new();
        proof {
            assert(none@ =~= Seq::<char>::empty());
        }
        return (none, step);
    }
    let part = chars_of(" + ");
    proof {
        reveal_strlit(" + ");
    }
    let mut at: usize = all.len();
    loop
        invariant
            at <= all@.len(),
            all@ == index@,
            part@ == " + "@,
            part@.len() == 3,
            number_of(index@) is None,
            last_found(index@, " + "@, index@.len() as int) == last_found(index@, " + "@, at as int),
        decreases at,
    {
        if occurs_at(all.as_slice(), part.as_slice(), at) {
            let text = from_span(all.as_slice(), at + 3, all.len());
            let rest = chars_of(text.as_str());
            proof {
                assert(rest@ =~= index@.skip(at + 3));
                assert(all@.subrange(0, at as int) =~= index@.take(at as int));
            }
            return match parse_number(rest.as_slice()) {
                Some(step) => (from_span(all.as_slice(), 0, at), step),
                None => (index.to_owned(), 0),
            };
        }
        if at == 0 {
            proof {
                assert(last_found(index@, " + "@, -1) is None);
            }
            return (index.to_owned(), 0);
        }
        at = at - 1;
    }
}

/// The steps of indices with the place of each.
pub open spec fn steps_of(indices: Seq<Seq<char>>) -> Seq<(nat, nat)> {
    Seq::new(indices.len(), |i: int| (offset_of(indices[i]).1 as nat, i as nat))
}

/// Every index starts where the first does.
pub open spec fn one_start(indices: Seq<Seq<char>>) -> bool {
    forall|i: int| 0 <= i < indices.len() ==> offset_of(#[trigger] indices[i]).0 == offset_of(indices[0]).0
}

/// The keys step by one.
pub open spec fn stepping(steps: Seq<(nat, nat)>) -> bool {
    forall|i: int| 0 <= i < steps.len() ==> (#[trigger] steps[i]).0 == steps[0].0 + i
}

/// Where the indices stand in row order, where they name consecutive rows. The compiler emits the components in
/// whatever order suits it, so this sorts them rather than requiring one.
pub open spec fn consecutive(indices: Seq<Seq<char>>) -> Option<Seq<nat>> {
    let steps = by_key(steps_of(indices), indices.len() as int);
    if indices.len() > 0 && one_start(indices) && stepping(steps) {
        Some(unkeyed(steps))
    } else {
        None
    }
}

/// What each string of a list holds.
pub open spec fn texts(list: Seq<String>) -> Seq<Seq<char>> {
    Seq::new(list.len(), |i: int| list[i]@)
}

/// What each pair of numbers holds.
pub open spec fn step_models(list: Seq<(u64, usize)>) -> Seq<(nat, nat)> {
    Seq::new(list.len(), |i: int| (list[i].0 as nat, list[i].1 as nat))
}

/// The places of a list.
pub open spec fn place_models(list: Seq<usize>) -> Seq<nat> {
    Seq::new(list.len(), |i: int| list[i] as nat)
}

fn settle_step(list: &mut Vec<(u64, usize)>, key: u64, item: usize)
    ensures
        step_models(final(list)@) == settled(step_models(old(list)@), key as nat, item as nat, 0),
{
    let ghost before = step_models(list@);
    let mut at: usize = 0;
    while at < list.len() && list[at].0 <= key
        invariant
            at <= list@.len(),
            before == step_models(list@),
            list@ == old(list)@,
            settled(before, key as nat, item as nat, 0) == settled(before, key as nat, item as nat, at as int),
        decreases list@.len() - at,
    {
        at = at + 1;
    }
    list.insert(at, (key, item));
    proof {
        assert(step_models(list@) =~= before.insert(at as int, (key as nat, item as nat)));
    }
}

/// The second numbers of pairs.
fn seconds(list: &Vec<(u64, usize)>) -> (r: Vec<usize>)
    ensures
        place_models(r@) == unkeyed(step_models(list@)),
{
    let mut out: Vec<usize> = Vec::new();
    let mut i: usize = 0;
    while i < list.len()
        invariant
            i <= list@.len(),
            out@.len() == i,
            forall|k: int| 0 <= k < i ==> #[trigger] out@[k] == list@[k].1,
        decreases list@.len() - i,
    {
        out.push(list[i].1);
        i = i + 1;
    }
    proof {
        assert(place_models(out@) =~= unkeyed(step_models(list@)));
    }
    out
}

proof fn lemma_settled_len<T>(list: Seq<(nat, T)>, key: nat, item: T, from: int)
    requires
        0 <= from <= list.len(),
    ensures
        settled(list, key, item, from).len() == list.len() + 1,
    decreases list.len() - from,
{
    if from < list.len() && list[from].0 <= key {
        lemma_settled_len(list, key, item, from + 1);
    }
}

/// Sorting keeps the number of items.
pub proof fn lemma_by_key_len<T>(items: Seq<(nat, T)>, n: int)
    requires
        0 <= n,
    ensures
        by_key(items, n).len() == n,
    decreases n,
{
    if n > 0 {
        lemma_by_key_len(items, n - 1);
        lemma_settled_len(by_key(items, n - 1), items[n - 1].0, items[n - 1].1, 0);
    }
}

proof fn lemma_settled_from<T>(list: Seq<(nat, T)>, key: nat, item: T, from: int, i: int)
    requires
        0 <= from <= list.len(),
        0 <= i < settled(list, key, item, from).len(),
    ensures
        settled(list, key, item, from)[i] == (key, item) || exists|j: int|
            0 <= j < list.len() && #[trigger] list[j] == settled(list, key, item, from)[i],
    decreases list.len() - from,
{
    if from < list.len() && list[from].0 <= key {
        lemma_settled_from(list, key, item, from + 1, i);
    } else {
        let after = list.insert(from, (key, item));
        if i < from {
            assert(after[i] == list[i]);
        } else if i > from {
            assert(after[i] == list[i - 1]);
        }
    }
}

/// What sorting gives was there before.
pub proof fn lemma_by_key_from<T>(items: Seq<(nat, T)>, n: int, i: int)
    requires
        0 <= n <= items.len(),
        0 <= i < by_key(items, n).len(),
    ensures
        exists|j: int| 0 <= j < n && #[trigger] items[j] == by_key(items, n)[i],
    decreases n,
{
    if n > 0 {
        let before = by_key(items, n - 1);
        lemma_settled_from(before, items[n - 1].0, items[n - 1].1, 0, i);
        if by_key(items, n)[i] == (items[n - 1].0, items[n - 1].1) {
            assert(items[n - 1] == by_key(items, n)[i]);
        } else {
            let j = choose|j: int| 0 <= j < before.len() && #[trigger] before[j] == by_key(items, n)[i];
            lemma_by_key_from(items, n - 1, j);
        }
    }
}

/// The places in row order are places of the indices.
pub proof fn lemma_order_bound(indices: Seq<Seq<char>>)
    ensures
        consecutive(indices) matches Some(order) ==> order.len() == indices.len() && forall|i: int|
            0 <= i < order.len() ==> #[trigger] order[i] < indices.len(),
{
    let items = steps_of(indices);
    let n = indices.len() as int;
    lemma_by_key_len(items, n);
    let steps = by_key(items, n);
    assert forall|i: int| 0 <= i < steps.len() implies (#[trigger] unkeyed(steps)[i]) < indices.len() by {
        lemma_by_key_from(items, n, i);
        let j = choose|j: int| 0 <= j < n && #[trigger] items[j] == steps[i];
        assert(items[j].1 == j);
    }
}

fn consecutive_rows(indices: &Vec<String>) -> (r: Option<Vec<usize>>)
    ensures
        match r {
            Some(order) => consecutive(texts(indices@)) == Some(place_models(order@)) && order@.len() == indices@.len()
                && forall|i: int| 0 <= i < order@.len() ==> #[trigger] order@[i] < indices@.len(),
            None => consecutive(texts(indices@)) is None,
        },
{
    let ghost all = texts(indices@);
    let ghost items = steps_of(all);
    if indices.len() == 0 {
        return None;
    }
    let (start, _) = offset(indices[0].as_str());
    let mut steps: Vec<(u64, usize)> = Vec::new();
    let mut i: usize = 0;
    proof {
        assert(step_models(steps@) =~= by_key(items, 0));
        assert(all[0] == indices@[0]@);
    }
    while i < indices.len()
        invariant
            0 < indices@.len(),
            i <= indices@.len(),
            all == texts(indices@),
            items == steps_of(all),
            start@ == offset_of(all[0]).0,
            step_models(steps@) == by_key(items, i as int),
            forall|k: int| 0 <= k < i ==> offset_of(#[trigger] all[k]).0 == offset_of(all[0]).0,
        decreases indices@.len() - i,
    {
        let (base, step) = offset(indices[i].as_str());
        proof {
            assert(all[i as int] == indices@[i as int]@);
        }
        if !same(base.as_str(), start.as_str()) {
            return None;
        }
        settle_step(&mut steps, step as u64, i);
        i = i + 1;
    }
    proof {
        lemma_by_key_len(items, i as int);
        assert(step_models(steps@).len() == steps@.len());
        lemma_order_bound(all);
    }
    let first: u64 = steps[0].0;
    let mut k: usize = 0;
    while k < steps.len()
        invariant
            0 < steps@.len(),
            k <= steps@.len(),
            first == steps@[0].0,
            i == indices@.len(),
            all == texts(indices@),
            items == steps_of(all),
            step_models(steps@) == by_key(items, all.len() as int),
            forall|j: int| 0 <= j < k ==> (#[trigger] step_models(steps@)[j]).0 == step_models(steps@)[0].0 + j,
        decreases steps@.len() - k,
    {
        if steps[k].0 < first || (steps[k].0 - first) != k as u64 {
            proof {
                assert(step_models(steps@)[k as int].0 == steps@[k as int].0);
            }
            return None;
        }
        k = k + 1;
    }
    let order = seconds(&steps);
    proof {
        assert(stepping(by_key(items, all.len() as int)));
        assert(place_models(order@).len() == order@.len());
        assert forall|j: int| 0 <= j < order@.len() implies #[trigger] order@[j] < indices@.len() by {
            assert(place_models(order@)[j] == order@[j]);
        }
    }
    Some(order)
}

/// The text before a character, or all of it.
pub open spec fn before_char(s: Seq<char>, c: char) -> Seq<char> {
    match first_of(s, c, 0) {
        Some(at) => s.take(at),
        None => s,
    }
}

/// The text behind the first of a character, or all of it.
pub open spec fn behind_char(s: Seq<char>, c: char) -> Seq<char> {
    match first_of(s, c, 0) {
        Some(at) => s.skip(at + 1),
        None => s,
    }
}

fn text_before(s: &str, c: char) -> (r: String)
    ensures
        r@ == before_char(s@, c),
{
    let all = chars_of(s);
    match find_char(all.as_slice(), c, 0) {
        Some(at) => {
            proof {
                assert(all@.subrange(0, at as int) =~= s@.take(at as int));
            }
            from_span(all.as_slice(), 0, at)
        },
        None => s.to_owned(),
    }
}

fn text_behind(s: &str, c: char) -> (r: String)
    ensures
        r@ == behind_char(s@, c),
{
    let all = chars_of(s);
    let end: usize = all.len();
    match find_char(all.as_slice(), c, 0) {
        Some(at) => {
            proof {
                assert(all@.subrange(at + 1, all@.len() as int) =~= s@.skip(at + 1));
            }
            from_span(all.as_slice(), at + 1, end)
        },
        None => s.to_owned(),
    }
}

/// The first buffer of a name, from an index on.
pub open spec fn buffer_named(entries: Seq<(u32, Buffer)>, name: Seq<char>, from: int) -> Option<BufferModel>
    decreases entries.len() - from,
{
    if from < 0 || from >= entries.len() {
        None
    } else if entries[from].1@.name == name {
        Some(entries[from].1@)
    } else {
        buffer_named(entries, name, from + 1)
    }
}

/// The rows of a declared matrix, where the base names one. A buffer holding nothing but the matrix is declared
/// without a struct, so the matrix stands under the buffer's own name with nothing to reach through. An array
/// of matrices carries the element in the name; it is the matrix that is declared. Where two buffers share a
/// name, the one of the lower slot counts.
pub open spec fn declared(names: Names, base: Seq<char>) -> Option<u32> {
    let part = behind_char(base, '.');
    let member = before_char(part, '[');
    match buffer_named(names.constants@, before_char(before_char(base, '.'), '['), 0) {
        None => None,
        Some(b) => if first_of(part, '[', 0) is Some {
            b.element_rows(member)
        } else {
            b.rows(member)
        },
    }
}

fn declared_rows(names: &Names, base: &str) -> (r: Option<u32>)
    ensures
        r == declared(*names, base@),
{
    let left = text_before(base, '.');
    let right = text_behind(base, '.');
    let buffer = text_before(left.as_str(), '[');
    let member = text_before(right.as_str(), '[');
    let chars = chars_of(right.as_str());
    let picked: bool = find_char(chars.as_slice(), '[', 0).is_some();
    let mut i: usize = 0;
    while i < names.constants.len()
        invariant
            i <= names.constants@.len(),
            buffer_named(names.constants@, buffer@, 0) == buffer_named(names.constants@, buffer@, i as int),
            buffer@ == before_char(before_char(base@, '.'), '['),
            member@ == before_char(behind_char(base@, '.'), '['),
            picked == (first_of(behind_char(base@, '.'), '[', 0) is Some),
        decreases names.constants@.len() - i,
    {
        let held = names.constants.value_at(i);
        if same(held.title(), buffer.as_str()) {
            return if picked {
                held.element_rows(member.as_str())
            } else {
                held.rows(member.as_str())
            };
        }
        i = i + 1;
    }
    None
}

/// The matrix and the columns that the first weighted row of a list is taken from.
pub open spec fn first_row(parts: Seq<ExprModel>, from: int) -> Option<RowModel>
    decreases parts.len() - from,
{
    if from < 0 || from >= parts.len() {
        None
    } else if weight_of(parts[from]) is Some {
        row_of(weight_of(parts[from])->0.held)
    } else {
        first_row(parts, from + 1)
    }
}

/// A term is a weighted row of this matrix, read this way. One matrix, read the same way each time, or these are
/// separate multiplies standing side by side rather than one transform.
pub open spec fn weighs(part: ExprModel, like: RowModel) -> bool {
    match weight_of(part) {
        None => false,
        Some(w) => row_of(w.held)->0.matrix == like.matrix && row_of(w.held)->0.columns == like.columns,
    }
}

/// The weighted rows among the first terms.
pub open spec fn weights_in(parts: Seq<ExprModel>, n: int, like: RowModel) -> Seq<WeightModel>
    decreases n,
{
    if n <= 0 {
        Seq::empty()
    } else if weighs(parts[n - 1], like) {
        weights_in(parts, n - 1, like).push(weight_of(parts[n - 1])->0)
    } else {
        weights_in(parts, n - 1, like)
    }
}

/// What the first terms hold besides the rows.
pub open spec fn rest_in(parts: Seq<ExprModel>, n: int, like: RowModel) -> Seq<ExprModel>
    decreases n,
{
    if n <= 0 {
        Seq::empty()
    } else if weighs(parts[n - 1], like) {
        rest_in(parts, n - 1, like)
    } else {
        rest_in(parts, n - 1, like).push(parts[n - 1])
    }
}

/// The index of each weighted row.
pub open spec fn weight_indices(weights: Seq<WeightModel>) -> Seq<Seq<char>> {
    Seq::new(weights.len(), |i: int| row_of(weights[i].held)->0.index)
}

/// How wide rows are that are taken in this way.
pub open spec fn row_width(columns: Seq<u8>) -> nat {
    if columns.len() == 0 {
        4
    } else {
        columns.len()
    }
}

/// The components are the first ones, in order.
pub open spec fn leading(columns: Seq<u8>) -> bool {
    columns.len() <= 4 && forall|i: int| 0 <= i < columns.len() ==> #[trigger] columns[i] == i
}

/// The name of a matrix constructor.
pub open spec fn constructor_name(rows: nat, width: nat) -> Seq<char> {
    "float"@ + dec(rows) + "x"@ + dec(width)
}

/// The matrix that rows make. Naming it is only safe where the rows are its own, from the first, in the order it
/// has them, and each is taken from its first component on: a constructor takes its arguments in the order written whatever the packing says, whereas what
/// `mul` does with a named matrix depends on how that matrix was declared. Less than the whole of it is a cast,
/// which drops the rows and columns past the run.
pub open spec fn matrix_value(
    names: Names,
    matrix: Seq<char>,
    own: bool,
    rows: nat,
    width: nat,
    args: Seq<ExprModel>,
    wide: usize,
) -> ExprModel {
    let held = declared(names, matrix);
    if own && held is Some && held->0 == rows && width == 4 {
        ExprModel::Read { base: matrix, swizzle: Seq::empty() }
    } else if own && held is Some && held->0 >= rows {
        ExprModel::Read { base: "("@ + constructor_name(rows, width) + ")"@ + matrix, swizzle: Seq::empty() }
    } else {
        call_model(constructor_name(rows, width), args, wide)
    }
}

fn constructor_of(rows: usize, width: usize) -> (r: String)
    ensures
        r@ == constructor_name(rows as nat, width as nat),
{
    let a = decimal(rows as u64);
    let b = decimal(width as u64);
    cat4("float", a.as_str(), "x", b.as_str())
}

fn matrix_of(names: &Names, matrix: &str, own: bool, rows: usize, width: usize, args: Vec<Expr>, wide: usize) -> (r:
    Expr)
    ensures
        r@ == matrix_value(*names, matrix@, own, rows as nat, width as nat, models(args@), wide),
{
    let name = constructor_of(rows, width);
    if own {
        if let Some(held) = declared_rows(names, matrix) {
            if held as u64 == rows as u64 && width == 4 {
                let none: Vec<u8> = Vec::new();
                return named(matrix.to_owned(), none);
            }
            if held as u64 >= rows as u64 {
                let none: Vec<u8> = Vec::new();
                return named(cat4("(", name.as_str(), ")", matrix), none);
            }
        }
    }
    call(name.as_str(), args, wide)
}

/// Every weight is a component of the first one's value.
pub open spec fn one_base(weights: Seq<WeightModel>) -> bool {
    forall|i: int| 0 <= i < weights.len() ==> (#[trigger] weights[i]).base == weights[0].base
}

/// The vector that weights make. Components of one value spell it; anything else is gathered into one, since
/// what the machine kept apart is still a vector.
pub open spec fn vector_value(weights: Seq<WeightModel>, order: Seq<nat>) -> ExprModel {
    if one_base(weights) {
        ExprModel::Read {
            base: weights[0].base,
            swizzle: Seq::new(order.len(), |i: int| weights[order[i] as int].lane),
        }
    } else {
        call_model(
            "float"@ + dec(order.len()),
            Seq::new(
                order.len(),
                |i: int|
                    ExprModel::Read {
                        base: weights[order[i] as int].base,
                        swizzle: seq![weights[order[i] as int].lane],
                    },
            ),
            order.len() as usize,
        )
    }
}

/// A value with the first of more values added to it one by one.
pub open spec fn added_up(value: ExprModel, rest: Seq<ExprModel>, n: int) -> ExprModel
    decreases n,
{
    if n <= 0 {
        value
    } else {
        binary_model("+"@, added_up(value, rest, n - 1), rest[n - 1])
    }
}

/// A vector transformed by a matrix, where a sum is one. The machine writes it as a weighted sum of the
/// matrix's rows: each row is scaled by one component of the vector, and the sum of those is `mul(v, M)`. What
/// the sum holds besides the rows, the translation of an affine transform, is added to the multiply the same way
/// it was added to the rows.
pub open spec fn summed(names: Names, e: ExprModel) -> Option<ExprModel> {
    let parts = terms(e);
    match first_row(parts, 0) {
        None => None,
        Some(like) => {
            let weights = weights_in(parts, parts.len() as int, like);
            let rest = rest_in(parts, parts.len() as int, like);
            let indices = weight_indices(weights);
            match consecutive(indices) {
                None => None,
                Some(order) => if weights.len() < 3 {
                    None
                } else {
                    let width = row_width(like.columns);
                    let value = matrix_value(
                        names,
                        like.matrix,
                        indices[order[0] as int] == "0"@ && leading(like.columns),
                        order.len(),
                        width,
                        Seq::new(order.len(), |i: int| weights[order[i] as int].held),
                        width as usize,
                    );
                    let product = call_model("mul"@, seq![vector_value(weights, order), value], width as usize);
                    Some(added_up(product, rest, rest.len() as int))
                },
            }
        },
    }
}

/// The value with a transform in place of the sum that spells one.
pub open spec fn transformed(names: Names, e: ExprModel) -> ExprModel {
    match summed(names, e) {
        Some(held) => held,
        None => e,
    }
}

spec fn weight_models(list: Seq<Weight>) -> Seq<WeightModel> {
    Seq::new(list.len(), |i: int| list[i]@)
}

fn row_width_of(columns: &Vec<u8>) -> (r: usize)
    ensures
        r == row_width(columns@),
{
    if columns.len() == 0 {
        4
    } else {
        columns.len()
    }
}

fn leads(columns: &Vec<u8>) -> (r: bool)
    ensures
        r == leading(columns@),
{
    if columns.len() > 4 {
        return false;
    }
    let mut i: usize = 0;
    while i < columns.len()
        invariant
            i <= columns@.len() <= 4,
            forall|k: int| 0 <= k < i ==> #[trigger] columns@[k] == k,
        decreases columns@.len() - i,
    {
        if columns[i] as usize != i {
            proof {
                assert(columns@[i as int] != i as int);
            }
            return false;
        }
        i = i + 1;
    }
    true
}

fn first_row_of<'a>(parts: &Vec<&'a Expr>) -> (r: Option<Row>)
    ensures
        match r {
            Some(held) => first_row(ref_models(parts@), 0) == Some(held@),
            None => first_row(ref_models(parts@), 0) is None,
        },
{
    let ghost all = ref_models(parts@);
    let mut i: usize = 0;
    while i < parts.len()
        invariant
            i <= parts@.len(),
            all == ref_models(parts@),
            first_row(all, 0) == first_row(all, i as int),
        decreases parts@.len() - i,
    {
        assert(all[i as int] == parts@[i as int]@);
        if let Some(w) = weight(parts[i]) {
            return row(w.held);
        }
        i = i + 1;
    }
    None
}

/// The weighted rows of a list, the index of each, and what the list holds besides.
fn part_rows<'a>(parts: &Vec<&'a Expr>, like: &Row) -> (r: (Vec<Weight<'a>>, Vec<String>, Vec<&'a Expr>))
    ensures
        weight_models(r.0@) == weights_in(ref_models(parts@), parts@.len() as int, like@),
        texts(r.1@) == weight_indices(weight_models(r.0@)),
        ref_models(r.2@) == rest_in(ref_models(parts@), parts@.len() as int, like@),
{
    let ghost all = ref_models(parts@);
    let mut weights: Vec<Weight<'a>> = Vec::new();
    let mut indices: Vec<String> = Vec::new();
    let mut rest: Vec<&'a Expr> = Vec::new();
    let mut i: usize = 0;
    proof {
        assert(weight_models(weights@) =~= weights_in(all, 0, like@));
        assert(texts(indices@) =~= weight_indices(weight_models(weights@)));
        assert(ref_models(rest@) =~= rest_in(all, 0, like@));
    }
    while i < parts.len()
        invariant
            i <= parts@.len(),
            all == ref_models(parts@),
            weight_models(weights@) == weights_in(all, i as int, like@),
            texts(indices@) == weight_indices(weight_models(weights@)),
            ref_models(rest@) == rest_in(all, i as int, like@),
        decreases parts@.len() - i,
    {
        let part = parts[i];
        let ghost before = weight_models(weights@);
        let ghost named = texts(indices@);
        let ghost others = ref_models(rest@);
        assert(all[i as int] == part@);
        let mut taken: bool = false;
        if let Some(w) = weight(part) {
            if let Some(held) = row(w.held) {
                if same(held.matrix.as_str(), like.matrix.as_str()) && same_bytes(
                    held.columns.as_slice(),
                    like.columns.as_slice(),
                ) {
                    taken = true;
                    let ghost wm = w@;
                    let ghost at = held.index@;
                    weights.push(w);
                    indices.push(held.index);
                    proof {
                        assert(weight_models(weights@) =~= before.push(wm));
                        assert(texts(indices@) =~= named.push(at));
                        assert(weight_indices(before.push(wm)) =~= weight_indices(before).push(at));
                    }
                }
            }
        }
        if !taken {
            rest.push(part);
            proof {
                assert(ref_models(rest@) =~= others.push(part@));
            }
        }
        i = i + 1;
    }
    (weights, indices, rest)
}

fn same_base<'a>(weights: &Vec<Weight<'a>>) -> (r: bool)
    requires
        weights@.len() > 0,
    ensures
        r == one_base(weight_models(weights@)),
{
    let ghost all = weight_models(weights@);
    let mut i: usize = 0;
    while i < weights.len()
        invariant
            0 < weights@.len(),
            i <= weights@.len(),
            all == weight_models(weights@),
            forall|k: int| 0 <= k < i ==> (#[trigger] all[k]).base == all[0].base,
        decreases weights@.len() - i,
    {
        assert(all[i as int] == weights@[i as int]@);
        assert(all[0] == weights@[0]@);
        if !same(weights[i].base, weights[0].base) {
            return false;
        }
        i = i + 1;
    }
    true
}

fn vector_of<'a>(weights: &Vec<Weight<'a>>, order: &Vec<usize>) -> (r: Expr)
    requires
        weights@.len() > 0,
        forall|i: int| 0 <= i < order@.len() ==> #[trigger] order@[i] < weights@.len(),
    ensures
        r@ == vector_value(weight_models(weights@), place_models(order@)),
{
    let ghost all = weight_models(weights@);
    let ghost places = place_models(order@);
    assert(all[0] == weights@[0]@);
    if same_base(weights) {
        let mut lanes: Vec<u8> = Vec::new();
        let mut i: usize = 0;
        while i < order.len()
            invariant
                i <= order@.len(),
                all == weight_models(weights@),
                places == place_models(order@),
                forall|k: int| 0 <= k < order@.len() ==> #[trigger] order@[k] < weights@.len(),
                lanes@.len() == i,
                forall|k: int| 0 <= k < i ==> #[trigger] lanes@[k] == all[places[k] as int].lane,
            decreases order@.len() - i,
        {
            lanes.push(weights[order[i]].lane);
            i = i + 1;
        }
        proof {
            assert(lanes@ =~= Seq::new(places.len(), |i: int| all[places[i] as int].lane));
        }
        return named(weights[0].base.to_owned(), lanes);
    }
    let mut args: Vec<Expr> = Vec::new();
    let mut i: usize = 0;
    while i < order.len()
        invariant
            i <= order@.len(),
            all == weight_models(weights@),
            places == place_models(order@),
            forall|k: int| 0 <= k < order@.len() ==> #[trigger] order@[k] < weights@.len(),
            args@.len() == i,
            forall|k: int|
                0 <= k < i ==> (#[trigger] args@[k])@ == (ExprModel::Read {
                    base: all[places[k] as int].base,
                    swizzle: seq![all[places[k] as int].lane],
                }),
        decreases order@.len() - i,
    {
        let w = &weights[order[i]];
        let mut one: Vec<u8> = Vec::new();
        one.push(w.lane);
        proof {
            assert(one@ =~= seq![w.lane]);
            assert(all[places[i as int] as int] == w@);
        }
        args.push(named(w.base.to_owned(), one));
        i = i + 1;
    }
    proof {
        assert(models(args@) =~= Seq::new(
            places.len(),
            |i: int| ExprModel::Read { base: all[places[i] as int].base, swizzle: seq![all[places[i] as int].lane] },
        ));
    }
    let d = decimal(order.len() as u64);
    let name = cat2("float", d.as_str());
    call(name.as_str(), args, order.len())
}

/// A vector transformed by a matrix in place of the weighted sum of rows that spells it.
pub fn transform(names: &Names, expr: Expr) -> (r: Expr)
    ensures
        r@ == transformed(*names, expr@),
{
    let mut parts: Vec<&Expr> = Vec::new();
    collect_terms(&expr, &mut parts);
    proof {
        assert(ref_models(parts@) =~= terms(expr@));
    }
    let held: Option<Expr> = match first_row_of(&parts) {
        None => None,
        Some(like) => {
            let (weights, indices, rest) = part_rows(&parts, &like);
            proof {
                assert(texts(indices@).len() == indices@.len());
                assert(weight_models(weights@).len() == weights@.len());
            }
            match consecutive_rows(&indices) {
                None => None,
                Some(order) => {
                    if weights.len() < SHORTEST {
                        None
                    } else {
                        Some(multiplied(names, &like, &weights, &indices, &rest, &order))
                    }
                },
            }
        },
    };
    match held {
        Some(value) => value,
        None => expr,
    }
}

fn multiplied<'a>(
    names: &Names,
    like: &Row,
    weights: &Vec<Weight<'a>>,
    indices: &Vec<String>,
    rest: &Vec<&'a Expr>,
    order: &Vec<usize>,
) -> (r: Expr)
    requires
        weights@.len() >= 3,
        indices@.len() == weights@.len(),
        order@.len() == weights@.len(),
        forall|i: int| 0 <= i < order@.len() ==> #[trigger] order@[i] < weights@.len(),
    ensures
        ({
            let places = place_models(order@);
            let all = weight_models(weights@);
            let width = row_width(like@.columns);
            r@ == added_up(
                call_model(
                    "mul"@,
                    seq![
                        vector_value(all, places),
                        matrix_value(
                            *names,
                            like@.matrix,
                            texts(indices@)[places[0] as int] == "0"@ && leading(like@.columns),
                            places.len(),
                            width,
                            Seq::new(places.len(), |i: int| all[places[i] as int].held),
                            width as usize,
                        ),
                    ],
                    width as usize,
                ),
                ref_models(rest@),
                rest@.len() as int,
            )
        }),
{
    let ghost places = place_models(order@);
    let ghost all = weight_models(weights@);
    let width: usize = row_width_of(&like.columns);
    let mut args: Vec<Expr> = Vec::new();
    let mut i: usize = 0;
    while i < order.len()
        invariant
            i <= order@.len(),
            all == weight_models(weights@),
            places == place_models(order@),
            forall|k: int| 0 <= k < order@.len() ==> #[trigger] order@[k] < weights@.len(),
            args@.len() == i,
            forall|k: int| 0 <= k < i ==> (#[trigger] args@[k])@ == all[places[k] as int].held,
        decreases order@.len() - i,
    {
        args.push(weights[order[i]].held.duplicate());
        i = i + 1;
    }
    proof {
        assert(models(args@) =~= Seq::new(places.len(), |i: int| all[places[i] as int].held));
        assert(texts(indices@)[places[0] as int] == indices@[order@[0] as int]@);
    }
    let own: bool = same(indices[order[0]].as_str(), "0") && leads(&like.columns);
    let value = matrix_of(names, like.matrix.as_str(), own, order.len(), width, args, width);
    let taken = vector_of(weights, order);
    let mut sum = call2("mul", taken, value, width);
    let ghost product = sum@;
    let ghost others = ref_models(rest@);
    let mut i: usize = 0;
    while i < rest.len()
        invariant
            i <= rest@.len(),
            others == ref_models(rest@),
            sum@ == added_up(product, others, i as int),
        decreases rest@.len() - i,
    {
        assert(others[i as int] == rest@[i as int]@);
        sum = binary("+", sum, rest[i].duplicate());
        i = i + 1;
    }
    sum
}

/// A dot product of a matrix row against a vector.
pub struct ProductModel {
    pub row: RowModel,
    pub vector: ExprModel,
}

/// The dot product of a matrix row against a vector that an expression is. A row taken in part is a narrower
/// matrix, not a different kind of thing: three rows of three components are a `float3x3`.
pub open spec fn product_of(e: ExprModel) -> Option<ProductModel> {
    match e {
        ExprModel::Call { name, args, .. } => if name == "dot"@ && args.len() == 2 && row_of(args[0]) is Some {
            Some(ProductModel { row: row_of(args[0])->0, vector: args[1] })
        } else {
            None
        },
        _ => None,
    }
}

/// How many of the first expressions are a dot product of a row.
pub open spec fn product_count(args: Seq<ExprModel>, n: int) -> nat
    decreases n,
{
    if n <= 0 {
        0
    } else if product_of(args[n - 1]) is Some {
        product_count(args, n - 1) + 1
    } else {
        product_count(args, n - 1)
    }
}

/// The first dot product of a row in a list, from an index on.
pub open spec fn first_product(args: Seq<ExprModel>, from: int) -> Option<ProductModel>
    decreases args.len() - from,
{
    if from < 0 || from >= args.len() {
        None
    } else if product_of(args[from]) is Some {
        product_of(args[from])
    } else {
        first_product(args, from + 1)
    }
}

/// The dot product a lane is built on, whether it is the whole of the lane or sits inside something else. A lane
/// that holds more than one is not part of a single multiply.
pub open spec fn inner_of(e: ExprModel) -> Option<ProductModel> {
    if product_of(e) is Some {
        product_of(e)
    } else {
        match e {
            ExprModel::Call { args, .. } => if product_count(args, args.len() as int) == 1 {
                first_product(args, 0)
            } else {
                None
            },
            _ => None,
        }
    }
}

struct Product<'a> {
    row: Row,
    vector: &'a Expr,
}

impl<'a> Product<'a> {
    spec fn view(&self) -> ProductModel {
        ProductModel { row: self.row@, vector: self.vector@ }
    }
}

fn product<'a>(e: &'a Expr) -> (r: Option<Product<'a>>)
    ensures
        match r {
            Some(held) => product_of(e@) == Some(held@),
            None => product_of(e@) is None,
        },
{
    proof {
        lemma_call_model(*e);
    }
    match e {
        Expr::Call { name, args, .. } => {
            if !same(name.as_str(), "dot") || args.len() != 2 {
                return None;
            }
            assert(e@->args[0] == args@[0]@);
            assert(e@->args[1] == args@[1]@);
            match row(&args[0]) {
                Some(held) => Some(Product { row: held, vector: &args[1] }),
                None => None,
            }
        },
        _ => None,
    }
}

fn inner<'a>(e: &'a Expr) -> (r: Option<Product<'a>>)
    ensures
        match r {
            Some(held) => inner_of(e@) == Some(held@),
            None => inner_of(e@) is None,
        },
{
    let whole = product(e);
    if whole.is_some() {
        return whole;
    }
    proof {
        lemma_call_model(*e);
    }
    match e {
        Expr::Call { args, .. } => {
            let ghost all = models(args@);
            let mut count: usize = 0;
            let mut found: Option<Product<'a>> = None;
            let mut i: usize = 0;
            while i < args.len()
                invariant
                    i <= args@.len(),
                    all == models(args@),
                    count == product_count(all, i as int),
                    count <= i,
                    match found {
                        Some(held) => count > 0 && first_product(all, 0) == Some(held@),
                        None => count == 0 && first_product(all, 0) == first_product(all, i as int),
                    },
                decreases args@.len() - i,
            {
                assert(all[i as int] == args@[i as int]@);
                if let Some(held) = product(&args[i]) {
                    count = count + 1;
                    if found.is_none() {
                        found = Some(held);
                    }
                }
                i = i + 1;
            }
            if count == 1 {
                found
            } else {
                None
            }
        },
        _ => None,
    }
}

/// A lane's expression with a read of where the multiply put the dot product in place of the product.
pub open spec fn without_product(e: ExprModel, read: ExprModel) -> ExprModel
    decreases e, 0nat,
{
    if product_of(e) is Some {
        read
    } else {
        match e {
            ExprModel::Unary { op, value } => unary_model(op, without_product(*value, read)),
            ExprModel::Binary { op, left, right } => binary_model(
                op,
                without_product(*left, read),
                without_product(*right, read),
            ),
            ExprModel::Call { name, args, width } => call_model(
                name,
                without_products(args, read, args.len()),
                width,
            ),
            ExprModel::Select { cond, yes, els } => choice_model(
                without_product(*cond, read),
                without_product(*yes, read),
                without_product(*els, read),
            ),
            _ => e,
        }
    }
}

/// The first expressions of a list with reads in place of dot products.
pub open spec fn without_products(args: Seq<ExprModel>, read: ExprModel, n: nat) -> Seq<ExprModel>
    decreases args, n,
{
    if n == 0 || n > args.len() {
        Seq::empty()
    } else {
        without_products(args, read, (n - 1) as nat).push(without_product(args[n - 1], read))
    }
}

fn replace_products(args: &Vec<Expr>, read: &Expr) -> (r: Vec<Expr>)
    ensures
        models(r@) == without_products(models(args@), read@, args@.len()),
    decreases args,
{
    let ghost all = models(args@);
    let mut out: Vec<Expr> = Vec::new();
    let mut i: usize = 0;
    proof {
        assert(models(out@) =~= without_products(all, read@, 0));
    }
    while i < args.len()
        invariant
            i <= args@.len(),
            all == models(args@),
            models(out@) == without_products(all, read@, i as nat),
        decreases args@.len() - i,
    {
        let ghost before = models(out@);
        assert(all[i as int] == args@[i as int]@);
        let one = replace_product(&args[i], read);
        let ghost m = one@;
        out.push(one);
        proof {
            assert(models(out@) =~= before.push(m));
        }
        i = i + 1;
    }
    out
}

fn replace_product(e: &Expr, read: &Expr) -> (r: Expr)
    ensures
        r@ == without_product(e@, read@),
    decreases e,
{
    if product(e).is_some() {
        return read.duplicate();
    }
    proof {
        lemma_call_model(*e);
    }
    match e {
        Expr::Unary { op, value } => unary(*op, replace_product(value, read)),
        Expr::Binary { op, left, right } => binary(*op, replace_product(left, read), replace_product(right, read)),
        Expr::Call { name, args, width } => call(name.as_str(), replace_products(args, read), *width),
        Expr::Select { cond, yes, els } => choice(
            replace_product(cond, read),
            replace_product(yes, read),
            replace_product(els, read),
        ),
        other => other.duplicate(),
    }
}

/// The value reads a register. Where it does, each line sees what the one before it wrote, and folding them
/// would have every row read the original instead.
pub open spec fn reads(e: ExprModel, base: Seq<char>) -> bool
    decreases e, 0nat,
{
    match e {
        ExprModel::Read { base: held, .. } => mentioned(held, base),
        ExprModel::Literal { .. } => false,
        ExprModel::Unary { value, .. } => reads(*value, base),
        ExprModel::Swizzle { value, .. } => reads(*value, base),
        ExprModel::Binary { left, right, .. } => reads(*left, base) || reads(*right, base),
        ExprModel::Call { args, .. } => any_reads(args, base, args.len()),
        ExprModel::Select { cond, yes, els } => reads(*cond, base) || reads(*yes, base) || reads(*els, base),
        ExprModel::Vector(parts) => any_reads(parts, base, parts.len()),
    }
}

/// One of the first values reads a register.
pub open spec fn any_reads(list: Seq<ExprModel>, base: Seq<char>, n: nat) -> bool
    decreases list, n,
{
    if n == 0 || n > list.len() {
        false
    } else {
        any_reads(list, base, (n - 1) as nat) || reads(list[n - 1], base)
    }
}

fn reads_any(list: &Vec<Expr>, base: &str) -> (r: bool)
    ensures
        r == any_reads(models(list@), base@, list@.len()),
    decreases list,
{
    let ghost all = models(list@);
    let mut held: bool = false;
    let mut i: usize = 0;
    while i < list.len()
        invariant
            i <= list@.len(),
            all == models(list@),
            held == any_reads(all, base@, i as nat),
        decreases list@.len() - i,
    {
        assert(all[i as int] == list@[i as int]@);
        let one: bool = reads_register(&list[i], base);
        held = held || one;
        i = i + 1;
    }
    held
}

fn reads_register(e: &Expr, base: &str) -> (r: bool)
    ensures
        r == reads(e@, base@),
    decreases e,
{
    proof {
        lemma_call_model(*e);
    }
    match e {
        Expr::Read { base: held, .. } => mentions_word(held.as_str(), base),
        Expr::Literal { .. } => false,
        Expr::Unary { value, .. } => reads_register(value, base),
        Expr::Swizzle { value, .. } => reads_register(value, base),
        Expr::Binary { left, right, .. } => reads_register(left, base) || reads_register(right, base),
        Expr::Call { args, .. } => reads_any(args, base),
        Expr::Select { cond, yes, els } => {
            reads_register(cond, base) || reads_register(yes, base) || reads_register(els, base)
        },
        Expr::Vector(parts) => reads_any(parts, base),
    }
}

/// A line carries on the run that starts at another: one lane of the same register in the same block that the
/// run has not written yet, and the same matrix, taken the same way, against the same vector.
pub open spec fn joins(lines: Seq<Option<EmittedModel>>, at: int, end: int) -> bool {
    let first = lines[at]->0;
    let held = lines[end]->0;
    let a = inner_of(first.expr)->0;
    let b = inner_of(held.expr);
    &&& 0 <= at <= end < lines.len()
    &&& lines[end] is Some
    &&& held.lanes.len() == 1
    &&& held.depth == first.depth
    &&& held.base == first.base
    &&& !lane_taken(lines, at, end, held.lanes[0])
    &&& b is Some
    &&& b->0.row.matrix == a.row.matrix
    &&& b->0.vector == a.vector
    &&& b->0.row.columns == a.row.columns
}

/// One of the lines of a run writes a lane.
pub open spec fn lane_taken(lines: Seq<Option<EmittedModel>>, at: int, end: int, lane: u8) -> bool {
    exists|k: int| at <= k < end && (#[trigger] lines[k])->0.lanes[0] == lane
}

/// Where a run ends, as far as it is known to reach.
pub open spec fn run_end(lines: Seq<Option<EmittedModel>>, at: int, end: int) -> int
    decreases lines.len() - end,
{
    if joins(lines, at, end) {
        run_end(lines, at, end + 1)
    } else {
        end
    }
}

/// The indices of the rows of a run.
pub open spec fn run_indices(lines: Seq<Option<EmittedModel>>, at: int, end: int) -> Seq<Seq<char>> {
    Seq::new((end - at) as nat, |i: int| inner_of(lines[at + i]->0.expr)->0.row.index)
}

/// A run of assignments recognised as one multiply.
pub struct FoldModel {
    /// How many lines it covers.
    pub length: nat,
    /// Where each row was written, in row order, as an index into the run.
    pub order: Seq<nat>,
    /// The rows it reads, as they were written.
    pub indices: Seq<Seq<char>>,
    pub matrix: Seq<char>,
    pub vector: ExprModel,
    /// The components of each row the run takes, all of them in order where none is spelled out. As many as there
    /// are is the matrix's width.
    pub columns: Seq<u8>,
}

/// The run of assignments starting at a line that together make one multiply, and what it multiplies.
pub open spec fn run_at(lines: Seq<Option<EmittedModel>>, at: int) -> Option<FoldModel> {
    if !(0 <= at < lines.len()) || lines[at] is None || inner_of(lines[at]->0.expr) is None {
        None
    } else {
        let first = lines[at]->0;
        let held = inner_of(first.expr)->0;
        let end = run_end(lines, at, at);
        let indices = run_indices(lines, at, end);
        if end - at < 3 || reads(held.vector, first.base) || consecutive(indices) is None {
            None
        } else {
            Some(
                FoldModel {
                    length: (end - at) as nat,
                    order: consecutive(indices)->0,
                    indices,
                    matrix: held.row.matrix,
                    vector: held.vector,
                    columns: held.row.columns,
                },
            )
        }
    }
}

struct Fold<'a> {
    length: usize,
    order: Vec<usize>,
    indices: Vec<String>,
    matrix: String,
    vector: &'a Expr,
    columns: Vec<u8>,
}

impl<'a> Fold<'a> {
    spec fn view(&self) -> FoldModel {
        FoldModel {
            length: self.length as nat,
            order: place_models(self.order@),
            indices: texts(self.indices@),
            matrix: self.matrix@,
            vector: self.vector@,
            columns: self.columns@,
        }
    }
}

fn takes_lane(lines: &Vec<Option<Emitted>>, at: usize, end: usize, lane: u8) -> (r: bool)
    requires
        at <= end <= lines@.len(),
        forall|k: int| at <= k < end ==> (#[trigger] lines@[k]) is Some && lines@[k]->0.lanes@.len() == 1,
    ensures
        r == lane_taken(line_models(lines@), at as int, end as int, lane),
{
    let ghost all = line_models(lines@);
    let mut k: usize = at;
    while k < end
        invariant
            at <= k <= end <= lines@.len(),
            all == line_models(lines@),
            forall|j: int| at <= j < end ==> (#[trigger] lines@[j]) is Some && lines@[j]->0.lanes@.len() == 1,
            forall|j: int| at <= j < k ==> (#[trigger] all[j])->0.lanes[0] != lane,
        decreases end - k,
    {
        assert(lines@[k as int] is Some);
        assert(all[k as int] == line_model(lines@[k as int]));
        if let Some(held) = &lines[k] {
            if held.lanes[0] == lane {
                return true;
            }
        }
        k = k + 1;
    }
    false
}

fn run<'a>(lines: &'a Vec<Option<Emitted>>, at: usize) -> (r: Option<Fold<'a>>)
    requires
        at < lines@.len(),
    ensures
        match r {
            Some(held) => run_at(line_models(lines@), at as int) == Some(held@) && held.length >= 3 && at + held.length
                <= lines@.len() && held.order@.len() == held.length && held.indices@.len() == held.length && (forall|
                i: int,
            |
                0 <= i < held.length ==> #[trigger] held.order@[i] < held.length) && (forall|k: int|
                at <= k < at + held.length ==> (#[trigger] lines@[k]) is Some && lines@[k]->0.lanes@.len() == 1),
            None => run_at(line_models(lines@), at as int) is None,
        },
{
    let ghost all = line_models(lines@);
    assert(all[at as int] == line_model(lines@[at as int]));
    let first = match &lines[at] {
        Some(held) => held,
        None => {
            return None;
        },
    };
    let whole = match inner(&first.expr) {
        Some(held) => held,
        None => {
            return None;
        },
    };
    let mut indices: Vec<String> = Vec::new();
    let mut end: usize = at;
    proof {
        assert(texts(indices@) =~= run_indices(all, at as int, at as int));
    }
    while end < lines.len()
        invariant_except_break
            run_end(all, at as int, at as int) == run_end(all, at as int, end as int),
        invariant
            at < lines@.len(),
            at <= end <= lines@.len(),
            all == line_models(lines@),
            all[at as int] == Some(first@),
            inner_of(first@.expr) == Some(whole@),
            forall|k: int| at <= k < end ==> (#[trigger] lines@[k]) is Some && lines@[k]->0.lanes@.len() == 1,
            texts(indices@) == run_indices(all, at as int, end as int),
        ensures
            run_end(all, at as int, at as int) == end,
        decreases lines@.len() - end,
    {
        assert(all[end as int] == line_model(lines@[end as int]));
        let held = match &lines[end] {
            Some(held) => held,
            None => {
                break;
            },
        };
        if held.lanes.len() != 1 || held.depth != first.depth || !same(held.base.as_str(), first.base.as_str()) {
            break;
        }
        if takes_lane(lines, at, end, held.lanes[0]) {
            break;
        }
        let one = match inner(&held.expr) {
            Some(one) => one,
            None => {
                break;
            },
        };
        if !same(one.row.matrix.as_str(), whole.row.matrix.as_str()) || !same_expr(one.vector, whole.vector)
            || !same_bytes(one.row.columns.as_slice(), whole.row.columns.as_slice()) {
            break;
        }
        proof {
            assert(joins(all, at as int, end as int));
        }
        let ghost before = texts(indices@);
        let ghost index = one.row.index@;
        indices.push(one.row.index);
        proof {
            assert(texts(indices@) =~= before.push(index));
            assert(run_indices(all, at as int, end + 1) =~= run_indices(all, at as int, end as int).push(index));
        }
        end = end + 1;
    }
    if end - at < SHORTEST || reads_register(whole.vector, first.base.as_str()) {
        return None;
    }
    proof {
        assert(texts(indices@).len() == indices@.len());
    }
    match consecutive_rows(&indices) {
        None => None,
        Some(order) => {
            Some(
                Fold {
                    length: end - at,
                    order,
                    indices,
                    matrix: whole.row.matrix,
                    vector: whole.vector,
                    columns: whole.row.columns,
                },
            )
        },
    }
}

/// The target of an assignment. Every lane in order is the whole register, which needs no swizzle to say so.
pub open spec fn target_text(base: Seq<char>, lanes: Seq<u8>) -> Seq<char> {
    if lanes == seq![0u8, 1, 2, 3] {
        base
    } else {
        base + "."@ + lane_letters(lanes)
    }
}

/// An assignment as a line.
pub open spec fn assignment_text(depth: nat, target: Seq<char>, value: ExprModel) -> Seq<char> {
    indent(depth) + target + " = "@ + rendered(value, 1) + ";"@
}

/// The target of an assignment.
pub fn target(base: &str, lanes: &Vec<u8>) -> (r: String)
    ensures
        r@ == target_text(base@, lanes@),
{
    if same_bytes(lanes.as_slice(), &[0u8, 1, 2, 3]) {
        base.to_owned()
    } else {
        let l = letters(lanes.as_slice());
        cat3(base, ".", l.as_str())
    }
}

/// An assignment as a line.
pub fn assignment(depth: usize, target: &str, value: &Expr) -> (r: String)
    ensures
        r@ == assignment_text(depth as nat, target@, value@),
{
    let head = indentation(depth);
    let text = value.text();
    cat5(head.as_str(), target, " = ", text.as_str(), ";")
}

/// A row as a multiply spells it: the way the dot product spelled it. Rows taken in part, or in another order, need
/// the brackets a read of one already carries.
pub open spec fn row_value(matrix: Seq<char>, index: Seq<char>, columns: Seq<u8>) -> ExprModel {
    if columns.len() == 0 || columns == seq![0u8, 1, 2, 3] {
        ExprModel::Read { base: matrix + "["@ + index + "]"@, swizzle: Seq::empty() }
    } else {
        ExprModel::Read { base: "("@ + matrix + "["@ + index + "])"@, swizzle: columns }
    }
}

impl FoldModel {
    /// The rows in row order.
    pub open spec fn rows(self) -> Seq<ExprModel> {
        Seq::new(self.order.len(), |i: int| row_value(self.matrix, self.indices[self.order[i] as int], self.columns))
    }

    /// The multiply that the run makes.
    pub open spec fn value(self, names: Names) -> ExprModel {
        call_model(
            "mul"@,
            seq![
                matrix_value(
                    names,
                    self.matrix,
                    self.indices[self.order[0] as int] == "0"@ && leading(self.columns),
                    self.length,
                    row_width(self.columns),
                    self.rows(),
                    self.length as usize,
                ),
                self.vector,
            ],
            self.length as usize,
        )
    }

    /// The component each row lands in, in row order rather than the order written.
    pub open spec fn lanes(self, lines: Seq<Option<EmittedModel>>, at: int) -> Seq<u8> {
        Seq::new(self.order.len(), |i: int| lines[at + self.order[i]]->0.lanes[0])
    }

    /// What the rows of the run that wrapped their dot product in something else keep, applied to where the
    /// multiply has just put the value. It cannot go inside the multiply, and the lanes are independent, so
    /// following it is the same as doing it in place.
    pub open spec fn extra(self, lines: Seq<Option<EmittedModel>>, at: int, n: int) -> Seq<Seq<char>>
        decreases n,
    {
        if n <= 0 {
            Seq::empty()
        } else {
            let before = self.extra(lines, at, n - 1);
            let line = lines[at + self.order[n - 1]]->0;
            if product_of(line.expr) is Some {
                before
            } else {
                let place = lines[at]->0.base + "."@ + seq![lane_letter(self.lanes(lines, at)[n - 1])];
                before.push(
                    assignment_text(
                        lines[at]->0.depth,
                        place,
                        without_product(line.expr, ExprModel::Read { base: place, swizzle: Seq::empty() }),
                    ),
                )
            }
        }
    }
}

/// The lanes go upwards.
pub open spec fn ascending(lanes: Seq<u8>) -> bool {
    forall|i: int, j: int| 0 <= i < j < lanes.len() ==> #[trigger] lanes[i] < #[trigger] lanes[j]
}

/// Lines with what each assigns.
pub struct LinesModel {
    pub out: Seq<Seq<char>>,
    pub lines: Seq<Option<EmittedModel>>,
}

/// As many lines that assign nothing a run can build on.
pub open spec fn no_lines(n: nat) -> Seq<Option<EmittedModel>> {
    Seq::new(n, |i: int| None)
}

/// The lines from one on with each run of dot products rewritten into the multiply it is. The assignments come
/// back rewritten alongside, since a multiply is a value like any other and what comes after may still have
/// something to do with it. The rows land in the order the matrix has them, which is not always the order of the
/// components they go to; only where it is does the multiply stand for the components end to end.
pub open spec fn folded(names: Names, out: Seq<Seq<char>>, lines: Seq<Option<EmittedModel>>, at: int) -> LinesModel
    decreases lines.len() - at,
{
    if at < 0 || at >= lines.len() {
        LinesModel { out: out.skip(lines.len() as int), lines: Seq::empty() }
    } else {
        match run_at(lines, at) {
            None => {
                let rest = folded(names, out, lines, at + 1);
                LinesModel { out: seq![out[at]] + rest.out, lines: seq![lines[at]] + rest.lines }
            },
            Some(f) => if f.length == 0 || at + f.length > lines.len() {
                LinesModel { out: Seq::empty(), lines: Seq::empty() }
            } else {
                let first = lines[at]->0;
                let lanes = f.lanes(lines, at);
                let extra = f.extra(lines, at, f.order.len() as int);
                let rest = folded(names, out, lines, at + f.length);
                let line = assignment_text(first.depth, target_text(first.base, lanes), f.value(names));
                let record = if ascending(lanes) {
                    Some(EmittedModel { depth: first.depth, base: first.base, lanes, expr: f.value(names) })
                } else {
                    None
                };
                LinesModel {
                    out: seq![line] + extra + rest.out,
                    lines: seq![record] + no_lines(extra.len()) + rest.lines,
                }
            },
        }
    }
}

/// Rewriting leaves a record beside every line.
pub proof fn lemma_folded_lengths(names: Names, out: Seq<Seq<char>>, lines: Seq<Option<EmittedModel>>, at: int)
    requires
        out.len() == lines.len(),
    ensures
        folded(names, out, lines, at).out.len() == folded(names, out, lines, at).lines.len(),
    decreases lines.len() - at,
{
    if 0 <= at < lines.len() {
        match run_at(lines, at) {
            None => {
                lemma_folded_lengths(names, out, lines, at + 1);
            },
            Some(f) => {
                if !(f.length == 0 || at + f.length > lines.len()) {
                    lemma_folded_lengths(names, out, lines, at + f.length);
                }
            },
        }
    }
}

fn row_read(matrix: &str, index: &str, columns: &Vec<u8>) -> (r: Expr)
    ensures
        r@ == row_value(matrix@, index@, columns@),
{
    if columns.len() == 0 || same_bytes(columns.as_slice(), &[0u8, 1, 2, 3]) {
        let none: Vec<u8> = Vec::new();
        named(cat4(matrix, "[", index, "]"), none)
    } else {
        named(cat5("(", matrix, "[", index, "])"), copy_bytes(columns.as_slice()))
    }
}

fn goes_up(lanes: &Vec<u8>) -> (r: bool)
    ensures
        r == ascending(lanes@),
{
    let mut i: usize = 1;
    while i < lanes.len()
        invariant
            1 <= i,
            forall|a: int, b: int| 0 <= a < b < i && b < lanes@.len() ==> #[trigger] lanes@[a] < #[trigger] lanes@[b],
        decreases lanes@.len() - i,
    {
        if lanes[i - 1] >= lanes[i] {
            proof {
                assert(lanes@[i - 1] >= lanes@[i as int]);
            }
            return false;
        }
        i = i + 1;
    }
    true
}

impl<'a> Fold<'a> {
    /// The run is one that a place of the lines starts.
    spec fn sound(&self, lines: Seq<Option<Emitted>>, at: int) -> bool {
        &&& self.length >= 3
        &&& 0 <= at
        &&& at + self.length <= lines.len()
        &&& self.order@.len() == self.length
        &&& self.indices@.len() == self.length
        &&& forall|i: int| 0 <= i < self.length ==> #[trigger] self.order@[i] < self.length
        &&& forall|k: int|
            at <= k < at + self.length ==> (#[trigger] lines[k]) is Some && lines[k]->0.lanes@.len() == 1
    }

    fn value(&self, names: &Names, Ghost(lines): Ghost<Seq<Option<Emitted>>>, Ghost(at): Ghost<int>) -> (r: Expr)
        requires
            self.sound(lines, at),
        ensures
            r@ == self@.value(*names),
    {
        let ghost m = self@;
        let mut rows: Vec<Expr> = Vec::new();
        let mut i: usize = 0;
        while i < self.order.len()
            invariant
                i <= self.order@.len(),
                self.sound(lines, at),
                m == self@,
                rows@.len() == i,
                forall|k: int|
                    0 <= k < i ==> (#[trigger] rows@[k])@ == row_value(
                        m.matrix,
                        m.indices[m.order[k] as int],
                        m.columns,
                    ),
            decreases self.order@.len() - i,
        {
            assert(self.order@[i as int] < self.length);
            rows.push(row_read(self.matrix.as_str(), self.indices[self.order[i]].as_str(), &self.columns));
            i = i + 1;
        }
        proof {
            assert(models(rows@) =~= m.rows());
            assert(self.order@[0] < self.length);
            assert(m.indices[m.order[0] as int] == self.indices@[self.order@[0] as int]@);
        }
        let own: bool = same(self.indices[self.order[0]].as_str(), "0") && leads(&self.columns);
        let width: usize = row_width_of(&self.columns);
        let value = matrix_of(names, self.matrix.as_str(), own, self.length, width, rows, self.length);
        call2("mul", value, self.vector.duplicate(), self.length)
    }

    fn lanes(&self, lines: &Vec<Option<Emitted>>, at: usize) -> (r: Vec<u8>)
        requires
            self.sound(lines@, at as int),
        ensures
            r@ == self@.lanes(line_models(lines@), at as int),
    {
        let ghost all = line_models(lines@);
        let ghost m = self@;
        let mut out: Vec<u8> = Vec::new();
        let mut i: usize = 0;
        assert(lines.len() == lines@.len());
        while i < self.order.len()
            invariant
                i <= self.order@.len(),
                self.sound(lines@, at as int),
                all == line_models(lines@),
                m == self@,
                out@.len() == i,
                lines@.len() <= usize::MAX,
                forall|k: int| 0 <= k < i ==> #[trigger] out@[k] == all[at + m.order[k]]->0.lanes[0],
            decreases self.order@.len() - i,
        {
            assert(self.order@[i as int] < self.length);
            let place: usize = at + self.order[i];
            assert(lines@[place as int] is Some);
            assert(all[place as int] == line_model(lines@[place as int]));
            let one: u8 = match &lines[place] {
                Some(held) => held.lanes[0],
                None => 0,
            };
            out.push(one);
            i = i + 1;
        }
        proof {
            assert(out@ =~= m.lanes(all, at as int));
        }
        out
    }

    fn extra(&self, lines: &Vec<Option<Emitted>>, at: usize, lanes: &Vec<u8>, first: &Emitted) -> (r: Vec<String>)
        requires
            self.sound(lines@, at as int),
            line_models(lines@)[at as int] == Some(first@),
            lanes@ == self@.lanes(line_models(lines@), at as int),
        ensures
            texts(r@) == self@.extra(line_models(lines@), at as int, self.length as int),
    {
        let ghost all = line_models(lines@);
        let ghost m = self@;
        let mut out: Vec<String> = Vec::new();
        let mut i: usize = 0;
        proof {
            assert(texts(out@) =~= m.extra(all, at as int, 0));
            assert(lines.len() == lines@.len());
        }
        while i < self.order.len()
            invariant
                i <= self.order@.len(),
                lines@.len() <= usize::MAX,
                self.sound(lines@, at as int),
                all == line_models(lines@),
                all[at as int] == Some(first@),
                m == self@,
                lanes@ == m.lanes(all, at as int),
                texts(out@) == m.extra(all, at as int, i as int),
            decreases self.order@.len() - i,
        {
            assert(self.order@[i as int] < self.length);
            let place: usize = at + self.order[i];
            assert(lines@[place as int] is Some);
            assert(all[place as int] == line_model(lines@[place as int]));
            let ghost before = texts(out@);
            if let Some(line) = &lines[place] {
                if product(&line.expr).is_none() {
                    let mut letter = String::new();
                    letter.push(lane(lanes[i]));
                    proof {
                        assert(letter@ =~= seq![lane_letter(lanes@[i as int])]);
                    }
                    let spelled = cat3(first.base.as_str(), ".", letter.as_str());
                    let none: Vec<u8> = Vec::new();
                    let read = named(spelled.clone(), none);
                    let value = replace_product(&line.expr, &read);
                    let text = assignment(first.depth, spelled.as_str(), &value);
                    let ghost t = text@;
                    out.push(text);
                    proof {
                        assert(texts(out@) =~= before.push(t));
                    }
                }
            }
            i = i + 1;
        }
        out
    }
}

fn append_texts(out: &mut Vec<String>, more: &mut Vec<String>)
    ensures
        texts(final(out)@) == texts(old(out)@) + texts(old(more)@),
{
    let ghost a = texts(out@);
    let ghost b = texts(more@);
    let ghost both = out@ + more@;
    out.append(more);
    proof {
        assert(out@ =~= both);
        assert(texts(out@) =~= a + b);
    }
}

/// Rewrite each run of dot products into the multiply it is, and give back what each line then assigns.
pub fn fold(names: &Names, out: &mut Vec<String>, lines: &Vec<Option<Emitted>>) -> (r: Vec<Option<Emitted>>)
    requires
        lines@.len() <= old(out)@.len(),
    ensures
        texts(final(out)@) == folded(*names, texts(old(out)@), line_models(lines@), 0).out,
        line_models(r@) == folded(*names, texts(old(out)@), line_models(lines@), 0).lines,
{
    let ghost had = texts(out@);
    let ghost all = line_models(lines@);
    let ghost want = folded(*names, had, all, 0);
    let mut text: Vec<String> = Vec::new();
    let mut records: Vec<Option<Emitted>> = Vec::new();
    let mut at: usize = 0;
    proof {
        assert(texts(text@) + want.out =~= want.out);
        assert(line_models(records@) + want.lines =~= want.lines);
    }
    while at < lines.len()
        invariant
            at <= lines@.len(),
            out@ == old(out)@,
            lines@.len() <= out@.len(),
            had == texts(out@),
            all == line_models(lines@),
            want.out == texts(text@) + folded(*names, had, all, at as int).out,
            want.lines == line_models(records@) + folded(*names, had, all, at as int).lines,
        decreases lines@.len() - at,
    {
        let ghost before = texts(text@);
        let ghost recorded = line_models(records@);
        let ghost here = folded(*names, had, all, at as int);
        match run(lines, at) {
            None => {
                text.push(out[at].clone());
                records.push(copy_line(&lines[at]));
                proof {
                    let rest = folded(*names, had, all, at + 1);
                    assert(had[at as int] == out@[at as int]@);
                    assert(texts(text@) =~= before.push(had[at as int]));
                    assert(line_models(records@) =~= recorded.push(all[at as int]));
                    assert(before.push(had[at as int]) + rest.out =~= before + here.out);
                    assert(recorded.push(all[at as int]) + rest.lines =~= recorded + here.lines);
                }
                at = at + 1;
            },
            Some(found) => {
                assert(found.sound(lines@, at as int));
                assert(lines@[at as int] is Some);
                assert(all[at as int] == line_model(lines@[at as int]));
                if let Some(first) = &lines[at] {
                    let ghost f = found@;
                    let lanes = found.lanes(lines, at);
                    let value = found.value(names, Ghost(lines@), Ghost(at as int));
                    let mut extra = found.extra(lines, at, &lanes, first);
                    let place = target(first.base.as_str(), &lanes);
                    let line = assignment(first.depth, place.as_str(), &value);
                    let up: bool = goes_up(&lanes);
                    let count: usize = extra.len();
                    let ghost line_text = line@;
                    let ghost extra_texts = texts(extra@);
                    let ghost rest = folded(*names, had, all, at + f.length);
                    proof {
                        assert(place_models(found.order@).len() == found.order@.len());
                        assert(extra_texts.len() == count);
                    }
                    text.push(line);
                    proof {
                        assert(texts(text@) =~= before.push(line_text));
                    }
                    append_texts(&mut text, &mut extra);
                    let record = if up {
                        Some(Emitted { depth: first.depth, base: first.base.clone(), lanes, expr: value })
                    } else {
                        None
                    };
                    let ghost m = line_model(record);
                    records.push(record);
                    proof {
                        assert(line_models(records@) =~= recorded.push(m));
                    }
                    let mut k: usize = 0;
                    proof {
                        assert(line_models(records@) =~= recorded.push(m) + no_lines(0));
                    }
                    while k < count
                        invariant
                            k <= count,
                            line_models(records@) == recorded.push(m) + no_lines(k as nat),
                        decreases count - k,
                    {
                        let ghost held = line_models(records@);
                        records.push(None);
                        proof {
                            assert(line_models(records@) =~= held.push(None));
                            assert(line_models(records@) =~= recorded.push(m) + no_lines((k + 1) as nat));
                        }
                        k = k + 1;
                    }
                    proof {
                        assert(before.push(line_text) + extra_texts + rest.out =~= before + here.out);
                        assert(recorded.push(m) + no_lines(count as nat) + rest.lines =~= recorded + here.lines);
                    }
                }
                at = at + found.length;
            },
        }
    }
    let mut i: usize = lines.len();
    proof {
        assert(line_models(records@) =~= want.lines);
        assert(had.subrange(i as int, had.len() as int) =~= had.skip(i as int));
    }
    while i < out.len()
        invariant
            lines@.len() <= i <= out@.len(),
            had == texts(out@),
            want.out == texts(text@) + had.subrange(i as int, had.len() as int),
        decreases out@.len() - i,
    {
        let ghost before = texts(text@);
        text.push(out[i].clone());
        proof {
            assert(had[i as int] == out@[i as int]@);
            assert(texts(text@) =~= before.push(had[i as int]));
            assert(before + had.subrange(i as int, had.len() as int) =~= texts(text@) + had.subrange(
                i + 1,
                had.len() as int,
            ));
        }
        i = i + 1;
    }
    proof {
        assert(texts(text@) =~= want.out);
    }
    *out = text;
    records
}

/// How far apart the writes filling one register may sit. A value assembled over more lines than this was not
/// going to read as one thing anyway, and every line in between is another that has to be proved harmless.
pub const REACH: usize = 12;

/// The components a write covers are ones a register has, each once.
pub open spec fn proper(lanes: Seq<u8>) -> bool {
    &&& lanes.len() > 0
    &&& forall|i: int| 0 <= i < lanes.len() ==> #[trigger] lanes[i] <= 3
    &&& forall|i: int, j: int| 0 <= i < j < lanes.len() ==> #[trigger] lanes[i] != #[trigger] lanes[j]
}

/// Two lists of lanes have one in common.
pub open spec fn overlap(a: Seq<u8>, b: Seq<u8>) -> bool {
    exists|i: int| 0 <= i < a.len() && b.contains(#[trigger] a[i])
}

/// One of the lines of a list reads a register.
pub open spec fn members_read(lines: Seq<Option<EmittedModel>>, members: Seq<nat>, base: Seq<char>) -> bool {
    exists|i: int| 0 <= i < members.len() && reads(lines[(#[trigger] members[i]) as int]->0.expr, base)
}

/// The lanes that the first members write, side by side.
pub open spec fn laid(lines: Seq<Option<EmittedModel>>, members: Seq<nat>, n: int) -> Seq<u8>
    decreases n,
{
    if n <= 0 {
        Seq::empty()
    } else {
        laid(lines, members, n - 1) + lines[members[n - 1] as int]->0.lanes
    }
}

/// The members with the first lane that each writes.
pub open spec fn keyed_lines(lines: Seq<Option<EmittedModel>>, members: Seq<nat>) -> Seq<(nat, nat)> {
    Seq::new(members.len(), |i: int| (lines[members[i] as int]->0.lanes[0] as nat, members[i]))
}

/// Each member writes as many components as its value has, and none reads the register.
pub open spec fn fills(lines: Seq<Option<EmittedModel>>, members: Seq<nat>, base: Seq<char>) -> bool {
    forall|i: int|
        0 <= i < members.len() ==> {
            let held = lines[(#[trigger] members[i]) as int]->0;
            component_count(held.expr) == held.lanes.len() && !reads(held.expr, base)
        }
}

/// The writes laid out in component order, where they really do lay the register out end to end.
///
/// A constructor takes its arguments in that order and no other, so a write covering components that are not
/// next to each other cannot be one of them. Nor can a write that reads the register it is filling, since after
/// the fold it would see what the register held before any of this. A value narrower than the components it is
/// written to is spread over them, which is not what a constructor does with an argument.
pub open spec fn ordered(lines: Seq<Option<EmittedModel>>, base: Seq<char>, members: Seq<nat>) -> Option<Seq<nat>> {
    let order = unkeyed(by_key(keyed_lines(lines, members), members.len() as int));
    if members.len() >= 2 && laid(lines, order, order.len() as int) == seq![0u8, 1, 2, 3] && fills(
        lines,
        order,
        base,
    ) {
        Some(order)
    } else {
        None
    }
}

/// The writes that fill one register between them, from a line on, in the order their components sit in it, and
/// the last of them. Everything in between ends up after the writes still waiting to join it, so it must not
/// read what they have already put in the register, and they must not read what it leaves somewhere else.
pub open spec fn filling(
    lines: Seq<Option<EmittedModel>>,
    at: int,
    pos: int,
    members: Seq<nat>,
    covered: Seq<u8>,
) -> Option<(Seq<nat>, int)>
    decreases lines.len() - pos,
{
    let first = lines[at]->0;
    let held = lines[pos]->0;
    if pos < 0 || pos >= lines.len() || pos >= at + 12 || lines[pos] is None {
        None
    } else if held.base != first.base {
        if held.depth != first.depth || reads(held.expr, first.base) || members_read(lines, members, held.base) {
            None
        } else {
            filling(lines, at, pos + 1, members, covered)
        }
    } else if !proper(held.lanes) || held.depth != first.depth || overlap(held.lanes, covered) {
        None
    } else if covered.len() + held.lanes.len() == 4 {
        match ordered(lines, first.base, members.push(pos as nat)) {
            Some(order) => Some((order, pos)),
            None => None,
        }
    } else {
        filling(lines, at, pos + 1, members.push(pos as nat), covered + held.lanes)
    }
}

/// The writes that fill one register between them, starting with a line.
pub open spec fn whole_at(lines: Seq<Option<EmittedModel>>, at: int) -> Option<(Seq<nat>, int)> {
    if !(0 <= at < lines.len()) || lines[at] is None || !proper(lines[at]->0.lanes) {
        None
    } else {
        filling(lines, at, at + 1, seq![at as nat], lines[at]->0.lanes)
    }
}

fn has_lane(lanes: &Vec<u8>, lane: u8, until: usize) -> (r: bool)
    requires
        until <= lanes@.len(),
    ensures
        r == (exists|i: int| 0 <= i < until && #[trigger] lanes@[i] == lane),
{
    let mut i: usize = 0;
    while i < until
        invariant
            i <= until <= lanes@.len(),
            forall|k: int| 0 <= k < i ==> #[trigger] lanes@[k] != lane,
        decreases until - i,
    {
        if lanes[i] == lane {
            return true;
        }
        i = i + 1;
    }
    false
}

fn is_proper(lanes: &Vec<u8>) -> (r: bool)
    ensures
        r == proper(lanes@),
{
    if lanes.len() == 0 {
        return false;
    }
    let mut i: usize = 0;
    while i < lanes.len()
        invariant
            i <= lanes@.len(),
            forall|k: int| 0 <= k < i ==> #[trigger] lanes@[k] <= 3,
            forall|a: int, b: int| 0 <= a < b < i ==> #[trigger] lanes@[a] != #[trigger] lanes@[b],
        decreases lanes@.len() - i,
    {
        if lanes[i] > 3 || has_lane(lanes, lanes[i], i) {
            return false;
        }
        i = i + 1;
    }
    true
}

fn lanes_overlap(a: &Vec<u8>, b: &Vec<u8>) -> (r: bool)
    ensures
        r == overlap(a@, b@),
{
    let mut i: usize = 0;
    while i < a.len()
        invariant
            i <= a@.len(),
            forall|k: int| 0 <= k < i ==> !b@.contains(#[trigger] a@[k]),
        decreases a@.len() - i,
    {
        if has_lane(b, a[i], b.len()) {
            proof {
                let j = choose|j: int| 0 <= j < b@.len() && #[trigger] b@[j] == a@[i as int];
                assert(b@.contains(a@[i as int]));
            }
            return true;
        }
        proof {
            assert(!b@.contains(a@[i as int]));
        }
        i = i + 1;
    }
    false
}

/// The members are lines that assign, each to proper lanes.
spec fn assigned(lines: Seq<Option<Emitted>>, members: Seq<usize>) -> bool {
    forall|i: int|
        0 <= i < members.len() ==> (#[trigger] members[i]) < lines.len() && lines[members[i] as int] is Some
            && lines[members[i] as int]->0.lanes@.len() > 0
}

fn any_member_reads(lines: &Vec<Option<Emitted>>, members: &Vec<usize>, base: &str) -> (r: bool)
    requires
        assigned(lines@, members@),
    ensures
        r == members_read(line_models(lines@), place_models(members@), base@),
{
    let ghost all = line_models(lines@);
    let ghost places = place_models(members@);
    let mut i: usize = 0;
    while i < members.len()
        invariant
            i <= members@.len(),
            assigned(lines@, members@),
            all == line_models(lines@),
            places == place_models(members@),
            forall|k: int| 0 <= k < i ==> !reads(all[(#[trigger] places[k]) as int]->0.expr, base@),
        decreases members@.len() - i,
    {
        let place: usize = members[i];
        assert(members@[i as int] < lines@.len());
        assert(all[place as int] == line_model(lines@[place as int]));
        assert(places[i as int] == place);
        if let Some(held) = &lines[place] {
            if reads_register(&held.expr, base) {
                return true;
            }
        }
        i = i + 1;
    }
    false
}

fn order_members(lines: &Vec<Option<Emitted>>, base: &str, members: &Vec<usize>) -> (r: Option<Vec<usize>>)
    requires
        assigned(lines@, members@),
    ensures
        match r {
            Some(order) => ordered(line_models(lines@), base@, place_models(members@)) == Some(place_models(order@))
                && assigned(lines@, order@),
            None => ordered(line_models(lines@), base@, place_models(members@)) is None,
        },
{
    let ghost all = line_models(lines@);
    let ghost places = place_models(members@);
    let ghost items = keyed_lines(all, places);
    if members.len() < 2 {
        return None;
    }
    let mut steps: Vec<(u64, usize)> = Vec::new();
    let mut i: usize = 0;
    proof {
        assert(step_models(steps@) =~= by_key(items, 0));
    }
    while i < members.len()
        invariant
            i <= members@.len(),
            assigned(lines@, members@),
            all == line_models(lines@),
            places == place_models(members@),
            items == keyed_lines(all, places),
            step_models(steps@) == by_key(items, i as int),
        decreases members@.len() - i,
    {
        let place: usize = members[i];
        assert(members@[i as int] < lines@.len());
        assert(all[place as int] == line_model(lines@[place as int]));
        assert(places[i as int] == place);
        if let Some(held) = &lines[place] {
            settle_step(&mut steps, held.lanes[0] as u64, place);
        }
        i = i + 1;
    }
    let order = seconds(&steps);
    let ghost sorted = place_models(order@);
    proof {
        lemma_by_key_len(items, i as int);
        assert(step_models(steps@).len() == steps@.len());
        assert(sorted.len() == order@.len());
        assert forall|j: int| 0 <= j < order@.len() implies (#[trigger] order@[j]) < lines@.len()
            && lines@[order@[j] as int] is Some && lines@[order@[j] as int]->0.lanes@.len() > 0 by {
            lemma_by_key_from(items, i as int, j);
            let k = choose|k: int| 0 <= k < i && #[trigger] items[k] == by_key(items, i as int)[j];
            assert(sorted[j] == order@[j]);
            assert(members@[k] < lines@.len());
            assert(items[k].1 == members@[k]);
        }
    }
    let mut side: Vec<u8> = Vec::new();
    let mut fit: bool = true;
    let mut k: usize = 0;
    while k < order.len()
        invariant
            k <= order@.len(),
            assigned(lines@, order@),
            all == line_models(lines@),
            sorted == place_models(order@),
            side@ == laid(all, sorted, k as int),
            fit == (forall|j: int|
                0 <= j < k ==> {
                    let held = all[(#[trigger] sorted[j]) as int]->0;
                    component_count(held.expr) == held.lanes.len() && !reads(held.expr, base@)
                }),
        decreases order@.len() - k,
    {
        let place: usize = order[k];
        assert(order@[k as int] < lines@.len());
        assert(all[place as int] == line_model(lines@[place as int]));
        assert(sorted[k as int] == place);
        if let Some(held) = &lines[place] {
            crate::bytes::push_all(&mut side, held.lanes.as_slice());
            if held.expr.components() != held.lanes.len() || reads_register(&held.expr, base) {
                fit = false;
            }
        }
        k = k + 1;
    }
    if same_bytes(side.as_slice(), &[0u8, 1, 2, 3]) && fit {
        Some(order)
    } else {
        None
    }
}

fn whole(lines: &Vec<Option<Emitted>>, at: usize) -> (r: Option<(Vec<usize>, usize)>)
    requires
        at < lines@.len(),
    ensures
        match r {
            Some((group, last)) => whole_at(line_models(lines@), at as int) == Some(
                (place_models(group@), last as int),
            ) && at < last < lines@.len() && assigned(lines@, group@) && lines@[last as int] is Some,
            None => whole_at(line_models(lines@), at as int) is None,
        },
{
    let ghost all = line_models(lines@);
    assert(all[at as int] == line_model(lines@[at as int]));
    let first = match &lines[at] {
        Some(held) => held,
        None => {
            return None;
        },
    };
    if !is_proper(&first.lanes) {
        return None;
    }
    let mut members: Vec<usize> = Vec::new();
    members.push(at);
    let mut covered: Vec<u8> = copy_bytes(first.lanes.as_slice());
    let end: usize = if lines.len() - at > REACH {
        at + REACH
    } else {
        lines.len()
    };
    let mut pos: usize = at + 1;
    proof {
        assert(place_models(members@) =~= seq![at as nat]);
    }
    while pos < end
        invariant
            at < pos <= end <= lines@.len(),
            end == lines@.len() || end == at + 12,
            end <= at + 12,
            all == line_models(lines@),
            all[at as int] == Some(first@),
            assigned(lines@, members@),
            whole_at(all, at as int) == filling(all, at as int, pos as int, place_models(members@), covered@),
            covered@.len() <= lines@.len() + covered@.len(),
        decreases end - pos,
    {
        assert(all[pos as int] == line_model(lines@[pos as int]));
        let held = match &lines[pos] {
            Some(held) => held,
            None => {
                return None;
            },
        };
        if !same(held.base.as_str(), first.base.as_str()) {
            if held.depth != first.depth || reads_register(&held.expr, first.base.as_str()) || any_member_reads(
                lines,
                &members,
                held.base.as_str(),
            ) {
                return None;
            }
        } else {
            if !is_proper(&held.lanes) || held.depth != first.depth || lanes_overlap(&held.lanes, &covered) {
                return None;
            }
            let ghost before = place_models(members@);
            members.push(pos);
            proof {
                assert(place_models(members@) =~= before.push(pos as nat));
            }
            let have: u128 = covered.len() as u128 + held.lanes.len() as u128;
            if have == 4 {
                return match order_members(lines, first.base.as_str(), &members) {
                    Some(order) => Some((order, pos)),
                    None => None,
                };
            }
            crate::bytes::push_all(&mut covered, held.lanes.as_slice());
        }
        pos = pos + 1;
    }
    None
}

/// The source a lane was taken from, and which lane of it, for a write that is a plain slice of something else.
/// `r1.x = v.x` is one; `r1.x = v.x * 2` is not.
pub open spec fn slice_of(e: ExprModel) -> Option<(Seq<char>, u8)> {
    match e {
        ExprModel::Read { base, swizzle } => if swizzle.len() == 1 {
            Some((base, swizzle[0]))
        } else {
            None
        },
        ExprModel::Swizzle { value, swizzle } => if swizzle.len() == 1 {
            Some((rendered(*value, 1), swizzle[0]))
        } else {
            None
        },
        _ => None,
    }
}

fn slice(e: &Expr) -> (r: Option<(String, u8)>)
    ensures
        match r {
            Some((source, lane)) => slice_of(e@) == Some((source@, lane)),
            None => slice_of(e@) is None,
        },
{
    match e {
        Expr::Read { base, swizzle } => {
            if swizzle.len() == 1 {
                Some((base.clone(), swizzle[0]))
            } else {
                None
            }
        },
        Expr::Swizzle { value, swizzle } => {
            if swizzle.len() == 1 {
                Some((value.text(), swizzle[0]))
            } else {
                None
            }
        },
        _ => None,
    }
}

/// A line writes one lane of the same register in the same block as another.
pub open spec fn beside(lines: Seq<Option<EmittedModel>>, at: int, pos: int) -> bool {
    let first = lines[at]->0;
    let held = lines[pos]->0;
    &&& 0 <= at < pos < lines.len()
    &&& lines[pos] is Some
    &&& held.base == first.base
    &&& held.depth == first.depth
    &&& held.lanes.len() == 1
    &&& !lane_taken(lines, at, pos, held.lanes[0])
    &&& !reads(held.expr, first.base)
}

/// Where a run of slices of one value ends, as far as it is known to reach. The value being sliced must not be
/// the register being filled, or a later lane would read what an earlier one has already put there.
pub open spec fn slice_end(lines: Seq<Option<EmittedModel>>, at: int, pos: int) -> int
    decreases lines.len() - pos,
{
    if beside(lines, at, pos) && slice_of(lines[pos]->0.expr) is Some && (slice_of(lines[pos]->0.expr)->0).0 == (
    slice_of(lines[at]->0.expr)->0).0 {
        slice_end(lines, at, pos + 1)
    } else {
        pos
    }
}

/// The lanes that a run of slices writes, with those it takes.
pub open spec fn slice_pairs(lines: Seq<Option<EmittedModel>>, at: int, end: int) -> Seq<(nat, nat)> {
    Seq::new(
        (end - at) as nat,
        |i: int| (lines[at + i]->0.lanes[0] as nat, (slice_of(lines[at + i]->0.expr)->0).1 as nat),
    )
}

/// The first of pairs as lanes.
pub open spec fn lanes_into(pairs: Seq<(nat, nat)>) -> Seq<u8> {
    Seq::new(pairs.len(), |i: int| pairs[i].0 as u8)
}

/// The second of pairs as lanes.
pub open spec fn lanes_from(pairs: Seq<(nat, nat)>) -> Seq<u8> {
    Seq::new(pairs.len(), |i: int| pairs[i].1 as u8)
}

/// What a run of slices that starts at a line becomes, and where it ends: consecutive lanes of one register taken
/// from consecutive lanes of one value, written as the one assignment they are. Only writes that already sit next
/// to each other join, so nothing moves past anything. A write mask names its components in order, so the source
/// lanes follow wherever theirs go.
pub open spec fn slice_step(lines: Seq<Option<EmittedModel>>, at: int) -> Option<(Seq<char>, int)> {
    if !(0 <= at < lines.len()) || lines[at] is None || lines[at]->0.lanes.len() != 1 || slice_of(
        lines[at]->0.expr,
    ) is None {
        None
    } else {
        let first = lines[at]->0;
        let end = slice_end(lines, at, at + 1);
        let pairs = by_key(slice_pairs(lines, at, end), end - at);
        if end - at < 2 || reads(first.expr, first.base) {
            None
        } else {
            Some(
                (
                    assignment_text(
                        first.depth,
                        target_text(first.base, lanes_into(pairs)),
                        ExprModel::Read { base: (slice_of(first.expr)->0).0, swizzle: lanes_from(pairs) },
                    ),
                    end,
                ),
            )
        }
    }
}

/// Whether a line writes one lane of the same register in the same block as another.
fn is_beside(lines: &Vec<Option<Emitted>>, at: usize, pos: usize, first: &Emitted) -> (r: bool)
    requires
        at < pos < lines@.len(),
        line_models(lines@)[at as int] == Some(first@),
        forall|k: int| at <= k < pos ==> (#[trigger] lines@[k]) is Some && lines@[k]->0.lanes@.len() == 1,
    ensures
        r == beside(line_models(lines@), at as int, pos as int),
{
    let ghost all = line_models(lines@);
    assert(all[pos as int] == line_model(lines@[pos as int]));
    match &lines[pos] {
        None => false,
        Some(held) => {
            same(held.base.as_str(), first.base.as_str()) && held.depth == first.depth && held.lanes.len() == 1
                && !takes_lane(lines, at, pos, held.lanes[0]) && !reads_register(&held.expr, first.base.as_str())
        },
    }
}

fn settle_pair(list: &mut Vec<(u64, usize)>, into: u8, from: u8)
    ensures
        step_models(final(list)@) == settled(step_models(old(list)@), into as nat, from as nat, 0),
{
    settle_step(list, into as u64, from as usize);
}

fn split_pairs(pairs: &Vec<(u64, usize)>) -> (r: (Vec<u8>, Vec<u8>))
    ensures
        r.0@ == lanes_into(step_models(pairs@)),
        r.1@ == lanes_from(step_models(pairs@)),
{
    let mut into: Vec<u8> = Vec::new();
    let mut from: Vec<u8> = Vec::new();
    let mut i: usize = 0;
    while i < pairs.len()
        invariant
            i <= pairs@.len(),
            into@.len() == i,
            from@.len() == i,
            forall|k: int| 0 <= k < i ==> #[trigger] into@[k] == pairs@[k].0 as u8,
            forall|k: int| 0 <= k < i ==> #[trigger] from@[k] == pairs@[k].1 as u8,
        decreases pairs@.len() - i,
    {
        into.push(pairs[i].0 as u8);
        from.push(pairs[i].1 as u8);
        i = i + 1;
    }
    proof {
        assert(into@ =~= lanes_into(step_models(pairs@)));
        assert(from@ =~= lanes_from(step_models(pairs@)));
    }
    (into, from)
}

fn slice_run(lines: &Vec<Option<Emitted>>, at: usize) -> (r: Option<(String, usize)>)
    requires
        at < lines@.len(),
    ensures
        match r {
            Some((text, end)) => slice_step(line_models(lines@), at as int) == Some((text@, end as int)) && at < end
                <= lines@.len(),
            None => slice_step(line_models(lines@), at as int) is None,
        },
{
    let ghost all = line_models(lines@);
    assert(all[at as int] == line_model(lines@[at as int]));
    let first = match &lines[at] {
        Some(held) => held,
        None => {
            return None;
        },
    };
    if first.lanes.len() != 1 {
        return None;
    }
    let (source, lane) = match slice(&first.expr) {
        Some(held) => held,
        None => {
            return None;
        },
    };
    let mut pairs: Vec<(u64, usize)> = Vec::new();
    proof {
        assert(step_models(pairs@) =~= Seq::empty());
    }
    settle_pair(&mut pairs, first.lanes[0], lane);
    assert(lines.len() == lines@.len());
    let mut end: usize = at + 1;
    let ghost from = at as int;
    proof {
        reveal_with_fuel(by_key, 2);
        let items = slice_pairs(all, from, from + 1);
        assert(items[0] == (first@.lanes[0] as nat, lane as nat));
        assert(step_models(pairs@) =~= by_key(items, 1));
    }
    while end < lines.len()
        invariant_except_break
            slice_end(all, from, from + 1) == slice_end(all, from, end as int),
        invariant
            from == at,
            at < end <= lines@.len(),
            all == line_models(lines@),
            all[at as int] == Some(first@),
            slice_of(first@.expr) == Some((source@, lane)),
            forall|k: int| at <= k < end ==> (#[trigger] lines@[k]) is Some && lines@[k]->0.lanes@.len() == 1,
            step_models(pairs@) == by_key(slice_pairs(all, from, end as int), end - from),
        ensures
            slice_end(all, from, from + 1) == end,
        decreases lines@.len() - end,
    {
        if !is_beside(lines, at, end, first) {
            break;
        }
        assert(all[end as int] == line_model(lines@[end as int]));
        let held = match &lines[end] {
            Some(held) => held,
            None => {
                break;
            },
        };
        let (held_source, held_lane) = match slice(&held.expr) {
            Some(one) => one,
            None => {
                break;
            },
        };
        if !same(held_source.as_str(), source.as_str()) {
            break;
        }
        settle_pair(&mut pairs, held.lanes[0], held_lane);
        proof {
            let short = slice_pairs(all, from, end as int);
            let long = slice_pairs(all, from, end + 1);
            lemma_by_key_prefix(short, long, end - from);
            assert(long[end - from] == (held@.lanes[0] as nat, held_lane as nat));
        }
        end = end + 1;
    }
    if end - at < 2 || reads_register(&first.expr, first.base.as_str()) {
        return None;
    }
    let (into, taken) = split_pairs(&pairs);
    let place = target(first.base.as_str(), &into);
    let value = named(source, taken);
    Some((assignment(first.depth, place.as_str(), &value), end))
}

/// Sorting the first items does not look at what stands behind them.
proof fn lemma_by_key_prefix<T>(a: Seq<(nat, T)>, b: Seq<(nat, T)>, n: int)
    requires
        0 <= n <= a.len() <= b.len(),
        forall|i: int| 0 <= i < n ==> #[trigger] a[i] == b[i],
    ensures
        by_key(a, n) == by_key(b, n),
    decreases n,
{
    if n > 0 {
        lemma_by_key_prefix(a, b, n - 1);
        assert(a[n - 1] == b[n - 1]);
    }
}

/// Every value of a list is the same one.
pub open spec fn all_same(parts: Seq<ExprModel>) -> bool {
    forall|i: int| 0 <= i < parts.len() ==> #[trigger] parts[i] == parts[0]
}

/// Every value of a list is made with this operator.
pub open spec fn all_made(parts: Seq<ExprModel>, op: Seq<char>) -> bool {
    forall|i: int| 0 <= i < parts.len() ==> (#[trigger] parts[i]) is Binary && parts[i]->Binary_op == op
}

/// What stands on the left of each value.
pub open spec fn lefts(parts: Seq<ExprModel>) -> Seq<ExprModel> {
    Seq::new(parts.len(), |i: int| *parts[i]->left)
}

/// What stands on the right of each value.
pub open spec fn rights(parts: Seq<ExprModel>) -> Seq<ExprModel> {
    Seq::new(parts.len(), |i: int| *parts[i]->right)
}

/// A pair that means the same either way round.
pub open spec fn commutes(op: Seq<char>) -> bool {
    op == "*"@ || op == "+"@ || op == "&"@ || op == "|"@ || op == "^"@
}

/// Every value has this operand on one side.
pub open spec fn shares(parts: Seq<ExprModel>, shared: ExprModel) -> bool {
    forall|i: int|
        0 <= i < parts.len() ==> *(#[trigger] parts[i])->left == shared || *parts[i]->right == shared
}

/// The other operand of each value.
pub open spec fn varying(parts: Seq<ExprModel>, shared: ExprModel) -> Seq<ExprModel> {
    Seq::new(
        parts.len(),
        |i: int|
            if *parts[i]->left == shared {
                *parts[i]->right
            } else {
                *parts[i]->left
            },
    )
}

/// The lanes gathered as they are, which only reads as one value where each of them really is one component.
pub open spec fn gathered_lanes(parts: Seq<ExprModel>) -> Option<ExprModel> {
    if forall|i: int| 0 <= i < parts.len() ==> component_count(#[trigger] parts[i]) == 1 {
        Some(call_model("float"@ + dec(parts.len()), parts, parts.len() as usize))
    } else {
        None
    }
}

/// One expression standing for what several lanes each compute, where they compute the same thing bar one
/// operand: `a.x * c, b.x * c, d.x * c` is `float3(a.x, b.x, d.x) * c`. Two operands differing at once is two
/// things to gather, which is no shorter than leaving the lanes as they were. The compiler writes a commutative
/// pair in whichever order it please, so a shared operand can sit on the left of one lane and the right of the
/// next.
pub open spec fn lanewise(parts: Seq<ExprModel>) -> Option<ExprModel>
    decreases parts[0],
{
    let first = parts[0];
    let op = first->Binary_op;
    let ls = lefts(parts);
    let rs = rights(parts);
    if parts.len() == 0 {
        None
    } else if all_same(parts) {
        Some(first)
    } else if first is Binary && all_made(parts, op) {
        if all_same(ls) && !all_same(rs) {
            match lanewise(rs) {
                Some(held) => Some(binary_model(op, *first->left, held)),
                None => None,
            }
        } else if !all_same(ls) && all_same(rs) {
            match lanewise(ls) {
                Some(held) => Some(binary_model(op, held, *first->right)),
                None => None,
            }
        } else if commutes(op) && shares(parts, ls[0]) {
            match lanewise(varying(parts, ls[0])) {
                Some(held) => Some(binary_model(op, held, ls[0])),
                None => gathered_lanes(parts),
            }
        } else if commutes(op) && shares(parts, rs[0]) {
            match lanewise(varying(parts, rs[0])) {
                Some(held) => Some(binary_model(op, held, rs[0])),
                None => gathered_lanes(parts),
            }
        } else {
            gathered_lanes(parts)
        }
    } else {
        gathered_lanes(parts)
    }
}

fn are_same(parts: &Vec<&Expr>) -> (r: bool)
    ensures
        r == all_same(ref_models(parts@)),
{
    let ghost all = ref_models(parts@);
    let mut i: usize = 0;
    while i < parts.len()
        invariant
            i <= parts@.len(),
            all == ref_models(parts@),
            forall|k: int| 0 <= k < i ==> #[trigger] all[k] == all[0],
        decreases parts@.len() - i,
    {
        assert(all[i as int] == parts@[i as int]@);
        assert(all[0] == parts@[0]@);
        if !same_expr(parts[i], parts[0]) {
            return false;
        }
        i = i + 1;
    }
    true
}

/// The operands of values that are all made with one operator.
fn sides<'a>(parts: &Vec<&'a Expr>, op: &str) -> (r: Option<(Vec<&'a Expr>, Vec<&'a Expr>)>)
    ensures
        match r {
            Some((ls, rs)) => all_made(ref_models(parts@), op@) && ref_models(ls@) == lefts(ref_models(parts@))
                && ref_models(rs@) == rights(ref_models(parts@)) && (forall|i: int|
                0 <= i < parts@.len() ==> (#[trigger] *parts@[i]) is Binary && *ls@[i] == *(*parts@[i])->left
                    && *rs@[i] == *(*parts@[i])->right),
            None => !all_made(ref_models(parts@), op@),
        },
{
    let ghost all = ref_models(parts@);
    let mut ls: Vec<&'a Expr> = Vec::new();
    let mut rs: Vec<&'a Expr> = Vec::new();
    let mut i: usize = 0;
    while i < parts.len()
        invariant
            i <= parts@.len(),
            all == ref_models(parts@),
            ls@.len() == i,
            rs@.len() == i,
            forall|k: int| 0 <= k < i ==> (#[trigger] all[k]) is Binary && all[k]->Binary_op == op@,
            forall|k: int|
                0 <= k < i ==> (#[trigger] *parts@[k]) is Binary && *ls@[k] == *(*parts@[k])->left && *rs@[k] == *(
                *parts@[k])->right,
        decreases parts@.len() - i,
    {
        assert(all[i as int] == parts@[i as int]@);
        match parts[i] {
            Expr::Binary { op: held, left, right } => {
                if !same(held, op) {
                    return None;
                }
                ls.push(left);
                rs.push(right);
            },
            _ => {
                return None;
            },
        }
        i = i + 1;
    }
    proof {
        assert forall|k: int| 0 <= k < parts@.len() implies ref_models(ls@)[k] == lefts(all)[k] && ref_models(rs@)[k]
            == rights(all)[k] by {
            assert((*parts@[k]) is Binary);
            assert(all[k] == parts@[k]@);
        }
        assert(ref_models(ls@) =~= lefts(all));
        assert(ref_models(rs@) =~= rights(all));
    }
    Some((ls, rs))
}

/// The other operand of each value, where they all have one on either side.
fn others<'a>(ls: &Vec<&'a Expr>, rs: &Vec<&'a Expr>, shared: &Expr, Ghost(all): Ghost<Seq<ExprModel>>) -> (r: Option<
    Vec<&'a Expr>,
>)
    requires
        ls@.len() == rs@.len(),
        ref_models(ls@) == lefts(all),
        ref_models(rs@) == rights(all),
    ensures
        match r {
            Some(held) => shares(all, shared@) && ref_models(held@) == varying(all, shared@) && (forall|i: int|
                0 <= i < ls@.len() ==> #[trigger] held@[i] == ls@[i] || held@[i] == rs@[i]),
            None => !shares(all, shared@),
        },
{
    proof {
        assert(ref_models(ls@).len() == ls@.len());
    }
    let mut out: Vec<&'a Expr> = Vec::new();
    let mut i: usize = 0;
    while i < ls.len()
        invariant
            i <= ls@.len(),
            ls@.len() == rs@.len(),
            all.len() == ls@.len(),
            ref_models(ls@) == lefts(all),
            ref_models(rs@) == rights(all),
            out@.len() == i,
            forall|k: int| 0 <= k < i ==> *(#[trigger] all[k])->left == shared@ || *all[k]->right == shared@,
            forall|k: int| 0 <= k < i ==> #[trigger] out@[k] == ls@[k] || out@[k] == rs@[k],
            forall|k: int| 0 <= k < i ==> (#[trigger] out@[k])@ == varying(all, shared@)[k],
        decreases ls@.len() - i,
    {
        proof {
            assert(ref_models(ls@)[i as int] == ls@[i as int]@);
            assert(ref_models(rs@)[i as int] == rs@[i as int]@);
            assert(lefts(all)[i as int] == *all[i as int]->left);
            assert(rights(all)[i as int] == *all[i as int]->right);
        }
        if same_expr(ls[i], shared) {
            out.push(rs[i]);
        } else if same_expr(rs[i], shared) {
            out.push(ls[i]);
        } else {
            return None;
        }
        i = i + 1;
    }
    proof {
        assert(ref_models(out@) =~= varying(all, shared@));
    }
    Some(out)
}

fn gather_lanes(parts: &Vec<&Expr>) -> (r: Option<Expr>)
    ensures
        match r {
            Some(held) => gathered_lanes(ref_models(parts@)) == Some(held@),
            None => gathered_lanes(ref_models(parts@)) is None,
        },
{
    let ghost all = ref_models(parts@);
    let mut args: Vec<Expr> = Vec::new();
    let mut i: usize = 0;
    while i < parts.len()
        invariant
            i <= parts@.len(),
            all == ref_models(parts@),
            args@.len() == i,
            forall|k: int| 0 <= k < i ==> component_count(#[trigger] all[k]) == 1,
            forall|k: int| 0 <= k < i ==> (#[trigger] args@[k])@ == all[k],
        decreases parts@.len() - i,
    {
        assert(all[i as int] == parts@[i as int]@);
        if parts[i].components() != 1 {
            return None;
        }
        args.push(parts[i].duplicate());
        i = i + 1;
    }
    proof {
        assert(models(args@) =~= all);
    }
    let d = decimal(parts.len() as u64);
    let name = cat2("float", d.as_str());
    Some(call(name.as_str(), args, parts.len()))
}

fn lanes_as_one<'a>(parts: &Vec<&'a Expr>) -> (r: Option<Expr>)
    ensures
        match r {
            Some(held) => lanewise(ref_models(parts@)) == Some(held@),
            None => lanewise(ref_models(parts@)) is None,
        },
    decreases parts@[0],
{
    let ghost all = ref_models(parts@);
    if parts.len() == 0 {
        return None;
    }
    assert(all[0] == parts@[0]@);
    let first = parts[0];
    if are_same(parts) {
        return Some(first.duplicate());
    }
    if let Expr::Binary { op, left, right } = first {
        if let Some((ls, rs)) = sides(parts, op) {
            proof {
                assert((*parts@[0]) is Binary);
                assert(ref_models(ls@).len() == ls@.len());
                assert(ref_models(rs@).len() == rs@.len());
                assert(lefts(all)[0] == (**left)@);
                assert(rights(all)[0] == (**right)@);
            }
            let steady_left: bool = are_same(&ls);
            let steady_right: bool = are_same(&rs);
            if steady_left && !steady_right {
                return match lanes_as_one(&rs) {
                    Some(held) => Some(binary(*op, left.duplicate(), held)),
                    None => None,
                };
            }
            if !steady_left && steady_right {
                return match lanes_as_one(&ls) {
                    Some(held) => Some(binary(*op, held, right.duplicate())),
                    None => None,
                };
            }
            if same(op, "*") || same(op, "+") || same(op, "&") || same(op, "|") || same(op, "^") {
                if let Some(held) = others(&ls, &rs, left, Ghost(all)) {
                    assert(held@[0] == ls@[0] || held@[0] == rs@[0]);
                    return match lanes_as_one(&held) {
                        Some(one) => Some(binary(*op, one, left.duplicate())),
                        None => gather_lanes(parts),
                    };
                }
                if let Some(held) = others(&ls, &rs, right, Ghost(all)) {
                    assert(held@[0] == ls@[0] || held@[0] == rs@[0]);
                    return match lanes_as_one(&held) {
                        Some(one) => Some(binary(*op, one, right.duplicate())),
                        None => gather_lanes(parts),
                    };
                }
            }
        } else {
            proof {
                assert(all[0] is Binary && all[0]->Binary_op == op@);
            }
        }
    }
    gather_lanes(parts)
}

/// Where a run of lanes of one register ends, as far as it is known to reach.
pub open spec fn gather_end(lines: Seq<Option<EmittedModel>>, drop: Seq<bool>, at: int, pos: int) -> int
    decreases lines.len() - pos,
{
    if beside(lines, at, pos) && !drop[pos] {
        gather_end(lines, drop, at, pos + 1)
    } else {
        pos
    }
}

/// The lanes that a run writes, as they come.
pub open spec fn run_lanes(lines: Seq<Option<EmittedModel>>, at: int, end: int) -> Seq<u8> {
    Seq::new((end - at) as nat, |i: int| lines[at + i]->0.lanes[0])
}

/// The values that a run writes, as they come.
pub open spec fn run_values(lines: Seq<Option<EmittedModel>>, at: int, end: int) -> Seq<ExprModel> {
    Seq::new((end - at) as nat, |i: int| lines[at + i]->0.expr)
}

/// What a run of lanes that starts at a line becomes, and where it ends: consecutive lanes of a register that
/// compute the same thing bar one operand, written as one assignment.
pub open spec fn gather_step(lines: Seq<Option<EmittedModel>>, drop: Seq<bool>, at: int) -> Option<(Seq<char>, int)> {
    if !(0 <= at < lines.len()) || lines[at] is None || lines[at]->0.lanes.len() != 1 || drop[at] {
        None
    } else {
        let first = lines[at]->0;
        let end = gather_end(lines, drop, at, at + 1);
        if end - at < 2 || reads(first.expr, first.base) {
            None
        } else {
            match lanewise(run_values(lines, at, end)) {
                None => None,
                Some(value) => Some(
                    (assignment_text(first.depth, target_text(first.base, run_lanes(lines, at, end)), value), end),
                ),
            }
        }
    }
}

/// The marks with those between two places set.
pub open spec fn marked(drop: Seq<bool>, from: int, to: int) -> Seq<bool> {
    Seq::new(drop.len(), |i: int| drop[i] || from <= i < to)
}

/// Lines and the marks of those to drop.
pub struct MarkedModel {
    pub out: Seq<Seq<char>>,
    pub drop: Seq<bool>,
}

/// The lines from one on with each run of slices in one line.
pub open spec fn sliced(lines: Seq<Option<EmittedModel>>, held: MarkedModel, at: int) -> MarkedModel
    decreases lines.len() - at,
{
    if at < 0 || at >= lines.len() {
        held
    } else {
        match slice_step(lines, at) {
            None => sliced(lines, held, at + 1),
            Some((text, end)) => if end <= at || end > lines.len() {
                held
            } else {
                sliced(
                    lines,
                    MarkedModel { out: held.out.update(at, text), drop: marked(held.drop, at + 1, end) },
                    end,
                )
            },
        }
    }
}

/// The lines from one on with each run of lanes that compute alike in one line.
pub open spec fn gathered(lines: Seq<Option<EmittedModel>>, held: MarkedModel, at: int) -> MarkedModel
    decreases lines.len() - at,
{
    if at < 0 || at >= lines.len() {
        held
    } else {
        match gather_step(lines, held.drop, at) {
            None => gathered(lines, held, at + 1),
            Some((text, end)) => if end <= at || end > lines.len() {
                held
            } else {
                gathered(
                    lines,
                    MarkedModel { out: held.out.update(at, text), drop: marked(held.drop, at + 1, end) },
                    end,
                )
            },
        }
    }
}

/// None of the members is marked.
pub open spec fn unmarked(drop: Seq<bool>, members: Seq<nat>) -> bool {
    forall|i: int| 0 <= i < members.len() ==> !drop[(#[trigger] members[i]) as int]
}

/// The marks with those of members set, all but the last one's.
pub open spec fn marked_members(drop: Seq<bool>, members: Seq<nat>, last: int) -> Seq<bool> {
    Seq::new(drop.len(), |i: int| drop[i] || (i != last && members.contains(i as nat)))
}

/// The values that members write.
pub open spec fn member_values(lines: Seq<Option<EmittedModel>>, members: Seq<nat>) -> Seq<ExprModel> {
    Seq::new(members.len(), |i: int| lines[members[i] as int]->0.expr)
}

/// The lines from one on with the writes that fill a register between them in the one value they build.
pub open spec fn filled(lines: Seq<Option<EmittedModel>>, held: MarkedModel, at: int) -> MarkedModel
    decreases lines.len() - at,
{
    if at < 0 || at >= lines.len() {
        held
    } else {
        match whole_at(lines, at) {
            None => filled(lines, held, at + 1),
            Some((group, last)) => if !unmarked(held.drop, group) {
                filled(lines, held, at + 1)
            } else if last < at || last >= lines.len() {
                held
            } else {
                let line = lines[last]->0;
                filled(
                    lines,
                    MarkedModel {
                        out: held.out.update(
                            last,
                            assignment_text(
                                line.depth,
                                line.base,
                                call_model("float4"@, member_values(lines, group), 4),
                            ),
                        ),
                        drop: marked_members(held.drop, group, last),
                    },
                    last + 1,
                )
            },
        }
    }
}

/// The first lines that are not marked.
pub open spec fn kept(held: MarkedModel, n: int) -> Seq<Seq<char>>
    decreases n,
{
    if n <= 0 {
        Seq::empty()
    } else if held.drop[n - 1] {
        kept(held, n - 1)
    } else {
        kept(held, n - 1).push(held.out[n - 1])
    }
}

/// The lines with component writes put back together: slices of one value, lanes that compute alike, and writes
/// that fill a register between them.
pub open spec fn coalesced(out: Seq<Seq<char>>, lines: Seq<Option<EmittedModel>>) -> Seq<Seq<char>> {
    let start = MarkedModel { out, drop: Seq::new(out.len(), |i: int| false) };
    let done = filled(lines, gathered(lines, sliced(lines, start, 0), 0), 0);
    kept(done, out.len() as int)
}

spec fn marks_of(out: Seq<String>, drop: Seq<bool>) -> MarkedModel {
    MarkedModel { out: texts(out), drop }
}

fn mark(drop: &mut Vec<bool>, from: usize, to: usize)
    requires
        from <= to <= old(drop)@.len(),
    ensures
        final(drop)@ == marked(old(drop)@, from as int, to as int),
{
    let ghost before = drop@;
    let mut i: usize = from;
    proof {
        assert(drop@ =~= marked(before, from as int, from as int));
    }
    while i < to
        invariant
            from <= i <= to <= drop@.len(),
            drop@ == marked(before, from as int, i as int),
        decreases to - i,
    {
        drop.set(i, true);
        proof {
            assert(drop@ =~= marked(before, from as int, i + 1));
        }
        i = i + 1;
    }
}

fn slice_all(out: &mut Vec<String>, lines: &Vec<Option<Emitted>>, drop: &mut Vec<bool>)
    requires
        lines@.len() <= old(out)@.len(),
        old(drop)@.len() == old(out)@.len(),
    ensures
        final(out)@.len() == old(out)@.len(),
        final(drop)@.len() == old(out)@.len(),
        marks_of(final(out)@, final(drop)@) == sliced(line_models(lines@), marks_of(old(out)@, old(drop)@), 0),
{
    let ghost all = line_models(lines@);
    let ghost want = sliced(all, marks_of(out@, drop@), 0);
    let mut at: usize = 0;
    while at < lines.len()
        invariant
            at <= lines@.len(),
            lines@.len() <= out@.len(),
            out@.len() == old(out)@.len(),
            drop@.len() == out@.len(),
            all == line_models(lines@),
            want == sliced(all, marks_of(out@, drop@), at as int),
        decreases lines@.len() - at,
    {
        match slice_run(lines, at) {
            None => {
                at = at + 1;
            },
            Some((text, end)) => {
                let ghost before = texts(out@);
                let ghost t = text@;
                out.set(at, text);
                mark(drop, at + 1, end);
                proof {
                    assert(texts(out@) =~= before.update(at as int, t));
                }
                at = end;
            },
        }
    }
}

fn gather_run(lines: &Vec<Option<Emitted>>, drop: &Vec<bool>, at: usize) -> (r: Option<(String, usize)>)
    requires
        at < lines@.len(),
        lines@.len() <= drop@.len(),
    ensures
        match r {
            Some((text, end)) => gather_step(line_models(lines@), drop@, at as int) == Some((text@, end as int)) && at
                < end <= lines@.len(),
            None => gather_step(line_models(lines@), drop@, at as int) is None,
        },
{
    let ghost all = line_models(lines@);
    let ghost from = at as int;
    assert(all[at as int] == line_model(lines@[at as int]));
    let first = match &lines[at] {
        Some(held) => held,
        None => {
            return None;
        },
    };
    if first.lanes.len() != 1 || drop[at] {
        return None;
    }
    assert(lines.len() == lines@.len());
    let mut end: usize = at + 1;
    let mut into: Vec<u8> = Vec::new();
    let mut parts: Vec<&Expr> = Vec::new();
    into.push(first.lanes[0]);
    parts.push(&first.expr);
    proof {
        assert(into@ =~= run_lanes(all, from, from + 1));
        assert(ref_models(parts@) =~= run_values(all, from, from + 1));
    }
    while end < lines.len()
        invariant_except_break
            gather_end(all, drop@, from, from + 1) == gather_end(all, drop@, from, end as int),
        invariant
            from == at,
            at < end <= lines@.len(),
            lines@.len() <= drop@.len(),
            all == line_models(lines@),
            all[at as int] == Some(first@),
            forall|k: int| at <= k < end ==> (#[trigger] lines@[k]) is Some && lines@[k]->0.lanes@.len() == 1,
            into@ == run_lanes(all, from, end as int),
            ref_models(parts@) == run_values(all, from, end as int),
        ensures
            gather_end(all, drop@, from, from + 1) == end,
        decreases lines@.len() - end,
    {
        if drop[end] || !is_beside(lines, at, end, first) {
            break;
        }
        assert(all[end as int] == line_model(lines@[end as int]));
        let held = match &lines[end] {
            Some(held) => held,
            None => {
                break;
            },
        };
        let ghost before = ref_models(parts@);
        into.push(held.lanes[0]);
        parts.push(&held.expr);
        proof {
            assert(into@ =~= run_lanes(all, from, end + 1));
            assert(ref_models(parts@) =~= before.push(held.expr@));
            assert(run_values(all, from, end + 1) =~= before.push(held.expr@));
        }
        end = end + 1;
    }
    if end - at < 2 || reads_register(&first.expr, first.base.as_str()) {
        return None;
    }
    match lanes_as_one(&parts) {
        None => None,
        Some(value) => {
            let place = target(first.base.as_str(), &into);
            Some((assignment(first.depth, place.as_str(), &value), end))
        },
    }
}

fn gather_all(out: &mut Vec<String>, lines: &Vec<Option<Emitted>>, drop: &mut Vec<bool>)
    requires
        lines@.len() <= old(out)@.len(),
        old(drop)@.len() == old(out)@.len(),
    ensures
        final(out)@.len() == old(out)@.len(),
        final(drop)@.len() == old(out)@.len(),
        marks_of(final(out)@, final(drop)@) == gathered(line_models(lines@), marks_of(old(out)@, old(drop)@), 0),
{
    let ghost all = line_models(lines@);
    let ghost want = gathered(all, marks_of(out@, drop@), 0);
    let mut at: usize = 0;
    while at < lines.len()
        invariant
            at <= lines@.len(),
            lines@.len() <= out@.len(),
            out@.len() == old(out)@.len(),
            drop@.len() == out@.len(),
            all == line_models(lines@),
            want == gathered(all, marks_of(out@, drop@), at as int),
        decreases lines@.len() - at,
    {
        match gather_run(lines, drop, at) {
            None => {
                at = at + 1;
            },
            Some((text, end)) => {
                let ghost before = texts(out@);
                let ghost t = text@;
                out.set(at, text);
                mark(drop, at + 1, end);
                proof {
                    assert(texts(out@) =~= before.update(at as int, t));
                }
                at = end;
            },
        }
    }
}

fn none_marked(drop: &Vec<bool>, members: &Vec<usize>) -> (r: bool)
    requires
        forall|i: int| 0 <= i < members@.len() ==> #[trigger] members@[i] < drop@.len(),
    ensures
        r == unmarked(drop@, place_models(members@)),
{
    let ghost places = place_models(members@);
    let mut i: usize = 0;
    while i < members.len()
        invariant
            i <= members@.len(),
            places == place_models(members@),
            forall|k: int| 0 <= k < members@.len() ==> #[trigger] members@[k] < drop@.len(),
            forall|k: int| 0 <= k < i ==> !drop@[(#[trigger] places[k]) as int],
        decreases members@.len() - i,
    {
        assert(places[i as int] == members@[i as int]);
        if drop[members[i]] {
            return false;
        }
        i = i + 1;
    }
    true
}

fn mark_members(drop: &mut Vec<bool>, members: &Vec<usize>, last: usize)
    requires
        forall|i: int| 0 <= i < members@.len() ==> #[trigger] members@[i] < old(drop)@.len(),
    ensures
        final(drop)@ == marked_members(old(drop)@, place_models(members@), last as int),
{
    let ghost before = drop@;
    let ghost places = place_models(members@);
    let mut i: usize = 0;
    proof {
        assert(drop@ =~= marked_members(before, places.take(0), last as int));
    }
    while i < members.len()
        invariant
            i <= members@.len(),
            drop@.len() == before.len(),
            places == place_models(members@),
            forall|k: int| 0 <= k < members@.len() ==> #[trigger] members@[k] < drop@.len(),
            drop@ == marked_members(before, places.take(i as int), last as int),
        decreases members@.len() - i,
    {
        let ghost had = drop@;
        let place: usize = members[i];
        assert(members@[i as int] < drop@.len());
        if place != last {
            drop.set(place, true);
        }
        proof {
            let short = places.take(i as int);
            let long = places.take(i + 1);
            assert(long =~= short.push(place as nat));
            assert forall|k: int| 0 <= k < before.len() implies #[trigger] drop@[k] == marked_members(
                before,
                long,
                last as int,
            )[k] by {
                assert(had[k] == marked_members(before, short, last as int)[k]);
                if short.contains(k as nat) {
                    let j = choose|j: int| 0 <= j < short.len() && short[j] == k as nat;
                    assert(long[j] == k as nat);
                }
                if long.contains(k as nat) && k != place {
                    let j = choose|j: int| 0 <= j < long.len() && long[j] == k as nat;
                    assert(short[j] == k as nat);
                }
                if k == place {
                    assert(long[i as int] == k as nat);
                    assert(long.contains(k as nat));
                }
            }
            assert(drop@ =~= marked_members(before, long, last as int));
        }
        i = i + 1;
    }
    proof {
        assert(places.take(i as int) =~= places);
    }
}

fn fill_all(out: &mut Vec<String>, lines: &Vec<Option<Emitted>>, drop: &mut Vec<bool>)
    requires
        lines@.len() <= old(out)@.len(),
        old(drop)@.len() == old(out)@.len(),
    ensures
        final(out)@.len() == old(out)@.len(),
        final(drop)@.len() == old(out)@.len(),
        marks_of(final(out)@, final(drop)@) == filled(line_models(lines@), marks_of(old(out)@, old(drop)@), 0),
{
    let ghost all = line_models(lines@);
    let ghost want = filled(all, marks_of(out@, drop@), 0);
    let mut at: usize = 0;
    while at < lines.len()
        invariant
            at <= lines@.len(),
            lines@.len() <= out@.len(),
            out@.len() == old(out)@.len(),
            drop@.len() == out@.len(),
            all == line_models(lines@),
            want == filled(all, marks_of(out@, drop@), at as int),
        decreases lines@.len() - at,
    {
        match whole(lines, at) {
            None => {
                at = at + 1;
            },
            Some((group, last)) => {
                proof {
                    assert forall|i: int| 0 <= i < group@.len() implies #[trigger] group@[i] < drop@.len() by {
                        assert(group@[i] < lines@.len());
                    }
                }
                if !none_marked(drop, &group) {
                    at = at + 1;
                } else {
                    let ghost places = place_models(group@);
                    let mut args: Vec<Expr> = Vec::new();
                    let mut i: usize = 0;
                    while i < group.len()
                        invariant
                            i <= group@.len(),
                            assigned(lines@, group@),
                            all == line_models(lines@),
                            places == place_models(group@),
                            args@.len() == i,
                            forall|k: int| 0 <= k < i ==> (#[trigger] args@[k])@ == all[places[k] as int]->0.expr,
                        decreases group@.len() - i,
                    {
                        let place: usize = group[i];
                        assert(group@[i as int] < lines@.len());
                        assert(all[place as int] == line_model(lines@[place as int]));
                        if let Some(held) = &lines[place] {
                            args.push(held.expr.duplicate());
                        }
                        i = i + 1;
                    }
                    proof {
                        assert(models(args@) =~= member_values(all, places));
                    }
                    let value = call("float4", args, 4);
                    assert(all[last as int] == line_model(lines@[last as int]));
                    if let Some(held) = &lines[last] {
                        let ghost before = texts(out@);
                        let text = assignment(held.depth, held.base.as_str(), &value);
                        let ghost t = text@;
                        out.set(last, text);
                        proof {
                            assert(texts(out@) =~= before.update(last as int, t));
                        }
                    }
                    mark_members(drop, &group, last);
                    at = last + 1;
                }
            },
        }
    }
}

/// Put component writes back together.
pub fn coalesce(out: &mut Vec<String>, lines: &Vec<Option<Emitted>>)
    requires
        lines@.len() <= old(out)@.len(),
    ensures
        texts(final(out)@) == coalesced(texts(old(out)@), line_models(lines@)),
{
    let ghost had = texts(out@);
    let mut drop: Vec<bool> = Vec::new();
    let mut i: usize = 0;
    while i < out.len()
        invariant
            i <= out@.len(),
            out@ == old(out)@,
            drop@.len() == i,
            forall|k: int| 0 <= k < i ==> #[trigger] drop@[k] == false,
        decreases out@.len() - i,
    {
        drop.push(false);
        i = i + 1;
    }
    proof {
        assert(drop@ =~= Seq::new(had.len(), |i: int| false));
    }
    slice_all(out, lines, &mut drop);
    gather_all(out, lines, &mut drop);
    fill_all(out, lines, &mut drop);
    let ghost done = marks_of(out@, drop@);
    let mut text: Vec<String> = Vec::new();
    let mut i: usize = 0;
    proof {
        assert(texts(text@) =~= kept(done, 0));
    }
    while i < out.len()
        invariant
            i <= out@.len(),
            drop@.len() == out@.len(),
            done == marks_of(out@, drop@),
            texts(text@) == kept(done, i as int),
        decreases out@.len() - i,
    {
        if !drop[i] {
            let ghost before = texts(text@);
            text.push(out[i].clone());
            proof {
                assert(done.out[i as int] == out@[i as int]@);
                assert(texts(text@) =~= before.push(out@[i as int]@));
            }
        }
        i = i + 1;
    }
    *out = text;
}

} // verus!
