//! What putting pieces back together keeps: sums of weighted rows, dot products of rows, and writes of single lanes.
use super::expr::{call_model, component_count, ExprModel};
use super::matrix::{
    added_up, all_same, assignment_text, beside, commutes, consecutive, constructor_name, declared, filling,
    first_row, gather_end, gather_step, gathered_lanes, inner_of, joins, keyed_lines, laid, lane_taken, lanes_from,
    lanes_into, lanewise, leading, lefts, offset_of, one_base, ordered, reads, rest_in, rights, row_of, row_value,
    row_width, run_at, run_end, shares, slice_end, slice_of, slice_pairs, slice_step, steps_of, summed, target_text,
    terms, transformed, varying, vector_value, weighs, weight_indices, weight_of, weights_in, whole_at, EmittedModel,
    RowModel, WeightModel,
};
use super::meaning::{arithmetic, spreads, value, values, Meaning};
use super::names::{by_key, settled, unkeyed, Names};
use crate::text::dec;
use vstd::prelude::*;
use vstd::seq_lib::{commutative_foldl, lemma_fold_left_permutation, to_multiset_build, to_multiset_insert};

verus! {

proof fn lemma_settled_multiset<T>(list: Seq<(nat, T)>, key: nat, item: T, from: int)
    requires
        0 <= from <= list.len(),
    ensures
        settled(list, key, item, from).to_multiset() == list.to_multiset().insert((key, item)),
    decreases list.len() - from,
{
    if from < list.len() && list[from].0 <= key {
        lemma_settled_multiset(list, key, item, from + 1);
    } else {
        to_multiset_insert(list, from, (key, item));
    }
}

/// Sorting neither loses an item nor makes one up.
pub proof fn law_sorting_keeps_the_items<T>(items: Seq<(nat, T)>, n: int)
    requires
        0 <= n <= items.len(),
    ensures
        by_key(items, n).to_multiset() == items.take(n).to_multiset(),
        by_key(items, n).len() == n,
    decreases n,
{
    if n > 0 {
        law_sorting_keeps_the_items(items, n - 1);
        let before = by_key(items, n - 1);
        lemma_settled_multiset(before, items[n - 1].0, items[n - 1].1, 0);
        to_multiset_build(items.take(n - 1), items[n - 1]);
        assert(items.take(n) =~= items.take(n - 1).push(items[n - 1]));
        assert(items[n - 1] == (items[n - 1].0, items[n - 1].1));
    } else {
        assert(by_key(items, n) =~= items.take(0));
    }
    vstd::seq_lib::to_multiset_len(by_key(items, n));
    vstd::seq_lib::to_multiset_len(items.take(n));
}

/// Sums do not depend on how they are bracketed.
pub open spec fn associative<V>(m: Meaning<V>) -> bool {
    forall|a: V, b: V, c: V| #[trigger] m.bin("+"@, m.bin("+"@, a, b), c) == m.bin("+"@, a, m.bin("+"@, b, c))
}

/// A value with the first of more added to it one by one.
pub open spec fn total<V>(m: Meaning<V>, start: V, list: Seq<V>, n: int) -> V
    decreases n,
{
    if n <= 0 {
        start
    } else {
        m.bin("+"@, total(m, start, list, n - 1), list[n - 1])
    }
}

/// A value with the first of some rows added to it, each times its own weight.
pub open spec fn weighted<V>(m: Meaning<V>, start: V, weights: Seq<V>, rows: Seq<V>, n: int) -> V
    decreases n,
{
    if n <= 0 {
        start
    } else {
        m.bin("+"@, weighted(m, start, weights, rows, n - 1), m.bin("*"@, weights[n - 1], rows[n - 1]))
    }
}

/// The components of a value that lanes name.
pub open spec fn components<V>(m: Meaning<V>, base: Seq<char>, lanes: Seq<u8>) -> Seq<V> {
    Seq::new(lanes.len(), |i: int| m.reg(base, seq![lanes[i]]))
}

/// The name of the constructor of a matrix.
pub open spec fn matrix_name(rows: nat, width: nat) -> Seq<char> {
    "float"@ + dec(rows) + "x"@ + dec(width)
}

/// A vector times a matrix is the sum of the matrix's rows, each times the component of the vector that goes with it,
/// whether the vector is spelled by its components or gathered; and one lane of a matrix times a vector is the dot product
/// of that row with the vector.
pub open spec fn multiplies<V>(m: Meaning<V>) -> bool {
    &&& forall|start: V, base: Seq<char>, lanes: Seq<u8>, rows: Seq<V>, width: nat|
        lanes.len() == rows.len() ==> #[trigger] m.bin(
            "+"@,
            start,
            m.f2("mul"@, m.reg(base, lanes), m.fun(matrix_name(rows.len(), width), rows)),
        ) == weighted(m, start, components(m, base, lanes), rows, rows.len() as int)
    &&& forall|start: V, weights: Seq<V>, rows: Seq<V>, width: nat|
        weights.len() == rows.len() ==> #[trigger] m.bin(
            "+"@,
            start,
            m.f2("mul"@, m.fun("float"@ + dec(weights.len()), weights), m.fun(matrix_name(rows.len(), width), rows)),
        ) == weighted(m, start, weights, rows, rows.len() as int)
    &&& forall|rows: Seq<V>, width: nat, vector: V, i: u8|
        i < rows.len() ==> #[trigger] m.take(
            m.f2("mul"@, m.fun(matrix_name(rows.len(), width), rows), vector),
            seq_of(i),
        ) == m.f2("dot"@, rows[i as int], vector)
}

/// One lane.
pub open spec fn seq_of(lane: u8) -> Seq<u8> {
    seq![lane]
}

/// These are the first rows of a matrix, in order, each taken from its first component on.
pub open spec fn first_rows(rows: Seq<ExprModel>, matrix: Seq<char>, width: nat) -> bool {
    forall|i: int|
        0 <= i < rows.len() ==> {
            &&& row_of(#[trigger] rows[i]) is Some
            &&& row_of(rows[i])->0.matrix == matrix
            &&& offset_of(row_of(rows[i])->0.index) == (Seq::<char>::empty(), i as u32)
            &&& leading(row_of(rows[i])->0.columns)
            &&& row_width(row_of(rows[i])->0.columns) == width
        }
}

/// A matrix that is declared is the matrix of its rows, and less than the whole of it is a cast.
pub open spec fn named_matrices<V>(m: Meaning<V>, names: Names) -> bool {
    &&& forall|matrix: Seq<char>, rows: Seq<ExprModel>|
        #![trigger m.fun(matrix_name(rows.len(), 4), values(m, rows)), declared(names, matrix)]
        declared(names, matrix) is Some && declared(names, matrix)->0 == rows.len() && first_rows(rows, matrix, 4)
            ==> m.reg(matrix, Seq::empty()) == m.fun(matrix_name(rows.len(), 4), values(m, rows))
    &&& forall|matrix: Seq<char>, rows: Seq<ExprModel>, width: nat|
        #![trigger m.fun(matrix_name(rows.len(), width), values(m, rows)), declared(names, matrix)]
        declared(names, matrix) is Some && declared(names, matrix)->0 >= rows.len() && first_rows(rows, matrix, width)
            ==> m.reg("("@ + matrix_name(rows.len(), width) + ")"@ + matrix, Seq::empty()) == m.fun(
            matrix_name(rows.len(), width),
            values(m, rows),
        )
}

/// What the sum of values is, needs of a reading.
pub open spec fn summable<V>(m: Meaning<V>) -> bool {
    arithmetic(m) && associative(m) && spreads(m) && multiplies(m)
}

proof fn lemma_slide<V>(m: Meaning<V>, start: V, extra: V, list: Seq<V>, n: int)
    requires
        arithmetic(m),
        associative(m),
        0 <= n <= list.len(),
    ensures
        total(m, m.bin("+"@, start, extra), list, n) == m.bin("+"@, total(m, start, list, n), extra),
    decreases n,
{
    if n > 0 {
        lemma_slide(m, start, extra, list, n - 1);
        let (t, x) = (total(m, start, list, n - 1), list[n - 1]);
        assert(m.bin("+"@, m.bin("+"@, t, extra), x) == m.bin("+"@, t, m.bin("+"@, extra, x)));
        assert(m.bin("+"@, extra, x) == m.bin("+"@, x, extra));
        assert(m.bin("+"@, m.bin("+"@, t, x), extra) == m.bin("+"@, t, m.bin("+"@, x, extra)));
    }
}

proof fn lemma_total_split<V>(m: Meaning<V>, start: V, a: Seq<V>, b: Seq<V>, n: int)
    requires
        0 <= n <= b.len(),
    ensures
        total(m, start, a + b, a.len() + n) == total(m, total(m, start, a, a.len() as int), b, n),
    decreases n,
{
    if n > 0 {
        lemma_total_split(m, start, a, b, n - 1);
        assert((a + b)[a.len() + n - 1] == b[n - 1]);
    } else {
        lemma_total_prefix(m, start, a, a + b, a.len() as int);
    }
}

proof fn lemma_total_prefix<V>(m: Meaning<V>, start: V, a: Seq<V>, b: Seq<V>, n: int)
    requires
        0 <= n <= a.len(),
        n <= b.len(),
        forall|i: int| 0 <= i < n ==> #[trigger] a[i] == b[i],
    ensures
        total(m, start, a, n) == total(m, start, b, n),
    decreases n,
{
    if n > 0 {
        lemma_total_prefix(m, start, a, b, n - 1);
    }
}

/// A value and the sum of its terms are the same.
proof fn lemma_terms<V>(m: Meaning<V>, start: V, e: ExprModel)
    requires
        arithmetic(m),
        associative(m),
    ensures
        m.bin("+"@, start, value(m, e)) == total(m, start, values(m, terms(e)), terms(e).len() as int),
    decreases e,
{
    match e {
        ExprModel::Binary { op, left, right } => {
            if op == "+"@ {
                let (l, r) = (values(m, terms(*left)), values(m, terms(*right)));
                let between = m.bin("+"@, start, value(m, *left));
                lemma_terms(m, start, *left);
                lemma_terms(m, between, *right);
                assert(values(m, terms(e)) =~= l + r);
                lemma_total_split(m, start, l, r, r.len() as int);
                assert(m.bin("+"@, between, value(m, *right)) == m.bin(
                    "+"@,
                    start,
                    m.bin("+"@, value(m, *left), value(m, *right)),
                ));
            } else {
                lemma_one_term(m, start, e);
            }
        },
        _ => {
            lemma_one_term(m, start, e);
        },
    }
}

proof fn lemma_one_term<V>(m: Meaning<V>, start: V, e: ExprModel)
    ensures
        m.bin("+"@, start, value(m, e)) == total(m, start, values(m, seq![e]), 1),
{
    reveal_with_fuel(total, 2);
    assert(values(m, seq![e])[0] == value(m, e));
}

/// Two values that add to the same whatever they are added to are the same.
proof fn lemma_cancel<V>(m: Meaning<V>, x: V, y: V)
    requires
        arithmetic(m),
        associative(m),
        forall|start: V| #[trigger] m.bin("+"@, start, x) == m.bin("+"@, start, y),
    ensures
        x == y,
{
    let none = m.bin("-"@, x, x);
    assert(m.bin("+"@, none, x) == x);
    let less = m.un("-"@, x);
    assert(none == m.bin("+"@, x, less));
    assert(m.bin("+"@, m.bin("+"@, x, less), y) == m.bin("+"@, y, m.bin("+"@, x, less)));
    assert(m.bin("+"@, x, less) == m.bin("+"@, less, x));
    assert(m.bin("+"@, m.bin("+"@, y, less), x) == m.bin("+"@, y, m.bin("+"@, less, x)));
    assert(m.bin("-"@, y, x) == m.bin("+"@, y, less));
    assert(m.bin("+"@, m.bin("-"@, y, x), x) == y);
    assert(m.bin("+"@, none, x) == m.bin("+"@, none, y));
}

/// What a weighted row means.
spec fn share<V>(m: Meaning<V>, w: WeightModel) -> V {
    m.bin("*"@, m.reg(w.base, seq![w.lane]), value(m, w.held))
}

spec fn shares_of<V>(m: Meaning<V>, weights: Seq<WeightModel>) -> Seq<V> {
    Seq::new(weights.len(), |i: int| share(m, weights[i]))
}

proof fn lemma_weight<V>(m: Meaning<V>, e: ExprModel)
    requires
        arithmetic(m),
        spreads(m),
        weight_of(e) is Some,
    ensures
        value(m, e) == share(m, weight_of(e)->0),
        row_of(weight_of(e)->0.held) is Some,
{
    match e {
        ExprModel::Binary { op, left, right } => {
            let (splat, held) = if super::matrix::weighing(*left, *right) is Some {
                (*left, *right)
            } else {
                (*right, *left)
            };
            let swizzle = splat->Read_swizzle;
            let base = splat->Read_base;
            if swizzle.len() == 1 {
                assert(swizzle =~= seq![swizzle[0]]);
            } else {
                assert(m.reg(base, swizzle) == m.reg(base, seq![swizzle[0]]));
            }
            assert(m.bin("*"@, value(m, *left), value(m, *right)) == m.bin("*"@, value(m, *right), value(m, *left)));
        },
        _ => {},
    }
}

/// The terms of a sum are its weighted rows and the rest.
proof fn lemma_parted<V>(m: Meaning<V>, start: V, parts: Seq<ExprModel>, n: int, like: RowModel)
    requires
        arithmetic(m),
        associative(m),
        spreads(m),
        0 <= n <= parts.len(),
    ensures
        ({
            let w = weights_in(parts, n, like);
            let r = rest_in(parts, n, like);
            total(m, start, values(m, parts), n) == total(
                m,
                total(m, start, shares_of(m, w), w.len() as int),
                values(m, r),
                r.len() as int,
            )
        }),
        forall|i: int|
            0 <= i < weights_in(parts, n, like).len() ==> {
                &&& row_of((#[trigger] weights_in(parts, n, like)[i]).held) is Some
                &&& row_of(weights_in(parts, n, like)[i].held)->0.matrix == like.matrix
                &&& row_of(weights_in(parts, n, like)[i].held)->0.columns == like.columns
            },
    decreases n,
{
    if n > 0 {
        lemma_parted(m, start, parts, n - 1, like);
        let w0 = weights_in(parts, n - 1, like);
        let r0 = rest_in(parts, n - 1, like);
        let x = value(m, parts[n - 1]);
        let heavy = total(m, start, shares_of(m, w0), w0.len() as int);
        assert(values(m, parts)[n - 1] == x);
        if weighs(parts[n - 1], like) {
            let w = weights_in(parts, n, like);
            lemma_weight(m, parts[n - 1]);
            lemma_total_prefix(m, start, shares_of(m, w0), shares_of(m, w), w0.len() as int);
            assert(shares_of(m, w)[w.len() - 1] == x);
            lemma_slide(m, heavy, x, values(m, r0), r0.len() as int);
        } else {
            let r = rest_in(parts, n, like);
            lemma_total_prefix(m, heavy, values(m, r0), values(m, r), r0.len() as int);
            assert(values(m, r)[r.len() - 1] == x);
        }
    }
}

proof fn lemma_folded_total<V, A>(m: Meaning<V>, start: V, list: Seq<V>, items: Seq<A>, f: spec_fn(V, A) -> V)
    requires
        list.len() == items.len(),
        forall|v: V, i: int| 0 <= i < items.len() ==> #[trigger] f(v, items[i]) == m.bin("+"@, v, list[i]),
    ensures
        items.fold_left(start, f) == total(m, start, list, list.len() as int),
    decreases items.len(),
{
    if items.len() > 0 {
        let (fewer, shorter) = (items.drop_last(), list.drop_last());
        assert forall|v: V, i: int| 0 <= i < fewer.len() implies #[trigger] f(v, fewer[i]) == m.bin("+"@, v, shorter[i]) by {
            assert(fewer[i] == items[i]);
        }
        lemma_folded_total(m, start, shorter, fewer, f);
        lemma_total_prefix(m, start, shorter, list, shorter.len() as int);
        let v = total(m, start, list, list.len() - 1);
        assert(f(v, items[items.len() - 1]) == m.bin("+"@, v, list[list.len() - 1]));
    }
}

/// A sum is the same in whatever order its terms are taken.
proof fn lemma_reordered<V>(m: Meaning<V>, start: V, list: Seq<V>, keyed: Seq<(nat, nat)>, sorted: Seq<(nat, nat)>)
    requires
        arithmetic(m),
        associative(m),
        keyed.len() == list.len(),
        forall|i: int| 0 <= i < keyed.len() ==> (#[trigger] keyed[i]).1 == i,
        sorted.to_multiset() == keyed.to_multiset(),
        sorted.len() == keyed.len(),
    ensures
        total(m, start, list, list.len() as int) == total(
            m,
            start,
            Seq::new(sorted.len(), |i: int| list[sorted[i].1 as int]),
            sorted.len() as int,
        ),
{
    let f = |v: V, item: (nat, nat)| m.bin("+"@, v, list[item.1 as int]);
    assert(commutative_foldl(f)) by {
        assert forall|x: (nat, nat), y: (nat, nat), v: V| #[trigger] f(f(v, x), y) == f(f(v, y), x) by {
            let (a, b) = (list[x.1 as int], list[y.1 as int]);
            assert(m.bin("+"@, m.bin("+"@, v, a), b) == m.bin("+"@, v, m.bin("+"@, a, b)));
            assert(m.bin("+"@, a, b) == m.bin("+"@, b, a));
            assert(m.bin("+"@, m.bin("+"@, v, b), a) == m.bin("+"@, v, m.bin("+"@, b, a)));
        }
    }
    lemma_fold_left_permutation(sorted, keyed, f, start);
    lemma_folded_total(m, start, list, keyed, f);
    lemma_folded_total(m, start, Seq::new(sorted.len(), |i: int| list[sorted[i].1 as int]), sorted, f);
}

proof fn lemma_weighted_total<V>(m: Meaning<V>, start: V, weights: Seq<V>, rows: Seq<V>, list: Seq<V>, n: int)
    requires
        0 <= n <= list.len(),
        weights.len() == list.len(),
        rows.len() == list.len(),
        forall|i: int| 0 <= i < list.len() ==> #[trigger] list[i] == m.bin("*"@, weights[i], rows[i]),
    ensures
        weighted(m, start, weights, rows, n) == total(m, start, list, n),
    decreases n,
{
    if n > 0 {
        lemma_weighted_total(m, start, weights, rows, list, n - 1);
    }
}

proof fn lemma_added_up<V>(m: Meaning<V>, e: ExprModel, rest: Seq<ExprModel>, n: int)
    requires
        0 <= n <= rest.len(),
    ensures
        value(m, added_up(e, rest, n)) == total(m, value(m, e), values(m, rest), n),
    decreases n,
{
    if n > 0 {
        lemma_added_up(m, e, rest, n - 1);
    }
}

proof fn lemma_total_start<V>(m: Meaning<V>, start: V, first: V, list: Seq<V>, n: int)
    requires
        associative(m),
        0 <= n <= list.len(),
    ensures
        m.bin("+"@, start, total(m, first, list, n)) == total(m, m.bin("+"@, start, first), list, n),
    decreases n,
{
    if n > 0 {
        lemma_total_start(m, start, first, list, n - 1);
        let t = total(m, first, list, n - 1);
        assert(m.bin("+"@, m.bin("+"@, start, t), list[n - 1]) == m.bin("+"@, start, m.bin("+"@, t, list[n - 1])));
    }
}

proof fn lemma_nought()
    ensures
        offset_of("0"@) == (Seq::<char>::empty(), 0u32),
{
    reveal_strlit("0");
    reveal_strlit("+");
    let s = "0"@;
    assert(s.len() == 1 && s[0] == '0');
    reveal_with_fuel(super::words::digits_value, 2);
    assert(super::words::unsigned_part(s) =~= s);
    assert(super::words::number_of(s) == Some(0u32));
}

/// The weighted rows in the order of the matrix: their weights, their rows, and what they add up to.
proof fn lemma_ordered_weights<V>(m: Meaning<V>, names: Names, start: V, weights: Seq<WeightModel>, like: RowModel)
    requires
        summable(m),
        named_matrices(m, names),
        weights.len() > 0,
        consecutive(weight_indices(weights)) is Some,
        forall|i: int|
            0 <= i < weights.len() ==> {
                &&& row_of((#[trigger] weights[i]).held) is Some
                &&& row_of(weights[i].held)->0.matrix == like.matrix
                &&& row_of(weights[i].held)->0.columns == like.columns
            },
    ensures
        ({
            let indices = weight_indices(weights);
            let order = consecutive(indices)->0;
            let width = row_width(like.columns);
            let held = super::matrix::matrix_value(
                names,
                like.matrix,
                indices[order[0] as int] == "0"@ && leading(like.columns),
                order.len(),
                width,
                Seq::new(order.len(), |i: int| weights[order[i] as int].held),
                width as usize,
            );
            let product = call_model("mul"@, seq![vector_value(weights, order), held], width as usize);
            m.bin("+"@, start, value(m, product)) == total(m, start, shares_of(m, weights), weights.len() as int)
        }),
{
    let n = weights.len() as int;
    let indices = weight_indices(weights);
    let steps = steps_of(indices);
    let sorted = by_key(steps, n);
    let order = consecutive(indices)->0;
    let width = row_width(like.columns);
    law_sorting_keeps_the_items(steps, n);
    assert(steps.take(n) =~= steps);
    assert forall|i: int| 0 <= i < n implies (#[trigger] order[i]) < n && sorted[i] == steps[order[i] as int] && sorted[i].1
        == order[i] by {
        super::matrix::lemma_by_key_from(steps, n, i);
        let j = choose|j: int| 0 <= j < n && #[trigger] steps[j] == sorted[i];
        assert(steps[j].1 == j);
    }
    let list = shares_of(m, weights);
    let list2 = Seq::new(sorted.len(), |i: int| list[sorted[i].1 as int]);
    lemma_reordered(m, start, list, steps, sorted);
    let ws = Seq::new(n as nat, |i: int| m.reg(weights[order[i] as int].base, seq![weights[order[i] as int].lane]));
    let args = Seq::new(order.len(), |i: int| weights[order[i] as int].held);
    let rows = values(m, args);
    assert forall|i: int| 0 <= i < n implies #[trigger] list2[i] == m.bin("*"@, ws[i], rows[i]) by {
        assert(order[i] < n);
        assert(list2[i] == share(m, weights[order[i] as int]));
    }
    lemma_weighted_total(m, start, ws, rows, list2, n);
    // The matrix.
    let own = indices[order[0] as int] == "0"@ && leading(like.columns);
    let held = super::matrix::matrix_value(names, like.matrix, own, order.len(), width, args, width as usize);
    assert(constructor_name(order.len(), width) =~= matrix_name(args.len(), width));
    if own {
        lemma_nought();
        assert(order[0] < n);
        assert(sorted[0].0 == 0);
        assert forall|i: int| 0 <= i < args.len() implies {
            &&& row_of(#[trigger] args[i]) is Some
            &&& row_of(args[i])->0.matrix == like.matrix
            &&& offset_of(row_of(args[i])->0.index) == (Seq::<char>::empty(), i as u32)
            &&& leading(row_of(args[i])->0.columns)
            &&& row_width(row_of(args[i])->0.columns) == width
        } by {
            assert(order[i] < n);
            let at = order[i] as int;
            assert(indices[at] == row_of(args[i])->0.index);
            assert(sorted[i].0 == sorted[0].0 + i);
            assert(steps[at].0 == offset_of(indices[at]).1);
            assert(offset_of(indices[at]).0 == offset_of(indices[0]).0);
            assert(offset_of(indices[order[0] as int]).0 == offset_of(indices[0]).0);
        }
        assert(first_rows(args, like.matrix, width));
    }
    assert(value(m, held) == m.fun(matrix_name(rows.len(), width), rows));
    // The vector.
    let vector = vector_value(weights, order);
    let v = value(m, vector);
    lemma_pair(m, "mul"@, vector, held, width as usize);
    if one_base(weights) {
        let lanes = Seq::new(order.len(), |i: int| weights[order[i] as int].lane);
        assert(components(m, weights[0].base, lanes) =~= ws) by {
            assert forall|i: int| 0 <= i < n implies #[trigger] ws[i] == m.reg(weights[0].base, seq![lanes[i]]) by {
                assert(order[i] < n);
                assert(weights[order[i] as int].base == weights[0].base);
            }
        }
        assert(m.bin("+"@, start, m.f2("mul"@, m.reg(weights[0].base, lanes), m.fun(matrix_name(rows.len(), width), rows)))
            == weighted(m, start, components(m, weights[0].base, lanes), rows, rows.len() as int));
    } else {
        assert(values(m, vector->Call_args) =~= ws);
        assert(m.bin(
            "+"@,
            start,
            m.f2("mul"@, m.fun("float"@ + dec(ws.len()), ws), m.fun(matrix_name(rows.len(), width), rows)),
        ) == weighted(m, start, ws, rows, rows.len() as int));
    }
}

proof fn lemma_pair<V>(m: Meaning<V>, name: Seq<char>, a: ExprModel, b: ExprModel, width: usize)
    ensures
        value(m, call_model(name, seq![a, b], width)) == m.f2(name, value(m, a), value(m, b)),
{
    assert(values(m, seq![a, b]) =~= seq![value(m, a), value(m, b)]);
}

/// Reading a weighted sum of a matrix's rows as a transform keeps what it means.
pub proof fn law_transform_keeps_the_value<V>(m: Meaning<V>, names: Names, e: ExprModel)
    requires
        summable(m),
        named_matrices(m, names),
    ensures
        value(m, transformed(names, e)) == value(m, e),
{
    if summed(names, e) is Some {
        let parts = terms(e);
        let like = first_row(parts, 0)->0;
        let weights = weights_in(parts, parts.len() as int, like);
        let rest = rest_in(parts, parts.len() as int, like);
        let indices = weight_indices(weights);
        let order = consecutive(indices)->0;
        let width = row_width(like.columns);
        let held = super::matrix::matrix_value(
            names,
            like.matrix,
            indices[order[0] as int] == "0"@ && leading(like.columns),
            order.len(),
            width,
            Seq::new(order.len(), |i: int| weights[order[i] as int].held),
            width as usize,
        );
        let product = call_model("mul"@, seq![vector_value(weights, order), held], width as usize);
        let result = transformed(names, e);
        assert(result == added_up(product, rest, rest.len() as int));
        lemma_added_up(m, product, rest, rest.len() as int);
        assert forall|start: V| #[trigger] m.bin("+"@, start, value(m, result)) == m.bin("+"@, start, value(m, e)) by {
            lemma_total_start(m, start, value(m, product), values(m, rest), rest.len() as int);
            lemma_parted(m, start, parts, parts.len() as int, like);
            lemma_ordered_weights(m, names, start, weights, like);
            lemma_terms(m, start, e);
        }
        lemma_cancel(m, value(m, result), value(m, e));
    }
}

/// A row of a matrix is the same however it is bracketed.
pub open spec fn rows_read_alike<V>(m: Meaning<V>) -> bool {
    forall|e: ExprModel| #[trigger]
        row_of(e) is Some ==> value(m, e) == value(
            m,
            row_value(row_of(e)->0.matrix, row_of(e)->0.index, row_of(e)->0.columns),
        )
}

/// Each component of the multiply that a run of dot products becomes is the dot product of one of its lines, and lands
/// where that line put it.
pub proof fn law_each_row_lands_where_it_did<V>(
    m: Meaning<V>,
    names: Names,
    lines: Seq<Option<EmittedModel>>,
    at: int,
    i: u8,
)
    requires
        multiplies(m),
        rows_read_alike(m),
        run_at(lines, at) is Some,
        i < run_at(lines, at)->0.order.len(),
        declared(names, run_at(lines, at)->0.matrix) is None,
    ensures
        ({
            let f = run_at(lines, at)->0;
            let line = lines[at + f.order[i as int]];
            &&& f.order.len() == f.length
            &&& f.order[i as int] < f.length
            &&& line is Some
            &&& inner_of(line->0.expr) is Some
            &&& f.lanes(lines, at)[i as int] == line->0.lanes[0]
            &&& m.take(value(m, f.value(names)), seq_of(i)) == m.f2(
                "dot"@,
                value(
                    m,
                    row_value(
                        inner_of(line->0.expr)->0.row.matrix,
                        inner_of(line->0.expr)->0.row.index,
                        inner_of(line->0.expr)->0.row.columns,
                    ),
                ),
                value(m, inner_of(line->0.expr)->0.vector),
            )
        }),
{
    let f = run_at(lines, at)->0;
    let end = run_end(lines, at, at);
    lemma_run_joins(lines, at, at);
    let n = end - at;
    let steps = steps_of(f.indices);
    super::matrix::lemma_by_key_len(steps, n);
    super::matrix::lemma_by_key_from(steps, n, i as int);
    let j = choose|j: int| 0 <= j < n && #[trigger] steps[j] == by_key(steps, n)[i as int];
    assert(steps[j].1 == j);
    assert(f.order[i as int] == j);
    assert(joins(lines, at, at + j));
    let rows = f.rows();
    let width = row_width(f.columns);
    let held = call_model(constructor_name(f.length, width), rows, f.length as usize);
    assert(constructor_name(f.length, width) =~= matrix_name(rows.len(), width));
    lemma_pair(m, "mul"@, held, f.vector, f.length as usize);
    let vs = values(m, rows);
    assert(vs[i as int] == value(m, rows[i as int]));
    assert(m.take(m.f2("mul"@, m.fun(matrix_name(vs.len(), width), vs), value(m, f.vector)), seq_of(i)) == m.f2(
        "dot"@,
        vs[i as int],
        value(m, f.vector),
    ));
    assert(f.indices[j] == inner_of(lines[at + j]->0.expr)->0.row.index);
}

/// The lines of a run of dot products write one lane each of one register in one block, no lane twice, and the vector that
/// they all multiply does not come from that register.
pub proof fn law_run_writes_apart(lines: Seq<Option<EmittedModel>>, at: int, i: int, j: int)
    requires
        run_at(lines, at) is Some,
        at <= i < j < at + run_at(lines, at)->0.length,
    ensures
        ({
            let (a, b) = (lines[i]->0, lines[j]->0);
            &&& lines[i] is Some && lines[j] is Some
            &&& a.base == b.base && a.depth == b.depth
            &&& a.lanes.len() == 1 && b.lanes.len() == 1 && a.lanes[0] != b.lanes[0]
            &&& inner_of(a.expr) is Some && inner_of(b.expr) is Some
            &&& inner_of(a.expr)->0.vector == inner_of(b.expr)->0.vector
            &&& inner_of(a.expr)->0.row.matrix == inner_of(b.expr)->0.row.matrix
            &&& inner_of(a.expr)->0.row.columns == inner_of(b.expr)->0.row.columns
            &&& !reads(inner_of(a.expr)->0.vector, a.base)
        }),
{
    lemma_run_joins(lines, at, at);
    assert(joins(lines, at, i) && joins(lines, at, j));
    assert(!lane_taken(lines, at, j, lines[j]->0.lanes[0]));
    assert(lines[i]->0.lanes[0] != lines[j]->0.lanes[0]);
}

proof fn lemma_run_joins(lines: Seq<Option<EmittedModel>>, at: int, end: int)
    requires
        0 <= at <= end,
    ensures
        run_end(lines, at, end) >= end,
        forall|k: int| end <= k < run_end(lines, at, end) ==> #[trigger] joins(lines, at, k),
    decreases lines.len() - end,
{
    if joins(lines, at, end) {
        lemma_run_joins(lines, at, end + 1);
    }
}

proof fn lemma_gather_run(lines: Seq<Option<EmittedModel>>, drop: Seq<bool>, at: int, pos: int)
    requires
        0 <= at < pos,
    ensures
        gather_end(lines, drop, at, pos) >= pos,
        forall|k: int| pos <= k < gather_end(lines, drop, at, pos) ==> #[trigger] beside(lines, at, k) && !drop[k],
    decreases lines.len() - pos,
{
    if beside(lines, at, pos) && !drop[pos] {
        lemma_gather_run(lines, drop, at, pos + 1);
    }
}

proof fn lemma_slice_run(lines: Seq<Option<EmittedModel>>, at: int, pos: int)
    requires
        0 <= at < pos,
    ensures
        slice_end(lines, at, pos) >= pos,
        forall|k: int| pos <= k < slice_end(lines, at, pos) ==> #[trigger] beside(lines, at, k),
    decreases lines.len() - pos,
{
    if beside(lines, at, pos) {
        lemma_slice_run(lines, at, pos + 1);
    }
}

/// Two lines write different lanes of one register in one block, and neither reads the register: it is the same whichever
/// comes first, or whether they come at once.
pub open spec fn independent(lines: Seq<Option<EmittedModel>>, i: int, j: int) -> bool {
    let (a, b) = (lines[i]->0, lines[j]->0);
    &&& lines[i] is Some && lines[j] is Some
    &&& a.base == b.base && a.depth == b.depth
    &&& a.lanes.len() == 1 && b.lanes.len() == 1 && a.lanes[0] != b.lanes[0]
    &&& !reads(a.expr, a.base) && !reads(b.expr, b.base)
}

/// The lines that are joined into one, because they compute alike, are independent of each other.
pub proof fn law_joined_lanes_are_independent(lines: Seq<Option<EmittedModel>>, drop: Seq<bool>, at: int, i: int, j: int)
    requires
        gather_step(lines, drop, at) is Some,
        at <= i < j < (gather_step(lines, drop, at)->0).1,
    ensures
        independent(lines, i, j),
{
    lemma_gather_run(lines, drop, at, at + 1);
    assert(beside(lines, at, j));
    if i > at {
        assert(beside(lines, at, i));
    }
    assert(!lane_taken(lines, at, j, lines[j]->0.lanes[0]));
    assert(lines[i]->0.lanes[0] != lines[j]->0.lanes[0]);
}

/// And so are those that are joined because they are slices of one value.
pub proof fn law_joined_slices_are_independent(lines: Seq<Option<EmittedModel>>, at: int, i: int, j: int)
    requires
        slice_step(lines, at) is Some,
        at <= i < j < (slice_step(lines, at)->0).1,
    ensures
        independent(lines, i, j),
{
    lemma_slice_run(lines, at, at + 1);
    assert(beside(lines, at, j));
    if i > at {
        assert(beside(lines, at, i));
    }
    assert(!lane_taken(lines, at, j, lines[j]->0.lanes[0]));
    assert(lines[i]->0.lanes[0] != lines[j]->0.lanes[0]);
}

/// A value of one lane is the same in each.
pub open spec fn flat<V>(m: Meaning<V>, e: ExprModel, lane: Seq<u8>) -> bool
    decreases e,
{
    &&& m.take(value(m, e), lane) == value(m, e)
    &&& match e {
        ExprModel::Binary { left, right, .. } => flat(m, *left, lane) && flat(m, *right, lane),
        _ => true,
    }
}

/// The operators work on each lane alone, those that may be turned round mean the same so, and a vector that is gathered
/// has each value in its own lane.
pub open spec fn gathers<V>(m: Meaning<V>, i: u8) -> bool {
    &&& forall|op: Seq<char>, a: V, b: V| #[trigger]
        m.take(m.bin(op, a, b), seq_of(i)) == m.bin(op, m.take(a, seq_of(i)), m.take(b, seq_of(i)))
    &&& forall|op: Seq<char>, a: V, b: V|
        op == "*"@ || op == "+"@ || op == "&"@ || op == "|"@ || op == "^"@ ==> #[trigger] m.bin(op, a, b) == m.bin(op, b, a)
    &&& forall|list: Seq<V>|
        i < list.len() ==> #[trigger] m.take(m.fun("float"@ + dec(list.len()), list), seq_of(i)) == list[i as int]
}

/// The one expression that lanes are gathered into means, in each lane, what that lane was computed as.
pub proof fn law_gathered_lanes_keep_their_values<V>(m: Meaning<V>, parts: Seq<ExprModel>, i: u8)
    requires
        i < parts.len(),
        gathers(m, i),
        forall|k: int| 0 <= k < parts.len() ==> flat(m, #[trigger] parts[k], seq_of(i)),
        lanewise(parts) is Some,
    ensures
        m.take(value(m, lanewise(parts)->0), seq_of(i)) == value(m, parts[i as int]),
    decreases parts[0],
{
    let first = parts[0];
    let op = first->Binary_op;
    let ls = lefts(parts);
    let rs = rights(parts);
    let lane = seq_of(i);
    assert(flat(m, parts[i as int], lane));
    assert(flat(m, parts[0], lane));
    if all_same(parts) {
        assert(parts[i as int] == parts[0]);
    } else if first is Binary && super::matrix::all_made(parts, op) {
        assert forall|k: int| 0 <= k < parts.len() implies flat(m, #[trigger] ls[k], lane) && flat(m, rs[k], lane) && parts[k]
            is Binary && parts[k]->Binary_op == op by {
            assert(flat(m, parts[k], lane));
            assert(parts[k] is Binary);
        }
        assert forall|k: int| 0 <= k < parts.len() implies flat(m, #[trigger] rs[k], lane) by {
            assert(flat(m, ls[k], lane) && flat(m, rs[k], lane));
        }
        assert(ls[i as int] == *parts[i as int]->left && rs[i as int] == *parts[i as int]->right);
        assert(value(m, parts[i as int]) == m.bin(op, value(m, ls[i as int]), value(m, rs[i as int])));
        if all_same(ls) && !all_same(rs) {
            if lanewise(rs) is Some {
                law_gathered_lanes_keep_their_values(m, rs, i);
                assert(ls[i as int] == ls[0]);
                assert(flat(m, ls[0], lane));
            }
        } else if !all_same(ls) && all_same(rs) {
            if lanewise(ls) is Some {
                law_gathered_lanes_keep_their_values(m, ls, i);
                assert(rs[i as int] == rs[0]);
                assert(flat(m, rs[0], lane));
            }
        } else if commutes(op) && (shares(parts, ls[0]) || shares(parts, rs[0])) {
            let shared = if shares(parts, ls[0]) { ls[0] } else { rs[0] };
            let vs = varying(parts, shared);
            assert(flat(m, ls[0], lane) && flat(m, rs[0], lane));
            assert forall|k: int| 0 <= k < vs.len() implies flat(m, #[trigger] vs[k], lane) by {
                assert(flat(m, ls[k], lane) && flat(m, rs[k], lane));
            }
            assert(*parts[i as int]->left == shared || *parts[i as int]->right == shared);
            if lanewise(vs) is Some {
                law_gathered_lanes_keep_their_values(m, vs, i);
                let held = value(m, lanewise(vs)->0);
                assert(m.take(m.bin(op, held, value(m, shared)), lane) == m.bin(
                    op,
                    m.take(held, lane),
                    m.take(value(m, shared), lane),
                ));
                assert(m.bin(op, value(m, vs[i as int]), value(m, shared)) == m.bin(
                    op,
                    value(m, shared),
                    value(m, vs[i as int]),
                ));
            } else {
                lemma_gathered(m, parts, i);
            }
        } else {
            lemma_gathered(m, parts, i);
        }
    } else {
        lemma_gathered(m, parts, i);
    }
}

proof fn lemma_gathered<V>(m: Meaning<V>, parts: Seq<ExprModel>, i: u8)
    requires
        i < parts.len(),
        gathers(m, i),
        gathered_lanes(parts) is Some,
    ensures
        m.take(value(m, gathered_lanes(parts)->0), seq_of(i)) == value(m, parts[i as int]),
{
    let list = values(m, parts);
    assert(m.take(m.fun("float"@ + dec(list.len()), list), seq_of(i)) == list[i as int]);
}

/// The line at a place is one of those that fill the register of another.
spec fn filler(lines: Seq<Option<EmittedModel>>, at: int, g: int) -> bool {
    &&& at <= g < lines.len()
    &&& lines[g] is Some
    &&& lines[g]->0.base == lines[at]->0.base
    &&& lines[g]->0.depth == lines[at]->0.depth
}

/// The line at a place stands by while the register of another is filled: it is of the same block, neither writes nor
/// reads the register, and writes nothing that the writes before it read.
pub open spec fn bystander(lines: Seq<Option<EmittedModel>>, at: int, k: int, members: Seq<nat>) -> bool {
    let (first, held) = (lines[at]->0, lines[k]->0);
    &&& lines[k] is Some
    &&& held.base != first.base
    &&& held.depth == first.depth
    &&& !reads(held.expr, first.base)
    &&& forall|i: int|
        0 <= i < members.len() && members[i] < k ==> !reads(lines[(#[trigger] members[i]) as int]->0.expr, held.base)
}

proof fn lemma_filling(lines: Seq<Option<EmittedModel>>, at: int, pos: int, members: Seq<nat>, covered: Seq<u8>) -> (all: Seq<
    nat,
>)
    requires
        0 <= at < pos,
        filling(lines, at, pos, members, covered) is Some,
        members.len() > 0,
        members[0] == at,
        forall|i: int| 0 <= i < members.len() ==> (#[trigger] members[i]) < pos && filler(lines, at, members[i] as int),
        forall|k: int| at < k < pos ==> members.contains(k as nat) || #[trigger] bystander(lines, at, k, members),
    ensures
        ({
            let (order, last) = filling(lines, at, pos, members, covered)->0;
            &&& ordered(lines, lines[at]->0.base, all) == Some(order)
            &&& all.len() > 0 && all[0] == at && all[all.len() - 1] == last
            &&& pos <= last < lines.len()
            &&& forall|i: int| 0 <= i < all.len() ==> (#[trigger] all[i]) <= last && filler(lines, at, all[i] as int)
            &&& forall|k: int| at < k < last ==> all.contains(k as nat) || #[trigger] bystander(lines, at, k, all)
        }),
    decreases lines.len() - pos,
{
    let first = lines[at]->0;
    let held = lines[pos]->0;
    if held.base != first.base {
        assert(bystander(lines, at, pos, members)) by {
            assert forall|i: int| 0 <= i < members.len() && members[i] < pos implies !reads(
                lines[(#[trigger] members[i]) as int]->0.expr,
                held.base,
            ) by {}
        }
        lemma_filling(lines, at, pos + 1, members, covered)
    } else {
        let more = members.push(pos as nat);
        assert(filler(lines, at, pos));
        assert forall|i: int| 0 <= i < more.len() implies (#[trigger] more[i]) < pos + 1 && filler(
            lines,
            at,
            more[i] as int,
        ) by {
            if i < members.len() {
                assert(more[i] == members[i]);
            }
        }
        assert forall|k: int| at < k < pos + 1 implies more.contains(k as nat) || #[trigger] bystander(lines, at, k, more) by {
            if k == pos {
                assert(more[members.len() as int] == pos);
            } else if members.contains(k as nat) {
                let i = choose|i: int| 0 <= i < members.len() && members[i] == k as nat;
                assert(more[i] == k as nat);
            } else {
                assert(bystander(lines, at, k, members));
                assert forall|i: int| 0 <= i < more.len() && more[i] < k implies !reads(
                    lines[(#[trigger] more[i]) as int]->0.expr,
                    lines[k]->0.base,
                ) by {
                    assert(more[i] == members[i]);
                }
            }
        }
        assert(more[0] == members[0]);
        if covered.len() + held.lanes.len() == 4 {
            more
        } else {
            lemma_filling(lines, at, pos + 1, more, covered + held.lanes)
        }
    }
}

/// Sorting the members by their first lanes keeps them.
proof fn lemma_same_members(lines: Seq<Option<EmittedModel>>, all: Seq<nat>, order: Seq<nat>)
    requires
        order == unkeyed(by_key(keyed_lines(lines, all), all.len() as int)),
    ensures
        order.len() == all.len(),
        forall|i: int| 0 <= i < order.len() ==> all.contains(#[trigger] order[i]),
        forall|i: int| 0 <= i < all.len() ==> order.contains(#[trigger] all[i]),
{
    let keyed = keyed_lines(lines, all);
    let n = all.len() as int;
    let sorted = by_key(keyed, n);
    law_sorting_keeps_the_items(keyed, n);
    assert(keyed.take(n) =~= keyed);
    assert forall|i: int| 0 <= i < order.len() implies all.contains(#[trigger] order[i]) by {
        super::matrix::lemma_by_key_from(keyed, n, i);
        let j = choose|j: int| 0 <= j < n && #[trigger] keyed[j] == sorted[i];
        assert(all[j] == order[i]);
    }
    assert forall|i: int| 0 <= i < all.len() implies order.contains(#[trigger] all[i]) by {
        assert(keyed.contains(keyed[i]));
        vstd::seq_lib::to_multiset_contains(keyed, keyed[i]);
        vstd::seq_lib::to_multiset_contains(sorted, keyed[i]);
        let j = choose|j: int| 0 <= j < sorted.len() && sorted[j] == keyed[i];
        assert(order[j] == all[i]);
    }
}

/// The writes that are put together into one value fill the register: laid side by side in their order they are its four
/// components, each is as wide as what it writes, all are of one block, and none reads the register.
pub proof fn law_writes_fill_the_register(lines: Seq<Option<EmittedModel>>, at: int, i: int)
    requires
        whole_at(lines, at) is Some,
        0 <= i < (whole_at(lines, at)->0).0.len(),
    ensures
        ({
            let (group, last) = whole_at(lines, at)->0;
            let held = lines[group[i] as int];
            &&& laid(lines, group, group.len() as int) == seq![0u8, 1, 2, 3]
            &&& group.contains(at as nat) && group.contains(last as nat)
            &&& at <= group[i] <= last < lines.len()
            &&& held is Some
            &&& held->0.base == lines[at]->0.base && held->0.depth == lines[at]->0.depth
            &&& component_count(held->0.expr) == held->0.lanes.len()
            &&& !reads(held->0.expr, lines[at]->0.base)
        }),
{
    let (group, last) = whole_at(lines, at)->0;
    let all = lemma_filling(lines, at, at + 1, seq![at as nat], lines[at]->0.lanes);
    lemma_same_members(lines, all, group);
    assert(order_has(group, all, 0) && order_has(group, all, all.len() - 1));
    assert(all.contains(group[i]));
    let j = choose|j: int| 0 <= j < all.len() && all[j] == group[i];
    assert(filler(lines, at, all[j] as int));
}

spec fn order_has(order: Seq<nat>, all: Seq<nat>, i: int) -> bool {
    order.contains(all[i])
}

/// What stands between those writes stands by: it neither writes nor reads the register, and writes nothing that those
/// before it read, so that they can move behind it.
pub proof fn law_lines_between_stand_by(lines: Seq<Option<EmittedModel>>, at: int, k: int)
    requires
        whole_at(lines, at) is Some,
        at < k < (whole_at(lines, at)->0).1,
        !(whole_at(lines, at)->0).0.contains(k as nat),
    ensures
        bystander(lines, at, k, (whole_at(lines, at)->0).0),
{
    let (group, last) = whole_at(lines, at)->0;
    let all = lemma_filling(lines, at, at + 1, seq![at as nat], lines[at]->0.lanes);
    lemma_same_members(lines, all, group);
    if all.contains(k as nat) {
        let j = choose|j: int| 0 <= j < all.len() && all[j] == k as nat;
        assert(group.contains(all[j]));
    }
    assert(bystander(lines, at, k, all));
    assert forall|i: int| 0 <= i < group.len() && group[i] < k implies !reads(
        lines[(#[trigger] group[i]) as int]->0.expr,
        lines[k]->0.base,
    ) by {
        let j = choose|j: int| 0 <= j < all.len() && all[j] == group[i];
        assert(all[j] < k);
    }
}

/// Slices that are joined keep their pairing: each line's source lane still goes to the lane it went to, and all of them
/// are lanes of one value.
pub proof fn law_slices_keep_their_lanes(lines: Seq<Option<EmittedModel>>, at: int, k: int)
    requires
        slice_step(lines, at) is Some,
        at <= k < (slice_step(lines, at)->0).1,
    ensures
        ({
            let end = (slice_step(lines, at)->0).1;
            let pairs = by_key(slice_pairs(lines, at, end), end - at);
            let held = lines[k]->0;
            &&& slice_of(held.expr) is Some
            &&& (slice_of(held.expr)->0).0 == (slice_of(lines[at]->0.expr)->0).0
            &&& exists|i: int|
                0 <= i < pairs.len() && #[trigger] lanes_into(pairs)[i] == held.lanes[0] && lanes_from(pairs)[i] == (slice_of(
                    held.expr,
                )->0).1
            &&& (slice_step(lines, at)->0).0 == assignment_text(
                lines[at]->0.depth,
                target_text(lines[at]->0.base, lanes_into(pairs)),
                ExprModel::Read { base: (slice_of(lines[at]->0.expr)->0).0, swizzle: lanes_from(pairs) },
            )
        }),
{
    let end = (slice_step(lines, at)->0).1;
    lemma_sliced(lines, at, at + 1);
    let plain = slice_pairs(lines, at, end);
    let n = end - at;
    let pairs = by_key(plain, n);
    law_sorting_keeps_the_items(plain, n);
    assert(plain.take(n) =~= plain);
    let j = k - at;
    assert(plain.contains(plain[j]));
    vstd::seq_lib::to_multiset_contains(plain, plain[j]);
    vstd::seq_lib::to_multiset_contains(pairs, plain[j]);
    let i = choose|i: int| 0 <= i < pairs.len() && pairs[i] == plain[j];
    assert(lanes_into(pairs)[i] == lines[k]->0.lanes[0]);
}

proof fn lemma_sliced(lines: Seq<Option<EmittedModel>>, at: int, pos: int)
    requires
        0 <= at < pos,
    ensures
        slice_end(lines, at, pos) >= pos,
        forall|k: int|
            #![trigger lines[k]]
            pos <= k < slice_end(lines, at, pos) ==> slice_of(lines[k]->0.expr) is Some && (slice_of(lines[k]->0.expr)->0).0
                == (slice_of(lines[at]->0.expr)->0).0,
    decreases lines.len() - pos,
{
    if beside(lines, at, pos) && slice_of(lines[pos]->0.expr) is Some && (slice_of(lines[pos]->0.expr)->0).0 == (slice_of(
        lines[at]->0.expr,
    )->0).0 {
        lemma_sliced(lines, at, pos + 1);
    }
}

} // verus!
