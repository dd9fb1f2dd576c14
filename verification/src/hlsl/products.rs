//! What is left of an expression when a part of it is taken out.
use super::expr::ExprModel;
use super::idiom::below_zero;
use super::matrix::{product_of, without_product, without_products};
use super::meaning::{value, values, Meaning};
use super::value::{element_size, is_stride, unstrided, DefModel, Usage};
use crate::float::{field32, fraction32, negative32, significand32};
use vstd::prelude::*;

verus! {

/// Every dot product of a row in an expression means the same.
pub open spec fn products_mean<V>(m: Meaning<V>, e: ExprModel, v: V) -> bool
    decreases e, 0nat,
{
    if product_of(e) is Some {
        value(m, e) == v
    } else {
        match e {
            ExprModel::Unary { value: inner, .. } => products_mean(m, *inner, v),
            ExprModel::Binary { left, right, .. } => products_mean(m, *left, v) && products_mean(m, *right, v),
            ExprModel::Call { args, .. } => products_mean_all(m, args, v, args.len()),
            ExprModel::Select { cond, yes, els } => products_mean(m, *cond, v) && products_mean(m, *yes, v)
                && products_mean(m, *els, v),
            _ => true,
        }
    }
}

/// Every dot product of a row in the first expressions of a list means the same.
pub open spec fn products_mean_all<V>(m: Meaning<V>, args: Seq<ExprModel>, v: V, n: nat) -> bool
    decreases args, n,
{
    if n == 0 || n > args.len() {
        true
    } else {
        products_mean_all(m, args, v, (n - 1) as nat) && products_mean(m, args[n - 1], v)
    }
}

proof fn lemma_arguments<V>(m: Meaning<V>, args: Seq<ExprModel>, read: ExprModel, n: nat)
    requires
        n <= args.len(),
        products_mean_all(m, args, value(m, read), n),
    ensures
        without_products(args, read, n).len() == n,
        forall|i: int|
            0 <= i < n ==> value(m, #[trigger] without_products(args, read, n)[i]) == value(m, args[i]),
    decreases args, n,
{
    if n > 0 {
        lemma_arguments(m, args, read, (n - 1) as nat);
        law_lane_keeps_its_value(m, args[n - 1], read);
    }
}

/// A lane keeps its value when a read of what a dot product gave takes the product's place, whatever the lane does with
/// it and whatever stands beside it.
pub proof fn law_lane_keeps_its_value<V>(m: Meaning<V>, e: ExprModel, read: ExprModel)
    requires
        products_mean(m, e, value(m, read)),
    ensures
        value(m, without_product(e, read)) == value(m, e),
    decreases e, 0nat,
{
    if product_of(e) is None {
        match e {
            ExprModel::Unary { value: inner, .. } => {
                law_lane_keeps_its_value(m, *inner, read);
            },
            ExprModel::Binary { left, right, .. } => {
                law_lane_keeps_its_value(m, *left, read);
                law_lane_keeps_its_value(m, *right, read);
            },
            ExprModel::Call { args, .. } => {
                lemma_arguments(m, args, read, args.len());
                assert(values(m, without_products(args, read, args.len())) =~= values(m, args));
            },
            ExprModel::Select { cond, yes, els } => {
                law_lane_keeps_its_value(m, *cond, read);
                law_lane_keeps_its_value(m, *yes, read);
                law_lane_keeps_its_value(m, *els, read);
            },
            _ => {},
        }
    }
}

/// An element that an index was worked out from is what the index is the stride times: multiplied by the stride again it
/// means the same. Where no stride was taken off, nothing changed.
pub proof fn law_element_times_its_stride<V>(m: Meaning<V>, e: ExprModel, stride: u32, times: V)
    requires
        forall|a: V, b: V| #[trigger] m.bin("*"@, a, b) == m.bin("*"@, b, a),
        forall|l: ExprModel| #[trigger] is_stride(l, stride) ==> value(m, l) == times,
    ensures
        unstrided(e, stride) == e || value(m, e) == m.bin("*"@, value(m, unstrided(e, stride)), times),
{
}

/// A value stands for an element only where each of its readers picks one by it, with the same stride, and the stride
/// comes off it.
pub proof fn law_element_only_picks(def: DefModel, usage: Usage)
    ensures
        element_size(def, usage) != 0 ==> {
            &&& usage.stride == Some(element_size(def, usage))
            &&& usage.reads > 0
            &&& usage.indexed == usage.reads
            &&& unstrided(def.expr, element_size(def, usage)) != def.expr
        },
{
}

/// The bits of a float below nought are those of one with a sign that is neither nought nor no number.
pub proof fn law_below_nought_by_the_fields(bits: u32)
    ensures
        below_zero(bits) <==> negative32(bits) && significand32(bits) > 0 && !(field32(bits) == 255 && fraction32(bits)
            > 0),
{
}

} // verus!
