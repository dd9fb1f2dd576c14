//! Idiom recovery: the shapes the compiler expanded, put back.
//!
//! `pow` leaves no trace of itself in the bytecode: it is a log, a multiply and an exponent, and
//! `normalize` is a dot product, a reciprocal square root and a multiply. Every rule here is conditioned
//! on the pieces being the same value, not merely alike, which is what keeps `a * rsqrt(dot(b, b))` from
//! being read as normalising anything.
use super::expr::{
    binary, binary_model, call, call1, call2, call3, call_model, choice, choice_model, component_count, constant,
    copy_bytes, copy_exprs, ends_with, finishes, identity, in_order, larger, lemma_call_model, models, named, same_expr,
    splat, splatted, swizzle_model, swizzled, unary, unary_model, width, Domain, Expr, ExprModel,
};
use crate::text::{cat2, chars_of, dec, decimal, from_span, same};
use vstd::prelude::*;

verus! {

/// The bits of one, of the natural logarithm of two and of the base-two logarithm of e.
pub const ONE: u32 = 0x3F80_0000;

pub const LN_2: u32 = 0x3F31_7218;

pub const LOG2_E: u32 = 0x3FB8_AA3B;

/// The bits of a float below nought.
pub open spec fn below_zero(bits: u32) -> bool {
    0x8000_0000 < bits <= 0xFF80_0000
}

/// Every lane is below nought.
pub open spec fn lanes_below_zero(bits: Seq<u32>) -> bool {
    forall|i: int| 0 <= i < bits.len() ==> below_zero(#[trigger] bits[i])
}

/// Every lane holds this word.
pub open spec fn lanes_are(bits: Seq<u32>, value: u32) -> bool {
    forall|i: int| 0 <= i < bits.len() ==> #[trigger] bits[i] == value
}

/// Every lane is nought, of either sign.
pub open spec fn lanes_nought(bits: Seq<u32>) -> bool {
    forall|i: int| 0 <= i < bits.len() ==> (#[trigger] bits[i] == 0 || bits[i] == 0x8000_0000)
}

/// A constant every lane of which is below nought.
pub open spec fn all_negative(e: ExprModel) -> bool {
    e matches ExprModel::Literal { bits, domain } && domain == Domain::Float && lanes_below_zero(bits)
}

/// The lanes without their sign bit.
pub open spec fn unsigned_lanes(bits: Seq<u32>) -> Seq<u32> {
    Seq::new(bits.len(), |i: int| (bits[i] - 0x8000_0000) as u32)
}

/// A value with its leading negation taken off, if it has one.
pub open spec fn without_sign(e: ExprModel) -> Option<ExprModel> {
    match e {
        ExprModel::Unary { op, value } => if op == "-"@ {
            Some(*value)
        } else {
            None
        },
        ExprModel::Literal { bits, domain } => if all_negative(e) {
            Some(ExprModel::Literal { bits: unsigned_lanes(bits), domain })
        } else {
            None
        },
        _ => None,
    }
}

/// A float constant every lane of which has these bits.
pub open spec fn is_bits(e: ExprModel, value: u32) -> bool {
    e matches ExprModel::Literal { bits, domain } && domain == Domain::Float && lanes_are(bits, value)
}

/// A float constant every lane of which is nought, of either sign.
pub open spec fn is_nought(e: ExprModel) -> bool {
    e matches ExprModel::Literal { bits, domain } && domain == Domain::Float && lanes_nought(bits)
}

/// A constant every lane of which holds this word, however it is read.
pub open spec fn filled(e: ExprModel, value: u32) -> bool {
    e matches ExprModel::Literal { bits, .. } && lanes_are(bits, value)
}

/// The condition behind a weight that is only ever one or nought, which is a choice written as arithmetic
/// because the machine had no branch to spare for it.
pub open spec fn either_way(e: ExprModel) -> Option<ExprModel> {
    match e {
        ExprModel::Select { cond, yes, els } => if is_bits(*yes, ONE) && is_nought(*els) {
            Some(*cond)
        } else {
            None
        },
        _ => None,
    }
}

/// The condition of a conditional standing in for a comparison's all-ones mask.
pub open spec fn mask(e: ExprModel) -> Option<ExprModel> {
    match e {
        ExprModel::Select { cond, yes, els } => if filled(*yes, 0xFFFF_FFFF) && filled(*els, 0) {
            Some(*cond)
        } else {
            None
        },
        _ => None,
    }
}

/// The one argument of a call by this name.
pub open spec fn argument(e: ExprModel, name: Seq<char>) -> Option<ExprModel> {
    match e {
        ExprModel::Call { name: called, args, .. } => if called == name && args.len() == 1 {
            Some(args[0])
        } else {
            None
        },
        _ => None,
    }
}

/// A dot product of one value with itself, which is a length squared however it is written.
pub open spec fn square(e: ExprModel) -> Option<ExprModel> {
    match e {
        ExprModel::Call { name, args, .. } => if name == "dot"@ && args.len() == 2 && args[0] == args[1] {
            Some(args[0])
        } else {
            None
        },
        _ => None,
    }
}

/// The two operands of an operator by this name.
pub open spec fn operands_of(e: ExprModel, op: Seq<char>) -> Option<(ExprModel, ExprModel)> {
    match e {
        ExprModel::Binary { op: held, left, right } => if held == op {
            Some((*left, *right))
        } else {
            None
        },
        _ => None,
    }
}

/// How many operators are joined up in a value.
pub open spec fn joints(e: ExprModel) -> nat
    decreases e,
{
    match e {
        ExprModel::Binary { left, right, .. } => 1 + joints(*left) + joints(*right),
        _ => 0,
    }
}

/// How many signs can be taken off a value one after the other.
pub open spec fn signs(e: ExprModel) -> nat
    decreases e,
{
    match e {
        ExprModel::Unary { op, value } => if op == "-"@ {
            1 + signs(*value)
        } else {
            0
        },
        ExprModel::Literal { bits, .. } => if all_negative(e) && bits.len() > 0 {
            1
        } else {
            0
        },
        _ => 0,
    }
}

/// How wide an operator over these two is.
pub open spec fn wide(left: ExprModel, right: ExprModel) -> usize {
    larger(width(left), width(right)) as usize
}

/// Interpolating all the way to one end or the other is not interpolating: it is the choice the shader was
/// written with.
pub open spec fn lerp(from: ExprModel, to: ExprModel, weight: ExprModel, width: usize) -> ExprModel {
    match either_way(weight) {
        Some(cond) => choice_model(cond, to, from),
        None => call_model("lerp"@, seq![from, to, weight], width),
    }
}

/// A choice between a sum and what was added to, where the other side was scaled by one or nought.
///
/// Scaling the distance between two values and adding the nearer back is how the machine chooses between
/// them, so that choice is the two themselves.
pub open spec fn weighed(weight: ExprModel, value: ExprModel, addend: ExprModel) -> Option<ExprModel>
    decreases joints(value) + joints(addend), 2nat,
{
    match either_way(weight) {
        Some(cond) => {
            let yes = match operands_of(value, "-"@) {
                Some((to, from)) => if from == addend {
                    to
                } else {
                    sum(value, addend)
                },
                None => sum(value, addend),
            };
            Some(choice_model(cond, yes, addend))
        },
        None => None,
    }
}

/// An interpolation, where the value subtracted is the one added back.
pub open spec fn interpolated(
    difference: ExprModel,
    weight: ExprModel,
    addend: ExprModel,
    width: usize,
) -> Option<ExprModel> {
    match operands_of(difference, "-"@) {
        Some((to, from)) => if from == addend {
            Some(lerp(from, to, weight, width))
        } else {
            None
        },
        None => None,
    }
}

/// What a product and what it is added to stand for together, where that is more than their sum.
pub open spec fn gathered(product: ExprModel, addend: ExprModel) -> Option<ExprModel>
    decreases joints(product) + joints(addend), 0nat,
{
    match operands_of(product, "*"@) {
        Some((first, second)) => if weighed(first, second, addend) is Some {
            weighed(first, second, addend)
        } else if weighed(second, first, addend) is Some {
            weighed(second, first, addend)
        } else if interpolated(first, second, addend, wide(product, addend)) is Some {
            interpolated(first, second, addend, wide(product, addend))
        } else {
            interpolated(second, first, addend, wide(product, addend))
        },
        None => None,
    }
}

/// The sum of two values. Adding a negative is subtracting, which is how the source had it before the
/// compiler folded the sign into an operand.
pub open spec fn sum(left: ExprModel, right: ExprModel) -> ExprModel
    decreases joints(left) + joints(right), 1nat,
{
    match without_sign(right) {
        Some(value) => binary_model("-"@, left, value),
        None => match without_sign(left) {
            Some(value) => binary_model("-"@, right, value),
            None => match gathered(left, right) {
                Some(found) => found,
                None => match gathered(right, left) {
                    Some(found) => found,
                    None => binary_model("+"@, left, right),
                },
            },
        },
    }
}

/// The natural logarithm: the base-two one scaled back down.
pub open spec fn logarithm(value: ExprModel, scale: ExprModel, width: usize) -> Option<ExprModel> {
    if is_bits(scale, LN_2) {
        match argument(value, "log2"@) {
            Some(inner) => Some(call_model("log"@, seq![inner], width)),
            None => None,
        }
    } else {
        None
    }
}

/// A vector over its own length.
pub open spec fn normalised(vector: ExprModel, scale: ExprModel, width: usize) -> Option<ExprModel> {
    match argument(scale, "rsqrt"@) {
        Some(length) => if square(length) == Some(vector) {
            Some(call_model("normalize"@, seq![vector], width))
        } else {
            None
        },
        None => None,
    }
}

/// The product of two values with no sign left to take off.
pub open spec fn bare_product(left: ExprModel, right: ExprModel) -> ExprModel {
    let w = wide(left, right);
    if logarithm(left, right, w) is Some {
        logarithm(left, right, w)->0
    } else if logarithm(right, left, w) is Some {
        logarithm(right, left, w)->0
    } else if normalised(left, right, w) is Some {
        normalised(left, right, w)->0
    } else if normalised(right, left, w) is Some {
        normalised(right, left, w)->0
    } else {
        binary_model("*"@, left, right)
    }
}

/// The product of two values. A negation inside it belongs outside it, where an addition can turn it into a
/// subtraction. A constant of no lanes has no sign to take out.
pub open spec fn product(left: ExprModel, right: ExprModel) -> ExprModel
    decreases signs(left) + signs(right),
{
    if signs(left) > 0 {
        proof {
            lemma_one_sign_fewer(left);
        }
        unary_model("-"@, product(without_sign(left)->0, right))
    } else if signs(right) > 0 {
        proof {
            lemma_one_sign_fewer(right);
        }
        unary_model("-"@, product(left, without_sign(right)->0))
    } else {
        bare_product(left, right)
    }
}

/// Taking a sign off leaves one fewer.
pub proof fn lemma_one_sign_fewer(e: ExprModel)
    requires
        signs(e) > 0,
    ensures
        without_sign(e) is Some,
        signs(without_sign(e)->0) < signs(e),
{
    match e {
        ExprModel::Literal { bits, domain } => {
            let lanes = unsigned_lanes(bits);
            assert(below_zero(bits[0]));
            assert(!below_zero(lanes[0]));
        },
        _ => {},
    }
}

/// A value masked by a comparison is kept or zeroed, which is the conditional the shader was written with.
pub open spec fn masked(mask_side: ExprModel, value: ExprModel) -> Option<ExprModel> {
    match mask(mask_side) {
        Some(cond) => Some(
            choice_model(cond, value, ExprModel::Literal { bits: splat(0, width(value)), domain: Domain::Uint }),
        ),
        None => None,
    }
}

/// Two values masked together.
pub open spec fn conjunction(left: ExprModel, right: ExprModel) -> ExprModel {
    match masked(left, right) {
        Some(found) => found,
        None => match masked(right, left) {
            Some(found) => found,
            None => binary_model("&"@, left, right),
        },
    }
}

/// The domain a cast by this name reads its argument in.
pub open spec fn cast_domain(name: Seq<char>) -> Domain {
    if name == "asfloat"@ {
        Domain::Float
    } else if name == "asint"@ {
        Domain::Int
    } else {
        Domain::Uint
    }
}

/// The names of the casts.
pub open spec fn is_cast(name: Seq<char>) -> bool {
    name == "asfloat"@ || name == "asint"@ || name == "asuint"@
}

/// A value read another way. Reinterpreting is free, so a cast of a constant is that constant and a cast
/// straight back is nothing at all; a cast of a choice is a choice between casts.
pub open spec fn cast(name: Seq<char>, inner: ExprModel, width: usize) -> ExprModel
    decreases inner,
{
    match inner {
        ExprModel::Literal { bits, .. } => ExprModel::Literal { bits, domain: cast_domain(name) },
        ExprModel::Select { cond, yes, els } => choice_model(*cond, cast(name, *yes, width), cast(name, *els, width)),
        _ => if name == "asfloat"@ && argument(inner, "asuint"@) is Some {
            argument(inner, "asuint"@)->0
        } else if name == "asuint"@ && argument(inner, "asfloat"@) is Some {
            argument(inner, "asfloat"@)->0
        } else {
            call_model(name, seq![inner], width)
        },
    }
}

/// The base-two exponent of a product, as the power or the natural exponent it came from.
pub open spec fn exponent(left: ExprModel, right: ExprModel, width: usize) -> ExprModel {
    if argument(left, "log2"@) is Some {
        call_model("pow"@, seq![argument(left, "log2"@)->0, right], width)
    } else if argument(right, "log2"@) is Some {
        call_model("pow"@, seq![argument(right, "log2"@)->0, left], width)
    } else if is_bits(right, LOG2_E) {
        call_model("exp"@, seq![left], width)
    } else if is_bits(left, LOG2_E) {
        call_model("exp"@, seq![right], width)
    } else {
        call_model("exp2"@, seq![binary_model("*"@, left, right)], width)
    }
}

/// The square root of a length squared. The length of a difference is how far apart the two ends are.
pub open spec fn root(inner: ExprModel, width: usize) -> ExprModel {
    match square(inner) {
        Some(vector) => match operands_of(vector, "-"@) {
            Some((left, right)) => call_model("distance"@, seq![left, right], width),
            None => call_model("length"@, seq![vector], width),
        },
        None => call_model("sqrt"@, seq![inner], width),
    }
}

/// The smaller of two values, as the clamp it came from. The bounds are the constants; without exactly one
/// of the inner ones being constant there is no telling which operand is being clamped.
pub open spec fn bounded(lower: ExprModel, high: ExprModel, width: usize) -> ExprModel {
    let kept = call_model("min"@, seq![lower, high], width);
    match lower {
        ExprModel::Call { name, args, .. } => if name == "max"@ && args.len() == 2 && (args[0] is Literal) != (
        args[1] is Literal) && high is Literal {
            let value = if args[0] is Literal {
                args[1]
            } else {
                args[0]
            };
            let low = if args[0] is Literal {
                args[0]
            } else {
                args[1]
            };
            if is_nought(low) && is_bits(high, ONE) {
                call_model("saturate"@, seq![value], width)
            } else {
                call_model("clamp"@, seq![value, low, high], width)
            }
        } else {
            kept
        },
        _ => kept,
    }
}

/// A call as the operation it came from.
pub open spec fn recalled(name: Seq<char>, args: Seq<ExprModel>, width: usize) -> ExprModel {
    if name == "lerp"@ && args.len() == 3 {
        lerp(args[0], args[1], args[2], width)
    } else if name == "dot"@ && args.len() == 2 && args[0] is Unary && args[0]->Unary_op == "-"@ && args[1] is Unary
        && args[1]->Unary_op == "-"@ {
        call_model("dot"@, seq![*args[0]->Unary_value, *args[1]->Unary_value], width)
    } else if is_cast(name) && args.len() == 1 {
        cast(name, args[0], width)
    } else if name == "exp2"@ && args.len() == 1 && operands_of(args[0], "*"@) is Some {
        exponent((operands_of(args[0], "*"@)->0).0, (operands_of(args[0], "*"@)->0).1, width)
    } else if name == "sqrt"@ && args.len() == 1 {
        root(args[0], width)
    } else if name == "min"@ && args.len() == 2 {
        bounded(args[0], args[1], width)
    } else {
        call_model(name, args, width)
    }
}

/// A raw buffer read narrowed to its leading components is a narrower read: the language has one for each
/// width.
pub open spec fn narrowed(value: ExprModel, swizzle: Seq<u8>) -> ExprModel {
    match value {
        ExprModel::Call { name, args, .. } => if swizzle.len() < 4 && in_order(swizzle) && ends_with(name, ".Load4"@) {
            let held = name.take(name.len() - 1);
            let taken = if swizzle.len() == 1 {
                held
            } else {
                held + dec(swizzle.len())
            };
            call_model(taken, args, swizzle.len() as usize)
        } else {
            swizzle_model(value, swizzle)
        },
        _ => swizzle_model(value, swizzle),
    }
}

/// A run of operations as the one it came from. An exact reading leaves every rule off: what it says the
/// shader computes, it computes instruction for instruction.
pub open spec fn rewritten(e: ExprModel, exact: bool) -> ExprModel {
    if exact {
        e
    } else {
        match e {
            ExprModel::Binary { op, left, right } => if op == "+"@ {
                sum(*left, *right)
            } else if op == "*"@ {
                product(*left, *right)
            } else if op == "&"@ {
                conjunction(*left, *right)
            } else {
                e
            },
            ExprModel::Swizzle { value, swizzle } => narrowed(*value, swizzle),
            ExprModel::Call { name, args, width } => recalled(name, args, width),
            _ => e,
        }
    }
}

/// A constant that an operator leaves the other side alone with.
pub open spec fn neutral(op: Seq<char>, held: ExprModel) -> bool {
    held matches ExprModel::Literal { bits, domain } && (domain == Domain::Uint || domain == Domain::Bool)
        && neutral_lanes(op, bits)
}

/// Lanes that an operator leaves the other side alone with.
pub open spec fn neutral_lanes(op: Seq<char>, bits: Seq<u32>) -> bool {
    if op == "&"@ {
        lanes_are(bits, 0xFFFF_FFFF)
    } else if op == "|"@ || op == "^"@ {
        lanes_are(bits, 0)
    } else {
        bits.len() == 0
    }
}

/// Masking with all ones, or setting none, says nothing about the value.
pub open spec fn neutralised(e: ExprModel) -> ExprModel {
    match e {
        ExprModel::Binary { op, left, right } => if neutral(op, *left) && !neutral(op, *right) {
            *right
        } else if !neutral(op, *left) && neutral(op, *right) {
            *left
        } else {
            e
        },
        _ => e,
    }
}

/// Every component is the first.
pub open spec fn one_lane_repeated(swizzle: Seq<u8>) -> bool {
    forall|i: int| 0 <= i < swizzle.len() ==> #[trigger] swizzle[i] == swizzle[0]
}

/// One component of a value that repeats it, where it does. A sign or a complement applies to each
/// component alike, so the repeat inside one collapses the same way it would on its own.
pub open spec fn single(e: ExprModel) -> Option<ExprModel>
    decreases e,
{
    match e {
        ExprModel::Read { base, swizzle } => if swizzle.len() > 1 && one_lane_repeated(swizzle) {
            Some(ExprModel::Read { base, swizzle: seq![swizzle[0]] })
        } else {
            None
        },
        ExprModel::Unary { op, value } => match single(*value) {
            Some(held) => Some(unary_model(op, held)),
            None => None,
        },
        _ => None,
    }
}

/// One component spelled once rather than repeated to the width of what it is combined with.
///
/// Only against a side that really is wider, and only on one of them: two repeats against each other are
/// what sets the width of the result.
pub open spec fn collapsed(e: ExprModel) -> ExprModel
    decreases e,
{
    match e {
        ExprModel::Unary { op, value } => unary_model(op, collapsed(*value)),
        ExprModel::Select { cond, yes, els } => if single(*cond) is Some && (component_count(*yes) > 1
            || component_count(*els) > 1) {
            choice_model(single(*cond)->0, *yes, *els)
        } else {
            e
        },
        ExprModel::Binary { op, left, right } => if single(*left) is Some && component_count(*right) > 1 {
            binary_model(op, single(*left)->0, *right)
        } else if single(*right) is Some && component_count(*left) > 1 {
            binary_model(op, *left, single(*right)->0)
        } else {
            e
        },
        _ => e,
    }
}

/// An expression with every part of it rewritten into the idioms it was expanded from, innermost first.
/// Under `exact` nothing is recognised: only neutral masks go and repeats collapse.
pub open spec fn simplified(e: ExprModel, exact: bool) -> ExprModel
    decreases e, 1nat,
{
    settled(descended(e, exact), exact)
}

/// An expression whose operands are simplified already, with neutral masks gone, recognised as the idiom it
/// came from and repeats collapsed.
#[verifier::opaque]
pub open spec fn settled(e: ExprModel, exact: bool) -> ExprModel {
    collapsed(rewritten(neutralised(e), exact))
}

/// An expression with its operands simplified.
pub open spec fn descended(e: ExprModel, exact: bool) -> ExprModel
    decreases e, 0nat,
{
    match e {
        ExprModel::Unary { op, value } => unary_model(op, simplified(*value, exact)),
        ExprModel::Binary { op, left, right } => binary_model(op, simplified(*left, exact), simplified(*right, exact)),
        ExprModel::Call { name, args, width } => call_model(
            name,
            Seq::new(
                args.len(),
                |i: int| if 0 <= i < args.len() { simplified(args[i], exact) } else { ExprModel::Vector(Seq::empty()) },
            ),
            width,
        ),
        ExprModel::Select { cond, yes, els } => choice_model(
            simplified(*cond, exact),
            simplified(*yes, exact),
            simplified(*els, exact),
        ),
        ExprModel::Swizzle { value, swizzle } => swizzle_model(simplified(*value, exact), swizzle),
        _ => e,
    }
}

/// Whether every lane of a constant holds this word.
fn words_all(bits: &Vec<u32>, value: u32) -> (r: bool)
    ensures
        r == lanes_are(bits@, value),
{
    let mut i: usize = 0;
    while i < bits.len()
        invariant
            i <= bits@.len(),
            forall|k: int| 0 <= k < i ==> #[trigger] bits@[k] == value,
        decreases bits@.len() - i,
    {
        if bits[i] != value {
            return false;
        }
        i = i + 1;
    }
    true
}

fn has_bits(e: &Expr, value: u32) -> (r: bool)
    ensures
        r == is_bits(e@, value),
{
    match e {
        Expr::Literal { bits, domain } => *domain == Domain::Float && words_all(bits, value),
        _ => false,
    }
}

fn has_word(e: &Expr, value: u32) -> (r: bool)
    ensures
        r == filled(e@, value),
{
    match e {
        Expr::Literal { bits, .. } => words_all(bits, value),
        _ => false,
    }
}

fn has_nought(e: &Expr) -> (r: bool)
    ensures
        r == is_nought(e@),
{
    match e {
        Expr::Literal { bits, domain } => *domain == Domain::Float && words_nought(bits),
        _ => false,
    }
}

fn words_nought(bits: &Vec<u32>) -> (r: bool)
    ensures
        r == lanes_nought(bits@),
{
    let mut i: usize = 0;
    while i < bits.len()
        invariant
            i <= bits@.len(),
            forall|k: int| 0 <= k < i ==> (#[trigger] bits@[k] == 0 || bits@[k] == 0x8000_0000),
        decreases bits@.len() - i,
    {
        if bits[i] != 0 && bits[i] != 0x8000_0000 {
            return false;
        }
        i = i + 1;
    }
    true
}

/// The lanes of a constant, where every one of them is a negative float.
fn negated(bits: &Vec<u32>) -> (r: Option<Vec<u32>>)
    ensures
        match r {
            Some(out) => out@ == unsigned_lanes(bits@) && lanes_below_zero(bits@),
            None => !lanes_below_zero(bits@),
        },
{
    let mut out: Vec<u32> = Vec::new();
    let mut i: usize = 0;
    while i < bits.len()
        invariant
            i <= bits@.len(),
            out@ == unsigned_lanes(bits@).take(i as int),
            forall|k: int| 0 <= k < i ==> below_zero(#[trigger] bits@[k]),
        decreases bits@.len() - i,
    {
        let held: u32 = bits[i];
        if !(0x8000_0000 < held && held <= 0xFF80_0000) {
            assert(!below_zero(bits@[i as int]));
            return None;
        }
        out.push(held - 0x8000_0000);
        i = i + 1;
        proof {
            assert(out@ =~= unsigned_lanes(bits@).take(i as int));
        }
    }
    proof {
        assert(unsigned_lanes(bits@).take(i as int) =~= unsigned_lanes(bits@));
    }
    Some(out)
}

/// A value with its leading negation taken off, if it has one.
fn take_sign(e: &Expr) -> (r: Option<Expr>)
    ensures
        match r {
            Some(v) => without_sign(e@) == Some(v@),
            None => without_sign(e@) is None,
        },
{
    match e {
        Expr::Unary { op, value } => if same(op, "-") {
            Some(value.duplicate())
        } else {
            None
        },
        Expr::Literal { bits, domain } => {
            if *domain != Domain::Float {
                return None;
            }
            match negated(bits) {
                Some(out) => Some(constant(out, Domain::Float)),
                None => None,
            }
        },
        _ => None,
    }
}

fn weight_of(e: &Expr) -> (r: Option<Expr>)
    ensures
        match r {
            Some(v) => either_way(e@) == Some(v@),
            None => either_way(e@) is None,
        },
{
    match e {
        Expr::Select { cond, yes, els } => if has_bits(yes, ONE) && has_nought(els) {
            Some(cond.duplicate())
        } else {
            None
        },
        _ => None,
    }
}

fn mask_of(e: &Expr) -> (r: Option<Expr>)
    ensures
        match r {
            Some(v) => mask(e@) == Some(v@),
            None => mask(e@) is None,
        },
{
    match e {
        Expr::Select { cond, yes, els } => if has_word(yes, 0xFFFF_FFFF) && has_word(els, 0) {
            Some(cond.duplicate())
        } else {
            None
        },
        _ => None,
    }
}

fn argument_of(e: &Expr, name: &str) -> (r: Option<Expr>)
    ensures
        match r {
            Some(v) => argument(e@, name@) == Some(v@),
            None => argument(e@, name@) is None,
        },
{
    proof {
        lemma_call_model(*e);
    }
    match e {
        Expr::Call { name: called, args, .. } => if args.len() == 1 && same(called.as_str(), name) {
            Some(args[0].duplicate())
        } else {
            None
        },
        _ => None,
    }
}

fn square_of(e: &Expr) -> (r: Option<Expr>)
    ensures
        match r {
            Some(v) => square(e@) == Some(v@),
            None => square(e@) is None,
        },
{
    proof {
        lemma_call_model(*e);
    }
    match e {
        Expr::Call { name, args, .. } => if args.len() == 2 && same(name.as_str(), "dot") && same_expr(
            &args[0],
            &args[1],
        ) {
            Some(args[0].duplicate())
        } else {
            None
        },
        _ => None,
    }
}

fn split(e: &Expr, op: &str) -> (r: Option<(Expr, Expr)>)
    ensures
        match r {
            Some((a, b)) => operands_of(e@, op@) == Some((a@, b@)),
            None => operands_of(e@, op@) is None,
        },
{
    match e {
        Expr::Binary { op: held, left, right } => if same(held, op) {
            Some((left.duplicate(), right.duplicate()))
        } else {
            None
        },
        _ => None,
    }
}

fn wide_of(left: &Expr, right: &Expr) -> (r: usize)
    ensures
        r == wide(left@, right@),
{
    let a: usize = left.width();
    let b: usize = right.width();
    if a >= b {
        a
    } else {
        b
    }
}

fn make_lerp(from: Expr, to: Expr, weight: Expr, width: usize) -> (r: Expr)
    ensures
        r@ == lerp(from@, to@, weight@, width),
{
    match weight_of(&weight) {
        Some(cond) => choice(cond, to, from),
        None => call3("lerp", from, to, weight, width),
    }
}

fn weigh(weight: &Expr, value: &Expr, addend: &Expr) -> (r: Option<Expr>)
    ensures
        match r {
            Some(v) => weighed(weight@, value@, addend@) == Some(v@),
            None => weighed(weight@, value@, addend@) is None,
        },
    decreases joints(value@) + joints(addend@), 2nat,
{
    match weight_of(weight) {
        Some(cond) => {
            let yes = match split(value, "-") {
                Some((to, from)) => if same_expr(&from, addend) {
                    to
                } else {
                    make_sum(value.duplicate(), addend.duplicate())
                },
                None => make_sum(value.duplicate(), addend.duplicate()),
            };
            Some(choice(cond, yes, addend.duplicate()))
        },
        None => None,
    }
}

fn interpolate(difference: &Expr, weight: &Expr, addend: &Expr, width: usize) -> (r: Option<Expr>)
    ensures
        match r {
            Some(v) => interpolated(difference@, weight@, addend@, width) == Some(v@),
            None => interpolated(difference@, weight@, addend@, width) is None,
        },
{
    match split(difference, "-") {
        Some((to, from)) => if same_expr(&from, addend) {
            Some(make_lerp(from, to, weight.duplicate(), width))
        } else {
            None
        },
        None => None,
    }
}

fn gather(product: &Expr, addend: &Expr) -> (r: Option<Expr>)
    ensures
        match r {
            Some(v) => gathered(product@, addend@) == Some(v@),
            None => gathered(product@, addend@) is None,
        },
    decreases joints(product@) + joints(addend@), 0nat,
{
    match split(product, "*") {
        Some((first, second)) => {
            if let Some(found) = weigh(&first, &second, addend) {
                return Some(found);
            }
            if let Some(found) = weigh(&second, &first, addend) {
                return Some(found);
            }
            let w: usize = wide_of(product, addend);
            if let Some(found) = interpolate(&first, &second, addend, w) {
                return Some(found);
            }
            interpolate(&second, &first, addend, w)
        },
        None => None,
    }
}

fn make_sum(left: Expr, right: Expr) -> (r: Expr)
    ensures
        r@ == sum(left@, right@),
    decreases joints(left@) + joints(right@), 1nat,
{
    if let Some(value) = take_sign(&right) {
        return binary("-", left, value);
    }
    if let Some(value) = take_sign(&left) {
        return binary("-", right, value);
    }
    if let Some(found) = gather(&left, &right) {
        return found;
    }
    if let Some(found) = gather(&right, &left) {
        return found;
    }
    binary("+", left, right)
}

fn make_log(value: &Expr, scale: &Expr, width: usize) -> (r: Option<Expr>)
    ensures
        match r {
            Some(v) => logarithm(value@, scale@, width) == Some(v@),
            None => logarithm(value@, scale@, width) is None,
        },
{
    if !has_bits(scale, LN_2) {
        return None;
    }
    match argument_of(value, "log2") {
        Some(inner) => Some(call1("log", inner, width)),
        None => None,
    }
}

fn make_normal(vector: &Expr, scale: &Expr, width: usize) -> (r: Option<Expr>)
    ensures
        match r {
            Some(v) => normalised(vector@, scale@, width) == Some(v@),
            None => normalised(vector@, scale@, width) is None,
        },
{
    match argument_of(scale, "rsqrt") {
        Some(length) => match square_of(&length) {
            Some(held) => if same_expr(&held, vector) {
                Some(call1("normalize", held, width))
            } else {
                None
            },
            None => None,
        },
        None => None,
    }
}

/// Whether a value has a sign to take out of a product.
fn signed_side(e: &Expr) -> (r: bool)
    ensures
        r == (signs(e@) > 0),
{
    match e {
        Expr::Unary { op, .. } => same(op, "-"),
        Expr::Literal { bits, domain } => *domain == Domain::Float && bits.len() > 0 && negated(bits).is_some(),
        _ => false,
    }
}

fn make_product(left: Expr, right: Expr) -> (r: Expr)
    ensures
        r@ == product(left@, right@),
    decreases signs(left@) + signs(right@),
{
    if signed_side(&left) {
        proof {
            lemma_one_sign_fewer(left@);
        }
        if let Some(value) = take_sign(&left) {
            return unary("-", make_product(value, right));
        }
    }
    if signed_side(&right) {
        proof {
            lemma_one_sign_fewer(right@);
        }
        if let Some(value) = take_sign(&right) {
            return unary("-", make_product(left, value));
        }
    }
    let w: usize = wide_of(&left, &right);
    if let Some(found) = make_log(&left, &right, w) {
        return found;
    }
    if let Some(found) = make_log(&right, &left, w) {
        return found;
    }
    if let Some(found) = make_normal(&left, &right, w) {
        return found;
    }
    if let Some(found) = make_normal(&right, &left, w) {
        return found;
    }
    binary("*", left, right)
}

fn make_masked(mask_side: &Expr, value: &Expr) -> (r: Option<Expr>)
    ensures
        match r {
            Some(v) => masked(mask_side@, value@) == Some(v@),
            None => masked(mask_side@, value@) is None,
        },
{
    match mask_of(mask_side) {
        Some(cond) => Some(
            choice(cond, value.duplicate(), constant(splatted(0, value.width()), Domain::Uint)),
        ),
        None => None,
    }
}

fn make_conjunction(left: Expr, right: Expr) -> (r: Expr)
    ensures
        r@ == conjunction(left@, right@),
{
    if let Some(found) = make_masked(&left, &right) {
        return found;
    }
    if let Some(found) = make_masked(&right, &left) {
        return found;
    }
    binary("&", left, right)
}

fn make_cast(name: &str, inner: Expr, width: usize) -> (r: Expr)
    requires
        is_cast(name@),
    ensures
        r@ == cast(name@, inner@, width),
    decreases inner,
{
    match inner {
        Expr::Literal { bits, .. } => {
            let domain = if same(name, "asfloat") {
                Domain::Float
            } else if same(name, "asint") {
                Domain::Int
            } else {
                Domain::Uint
            };
            constant(bits, domain)
        },
        Expr::Select { cond, yes, els } => {
            choice(*cond, make_cast(name, *yes, width), make_cast(name, *els, width))
        },
        _ => {
            if same(name, "asfloat") {
                if let Some(held) = argument_of(&inner, "asuint") {
                    return held;
                }
            }
            if same(name, "asuint") {
                if let Some(held) = argument_of(&inner, "asfloat") {
                    return held;
                }
            }
            call1(name, inner, width)
        },
    }
}

fn make_exponent(left: Expr, right: Expr, width: usize) -> (r: Expr)
    ensures
        r@ == exponent(left@, right@, width),
{
    if let Some(base) = argument_of(&left, "log2") {
        return call2("pow", base, right, width);
    }
    if let Some(base) = argument_of(&right, "log2") {
        return call2("pow", base, left, width);
    }
    if has_bits(&right, LOG2_E) {
        return call1("exp", left, width);
    }
    if has_bits(&left, LOG2_E) {
        return call1("exp", right, width);
    }
    call1("exp2", binary("*", left, right), width)
}

fn make_root(inner: Expr, width: usize) -> (r: Expr)
    ensures
        r@ == root(inner@, width),
{
    match square_of(&inner) {
        Some(vector) => match split(&vector, "-") {
            Some((left, right)) => call2("distance", left, right, width),
            None => call1("length", vector, width),
        },
        None => call1("sqrt", inner, width),
    }
}

fn is_constant(e: &Expr) -> (r: bool)
    ensures
        r == (e@ is Literal),
{
    matches!(e, Expr::Literal { .. })
}

/// The two bounds of a `max` of which exactly one is constant: the value first, then the bound.
fn max_of_constant(e: &Expr) -> (r: Option<(Expr, Expr)>)
    ensures
        match r {
            Some((value, low)) => e@ matches ExprModel::Call { name, args, .. } && name == "max"@ && args.len() == 2
                && (args[0] is Literal) != (args[1] is Literal) && value@ == (if args[0] is Literal {
                args[1]
            } else {
                args[0]
            }) && low@ == (if args[0] is Literal {
                args[0]
            } else {
                args[1]
            }),
            None => !(e@ matches ExprModel::Call { name, args, .. } && name == "max"@ && args.len() == 2 && (
            args[0] is Literal) != (args[1] is Literal)),
        },
{
    proof {
        lemma_call_model(*e);
    }
    match e {
        Expr::Call { name, args, .. } => {
            if !(args.len() == 2 && same(name.as_str(), "max")) {
                return None;
            }
            let first: bool = is_constant(&args[0]);
            let second: bool = is_constant(&args[1]);
            if first == second {
                None
            } else if first {
                Some((args[1].duplicate(), args[0].duplicate()))
            } else {
                Some((args[0].duplicate(), args[1].duplicate()))
            }
        },
        _ => None,
    }
}

fn make_bounded(lower: Expr, high: Expr, width: usize) -> (r: Expr)
    ensures
        r@ == bounded(lower@, high@, width),
{
    if is_constant(&high) {
        if let Some((value, low)) = max_of_constant(&lower) {
            return if has_nought(&low) && has_bits(&high, ONE) {
                call1("saturate", value, width)
            } else {
                call3("clamp", value, low, high, width)
            };
        }
    }
    call2("min", lower, high, width)
}

/// What a negation negates.
fn minus_of(e: &Expr) -> (r: Option<Expr>)
    ensures
        match r {
            Some(v) => e@ matches ExprModel::Unary { op, value } && op == "-"@ && v@ == *value,
            None => !(e@ matches ExprModel::Unary { op, value } && op == "-"@),
        },
{
    match e {
        Expr::Unary { op, value } => if same(op, "-") {
            Some(value.duplicate())
        } else {
            None
        },
        _ => None,
    }
}

fn recall(name: String, args: Vec<Expr>, width: usize) -> (r: Expr)
    ensures
        r@ == recalled(name@, models(args@), width),
{
    let ghost all = models(args@);
    if args.len() == 3 && same(name.as_str(), "lerp") {
        return make_lerp(args[0].duplicate(), args[1].duplicate(), args[2].duplicate(), width);
    }
    if args.len() == 2 && same(name.as_str(), "dot") {
        let first = minus_of(&args[0]);
        let second = minus_of(&args[1]);
        if let Some(a) = first {
            if let Some(b) = second {
                return call2("dot", a, b, width);
            }
        }
        proof {
            assert(!(all[0] is Unary && all[0]->Unary_op == "-"@ && all[1] is Unary && all[1]->Unary_op == "-"@));
        }
    }
    let cast_name: bool = same(name.as_str(), "asfloat") || same(name.as_str(), "asint") || same(
        name.as_str(),
        "asuint",
    );
    if args.len() == 1 && cast_name {
        return make_cast(name.as_str(), args[0].duplicate(), width);
    }
    if args.len() == 1 && same(name.as_str(), "exp2") {
        if let Some((left, right)) = split(&args[0], "*") {
            return make_exponent(left, right, width);
        }
    }
    if args.len() == 1 && same(name.as_str(), "sqrt") {
        return make_root(args[0].duplicate(), width);
    }
    if args.len() == 2 && same(name.as_str(), "min") {
        return make_bounded(args[0].duplicate(), args[1].duplicate(), width);
    }
    call(name.as_str(), args, width)
}

fn narrow_load(value: Expr, swizzle: Vec<u8>) -> (r: Expr)
    ensures
        r@ == narrowed(value@, swizzle@),
{
    proof {
        lemma_call_model(value);
        reveal_strlit(".Load4");
    }
    if let Expr::Call { name, args, .. } = &value {
        if swizzle.len() < 4 && identity(swizzle.as_slice()) && finishes(name.as_str(), ".Load4") {
            let letters = chars_of(name.as_str());
            let held = from_span(letters.as_slice(), 0, letters.len() - 1);
            proof {
                assert(held@ =~= name@.take(name@.len() - 1));
            }
            let taken = if swizzle.len() == 1 {
                held
            } else {
                let count = decimal(swizzle.len() as u64);
                cat2(held.as_str(), count.as_str())
            };
            return call(taken.as_str(), copy_exprs(args), swizzle.len());
        }
    }
    swizzled(value, swizzle)
}

/// A run of operations as the one it came from.
pub fn rewrite(expr: Expr, exact: bool) -> (r: Expr)
    ensures
        r@ == rewritten(expr@, exact),
{
    if exact {
        return expr;
    }
    proof {
        lemma_call_model(expr);
    }
    match expr {
        Expr::Binary { op, left, right } => {
            if same(op, "+") {
                make_sum(*left, *right)
            } else if same(op, "*") {
                make_product(*left, *right)
            } else if same(op, "&") {
                make_conjunction(*left, *right)
            } else {
                binary(op, *left, *right)
            }
        },
        Expr::Swizzle { value, swizzle } => narrow_load(*value, swizzle),
        Expr::Call { name, args, width } => recall(name, args, width),
        _ => expr,
    }
}

fn is_neutral(op: &str, held: &Expr) -> (r: bool)
    ensures
        r == neutral(op@, held@),
{
    match held {
        Expr::Literal { bits, domain } => {
            if *domain != Domain::Uint && *domain != Domain::Bool {
                return false;
            }
            if same(op, "&") {
                words_all(bits, 0xFFFF_FFFF)
            } else if same(op, "|") || same(op, "^") {
                words_all(bits, 0)
            } else {
                bits.len() == 0
            }
        },
        _ => false,
    }
}

fn neutralise(expr: Expr) -> (r: Expr)
    ensures
        r@ == neutralised(expr@),
{
    match expr {
        Expr::Binary { op, left, right } => {
            let a: bool = is_neutral(op, &left);
            let b: bool = is_neutral(op, &right);
            if a && !b {
                *right
            } else if !a && b {
                *left
            } else {
                binary(op, *left, *right)
            }
        },
        _ => expr,
    }
}

fn repeats(swizzle: &Vec<u8>) -> (r: bool)
    ensures
        r == one_lane_repeated(swizzle@),
{
    let mut i: usize = 0;
    while i < swizzle.len()
        invariant
            i <= swizzle@.len(),
            forall|k: int| 0 <= k < i ==> #[trigger] swizzle@[k] == swizzle@[0],
        decreases swizzle@.len() - i,
    {
        if swizzle[i] != swizzle[0] {
            return false;
        }
        i = i + 1;
    }
    true
}

fn single_of(e: &Expr) -> (r: Option<Expr>)
    ensures
        match r {
            Some(v) => single(e@) == Some(v@),
            None => single(e@) is None,
        },
    decreases e,
{
    match e {
        Expr::Read { base, swizzle } => {
            if swizzle.len() < 2 {
                return None;
            }
            if !repeats(swizzle) {
                return None;
            }
            let mut one: Vec<u8> = Vec::new();
            one.push(swizzle[0]);
            proof {
                assert(one@ =~= seq![swizzle@[0]]);
            }
            Some(named(base.clone(), one))
        },
        Expr::Unary { op, value } => match single_of(value) {
            Some(held) => Some(unary(*op, held)),
            None => None,
        },
        _ => None,
    }
}

fn collapse(expr: Expr) -> (r: Expr)
    ensures
        r@ == collapsed(expr@),
    decreases expr,
{
    match expr {
        Expr::Unary { op, value } => unary(op, collapse(*value)),
        Expr::Select { cond, yes, els } => {
            let wider: bool = yes.components() > 1 || els.components() > 1;
            if wider {
                if let Some(held) = single_of(&cond) {
                    return choice(held, *yes, *els);
                }
            }
            choice(*cond, *yes, *els)
        },
        Expr::Binary { op, left, right } => {
            if right.components() > 1 {
                if let Some(held) = single_of(&left) {
                    return binary(op, held, *right);
                }
            }
            if left.components() > 1 {
                if let Some(held) = single_of(&right) {
                    return binary(op, *left, held);
                }
            }
            binary(op, *left, *right)
        },
        _ => expr,
    }
}

/// Each expression of a list simplified.
fn simplify_all(list: &Vec<Expr>, exact: bool) -> (r: Vec<Expr>)
    ensures
        r@.len() == list@.len(),
        forall|i: int| 0 <= i < list@.len() ==> (#[trigger] r@[i])@ == simplified(list@[i]@, exact),
    decreases list, 2nat,
{
    let mut out: Vec<Expr> = Vec::new();
    let mut i: usize = 0;
    while i < list.len()
        invariant
            i <= list@.len(),
            out@.len() == i,
            forall|k: int| 0 <= k < i ==> (#[trigger] out@[k])@ == simplified(list@[k]@, exact),
        decreases list@.len() - i,
    {
        let one = simplify_ref(&list[i], exact);
        out.push(one);
        i = i + 1;
    }
    out
}

fn simplify_ref(expr: &Expr, exact: bool) -> (r: Expr)
    ensures
        r@ == simplified(expr@, exact),
    decreases expr, 1nat,
{
    settle(descend(expr, exact), exact)
}

fn settle(expr: Expr, exact: bool) -> (r: Expr)
    ensures
        r@ == settled(expr@, exact),
{
    reveal(settled);
    collapse(rewrite(neutralise(expr), exact))
}

fn descend(expr: &Expr, exact: bool) -> (r: Expr)
    ensures
        r@ == descended(expr@, exact),
    decreases expr, 0nat,
{
    proof {
        lemma_call_model(*expr);
    }
    match expr {
        Expr::Unary { op, value } => unary(*op, simplify_ref(value, exact)),
        Expr::Binary { op, left, right } => binary(*op, simplify_ref(left, exact), simplify_ref(right, exact)),
        Expr::Call { name, args, width } => {
            let list = simplify_all(args, exact);
            proof {
                assert(models(list@) =~= descended(expr@, exact)->args);
            }
            call(name.as_str(), list, *width)
        },
        Expr::Select { cond, yes, els } => choice(
            simplify_ref(cond, exact),
            simplify_ref(yes, exact),
            simplify_ref(els, exact),
        ),
        Expr::Swizzle { value, swizzle } => swizzled(simplify_ref(value, exact), copy_bytes(swizzle.as_slice())),
        _ => expr.duplicate(),
    }
}

/// Rewrite an expression into the idioms it was expanded from, innermost first. Under `exact`, nothing is
/// recognised and only the broadcast collapse applies.
pub fn simplify(expr: Expr, exact: bool) -> (r: Expr)
    ensures
        r@ == simplified(expr@, exact),
{
    simplify_ref(&expr, exact)
}

} // verus!
