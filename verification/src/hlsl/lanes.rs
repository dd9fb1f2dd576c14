//! What happens to the lanes of a value: which of them a selection, a mask and a swizzle take, and how they are spelled.
use super::expr::{
    all_single, bracketed, coerced, in_order, lane_letter, lane_letters, picked, rendered, selected, splat, strength,
    width, Domain, ExprModel,
};
use super::machine::{lanes_written, mask_lanes, supplied, written_lanes};
use super::meaning::{casts, value, values, Meaning};
use crate::shex::ir::OperandModel;
use vstd::prelude::*;

verus! {

/// The items of a list at the places that lanes name.
pub open spec fn at_lanes<T>(list: Seq<T>, lanes: Seq<u8>) -> Seq<T> {
    Seq::new(lanes.len(), |i: int| list[lanes[i] as int])
}

/// Every lane is one of the first so many.
pub open spec fn below(lanes: Seq<u8>, count: nat) -> bool {
    forall|i: int| 0 <= i < lanes.len() ==> (#[trigger] lanes[i]) < count
}

/// Taking lanes of a value is taking them of its parts, for whatever works on each lane alone.
pub open spec fn lanewise<V>(m: Meaning<V>, lanes: Seq<u8>) -> bool {
    &&& forall|op: Seq<char>, v: V| #[trigger] m.take(m.un(op, v), lanes) == m.un(op, m.take(v, lanes))
    &&& forall|op: Seq<char>, a: V, b: V| #[trigger]
        m.take(m.bin(op, a, b), lanes) == m.bin(op, m.take(a, lanes), m.take(b, lanes))
    &&& forall|c: V, a: V, b: V| #[trigger]
        m.take(m.pick(c, a, b), lanes) == m.pick(m.take(c, lanes), m.take(a, lanes), m.take(b, lanes))
    &&& forall|base: Seq<char>, swizzle: Seq<u8>|
        below(lanes, swizzle.len()) ==> #[trigger] m.take(m.reg(base, swizzle), lanes) == m.reg(
            base,
            at_lanes(swizzle, lanes),
        )
    &&& forall|bits: Seq<u32>, d: Domain|
        below(lanes, bits.len()) ==> #[trigger] m.take(m.lit(bits, d), lanes) == m.lit(at_lanes(bits, lanes), d)
    &&& forall|v: V, swizzle: Seq<u8>|
        below(lanes, swizzle.len()) ==> #[trigger] m.take(m.take(v, swizzle), lanes) == m.take(
            v,
            at_lanes(swizzle, lanes),
        )
    &&& forall|parts: Seq<V>|
        below(lanes, parts.len()) ==> #[trigger] m.take(m.beside(parts), lanes) == m.beside(at_lanes(parts, lanes))
}

/// A value of one lane has the same in each, and all its lanes in their order are the value.
pub open spec fn spread<V>(m: Meaning<V>, e: ExprModel, lanes: Seq<u8>) -> bool {
    &&& width(e) <= 1 ==> m.take(value(m, e), lanes) == value(m, e)
    &&& lanes.len() == width(e) && in_order(lanes) ==> m.take(value(m, e), lanes) == value(m, e)
}

/// Every part of an expression is as wide as the whole, or of one lane that goes for all; and so read.
pub open spec fn even<V>(m: Meaning<V>, e: ExprModel, wide: nat, lanes: Seq<u8>) -> bool
    decreases e,
{
    &&& width(e) <= 1 || width(e) == wide
    &&& spread(m, e, lanes)
    &&& match e {
        ExprModel::Unary { value: inner, .. } => even(m, *inner, wide, lanes),
        ExprModel::Binary { left, right, .. } => even(m, *left, wide, lanes) && even(m, *right, wide, lanes),
        ExprModel::Select { cond, yes, els } => even(m, *cond, wide, lanes) && even(m, *yes, wide, lanes) && even(
            m,
            *els,
            wide,
            lanes,
        ),
        _ => true,
    }
}

proof fn lemma_picked<T>(list: Seq<T>, lanes: Seq<u8>, n: nat)
    requires
        n <= lanes.len(),
        below(lanes, list.len()),
    ensures
        picked(list, lanes, n) == at_lanes(list, lanes).take(n as int),
    decreases n,
{
    if n > 0 {
        lemma_picked(list, lanes, (n - 1) as nat);
        assert(lanes[n - 1] < list.len());
        assert(picked(list, lanes, n) =~= at_lanes(list, lanes).take(n as int));
    } else {
        assert(picked(list, lanes, n) =~= at_lanes(list, lanes).take(n as int));
    }
}

proof fn lemma_picked_all<T>(list: Seq<T>, lanes: Seq<u8>)
    requires
        below(lanes, list.len()),
    ensures
        picked(list, lanes, lanes.len()) == at_lanes(list, lanes),
{
    lemma_picked(list, lanes, lanes.len());
    assert(at_lanes(list, lanes).take(lanes.len() as int) =~= at_lanes(list, lanes));
}

proof fn lemma_single_parts(parts: Seq<ExprModel>, n: nat)
    requires
        all_single(parts),
        n <= parts.len(),
    ensures
        super::expr::total_width(parts, n) <= n,
    decreases n,
{
    if n > 0 {
        lemma_single_parts(parts, (n - 1) as nat);
        assert(width(parts[n - 1]) == 1);
    }
}

/// Selecting lanes of an expression gives an expression that means those lanes of what it means.
pub proof fn law_selection_takes_the_lanes<V>(m: Meaning<V>, e: ExprModel, lanes: Seq<u8>)
    requires
        lanewise(m, lanes),
        below(lanes, width(e)),
        even(m, e, width(e), lanes),
    ensures
        value(m, selected(e, lanes)) == m.take(value(m, e), lanes),
{
    lemma_selection(m, e, width(e), lanes);
}

proof fn lemma_selection<V>(m: Meaning<V>, e: ExprModel, wide: nat, lanes: Seq<u8>)
    requires
        lanewise(m, lanes),
        below(lanes, wide),
        even(m, e, wide, lanes),
    ensures
        value(m, selected(e, lanes)) == m.take(value(m, e), lanes),
    decreases e,
{
    if width(e) <= 1 || (lanes.len() == width(e) && in_order(lanes)) {
    } else {
        assert(width(e) == wide);
        match e {
            ExprModel::Read { base, swizzle } => {
                lemma_picked_all(swizzle, lanes);
            },
            ExprModel::Literal { bits, .. } => {
                lemma_picked_all(bits, lanes);
            },
            ExprModel::Unary { value: inner, .. } => {
                lemma_selection(m, *inner, wide, lanes);
            },
            ExprModel::Binary { left, right, .. } => {
                lemma_selection(m, *left, wide, lanes);
                lemma_selection(m, *right, wide, lanes);
            },
            ExprModel::Select { cond, yes, els } => {
                lemma_selection(m, *cond, wide, lanes);
                lemma_selection(m, *yes, wide, lanes);
                lemma_selection(m, *els, wide, lanes);
            },
            ExprModel::Swizzle { swizzle, .. } => {
                lemma_picked_all(swizzle, lanes);
            },
            ExprModel::Vector(parts) => {
                if all_single(parts) {
                    lemma_single_parts(parts, parts.len());
                    lemma_picked_all(parts, lanes);
                    let taken = at_lanes(parts, lanes);
                    assert(below(lanes, values(m, parts).len()));
                    assert forall|i: int| 0 <= i < taken.len() implies #[trigger] values(m, taken)[i] == at_lanes(
                        values(m, parts),
                        lanes,
                    )[i] by {
                        assert(lanes[i] < parts.len());
                    }
                    assert(values(m, taken) =~= at_lanes(values(m, parts), lanes));
                }
            },
            ExprModel::Call { .. } => {},
        }
    }
}

/// The components of a mask are those whose bits it has, each once and upwards.
pub proof fn law_mask_names_its_components(mask: u8, lane: u8)
    requires
        mask < 16,
    ensures
        mask_lanes(mask).contains(lane) <==> (lane == 0 && mask % 2 == 1) || (lane == 1 && (mask / 2) % 2 == 1) || (lane == 2
            && (mask / 4) % 2 == 1) || (lane == 3 && mask / 8 == 1),
        forall|i: int, j: int| 0 <= i < j < mask_lanes(mask).len() ==> mask_lanes(mask)[i] < mask_lanes(mask)[j],
{
    let l = mask_lanes(mask);
    assert forall|i: int| 0 <= i < l.len() implies {
        ||| #[trigger] l[i] == 0 && mask % 2 == 1
        ||| l[i] == 1 && (mask / 2) % 2 == 1
        ||| l[i] == 2 && (mask / 4) % 2 == 1
        ||| l[i] == 3 && (mask / 8) % 2 == 1
    } by {}
    let a: int = if mask % 2 == 1 { 1 } else { 0 };
    let b: int = if (mask / 2) % 2 == 1 { a + 1 } else { a };
    let c: int = if (mask / 4) % 2 == 1 { b + 1 } else { b };
    if mask % 2 == 1 {
        assert(l[0] == 0);
    }
    if (mask / 2) % 2 == 1 {
        assert(l[a] == 1);
    }
    if (mask / 4) % 2 == 1 {
        assert(l[b] == 2);
    }
    if (mask / 8) % 2 == 1 {
        assert(l[c] == 3);
    }
}

/// A swizzled source supplies, for each destination lane, the component that its swizzle names for that lane: reading it for
/// some lanes is reading it for all four and taking those.
pub proof fn law_swizzle_supplies_by_lane(operand: OperandModel, lanes: Seq<u8>)
    requires
        operand.components is Swizzle,
        below(lanes, 4),
    ensures
        supplied(operand, lanes) == at_lanes(supplied(operand, seq![0u8, 1, 2, 3]), lanes),
        supplied(operand, seq![0u8, 1, 2, 3]) == operand.components->Swizzle_0@,
{
    let s = operand.components->Swizzle_0;
    assert(supplied(operand, seq![0u8, 1, 2, 3]) =~= s@);
    assert forall|i: int| 0 <= i < lanes.len() implies #[trigger] supplied(operand, lanes)[i] == s@[lanes[i] as int] by {
        assert(lanes[i] < 4);
    }
    assert(supplied(operand, lanes) =~= at_lanes(s@, lanes));
}

/// A source of one component supplies that one, whatever is asked for, and a masked operand is written and read at the
/// components of its mask.
pub proof fn law_selected_components(operand: OperandModel, lanes: Seq<u8>)
    ensures
        operand.components is Scalar ==> supplied(operand, lanes) == seq![operand.components->Scalar_0],
        operand.components is Scalar ==> written_lanes(operand) == seq![operand.components->Scalar_0],
        operand.components is Mask ==> supplied(operand, lanes) == mask_lanes(operand.components->Mask_0),
        operand.components is Mask ==> written_lanes(operand) == mask_lanes(operand.components->Mask_0),
        operand.components is OneComponent ==> supplied(operand, lanes) == seq![0u8],
{
}

/// What an instruction writes is what the first of its destinations writes that is not discarded.
pub proof fn law_discarded_destinations_write_nothing(dests: Seq<OperandModel>, k: int)
    requires
        0 <= k < dests.len(),
        forall|i: int| 0 <= i < k ==> (#[trigger] dests[i]).reg_type is Null,
        !(dests[k].reg_type is Null),
        written_lanes(dests[k]).len() > 0,
    ensures
        lanes_written(dests, dests.len() as int, 0) == written_lanes(dests[k]),
{
    lemma_written(dests, k, 0);
}

proof fn lemma_written(dests: Seq<OperandModel>, k: int, from: int)
    requires
        0 <= from <= k < dests.len(),
        forall|i: int| 0 <= i < k ==> (#[trigger] dests[i]).reg_type is Null,
        !(dests[k].reg_type is Null),
        written_lanes(dests[k]).len() > 0,
    ensures
        lanes_written(dests, dests.len() as int, from) == written_lanes(dests[k]),
    decreases k - from,
{
    if from < k {
        assert(dests[from].reg_type is Null);
        lemma_written(dests, k, from + 1);
    }
}

/// Reading a value in another domain changes none of its bits: it is a cast, between integers nothing at all, and a
/// condition is all ones or nought, or one or nought as a float.
pub proof fn law_coercion_keeps_the_bits<V>(m: Meaning<V>, e: ExprModel)
    requires
        casts(m),
        1 <= width(e) <= usize::MAX,
    ensures
        value(m, coerced(e, Domain::Uint, Domain::Float)) == m.f1("asfloat"@, value(m, e)),
        value(m, coerced(e, Domain::Int, Domain::Float)) == m.f1("asfloat"@, value(m, e)),
        value(m, coerced(e, Domain::Float, Domain::Int)) == m.f1("asint"@, value(m, e)),
        value(m, coerced(e, Domain::Float, Domain::Uint)) == m.f1("asuint"@, value(m, e)),
        !(e is Literal) ==> coerced(e, Domain::Int, Domain::Uint) == e && coerced(e, Domain::Uint, Domain::Int) == e,
        !(e is Literal) ==> value(m, coerced(e, Domain::Bool, Domain::Uint)) == m.pick(
            value(m, e),
            m.lit(splat(0xFFFF_FFFF, width(e)), Domain::Uint),
            m.lit(splat(0, width(e)), Domain::Uint),
        ),
        !(e is Literal) ==> value(m, coerced(e, Domain::Bool, Domain::Float)) == m.pick(
            value(m, e),
            m.lit(splat(0x3F80_0000, width(e)), Domain::Float),
            m.lit(splat(0, width(e)), Domain::Float),
        ),
        value(m, coerced(e, Domain::Uint, Domain::Bool)) == m.bin("!="@, value(m, e), m.lit(splat(0, width(e)), Domain::Uint)),
        value(m, coerced(e, Domain::Float, Domain::Bool)) == m.bin(
            "!="@,
            value(m, e),
            m.lit(splat(0, width(e)), Domain::Float),
        ),
        forall|d: Domain| #[trigger] coerced(e, d, d) == e,
{
    reveal_with_fuel(value, 3);
    assert(values(m, seq![e]) =~= seq![value(m, e)]);
    if e is Literal {
        let bits = e->Literal_bits;
        let d = e->Literal_domain;
        assert(m.f1("asfloat"@, m.lit(bits, d)) == m.lit(bits, Domain::Float));
        assert(m.f1("asint"@, m.lit(bits, d)) == m.lit(bits, Domain::Int));
        assert(m.f1("asuint"@, m.lit(bits, d)) == m.lit(bits, Domain::Uint));
    }
}

/// The operators bind as they do in C: a product before a sum, a sum before a shift, and so on down to the logical ones.
pub proof fn law_operators_bind_in_order()
    ensures
        strength("*"@) > strength("+"@),
        strength("/"@) == strength("*"@),
        strength("%"@) == strength("*"@),
        strength("+"@) == strength("-"@),
        strength("-"@) > strength("<<"@),
        strength("<<"@) == strength(">>"@),
        strength(">>"@) > strength("<"@),
        strength("<"@) == strength(">="@),
        strength("<"@) > strength("=="@),
        strength("=="@) == strength("!="@),
        strength("!="@) > strength("&"@),
        strength("&"@) > strength("^"@),
        strength("^"@) > strength("|"@),
        strength("|"@) > strength("&&"@),
        strength("&&"@) > strength("||"@),
{
    reveal_strlit("*");
    reveal_strlit("/");
    reveal_strlit("%");
    reveal_strlit("+");
    reveal_strlit("-");
    reveal_strlit("<<");
    reveal_strlit(">>");
    reveal_strlit("<");
    reveal_strlit(">");
    reveal_strlit("<=");
    reveal_strlit(">=");
    reveal_strlit("==");
    reveal_strlit("!=");
    reveal_strlit("&");
    reveal_strlit("^");
    reveal_strlit("|");
    reveal_strlit("&&");
    reveal_strlit("||");
    assert("*"@[0] == '*' && "/"@[0] == '/' && "%"@[0] == '%' && "+"@[0] == '+' && "-"@[0] == '-' && "<"@[0] == '<' && ">"@[0]
        == '>' && "&"@[0] == '&' && "^"@[0] == '^' && "|"@[0] == '|');
    assert("<<"@[0] == '<' && "<<"@[1] == '<' && ">>"@[0] == '>' && ">>"@[1] == '>' && "<="@[0] == '<' && "<="@[1] == '='
        && ">="@[0] == '>' && ">="@[1] == '=' && "=="@[0] == '=' && "!="@[0] == '!' && "&&"@[0] == '&' && "||"@[0] == '|');
    assert("<"@.len() == 1 && ">"@.len() == 1 && "&"@.len() == 1 && "|"@.len() == 1 && "^"@.len() == 1 && "<<"@.len() == 2
        && ">>"@.len() == 2 && "&&"@.len() == 2 && "||"@.len() == 2 && "<="@.len() == 2 && ">="@.len() == 2);
    assert(strength("|"@) == 4 && strength("^"@) == 5 && strength("&"@) == 6 && strength("&&"@) == 3);
    assert(strength("<"@) == 8 && strength("<<"@) == 9 && strength(">>"@) == 9);
}

/// An operand that binds less than the operator it stands under is in brackets, and so is one on the right that binds as
/// much: what is shown groups as the expression does.
pub proof fn law_weaker_operands_are_bracketed(
    op: Seq<char>,
    inner: Seq<char>,
    a: ExprModel,
    b: ExprModel,
    c: ExprModel,
)
    ensures
        ({
            let low = ExprModel::Binary { op: inner, left: Box::new(a), right: Box::new(b) };
            let text = rendered(low, 0);
            let left = ExprModel::Binary { op, left: Box::new(low), right: Box::new(c) };
            let right = ExprModel::Binary { op, left: Box::new(c), right: Box::new(low) };
            &&& strength(inner) < strength(op) ==> rendered(left, 0) == "("@ + text + ")"@ + " "@ + op + " "@ + rendered(
                c,
                strength(op) + 1,
            )
            &&& strength(inner) >= strength(op) ==> rendered(left, 0) == text + " "@ + op + " "@ + rendered(
                c,
                strength(op) + 1,
            )
            &&& strength(inner) <= strength(op) ==> rendered(right, 0) == rendered(c, strength(op)) + " "@ + op + " "@ + (
            "("@ + text + ")"@)
            &&& strength(inner) > strength(op) ==> rendered(right, 0) == rendered(c, strength(op)) + " "@ + op + " "@ + text
        }),
{
    let low = ExprModel::Binary { op: inner, left: Box::new(a), right: Box::new(b) };
    let left = ExprModel::Binary { op, left: Box::new(low), right: Box::new(c) };
    let right = ExprModel::Binary { op, left: Box::new(c), right: Box::new(low) };
    assert(rendered(low, strength(op)) == bracketed(rendered(low, 0), strength(inner), strength(op)));
    assert(rendered(low, strength(op) + 1) == bracketed(rendered(low, 0), strength(inner), strength(op) + 1));
}

/// The lanes are spelled by their letters: equal letters are equal components of a register.
pub proof fn law_letters_tell_lanes_apart(a: u8, b: u8)
    requires
        a < 4,
        b < 4,
    ensures
        lane_letter(a) == lane_letter(b) <==> a == b,
        lane_letter(0) == 'x',
        lane_letter(1) == 'y',
        lane_letter(2) == 'z',
        lane_letter(3) == 'w',
        lane_letters(seq![a, b]) =~= seq![lane_letter(a), lane_letter(b)],
{
}

} // verus!
