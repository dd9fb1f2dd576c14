//! What each operation of the machine computes, over whatever its sources mean.
use super::expr::{call_model, splat, width, Domain, ExprModel};
use super::machine::{all_bool, all_one, all_plain, chosen, computed};
use super::meaning::{value, values, Meaning};
use crate::shex::opcodes::Opcode;
use vstd::prelude::*;

verus! {

/// A value of an evaluation means this, and is to be read so.
pub open spec fn means<V>(m: Meaning<V>, held: Option<(ExprModel, Domain)>, v: V, domain: Domain) -> bool {
    match held {
        Some((e, d)) => value(m, e) == v && d == domain,
        None => false,
    }
}

/// An instruction computes one value, which means this, and is to be read so.
pub open spec fn gives<V>(
    m: Meaning<V>,
    opcode: Opcode,
    sources: Seq<(ExprModel, Domain)>,
    width: usize,
    v: V,
    domain: Domain,
) -> bool {
    let r = computed(opcode, sources, false, width);
    r.values.len() == 1 && means(m, r.values[0], v, domain)
}

proof fn lemma_call1<V>(m: Meaning<V>, name: Seq<char>, a: ExprModel, width: usize)
    ensures
        value(m, call_model(name, seq![a], width)) == m.f1(name, value(m, a)),
{
    assert(values(m, seq![a]) =~= seq![value(m, a)]);
}

proof fn lemma_call2<V>(m: Meaning<V>, name: Seq<char>, a: ExprModel, b: ExprModel, width: usize)
    ensures
        value(m, call_model(name, seq![a, b], width)) == m.f2(name, value(m, a), value(m, b)),
{
    assert(values(m, seq![a, b]) =~= seq![value(m, a), value(m, b)]);
}

proof fn lemma_call3<V>(m: Meaning<V>, name: Seq<char>, a: ExprModel, b: ExprModel, c: ExprModel, width: usize)
    ensures
        value(m, call_model(name, seq![a, b, c], width)) == m.f3(name, value(m, a), value(m, b), value(m, c)),
{
    assert(values(m, seq![a, b, c]) =~= seq![value(m, a), value(m, b), value(m, c)]);
}

/// The operations on one float.
pub proof fn law_float_functions<V>(m: Meaning<V>, a: ExprModel, w: usize)
    ensures
        ({
            let s = seq![(a, Domain::Float)];
            let v = value(m, a);
            &&& gives(m, Opcode::Frc, s, w, m.f1("frac"@, v), Domain::Float)
            &&& gives(m, Opcode::Exp, s, w, m.f1("exp2"@, v), Domain::Float)
            &&& gives(m, Opcode::Log, s, w, m.f1("log2"@, v), Domain::Float)
            &&& gives(m, Opcode::Rcp, s, w, m.f1("rcp"@, v), Domain::Float)
            &&& gives(m, Opcode::Rsq, s, w, m.f1("rsqrt"@, v), Domain::Float)
            &&& gives(m, Opcode::Sqrt, s, w, m.f1("sqrt"@, v), Domain::Float)
            &&& gives(m, Opcode::Round_ne, s, w, m.f1("round"@, v), Domain::Float)
            &&& gives(m, Opcode::Round_ni, s, w, m.f1("floor"@, v), Domain::Float)
            &&& gives(m, Opcode::Round_pi, s, w, m.f1("ceil"@, v), Domain::Float)
            &&& gives(m, Opcode::Round_z, s, w, m.f1("trunc"@, v), Domain::Float)
            &&& gives(m, Opcode::Deriv_rtx, s, w, m.f1("ddx"@, v), Domain::Float)
            &&& gives(m, Opcode::Deriv_rty, s, w, m.f1("ddy"@, v), Domain::Float)
            &&& gives(m, Opcode::Deriv_rtx_coarse, s, w, m.f1("ddx_coarse"@, v), Domain::Float)
            &&& gives(m, Opcode::Deriv_rty_coarse, s, w, m.f1("ddy_coarse"@, v), Domain::Float)
            &&& gives(m, Opcode::Deriv_rtx_fine, s, w, m.f1("ddx_fine"@, v), Domain::Float)
            &&& gives(m, Opcode::Deriv_rty_fine, s, w, m.f1("ddy_fine"@, v), Domain::Float)
        }),
{
    lemma_call1(m, "frac"@, a, w);
    lemma_call1(m, "exp2"@, a, w);
    lemma_call1(m, "log2"@, a, w);
    lemma_call1(m, "rcp"@, a, w);
    lemma_call1(m, "rsqrt"@, a, w);
    lemma_call1(m, "sqrt"@, a, w);
    lemma_call1(m, "round"@, a, w);
    lemma_call1(m, "floor"@, a, w);
    lemma_call1(m, "ceil"@, a, w);
    lemma_call1(m, "trunc"@, a, w);
    lemma_call1(m, "ddx"@, a, w);
    lemma_call1(m, "ddy"@, a, w);
    lemma_call1(m, "ddx_coarse"@, a, w);
    lemma_call1(m, "ddy_coarse"@, a, w);
    lemma_call1(m, "ddx_fine"@, a, w);
    lemma_call1(m, "ddy_fine"@, a, w);
}

/// The operations on two floats or three: the left operand is the first source.
pub proof fn law_float_operations<V>(m: Meaning<V>, a: ExprModel, b: ExprModel, c: ExprModel, w: usize)
    ensures
        ({
            let s = seq![(a, Domain::Float), (b, Domain::Float), (c, Domain::Float)];
            let (x, y, z) = (value(m, a), value(m, b), value(m, c));
            &&& gives(m, Opcode::Add, s, w, m.bin("+"@, x, y), Domain::Float)
            &&& gives(m, Opcode::Mul, s, w, m.bin("*"@, x, y), Domain::Float)
            &&& gives(m, Opcode::Div, s, w, m.bin("/"@, x, y), Domain::Float)
            &&& gives(m, Opcode::Mad, s, w, m.bin("+"@, m.bin("*"@, x, y), z), Domain::Float)
            &&& gives(m, Opcode::Min, s, w, m.f2("min"@, x, y), Domain::Float)
            &&& gives(m, Opcode::Max, s, w, m.f2("max"@, x, y), Domain::Float)
            &&& gives(m, Opcode::Eq, s, w, m.bin("=="@, x, y), Domain::Bool)
            &&& gives(m, Opcode::Ne, s, w, m.bin("!="@, x, y), Domain::Bool)
            &&& gives(m, Opcode::Lt, s, w, m.bin("<"@, x, y), Domain::Bool)
            &&& gives(m, Opcode::Ge, s, w, m.bin(">="@, x, y), Domain::Bool)
        }),
{
    reveal_with_fuel(value, 3);
    lemma_call2(m, "min"@, a, b, w);
    lemma_call2(m, "max"@, a, b, w);
}

/// The operations on signed integers.
pub proof fn law_int_operations<V>(m: Meaning<V>, a: ExprModel, b: ExprModel, c: ExprModel, w: usize)
    ensures
        ({
            let s = seq![(a, Domain::Int), (b, Domain::Int), (c, Domain::Int)];
            let (x, y, z) = (value(m, a), value(m, b), value(m, c));
            &&& gives(m, Opcode::Iadd, s, w, m.bin("+"@, x, y), Domain::Int)
            &&& gives(m, Opcode::IMad, s, w, m.bin("+"@, m.bin("*"@, x, y), z), Domain::Int)
            &&& gives(m, Opcode::INeg, s, w, m.un("-"@, x), Domain::Int)
            &&& gives(m, Opcode::IMin, s, w, m.f2("min"@, x, y), Domain::Int)
            &&& gives(m, Opcode::IMax, s, w, m.f2("max"@, x, y), Domain::Int)
            &&& gives(m, Opcode::IEq, s, w, m.bin("=="@, x, y), Domain::Bool)
            &&& gives(m, Opcode::INe, s, w, m.bin("!="@, x, y), Domain::Bool)
            &&& gives(m, Opcode::ILt, s, w, m.bin("<"@, x, y), Domain::Bool)
            &&& gives(m, Opcode::IGe, s, w, m.bin(">="@, x, y), Domain::Bool)
        }),
{
    reveal_with_fuel(value, 3);
    lemma_call2(m, "min"@, a, b, w);
    lemma_call2(m, "max"@, a, b, w);
}

/// The operations on unsigned integers and on bits. A shift is signed where its value is.
pub proof fn law_uint_operations<V>(m: Meaning<V>, a: ExprModel, b: ExprModel, c: ExprModel, w: usize)
    ensures
        ({
            let s = seq![(a, Domain::Uint), (b, Domain::Uint), (c, Domain::Uint)];
            let signed = seq![(a, Domain::Int), (b, Domain::Uint)];
            let (x, y, z) = (value(m, a), value(m, b), value(m, c));
            &&& gives(m, Opcode::UMad, s, w, m.bin("+"@, m.bin("*"@, x, y), z), Domain::Uint)
            &&& gives(m, Opcode::UMin, s, w, m.f2("min"@, x, y), Domain::Uint)
            &&& gives(m, Opcode::UMax, s, w, m.f2("max"@, x, y), Domain::Uint)
            &&& gives(m, Opcode::ULt, s, w, m.bin("<"@, x, y), Domain::Bool)
            &&& gives(m, Opcode::UGe, s, w, m.bin(">="@, x, y), Domain::Bool)
            &&& gives(m, Opcode::Xor, s, w, m.bin("^"@, x, y), Domain::Uint)
            &&& gives(m, Opcode::Not, s, w, m.un("~"@, x), Domain::Uint)
            &&& gives(m, Opcode::Ushr, s, w, m.bin(">>"@, x, y), Domain::Uint)
            &&& gives(m, Opcode::Ishl, signed, w, m.bin("<<"@, x, y), Domain::Int)
            &&& gives(m, Opcode::Ishr, signed, w, m.bin(">>"@, x, y), Domain::Int)
        }),
{
    reveal_with_fuel(value, 3);
    lemma_call2(m, "min"@, a, b, w);
    lemma_call2(m, "max"@, a, b, w);
}

/// Conversions of one value: the result is to be read as what it is converted to, the source as what it was.
pub proof fn law_conversions<V>(m: Meaning<V>, a: ExprModel)
    ensures
        gives(m, Opcode::Ftoi, seq![(a, Domain::Float)], 1, m.f1("int"@, value(m, a)), Domain::Int),
        gives(m, Opcode::Ftou, seq![(a, Domain::Float)], 1, m.f1("uint"@, value(m, a)), Domain::Uint),
        gives(m, Opcode::Itof, seq![(a, Domain::Int)], 1, m.f1("float"@, value(m, a)), Domain::Float),
        gives(m, Opcode::Utof, seq![(a, Domain::Uint)], 1, m.f1("float"@, value(m, a)), Domain::Float),
{
    lemma_call1(m, "int"@, a, 1);
    lemma_call1(m, "uint"@, a, 1);
    lemma_call1(m, "float"@, a, 1);
}

/// A multiply and add is an add to what a multiply gives, and a move gives its source back.
pub proof fn law_multiply_add_is_both<V>(m: Meaning<V>, a: ExprModel, b: ExprModel, c: ExprModel, d: Domain, w: usize)
    ensures
        ({
            let product = computed(Opcode::Mul, seq![(a, Domain::Float), (b, Domain::Float)], false, w).values[0];
            let sum = computed(Opcode::Add, seq![product->Some_0, (c, Domain::Float)], false, w).values[0];
            let both = computed(
                Opcode::Mad,
                seq![(a, Domain::Float), (b, Domain::Float), (c, Domain::Float)],
                false,
                w,
            ).values[0];
            both == sum
        }),
        gives(m, Opcode::Mov, seq![(a, d)], w, value(m, a), d),
{
}

/// A conditional move takes its second source where the first holds and its third where not; a conditional swap is two of
/// them, the other way round first.
pub proof fn law_swap_is_two_moves<V>(m: Meaning<V>, c: ExprModel, a: ExprModel, b: ExprModel, w: usize)
    ensures
        ({
            let (x, y, z) = (value(m, c), value(m, a), value(m, b));
            let s = seq![(c, Domain::Bool), (a, Domain::Float), (b, Domain::Float)];
            let t = seq![(c, Domain::Bool), (b, Domain::Float), (a, Domain::Float)];
            let swapped = computed(Opcode::Swapc, s, false, w).values;
            &&& gives(m, Opcode::Movc, s, w, m.pick(x, y, z), Domain::Float)
            &&& swapped.len() == 2
            &&& swapped[0] == computed(Opcode::Movc, t, false, w).values[0]
            &&& swapped[1] == computed(Opcode::Movc, s, false, w).values[0]
        }),
{
}

/// A conditional move reads both values as what its second source is.
pub proof fn law_conditional_move_keeps_the_kind<V>(m: Meaning<V>, c: ExprModel, a: ExprModel, b: ExprModel, d: Domain, w: usize)
    ensures
        gives(
            m,
            Opcode::Movc,
            seq![(c, Domain::Bool), (a, d), (b, d)],
            w,
            m.pick(value(m, c), value(m, a), value(m, b)),
            d,
        ),
{
}

/// The operations of two results: the sine and then the cosine, the quotient and then the remainder, the upper half of a
/// product and then the lower, of which the upper may be left out.
pub proof fn law_two_results<V>(m: Meaning<V>, a: ExprModel, b: ExprModel, w: usize)
    ensures
        ({
            let (x, y) = (value(m, a), value(m, b));
            let angles = computed(Opcode::Sincos, seq![(a, Domain::Float)], false, w).values;
            let parts = computed(Opcode::UDiv, seq![(a, Domain::Uint), (b, Domain::Uint)], false, w).values;
            let halves = computed(Opcode::IMul, seq![(a, Domain::Int), (b, Domain::Int)], false, w).values;
            let lower = computed(Opcode::IMul, seq![(a, Domain::Int), (b, Domain::Int)], true, w).values;
            let unsigned = computed(Opcode::UMul, seq![(a, Domain::Uint), (b, Domain::Uint)], false, w).values;
            &&& angles.len() == 2
            &&& means(m, angles[0], m.f1("sin"@, x), Domain::Float)
            &&& means(m, angles[1], m.f1("cos"@, x), Domain::Float)
            &&& parts.len() == 2
            &&& means(m, parts[0], m.bin("/"@, x, y), Domain::Uint)
            &&& means(m, parts[1], m.bin("%"@, x, y), Domain::Uint)
            &&& halves.len() == 2
            &&& means(m, halves[0], m.f2("mul_high"@, x, y), Domain::Int)
            &&& means(m, halves[1], m.bin("*"@, x, y), Domain::Int)
            &&& lower.len() == 2 && lower[0] is None && lower[1] == halves[1]
            &&& unsigned.len() == 2
            &&& means(m, unsigned[0], m.f2("mul_high"@, x, y), Domain::Uint)
            &&& means(m, unsigned[1], m.bin("*"@, x, y), Domain::Uint)
        }),
{
    lemma_call1(m, "sin"@, a, w);
    lemma_call1(m, "cos"@, a, w);
    lemma_call2(m, "mul_high"@, a, b, w);
}

/// The operations on fields of bits take how wide a field is before where it starts and before the value; the functions
/// they come out as take them the other way round.
pub proof fn law_bitfields<V>(m: Meaning<V>, size: ExprModel, start: ExprModel, held: ExprModel, into: ExprModel, w: usize)
    ensures
        ({
            let (n, p, x, y) = (value(m, size), value(m, start), value(m, held), value(m, into));
            let u = Domain::Uint;
            &&& gives(m, Opcode::Ubfe, seq![(size, u), (start, u), (held, u)], w, m.f3("bitfield_extract"@, x, p, n), u)
            &&& gives(
                m,
                Opcode::Ibfe,
                seq![(size, u), (start, u), (held, Domain::Int)],
                w,
                m.f3("bitfield_extract"@, x, p, n),
                Domain::Int,
            )
            &&& gives(
                m,
                Opcode::Bfi,
                seq![(size, u), (start, u), (held, u), (into, u)],
                w,
                m.fun("bitfield_insert"@, seq![y, x, p, n]),
                u,
            )
        }),
{
    lemma_call3(m, "bitfield_extract"@, held, start, size, w);
    let args = seq![into, held, start, size];
    assert(values(m, args) =~= seq![value(m, into), value(m, held), value(m, start), value(m, size)]);
}

/// Conditions are combined as conditions, and bits as bits; a condition that masks a float constant is that constant or
/// nought, and one that masks one is itself.
pub proof fn law_masks<V>(m: Meaning<V>, a: ExprModel, b: ExprModel, bits: Seq<u32>, w: usize)
    requires
        !(a is Literal) && !(b is Literal),
        bits.len() > 0,
        forall|i: int| 0 <= i < bits.len() ==> 0x0080_0000 <= #[trigger] bits[i] < 0x7F80_0000,
        bits[0] != 0x3F80_0000,
    ensures
        ({
            let (x, y) = (value(m, a), value(m, b));
            let conditions = seq![(a, Domain::Bool), (b, Domain::Bool)];
            let words = seq![(a, Domain::Uint), (b, Domain::Uint)];
            let held = ExprModel::Literal { bits, domain: Domain::Float };
            &&& gives(m, Opcode::And, conditions, w, m.bin("&&"@, x, y), Domain::Bool)
            &&& gives(m, Opcode::Or, conditions, w, m.bin("||"@, x, y), Domain::Bool)
            &&& gives(m, Opcode::And, words, w, m.bin("&"@, x, y), Domain::Uint)
            &&& gives(m, Opcode::Or, words, w, m.bin("|"@, x, y), Domain::Uint)
            &&& gives(
                m,
                Opcode::And,
                seq![(a, Domain::Bool), (held, Domain::Float)],
                w,
                m.pick(x, m.lit(bits, Domain::Float), m.lit(splat(0, bits.len()), Domain::Float)),
                Domain::Float,
            )
            &&& gives(
                m,
                Opcode::And,
                seq![(held, Domain::Float), (a, Domain::Bool)],
                w,
                m.pick(x, m.lit(bits, Domain::Float), m.lit(splat(0, bits.len()), Domain::Float)),
                Domain::Float,
            )
        }),
{
    reveal_with_fuel(value, 3);
    let conditions = seq![(a, Domain::Bool), (b, Domain::Bool)];
    let words = seq![(a, Domain::Uint), (b, Domain::Uint)];
    let held = ExprModel::Literal { bits, domain: Domain::Float };
    assert(!all_bool(words)) by {
        assert(words[0].1 == Domain::Uint);
    }
    assert(all_bool(conditions));
    assert(all_plain(bits));
    assert(!all_one(bits)) by {
        assert(bits[0] != 0x3F80_0000);
    }
    let one = seq![(a, Domain::Bool), (held, Domain::Float)];
    let other = seq![(held, Domain::Float), (a, Domain::Bool)];
    assert(chosen(conditions) is None && chosen(words) is None);
    assert(chosen(one) == Some((a, bits)));
    assert(chosen(other) == Some((a, bits)));
}

} // verus!
