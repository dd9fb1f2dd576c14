//! Recovering an idiom keeps what an expression means.
use super::expr::{binary_model, call_model, ends_with, in_order, splat, unary_model, width, Domain, ExprModel};
use super::idiom::{
    argument, bare_product, bounded, cast, cast_domain, collapsed, conjunction, descended, either_way, exponent,
    gathered, interpolated, is_bits, is_cast, is_nought, joints, lemma_one_sign_fewer, lerp, logarithm, masked,
    narrowed, neutral, neutralised, normalised, operands_of, product, recalled, rewritten, root, settled, signs,
    simplified, single, square, sum, unsigned_lanes, weighed, wide, without_sign, LOG2_E, ONE,
};
use super::meaning::{all_noughts, all_words, laned, lawful, value, values, Meaning};
use crate::text::dec;
use vstd::prelude::*;

verus! {

/// One expression stands for another: it means the same, and has lanes.
spec fn stands_for<V>(m: Meaning<V>, e: ExprModel, v: V) -> bool {
    value(m, e) == v && laned(e)
}

proof fn lemma_call1<V>(m: Meaning<V>, name: Seq<char>, a: ExprModel, width: usize)
    ensures
        value(m, call_model(name, seq![a], width)) == m.f1(name, value(m, a)),
        laned(a) && width >= 1 ==> laned(call_model(name, seq![a], width)),
{
    let args = seq![a];
    assert(values(m, args) =~= seq![value(m, a)]);
}

proof fn lemma_call2<V>(m: Meaning<V>, name: Seq<char>, a: ExprModel, b: ExprModel, width: usize)
    ensures
        value(m, call_model(name, seq![a, b], width)) == m.f2(name, value(m, a), value(m, b)),
        laned(a) && laned(b) && width >= 1 ==> laned(call_model(name, seq![a, b], width)),
{
    let args = seq![a, b];
    assert(values(m, args) =~= seq![value(m, a), value(m, b)]);
}

proof fn lemma_call3<V>(m: Meaning<V>, name: Seq<char>, a: ExprModel, b: ExprModel, c: ExprModel, width: usize)
    ensures
        value(m, call_model(name, seq![a, b, c], width)) == m.f3(name, value(m, a), value(m, b), value(m, c)),
        laned(a) && laned(b) && laned(c) && width >= 1 ==> laned(call_model(name, seq![a, b, c], width)),
{
    let args = seq![a, b, c];
    assert(values(m, args) =~= seq![value(m, a), value(m, b), value(m, c)]);
}

/// The value behind a sign.
proof fn lemma_sign<V>(m: Meaning<V>, e: ExprModel)
    requires
        lawful(m),
        laned(e),
        without_sign(e) is Some,
    ensures
        value(m, e) == m.un("-"@, value(m, without_sign(e)->0)),
        laned(without_sign(e)->0),
{
    match e {
        ExprModel::Literal { bits, domain } => {
            let plain = unsigned_lanes(bits);
            assert(m.lit(bits, Domain::Float) == m.un("-"@, m.lit(plain, Domain::Float)));
        },
        _ => {},
    }
}

/// The condition behind a weight that is one or nought.
proof fn lemma_weight<V>(m: Meaning<V>, weight: ExprModel, v: V, a: V)
    requires
        lawful(m),
        laned(weight),
        either_way(weight) is Some,
    ensures
        laned(either_way(weight)->0),
        m.bin("+"@, m.bin("*"@, value(m, weight), v), a) == m.pick(
            value(m, either_way(weight)->0),
            m.bin("+"@, v, a),
            a,
        ),
{
    match weight {
        ExprModel::Select { cond, yes, els } => {
            let (c, y, n) = (value(m, *cond), value(m, *yes), value(m, *els));
            assert(laned(*yes) && laned(*els));
            assert(width(*yes) >= 1 && width(*els) >= 1);
            assert(all_words(yes->Literal_bits, 0x3F80_0000));
            assert(all_noughts(els->Literal_bits));
            assert(m.bin("*"@, m.pick(c, y, n), v) == m.pick(c, m.bin("*"@, y, v), m.bin("*"@, n, v)));
            assert(m.bin("+"@, m.pick(c, m.bin("*"@, y, v), m.bin("*"@, n, v)), a) == m.pick(
                c,
                m.bin("+"@, m.bin("*"@, y, v), a),
                m.bin("+"@, m.bin("*"@, n, v), a),
            ));
            assert(m.bin("*"@, m.lit(yes->Literal_bits, Domain::Float), v) == v);
            assert(m.bin("+"@, m.bin("*"@, m.lit(els->Literal_bits, Domain::Float), v), a) == a);
        },
        _ => {},
    }
}

proof fn lemma_lerp<V>(m: Meaning<V>, from: ExprModel, to: ExprModel, weight: ExprModel, w: usize)
    requires
        lawful(m),
        laned(from),
        laned(to),
        laned(weight),
        w >= 1,
    ensures
        stands_for(
            m,
            lerp(from, to, weight, w),
            m.bin("+"@, m.bin("*"@, m.bin("-"@, value(m, to), value(m, from)), value(m, weight)), value(m, from)),
        ),
{
    let (f, t, g) = (value(m, from), value(m, to), value(m, weight));
    lemma_call3(m, "lerp"@, from, to, weight, w);
    assert(m.f3("lerp"@, f, t, g) == m.bin("+"@, m.bin("*"@, m.bin("-"@, t, f), g), f));
    if either_way(weight) is Some {
        lemma_weight(m, weight, m.bin("-"@, t, f), f);
        assert(m.bin("*"@, m.bin("-"@, t, f), g) == m.bin("*"@, g, m.bin("-"@, t, f)));
        assert(m.bin("+"@, m.bin("-"@, t, f), f) == t);
    }
}

proof fn lemma_weighed<V>(m: Meaning<V>, weight: ExprModel, held: ExprModel, addend: ExprModel)
    requires
        lawful(m),
        laned(weight),
        laned(held),
        laned(addend),
        weighed(weight, held, addend) is Some,
    ensures
        stands_for(
            m,
            weighed(weight, held, addend)->0,
            m.bin("+"@, m.bin("*"@, value(m, weight), value(m, held)), value(m, addend)),
        ),
    decreases joints(held) + joints(addend), 2nat,
{
    let (v, a) = (value(m, held), value(m, addend));
    lemma_weight(m, weight, v, a);
    match operands_of(held, "-"@) {
        Some((to, from)) => {
            if from == addend {
                assert(m.bin("+"@, m.bin("-"@, value(m, to), a), a) == value(m, to));
            } else {
                lemma_sum(m, held, addend);
            }
        },
        None => {
            lemma_sum(m, held, addend);
        },
    }
}

proof fn lemma_interpolated<V>(m: Meaning<V>, difference: ExprModel, weight: ExprModel, addend: ExprModel, w: usize)
    requires
        lawful(m),
        laned(difference),
        laned(weight),
        laned(addend),
        w >= 1,
        interpolated(difference, weight, addend, w) is Some,
    ensures
        stands_for(
            m,
            interpolated(difference, weight, addend, w)->0,
            m.bin("+"@, m.bin("*"@, value(m, difference), value(m, weight)), value(m, addend)),
        ),
{
    let (to, from) = operands_of(difference, "-"@)->0;
    lemma_lerp(m, from, to, weight, w);
}

proof fn lemma_gathered<V>(m: Meaning<V>, times: ExprModel, addend: ExprModel)
    requires
        lawful(m),
        laned(times),
        laned(addend),
        gathered(times, addend) is Some,
    ensures
        stands_for(m, gathered(times, addend)->0, m.bin("+"@, value(m, times), value(m, addend))),
    decreases joints(times) + joints(addend), 0nat,
{
    let (first, second) = operands_of(times, "*"@)->0;
    let w = wide(times, addend);
    assert(w >= 1);
    assert(m.bin("*"@, value(m, first), value(m, second)) == m.bin("*"@, value(m, second), value(m, first)));
    if weighed(first, second, addend) is Some {
        lemma_weighed(m, first, second, addend);
    } else if weighed(second, first, addend) is Some {
        lemma_weighed(m, second, first, addend);
    } else if interpolated(first, second, addend, w) is Some {
        lemma_interpolated(m, first, second, addend, w);
    } else {
        lemma_interpolated(m, second, first, addend, w);
    }
}

proof fn lemma_sum<V>(m: Meaning<V>, left: ExprModel, right: ExprModel)
    requires
        lawful(m),
        laned(left),
        laned(right),
    ensures
        stands_for(m, sum(left, right), m.bin("+"@, value(m, left), value(m, right))),
    decreases joints(left) + joints(right), 1nat,
{
    let (l, r) = (value(m, left), value(m, right));
    assert(m.bin("+"@, l, r) == m.bin("+"@, r, l));
    if without_sign(right) is Some {
        lemma_sign(m, right);
        assert(m.bin("-"@, l, value(m, without_sign(right)->0)) == m.bin("+"@, l, r));
    } else if without_sign(left) is Some {
        lemma_sign(m, left);
        assert(m.bin("-"@, r, value(m, without_sign(left)->0)) == m.bin("+"@, r, l));
    } else if gathered(left, right) is Some {
        lemma_gathered(m, left, right);
    } else if gathered(right, left) is Some {
        lemma_gathered(m, right, left);
    }
}

proof fn lemma_logarithm<V>(m: Meaning<V>, held: ExprModel, scale: ExprModel, w: usize)
    requires
        lawful(m),
        laned(held),
        laned(scale),
        w >= 1,
        logarithm(held, scale, w) is Some,
    ensures
        stands_for(m, logarithm(held, scale, w)->0, m.bin("*"@, value(m, held), value(m, scale))),
{
    lemma_argument(m, held, "log2"@);
    let inner = argument(held, "log2"@)->0;
    lemma_call1(m, "log"@, inner, w);
    assert(all_words(scale->Literal_bits, 0x3F31_7218));
    assert(width(scale) >= 1);
    assert(m.bin("*"@, m.f1("log2"@, value(m, inner)), m.lit(scale->Literal_bits, Domain::Float)) == m.f1(
        "log"@,
        value(m, inner),
    ));
}

proof fn lemma_argument<V>(m: Meaning<V>, e: ExprModel, name: Seq<char>)
    requires
        laned(e),
        argument(e, name) is Some,
    ensures
        value(m, e) == m.f1(name, value(m, argument(e, name)->0)),
        laned(argument(e, name)->0),
{
    match e {
        ExprModel::Call { args, width, .. } => {
            assert(args =~= seq![args[0]]);
            lemma_call1(m, name, args[0], width);
            assert(laned(args[0]));
        },
        _ => {},
    }
}

proof fn lemma_square<V>(m: Meaning<V>, e: ExprModel)
    requires
        laned(e),
        square(e) is Some,
    ensures
        value(m, e) == m.f2("dot"@, value(m, square(e)->0), value(m, square(e)->0)),
        laned(square(e)->0),
{
    match e {
        ExprModel::Call { args, width, .. } => {
            assert(args =~= seq![args[0], args[1]]);
            lemma_call2(m, "dot"@, args[0], args[1], width);
            assert(laned(args[0]) && laned(args[1]));
        },
        _ => {},
    }
}

proof fn lemma_normalised<V>(m: Meaning<V>, vector: ExprModel, scale: ExprModel, w: usize)
    requires
        lawful(m),
        laned(vector),
        laned(scale),
        w >= 1,
        normalised(vector, scale, w) is Some,
    ensures
        stands_for(m, normalised(vector, scale, w)->0, m.bin("*"@, value(m, vector), value(m, scale))),
{
    lemma_argument(m, scale, "rsqrt"@);
    lemma_square(m, argument(scale, "rsqrt"@)->0);
    lemma_call1(m, "normalize"@, vector, w);
}

proof fn lemma_bare_product<V>(m: Meaning<V>, left: ExprModel, right: ExprModel)
    requires
        lawful(m),
        laned(left),
        laned(right),
    ensures
        stands_for(m, bare_product(left, right), m.bin("*"@, value(m, left), value(m, right))),
{
    let w = wide(left, right);
    assert(w >= 1);
    assert(m.bin("*"@, value(m, left), value(m, right)) == m.bin("*"@, value(m, right), value(m, left)));
    if logarithm(left, right, w) is Some {
        lemma_logarithm(m, left, right, w);
    } else if logarithm(right, left, w) is Some {
        lemma_logarithm(m, right, left, w);
    } else if normalised(left, right, w) is Some {
        lemma_normalised(m, left, right, w);
    } else if normalised(right, left, w) is Some {
        lemma_normalised(m, right, left, w);
    }
}

proof fn lemma_product<V>(m: Meaning<V>, left: ExprModel, right: ExprModel)
    requires
        lawful(m),
        laned(left),
        laned(right),
    ensures
        stands_for(m, product(left, right), m.bin("*"@, value(m, left), value(m, right))),
    decreases signs(left) + signs(right),
{
    if signs(left) > 0 {
        lemma_one_sign_fewer(left);
        lemma_sign(m, left);
        let bare = without_sign(left)->0;
        lemma_product(m, bare, right);
        assert(m.bin("*"@, m.un("-"@, value(m, bare)), value(m, right)) == m.un(
            "-"@,
            m.bin("*"@, value(m, bare), value(m, right)),
        ));
    } else if signs(right) > 0 {
        lemma_one_sign_fewer(right);
        lemma_sign(m, right);
        let bare = without_sign(right)->0;
        lemma_product(m, left, bare);
        let (l, b) = (value(m, left), value(m, bare));
        assert(m.bin("*"@, m.un("-"@, b), l) == m.un("-"@, m.bin("*"@, b, l)));
        assert(m.bin("*"@, b, l) == m.bin("*"@, l, b));
        assert(m.bin("*"@, m.un("-"@, b), l) == m.bin("*"@, l, m.un("-"@, b)));
    } else {
        lemma_bare_product(m, left, right);
    }
}

proof fn lemma_masked<V>(m: Meaning<V>, left: ExprModel, right: ExprModel)
    requires
        lawful(m),
        laned(left),
        laned(right),
        masked(left, right) is Some,
    ensures
        stands_for(m, masked(left, right)->0, m.bin("&"@, value(m, left), value(m, right))),
{
    match left {
        ExprModel::Select { cond, yes, els } => {
            let (c, y, n, v) = (value(m, *cond), value(m, *yes), value(m, *els), value(m, right));
            let none = splat(0, width(right));
            let cleared = ExprModel::Literal { bits: none, domain: Domain::Uint };
            assert(laned(cleared) && value(m, cleared) == m.lit(none, Domain::Uint));
            assert(laned(*yes) && laned(*els));
            assert(width(*yes) >= 1 && width(*els) >= 1);
            assert(all_words(yes->Literal_bits, 0xFFFF_FFFF));
            assert(all_words(els->Literal_bits, 0));
            assert(all_words(none, 0));
            assert(m.bin("&"@, m.pick(c, y, n), v) == m.pick(c, m.bin("&"@, y, v), m.bin("&"@, n, v)));
            assert(m.bin("&"@, m.lit(yes->Literal_bits, yes->Literal_domain), v) == v);
            assert(m.bin("&"@, m.lit(els->Literal_bits, els->Literal_domain), v) == m.lit(none, Domain::Uint));
        },
        _ => {},
    }
}

proof fn lemma_conjunction<V>(m: Meaning<V>, left: ExprModel, right: ExprModel)
    requires
        lawful(m),
        laned(left),
        laned(right),
    ensures
        stands_for(m, conjunction(left, right), m.bin("&"@, value(m, left), value(m, right))),
{
    assert(m.bin("&"@, value(m, left), value(m, right)) == m.bin("&"@, value(m, right), value(m, left)));
    if masked(left, right) is Some {
        lemma_masked(m, left, right);
    } else if masked(right, left) is Some {
        lemma_masked(m, right, left);
    }
}

proof fn lemma_cast<V>(m: Meaning<V>, name: Seq<char>, inner: ExprModel, w: usize)
    requires
        lawful(m),
        laned(inner),
        is_cast(name),
        w >= 1,
    ensures
        stands_for(m, cast(name, inner, w), m.f1(name, value(m, inner))),
    decreases inner,
{
    lemma_call1(m, name, inner, w);
    match inner {
        ExprModel::Literal { bits, domain } => {
            reveal_strlit("asfloat");
            reveal_strlit("asint");
            reveal_strlit("asuint");
            assert("asfloat"@.len() == 7 && "asint"@.len() == 5 && "asuint"@.len() == 6);
            assert(m.f1(name, m.lit(bits, domain)) == m.lit(bits, cast_domain(name)));
        },
        ExprModel::Select { cond, yes, els } => {
            lemma_cast(m, name, *yes, w);
            lemma_cast(m, name, *els, w);
            assert(m.f1(name, m.pick(value(m, *cond), value(m, *yes), value(m, *els))) == m.pick(
                value(m, *cond),
                m.f1(name, value(m, *yes)),
                m.f1(name, value(m, *els)),
            ));
        },
        _ => {
            if name == "asfloat"@ && argument(inner, "asuint"@) is Some {
                lemma_argument(m, inner, "asuint"@);
            } else if name == "asuint"@ && argument(inner, "asfloat"@) is Some {
                lemma_argument(m, inner, "asfloat"@);
            }
        },
    }
}

proof fn lemma_exponent<V>(m: Meaning<V>, left: ExprModel, right: ExprModel, w: usize)
    requires
        lawful(m),
        laned(left),
        laned(right),
        w >= 1,
    ensures
        stands_for(m, exponent(left, right, w), m.f1("exp2"@, m.bin("*"@, value(m, left), value(m, right)))),
{
    let (l, r) = (value(m, left), value(m, right));
    assert(m.bin("*"@, l, r) == m.bin("*"@, r, l));
    if argument(left, "log2"@) is Some {
        lemma_argument(m, left, "log2"@);
        lemma_call2(m, "pow"@, argument(left, "log2"@)->0, right, w);
    } else if argument(right, "log2"@) is Some {
        lemma_argument(m, right, "log2"@);
        lemma_call2(m, "pow"@, argument(right, "log2"@)->0, left, w);
    } else if is_bits(right, LOG2_E) {
        lemma_call1(m, "exp"@, left, w);
        assert(all_words(right->Literal_bits, 0x3FB8_AA3B));
        assert(width(right) >= 1);
        assert(m.f1("exp2"@, m.bin("*"@, l, m.lit(right->Literal_bits, Domain::Float))) == m.f1("exp"@, l));
    } else if is_bits(left, LOG2_E) {
        lemma_call1(m, "exp"@, right, w);
        assert(all_words(left->Literal_bits, 0x3FB8_AA3B));
        assert(width(left) >= 1);
        assert(m.f1("exp2"@, m.bin("*"@, r, m.lit(left->Literal_bits, Domain::Float))) == m.f1("exp"@, r));
    } else {
        lemma_call1(m, "exp2"@, binary_model("*"@, left, right), w);
    }
}

proof fn lemma_root<V>(m: Meaning<V>, inner: ExprModel, w: usize)
    requires
        lawful(m),
        laned(inner),
        w >= 1,
    ensures
        stands_for(m, root(inner, w), m.f1("sqrt"@, value(m, inner))),
{
    lemma_call1(m, "sqrt"@, inner, w);
    if square(inner) is Some {
        lemma_square(m, inner);
        let vector = square(inner)->0;
        let v = value(m, vector);
        assert(m.f1("length"@, v) == m.f1("sqrt"@, m.f2("dot"@, v, v)));
        match operands_of(vector, "-"@) {
            Some((left, right)) => {
                lemma_call2(m, "distance"@, left, right, w);
            },
            None => {
                lemma_call1(m, "length"@, vector, w);
            },
        }
    }
}

proof fn lemma_bounded<V>(m: Meaning<V>, lower: ExprModel, high: ExprModel, w: usize)
    requires
        lawful(m),
        laned(lower),
        laned(high),
        w >= 1,
    ensures
        stands_for(m, bounded(lower, high, w), m.f2("min"@, value(m, lower), value(m, high))),
{
    lemma_call2(m, "min"@, lower, high, w);
    match lower {
        ExprModel::Call { name, args, width: inner_width } => {
            if name == "max"@ && args.len() == 2 && (args[0] is Literal) != (args[1] is Literal) && high is Literal {
                assert(args =~= seq![args[0], args[1]]);
                lemma_call2(m, "max"@, args[0], args[1], inner_width);
                assert(laned(args[0]) && laned(args[1]));
                let held = if args[0] is Literal {
                    args[1]
                } else {
                    args[0]
                };
                let low = if args[0] is Literal {
                    args[0]
                } else {
                    args[1]
                };
                let (v, l, h) = (value(m, held), value(m, low), value(m, high));
                assert(m.f2("max"@, v, l) == m.f2("max"@, l, v));
                assert(m.f3("clamp"@, v, l, h) == m.f2("min"@, m.f2("max"@, v, l), h));
                lemma_call3(m, "clamp"@, held, low, high, w);
                if is_nought(low) && is_bits(high, ONE) {
                    lemma_call1(m, "saturate"@, held, w);
                    assert(width(low) >= 1 && width(high) >= 1);
                    assert(all_noughts(low->Literal_bits));
                    assert(all_words(high->Literal_bits, 0x3F80_0000));
                    assert(m.f3(
                        "clamp"@,
                        v,
                        m.lit(low->Literal_bits, Domain::Float),
                        m.lit(high->Literal_bits, Domain::Float),
                    ) == m.f1("saturate"@, v));
                }
            }
        },
        _ => {},
    }
}

proof fn lemma_recalled<V>(m: Meaning<V>, name: Seq<char>, args: Seq<ExprModel>, w: usize)
    requires
        lawful(m),
        forall|i: int| 0 <= i < args.len() ==> laned(#[trigger] args[i]),
        w >= 1,
    ensures
        stands_for(m, recalled(name, args, w), value(m, call_model(name, args, w))),
{
    if args.len() == 1 {
        assert(args =~= seq![args[0]]);
        assert(laned(args[0]));
        lemma_call1(m, name, args[0], w);
    } else if args.len() == 2 {
        assert(args =~= seq![args[0], args[1]]);
        assert(laned(args[0]) && laned(args[1]));
        lemma_call2(m, name, args[0], args[1], w);
    } else if args.len() == 3 {
        assert(args =~= seq![args[0], args[1], args[2]]);
        assert(laned(args[0]) && laned(args[1]) && laned(args[2]));
        lemma_call3(m, name, args[0], args[1], args[2], w);
    }
    if name == "lerp"@ && args.len() == 3 {
        lemma_lerp(m, args[0], args[1], args[2], w);
    } else if name == "dot"@ && args.len() == 2 && args[0] is Unary && args[0]->Unary_op == "-"@ && args[1] is Unary
        && args[1]->Unary_op == "-"@ {
        lemma_call2(m, "dot"@, *args[0]->Unary_value, *args[1]->Unary_value, w);
    } else if is_cast(name) && args.len() == 1 {
        lemma_cast(m, name, args[0], w);
    } else if name == "exp2"@ && args.len() == 1 && operands_of(args[0], "*"@) is Some {
        let (left, right) = operands_of(args[0], "*"@)->0;
        lemma_exponent(m, left, right, w);
    } else if name == "sqrt"@ && args.len() == 1 {
        lemma_root(m, args[0], w);
    } else if name == "min"@ && args.len() == 2 {
        lemma_bounded(m, args[0], args[1], w);
    }
}

#[verifier::rlimit(40)]
proof fn lemma_narrowed<V>(m: Meaning<V>, held: ExprModel, swizzle: Seq<u8>)
    requires
        lawful(m),
        laned(held),
        1 <= swizzle.len() <= usize::MAX,
    ensures
        stands_for(m, narrowed(held, swizzle), m.take(value(m, held), swizzle)),
{
    match held {
        ExprModel::Call { name, args, .. } => {
            if swizzle.len() < 4 && in_order(swizzle) && ends_with(name, ".Load4"@) {
                reveal_strlit(".Load4");
                reveal_strlit(".Load3");
                reveal_strlit(".Load2");
                reveal_strlit(".Load");
                let stem = name.take(name.len() - 6);
                let tail = name.subrange(name.len() - 6, name.len() as int);
                assert(name =~= stem + ".Load4"@) by {
                    assert(name =~= stem + tail);
                }
                let short = name.take(name.len() - 1);
                assert(short =~= stem + ".Load"@) by {
                    assert(tail == ".Load4"@);
                    assert forall|i: int| 0 <= i < short.len() implies #[trigger] short[i] == (stem + ".Load"@)[i] by {
                        assert(short[i] == name[i]);
                        if i >= stem.len() {
                            assert(name[i] == tail[i - stem.len()]);
                        }
                    }
                }
                assert(dec(2) =~= seq!['2'] && dec(3) =~= seq!['3']) by {
                    reveal_with_fuel(dec, 2);
                }
                let v = m.take(m.fun(stem + ".Load4"@, values(m, args)), swizzle);
                if swizzle.len() == 1 {
                    assert(swizzle =~= seq![0u8]);
                    assert(v == m.fun(stem + ".Load"@, values(m, args)));
                } else if swizzle.len() == 2 {
                    assert(swizzle =~= seq![0u8, 1]);
                    assert(short + dec(2) =~= stem + ".Load2"@);
                    assert(v == m.fun(stem + ".Load2"@, values(m, args)));
                } else {
                    assert(swizzle =~= seq![0u8, 1, 2]);
                    assert(short + dec(3) =~= stem + ".Load3"@);
                    assert(v == m.fun(stem + ".Load3"@, values(m, args)));
                }
            }
        },
        _ => {},
    }
}

proof fn lemma_neutral<V>(m: Meaning<V>, op: Seq<char>, held: ExprModel, v: V)
    requires
        lawful(m),
        laned(held),
        neutral(op, held),
    ensures
        m.bin(op, value(m, held), v) == v,
        m.bin(op, v, value(m, held)) == v,
{
    assert(width(held) >= 1);
    let bits = held->Literal_bits;
    if op == "&"@ {
        assert(all_words(bits, 0xFFFF_FFFF));
        assert(m.bin("&"@, m.lit(bits, held->Literal_domain), v) == v);
    } else {
        assert(all_words(bits, 0));
        if op == "|"@ {
            assert(m.bin("|"@, m.lit(bits, held->Literal_domain), v) == v);
        } else {
            assert(m.bin("^"@, m.lit(bits, held->Literal_domain), v) == v);
        }
    }
}

proof fn lemma_neutralised<V>(m: Meaning<V>, e: ExprModel)
    requires
        lawful(m),
        laned(e),
    ensures
        stands_for(m, neutralised(e), value(m, e)),
{
    match e {
        ExprModel::Binary { op, left, right } => {
            if neutral(op, *left) {
                lemma_neutral(m, op, *left, value(m, *right));
            }
            if neutral(op, *right) {
                lemma_neutral(m, op, *right, value(m, *left));
            }
        },
        _ => {},
    }
}

proof fn lemma_rewritten<V>(m: Meaning<V>, e: ExprModel, exact: bool)
    requires
        lawful(m),
        laned(e),
    ensures
        stands_for(m, rewritten(e, exact), value(m, e)),
{
    if !exact {
        match e {
            ExprModel::Binary { op, left, right } => {
                if op == "+"@ {
                    lemma_sum(m, *left, *right);
                } else if op == "*"@ {
                    lemma_product(m, *left, *right);
                } else if op == "&"@ {
                    lemma_conjunction(m, *left, *right);
                }
            },
            ExprModel::Swizzle { value: held, swizzle } => {
                lemma_narrowed(m, *held, swizzle);
            },
            ExprModel::Call { name, args, width: w } => {
                assert(width(e) == w);
                lemma_recalled(m, name, args, w);
            },
            _ => {},
        }
    }
}

proof fn lemma_single<V>(m: Meaning<V>, e: ExprModel)
    requires
        lawful(m),
        laned(e),
        single(e) is Some,
    ensures
        stands_for(m, single(e)->0, value(m, e)),
    decreases e,
{
    match e {
        ExprModel::Unary { value: held, .. } => {
            lemma_single(m, *held);
        },
        _ => {},
    }
}

proof fn lemma_collapsed<V>(m: Meaning<V>, e: ExprModel)
    requires
        lawful(m),
        laned(e),
    ensures
        stands_for(m, collapsed(e), value(m, e)),
    decreases e,
{
    match e {
        ExprModel::Unary { value: held, .. } => {
            lemma_collapsed(m, *held);
        },
        ExprModel::Select { cond, .. } => {
            if single(*cond) is Some {
                lemma_single(m, *cond);
            }
        },
        ExprModel::Binary { left, right, .. } => {
            if single(*left) is Some {
                lemma_single(m, *left);
            }
            if single(*right) is Some {
                lemma_single(m, *right);
            }
        },
        _ => {},
    }
}

proof fn lemma_settled<V>(m: Meaning<V>, e: ExprModel, exact: bool)
    requires
        lawful(m),
        laned(e),
    ensures
        stands_for(m, settled(e, exact), value(m, e)),
{
    reveal(settled);
    lemma_neutralised(m, e);
    lemma_rewritten(m, neutralised(e), exact);
    lemma_collapsed(m, rewritten(neutralised(e), exact));
}

proof fn lemma_simplified<V>(m: Meaning<V>, e: ExprModel, exact: bool)
    requires
        lawful(m),
        laned(e),
    ensures
        stands_for(m, simplified(e, exact), value(m, e)),
    decreases e,
{
    let d = descended(e, exact);
    match e {
        ExprModel::Unary { value: held, .. } => {
            lemma_simplified(m, *held, exact);
        },
        ExprModel::Binary { left, right, .. } => {
            lemma_simplified(m, *left, exact);
            lemma_simplified(m, *right, exact);
        },
        ExprModel::Call { name, args, width: w } => {
            let new = d->Call_args;
            assert forall|i: int| 0 <= i < args.len() implies value(m, new[i]) == value(m, args[i]) && laned(
                #[trigger] new[i],
            ) by {
                assert(laned(args[i]));
                lemma_simplified(m, args[i], exact);
                assert(new[i] == simplified(args[i], exact));
            }
            assert(values(m, new) =~= values(m, args));
        },
        ExprModel::Select { cond, yes, els } => {
            lemma_simplified(m, *cond, exact);
            lemma_simplified(m, *yes, exact);
            lemma_simplified(m, *els, exact);
        },
        ExprModel::Swizzle { value: held, .. } => {
            lemma_simplified(m, *held, exact);
        },
        _ => {},
    }
    assert(stands_for(m, d, value(m, e)));
    lemma_settled(m, d, exact);
}

/// Recovering the idioms of an expression keeps what it means, whatever its parts stand for: under every reading in which
/// the operations owe each other what those of numbers do, the text that is shown and the instructions that were decoded
/// have the same value.
pub proof fn law_simplified_keeps_the_value<V>(m: Meaning<V>, e: ExprModel, exact: bool)
    requires
        lawful(m),
        laned(e),
    ensures
        value(m, simplified(e, exact)) == value(m, e),
{
    lemma_simplified(m, e, exact);
}

/// So does each rewriting of one operation.
pub proof fn law_rewritten_keeps_the_value<V>(m: Meaning<V>, e: ExprModel, exact: bool)
    requires
        lawful(m),
        laned(e),
    ensures
        value(m, rewritten(e, exact)) == value(m, e),
{
    lemma_rewritten(m, e, exact);
}

/// Which side of the product the logarithm stands on says nothing: the power is the same.
pub proof fn law_power_either_way_round(left: ExprModel, right: ExprModel, width: usize)
    requires
        argument(left, "log2"@) is Some,
        argument(right, "log2"@) is None,
    ensures
        exponent(left, right, width) == exponent(right, left, width),
        exponent(left, right, width) == call_model("pow"@, seq![argument(left, "log2"@)->0, right], width),
{
}

/// A sum with a sign on one side is a difference, whichever side it stands on.
pub proof fn law_difference_comes_back(a: ExprModel, b: ExprModel)
    requires
        without_sign(a) is None,
    ensures
        rewritten(binary_model("+"@, a, unary_model("-"@, b)), false) == binary_model("-"@, a, b),
        rewritten(binary_model("+"@, unary_model("-"@, b), a), false) == binary_model("-"@, a, b),
{
}

/// A vector times the reciprocal root of its dot product with itself is that vector normalised, and the root of the dot
/// product is its length, or the distance of two points where it is their difference.
pub proof fn law_lengths_come_back(v: ExprModel, a: ExprModel, b: ExprModel, w: usize, x: usize, y: usize)
    requires
        signs(v) == 0,
        argument(v, "log2"@) is None,
        argument(v, "rsqrt"@) is None,
        operands_of(v, "-"@) is None,
    ensures
        ({
            let squared = call_model("dot"@, seq![v, v], w);
            let scale = call_model("rsqrt"@, seq![squared], x);
            let apart = binary_model("-"@, a, b);
            let product = rewritten(binary_model("*"@, v, scale), false);
            let turned = rewritten(binary_model("*"@, scale, v), false);
            &&& product is Call && product->name == "normalize"@ && product->args == seq![v]
            &&& turned is Call && turned->name == "normalize"@ && turned->args == seq![v]
            &&& rewritten(call_model("sqrt"@, seq![squared], y), false) == call_model("length"@, seq![v], y)
            &&& rewritten(call_model("sqrt"@, seq![call_model("dot"@, seq![apart, apart], w)], y), false) == call_model(
                "distance"@,
                seq![a, b],
                y,
            )
        }),
{
    lemma_names_apart();
    let squared = call_model("dot"@, seq![v, v], w);
    let scale = call_model("rsqrt"@, seq![squared], x);
    let apart = binary_model("-"@, a, b);
    assert(argument(scale, "log2"@) is None);
    assert(argument(scale, "rsqrt"@) == Some(squared));
    assert(square(squared) == Some(v));
    assert(square(call_model("dot"@, seq![apart, apart], w)) == Some(apart));
    assert(signs(scale) == 0);
    let n = wide(v, scale);
    assert(logarithm(v, scale, n) is None && logarithm(scale, v, n) is None);
    assert(normalised(v, scale, n) is Some);
    assert(normalised(v, scale, wide(scale, v)) is Some);
    assert(normalised(scale, v, wide(scale, v)) is None);
    assert(logarithm(v, scale, wide(scale, v)) is None && logarithm(scale, v, wide(scale, v)) is None);
}

proof fn lemma_names_apart()
    ensures
        "rsqrt"@ != "log2"@,
        "sqrt"@ != "lerp"@,
        "sqrt"@ != "dot"@,
        "sqrt"@ != "asfloat"@,
        "sqrt"@ != "asint"@,
        "sqrt"@ != "asuint"@,
        "sqrt"@ != "exp2"@,
        "min"@ != "lerp"@,
        "min"@ != "dot"@,
        "min"@ != "asfloat"@,
        "min"@ != "exp2"@,
        "min"@ != "sqrt"@,
        "exp2"@ != "lerp"@,
        "exp2"@ != "dot"@,
        "exp2"@ != "asfloat"@,
        "exp2"@ != "asint"@,
        "exp2"@ != "asuint"@,
        "*"@ != "+"@,
        "&"@ != "+"@,
        "&"@ != "*"@,
{
    reveal_strlit("rsqrt");
    reveal_strlit("log2");
    reveal_strlit("sqrt");
    reveal_strlit("lerp");
    reveal_strlit("dot");
    reveal_strlit("asfloat");
    reveal_strlit("asint");
    reveal_strlit("asuint");
    reveal_strlit("exp2");
    reveal_strlit("min");
    reveal_strlit("*");
    reveal_strlit("+");
    reveal_strlit("&");
    assert("rsqrt"@.len() == 5 && "log2"@.len() == 4 && "sqrt"@.len() == 4 && "lerp"@.len() == 4 && "dot"@.len() == 3
        && "asfloat"@.len() == 7 && "asint"@.len() == 5 && "asuint"@.len() == 6 && "exp2"@.len() == 4 && "min"@.len() == 3);
    assert("sqrt"@[0] == 's' && "lerp"@[0] == 'l' && "exp2"@[0] == 'e' && "min"@[0] == 'm' && "dot"@[0] == 'd' && "*"@[0] == '*'
        && "+"@[0] == '+' && "&"@[0] == '&');
}

/// A value held up from below and down from above by constants is clamped, and saturated where they are nought and one.
pub proof fn law_clamp_comes_back(v: ExprModel, low: Seq<u32>, high: Seq<u32>, w: usize, x: usize)
    requires
        !(v is Literal),
    ensures
        ({
            let bottom = ExprModel::Literal { bits: low, domain: Domain::Float };
            let top = ExprModel::Literal { bits: high, domain: Domain::Float };
            let one = rewritten(
                call_model("min"@, seq![call_model("max"@, seq![v, bottom], w), top], x),
                false,
            );
            let other = rewritten(
                call_model("min"@, seq![call_model("max"@, seq![bottom, v], w), top], x),
                false,
            );
            &&& one == other
            &&& all_noughts(low) && all_words(high, 0x3F80_0000) ==> one == call_model("saturate"@, seq![v], x)
            &&& !(all_noughts(low) && all_words(high, 0x3F80_0000)) ==> one == call_model(
                "clamp"@,
                seq![v, bottom, top],
                x,
            )
        }),
{
    lemma_names_apart();
    let bottom = ExprModel::Literal { bits: low, domain: Domain::Float };
    let top = ExprModel::Literal { bits: high, domain: Domain::Float };
    assert(is_nought(bottom) == all_noughts(low));
    assert(is_bits(top, ONE) == all_words(high, 0x3F80_0000));
}

/// The exponent of a logarithm times a power is the power, and a value weighed by how far another goes towards a third is
/// an interpolation.
pub proof fn law_power_and_interpolation_come_back(
    a: ExprModel,
    b: ExprModel,
    t: ExprModel,
    w: usize,
    x: usize,
)
    requires
        argument(b, "log2"@) is None,
        without_sign(a) is None,
        either_way(t) is None,
    ensures
        rewritten(
            call_model("exp2"@, seq![binary_model("*"@, call_model("log2"@, seq![a], w), b)], x),
            false,
        ) == call_model("pow"@, seq![a, b], x),
        rewritten(
            call_model("exp2"@, seq![binary_model("*"@, b, call_model("log2"@, seq![a], w))], x),
            false,
        ) == call_model("pow"@, seq![a, b], x),
        ({
            let e = rewritten(
                binary_model("+"@, binary_model("*"@, binary_model("-"@, b, a), t), a),
                false,
            );
            e is Call && e->name == "lerp"@ && e->args == seq![a, b, t]
        }),
{
    lemma_names_apart();
    let log = call_model("log2"@, seq![a], w);
    assert(argument(log, "log2"@) == Some(a));
    let product = binary_model("*"@, binary_model("-"@, b, a), t);
    assert(operands_of(product, "*"@) == Some((binary_model("-"@, b, a), t)));
    assert(operands_of(binary_model("-"@, b, a), "-"@) == Some((b, a)));
    assert(either_way(binary_model("-"@, b, a)) is None);
}

} // verus!
