//! What expressions mean, and what the operations they are made of owe each other.
use super::expr::{width, Domain, ExprModel};
use vstd::prelude::*;

verus! {

/// What every part of an expression stands for, over values of some kind: numbers for each lane, of which a value of one
/// lane has the same in each.
#[verifier::reject_recursive_types(V)]
pub struct Meaning<V> {
    pub read: spec_fn(Seq<char>, Seq<u8>) -> V,
    pub literal: spec_fn(Seq<u32>, Domain) -> V,
    pub unary: spec_fn(Seq<char>, V) -> V,
    pub binary: spec_fn(Seq<char>, V, V) -> V,
    pub call: spec_fn(Seq<char>, Seq<V>) -> V,
    pub choice: spec_fn(V, V, V) -> V,
    pub lanes: spec_fn(V, Seq<u8>) -> V,
    pub side: spec_fn(Seq<V>) -> V,
}

impl<V> Meaning<V> {
    pub open spec fn reg(self, base: Seq<char>, swizzle: Seq<u8>) -> V {
        (self.read)(base, swizzle)
    }

    pub open spec fn lit(self, bits: Seq<u32>, domain: Domain) -> V {
        (self.literal)(bits, domain)
    }

    pub open spec fn un(self, op: Seq<char>, v: V) -> V {
        (self.unary)(op, v)
    }

    pub open spec fn bin(self, op: Seq<char>, a: V, b: V) -> V {
        (self.binary)(op, a, b)
    }

    pub open spec fn fun(self, name: Seq<char>, args: Seq<V>) -> V {
        (self.call)(name, args)
    }

    pub open spec fn f1(self, name: Seq<char>, a: V) -> V {
        self.fun(name, seq![a])
    }

    pub open spec fn f2(self, name: Seq<char>, a: V, b: V) -> V {
        self.fun(name, seq![a, b])
    }

    pub open spec fn f3(self, name: Seq<char>, a: V, b: V, c: V) -> V {
        self.fun(name, seq![a, b, c])
    }

    pub open spec fn pick(self, cond: V, yes: V, els: V) -> V {
        (self.choice)(cond, yes, els)
    }

    pub open spec fn take(self, v: V, swizzle: Seq<u8>) -> V {
        (self.lanes)(v, swizzle)
    }

    pub open spec fn beside(self, parts: Seq<V>) -> V {
        (self.side)(parts)
    }
}

/// What an expression means.
pub open spec fn value<V>(m: Meaning<V>, e: ExprModel) -> V
    decreases e,
{
    match e {
        ExprModel::Read { base, swizzle } => m.reg(base, swizzle),
        ExprModel::Literal { bits, domain } => m.lit(bits, domain),
        ExprModel::Unary { op, value: inner } => m.un(op, value(m, *inner)),
        ExprModel::Binary { op, left, right } => m.bin(op, value(m, *left), value(m, *right)),
        ExprModel::Call { name, args, .. } => m.fun(name, values(m, args)),
        ExprModel::Select { cond, yes, els } => m.pick(value(m, *cond), value(m, *yes), value(m, *els)),
        ExprModel::Swizzle { value: inner, swizzle } => m.take(value(m, *inner), swizzle),
        ExprModel::Vector(parts) => m.beside(values(m, parts)),
    }
}

/// What each expression of a list means.
pub open spec fn values<V>(m: Meaning<V>, args: Seq<ExprModel>) -> Seq<V>
    decreases args,
{
    Seq::new(
        args.len(),
        |i: int| if 0 <= i < args.len() { value(m, args[i]) } else { m.reg(Seq::empty(), Seq::empty()) },
    )
}

/// Every word of a list is the same.
pub open spec fn all_words(bits: Seq<u32>, word: u32) -> bool {
    forall|i: int| 0 <= i < bits.len() ==> #[trigger] bits[i] == word
}

/// Every word of a list is a nought of either sign.
pub open spec fn all_noughts(bits: Seq<u32>) -> bool {
    forall|i: int| 0 <= i < bits.len() ==> (#[trigger] bits[i] == 0 || bits[i] == 0x8000_0000)
}

/// Sums, differences, products and signs go together as those of numbers do.
pub open spec fn arithmetic<V>(m: Meaning<V>) -> bool {
    &&& forall|a: V, b: V| #[trigger] m.bin("+"@, a, b) == m.bin("+"@, b, a)
    &&& forall|a: V, b: V| #[trigger] m.bin("*"@, a, b) == m.bin("*"@, b, a)
    &&& forall|a: V, b: V| #[trigger] m.bin("-"@, a, b) == m.bin("+"@, a, m.un("-"@, b))
    &&& forall|a: V, b: V| #[trigger] m.bin("+"@, m.bin("-"@, a, b), b) == a
    &&& forall|a: V, b: V| #[trigger] m.bin("*"@, m.un("-"@, a), b) == m.un("-"@, m.bin("*"@, a, b))
}

/// Constants are the numbers that their bits are: a set sign bit is a sign, ones and noughts are the neutral words of a
/// product and a sum.
pub open spec fn constants<V>(m: Meaning<V>) -> bool {
    &&& forall|bits: Seq<u32>, plain: Seq<u32>|
        #![trigger m.lit(bits, Domain::Float), m.lit(plain, Domain::Float)]
        bits.len() > 0 && plain.len() == bits.len() && (forall|i: int|
            0 <= i < bits.len() ==> 0x8000_0000 < #[trigger] bits[i] <= 0xFF80_0000 && plain[i] == bits[i]
                - 0x8000_0000) ==> m.lit(bits, Domain::Float) == m.un("-"@, m.lit(plain, Domain::Float))
    &&& forall|bits: Seq<u32>, v: V|
        bits.len() > 0 && all_words(bits, 0x3F80_0000) ==> #[trigger] m.bin("*"@, m.lit(bits, Domain::Float), v) == v
    &&& forall|bits: Seq<u32>, v: V, a: V|
        bits.len() > 0 && all_noughts(bits) ==> #[trigger] m.bin("+"@, m.bin("*"@, m.lit(bits, Domain::Float), v), a) == a
}

/// A choice is made before or after anything is done to it.
pub open spec fn choices<V>(m: Meaning<V>) -> bool {
    &&& forall|op: Seq<char>, c: V, x: V, y: V, v: V| #[trigger]
        m.bin(op, m.pick(c, x, y), v) == m.pick(c, m.bin(op, x, v), m.bin(op, y, v))
    &&& forall|name: Seq<char>, c: V, x: V, y: V| #[trigger]
        m.f1(name, m.pick(c, x, y)) == m.pick(c, m.f1(name, x), m.f1(name, y))
}

/// Masks of bits: all ones keep, no ones clear or leave.
pub open spec fn masks<V>(m: Meaning<V>) -> bool {
    &&& forall|a: V, b: V| #[trigger] m.bin("&"@, a, b) == m.bin("&"@, b, a)
    &&& forall|a: V, b: V| #[trigger] m.bin("|"@, a, b) == m.bin("|"@, b, a)
    &&& forall|a: V, b: V| #[trigger] m.bin("^"@, a, b) == m.bin("^"@, b, a)
    &&& forall|bits: Seq<u32>, d: Domain, v: V|
        bits.len() > 0 && all_words(bits, 0xFFFF_FFFF) ==> #[trigger] m.bin("&"@, m.lit(bits, d), v) == v
    &&& forall|bits: Seq<u32>, d: Domain, v: V, none: Seq<u32>|
        #![trigger m.bin("&"@, m.lit(bits, d), v), m.lit(none, Domain::Uint)]
        bits.len() > 0 && all_words(bits, 0) && all_words(none, 0) ==> m.bin("&"@, m.lit(bits, d), v) == m.lit(
            none,
            Domain::Uint,
        )
    &&& forall|bits: Seq<u32>, d: Domain, v: V|
        bits.len() > 0 && all_words(bits, 0) ==> #[trigger] m.bin("|"@, m.lit(bits, d), v) == v
    &&& forall|bits: Seq<u32>, d: Domain, v: V|
        bits.len() > 0 && all_words(bits, 0) ==> #[trigger] m.bin("^"@, m.lit(bits, d), v) == v
}

/// Reading bits another way changes none of them.
pub open spec fn casts<V>(m: Meaning<V>) -> bool {
    &&& forall|bits: Seq<u32>, d: Domain| #[trigger]
        m.f1("asfloat"@, m.lit(bits, d)) == m.lit(bits, Domain::Float)
    &&& forall|bits: Seq<u32>, d: Domain| #[trigger] m.f1("asint"@, m.lit(bits, d)) == m.lit(bits, Domain::Int)
    &&& forall|bits: Seq<u32>, d: Domain| #[trigger]
        m.f1("asuint"@, m.lit(bits, d)) == m.lit(bits, Domain::Uint)
    &&& forall|v: V| #[trigger] m.f1("asfloat"@, m.f1("asuint"@, v)) == v
    &&& forall|v: V| #[trigger] m.f1("asuint"@, m.f1("asfloat"@, v)) == v
}

/// Powers, exponents and logarithms: a power is the base-two exponent of the base's logarithm times the power, the
/// natural exponent and logarithm are the base-two ones scaled.
pub open spec fn powers<V>(m: Meaning<V>) -> bool {
    &&& forall|base: V, power: V| #[trigger]
        m.f2("pow"@, base, power) == m.f1("exp2"@, m.bin("*"@, power, m.f1("log2"@, base)))
    &&& forall|bits: Seq<u32>, v: V|
        bits.len() > 0 && all_words(bits, 0x3FB8_AA3B) ==> #[trigger] m.f1(
            "exp2"@,
            m.bin("*"@, v, m.lit(bits, Domain::Float)),
        ) == m.f1("exp"@, v)
    &&& forall|bits: Seq<u32>, v: V|
        bits.len() > 0 && all_words(bits, 0x3F31_7218) ==> #[trigger] m.bin(
            "*"@,
            m.f1("log2"@, v),
            m.lit(bits, Domain::Float),
        ) == m.f1("log"@, v)
}

/// Lengths: a vector's is the root of its dot product with itself, a distance is that of a difference, and a vector over
/// its length is a direction.
pub open spec fn lengths<V>(m: Meaning<V>) -> bool {
    &&& forall|v: V| #[trigger] m.f1("length"@, v) == m.f1("sqrt"@, m.f2("dot"@, v, v))
    &&& forall|a: V, b: V| #[trigger] m.f2("distance"@, a, b) == m.f1("length"@, m.bin("-"@, a, b))
    &&& forall|v: V| #[trigger]
        m.f1("normalize"@, v) == m.bin("*"@, v, m.f1("rsqrt"@, m.f2("dot"@, v, v)))
    &&& forall|a: V, b: V| #[trigger]
        m.f2("dot"@, m.un("-"@, a), m.un("-"@, b)) == m.f2("dot"@, a, b)
}

/// Bounds and weights: a clamp is held up from below and then down from above, and an interpolation starts at the first
/// value and goes its weight towards the second.
pub open spec fn bounds<V>(m: Meaning<V>) -> bool {
    &&& forall|a: V, b: V| #[trigger] m.f2("max"@, a, b) == m.f2("max"@, b, a)
    &&& forall|v: V, low: V, high: V| #[trigger]
        m.f3("clamp"@, v, low, high) == m.f2("min"@, m.f2("max"@, v, low), high)
    &&& forall|v: V, none: Seq<u32>, one: Seq<u32>|
        none.len() > 0 && one.len() > 0 && all_noughts(none) && all_words(one, 0x3F80_0000) ==> #[trigger] m.f3(
            "clamp"@,
            v,
            m.lit(none, Domain::Float),
            m.lit(one, Domain::Float),
        ) == m.f1("saturate"@, v)
    &&& forall|from: V, to: V, weight: V| #[trigger]
        m.f3("lerp"@, from, to, weight) == m.bin("+"@, m.bin("*"@, m.bin("-"@, to, from), weight), from)
}

/// Lanes: one component repeated is that component, and the leading lanes of a raw buffer read are a narrower read.
pub open spec fn spreads<V>(m: Meaning<V>) -> bool {
    &&& forall|base: Seq<char>, swizzle: Seq<u8>|
        swizzle.len() > 1 && (forall|i: int| 0 <= i < swizzle.len() ==> #[trigger] swizzle[i] == swizzle[0])
            ==> #[trigger] m.reg(base, swizzle) == m.reg(base, seq![swizzle[0]])
    &&& forall|stem: Seq<char>, args: Seq<V>, leading: Seq<u8>|
        #![trigger m.take(m.fun(stem + ".Load4"@, args), leading)]
        {
            &&& leading == seq![0u8] ==> m.take(m.fun(stem + ".Load4"@, args), leading) == m.fun(stem + ".Load"@, args)
            &&& leading == seq![0u8, 1] ==> m.take(m.fun(stem + ".Load4"@, args), leading) == m.fun(
                stem + ".Load2"@,
                args,
            )
            &&& leading == seq![0u8, 1, 2] ==> m.take(m.fun(stem + ".Load4"@, args), leading) == m.fun(
                stem + ".Load3"@,
                args,
            )
        }
}

/// The operations of a meaning owe each other what those of numbers do.
pub open spec fn lawful<V>(m: Meaning<V>) -> bool {
    &&& arithmetic(m)
    &&& constants(m)
    &&& choices(m)
    &&& masks(m)
    &&& casts(m)
    &&& powers(m)
    &&& lengths(m)
    &&& bounds(m)
    &&& spreads(m)
}

/// Every part of an expression has lanes, as every value of a shader does.
pub open spec fn laned(e: ExprModel) -> bool
    decreases e,
{
    &&& 1 <= width(e) <= usize::MAX
    &&& match e {
        ExprModel::Unary { value: inner, .. } => laned(*inner),
        ExprModel::Binary { left, right, .. } => laned(*left) && laned(*right),
        ExprModel::Call { args, .. } => forall|i: int| 0 <= i < args.len() ==> laned(#[trigger] args[i]),
        ExprModel::Select { cond, yes, els } => laned(*cond) && laned(*yes) && laned(*els),
        ExprModel::Swizzle { value: inner, .. } => laned(*inner),
        ExprModel::Vector(parts) => forall|i: int| 0 <= i < parts.len() ==> laned(#[trigger] parts[i]),
        _ => true,
    }
}

} // verus!
