//! Expression tree: the values a shader computes, rather than the registers they land in.
//!
//! Everything is a vector of up to four lanes. A scalar is a one-lane value and broadcasts, which is how a
//! dot product feeds a multiply without any of it being written down.
use crate::float::{
    debug32, debug_single, field32, fraction32, negative32, numerator32, numerator_single, sign_text, whole32,
    whole_single,
};
use crate::text::{
    cat2, cat3, cat4, cat5, chars_of, dec, decimal, decimal_signed, hex, hex_fixed, hexadecimal, hexadecimal_fixed, join,
    joined, same, signed, views,
};
use vstd::prelude::*;

verus! {

/// How the bits in a value are meant to be read.
///
/// A register holds thirty-two untyped bits, so this travels with the expression rather than with the
/// register, and a cast goes in wherever two disagree.
#[derive(Debug, Clone, Copy, PartialEq, Eq, Structural)]
pub enum Domain {
    Float,
    Int,
    Uint,
    Bool,
}

/// A value the shader computes. Every variant is a vector of one to four lanes.
#[derive(PartialEq)]
pub enum Expr {
    /// A register under whatever name the caller gave it, and the components taken from it.
    Read { base: String, swizzle: Vec<u8> },
    /// Raw bits, one per lane; the domain decides how they read.
    Literal { bits: Vec<u32>, domain: Domain },
    Unary { op: &'static str, value: Box<Expr> },
    Binary { op: &'static str, left: Box<Expr>, right: Box<Expr> },
    Call { name: String, args: Vec<Expr>, width: usize },
    Select { cond: Box<Expr>, yes: Box<Expr>, els: Box<Expr> },
    /// Lanes of a value that is not a plain register read.
    Swizzle { value: Box<Expr>, swizzle: Vec<u8> },
    /// Lanes taken from different places, side by side.
    Vector(Vec<Expr>),
}

/// What an expression holds.
#[verifier::ext_equal]
pub enum ExprModel {
    Read { base: Seq<char>, swizzle: Seq<u8> },
    Literal { bits: Seq<u32>, domain: Domain },
    Unary { op: Seq<char>, value: Box<ExprModel> },
    Binary { op: Seq<char>, left: Box<ExprModel>, right: Box<ExprModel> },
    Call { name: Seq<char>, args: Seq<ExprModel>, width: usize },
    Select { cond: Box<ExprModel>, yes: Box<ExprModel>, els: Box<ExprModel> },
    Swizzle { value: Box<ExprModel>, swizzle: Seq<u8> },
    Vector(Seq<ExprModel>),
}

impl Expr {
    /// What the expression holds.
    pub open spec fn view(&self) -> ExprModel
        decreases self,
    {
        match self {
            Expr::Read { base, swizzle } => ExprModel::Read { base: base@, swizzle: swizzle@ },
            Expr::Literal { bits, domain } => ExprModel::Literal { bits: bits@, domain: *domain },
            Expr::Unary { op, value } => ExprModel::Unary { op: op@, value: Box::new((**value)@) },
            Expr::Binary { op, left, right } => ExprModel::Binary {
                op: op@,
                left: Box::new((**left)@),
                right: Box::new((**right)@),
            },
            Expr::Call { name, args, width } => ExprModel::Call {
                name: name@,
                args: Seq::new(
                    args@.len(),
                    |i: int| if 0 <= i < args@.len() { args@[i]@ } else { ExprModel::Vector(Seq::empty()) },
                ),
                width: *width,
            },
            Expr::Select { cond, yes, els } => ExprModel::Select {
                cond: Box::new((**cond)@),
                yes: Box::new((**yes)@),
                els: Box::new((**els)@),
            },
            Expr::Swizzle { value, swizzle } => ExprModel::Swizzle { value: Box::new((**value)@), swizzle: swizzle@ },
            Expr::Vector(parts) => ExprModel::Vector(
                Seq::new(
                    parts@.len(),
                    |i: int| if 0 <= i < parts@.len() { parts@[i]@ } else { ExprModel::Vector(Seq::empty()) },
                ),
            ),
        }
    }
}

/// What each expression of a list holds.
pub open spec fn models(list: Seq<Expr>) -> Seq<ExprModel> {
    Seq::new(list.len(), |i: int| list[i]@)
}

/// What a call holds whose arguments are a list of expressions.
pub proof fn lemma_call_model(e: Expr)
    ensures
        e matches Expr::Call { name, args, width } ==> e@ == (ExprModel::Call {
            name: name@,
            args: models(args@),
            width,
        }),
        e matches Expr::Vector(parts) ==> e@ == ExprModel::Vector(models(parts@)),
{
    match e {
        Expr::Call { name, args, width } => {
            assert(e@->args =~= models(args@));
        },
        Expr::Vector(parts) => {
            assert(e@->Vector_0 =~= models(parts@));
        },
        _ => {},
    }
}

/// No list of lanes is longer than a number can count.
pub open spec fn capped(n: nat) -> nat {
    if n > usize::MAX {
        usize::MAX as nat
    } else {
        n
    }
}

/// The larger of two numbers.
pub open spec fn larger(a: nat, b: nat) -> nat {
    if a >= b {
        a
    } else {
        b
    }
}

/// How many lanes a value is wide.
pub open spec fn width(e: ExprModel) -> nat
    decreases e, 0nat,
{
    match e {
        ExprModel::Read { swizzle, .. } => larger(swizzle.len(), 1),
        ExprModel::Swizzle { swizzle, .. } => swizzle.len(),
        ExprModel::Literal { bits, .. } => bits.len(),
        ExprModel::Unary { value, .. } => width(*value),
        ExprModel::Binary { left, right, .. } => larger(width(*left), width(*right)),
        ExprModel::Call { width, .. } => width as nat,
        ExprModel::Select { cond, yes, els } => larger(larger(width(*cond), width(*yes)), width(*els)),
        ExprModel::Vector(parts) => total_width(parts, parts.len()),
    }
}

/// How many lanes the first `n` parts are wide together.
pub open spec fn total_width(parts: Seq<ExprModel>, n: nat) -> nat
    decreases parts, n,
{
    if n == 0 || n > parts.len() {
        0
    } else {
        capped(total_width(parts, (n - 1) as nat) + width(parts[n - 1]))
    }
}

/// Whether a literal is one value repeated.
pub open spec fn uniform_bits(bits: Seq<u32>) -> bool {
    bits.len() > 0 && forall|i: int| 0 <= i < bits.len() ==> #[trigger] bits[i] == bits[0]
}

/// The width of operands that are combined, after one more: the narrow one is spread over the wide, which
/// only works where the narrow one is a single component. Nought where the widths do not go together.
pub open spec fn spread_by(widest: nat, part: nat) -> nat {
    if widest == 0 || part == 0 {
        0
    } else if part == 1 {
        widest
    } else if widest == 1 || widest == part {
        part
    } else {
        0
    }
}

/// How many components the written expression really has, or nought where that cannot be told.
///
/// Not the same as the width, which is how wide the value is being used as: a dot product written to three
/// components is three wide and one component.
pub open spec fn component_count(e: ExprModel) -> nat
    decreases e, 0nat,
{
    match e {
        ExprModel::Read { swizzle, .. } => larger(swizzle.len(), 1),
        ExprModel::Swizzle { swizzle, .. } => swizzle.len(),
        ExprModel::Literal { bits, .. } => if uniform_bits(bits) {
            1
        } else {
            bits.len()
        },
        ExprModel::Unary { value, .. } => component_count(*value),
        ExprModel::Binary { left, right, .. } => spread_by(spread_by(1, component_count(*left)), component_count(*right)),
        ExprModel::Select { cond, yes, els } => spread_by(
            spread_by(spread_by(1, component_count(*cond)), component_count(*yes)),
            component_count(*els),
        ),
        ExprModel::Vector(parts) => total_components(parts, parts.len()),
        ExprModel::Call { name, args, width } => if name == "dot"@ || name == "length"@ {
            1
        } else if name == "mul"@ || starts_with(name, "float"@) {
            width as nat
        } else {
            spread_components(args, args.len())
        },
    }
}

/// How many components the first `n` parts have together.
pub open spec fn total_components(parts: Seq<ExprModel>, n: nat) -> nat
    decreases parts, n,
{
    if n == 0 || n > parts.len() {
        0
    } else {
        capped(total_components(parts, (n - 1) as nat) + component_count(parts[n - 1]))
    }
}

/// How many components the first `n` arguments have when they are combined.
pub open spec fn spread_components(args: Seq<ExprModel>, n: nat) -> nat
    decreases args, n,
{
    if n == 0 || n > args.len() {
        1
    } else {
        spread_by(spread_components(args, (n - 1) as nat), component_count(args[n - 1]))
    }
}

/// The text starts with another.
pub open spec fn starts_with(text: Seq<char>, head: Seq<char>) -> bool {
    text.len() >= head.len() && text.subrange(0, head.len() as int) == head
}

/// The text ends with another.
pub open spec fn ends_with(text: Seq<char>, tail: Seq<char>) -> bool {
    text.len() >= tail.len() && text.subrange(text.len() - tail.len(), text.len() as int) == tail
}

/// Whether a swizzle names the lanes it has in their own order, which selects nothing.
pub open spec fn in_order(swizzle: Seq<u8>) -> bool {
    forall|i: int| 0 <= i < swizzle.len() ==> #[trigger] swizzle[i] == i
}

/// The first `n` lanes taken from a list, those past its end left out.
pub open spec fn picked<T>(from: Seq<T>, lanes: Seq<u8>, n: nat) -> Seq<T>
    decreases n,
{
    if n == 0 {
        Seq::empty()
    } else if lanes[n - 1] < from.len() {
        picked(from, lanes, (n - 1) as nat).push(from[lanes[n - 1] as int])
    } else {
        picked(from, lanes, (n - 1) as nat)
    }
}

/// Every part is one lane.
pub open spec fn all_single(parts: Seq<ExprModel>) -> bool {
    forall|i: int| 0 <= i < parts.len() ==> width(#[trigger] parts[i]) == 1
}

/// The value narrowed to the lanes given, by index into its own.
///
/// Every operator is elementwise, so narrowing one pushes down into its operands and comes out as a
/// swizzle on the leaves. What is not elementwise takes the swizzle on the outside.
pub open spec fn selected(e: ExprModel, lanes: Seq<u8>) -> ExprModel
    decreases e,
{
    if width(e) <= 1 || (lanes.len() == width(e) && in_order(lanes)) {
        e
    } else {
        match e {
            ExprModel::Read { base, swizzle } => ExprModel::Read {
                base,
                swizzle: picked(swizzle, lanes, lanes.len()),
            },
            ExprModel::Literal { bits, domain } => ExprModel::Literal {
                bits: picked(bits, lanes, lanes.len()),
                domain,
            },
            ExprModel::Unary { op, value } => ExprModel::Unary { op, value: Box::new(selected(*value, lanes)) },
            ExprModel::Binary { op, left, right } => ExprModel::Binary {
                op,
                left: Box::new(selected(*left, lanes)),
                right: Box::new(selected(*right, lanes)),
            },
            ExprModel::Select { cond, yes, els } => ExprModel::Select {
                cond: Box::new(selected(*cond, lanes)),
                yes: Box::new(selected(*yes, lanes)),
                els: Box::new(selected(*els, lanes)),
            },
            ExprModel::Swizzle { value, swizzle } => ExprModel::Swizzle {
                value,
                swizzle: picked(swizzle, lanes, lanes.len()),
            },
            ExprModel::Vector(parts) => if all_single(parts) {
                ExprModel::Vector(picked(parts, lanes, lanes.len()))
            } else {
                ExprModel::Swizzle { value: Box::new(e), swizzle: lanes }
            },
            ExprModel::Call { .. } => ExprModel::Swizzle { value: Box::new(e), swizzle: lanes },
        }
    }
}

/// Binding strength, so a child only gets brackets where it would otherwise regroup the expression. The
/// numbers are C's, which HLSL inherits.
pub open spec fn strength(op: Seq<char>) -> int {
    if op == "||"@ { 2 }
    else if op == "&&"@ { 3 }
    else if op == "|"@ { 4 }
    else if op == "^"@ { 5 }
    else if op == "&"@ { 6 }
    else if op == "=="@ || op == "!="@ { 7 }
    else if op == "<"@ || op == ">"@ || op == "<="@ || op == ">="@ { 8 }
    else if op == "<<"@ || op == ">>"@ { 9 }
    else if op == "+"@ || op == "-"@ { 10 }
    else { 11 }
}

/// Lower than any operator, so a conditional always brackets inside one.
pub const TERNARY: u8 = 1;

/// Higher than any operator: what a swizzle or a call argument may hold without brackets.
pub const ATOM: u8 = 13;

/// The letter naming one component.
pub open spec fn lane_letter(at: u8) -> char {
    if at % 4 == 0 { 'x' }
    else if at % 4 == 1 { 'y' }
    else if at % 4 == 2 { 'z' }
    else { 'w' }
}

/// A swizzle as the component letters that name it.
pub open spec fn lane_letters(swizzle: Seq<u8>) -> Seq<char> {
    Seq::new(swizzle.len(), |i: int| lane_letter(swizzle[i]))
}

/// The text in brackets where it binds less than is asked for.
pub open spec fn bracketed(text: Seq<char>, here: int, least: int) -> Seq<char> {
    if here < least {
        "("@ + text + ")"@
    } else {
        text
    }
}

/// A constant that is exactly a small fraction, as the division that produced it. Powers of two are left
/// out as denominators: those come back as short decimals already.
pub open spec fn fraction_text(bits: u32) -> Option<Seq<char>> {
    if numerator32(bits, 3) is Some {
        Some(quotient_text(bits, numerator32(bits, 3)->0, 3))
    } else if numerator32(bits, 6) is Some {
        Some(quotient_text(bits, numerator32(bits, 6)->0, 6))
    } else if numerator32(bits, 7) is Some {
        Some(quotient_text(bits, numerator32(bits, 7)->0, 7))
    } else if numerator32(bits, 9) is Some {
        Some(quotient_text(bits, numerator32(bits, 9)->0, 9))
    } else if numerator32(bits, 255) is Some {
        Some(quotient_text(bits, numerator32(bits, 255)->0, 255))
    } else {
        None
    }
}

/// A bracketed division. Without the brackets it would bind to whatever the constant is multiplied by.
pub open spec fn quotient_text(bits: u32, above: nat, over: nat) -> Seq<char> {
    "("@ + sign_text(negative32(bits)) + dec(above) + ".0 / "@ + dec(over) + ".0)"@
}

/// One lane of a constant as HLSL writes it.
pub open spec fn lane_text(value: u32, domain: Domain) -> Seq<char> {
    match domain {
        Domain::Float => if field32(value) == 255 {
            "asfloat(0x"@ + hex_fixed(value as nat, 8) + "u)"@
        } else if field32(value) == 0 && fraction32(value) != 0 {
            "asfloat("@ + dec(value as nat) + "u)"@
        } else if whole32(value) is Some {
            sign_text(negative32(value)) + dec(whole32(value)->0) + ".0"@
        } else if fraction_text(value) is Some {
            fraction_text(value)->0
        } else {
            debug32(value)
        },
        Domain::Int => signed((value as i32) as int),
        _ => if value > 9 {
            "0x"@ + hex(value as nat) + "u"@
        } else {
            dec(value as nat) + "u"@
        },
    }
}

/// The texts of the first `n` lanes of a constant.
pub open spec fn lane_texts(bits: Seq<u32>, domain: Domain, n: nat) -> Seq<Seq<char>>
    decreases n,
{
    if n == 0 {
        Seq::empty()
    } else {
        lane_texts(bits, domain, (n - 1) as nat).push(lane_text(bits[n - 1], domain))
    }
}

/// The name of a domain's vector constructor, without its size.
pub open spec fn constructor(domain: Domain) -> Seq<char> {
    match domain {
        Domain::Float => "float"@,
        Domain::Int => "int"@,
        _ => "uint"@,
    }
}

/// A constant as HLSL writes it. Lanes that are all the same collapse to a scalar.
pub open spec fn literal_text(bits: Seq<u32>, domain: Domain) -> Seq<char> {
    if bits.len() == 0 {
        ""@
    } else if uniform_bits(bits) {
        lane_text(bits[0], domain)
    } else {
        constructor(domain) + dec(bits.len()) + "("@ + joined(lane_texts(bits, domain, bits.len()), ", "@) + ")"@
    }
}

/// The expression as HLSL, in brackets where it binds less than is asked for.
pub open spec fn rendered(e: ExprModel, least: int) -> Seq<char>
    decreases e, 0nat,
{
    match e {
        ExprModel::Read { base, swizzle } => if swizzle.len() == 0 || swizzle == seq![0u8, 1, 2, 3] {
            base
        } else {
            base + "."@ + lane_letters(swizzle)
        },
        ExprModel::Literal { bits, domain } => literal_text(bits, domain),
        ExprModel::Unary { op, value } => {
            let inner = rendered(*value, 12);
            let inner = if op == "-"@ && starts_with(inner, "-"@) {
                "("@ + inner + ")"@
            } else {
                inner
            };
            bracketed(op + inner, 12, least)
        },
        ExprModel::Binary { op, left, right } => {
            let here = strength(op);
            bracketed(rendered(*left, here) + " "@ + op + " "@ + rendered(*right, here + 1), here, least)
        },
        ExprModel::Call { name, args, .. } => name + "("@ + joined(rendered_all(args, args.len()), ", "@) + ")"@,
        ExprModel::Select { cond, yes, els } => if width(*cond) > 1 {
            "select("@ + rendered(*cond, 1) + ", "@ + rendered(*yes, 1) + ", "@ + rendered(*els, 1) + ")"@
        } else {
            bracketed(rendered(*cond, 2) + " ? "@ + rendered(*yes, 2) + " : "@ + rendered(*els, 1), 1, least)
        },
        ExprModel::Swizzle { value, swizzle } => if swizzle.len() == width(*value) && in_order(swizzle) {
            rendered(*value, least)
        } else {
            rendered(*value, 13) + "."@ + lane_letters(swizzle)
        },
        ExprModel::Vector(parts) => if parts.len() == 1 {
            rendered(parts[0], least)
        } else {
            "float"@ + dec(total_width(parts, parts.len())) + "("@ + joined(rendered_all(parts, parts.len()), ", "@)
                + ")"@
        },
    }
}

/// The first `n` expressions of a list as HLSL.
pub open spec fn rendered_all(list: Seq<ExprModel>, n: nat) -> Seq<Seq<char>>
    decreases list, n,
{
    if n == 0 || n > list.len() {
        Seq::empty()
    } else {
        rendered_all(list, (n - 1) as nat).push(rendered(list[n - 1], 1))
    }
}

/// Binding strength of an operator.
fn strength_of(op: &str) -> (r: u8)
    ensures
        r == strength(op@),
{
    if same(op, "||") { 2 }
    else if same(op, "&&") { 3 }
    else if same(op, "|") { 4 }
    else if same(op, "^") { 5 }
    else if same(op, "&") { 6 }
    else if same(op, "==") || same(op, "!=") { 7 }
    else if same(op, "<") || same(op, ">") || same(op, "<=") || same(op, ">=") { 8 }
    else if same(op, "<<") || same(op, ">>") { 9 }
    else if same(op, "+") || same(op, "-") { 10 }
    else { 11 }
}

/// Whether a text starts with another.
pub fn begins(text: &str, head: &str) -> (r: bool)
    ensures
        r == starts_with(text@, head@),
{
    let t = chars_of(text);
    let h = chars_of(head);
    if t.len() < h.len() {
        return false;
    }
    let mut i: usize = 0;
    while i < h.len()
        invariant
            i <= h@.len() <= t@.len(),
            t@ == text@,
            h@ == head@,
            forall|k: int| 0 <= k < i ==> t@[k] == h@[k],
        decreases h@.len() - i,
    {
        if t[i] != h[i] {
            proof {
                assert(t@.subrange(0, h@.len() as int)[i as int] == t@[i as int]);
            }
            return false;
        }
        i = i + 1;
    }
    proof {
        assert(t@.subrange(0, h@.len() as int) =~= h@);
    }
    true
}

/// Whether a text ends with another.
pub fn finishes(text: &str, tail: &str) -> (r: bool)
    ensures
        r == ends_with(text@, tail@),
{
    let t = chars_of(text);
    let h = chars_of(tail);
    if t.len() < h.len() {
        return false;
    }
    let from: usize = t.len() - h.len();
    assert(t@.len() <= usize::MAX) by {
        assert(t.len() == t@.len());
    }
    let mut i: usize = 0;
    while i < h.len()
        invariant
            i <= h@.len() <= t@.len(),
            from + h@.len() == t@.len(),
            t@.len() <= usize::MAX,
            t@ == text@,
            h@ == tail@,
            forall|k: int| 0 <= k < i ==> t@[from + k] == #[trigger] h@[k],
        decreases h@.len() - i,
    {
        if t[from + i] != h[i] {
            proof {
                assert(t@.subrange(from as int, t@.len() as int)[i as int] == t@[from + i]);
            }
            return false;
        }
        i = i + 1;
    }
    proof {
        assert(t@.subrange(from as int, t@.len() as int) =~= h@);
    }
    true
}

/// Whether a swizzle names the lanes it has in their own order.
pub fn identity(swizzle: &[u8]) -> (r: bool)
    ensures
        r == in_order(swizzle@),
{
    let mut i: usize = 0;
    while i < swizzle.len()
        invariant
            i <= swizzle@.len(),
            forall|k: int| 0 <= k < i ==> #[trigger] swizzle@[k] == k,
        decreases swizzle@.len() - i,
    {
        if swizzle[i] as usize != i {
            return false;
        }
        i = i + 1;
    }
    true
}

/// Whether a literal is one value repeated, which is written as that value and nothing more.
pub fn uniform(bits: &[u32]) -> (r: bool)
    ensures
        r == uniform_bits(bits@),
{
    if bits.len() == 0 {
        return false;
    }
    let mut i: usize = 0;
    while i < bits.len()
        invariant
            i <= bits@.len(),
            bits@.len() > 0,
            forall|k: int| 0 <= k < i ==> #[trigger] bits@[k] == bits@[0],
        decreases bits@.len() - i,
    {
        if bits[i] != bits[0] {
            return false;
        }
        i = i + 1;
    }
    true
}

/// The lanes taken from a list of components.
fn pick_bytes(from: &[u8], lanes: &[u8]) -> (r: Vec<u8>)
    ensures
        r@ == picked(from@, lanes@, lanes@.len()),
{
    let mut out: Vec<u8> = Vec::new();
    let mut i: usize = 0;
    while i < lanes.len()
        invariant
            i <= lanes@.len(),
            out@ == picked(from@, lanes@, i as nat),
        decreases lanes@.len() - i,
    {
        if (lanes[i] as usize) < from.len() {
            out.push(from[lanes[i] as usize]);
        }
        i = i + 1;
    }
    out
}

/// The lanes taken from a constant.
pub(crate) fn pick_words(from: &[u32], lanes: &[u8]) -> (r: Vec<u32>)
    ensures
        r@ == picked(from@, lanes@, lanes@.len()),
{
    let mut out: Vec<u32> = Vec::new();
    let mut i: usize = 0;
    while i < lanes.len()
        invariant
            i <= lanes@.len(),
            out@ == picked(from@, lanes@, i as nat),
        decreases lanes@.len() - i,
    {
        if (lanes[i] as usize) < from.len() {
            out.push(from[lanes[i] as usize]);
        }
        i = i + 1;
    }
    out
}

/// A copy of a list of components.
pub fn copy_bytes(from: &[u8]) -> (r: Vec<u8>)
    ensures
        r@ == from@,
{
    crate::bytes::copied(from)
}

/// A copy of a list of words.
pub fn copy_words(from: &[u32]) -> (r: Vec<u32>)
    ensures
        r@ == from@,
{
    let mut out: Vec<u32> = Vec::new();
    let mut i: usize = 0;
    while i < from.len()
        invariant
            i <= from@.len(),
            out@ == from@.take(i as int),
        decreases from@.len() - i,
    {
        out.push(from[i]);
        i = i + 1;
    }
    out
}

/// Whether two lists of components are the same.
pub fn same_bytes(a: &[u8], b: &[u8]) -> (r: bool)
    ensures
        r == (a@ == b@),
{
    if a.len() != b.len() {
        return false;
    }
    let mut i: usize = 0;
    while i < a.len()
        invariant
            i <= a@.len() == b@.len(),
            forall|k: int| 0 <= k < i ==> a@[k] == b@[k],
        decreases a@.len() - i,
    {
        if a[i] != b[i] {
            return false;
        }
        i = i + 1;
    }
    proof {
        assert(a@ =~= b@);
    }
    true
}

/// Whether two lists of words are the same.
pub fn same_words(a: &[u32], b: &[u32]) -> (r: bool)
    ensures
        r == (a@ == b@),
{
    if a.len() != b.len() {
        return false;
    }
    let mut i: usize = 0;
    while i < a.len()
        invariant
            i <= a@.len() == b@.len(),
            forall|k: int| 0 <= k < i ==> a@[k] == b@[k],
        decreases a@.len() - i,
    {
        if a[i] != b[i] {
            return false;
        }
        i = i + 1;
    }
    proof {
        assert(a@ =~= b@);
    }
    true
}

fn add_capped(a: usize, b: usize) -> (r: usize)
    ensures
        r == capped((a + b) as nat),
{
    if a > usize::MAX - b {
        usize::MAX
    } else {
        a + b
    }
}

fn max_of(a: usize, b: usize) -> (r: usize)
    ensures
        r == larger(a as nat, b as nat),
{
    if a >= b {
        a
    } else {
        b
    }
}

fn spread_step(widest: usize, part: usize) -> (r: usize)
    ensures
        r == spread_by(widest as nat, part as nat),
{
    if widest == 0 || part == 0 {
        0
    } else if part == 1 {
        widest
    } else if widest == 1 || widest == part {
        part
    } else {
        0
    }
}

/// A copy of a list of expressions.
pub fn copy_exprs(list: &Vec<Expr>) -> (r: Vec<Expr>)
    ensures
        models(r@) == models(list@),
    decreases list,
{
    let mut out: Vec<Expr> = Vec::new();
    let mut i: usize = 0;
    while i < list.len()
        invariant
            i <= list@.len(),
            out@.len() == i,
            forall|k: int| 0 <= k < i ==> (#[trigger] out@[k])@ == list@[k]@,
        decreases list@.len() - i,
    {
        out.push(list[i].duplicate());
        i = i + 1;
    }
    proof {
        assert(models(out@) =~= models(list@));
    }
    out
}

impl Clone for Expr {
    fn clone(&self) -> (r: Self)
        ensures
            r@ == self@,
    {
        self.duplicate()
    }
}

impl Expr {
    /// A copy of the expression.
    pub fn duplicate(&self) -> (r: Expr)
        ensures
            r@ == self@,
        decreases self,
    {
        let r = match self {
            Expr::Read { base, swizzle } => Expr::Read { base: base.clone(), swizzle: copy_bytes(swizzle) },
            Expr::Literal { bits, domain } => Expr::Literal { bits: copy_words(bits), domain: *domain },
            Expr::Unary { op, value } => Expr::Unary { op: *op, value: Box::new(value.duplicate()) },
            Expr::Binary { op, left, right } => Expr::Binary {
                op: *op,
                left: Box::new(left.duplicate()),
                right: Box::new(right.duplicate()),
            },
            Expr::Call { name, args, width } => Expr::Call {
                name: name.clone(),
                args: copy_exprs(args),
                width: *width,
            },
            Expr::Select { cond, yes, els } => Expr::Select {
                cond: Box::new(cond.duplicate()),
                yes: Box::new(yes.duplicate()),
                els: Box::new(els.duplicate()),
            },
            Expr::Swizzle { value, swizzle } => Expr::Swizzle {
                value: Box::new(value.duplicate()),
                swizzle: copy_bytes(swizzle),
            },
            Expr::Vector(parts) => Expr::Vector(copy_exprs(parts)),
        };
        proof {
            lemma_call_model(r);
            lemma_call_model(*self);
        }
        r
    }

    /// How many lanes the value is wide.
    ///
    /// Naming no components means the whole of a value that stands alone, which is one thing wide.
    pub fn width(&self) -> (r: usize)
        ensures
            r == width(self@),
        decreases self,
    {
        match self {
            Expr::Read { swizzle, .. } => max_of(swizzle.len(), 1),
            Expr::Swizzle { swizzle, .. } => swizzle.len(),
            Expr::Literal { bits, .. } => bits.len(),
            Expr::Unary { value, .. } => value.width(),
            Expr::Binary { left, right, .. } => max_of(left.width(), right.width()),
            Expr::Call { width, .. } => *width,
            Expr::Select { cond, yes, els } => max_of(max_of(cond.width(), yes.width()), els.width()),
            Expr::Vector(parts) => {
                let mut total: usize = 0;
                let mut i: usize = 0;
                let ghost all = self@->Vector_0;
                while i < parts.len()
                    invariant
                        *self == Expr::Vector(*parts),
                        i <= parts@.len(),
                        all == self@->Vector_0,
                        all.len() == parts@.len(),
                        total == total_width(all, i as nat),
                    decreases parts@.len() - i,
                {
                    assert(all[i as int] == parts@[i as int]@);
                    total = add_capped(total, parts[i].width());
                    i = i + 1;
                }
                total
            },
        }
    }

    /// How many components the written expression really has, or nought where that cannot be told.
    pub fn components(&self) -> (r: usize)
        ensures
            r == component_count(self@),
        decreases self,
    {
        match self {
            Expr::Read { swizzle, .. } => max_of(swizzle.len(), 1),
            Expr::Swizzle { swizzle, .. } => swizzle.len(),
            Expr::Literal { bits, .. } => if uniform(bits) {
                1
            } else {
                bits.len()
            },
            Expr::Unary { value, .. } => value.components(),
            Expr::Binary { left, right, .. } => spread_step(spread_step(1, left.components()), right.components()),
            Expr::Select { cond, yes, els } => spread_step(
                spread_step(spread_step(1, cond.components()), yes.components()),
                els.components(),
            ),
            Expr::Vector(parts) => {
                let mut total: usize = 0;
                let mut i: usize = 0;
                let ghost all = self@->Vector_0;
                while i < parts.len()
                    invariant
                        *self == Expr::Vector(*parts),
                        i <= parts@.len(),
                        all == self@->Vector_0,
                        all.len() == parts@.len(),
                        total == total_components(all, i as nat),
                    decreases parts@.len() - i,
                {
                    assert(all[i as int] == parts@[i as int]@);
                    total = add_capped(total, parts[i].components());
                    i = i + 1;
                }
                total
            },
            Expr::Call { name, args, width } => {
                if same(name.as_str(), "dot") || same(name.as_str(), "length") {
                    1
                } else if same(name.as_str(), "mul") || begins(name.as_str(), "float") {
                    *width
                } else {
                    let mut widest: usize = 1;
                    let mut i: usize = 0;
                    let ghost all = self@->args;
                    while i < args.len()
                        invariant
                            *self == (Expr::Call { name: *name, args: *args, width: *width }),
                            i <= args@.len(),
                            all == self@->args,
                            all.len() == args@.len(),
                            widest == spread_components(all, i as nat),
                        decreases args@.len() - i,
                    {
                        assert(all[i as int] == args@[i as int]@);
                        widest = spread_step(widest, args[i].components());
                        i = i + 1;
                    }
                    widest
                }
            },
        }
    }

    /// The value narrowed to the lanes given, by index into its own.
    pub fn select(self, lanes: &[u8]) -> (r: Expr)
        ensures
            r@ == selected(self@, lanes@),
        decreases self,
    {
        let wide: usize = self.width();
        if wide <= 1 {
            return self;
        }
        if lanes.len() == wide && identity(lanes) {
            return self;
        }
        let ghost before = self@;
        proof {
            lemma_call_model(self);
        }
        match self {
            Expr::Read { base, swizzle } => Expr::Read { base, swizzle: pick_bytes(swizzle.as_slice(), lanes) },
            Expr::Literal { bits, domain } => Expr::Literal { bits: pick_words(bits.as_slice(), lanes), domain },
            Expr::Unary { op, value } => Expr::Unary { op, value: Box::new((*value).select(lanes)) },
            Expr::Binary { op, left, right } => Expr::Binary {
                op,
                left: Box::new((*left).select(lanes)),
                right: Box::new((*right).select(lanes)),
            },
            Expr::Select { cond, yes, els } => Expr::Select {
                cond: Box::new((*cond).select(lanes)),
                yes: Box::new((*yes).select(lanes)),
                els: Box::new((*els).select(lanes)),
            },
            Expr::Swizzle { value, swizzle } => Expr::Swizzle {
                value,
                swizzle: pick_bytes(swizzle.as_slice(), lanes),
            },
            Expr::Vector(parts) => {
                if each_single(&parts) {
                    let r = Expr::Vector(pick_exprs(&parts, lanes));
                    proof {
                        lemma_call_model(r);
                    }
                    r
                } else {
                    let whole = Expr::Vector(parts);
                    Expr::Swizzle { value: Box::new(whole), swizzle: copy_bytes(lanes) }
                }
            },
            Expr::Call { name, args, width } => {
                let whole = Expr::Call { name, args, width };
                Expr::Swizzle { value: Box::new(whole), swizzle: copy_bytes(lanes) }
            },
        }
    }

    /// The expression as HLSL, bracketed only where precedence needs it.
    pub fn text(&self) -> (r: String)
        ensures
            r@ == rendered(self@, 1),
    {
        self.render(TERNARY)
    }

    /// The expression as HLSL, in brackets where it binds less than is asked for.
    pub fn render(&self, least: u8) -> (r: String)
        ensures
            r@ == rendered(self@, least as int),
        decreases self, 0nat,
    {
        match self {
            Expr::Read { base, swizzle } => {
                if swizzle.len() == 0 || same_bytes(swizzle.as_slice(), &[0u8, 1, 2, 3]) {
                    proof {
                        assert([0u8, 1, 2, 3]@ =~= seq![0u8, 1, 2, 3]);
                    }
                    base.clone()
                } else {
                    proof {
                        assert([0u8, 1, 2, 3]@ =~= seq![0u8, 1, 2, 3]);
                    }
                    let l = letters(swizzle.as_slice());
                    cat3(base.as_str(), ".", l.as_str())
                }
            },
            Expr::Literal { bits, domain } => literal(bits.as_slice(), *domain),
            Expr::Unary { op, value } => {
                let inner = value.render(12);
                let inner = if same(op, "-") && begins(inner.as_str(), "-") {
                    cat3("(", inner.as_str(), ")")
                } else {
                    inner
                };
                let whole = cat2(op, inner.as_str());
                bracket(whole, 12, least)
            },
            Expr::Binary { op, left, right } => {
                let here: u8 = strength_of(op);
                let l = left.render(here);
                let r = right.render(here + 1);
                let whole = cat5(l.as_str(), " ", op, " ", r.as_str());
                bracket(whole, here, least)
            },
            Expr::Call { name, args, .. } => {
                proof {
                    lemma_call_model(*self);
                }
                let texts = render_all(args);
                let list = join(texts.as_slice(), ", ");
                cat4(name.as_str(), "(", list.as_str(), ")")
            },
            Expr::Select { cond, yes, els } => {
                if cond.width() > 1 {
                    let c = cond.render(TERNARY);
                    let y = yes.render(TERNARY);
                    let n = els.render(TERNARY);
                    crate::text::cat7("select(", c.as_str(), ", ", y.as_str(), ", ", n.as_str(), ")")
                } else {
                    let c = cond.render(TERNARY + 1);
                    let y = yes.render(TERNARY + 1);
                    let n = els.render(TERNARY);
                    let whole = cat5(c.as_str(), " ? ", y.as_str(), " : ", n.as_str());
                    bracket(whole, TERNARY, least)
                }
            },
            Expr::Swizzle { value, swizzle } => {
                if swizzle.len() == value.width() && identity(swizzle.as_slice()) {
                    value.render(least)
                } else {
                    let v = value.render(ATOM);
                    let l = letters(swizzle.as_slice());
                    cat3(v.as_str(), ".", l.as_str())
                }
            },
            Expr::Vector(parts) => {
                proof {
                    lemma_call_model(*self);
                }
                if parts.len() == 1 {
                    parts[0].render(least)
                } else {
                    let count = decimal(self.width() as u64);
                    let texts = render_all(parts);
                    let list = join(texts.as_slice(), ", ");
                    cat5("float", count.as_str(), "(", list.as_str(), ")")
                }
            },
        }
    }
}

/// Each expression of a list as HLSL.
fn render_all(list: &Vec<Expr>) -> (r: Vec<String>)
    ensures
        views(r@) == rendered_all(models(list@), list@.len()),
    decreases list, 1nat,
{
    let ghost all = models(list@);
    let mut out: Vec<String> = Vec::new();
    let mut i: usize = 0;
    proof {
        assert(views(out@) =~= rendered_all(all, 0));
    }
    while i < list.len()
        invariant
            i <= list@.len(),
            all == models(list@),
            views(out@) == rendered_all(all, i as nat),
        decreases list@.len() - i,
    {
        let ghost before = views(out@);
        let text = list[i].render(TERNARY);
        out.push(text);
        i = i + 1;
        proof {
            assert(views(out@) =~= before.push(rendered(all[i - 1], 1)));
        }
    }
    out
}

fn each_single(parts: &Vec<Expr>) -> (r: bool)
    ensures
        r == all_single(models(parts@)),
{
    let ghost all = models(parts@);
    let mut i: usize = 0;
    while i < parts.len()
        invariant
            i <= parts@.len(),
            all == models(parts@),
            forall|k: int| 0 <= k < i ==> width(#[trigger] all[k]) == 1,
        decreases parts@.len() - i,
    {
        if parts[i].width() != 1 {
            assert(width(all[i as int]) != 1);
            return false;
        }
        i = i + 1;
    }
    true
}

fn pick_exprs(parts: &Vec<Expr>, lanes: &[u8]) -> (r: Vec<Expr>)
    ensures
        models(r@) == picked(models(parts@), lanes@, lanes@.len()),
{
    let ghost all = models(parts@);
    let mut out: Vec<Expr> = Vec::new();
    let mut i: usize = 0;
    proof {
        assert(models(out@) =~= Seq::empty());
    }
    while i < lanes.len()
        invariant
            i <= lanes@.len(),
            all == models(parts@),
            models(out@) == picked(all, lanes@, i as nat),
        decreases lanes@.len() - i,
    {
        if (lanes[i] as usize) < parts.len() {
            let ghost before = models(out@);
            let one = parts[lanes[i] as usize].duplicate();
            let ghost m = one@;
            out.push(one);
            proof {
                assert(models(out@) =~= before.push(m));
            }
        }
        i = i + 1;
    }
    out
}

fn bracket(text: String, here: u8, least: u8) -> (r: String)
    ensures
        r@ == bracketed(text@, here as int, least as int),
{
    if here < least {
        cat3("(", text.as_str(), ")")
    } else {
        text
    }
}

/// The letter naming one component.
pub fn lane(at: u8) -> (r: char)
    ensures
        r == lane_letter(at),
{
    match at % 4 {
        0 => 'x',
        1 => 'y',
        2 => 'z',
        _ => 'w',
    }
}

/// A swizzle as the component letters that name it: `[0, 3]` is `"xw"`.
pub fn letters(swizzle: &[u8]) -> (r: String)
    ensures
        r@ == lane_letters(swizzle@),
{
    let mut out = String::new();
    let mut i: usize = 0;
    while i < swizzle.len()
        invariant
            i <= swizzle@.len(),
            out@ == lane_letters(swizzle@).take(i as int),
        decreases swizzle@.len() - i,
    {
        out.push(lane(swizzle[i]));
        i = i + 1;
        proof {
            assert(out@ =~= lane_letters(swizzle@).take(i as int));
        }
    }
    proof {
        assert(lane_letters(swizzle@).take(i as int) =~= lane_letters(swizzle@));
    }
    out
}

fn quotient(bits: u32, above: u32, over: u32) -> (r: String)
    ensures
        r@ == quotient_text(bits, above as nat, over as nat),
{
    let sign = if bits >= 0x8000_0000 {
        "-"
    } else {
        ""
    };
    let a = decimal(above as u64);
    let o = decimal(over as u64);
    crate::text::cat6("(", sign, a.as_str(), ".0 / ", o.as_str(), ".0)")
}

/// A constant that is exactly a small fraction, written as the division that produced it.
///
/// Only where dividing really does give these bits back, and only in lowest terms: three sixths is a half,
/// and nobody wrote it the long way.
fn fraction(bits: u32) -> (r: Option<String>)
    requires
        0 < field32(bits) < 255,
    ensures
        match r {
            Some(s) => fraction_text(bits) == Some(s@),
            None => fraction_text(bits) is None,
        },
{
    if let Some(a) = numerator_single(bits, 3) {
        return Some(quotient(bits, a, 3));
    }
    if let Some(a) = numerator_single(bits, 6) {
        return Some(quotient(bits, a, 6));
    }
    if let Some(a) = numerator_single(bits, 7) {
        return Some(quotient(bits, a, 7));
    }
    if let Some(a) = numerator_single(bits, 9) {
        return Some(quotient(bits, a, 9));
    }
    if let Some(a) = numerator_single(bits, 255) {
        return Some(quotient(bits, a, 255));
    }
    None
}

/// One lane of a constant as HLSL writes it.
fn one_lane(value: u32, domain: Domain) -> (r: String)
    ensures
        r@ == lane_text(value, domain),
{
    match domain {
        Domain::Float => {
            let field: u32 = (value / 0x80_0000) % 256;
            let part: u32 = value % 0x80_0000;
            if field == 255 {
                let h = hexadecimal_fixed(value as u64, 8);
                return cat3("asfloat(0x", h.as_str(), "u)");
            }
            // A subnormal is not something a shader computed; it is a small integer kept in a float
            // register.
            if field == 0 && part != 0 {
                let d = decimal(value as u64);
                return cat3("asfloat(", d.as_str(), "u)");
            }
            if let Some(n) = whole_single(value) {
                let sign = if value >= 0x8000_0000 {
                    "-"
                } else {
                    ""
                };
                let d = decimal(n as u64);
                return cat3(sign, d.as_str(), ".0");
            }
            proof {
                if field == 0 {
                    assert(crate::float::significand32(value) == 0);
                    let x = crate::float::p2(149);
                    crate::float::lemma_p2_positive(149);
                    assert(0nat % x == 0 && 0nat / x == 0) by (nonlinear_arith)
                        requires
                            x > 0,
                    ;
                }
            }
            match fraction(value) {
                Some(text) => text,
                None => debug_single(value),
            }
        },
        Domain::Int => decimal_signed((value as i32) as i64),
        _ => {
            if value > 9 {
                let h = hexadecimal(value as u64);
                cat3("0x", h.as_str(), "u")
            } else {
                let d = decimal(value as u64);
                cat2(d.as_str(), "u")
            }
        },
    }
}

/// A constant as HLSL writes it. Lanes that are all the same collapse to a scalar, which is what they were
/// before the compiler splatted them across a register.
pub fn literal(bits: &[u32], domain: Domain) -> (r: String)
    ensures
        r@ == literal_text(bits@, domain),
{
    if bits.len() == 0 {
        return "".to_owned();
    }
    if uniform(bits) {
        return one_lane(bits[0], domain);
    }
    let name = match domain {
        Domain::Float => "float",
        Domain::Int => "int",
        _ => "uint",
    };
    let mut texts: Vec<String> = Vec::new();
    let mut i: usize = 0;
    proof {
        assert(views(texts@) =~= Seq::empty());
    }
    while i < bits.len()
        invariant
            i <= bits@.len(),
            views(texts@) == lane_texts(bits@, domain, i as nat),
        decreases bits@.len() - i,
    {
        let ghost before = views(texts@);
        let text = one_lane(bits[i], domain);
        texts.push(text);
        i = i + 1;
        proof {
            assert(views(texts@) =~= before.push(lane_text(bits@[i - 1], domain)));
        }
    }
    let count = decimal(bits.len() as u64);
    let list = join(texts.as_slice(), ", ");
    cat5(name, count.as_str(), "(", list.as_str(), ")")
}

/// The same word in each lane.
pub open spec fn splat(value: u32, count: nat) -> Seq<u32> {
    Seq::new(count, |i: int| value)
}

/// The same word in each lane.
pub fn splatted(value: u32, count: usize) -> (r: Vec<u32>)
    ensures
        r@ == splat(value, count as nat),
{
    let mut out: Vec<u32> = Vec::new();
    let mut i: usize = 0;
    proof {
        assert(out@ =~= splat(value, 0));
    }
    while i < count
        invariant
            i <= count,
            out@ == splat(value, i as nat),
        decreases count - i,
    {
        out.push(value);
        i = i + 1;
        proof {
            assert(out@ =~= splat(value, i as nat));
        }
    }
    out
}

/// An operator with one operand.
pub open spec fn unary_model(op: Seq<char>, value: ExprModel) -> ExprModel {
    ExprModel::Unary { op, value: Box::new(value) }
}

/// An operator with two operands.
pub open spec fn binary_model(op: Seq<char>, left: ExprModel, right: ExprModel) -> ExprModel {
    ExprModel::Binary { op, left: Box::new(left), right: Box::new(right) }
}

/// One value or another.
pub open spec fn choice_model(cond: ExprModel, yes: ExprModel, els: ExprModel) -> ExprModel {
    ExprModel::Select { cond: Box::new(cond), yes: Box::new(yes), els: Box::new(els) }
}

/// Lanes of a value.
pub open spec fn swizzle_model(value: ExprModel, swizzle: Seq<u8>) -> ExprModel {
    ExprModel::Swizzle { value: Box::new(value), swizzle }
}

/// A call by name.
pub open spec fn call_model(name: Seq<char>, args: Seq<ExprModel>, width: usize) -> ExprModel {
    ExprModel::Call { name, args, width }
}

/// The same value read in another domain, with the cast that makes it legal.
///
/// A comparison leaves a boolean rather than the all-ones mask the machine really holds, so taking one as
/// bits spells the mask out rather than reinterpreting it.
pub open spec fn coerced(value: ExprModel, from: Domain, to: Domain) -> ExprModel {
    let w = width(value);
    if from == to {
        value
    } else if value is Literal && to != Domain::Bool {
        ExprModel::Literal { bits: value->bits, domain: to }
    } else if from == Domain::Bool {
        ExprModel::Select {
            cond: Box::new(value),
            yes: Box::new(
                ExprModel::Literal {
                    bits: splat(if to == Domain::Float { 0x3F80_0000 } else { 0xFFFF_FFFF }, w),
                    domain: to,
                },
            ),
            els: Box::new(ExprModel::Literal { bits: splat(0, w), domain: to }),
        }
    } else if to == Domain::Bool {
        ExprModel::Binary {
            op: "!="@,
            left: Box::new(value),
            right: Box::new(ExprModel::Literal { bits: splat(0, w), domain: from }),
        }
    } else if (from == Domain::Int && to == Domain::Uint) || (from == Domain::Uint && to == Domain::Int) {
        value
    } else if to == Domain::Float {
        call_model("asfloat"@, seq![value], w as usize)
    } else if to == Domain::Int {
        call_model("asint"@, seq![value], w as usize)
    } else {
        call_model("asuint"@, seq![value], w as usize)
    }
}

/// A constant.
pub fn constant(bits: Vec<u32>, domain: Domain) -> (r: Expr)
    ensures
        r@ == (ExprModel::Literal { bits: bits@, domain }),
{
    Expr::Literal { bits, domain }
}

/// A register read.
pub fn named(base: String, swizzle: Vec<u8>) -> (r: Expr)
    ensures
        r@ == (ExprModel::Read { base: base@, swizzle: swizzle@ }),
{
    Expr::Read { base, swizzle }
}

/// An operator with one operand.
pub fn unary(op: &'static str, value: Expr) -> (r: Expr)
    ensures
        r@ == unary_model(op@, value@),
{
    Expr::Unary { op, value: Box::new(value) }
}

/// An operator with two operands.
pub fn binary(op: &'static str, left: Expr, right: Expr) -> (r: Expr)
    ensures
        r@ == binary_model(op@, left@, right@),
{
    Expr::Binary { op, left: Box::new(left), right: Box::new(right) }
}

/// One value or another.
pub fn choice(cond: Expr, yes: Expr, els: Expr) -> (r: Expr)
    ensures
        r@ == choice_model(cond@, yes@, els@),
{
    Expr::Select { cond: Box::new(cond), yes: Box::new(yes), els: Box::new(els) }
}

/// Lanes of a value.
pub fn swizzled(value: Expr, swizzle: Vec<u8>) -> (r: Expr)
    ensures
        r@ == swizzle_model(value@, swizzle@),
{
    Expr::Swizzle { value: Box::new(value), swizzle }
}

/// Values side by side.
pub fn vector(parts: Vec<Expr>) -> (r: Expr)
    ensures
        r@ == ExprModel::Vector(models(parts@)),
{
    let r = Expr::Vector(parts);
    proof {
        lemma_call_model(r);
    }
    r
}

/// The same value read in another domain, with the cast that makes it legal.
pub fn coerce(value: Expr, from: Domain, to: Domain) -> (r: Expr)
    ensures
        r@ == coerced(value@, from, to),
{
    if from == to {
        return value;
    }
    // A constant is only ever bits until something reads it, so it takes the domain asked for rather than
    // a cast around it.
    if let Expr::Literal { bits, .. } = &value {
        if to != Domain::Bool {
            return Expr::Literal { bits: copy_words(bits.as_slice()), domain: to };
        }
    }
    let wide: usize = value.width();
    if from == Domain::Bool {
        // As a number a boolean is one or nought; as bits it is the mask a comparison would have left.
        let set: u32 = if to == Domain::Float {
            0x3F80_0000
        } else {
            0xFFFF_FFFF
        };
        return choice(value, constant(splatted(set, wide), to), constant(splatted(0, wide), to));
    }
    if to == Domain::Bool {
        return binary("!=", value, constant(splatted(0, wide), from));
    }
    match (from, to) {
        // The bits are the same either way round; only the reading of them changes.
        (Domain::Int, Domain::Uint) | (Domain::Uint, Domain::Int) => value,
        (_, Domain::Float) => call1("asfloat", value, wide),
        (_, Domain::Int) => call1("asint", value, wide),
        _ => call1("asuint", value, wide),
    }
}

/// A call to `name`, whose result is `width` lanes wide.
pub fn call(name: &str, args: Vec<Expr>, width: usize) -> (r: Expr)
    ensures
        r@ == call_model(name@, models(args@), width),
{
    let r = Expr::Call { name: name.to_owned(), args, width };
    proof {
        lemma_call_model(r);
    }
    r
}

/// A call to `name` with one argument.
pub fn call1(name: &str, arg: Expr, width: usize) -> (r: Expr)
    ensures
        r@ == call_model(name@, seq![arg@], width),
{
    let mut args: Vec<Expr> = Vec::new();
    let ghost m = arg@;
    args.push(arg);
    proof {
        assert(models(args@) =~= seq![m]);
    }
    call(name, args, width)
}

/// A call to `name` with two arguments.
pub fn call2(name: &str, first: Expr, second: Expr, width: usize) -> (r: Expr)
    ensures
        r@ == call_model(name@, seq![first@, second@], width),
{
    let mut args: Vec<Expr> = Vec::new();
    let ghost a = first@;
    let ghost b = second@;
    args.push(first);
    args.push(second);
    proof {
        assert(models(args@) =~= seq![a, b]);
    }
    call(name, args, width)
}

/// A call to `name` with three arguments.
pub fn call3(name: &str, first: Expr, second: Expr, third: Expr, width: usize) -> (r: Expr)
    ensures
        r@ == call_model(name@, seq![first@, second@, third@], width),
{
    let mut args: Vec<Expr> = Vec::new();
    let ghost a = first@;
    let ghost b = second@;
    let ghost c = third@;
    args.push(first);
    args.push(second);
    args.push(third);
    proof {
        assert(models(args@) =~= seq![a, b, c]);
    }
    call(name, args, width)
}

/// Whether two lists of expressions hold the same.
pub fn same_exprs(a: &Vec<Expr>, b: &Vec<Expr>) -> (r: bool)
    ensures
        r == (models(a@) == models(b@)),
    decreases a,
{
    let ghost ma = models(a@);
    let ghost mb = models(b@);
    if a.len() != b.len() {
        assert(ma.len() != mb.len());
        return false;
    }
    let mut i: usize = 0;
    while i < a.len()
        invariant
            i <= a@.len() == b@.len(),
            ma == models(a@),
            mb == models(b@),
            forall|k: int| 0 <= k < i ==> #[trigger] ma[k] == mb[k],
        decreases a@.len() - i,
    {
        if !same_expr(&a[i], &b[i]) {
            assert(ma[i as int] != mb[i as int]);
            return false;
        }
        i = i + 1;
    }
    proof {
        assert(ma =~= mb);
    }
    true
}

/// Whether two expressions hold the same.
pub fn same_expr(a: &Expr, b: &Expr) -> (r: bool)
    ensures
        r == (a@ == b@),
    decreases a,
{
    proof {
        lemma_call_model(*a);
        lemma_call_model(*b);
    }
    match (a, b) {
        (Expr::Read { base: x, swizzle: s }, Expr::Read { base: y, swizzle: t }) => {
            same(x.as_str(), y.as_str()) && same_bytes(s.as_slice(), t.as_slice())
        },
        (Expr::Literal { bits: x, domain: s }, Expr::Literal { bits: y, domain: t }) => {
            *s == *t && same_words(x.as_slice(), y.as_slice())
        },
        (Expr::Unary { op: x, value: s }, Expr::Unary { op: y, value: t }) => same(x, y) && same_expr(s, t),
        (Expr::Binary { op: x, left: s, right: u }, Expr::Binary { op: y, left: t, right: v }) => {
            same(x, y) && same_expr(s, t) && same_expr(u, v)
        },
        (Expr::Call { name: x, args: s, width: u }, Expr::Call { name: y, args: t, width: v }) => {
            *u == *v && same(x.as_str(), y.as_str()) && same_exprs(s, t)
        },
        (Expr::Select { cond: x, yes: s, els: u }, Expr::Select { cond: y, yes: t, els: v }) => {
            same_expr(x, y) && same_expr(s, t) && same_expr(u, v)
        },
        (Expr::Swizzle { value: x, swizzle: s }, Expr::Swizzle { value: y, swizzle: t }) => {
            same_expr(x, y) && same_bytes(s.as_slice(), t.as_slice())
        },
        (Expr::Vector(x), Expr::Vector(y)) => same_exprs(x, y),
        _ => false,
    }
}

} // verus!
