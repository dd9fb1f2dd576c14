//! Idioms.
use d3dasm::hlsl::expr::{binary, call, unary, Domain, Expr};
use d3dasm::hlsl::idiom::simplify;

#[test]
fn masking_with_all_ones_says_nothing() {
    let held = Expr::Read {
        base: "r1".to_owned(),
        swizzle: vec![0],
    };
    let ones = Expr::Literal {
        bits: vec![u32::MAX],
        domain: Domain::Uint,
    };
    let masked = Expr::Binary {
        op: "&",
        left: Box::new(held.clone()),
        right: Box::new(ones),
    };
    assert_eq!(simplify(masked, true).text(), held.text());
}

fn read(base: &str, swizzle: &[u8]) -> Expr {
    Expr::Read {
        base: base.to_owned(),
        swizzle: swizzle.to_vec(),
    }
}

fn float(value: f32, lanes: usize) -> Expr {
    Expr::Literal {
        bits: vec![value.to_bits(); lanes],
        domain: Domain::Float,
    }
}

#[test]
fn adding_a_negative_constant_subtracts_it() {
    let expr = binary("+", read("r0", &[0]), float(-1.0, 1));
    assert_eq!(simplify(expr, false).text(), "r0.x - 1.0");
}

#[test]
fn a_sign_inside_a_product_comes_out_of_it() {
    let expr = binary(
        "+",
        binary("*", read("r0", &[0]), float(-2.0, 1)),
        float(1.5, 1),
    );
    assert_eq!(simplify(expr, false).text(), "1.5 - r0.x * 2.0");
}

#[test]
fn a_log_scaled_and_exponentiated_is_a_power() {
    let expr = call(
        "exp2",
        vec![binary(
            "*",
            call("log2", vec![read("r0", &[0])], 1),
            read("r1", &[1]),
        )],
        1,
    );
    assert_eq!(simplify(expr, false).text(), "pow(r0.x, r1.y)");
}

#[test]
fn a_vector_over_its_own_length_normalises() {
    let vector = read("r0", &[0, 1, 2]);
    let expr = binary(
        "*",
        vector.clone(),
        call(
            "rsqrt",
            vec![call("dot", vec![vector.clone(), vector], 1)],
            1,
        ),
    );
    assert_eq!(simplify(expr, false).text(), "normalize(r0.xyz)");
}

/// The whole precondition: scaling one vector by another's reciprocal length is not normalising.
#[test]
fn a_different_vector_does_not_normalise() {
    let other = read("r1", &[0, 1, 2]);
    let expr = binary(
        "*",
        read("r0", &[0, 1, 2]),
        call("rsqrt", vec![call("dot", vec![other.clone(), other], 1)], 1),
    );
    assert!(!simplify(expr, false).text().contains("normalize"));
}

#[test]
fn a_square_root_of_a_self_dot_is_a_length() {
    let vector = read("r0", &[0, 1, 2]);
    let expr = call(
        "sqrt",
        vec![call("dot", vec![vector.clone(), vector], 1)],
        1,
    );
    assert_eq!(simplify(expr, false).text(), "length(r0.xyz)");
}

#[test]
fn a_difference_scaled_and_added_back_interpolates() {
    let from = read("r0", &[0]);
    let to = read("r1", &[0]);
    let expr = binary(
        "+",
        binary("*", binary("-", to, from.clone()), read("r2", &[0])),
        from,
    );
    assert_eq!(simplify(expr, false).text(), "lerp(r0.x, r1.x, r2.x)");
}

#[test]
fn a_masked_value_becomes_the_choice_it_stood_for() {
    let cond = binary("<", read("r0", &[0]), float(0.0, 1));
    let mask = Expr::Select {
        cond: Box::new(cond),
        yes: Box::new(Expr::Literal {
            bits: vec![u32::MAX],
            domain: Domain::Uint,
        }),
        els: Box::new(Expr::Literal {
            bits: vec![0],
            domain: Domain::Uint,
        }),
    };
    let expr = call(
        "asfloat",
        vec![binary("&", call("asuint", vec![read("r1", &[3])], 1), mask)],
        1,
    );
    assert_eq!(simplify(expr, false).text(), "r0.x < 0.0 ? r1.w : 0.0");
}

#[test]
fn a_bounded_value_clamps() {
    let expr = call(
        "min",
        vec![
            call("max", vec![read("r0", &[0]), float(0.0, 1)], 1),
            float(1.0, 1),
        ],
        1,
    );
    assert_eq!(simplify(expr, false).text(), "saturate(r0.x)");
}

#[test]
fn a_repeated_component_collapses_against_a_wider_side() {
    let read = |base: &str, swizzle: &[u8]| Expr::Read {
        base: base.to_owned(),
        swizzle: swizzle.to_vec(),
    };
    let product = binary("*", read("r2", &[0, 0, 0]), read("r3", &[0, 1, 2]));
    assert_eq!(simplify(product, false).text(), "r2.x * r3.xyz");
    let signed = binary(
        "*",
        unary("-", read("r2", &[0, 0, 0])),
        read("r3", &[0, 1, 2]),
    );
    assert_eq!(simplify(signed, false).text(), "-(r2.x * r3.xyz)");
    let sum = binary(
        "+",
        read("r0", &[1, 2, 3]),
        binary(
            "*",
            unary("-", read("r2", &[0, 0, 0])),
            read("r3", &[0, 1, 2]),
        ),
    );
    assert_eq!(simplify(sum, false).text(), "r0.yzw - r2.x * r3.xyz");
}

/// A weight that is only ever one or nought is not a weight, and the interpolation it drives is
/// the choice the machine had no branch to spare for.
#[test]
fn interpolating_by_one_or_nought_is_a_choice() {
    let read = |base: &str| Expr::Read {
        base: base.to_owned(),
        swizzle: Vec::new(),
    };
    let pick = Expr::Select {
        cond: Box::new(read("held")),
        yes: Box::new(Expr::Literal {
            bits: vec![1f32.to_bits()],
            domain: Domain::Float,
        }),
        els: Box::new(Expr::Literal {
            bits: vec![0],
            domain: Domain::Float,
        }),
    };
    let held = call("lerp", vec![read("a"), read("b"), pick.clone()], 4);
    assert_eq!(simplify(held, false).text(), "held ? b : a");
    // A weight that is anything else stays an interpolation.
    let open = call("lerp", vec![read("a"), read("b"), read("t")], 4);
    assert_eq!(simplify(open, false).text(), "lerp(a, b, t)");
}

/// Scaling the distance between two values by nought or one and adding the nearer back is how
/// the machine chooses between them without a branch.
#[test]
fn scaling_a_difference_by_a_choice_is_the_choice() {
    let read = |base: &str| Expr::Read {
        base: base.to_owned(),
        swizzle: Vec::new(),
    };
    let pick = Expr::Select {
        cond: Box::new(read("held")),
        yes: Box::new(Expr::Literal {
            bits: vec![1f32.to_bits()],
            domain: Domain::Float,
        }),
        els: Box::new(Expr::Literal {
            bits: vec![0],
            domain: Domain::Float,
        }),
    };
    // mask * (a - b) + b is a choice between a and b, with the difference cancelling.
    let whole = binary(
        "+",
        binary("*", pick.clone(), binary("-", read("a"), read("b"))),
        read("b"),
    );
    assert_eq!(simplify(whole, false).text(), "held ? a : b");
    // Anything else scaled by it is that plus what it was added to, or just that.
    let part = binary("+", binary("*", pick, read("a")), read("b"));
    assert_eq!(simplify(part, false).text(), "held ? a + b : b");
}

/// One condition repeated to the width of the arms is one condition, and the language spells that
/// as a conditional rather than as a per-component call.
#[test]
fn a_repeated_condition_makes_a_conditional_not_a_call() {
    let held = Expr::Select {
        cond: Box::new(Expr::Read {
            base: "r0".to_owned(),
            swizzle: vec![3, 3, 3],
        }),
        yes: Box::new(Expr::Read {
            base: "a".to_owned(),
            swizzle: vec![0, 1, 2],
        }),
        els: Box::new(Expr::Read {
            base: "b".to_owned(),
            swizzle: vec![0, 1, 2],
        }),
    };
    assert_eq!(simplify(held, false).text(), "r0.w ? a.xyz : b.xyz");
    // Components that really differ stay a per-component choice.
    let apart = Expr::Select {
        cond: Box::new(Expr::Read {
            base: "r0".to_owned(),
            swizzle: vec![0, 1, 2],
        }),
        yes: Box::new(Expr::Read {
            base: "a".to_owned(),
            swizzle: vec![0, 1, 2],
        }),
        els: Box::new(Expr::Read {
            base: "b".to_owned(),
            swizzle: vec![0, 1, 2],
        }),
    };
    assert_eq!(
        simplify(apart, false).text(),
        "select(r0.xyz, a.xyz, b.xyz)"
    );
}

/// A raw buffer read narrowed to its leading components is a narrower read, and the language has
/// one for each width.
#[test]
fn a_raw_load_narrowed_is_a_narrower_load() {
    let load = call(
        "g_Data.Load4",
        vec![Expr::Read {
            base: "off".to_owned(),
            swizzle: Vec::new(),
        }],
        4,
    );
    assert_eq!(
        simplify(load.clone().select(&[0]), false).text(),
        "g_Data.Load(off)"
    );
    assert_eq!(
        simplify(load.clone().select(&[0, 1]), false).text(),
        "g_Data.Load2(off)"
    );
    assert_eq!(
        simplify(load.clone().select(&[0, 1, 2]), false).text(),
        "g_Data.Load3(off)"
    );
    // Taking the whole of it, or components out of order, is not a narrower read.
    assert_eq!(simplify(load.clone(), false).text(), "g_Data.Load4(off)");
    assert_eq!(
        simplify(load.select(&[1, 2]), false).text(),
        "g_Data.Load4(off).yz"
    );
}
