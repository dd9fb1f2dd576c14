//! Expressions.
use d3dasm::hlsl::expr::{call, coerce, literal, Domain, Expr};

fn read(base: &str, swizzle: &[u8]) -> Expr {
    Expr::Read {
        base: base.to_owned(),
        swizzle: swizzle.to_vec(),
    }
}

#[test]
fn narrowing_reaches_the_leaves() {
    let sum = Expr::Binary {
        op: "+",
        left: Box::new(read("r0", &[0, 1, 2])),
        right: Box::new(read("r1", &[3, 3, 3])),
    };
    assert_eq!(sum.select(&[0, 2]).text(), "r0.xz + r1.ww");
}

#[test]
fn a_minus_on_a_negative_value_is_not_a_decrement() {
    let negate = |value| Expr::Unary {
        op: "-",
        value: Box::new(value),
    };
    assert_eq!(negate(negate(read("r0", &[0]))).text(), "-(-r0.x)");
    assert_eq!(
        negate(Expr::Literal {
            bits: vec![(-1.0f32).to_bits()],
            domain: Domain::Float,
        })
        .text(),
        "-(-1.0)"
    );
}

#[test]
fn narrowing_a_call_stays_outside_it() {
    let sample = call("t0.Sample", vec![read("v1", &[0, 1])], 4);
    assert_eq!(sample.select(&[2]).text(), "t0.Sample(v1.xy).z");
}

#[test]
fn a_scalar_broadcasts_rather_than_narrowing() {
    let dot = call("dot", vec![read("r0", &[0, 1, 2])], 1);
    assert_eq!(dot.select(&[1, 1]).text(), "dot(r0.xyz)");
}

#[test]
fn brackets_follow_binding_strength() {
    let inner = Expr::Binary {
        op: "+",
        left: Box::new(read("a", &[0])),
        right: Box::new(read("b", &[0])),
    };
    let outer = Expr::Binary {
        op: "*",
        left: Box::new(inner.clone()),
        right: Box::new(read("c", &[0])),
    };
    assert_eq!(outer.text(), "(a.x + b.x) * c.x");
    let flat = Expr::Binary {
        op: "+",
        left: Box::new(inner),
        right: Box::new(read("c", &[0])),
    };
    assert_eq!(flat.text(), "a.x + b.x + c.x");
}

/// Subtraction and division do not reassociate, so a right operand of the same strength keeps
/// its brackets where an addition would drop them.
#[test]
fn the_right_of_a_subtraction_keeps_its_brackets() {
    let inner = Expr::Binary {
        op: "-",
        left: Box::new(read("b", &[0])),
        right: Box::new(read("c", &[0])),
    };
    let outer = Expr::Binary {
        op: "-",
        left: Box::new(read("a", &[0])),
        right: Box::new(inner),
    };
    assert_eq!(outer.text(), "a.x - (b.x - c.x)");
}

#[test]
fn constants_collapse_when_every_lane_agrees() {
    let same = Expr::Literal {
        bits: vec![0.5f32.to_bits(); 4],
        domain: Domain::Float,
    };
    assert_eq!(same.text(), "0.5");
    let mixed = Expr::Literal {
        bits: vec![0, 1f32.to_bits()],
        domain: Domain::Float,
    };
    assert_eq!(mixed.text(), "float2(0.0, 1.0)");
}

#[test]
fn a_mask_taken_as_bits_spells_itself_out() {
    let mask = Expr::Binary {
        op: "<",
        left: Box::new(read("r0", &[0])),
        right: Box::new(read("r1", &[0])),
    };
    assert_eq!(
        coerce(mask, Domain::Bool, Domain::Uint).text(),
        "r0.x < r1.x ? 0xffffffffu : 0u"
    );
}

/// A constant that is exactly a small fraction says more as the division that made it, but only
/// where the decimal was the worse of the two: three sixths is a half.
#[test]
fn a_constant_that_is_a_fraction_is_written_as_one() {
    let render = |value: f32| literal(&[value.to_bits()], Domain::Float);
    assert_eq!(render(1.0 / 255.0), "(1.0 / 255.0)");
    assert_eq!(render(254.0 / 255.0), "(254.0 / 255.0)");
    assert_eq!(render(1.0 / 3.0), "(1.0 / 3.0)");
    assert_eq!(render(0.5), "0.5");
    assert_eq!(render(0.25), "0.25");
    assert_eq!(render(2.0), "2.0");
    // Near enough is a different number, and saying otherwise would misstate the shader.
    assert_eq!(render(0.0039), "0.0039");
}
