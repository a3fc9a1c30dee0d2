use cvar_flatten::{Cvar, FieldElement, VarId};

fn assignment(v: &VarId) -> FieldElement {
    FieldElement(0x9e37_79b9_7f4a_7c15u64.wrapping_mul(v.0 as u64 + 1))
}

fn value_of(expr: &Cvar) -> FieldElement {
    match expr {
        Cvar::Constant(c) => *c,
        Cvar::Var(v) => assignment(v),
        Cvar::Add(left, right) => value_of(left) + value_of(right),
        Cvar::Scale(s, inner) => *s * value_of(inner),
    }
}

fn value_of_flat(flat: &(Option<FieldElement>, Vec<(FieldElement, VarId)>)) -> FieldElement {
    let mut sum = match flat.0 {
        Some(c) => c,
        None => FieldElement::zero(),
    };
    for (coefficient, v) in flat.1.iter() {
        sum = sum + *coefficient * assignment(v);
    }
    sum
}

fn sample() -> Cvar {
    // 7 * (x0 + 3 * (x1 + 5) + x0) + (2^64 - 1) * x2 + 9
    let inner = Cvar::var(VarId(1)).add(Cvar::constant(FieldElement(5))).scale(FieldElement(3));
    Cvar::var(VarId(0))
        .add(inner)
        .add(Cvar::var(VarId(0)))
        .scale(FieldElement(7))
        .add(Cvar::var(VarId(2)).scale(FieldElement(u64::MAX)))
        .add(Cvar::constant(FieldElement(9)))
}

#[test]
fn flattening_preserves_the_value() {
    let expr = sample();
    let flat = expr.to_constant_and_terms();
    assert_eq!(flat.0, Some(FieldElement(7 * 3 * 5 + 9)));
    assert_eq!(
        flat.1,
        vec![
            (FieldElement(7), VarId(0)),
            (FieldElement(21), VarId(1)),
            (FieldElement(7), VarId(0)),
            (FieldElement(u64::MAX), VarId(2)),
        ]
    );
    assert_eq!(value_of_flat(&flat), value_of(&expr));
}

#[test]
fn merging_preserves_the_value() {
    let expr = sample();
    let merged = expr.to_linear_combination_old();
    assert_eq!(merged.1.len(), 3);
    assert_eq!(value_of_flat(&merged), value_of(&expr));
    assert_eq!(value_of_flat(&merged), value_of_flat(&expr.to_constant_and_terms()));
}

#[test]
fn scaling_multiplies_constant_and_coefficients() {
    let expr = sample();
    let s = FieldElement(0x1234_5678_9abc_def1);
    let (constant, terms) = expr.to_constant_and_terms();
    let (scaled_constant, scaled_terms) = expr.clone().scale(s).to_constant_and_terms();
    assert_eq!(scaled_constant, Some(constant.unwrap() * s));
    let expected: Vec<(FieldElement, VarId)> = terms.iter().map(|t| (t.0 * s, t.1)).collect();
    assert_eq!(scaled_terms, expected);
}

#[test]
fn terms_name_the_variables_of_the_leaves_in_order() {
    let (_, terms) = sample().to_constant_and_terms();
    let variables: Vec<usize> = terms.iter().map(|t| t.1 .0).collect();
    assert_eq!(variables, vec![0, 1, 0, 2]);
}
