use cvar_flatten::{Cvar, FieldElement, VarId};

fn sorted_by_variable(mut terms: Vec<(FieldElement, VarId)>) -> Vec<(FieldElement, VarId)> {
    terms.sort_by_key(|t| t.1 .0);
    terms
}

#[test]
fn merging_agrees_with_flattening_on_a_constant() {
    let expr = Cvar::constant(FieldElement(5));
    assert_eq!(expr.to_linear_combination_old(), (Some(FieldElement(5)), vec![]));
    assert_eq!(expr.to_linear_combination_old(), expr.to_constant_and_terms());
}

#[test]
fn merging_agrees_with_flattening_on_a_variable() {
    let expr = Cvar::var(VarId(3));
    assert_eq!(
        expr.to_linear_combination_old(),
        (None, vec![(FieldElement::one(), VarId(3))])
    );
}

#[test]
fn merging_agrees_with_flattening_on_a_scaled_variable() {
    let expr = Cvar::Scale(FieldElement(7), Box::new(Cvar::var(VarId(2))));
    assert_eq!(expr.to_linear_combination_old(), (None, vec![(FieldElement(7), VarId(2))]));
}

#[test]
fn merging_keeps_the_terms_of_distinct_variables() {
    let expr = Cvar::Add(Box::new(Cvar::var(VarId(1))), Box::new(Cvar::var(VarId(2))));
    let exact = expr.to_constant_and_terms();
    let old = expr.to_linear_combination_old();
    assert_eq!(old.0, exact.0);
    assert_eq!(old.1.len(), exact.1.len());
    assert_eq!(
        sorted_by_variable(old.1),
        vec![(FieldElement::one(), VarId(1)), (FieldElement::one(), VarId(2))]
    );
}

#[test]
fn merging_agrees_with_flattening_on_variable_plus_constant() {
    let expr = Cvar::Add(
        Box::new(Cvar::Scale(FieldElement(2), Box::new(Cvar::var(VarId(1))))),
        Box::new(Cvar::Scale(FieldElement(3), Box::new(Cvar::constant(FieldElement(4))))),
    );
    assert_eq!(
        expr.to_linear_combination_old(),
        (Some(FieldElement(12)), vec![(FieldElement(2), VarId(1))])
    );
}

#[test]
fn merging_agrees_with_flattening_on_nested_scales() {
    let expr = Cvar::Scale(
        FieldElement(5),
        Box::new(Cvar::Scale(FieldElement(3), Box::new(Cvar::var(VarId(7))))),
    );
    assert_eq!(expr.to_linear_combination_old(), (None, vec![(FieldElement(15), VarId(7))]));
}

#[test]
fn merging_adds_up_the_coefficients_of_a_repeated_variable() {
    let expr = Cvar::var(VarId(1)).add(Cvar::var(VarId(1)));
    assert_eq!(expr.to_constant_and_terms().1.len(), 2);
    assert_eq!(expr.to_linear_combination_old(), (None, vec![(FieldElement(2), VarId(1))]));
}

#[test]
fn merging_gives_one_term_for_each_variable() {
    // 3*x4 + x9 + 5*x4 + 2*(x9 + x1) + 6
    let expr = Cvar::var(VarId(4))
        .scale(FieldElement(3))
        .add(Cvar::var(VarId(9)))
        .add(Cvar::var(VarId(4)).scale(FieldElement(5)))
        .add(Cvar::var(VarId(9)).add(Cvar::var(VarId(1))).scale(FieldElement(2)))
        .add(Cvar::constant(FieldElement(6)));
    let (constant, terms) = expr.to_linear_combination_old();
    assert_eq!(constant, Some(FieldElement(6)));
    assert_eq!(
        sorted_by_variable(terms),
        vec![
            (FieldElement(2), VarId(1)),
            (FieldElement(8), VarId(4)),
            (FieldElement(3), VarId(9)),
        ]
    );
    assert_eq!(expr.to_constant_and_terms().1.len(), 5);
}

#[test]
fn merging_keeps_a_variable_whose_coefficients_cancel() {
    let expr = Cvar::var(VarId(2)).add(Cvar::var(VarId(2)).scale(-FieldElement::one()));
    let (constant, terms) = expr.to_linear_combination_old();
    assert_eq!(constant, None);
    assert_eq!(terms, vec![(FieldElement(0), VarId(2))]);
}

#[test]
fn merging_has_the_constant_of_flattening() {
    let expr = Cvar::constant(FieldElement(u64::MAX))
        .add(Cvar::var(VarId(0)))
        .add(Cvar::constant(FieldElement(1)));
    assert_eq!(expr.to_constant_and_terms().0, None);
    assert_eq!(expr.to_linear_combination_old().0, None);
}
