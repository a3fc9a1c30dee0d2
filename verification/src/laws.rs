//! What holds of every flattened expression.

use crate::cvar::{linear_value, right_chain, terms_value, Cvar, Term, VarId};
use crate::field::{
    lemma_add_associative, lemma_add_commutative, lemma_add_interchange, lemma_add_zero,
    lemma_mul_associative, lemma_mul_commutative, lemma_mul_distributive, lemma_mul_one,
    FieldElement,
};
use vstd::prelude::*;
use vstd::seq_lib::lemma_seq_union_to_multiset_commutative;

verus! {

/// A constant flattens to itself and no terms; the constant is absent
/// exactly when it is zero.
pub proof fn lemma_flatten_constant(c: FieldElement)
    ensures
        Cvar::Constant(c).spec_flatten() == (
            if c == FieldElement::spec_zero() {
                None
            } else {
                Some(c)
            },
            Seq::<Term>::empty(),
        ),
{
    lemma_mul_one(c);
}

/// A variable flattens to no constant and the variable itself with
/// coefficient one.
pub proof fn lemma_flatten_var(v: VarId)
    ensures
        Cvar::Var(v).spec_flatten() == (
            None::<FieldElement>,
            seq![(FieldElement::spec_one(), v)],
        ),
{
}

/// A scaled variable flattens to the variable with the scalar as
/// coefficient.
pub proof fn lemma_flatten_scaled_var(s: FieldElement, v: VarId)
    ensures
        Cvar::Scale(s, Box::new(Cvar::Var(v))).spec_flatten() == (
            None::<FieldElement>,
            seq![(s, v)],
        ),
{
    lemma_mul_one(s);
    reveal_with_fuel(Cvar::terms_under, 2);
    reveal_with_fuel(Cvar::constant_under, 2);
}

/// The sum of two variables flattens to the two variables, each with
/// coefficient one, the left operand first. This holds also when both are
/// the same variable: its two terms are not merged.
pub proof fn lemma_flatten_sum_of_vars(a: VarId, b: VarId)
    ensures
        Cvar::Add(Box::new(Cvar::Var(a)), Box::new(Cvar::Var(b))).spec_flatten() == (
            None::<FieldElement>,
            seq![(FieldElement::spec_one(), a), (FieldElement::spec_one(), b)],
        ),
{
    let one = FieldElement::spec_one();
    reveal_with_fuel(Cvar::terms_under, 2);
    reveal_with_fuel(Cvar::constant_under, 2);
    lemma_add_zero(FieldElement::spec_zero());
    assert(seq![(one, a)] + seq![(one, b)] =~= seq![(one, a), (one, b)]);
}

/// Nested scalings compose by multiplication: scaling by `s2` and then by
/// `s1` gives the coefficient `s1 * s2`.
pub proof fn lemma_flatten_nested_scale(s1: FieldElement, s2: FieldElement, v: VarId)
    ensures
        Cvar::Scale(s1, Box::new(Cvar::Scale(s2, Box::new(Cvar::Var(v))))).spec_flatten() == (
            None::<FieldElement>,
            seq![(s1.spec_mul(s2), v)],
        ),
{
    lemma_mul_one(s1);
    lemma_mul_commutative(s1, s2);
    reveal_with_fuel(Cvar::terms_under, 3);
    reveal_with_fuel(Cvar::constant_under, 3);
}

/// A sum flattens to the terms of its left operand followed by the terms of
/// its right operand, and to the sum of their constants.
pub proof fn lemma_flatten_sum(left: Cvar, right: Cvar)
    ensures
        Cvar::Add(Box::new(left), Box::new(right)).spec_terms() == left.spec_terms()
            + right.spec_terms(),
        Cvar::Add(Box::new(left), Box::new(right)).spec_constant() == left.spec_constant().spec_add(
            right.spec_constant(),
        ),
{
}

/// Swapping the operands of a sum changes neither the constant nor the terms
/// as a multiset.
pub proof fn lemma_swapped_operands(left: Cvar, right: Cvar)
    ensures
        Cvar::Add(Box::new(left), Box::new(right)).spec_flatten().0 == Cvar::Add(
            Box::new(right),
            Box::new(left),
        ).spec_flatten().0,
        Cvar::Add(Box::new(left), Box::new(right)).spec_terms().to_multiset() == Cvar::Add(
            Box::new(right),
            Box::new(left),
        ).spec_terms().to_multiset(),
{
    lemma_add_commutative(left.spec_constant(), right.spec_constant());
    lemma_seq_union_to_multiset_commutative(left.spec_terms(), right.spec_terms());
}

/// Swapping two distinct variables under a sum changes the list of terms,
/// though not the constant and not the terms as a multiset: the order of the
/// terms is part of the result.
pub proof fn lemma_swapped_vars(a: VarId, b: VarId)
    requires
        a != b,
    ensures
        Cvar::Add(Box::new(Cvar::Var(a)), Box::new(Cvar::Var(b))).spec_flatten().1 != Cvar::Add(
            Box::new(Cvar::Var(b)),
            Box::new(Cvar::Var(a)),
        ).spec_flatten().1,
        Cvar::Add(Box::new(Cvar::Var(a)), Box::new(Cvar::Var(b))).spec_flatten().0 == Cvar::Add(
            Box::new(Cvar::Var(b)),
            Box::new(Cvar::Var(a)),
        ).spec_flatten().0,
        Cvar::Add(Box::new(Cvar::Var(a)), Box::new(Cvar::Var(b))).spec_flatten().1.to_multiset()
            == Cvar::Add(
            Box::new(Cvar::Var(b)),
            Box::new(Cvar::Var(a)),
        ).spec_flatten().1.to_multiset(),
{
    lemma_flatten_sum_of_vars(a, b);
    lemma_flatten_sum_of_vars(b, a);
    lemma_swapped_operands(Cvar::Var(a), Cvar::Var(b));
    let one = FieldElement::spec_one();
    assert(seq![(one, a), (one, b)][0] == (one, a));
    assert(seq![(one, b), (one, a)][0] == (one, b));
}

/// Terms are never merged or dropped: whatever the inherited scale, there is
/// one term for each `Var` leaf, and the terms name the variables of the
/// leaves in left-to-right order.
pub proof fn lemma_terms_follow_leaves(e: Cvar, scale: FieldElement)
    ensures
        e.terms_under(scale).map_values(|t: Term| t.1) == e.variables(),
    decreases e,
{
    let var_of = |t: Term| t.1;
    match e {
        Cvar::Constant(_) => {},
        Cvar::Var(_) => {},
        Cvar::Add(left, right) => {
            lemma_terms_follow_leaves(*left, scale);
            lemma_terms_follow_leaves(*right, scale);
            assert((left.terms_under(scale) + right.terms_under(scale)).map_values(var_of)
                =~= left.terms_under(scale).map_values(var_of) + right.terms_under(
                scale,
            ).map_values(var_of));
        },
        Cvar::Scale(s, inner) => {
            lemma_terms_follow_leaves(*inner, s.spec_mul(scale));
        },
    }
    assert(e.terms_under(scale).map_values(var_of) =~= e.variables());
}

/// The flattened expression has one term for each `Var` leaf, in
/// left-to-right order: a variable that occurs at several leaves has several
/// terms.
pub proof fn lemma_flatten_keeps_every_leaf(e: Cvar)
    ensures
        e.spec_flatten().1.len() == e.variables().len(),
        forall|i: int| 0 <= i < e.variables().len() ==> e.spec_flatten().1[i].1 == e.variables()[i],
{
    lemma_terms_follow_leaves(e, FieldElement::spec_one());
    let mapped = e.spec_terms().map_values(|t: Term| t.1);
    assert forall|i: int| 0 <= i < e.variables().len() implies e.spec_flatten().1[i].1
        == e.variables()[i] by {
        assert(mapped[i] == e.spec_terms()[i].1);
    }
}

/// Inheriting a scale multiplies every coefficient and the constant by it.
pub proof fn lemma_scale_multiplies(e: Cvar, scale: FieldElement)
    ensures
        e.terms_under(scale) == e.spec_terms().map_values(
            |t: Term| (t.0.spec_mul(scale), t.1),
        ),
        e.constant_under(scale) == e.spec_constant().spec_mul(scale),
    decreases e,
{
    let one = FieldElement::spec_one();
    let scaled = |t: Term| (t.0.spec_mul(scale), t.1);
    lemma_mul_one(scale);
    match e {
        Cvar::Constant(c) => {
            lemma_mul_one(c);
            lemma_mul_commutative(scale, c);
        },
        Cvar::Var(_) => {},
        Cvar::Add(left, right) => {
            lemma_scale_multiplies(*left, scale);
            lemma_scale_multiplies(*right, scale);
            assert((left.spec_terms() + right.spec_terms()).map_values(scaled)
                =~= left.spec_terms().map_values(scaled) + right.spec_terms().map_values(scaled));
            lemma_mul_commutative(left.spec_constant().spec_add(right.spec_constant()), scale);
            lemma_mul_distributive(scale, left.spec_constant(), right.spec_constant());
            lemma_mul_commutative(left.spec_constant(), scale);
            lemma_mul_commutative(right.spec_constant(), scale);
        },
        Cvar::Scale(s, inner) => {
            let by_s = |t: Term| (t.0.spec_mul(s), t.1);
            let by_both = |t: Term| (t.0.spec_mul(s.spec_mul(scale)), t.1);
            lemma_mul_one(s);
            lemma_scale_multiplies(*inner, s.spec_mul(scale));
            lemma_scale_multiplies(*inner, s);
            assert(inner.terms_under(s.spec_mul(scale)) == inner.spec_terms().map_values(by_both));
            assert(e.spec_terms() == inner.spec_terms().map_values(by_s));
            assert forall|i: int| 0 <= i < inner.spec_terms().len() implies
                #[trigger] inner.spec_terms().map_values(by_both)[i] == inner.spec_terms().map_values(
                by_s,
            ).map_values(scaled)[i] by {
                lemma_mul_associative(inner.spec_terms()[i].0, s, scale);
            }
            assert(inner.spec_terms().map_values(by_both) =~= inner.spec_terms().map_values(
                by_s,
            ).map_values(scaled));
            lemma_mul_associative(inner.spec_constant(), s, scale);
        },
    }
    assert(e.terms_under(scale) =~= e.spec_terms().map_values(scaled));
}

/// Scaling an expression multiplies every coefficient and the constant of
/// its flattening by the scalar, and keeps the order of the terms.
pub proof fn lemma_flatten_scale(s: FieldElement, e: Cvar)
    ensures
        Cvar::Scale(s, Box::new(e)).spec_terms() == e.spec_terms().map_values(
            |t: Term| (t.0.spec_mul(s), t.1),
        ),
        Cvar::Scale(s, Box::new(e)).spec_constant() == e.spec_constant().spec_mul(s),
{
    lemma_mul_one(s);
    lemma_scale_multiplies(e, s);
}

/// A chain of sums nested to the right, however deep, flattens to its
/// variables in the order in which they stand, each with coefficient one,
/// and to no constant.
pub proof fn lemma_flatten_right_chain(vars: Seq<VarId>)
    requires
        vars.len() > 0,
    ensures
        right_chain(vars).spec_flatten() == (
            None::<FieldElement>,
            vars.map_values(|v: VarId| (FieldElement::spec_one(), v)),
        ),
    decreases vars.len(),
{
    let with_one = |v: VarId| (FieldElement::spec_one(), v);
    if vars.len() > 1 {
        let rest = vars.drop_first();
        lemma_flatten_right_chain(rest);
        lemma_add_zero(FieldElement::spec_zero());
        reveal_with_fuel(Cvar::terms_under, 2);
        reveal_with_fuel(Cvar::constant_under, 2);
        assert(seq![(FieldElement::spec_one(), vars[0])] + rest.map_values(with_one)
            =~= vars.map_values(with_one));
    } else {
        assert(seq![(FieldElement::spec_one(), vars[0])] =~= vars.map_values(with_one));
    }
}

/// The value of two lists of terms, one after the other, is the sum of
/// their values.
pub proof fn lemma_terms_value_concat(
    first: Seq<Term>,
    second: Seq<Term>,
    assignment: spec_fn(VarId) -> FieldElement,
)
    ensures
        terms_value(first + second, assignment) == terms_value(first, assignment).spec_add(
            terms_value(second, assignment),
        ),
    decreases second.len(),
{
    if second.len() == 0 {
        assert(first + second =~= first);
        lemma_add_zero(terms_value(first, assignment));
    } else {
        assert((first + second).drop_last() =~= first + second.drop_last());
        lemma_terms_value_concat(first, second.drop_last(), assignment);
        lemma_add_associative(
            terms_value(first, assignment),
            terms_value(second.drop_last(), assignment),
            second.last().0.spec_mul(assignment(second.last().1)),
        );
    }
}

/// What a tree contributes under an inherited scale has the value of the
/// tree multiplied by that scale.
proof fn lemma_contribution_value(
    e: Cvar,
    scale: FieldElement,
    assignment: spec_fn(VarId) -> FieldElement,
)
    ensures
        e.constant_under(scale).spec_add(terms_value(e.terms_under(scale), assignment))
            == scale.spec_mul(e.value(assignment)),
    decreases e,
{
    match e {
        Cvar::Constant(c) => {
            lemma_add_zero(scale.spec_mul(c));
        },
        Cvar::Var(v) => {
            let only = seq![(scale, v)];
            assert(only.drop_last() =~= Seq::<Term>::empty());
            assert(terms_value(Seq::<Term>::empty(), assignment) == FieldElement::spec_zero());
            lemma_add_zero(scale.spec_mul(assignment(v)));
        },
        Cvar::Add(left, right) => {
            lemma_contribution_value(*left, scale, assignment);
            lemma_contribution_value(*right, scale, assignment);
            lemma_terms_value_concat(
                left.terms_under(scale),
                right.terms_under(scale),
                assignment,
            );
            let cl = left.constant_under(scale);
            let cr = right.constant_under(scale);
            let tl = terms_value(left.terms_under(scale), assignment);
            let tr = terms_value(right.terms_under(scale), assignment);
            lemma_add_interchange(cl, cr, tl, tr);
            lemma_mul_distributive(scale, left.value(assignment), right.value(assignment));
        },
        Cvar::Scale(s, inner) => {
            lemma_contribution_value(*inner, s.spec_mul(scale), assignment);
            lemma_mul_associative(s, scale, inner.value(assignment));
            lemma_mul_commutative(s, scale);
            lemma_mul_associative(scale, s, inner.value(assignment));
        },
    }
}

/// Flattening preserves the value: under every assignment of the variables
/// the flattened expression has the value of the tree.
pub proof fn lemma_flatten_preserves_value(e: Cvar, assignment: spec_fn(VarId) -> FieldElement)
    ensures
        linear_value(e.spec_flatten(), assignment) == e.value(assignment),
{
    lemma_contribution_value(e, FieldElement::spec_one(), assignment);
    lemma_mul_one(e.value(assignment));
}

} // verus!
