//! The flattening engine: one pass over the tree with an explicit stack of
//! subtrees that are still to be visited, so that the depth of the tree
//! costs heap and not call stack.

use crate::cvar::{Cvar, Term};
use crate::field::{lemma_add_associative, lemma_add_zero, FieldElement};
use vstd::prelude::*;

verus! {

/// The terms that the subtrees on the stack will contribute, the top of the
/// stack (its last entry) first.
spec fn pending_terms(stack: Seq<(&Cvar, FieldElement)>) -> Seq<Term>
    decreases stack.len(),
{
    if stack.len() == 0 {
        Seq::empty()
    } else {
        stack.last().0.terms_under(stack.last().1) + pending_terms(stack.drop_last())
    }
}

/// The constant that the subtrees on the stack will contribute.
spec fn pending_constant(stack: Seq<(&Cvar, FieldElement)>) -> FieldElement
    decreases stack.len(),
{
    if stack.len() == 0 {
        FieldElement::spec_zero()
    } else {
        stack.last().0.constant_under(stack.last().1).spec_add(
            pending_constant(stack.drop_last()),
        )
    }
}

/// The number of nodes that are still to be visited.
spec fn pending_size(stack: Seq<(&Cvar, FieldElement)>) -> nat
    decreases stack.len(),
{
    if stack.len() == 0 {
        0
    } else {
        stack.last().0.size() + pending_size(stack.drop_last())
    }
}

/// Pushing an entry puts its contribution in front of what was pending.
proof fn lemma_pending_push(stack: Seq<(&Cvar, FieldElement)>, node: &Cvar, scale: FieldElement)
    ensures
        pending_terms(stack.push((node, scale))) == node.terms_under(scale) + pending_terms(stack),
        pending_constant(stack.push((node, scale))) == node.constant_under(scale).spec_add(
            pending_constant(stack),
        ),
        pending_size(stack.push((node, scale))) == node.size() + pending_size(stack),
{
    assert(stack.push((node, scale)).drop_last() =~= stack);
}

/// Visits `cvar` under the inherited `scale`, adding what it contributes to
/// the running `constant` and to the end of `terms`.
pub fn walk(scale: FieldElement, constant: FieldElement, terms: Vec<Term>, cvar: &Cvar) -> (r: (
    FieldElement,
    Vec<Term>,
))
    ensures
        r.0 == constant.spec_add(cvar.constant_under(scale)),
        r.1@ == terms@ + cvar.terms_under(scale),
{
    let mut constant = constant;
    let mut terms = terms;
    let mut pending: Vec<(&Cvar, FieldElement)> = Vec::new();
    pending.push((cvar, scale));
    proof {
        lemma_pending_push(Seq::empty(), cvar, scale);
        lemma_add_zero(cvar.constant_under(scale));
        assert(Seq::<(&Cvar, FieldElement)>::empty().push((cvar, scale)) =~= pending@);
    }
    let ghost constant0 = constant;
    let ghost terms0 = terms@;
    while pending.len() > 0
        invariant
            constant0.spec_add(cvar.constant_under(scale)) == constant.spec_add(
                pending_constant(pending@),
            ),
            terms0 + cvar.terms_under(scale) == terms@ + pending_terms(pending@),
        decreases pending_size(pending@),
    {
        let ghost rest = pending@.drop_last();
        let (node, inherited) = pending.pop().unwrap();
        assert(pending@ == rest);
        let ghost rest_constant = pending_constant(rest);
        match node {
            Cvar::Constant(c) => {
                proof {
                    lemma_add_associative(constant, inherited.spec_mul(*c), rest_constant);
                }
                constant = constant + inherited * *c;
            },
            Cvar::Var(v) => {
                proof {
                    lemma_add_zero(rest_constant);
                    assert(terms@.push((inherited, *v)) + pending_terms(rest) =~= terms@ + (
                    seq![(inherited, *v)] + pending_terms(rest)));
                }
                terms.push((inherited, *v));
            },
            Cvar::Scale(s, inner) => {
                proof {
                    lemma_pending_push(rest, &**inner, s.spec_mul(inherited));
                }
                pending.push((&**inner, *s * inherited));
            },
            Cvar::Add(left, right) => {
                proof {
                    lemma_pending_push(rest, &**right, inherited);
                    lemma_pending_push(rest.push((&**right, inherited)), &**left, inherited);
                    lemma_add_associative(
                        left.constant_under(inherited),
                        right.constant_under(inherited),
                        rest_constant,
                    );
                    assert((left.terms_under(inherited) + right.terms_under(inherited))
                        + pending_terms(rest) =~= left.terms_under(inherited) + (
                    right.terms_under(inherited) + pending_terms(rest)));
                }
                pending.push((&**right, inherited));
                pending.push((&**left, inherited));
            },
        }
    }
    proof {
        lemma_add_zero(constant);
        assert(terms@ + Seq::<Term>::empty() =~= terms@);
    }
    (constant, terms)
}

impl Cvar {
    /// Flattens the expression into its constant, absent exactly when it is
    /// zero, and its terms: one for each `Var` leaf, in left-to-right order,
    /// with the product of the scalars above the leaf as coefficient. Terms
    /// of one variable are not merged.
    pub fn to_constant_and_terms(&self) -> (r: (Option<FieldElement>, Vec<Term>))
        ensures
            r.0 == self.spec_flatten().0,
            r.1@ == self.spec_flatten().1,
    {
        let one = FieldElement::one();
        let zero = FieldElement::zero();
        let empty_terms: Vec<Term> = Vec::new();
        let (c, ts) = walk(one, zero, empty_terms, self);
        proof {
            lemma_add_zero(self.spec_constant());
            assert(Seq::<Term>::empty() + self.spec_terms() =~= self.spec_terms());
        }
        let constant_option = if c.is_zero() {
            None
        } else {
            Some(c)
        };
        (constant_option, ts)
    }
}

} // verus!
