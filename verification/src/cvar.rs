//! Expression trees and what flattening one means.

use crate::field::FieldElement;
use vstd::prelude::*;

verus! {

/// A handle to a circuit variable. Two handles name the same variable exactly
/// when they are equal; the number carries no other meaning.
#[derive(Debug, Clone, Copy, PartialEq, Eq, Hash, Structural)]
pub struct VarId(pub usize);

/// A symbolic affine expression.
#[derive(Debug, PartialEq)]
pub enum Cvar {
    /// A fixed scalar.
    Constant(FieldElement),
    /// A reference to a circuit variable.
    Var(VarId),
    /// The sum of two expressions.
    Add(Box<Cvar>, Box<Cvar>),
    /// An expression multiplied by a scalar.
    Scale(FieldElement, Box<Cvar>),
}

/// One entry of a flattened expression: a coefficient and the variable it
/// multiplies.
pub type Term = (FieldElement, VarId);

impl Cvar {
    /// The number of nodes of the tree.
    pub open spec fn size(&self) -> nat
        decreases self,
    {
        match self {
            Cvar::Constant(_) => 1,
            Cvar::Var(_) => 1,
            Cvar::Add(left, right) => 1 + left.size() + right.size(),
            Cvar::Scale(_, inner) => 1 + inner.size(),
        }
    }

    /// The variables at the `Var` leaves of the tree, left to right.
    pub open spec fn variables(&self) -> Seq<VarId>
        decreases self,
    {
        match self {
            Cvar::Constant(_) => Seq::empty(),
            Cvar::Var(v) => seq![*v],
            Cvar::Add(left, right) => left.variables() + right.variables(),
            Cvar::Scale(_, inner) => inner.variables(),
        }
    }

    /// The terms that the tree contributes when everything in it is
    /// multiplied by `scale`: one per `Var` leaf, left to right. A `Scale`
    /// node multiplies its own scalar onto the left of the inherited one.
    pub open spec fn terms_under(&self, scale: FieldElement) -> Seq<Term>
        decreases self,
    {
        match self {
            Cvar::Constant(_) => Seq::empty(),
            Cvar::Var(v) => seq![(scale, *v)],
            Cvar::Add(left, right) => left.terms_under(scale) + right.terms_under(scale),
            Cvar::Scale(s, inner) => inner.terms_under(s.spec_mul(scale)),
        }
    }

    /// The sum of the `Constant` leaves of the tree, each multiplied by the
    /// scale it inherits, when the tree as a whole inherits `scale`.
    pub open spec fn constant_under(&self, scale: FieldElement) -> FieldElement
        decreases self,
    {
        match self {
            Cvar::Constant(c) => scale.spec_mul(*c),
            Cvar::Var(_) => FieldElement::spec_zero(),
            Cvar::Add(left, right) => left.constant_under(scale).spec_add(
                right.constant_under(scale),
            ),
            Cvar::Scale(s, inner) => inner.constant_under(s.spec_mul(scale)),
        }
    }

    /// The value of the expression when each variable has the value that
    /// `assignment` gives it.
    pub open spec fn value(&self, assignment: spec_fn(VarId) -> FieldElement) -> FieldElement
        decreases self,
    {
        match self {
            Cvar::Constant(c) => *c,
            Cvar::Var(v) => assignment(*v),
            Cvar::Add(left, right) => left.value(assignment).spec_add(right.value(assignment)),
            Cvar::Scale(s, inner) => s.spec_mul(inner.value(assignment)),
        }
    }

    /// The ordered terms of the flattened expression.
    pub open spec fn spec_terms(&self) -> Seq<Term> {
        self.terms_under(FieldElement::spec_one())
    }

    /// The constant of the flattened expression, before it is normalised.
    pub open spec fn spec_constant(&self) -> FieldElement {
        self.constant_under(FieldElement::spec_one())
    }

    /// The flattened expression: the constant, absent exactly when it is
    /// zero, and the ordered terms.
    pub open spec fn spec_flatten(&self) -> (Option<FieldElement>, Seq<Term>) {
        (normalized(self.spec_constant()), self.spec_terms())
    }

    pub fn constant(value: FieldElement) -> (r: Self)
        ensures
            r == Cvar::Constant(value),
    {
        Cvar::Constant(value)
    }

    pub fn var(id: VarId) -> (r: Self)
        ensures
            r == Cvar::Var(id),
    {
        Cvar::Var(id)
    }

    pub fn add(self, other: Self) -> (r: Self)
        ensures
            r == Cvar::Add(Box::new(self), Box::new(other)),
    {
        Cvar::Add(Box::new(self), Box::new(other))
    }

    pub fn scale(self, scalar: FieldElement) -> (r: Self)
        ensures
            r == Cvar::Scale(scalar, Box::new(self)),
    {
        Cvar::Scale(scalar, Box::new(self))
    }
}

impl Clone for Cvar {
    fn clone(&self) -> (res: Self)
        ensures
            res == *self,
        decreases self,
    {
        match self {
            Cvar::Constant(c) => Cvar::Constant(*c),
            Cvar::Var(v) => Cvar::Var(*v),
            Cvar::Add(left, right) => Cvar::Add(
                Box::new((&**left).clone()),
                Box::new((&**right).clone()),
            ),
            Cvar::Scale(s, inner) => Cvar::Scale(*s, Box::new((&**inner).clone())),
        }
    }
}

/// The sum of the variables of `vars`, nested to the right:
/// `v0 + (v1 + (v2 + ...))`. Its depth is one less than the number of
/// variables.
pub open spec fn right_chain(vars: Seq<VarId>) -> Cvar
    recommends
        vars.len() > 0,
    decreases vars.len(),
{
    if vars.len() <= 1 {
        Cvar::Var(vars[0])
    } else {
        Cvar::Add(Box::new(Cvar::Var(vars[0])), Box::new(right_chain(vars.drop_first())))
    }
}

/// The value of a list of terms under `assignment`: the sum of the
/// coefficients, each multiplied by the value of its variable.
pub open spec fn terms_value(
    terms: Seq<Term>,
    assignment: spec_fn(VarId) -> FieldElement,
) -> FieldElement
    decreases terms.len(),
{
    if terms.len() == 0 {
        FieldElement::spec_zero()
    } else {
        terms_value(terms.drop_last(), assignment).spec_add(
            terms.last().0.spec_mul(assignment(terms.last().1)),
        )
    }
}

/// The value of a flattened expression under `assignment`: its constant,
/// zero where it is absent, plus the value of its terms.
pub open spec fn linear_value(
    flat: (Option<FieldElement>, Seq<Term>),
    assignment: spec_fn(VarId) -> FieldElement,
) -> FieldElement {
    let constant = match flat.0 {
        Some(c) => c,
        None => FieldElement::spec_zero(),
    };
    constant.spec_add(terms_value(flat.1, assignment))
}

/// A constant as flattening reports it: `None` stands for zero.
pub open spec fn normalized(c: FieldElement) -> Option<FieldElement> {
    if c == FieldElement::spec_zero() {
        None
    } else {
        Some(c)
    }
}

} // verus!
