//! The merging alternative to flattening: the coefficients of one variable
//! are added up, and the order of the terms is given up.

use crate::cvar::{terms_value, Cvar, Term, VarId};
use crate::field::{
    lemma_add_associative, lemma_add_commutative, lemma_add_zero, lemma_mul_commutative,
    lemma_mul_distributive, FieldElement,
};
use crate::laws::lemma_terms_value_concat;
use std::collections::HashMap;
use vstd::prelude::*;
use vstd::seq_lib::seq_to_set_is_finite;
use vstd::set_lib::lemma_len_subset;
use vstd::std_specs::hash::spec_hash_map_iter;
use vstd::std_specs::iter::IteratorSpec;

verus! {

broadcast use vstd::std_specs::hash::group_hash_axioms;

/// The variables that occur in `terms`.
pub open spec fn occurring(terms: Seq<Term>) -> Set<VarId> {
    Set::new(|v: VarId| exists|i: int| 0 <= i < terms.len() && terms[i].1 == v)
}

/// The sum of the coefficients of the terms of `v`, added up from the
/// first to the last; zero where `v` does not occur.
pub open spec fn coefficient_sum(terms: Seq<Term>, v: VarId) -> FieldElement
    decreases terms.len(),
{
    if terms.len() == 0 {
        FieldElement::spec_zero()
    } else if terms.last().1 == v {
        coefficient_sum(terms.drop_last(), v).spec_add(terms.last().0)
    } else {
        coefficient_sum(terms.drop_last(), v)
    }
}

/// The merged terms: for each variable that occurs in `terms` one term,
/// whose coefficient is the sum of the variable's coefficients.
pub open spec fn merged(terms: Seq<Term>) -> Set<Term> {
    Set::new(|t: Term| occurring(terms).contains(t.1) && t.0 == coefficient_sum(terms, t.1))
}

/// The coefficients of a variable that does not occur sum to zero.
proof fn lemma_sum_of_absent(terms: Seq<Term>, v: VarId)
    requires
        !occurring(terms).contains(v),
    ensures
        coefficient_sum(terms, v) == FieldElement::spec_zero(),
    decreases terms.len(),
{
    if terms.len() > 0 {
        assert(terms[terms.len() - 1].1 != v);
        assert forall|i: int| 0 <= i < terms.drop_last().len() implies terms.drop_last()[i].1
            != v by {
            assert(terms[i].1 != v);
        }
        lemma_sum_of_absent(terms.drop_last(), v);
    }
}

/// Of every list that holds the merged terms of `terms`, each once: no
/// variable has two terms in it, its variables are those of `terms`, and it
/// is no longer than `terms`.
pub proof fn lemma_merged_list(out: Seq<Term>, terms: Seq<Term>)
    requires
        out.no_duplicates(),
        out.to_set() == merged(terms),
    ensures
        forall|i: int, j: int| 0 <= i < j < out.len() ==> out[i].1 != out[j].1,
        occurring(out) == occurring(terms),
        out.len() <= terms.len(),
{
    let var_of = |t: Term| t.1;
    let out_vars = out.map_values(var_of);
    let term_vars = terms.map_values(var_of);
    assert forall|i: int, j: int| 0 <= i < j < out.len() implies out[i].1 != out[j].1 by {
        assert(out.to_set().contains(out[i]));
        assert(out.to_set().contains(out[j]));
        assert(merged(terms).contains(out[i]));
        assert(merged(terms).contains(out[j]));
        assert(out[i] != out[j]);
    }
    assert forall|v: VarId| occurring(out).contains(v) <==> occurring(terms).contains(v) by {
        if occurring(out).contains(v) {
            let j = choose|j: int| 0 <= j < out.len() && out[j].1 == v;
            assert(out.to_set().contains(out[j]));
            assert(merged(terms).contains(out[j]));
        }
        if occurring(terms).contains(v) {
            let t = (coefficient_sum(terms, v), v);
            assert(merged(terms).contains(t));
            assert(out.to_set().contains(t));
            let j = choose|j: int| 0 <= j < out.len() && out[j] == t;
            assert(out[j].1 == v);
        }
    }
    assert(occurring(out) =~= occurring(terms));
    assert(out_vars.no_duplicates());
    assert forall|v: VarId| out_vars.to_set().contains(v) implies term_vars.to_set().contains(
        v,
    ) by {
        let j = choose|j: int| 0 <= j < out_vars.len() && out_vars[j] == v;
        assert(out.to_set().contains(out[j]));
        assert(merged(terms).contains(out[j]));
        assert(occurring(terms).contains(v));
        let i = choose|i: int| 0 <= i < terms.len() && terms[i].1 == v;
        assert(term_vars[i] == v);
    }
    out_vars.unique_seq_to_set();
    term_vars.lemma_cardinality_of_set();
    seq_to_set_is_finite(term_vars);
    lemma_len_subset(out_vars.to_set(), term_vars.to_set());
}

/// `out` has one term for each variable of `terms`, with the sum of the
/// variable's coefficients, and no others.
spec fn is_merging(out: Seq<Term>, terms: Seq<Term>) -> bool {
    &&& forall|i: int, j: int| 0 <= i < j < out.len() ==> out[i].1 != out[j].1
    &&& forall|i: int|
        #![trigger out[i]]
        0 <= i < out.len() ==> occurring(terms).contains(out[i].1) && out[i].0 == coefficient_sum(
            terms,
            out[i].1,
        )
    &&& forall|v: VarId| occurring(terms).contains(v) ==> occurring(out).contains(v)
}

/// The value of a list of terms is the value of one of them plus the value
/// of the others.
proof fn lemma_terms_value_without(
    terms: Seq<Term>,
    j: int,
    assignment: spec_fn(VarId) -> FieldElement,
)
    requires
        0 <= j < terms.len(),
    ensures
        terms_value(terms, assignment) == terms_value(terms.remove(j), assignment).spec_add(
            terms[j].0.spec_mul(assignment(terms[j].1)),
        ),
{
    let before = terms.take(j);
    let one = seq![terms[j]];
    let after = terms.skip(j + 1);
    let x = terms[j].0.spec_mul(assignment(terms[j].1));
    assert(terms =~= (before + one) + after);
    assert(terms.remove(j) =~= before + after);
    assert(one.drop_last() =~= Seq::<Term>::empty());
    assert(terms_value(Seq::<Term>::empty(), assignment) == FieldElement::spec_zero());
    lemma_add_zero(x);
    assert(terms_value(one, assignment) == x);
    lemma_terms_value_concat(before, one, assignment);
    lemma_terms_value_concat(before + one, after, assignment);
    lemma_terms_value_concat(before, after, assignment);
    let b = terms_value(before, assignment);
    let a = terms_value(after, assignment);
    lemma_add_associative(b, x, a);
    lemma_add_commutative(x, a);
    lemma_add_associative(b, a, x);
}

/// A variable occurs in a list exactly if it occurs before the last term or
/// is the variable of the last term.
proof fn lemma_occurring_last(terms: Seq<Term>, v: VarId)
    requires
        terms.len() > 0,
    ensures
        occurring(terms).contains(v) <==> terms.last().1 == v || occurring(
            terms.drop_last(),
        ).contains(v),
{
    let rest = terms.drop_last();
    if occurring(rest).contains(v) {
        let i = choose|i: int| 0 <= i < rest.len() && rest[i].1 == v;
        assert(terms[i].1 == v);
    }
    if terms.last().1 == v {
        assert(terms[terms.len() - 1].1 == v);
    }
    if occurring(terms).contains(v) && terms.last().1 != v {
        let i = choose|i: int| 0 <= i < terms.len() && terms[i].1 == v;
        assert(rest[i].1 == v);
    }
}

/// A merging of `terms` has the value of `terms`: by induction on `terms`,
/// taking the last term out of both.
proof fn lemma_merging_value(
    out: Seq<Term>,
    terms: Seq<Term>,
    assignment: spec_fn(VarId) -> FieldElement,
)
    requires
        is_merging(out, terms),
    ensures
        terms_value(out, assignment) == terms_value(terms, assignment),
    decreases terms.len(),
{
    if terms.len() == 0 {
        if out.len() > 0 {
            assert(occurring(terms).contains(out[0].1));
        }
    } else {
        let c = terms.last().0;
        let v = terms.last().1;
        let x = assignment(v);
        let rest = terms.drop_last();
        lemma_occurring_last(terms, v);
        assert(occurring(out).contains(v));
        let j = choose|j: int| 0 <= j < out.len() && out[j].1 == v;
        let others = out.remove(j);
        let before = coefficient_sum(rest, v);
        assert(out[j].0 == before.spec_add(c));
        lemma_terms_value_without(out, j, assignment);
        if occurring(rest).contains(v) {
            let changed = out.update(j, (before, v));
            assert(changed.remove(j) =~= others);
            assert forall|i: int| #![trigger changed[i]] 0 <= i < changed.len() implies occurring(
                rest,
            ).contains(changed[i].1) && changed[i].0 == coefficient_sum(rest, changed[i].1) by {
                if i != j {
                    assert(changed[i] == out[i]);
                    assert(if i < j {
                        out[i].1 != out[j].1
                    } else {
                        out[j].1 != out[i].1
                    });
                    lemma_occurring_last(terms, out[i].1);
                }
            }
            assert forall|w: VarId| occurring(rest).contains(w) implies occurring(
                changed,
            ).contains(w) by {
                lemma_occurring_last(terms, w);
                let i = choose|i: int| 0 <= i < out.len() && out[i].1 == w;
                assert(changed[i].1 == w);
            }
            assert forall|i: int, k: int| 0 <= i < k < changed.len() implies changed[i].1
                != changed[k].1 by {
                assert(changed[i].1 == out[i].1);
                assert(changed[k].1 == out[k].1);
            }
            lemma_merging_value(changed, rest, assignment);
            lemma_terms_value_without(changed, j, assignment);
            lemma_mul_commutative(before.spec_add(c), x);
            lemma_mul_distributive(x, before, c);
            lemma_mul_commutative(before, x);
            lemma_mul_commutative(c, x);
            lemma_add_associative(
                terms_value(others, assignment),
                before.spec_mul(x),
                c.spec_mul(x),
            );
        } else {
            lemma_sum_of_absent(rest, v);
            lemma_add_zero(c);
            assert forall|i: int| #![trigger others[i]] 0 <= i < others.len() implies occurring(
                rest,
            ).contains(others[i].1) && others[i].0 == coefficient_sum(rest, others[i].1) by {
                let k = if i < j {
                    i
                } else {
                    i + 1
                };
                assert(others[i] == out[k]);
                assert(if k < j {
                    out[k].1 != out[j].1
                } else {
                    out[j].1 != out[k].1
                });
                lemma_occurring_last(terms, out[k].1);
            }
            assert forall|w: VarId| occurring(rest).contains(w) implies occurring(
                others,
            ).contains(w) by {
                lemma_occurring_last(terms, w);
                let k = choose|k: int| 0 <= k < out.len() && out[k].1 == w;
                let i = if k < j {
                    k
                } else {
                    k - 1
                };
                assert(others[i].1 == w);
            }
            assert forall|i: int, k: int| 0 <= i < k < others.len() implies others[i].1
                != others[k].1 by {
                let i0 = if i < j {
                    i
                } else {
                    i + 1
                };
                let k0 = if k < j {
                    k
                } else {
                    k + 1
                };
                assert(others[i] == out[i0]);
                assert(others[k] == out[k0]);
            }
            lemma_merging_value(others, rest, assignment);
        }
    }
}

/// Merging preserves the value: under every assignment of the variables, a
/// list that holds the merged terms of `terms`, each once, has the value of
/// `terms`, in whatever order it holds them.
pub proof fn lemma_merging_preserves_value(
    out: Seq<Term>,
    terms: Seq<Term>,
    assignment: spec_fn(VarId) -> FieldElement,
)
    requires
        out.no_duplicates(),
        out.to_set() == merged(terms),
    ensures
        terms_value(out, assignment) == terms_value(terms, assignment),
{
    lemma_merged_list(out, terms);
    assert forall|i: int| #![trigger out[i]] 0 <= i < out.len() implies occurring(terms).contains(
        out[i].1,
    ) && out[i].0 == coefficient_sum(terms, out[i].1) by {
        assert(out.to_set().contains(out[i]));
        assert(merged(terms).contains(out[i]));
    }
    lemma_merging_value(out, terms, assignment);
}

/// Adds up the coefficients of `terms` by variable, going through the terms
/// from first to last.
fn sum_by_variable(terms: &Vec<Term>) -> (sums: HashMap<usize, FieldElement>)
    ensures
        forall|k: usize| sums@.contains_key(k) <==> occurring(terms@).contains(VarId(k)),
        forall|k: usize| sums@.contains_key(k) ==> sums@[k] == coefficient_sum(terms@, VarId(k)),
{
    let mut sums: HashMap<usize, FieldElement> = HashMap::new();
    let mut i: usize = 0;
    while i < terms.len()
        invariant
            i <= terms.len(),
            forall|k: usize|
                sums@.contains_key(k) <==> occurring(terms@.take(i as int)).contains(VarId(k)),
            forall|k: usize|
                sums@.contains_key(k) ==> sums@[k] == coefficient_sum(
                    terms@.take(i as int),
                    VarId(k),
                ),
        decreases terms.len() - i,
    {
        let (coefficient, v) = terms[i];
        let ghost seen = terms@.take(i as int);
        let ghost next = terms@.take(i + 1);
        let existing = match sums.get(&v.0) {
            Some(e) => *e,
            None => FieldElement::zero(),
        };
        proof {
            assert(next.drop_last() =~= seen);
            assert(next.last() == terms@[i as int]);
            if !sums@.contains_key(v.0) {
                lemma_sum_of_absent(seen, v);
            }
            assert forall|k: usize|
                occurring(next).contains(VarId(k)) <==> k == v.0 || occurring(seen).contains(
                    VarId(k),
                ) by {
                if occurring(seen).contains(VarId(k)) {
                    let j = choose|j: int| 0 <= j < seen.len() && seen[j].1 == VarId(k);
                    assert(next[j].1 == VarId(k));
                }
                if k == v.0 {
                    assert(next[i as int].1 == VarId(k));
                }
                if occurring(next).contains(VarId(k)) && k != v.0 {
                    let j = choose|j: int| 0 <= j < next.len() && next[j].1 == VarId(k);
                    assert(seen[j].1 == VarId(k));
                }
            }
        }
        sums.insert(v.0, existing + coefficient);
        i += 1;
    }
    assert(terms@.take(i as int) =~= terms@);
    sums
}

/// The entries of `sums` as terms, in the order in which the map hands them
/// out.
fn entries(sums: &HashMap<usize, FieldElement>) -> (out: Vec<Term>)
    ensures
        out@.no_duplicates(),
        forall|t: Term| out@.contains(t) <==> sums@.contains_key(t.1.0) && sums@[t.1.0] == t.0,
{
    let mut out: Vec<Term> = Vec::new();
    let ghost walk = spec_hash_map_iter(sums).remaining();
    for entry in it: sums.iter()
        invariant
            it.seq() == walk,
            out@.len() == it.index(),
            forall|j: int| 0 <= j < out@.len() ==> out@[j] == (*walk[j].1, VarId(*walk[j].0)),
    {
        let (k, c) = entry;
        out.push((*c, VarId(*k)));
    }
    proof {
        assert(out@.len() == walk.len());
        assert forall|t: Term| out@.contains(t) implies sums@.contains_key(t.1.0) && sums@[t.1.0]
            == t.0 by {
            let j = choose|j: int| 0 <= j < out@.len() && out@[j] == t;
            assert(sums@.contains_key(*walk[j].0));
        }
        assert forall|t: Term| sums@.contains_key(t.1.0) && sums@[t.1.0] == t.0 implies out@.contains(
            t,
        ) by {
            let k = t.1.0;
            assert(walk.contains((&k, &sums@[k])));
            let j = choose|j: int| 0 <= j < walk.len() && walk[j] == (&k, &sums@[k]);
            assert(out@[j] == t);
        }
        assert forall|i: int, j: int|
            0 <= i < out@.len() && 0 <= j < out@.len() && i != j implies out@[i] != out@[j] by {
            assert(sums@.contains_key(*walk[i].0));
            assert(sums@.contains_key(*walk[j].0));
            assert(walk[i] != walk[j]);
        }
    }
    out
}

impl Cvar {
    /// Flattens the expression and merges the terms of each variable into
    /// one, whose coefficient is the sum of theirs. The constant is that of
    /// `to_constant_and_terms`. Every variable of the expression has exactly
    /// one term, but the order of the terms is that in which the map hands
    /// them out: it is not determined and may differ from call to call.
    pub fn to_linear_combination_old(&self) -> (r: (Option<FieldElement>, Vec<Term>))
        ensures
            r.0 == self.spec_flatten().0,
            r.1@.no_duplicates(),
            r.1@.to_set() == merged(self.spec_terms()),
            forall|i: int, j: int| 0 <= i < j < r.1@.len() ==> r.1@[i].1 != r.1@[j].1,
            r.1@.len() <= self.spec_terms().len(),
    {
        let (constant, terms) = self.to_constant_and_terms();
        let sums = sum_by_variable(&terms);
        let out = entries(&sums);
        proof {
            assert(out@.to_set() =~= merged(terms@));
            lemma_merged_list(out@, terms@);
        }
        (constant, out)
    }
}

} // verus!
