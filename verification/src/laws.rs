//! What holds of conditions, expressions and their evaluation, whatever the
//! domain: each law is proved from the definitions that the contracts of
//! this crate are stated in.

use vstd::prelude::*;
use crate::condition::{InView, IsView};
use crate::sequence::{distinct, lemma_distinct};
use crate::context::Context;
use crate::domain::Property;
use crate::expression::Expression;
use crate::evaluation::{
    connected, first_loose, folded, irreducible, lemma_first_loose, lemma_folded_constant,
    lemma_residual_outcome, lemma_unknown_reaches_root, lemma_value_truth, outcome, residual,
    truth, value, Outcome,
};
use crate::node::{closed, counted, free, incoming, last, OperationView};
use crate::value::{Value, ValueView};

verus! {

/// The condition that a property equals a value is met by that value and by
/// no other.
pub proof fn law_is_equality<Pid: Property>(variable: Pid, expected: Value, other: Value)
    requires
        variable.datatype_spec() == expected@.datatype(),
    ensures
        (IsView { variable, expected: expected@ }).wf(),
        (IsView { variable, expected: expected@ }).holds(expected@),
        other@ != expected@ ==> !(IsView { variable, expected: expected@ }).holds(other@),
{
}

/// The condition that a property has one of a list of values is met by
/// exactly the values of the list, however often and in whatever order the
/// list names them.
pub proof fn law_in_membership<Pid: Property>(variable: Pid, values: Vec<Value>, actual: Value)
    requires
        forall|i: int| 0 <= i < values.len() ==> (#[trigger] values[i])@.datatype() == variable.datatype_spec(),
    ensures
        (InView { variable, expected: distinct(values.deep_view()) }).wf(),
        (InView { variable, expected: distinct(values.deep_view()) }).holds(actual@)
            <==> values.deep_view().contains(actual@),
        (InView { variable, expected: distinct(values.deep_view()) }).members() == values.deep_view().to_set(),
{
    let given = values.deep_view();
    let kept = distinct(given);
    lemma_distinct(given);
    assert forall|k: int| 0 <= k < kept.len() implies (#[trigger] kept[k]).datatype()
        == variable.datatype_spec() by {
        assert(kept.contains(kept[k]));
        assert(given.contains(kept[k]));
        let j = choose|j: int| 0 <= j < given.len() && given[j] == kept[k];
        assert(given[j] == values[j]@);
    }
    assert(kept.to_set() =~= given.to_set()) by {
        assert forall|v: ValueView| kept.to_set().contains(v) <==> given.to_set().contains(v) by {
            assert(kept.contains(v) <==> given.contains(v));
        }
    }
}

/// In an expression as it was built, a node that is not the root and that
/// no node has as an operand makes evaluation fail: the outcome names the
/// node, if no node before it is such a node too.
pub proof fn law_unused_node_disconnects<Pid: Property>(
    expression: Expression<Pid>,
    context: Context<Pid>,
    at: int,
)
    requires
        expression.wf(),
        counted(expression@),
        0 <= at < expression@.len() - 1,
        incoming(expression@, at) == 0,
        forall|j: int| 0 <= j < at ==> incoming(expression@, j) != 0,
    ensures
        outcome(expression@, context@.known()) == Outcome::<Pid>::Disconnected(at),
{
    let nodes = expression@;
    assert(nodes[at].1 == incoming(nodes, at));
    assert forall|j: int| 0 <= j < at implies (#[trigger] nodes[j]).1 != 0 by {
        assert(nodes[j].1 == incoming(nodes, j));
    }
    assert(first_loose(nodes, at));
    lemma_first_loose(nodes, at);
}

/// Where every property that an expression tests has a value, evaluation
/// gives the truth value of the formula with the values in place of the
/// properties, and folds every node to the constant of its own.
pub proof fn law_known_evaluates_fully<Pid: Property>(expression: Expression<Pid>, context: Context<Pid>)
    requires
        expression.wf(),
        expression@.len() > 0,
        connected(expression@),
        free(expression@).subset_of(context@.known().dom()),
    ensures
        outcome(expression@, context@.known()) == Outcome::Fully(
            truth(expression@, context@.known(), last(expression@)),
            residual(expression@, context@.known()),
        ),
        forall|i: int|
            0 <= i < expression@.len() ==> (#[trigger] residual(expression@, context@.known())[i]).0
                == OperationView::<Pid>::Const(truth(expression@, context@.known(), i)),
{
    let nodes = expression@;
    let known = context@.known();
    assert forall|j: int| 0 <= j < nodes.len() implies ((#[trigger] nodes[j]).0.tests() matches Some(property)
        ==> known.dom().contains(property)) by {
        match nodes[j].0.tests() {
            Some(property) => {
                assert(free(nodes).contains(property));
            },
            None => {},
        }
    }
    lemma_value_truth(nodes, known, last(nodes));
    assert forall|i: int| 0 <= i < nodes.len() implies (#[trigger] residual(nodes, known)[i]).0
        == OperationView::<Pid>::Const(truth(nodes, known, i)) by {
        lemma_value_truth(nodes, known, i);
    }
}

/// An expression of constants and connectives alone evaluates fully,
/// whatever the context holds, to its truth value by the truth tables of
/// `not`, `or` and `and`.
pub proof fn law_closed_evaluates_fully<Pid: Property>(expression: Expression<Pid>, context: Context<Pid>)
    requires
        expression.wf(),
        expression@.len() > 0,
        connected(expression@),
        closed(expression@),
    ensures
        outcome(expression@, context@.known()) == Outcome::Fully(
            truth(expression@, Map::empty(), last(expression@)),
            residual(expression@, Map::empty()),
        ),
{
    let nodes = expression@;
    let known = context@.known();
    assert forall|i: int| 0 <= i < nodes.len() implies value(nodes, known, i) == Some(
        truth(nodes, Map::empty(), i),
    ) && #[trigger] folded(nodes, known, i) == folded(nodes, Map::empty(), i) by {
        assert forall|j: int| 0 <= j <= i implies ((#[trigger] nodes[j]).0.tests() matches Some(property)
            ==> false) by {
            assert(nodes[j].0.tests() is None);
        }
        lemma_value_truth(nodes, known, i);
        lemma_value_truth(nodes, Map::empty(), i);
        lemma_truth_of_closed(expression, known, Map::empty(), i);
    }
    assert(folded(nodes, known, last(nodes)) == folded(nodes, Map::empty(), last(nodes)));
    assert(residual(nodes, known) =~= residual(nodes, Map::empty()));
}

/// The truth value of a node over constants and connectives alone does not
/// depend on the values known.
proof fn lemma_truth_of_closed<Pid: Property>(
    expression: Expression<Pid>,
    one: Map<Pid, ValueView>,
    other: Map<Pid, ValueView>,
    at: int,
)
    requires
        expression.wf(),
        closed(expression@),
        0 <= at < expression@.len(),
    ensures
        truth(expression@, one, at) == truth(expression@, other, at),
    decreases at,
{
    let nodes = expression@;
    assert(nodes[at].0.below(at));
    assert(nodes[at].0.tests() is None);
    match nodes[at].0 {
        OperationView::Not(r) => {
            lemma_truth_of_closed(expression, one, other, r);
        },
        OperationView::Or(l, r) => {
            lemma_truth_of_closed(expression, one, other, l);
            lemma_truth_of_closed(expression, one, other, r);
        },
        OperationView::And(l, r) => {
            lemma_truth_of_closed(expression, one, other, l);
            lemma_truth_of_closed(expression, one, other, r);
        },
        _ => {},
    }
}

/// An expression as it was built, which tests a property, evaluates partially
/// under a context without values. Every condition is left as it was; where
/// no connective stands over constants alone, so is every node.
pub proof fn law_unknown_evaluates_partially<Pid: Property>(
    expression: Expression<Pid>,
    context: Context<Pid>,
)
    requires
        expression.wf(),
        counted(expression@),
        connected(expression@),
        !closed(expression@),
        context@.provided.len() == 0,
    ensures
        outcome(expression@, context@.known()) == Outcome::Partially(residual(expression@, Map::empty())),
        forall|i: int|
            0 <= i < expression@.len() && (#[trigger] expression@[i]).0.leaf() ==> residual(
                expression@,
                Map::empty(),
            )[i] == expression@[i],
        irreducible(expression@) ==> residual(expression@, Map::empty()) == expression@,
{
    let nodes = expression@;
    let known = context@.known();
    assert(known =~= Map::empty());
    let at = choose|i: int| 0 <= i < nodes.len() && !((#[trigger] nodes[i]).0.tests() is None);
    assert(nodes[at].0.below(at));
    assert(value(nodes, known, at) is None);
    lemma_unknown_reaches_root(nodes, known, at);
    assert forall|i: int| 0 <= i < nodes.len() && (#[trigger] nodes[i]).0.leaf() implies residual(
        nodes,
        Map::empty(),
    )[i] == nodes[i] by {
        assert(nodes[i].0.below(i));
        lemma_folded_constant(nodes, known, i);
    }
    if irreducible(nodes) {
        assert forall|i: int| 0 <= i < nodes.len() implies #[trigger] residual(nodes, Map::empty())[i]
            == nodes[i] by {
            if nodes[i].0.leaf() {
                assert(residual(nodes, Map::empty())[i] == nodes[i]);
            }
        }
        assert(residual(nodes, Map::empty()) =~= nodes);
    }
}

/// What a partial evaluation leaves can be evaluated in place of the
/// expression: under a context that knows what the first knew, and more,
/// both have the same outcome.
pub proof fn law_residual_resumes<Pid: Property>(
    expression: Expression<Pid>,
    first: Context<Pid>,
    second: Context<Pid>,
)
    requires
        expression.wf(),
        first@.known().submap_of(second@.known()),
    ensures
        outcome(residual(expression@, first@.known()), second@.known()) == outcome(
            expression@,
            second@.known(),
        ),
        outcome(expression@, first@.known()) matches Outcome::Partially(rest) ==> outcome(
            rest,
            second@.known(),
        ) == outcome(expression@, second@.known()),
{
    lemma_residual_outcome(expression@, first@.known(), second@.known());
}

} // verus!
