//! What evaluation means: the truth value that the known values give a
//! node, the nodes that one evaluation leaves, and its outcome.

use vstd::prelude::*;
use crate::domain::Property;
use crate::node::{
    counted, incoming, last, lemma_incoming_le, lemma_incoming_some, ordered, rendering,
    truth_text, well_formed, Nodes, OperationView, RefCount,
};
use crate::text::decimal;
use crate::value::ValueView;

verus! {

/// The truth value of the node at `at`, as far as the known values decide
/// it. A condition has one when its property has a value; a connective has
/// one when each of its operands has: one operand alone never decides.
pub open spec fn value<Pid: Property>(
    nodes: Nodes<Pid>,
    known: Map<Pid, ValueView>,
    at: int,
) -> Option<bool>
    decreases at,
    when ordered(nodes) && 0 <= at < nodes.len()
{
    match nodes[at].0 {
        OperationView::Const(value) => Some(value),
        OperationView::Is(cond) => if known.dom().contains(cond.variable) {
            Some(cond.holds(known[cond.variable]))
        } else {
            None
        },
        OperationView::In(cond) => if known.dom().contains(cond.variable) {
            Some(cond.holds(known[cond.variable]))
        } else {
            None
        },
        OperationView::Not(r) => match value(nodes, known, r) {
            Some(v) => Some(!v),
            None => None,
        },
        OperationView::Or(l, r) => match (value(nodes, known, l), value(nodes, known, r)) {
            (Some(a), Some(b)) => Some(a || b),
            _ => None,
        },
        OperationView::And(l, r) => match (value(nodes, known, l), value(nodes, known, r)) {
            (Some(a), Some(b)) => Some(a && b),
            _ => None,
        },
    }
}

/// The truth value of the node at `at` when every condition is read off
/// `known`: the formula with the values put in place of the properties.
pub open spec fn truth<Pid: Property>(nodes: Nodes<Pid>, known: Map<Pid, ValueView>, at: int) -> bool
    decreases at,
    when ordered(nodes) && 0 <= at < nodes.len()
{
    match nodes[at].0 {
        OperationView::Const(value) => value,
        OperationView::Is(cond) => cond.holds(known[cond.variable]),
        OperationView::In(cond) => cond.holds(known[cond.variable]),
        OperationView::Not(r) => !truth(nodes, known, r),
        OperationView::Or(l, r) => truth(nodes, known, l) || truth(nodes, known, r),
        OperationView::And(l, r) => truth(nodes, known, l) && truth(nodes, known, r),
    }
}

/// No connective stands over constants alone: each has an operand whose
/// truth value depends on a property.
pub open spec fn irreducible<Pid: Property>(nodes: Nodes<Pid>) -> bool {
    forall|i: int|
        0 <= i < nodes.len() && !(#[trigger] nodes[i]).0.leaf() ==> value(nodes, Map::empty(), i) is None
}

/// The node at `at` after evaluation: the constant of its truth value where
/// it has one, else the node as it was; the count stays.
pub open spec fn folded<Pid: Property>(
    nodes: Nodes<Pid>,
    known: Map<Pid, ValueView>,
    at: int,
) -> (OperationView<Pid>, RefCount) {
    match value(nodes, known, at) {
        Some(v) => (OperationView::Const(v), nodes[at].1),
        None => nodes[at],
    }
}

/// The nodes after evaluation, each folded as far as the known values
/// decide it.
pub open spec fn residual<Pid: Property>(nodes: Nodes<Pid>, known: Map<Pid, ValueView>) -> Nodes<Pid> {
    Seq::new(nodes.len(), |i: int| folded(nodes, known, i))
}

/// Every node but the root has been made an operand.
pub open spec fn connected<Pid: Property>(nodes: Nodes<Pid>) -> bool {
    forall|i: int| 0 <= i < nodes.len() - 1 ==> (#[trigger] nodes[i]).1 != 0
}

/// The node at `at` is not the root, has a count of zero, and is the first
/// such node.
pub open spec fn first_loose<Pid: Property>(nodes: Nodes<Pid>, at: int) -> bool {
    &&& 0 <= at < nodes.len() - 1
    &&& nodes[at].1 == 0
    &&& forall|j: int| 0 <= j < at ==> (#[trigger] nodes[j]).1 != 0
}

/// What one evaluation makes of a list of nodes.
pub enum Outcome<Pid> {
    /// There is no node.
    Noop,
    /// The node at this index is the first that is neither the root nor an
    /// operand.
    Disconnected(int),
    /// The root has this truth value; the nodes as folded.
    Fully(bool, Nodes<Pid>),
    /// The root has no truth value yet; the nodes as folded.
    Partially(Nodes<Pid>),
}

/// The outcome of evaluating `nodes` under the values `known`.
pub open spec fn outcome<Pid: Property>(nodes: Nodes<Pid>, known: Map<Pid, ValueView>) -> Outcome<Pid> {
    if nodes.len() == 0 {
        Outcome::Noop
    } else if !connected(nodes) {
        Outcome::Disconnected(choose|at: int| first_loose(nodes, at))
    } else {
        match value(nodes, known, last(nodes)) {
            Some(v) => Outcome::Fully(v, residual(nodes, known)),
            None => Outcome::Partially(residual(nodes, known)),
        }
    }
}

/// The log of the first `n` nodes as text: for a constant its index, a
/// colon and its truth value, for any other node a mark.
pub open spec fn log_text<Pid: Property>(nodes: Nodes<Pid>, n: int) -> Seq<char>
    decreases n,
{
    if n <= 0 {
        Seq::empty()
    } else {
        log_text(nodes, n - 1) + (match nodes[n - 1].0 {
            OperationView::Const(value) => decimal((n - 1) as nat) + ": "@ + truth_text(value) + ", "@,
            _ => "<unevaluated>"@,
        })
    }
}

impl<Pid: Property> Outcome<Pid> {
    /// The result of an evaluation as text: the truth value and the log, or
    /// the expression that is left.
    pub open spec fn rendering(self) -> Seq<char> {
        match self {
            Outcome::Fully(value, log) => "Fully evaluated to '"@ + truth_text(value) + "', log: ["@
                + log_text(log, log.len() as int) + "]"@,
            Outcome::Partially(rest) => "Partially evaluated, expression: "@ + rendering(rest, last(rest)),
            _ => Seq::empty(),
        }
    }
}

/// A folded node is a constant exactly where the node has a truth value.
pub proof fn lemma_folded_constant<Pid: Property>(nodes: Nodes<Pid>, known: Map<Pid, ValueView>, at: int)
    requires
        ordered(nodes),
        0 <= at < nodes.len(),
    ensures
        folded(nodes, known, at).0.constant() == value(nodes, known, at),
        folded(nodes, known, at).1 == nodes[at].1,
{
}

/// Folding node by node gives the nodes as evaluated: what a node folds to,
/// given the folded nodes before it, is its truth value.
pub proof fn lemma_step<Pid: Property>(nodes: Nodes<Pid>, known: Map<Pid, ValueView>, at: int)
    requires
        ordered(nodes),
        0 <= at < nodes.len(),
    ensures
        nodes[at].0.dangling(at) is None,
        folded(nodes, known, at) == (match nodes[at].0.step(residual(nodes, known).take(at), known) {
            Some(v) => (OperationView::Const(v), nodes[at].1),
            None => nodes[at],
        }),
{
    let results = residual(nodes, known).take(at);
    assert(nodes[at].0.below(at));
    match nodes[at].0 {
        OperationView::Not(r) => {
            lemma_folded_constant(nodes, known, r);
            assert(results[r] == folded(nodes, known, r));
        },
        OperationView::Or(l, r) => {
            lemma_folded_constant(nodes, known, l);
            lemma_folded_constant(nodes, known, r);
            assert(results[l] == folded(nodes, known, l));
            assert(results[r] == folded(nodes, known, r));
        },
        OperationView::And(l, r) => {
            lemma_folded_constant(nodes, known, l);
            lemma_folded_constant(nodes, known, r);
            assert(results[l] == folded(nodes, known, l));
            assert(results[r] == folded(nodes, known, r));
        },
        _ => {},
    }
}

/// Evaluation keeps the order of the nodes.
pub proof fn lemma_residual_ordered<Pid: Property>(nodes: Nodes<Pid>, known: Map<Pid, ValueView>)
    requires
        ordered(nodes),
    ensures
        ordered(residual(nodes, known)),
{
    let after = residual(nodes, known);
    assert forall|i: int| 0 <= i < after.len() implies (#[trigger] after[i]).0.below(i) by {
        assert(nodes[i].0.below(i));
    }
}

/// Evaluation keeps a list of nodes well formed.
pub proof fn lemma_residual_well_formed<Pid: Property>(nodes: Nodes<Pid>, known: Map<Pid, ValueView>)
    requires
        well_formed(nodes),
    ensures
        well_formed(residual(nodes, known)),
{
    let after = residual(nodes, known);
    assert forall|i: int| 0 <= i < after.len() implies (#[trigger] after[i]).0.below(i) by {
        assert(nodes[i].0.below(i));
    }
    assert forall|i: int| 0 <= i < after.len() implies incoming(after, i) <= (#[trigger] after[i]).1 <= 2 * (
    after.len() - 1 - i) by {
        assert(incoming(nodes, i) <= nodes[i].1 <= 2 * (nodes.len() - 1 - i));
        lemma_incoming_le(after, nodes, i, nodes.len() as int);
    }
}

/// At most one node is the first that is neither the root nor an operand.
pub proof fn lemma_first_loose<Pid: Property>(nodes: Nodes<Pid>, at: int)
    requires
        first_loose(nodes, at),
    ensures
        !connected(nodes),
        (choose|other: int| first_loose(nodes, other)) == at,
{
    let other = choose|other: int| first_loose(nodes, other);
    if other < at {
        assert(nodes[other].1 != 0);
    }
    if at < other {
        assert(nodes[at].1 != 0);
    }
}

/// Before a node that is neither the root nor an operand there is a first
/// such node.
pub proof fn lemma_first_loose_before<Pid: Property>(nodes: Nodes<Pid>, at: int) -> (first: int)
    requires
        0 <= at < nodes.len() - 1,
        nodes[at].1 == 0,
    ensures
        first <= at,
        first_loose(nodes, first),
    decreases at,
{
    if forall|j: int| 0 <= j < at ==> (#[trigger] nodes[j]).1 != 0 {
        at
    } else {
        let j = choose|j: int| 0 <= j < at && (#[trigger] nodes[j]).1 == 0;
        lemma_first_loose_before(nodes, j)
    }
}

/// An expression that is not connected has a first node that is neither the
/// root nor an operand, and evaluation names it.
pub proof fn lemma_first_loose_exists<Pid: Property>(nodes: Nodes<Pid>)
    requires
        !connected(nodes),
    ensures
        first_loose(nodes, choose|at: int| first_loose(nodes, at)),
{
    let at = choose|i: int| 0 <= i < nodes.len() - 1 && (#[trigger] nodes[i]).1 == 0;
    let first = lemma_first_loose_before(nodes, at);
    lemma_first_loose(nodes, first);
}

/// Where every property that a node at or before `at` tests has a value,
/// the node at `at` has its truth value.
pub proof fn lemma_value_truth<Pid: Property>(nodes: Nodes<Pid>, known: Map<Pid, ValueView>, at: int)
    requires
        ordered(nodes),
        0 <= at < nodes.len(),
        forall|j: int|
            0 <= j <= at ==> ((#[trigger] nodes[j]).0.tests() matches Some(property)
                ==> known.dom().contains(property)),
    ensures
        value(nodes, known, at) == Some(truth(nodes, known, at)),
    decreases at,
{
    assert(nodes[at].0.below(at));
    match nodes[at].0 {
        OperationView::Not(r) => {
            lemma_value_truth(nodes, known, r);
        },
        OperationView::Or(l, r) => {
            lemma_value_truth(nodes, known, l);
            lemma_value_truth(nodes, known, r);
        },
        OperationView::And(l, r) => {
            lemma_value_truth(nodes, known, l);
            lemma_value_truth(nodes, known, r);
        },
        _ => {},
    }
}

/// A truth value, once decided, stays as it is when more values are known.
pub proof fn lemma_value_grows<Pid: Property>(
    nodes: Nodes<Pid>,
    fewer: Map<Pid, ValueView>,
    more: Map<Pid, ValueView>,
    at: int,
)
    requires
        ordered(nodes),
        0 <= at < nodes.len(),
        fewer.submap_of(more),
        value(nodes, fewer, at) is Some,
    ensures
        value(nodes, more, at) == value(nodes, fewer, at),
    decreases at,
{
    assert(nodes[at].0.below(at));
    match nodes[at].0 {
        OperationView::Is(cond) => {
            assert(fewer.dom().contains(cond.variable));
            assert(more.dom().contains(cond.variable));
        },
        OperationView::In(cond) => {
            assert(fewer.dom().contains(cond.variable));
            assert(more.dom().contains(cond.variable));
        },
        OperationView::Not(r) => {
            lemma_value_grows(nodes, fewer, more, r);
        },
        OperationView::Or(l, r) => {
            lemma_value_grows(nodes, fewer, more, l);
            lemma_value_grows(nodes, fewer, more, r);
        },
        OperationView::And(l, r) => {
            lemma_value_grows(nodes, fewer, more, l);
            lemma_value_grows(nodes, fewer, more, r);
        },
        _ => {},
    }
}

/// What is left of an expression has, under more values, the truth values
/// of the expression itself.
pub proof fn lemma_residual_value<Pid: Property>(
    nodes: Nodes<Pid>,
    fewer: Map<Pid, ValueView>,
    more: Map<Pid, ValueView>,
    at: int,
)
    requires
        ordered(nodes),
        0 <= at < nodes.len(),
        fewer.submap_of(more),
    ensures
        value(residual(nodes, fewer), more, at) == value(nodes, more, at),
    decreases at,
{
    let rest = residual(nodes, fewer);
    lemma_residual_ordered(nodes, fewer);
    assert(nodes[at].0.below(at));
    assert(rest[at] == folded(nodes, fewer, at));
    if value(nodes, fewer, at) is Some {
        lemma_value_grows(nodes, fewer, more, at);
    } else {
        match nodes[at].0 {
            OperationView::Not(r) => {
                lemma_residual_value(nodes, fewer, more, r);
            },
            OperationView::Or(l, r) => {
                lemma_residual_value(nodes, fewer, more, l);
                lemma_residual_value(nodes, fewer, more, r);
            },
            OperationView::And(l, r) => {
                lemma_residual_value(nodes, fewer, more, l);
                lemma_residual_value(nodes, fewer, more, r);
            },
            _ => {},
        }
    }
}

/// Evaluating what is left of an expression, under more values, gives what
/// evaluating the expression itself under these values gives.
pub proof fn lemma_residual_outcome<Pid: Property>(
    nodes: Nodes<Pid>,
    fewer: Map<Pid, ValueView>,
    more: Map<Pid, ValueView>,
)
    requires
        ordered(nodes),
        fewer.submap_of(more),
    ensures
        residual(residual(nodes, fewer), more) == residual(nodes, more),
        outcome(residual(nodes, fewer), more) == outcome(nodes, more),
{
    let rest = residual(nodes, fewer);
    assert forall|i: int| 0 <= i < nodes.len() implies #[trigger] rest[i].1 == nodes[i].1 && folded(
        rest,
        more,
        i,
    ) == folded(nodes, more, i) by {
        lemma_residual_value(nodes, fewer, more, i);
        if value(nodes, more, i) is None && value(nodes, fewer, i) is Some {
            lemma_value_grows(nodes, fewer, more, i);
        }
    }
    assert(residual(rest, more) =~= residual(nodes, more));
    assert(connected(rest) == connected(nodes)) by {
        if connected(nodes) {
            assert forall|i: int| 0 <= i < rest.len() - 1 implies (#[trigger] rest[i]).1 != 0 by {
                assert(nodes[i].1 != 0);
            }
        }
        if connected(rest) {
            assert forall|i: int| 0 <= i < nodes.len() - 1 implies (#[trigger] nodes[i]).1 != 0 by {
                assert(rest[i].1 != 0);
            }
        }
    }
    assert forall|at: int| first_loose(rest, at) == first_loose(nodes, at) by {
        if first_loose(nodes, at) {
            assert forall|j: int| 0 <= j < at implies (#[trigger] rest[j]).1 != 0 by {
                assert(nodes[j].1 != 0);
            }
        }
        if first_loose(rest, at) {
            assert forall|j: int| 0 <= j < at implies (#[trigger] nodes[j]).1 != 0 by {
                assert(rest[j].1 != 0);
            }
        }
    }
    if nodes.len() > 0 {
        lemma_residual_value(nodes, fewer, more, last(nodes));
        if !connected(nodes) {
            lemma_first_loose_exists(nodes);
            let at = choose|at: int| first_loose(nodes, at);
            assert(first_loose(rest, at));
            lemma_first_loose(rest, at);
        }
    }
}

/// In a connected expression with exact counts, a node without a truth
/// value leaves the root without one.
pub proof fn lemma_unknown_reaches_root<Pid: Property>(
    nodes: Nodes<Pid>,
    known: Map<Pid, ValueView>,
    at: int,
)
    requires
        ordered(nodes),
        counted(nodes),
        connected(nodes),
        0 <= at < nodes.len(),
        value(nodes, known, at) is None,
    ensures
        value(nodes, known, last(nodes)) is None,
    decreases nodes.len() - at,
{
    if at < nodes.len() - 1 {
        assert(nodes[at].1 != 0);
        assert(nodes[at].1 == incoming(nodes, at));
        let user = lemma_incoming_some(nodes, at, nodes.len() as int);
        assert(nodes[user].0.below(user));
        lemma_unknown_reaches_root(nodes, known, user);
    }
}

} // verus!
