//! The nodes of an expression: which nodes an operation refers to, how
//! often a node is an operand, and how a node is shown.

use vstd::prelude::*;
use crate::condition::{In, InView, Is, IsView};
use crate::domain::Property;
use crate::text::decimal;
use crate::value::ValueView;

verus! {

/// The index of a node in its expression.
pub type OpRef = usize;

/// How often a node has been made an operand.
pub type RefCount = usize;

/// The nodes of an expression, each with its reference count.
pub type Operations<Pid> = Vec<(Operation<Pid>, RefCount)>;

/// One node of an expression: a constant, a condition, or a connective over
/// earlier nodes.
#[derive(Debug)]
pub enum Operation<Pid: Property> {
    Const(bool),
    Is(Is<Pid>),
    In(In<Pid>),
    Not(OpRef),
    Or(OpRef, OpRef),
    And(OpRef, OpRef),
}

/// The mathematical content of an [`Operation`].
pub enum OperationView<Pid> {
    Const(bool),
    Is(IsView<Pid>),
    In(InView<Pid>),
    Not(int),
    Or(int, int),
    And(int, int),
}

/// The mathematical content of a list of nodes.
pub type Nodes<Pid> = Seq<(OperationView<Pid>, RefCount)>;

impl<Pid: Property> DeepView for Operation<Pid> {
    type V = OperationView<Pid>;

    open spec fn deep_view(&self) -> OperationView<Pid> {
        match self {
            Operation::Const(value) => OperationView::Const(*value),
            Operation::Is(cond) => OperationView::Is(cond@),
            Operation::In(cond) => OperationView::In(cond@),
            Operation::Not(opref) => OperationView::Not(*opref as int),
            Operation::Or(lhs, rhs) => OperationView::Or(*lhs as int, *rhs as int),
            Operation::And(lhs, rhs) => OperationView::And(*lhs as int, *rhs as int),
        }
    }
}

impl<Pid: Property> Clone for Operation<Pid> {
    fn clone(&self) -> (copy: Operation<Pid>)
        ensures
            copy.deep_view() == self.deep_view(),
    {
        match self {
            Operation::Const(value) => Operation::Const(*value),
            Operation::Is(cond) => Operation::Is(cond.clone()),
            Operation::In(cond) => Operation::In(cond.clone()),
            Operation::Not(opref) => Operation::Not(*opref),
            Operation::Or(lhs, rhs) => Operation::Or(*lhs, *rhs),
            Operation::And(lhs, rhs) => Operation::And(*lhs, *rhs),
        }
    }
}

impl<Pid: Property> OperationView<Pid> {
    /// Every operand is the index of a node before the one at `at`.
    pub open spec fn below(self, at: int) -> bool {
        match self {
            OperationView::Not(r) => 0 <= r < at,
            OperationView::Or(l, r) => 0 <= l < at && 0 <= r < at,
            OperationView::And(l, r) => 0 <= l < at && 0 <= r < at,
            _ => true,
        }
    }

    /// How many operands of the operation are the node `target`.
    pub open spec fn uses(self, target: int) -> nat {
        match self {
            OperationView::Not(r) => if r == target {
                1
            } else {
                0
            },
            OperationView::Or(l, r) => (if l == target {
                1nat
            } else {
                0nat
            }) + (if r == target {
                1nat
            } else {
                0nat
            }),
            OperationView::And(l, r) => (if l == target {
                1nat
            } else {
                0nat
            }) + (if r == target {
                1nat
            } else {
                0nat
            }),
            _ => 0,
        }
    }

    /// The property that the operation tests, if it is a condition.
    pub open spec fn tests(self) -> Option<Pid> {
        match self {
            OperationView::Is(cond) => Some(cond.variable),
            OperationView::In(cond) => Some(cond.variable),
            _ => None,
        }
    }

    /// The operation has no operands: it is a constant or a condition.
    pub open spec fn leaf(self) -> bool {
        self is Const || self is Is || self is In
    }

    /// The truth value of the operation if it is a constant.
    pub open spec fn constant(self) -> Option<bool> {
        match self {
            OperationView::Const(value) => Some(value),
            _ => None,
        }
    }

    /// The first operand that is not the index of one of `n` nodes.
    pub open spec fn dangling(self, n: int) -> Option<int> {
        match self {
            OperationView::Not(r) => if r >= n {
                Some(r)
            } else {
                None
            },
            OperationView::Or(l, r) => if l >= n {
                Some(l)
            } else if r >= n {
                Some(r)
            } else {
                None
            },
            OperationView::And(l, r) => if l >= n {
                Some(l)
            } else if r >= n {
                Some(r)
            } else {
                None
            },
            _ => None,
        }
    }

    /// The truth value that the operation folds to, given the nodes folded
    /// before it and the known values: that of a condition whose property
    /// has a value, and that of a connective whose operands are all
    /// constants. A constant has nothing left to fold.
    pub open spec fn step(self, results: Nodes<Pid>, known: Map<Pid, ValueView>) -> Option<bool> {
        match self {
            OperationView::Const(_) => None,
            OperationView::Is(cond) => if known.dom().contains(cond.variable) {
                Some(cond.holds(known[cond.variable]))
            } else {
                None
            },
            OperationView::In(cond) => if known.dom().contains(cond.variable) {
                Some(cond.holds(known[cond.variable]))
            } else {
                None
            },
            OperationView::Not(r) => match results[r].0.constant() {
                Some(v) => Some(!v),
                None => None,
            },
            OperationView::Or(l, r) => match (results[l].0.constant(), results[r].0.constant()) {
                (Some(a), Some(b)) => Some(a || b),
                _ => None,
            },
            OperationView::And(l, r) => match (results[l].0.constant(), results[r].0.constant()) {
                (Some(a), Some(b)) => Some(a && b),
                _ => None,
            },
        }
    }
}

/// Every node refers to earlier nodes only.
pub open spec fn ordered<Pid: Property>(nodes: Nodes<Pid>) -> bool {
    forall|i: int| 0 <= i < nodes.len() ==> (#[trigger] nodes[i]).0.below(i)
}

/// How many operands of the first `n` nodes are the node `target`.
pub open spec fn incoming_upto<Pid: Property>(nodes: Nodes<Pid>, target: int, n: int) -> nat
    decreases n,
{
    if n <= 0 {
        0
    } else {
        incoming_upto(nodes, target, n - 1) + nodes[n - 1].0.uses(target)
    }
}

/// How many operands of all the nodes are the node `target`.
pub open spec fn incoming<Pid: Property>(nodes: Nodes<Pid>, target: int) -> nat {
    incoming_upto(nodes, target, nodes.len() as int)
}

/// What holds of the nodes of every expression: each refers to earlier nodes
/// only, and its count is at least the number of operands that it is now,
/// and at most two for each node after it.
pub open spec fn well_formed<Pid: Property>(nodes: Nodes<Pid>) -> bool {
    &&& ordered(nodes)
    &&& forall|i: int|
        0 <= i < nodes.len() ==> incoming(nodes, i) <= (#[trigger] nodes[i]).1 <= 2 * (nodes.len() - 1
            - i)
}

/// Each count is the number of operands that the node is: what holds of an
/// expression as it was built, before any evaluation folded a node of it.
pub open spec fn counted<Pid: Property>(nodes: Nodes<Pid>) -> bool {
    forall|i: int| 0 <= i < nodes.len() ==> (#[trigger] nodes[i]).1 == incoming(nodes, i)
}

/// The nodes after `op` has been appended: the new node comes last with a
/// count of zero, and the count of each node grows by one for each operand
/// of `op` that it is.
pub open spec fn appended<Pid: Property>(nodes: Nodes<Pid>, op: OperationView<Pid>) -> Nodes<Pid> {
    Seq::new(
        nodes.len() + 1,
        |i: int|
            if i < nodes.len() {
                (nodes[i].0, (nodes[i].1 + op.uses(i)) as usize)
            } else {
                (op, 0usize)
            },
    )
}

/// The index of the root, the last node; 0 where there is none.
pub open spec fn last<Pid: Property>(nodes: Nodes<Pid>) -> int {
    if nodes.len() == 0 {
        0
    } else {
        nodes.len() - 1
    }
}

/// The text of a truth value.
pub open spec fn truth_text(value: bool) -> Seq<char> {
    if value {
        "true"@
    } else {
        "false"@
    }
}

/// The text for a reference to a node that is not there.
pub open spec fn bad_reference(at: int, last: int) -> Seq<char> {
    "<badref: "@ + decimal(at as nat) + "/"@ + decimal(last as nat) + ">"@
}

/// The node at `at` as text: the operator tree below it, with brackets
/// round every connective.
pub open spec fn rendering<Pid: Property>(nodes: Nodes<Pid>, at: int) -> Seq<char>
    decreases at,
    when ordered(nodes) && 0 <= at
{
    if at < nodes.len() {
        match nodes[at].0 {
            OperationView::Const(value) => truth_text(value),
            OperationView::Is(cond) => cond.rendering(),
            OperationView::In(cond) => cond.rendering(),
            OperationView::Not(r) => "!("@ + rendering(nodes, r) + ")"@,
            OperationView::Or(l, r) => "("@ + rendering(nodes, l) + " || "@ + rendering(nodes, r)
                + ")"@,
            OperationView::And(l, r) => "("@ + rendering(nodes, l) + " && "@ + rendering(nodes, r)
                + ")"@,
        }
    } else {
        bad_reference(at, last(nodes))
    }
}

/// The properties that the first `n` nodes test, in the order of the nodes.
pub open spec fn variables_upto<Pid: Property>(nodes: Nodes<Pid>, n: int) -> Seq<Pid>
    decreases n,
{
    if n <= 0 {
        Seq::empty()
    } else {
        match nodes[n - 1].0.tests() {
            Some(property) => variables_upto(nodes, n - 1).push(property),
            None => variables_upto(nodes, n - 1),
        }
    }
}

/// The properties that the nodes test, in the order of the nodes.
pub open spec fn variables<Pid: Property>(nodes: Nodes<Pid>) -> Seq<Pid> {
    variables_upto(nodes, nodes.len() as int)
}

/// The set of properties that some node tests.
pub open spec fn free<Pid: Property>(nodes: Nodes<Pid>) -> Set<Pid> {
    Set::new(|property: Pid| exists|i: int| 0 <= i < nodes.len() && (#[trigger] nodes[i]).0.tests() == Some(property))
}

/// No node tests a property.
pub open spec fn closed<Pid: Property>(nodes: Nodes<Pid>) -> bool {
    forall|i: int| 0 <= i < nodes.len() ==> (#[trigger] nodes[i]).0.tests() is None
}

/// Lists of nodes that agree on the operations of their first `n` nodes
/// agree on how often these refer to a node.
pub proof fn lemma_incoming_agree<Pid: Property>(a: Nodes<Pid>, b: Nodes<Pid>, target: int, n: int)
    requires
        n <= a.len(),
        n <= b.len(),
        forall|i: int| 0 <= i < n ==> (#[trigger] a[i]).0 == (#[trigger] b[i]).0,
    ensures
        incoming_upto(a, target, n) == incoming_upto(b, target, n),
    decreases n,
{
    if n > 0 {
        lemma_incoming_agree(a, b, target, n - 1);
        assert(a[n - 1].0 == b[n - 1].0);
    }
}

/// Where each of the first `n` nodes of `a` refers to a node at most as
/// often as the node of `b` in its place, so do all of them together.
pub proof fn lemma_incoming_le<Pid: Property>(a: Nodes<Pid>, b: Nodes<Pid>, target: int, n: int)
    requires
        n <= a.len(),
        n <= b.len(),
        forall|i: int| 0 <= i < n ==> (#[trigger] a[i]).0.uses(target) <= (#[trigger] b[i]).0.uses(target),
    ensures
        incoming_upto(a, target, n) <= incoming_upto(b, target, n),
    decreases n,
{
    if n > 0 {
        lemma_incoming_le(a, b, target, n - 1);
        assert(a[n - 1].0.uses(target) <= b[n - 1].0.uses(target));
    }
}

/// No node refers to itself or to a later node.
pub proof fn lemma_incoming_none<Pid: Property>(nodes: Nodes<Pid>, target: int, n: int)
    requires
        ordered(nodes),
        n <= nodes.len(),
        n - 1 <= target,
    ensures
        incoming_upto(nodes, target, n) == 0,
    decreases n,
{
    if n > 0 {
        lemma_incoming_none(nodes, target, n - 1);
        assert(nodes[n - 1].0.below(n - 1));
    }
}

/// A node that some operand refers to is an operand of a later node.
pub proof fn lemma_incoming_some<Pid: Property>(nodes: Nodes<Pid>, target: int, n: int) -> (user: int)
    requires
        ordered(nodes),
        n <= nodes.len(),
        incoming_upto(nodes, target, n) > 0,
    ensures
        target < user < n,
        nodes[user].0.uses(target) > 0,
    decreases n,
{
    if nodes[n - 1].0.uses(target) > 0 {
        assert(nodes[n - 1].0.below(n - 1));
        n - 1
    } else {
        lemma_incoming_some(nodes, target, n - 1)
    }
}

/// Appending an operation over earlier nodes keeps a list of nodes well
/// formed, and keeps its counts exact where they were.
pub proof fn lemma_appended<Pid: Property>(nodes: Nodes<Pid>, op: OperationView<Pid>)
    requires
        well_formed(nodes),
        op.below(nodes.len() as int),
        op.leaf() || 2 * nodes.len() <= usize::MAX,
    ensures
        well_formed(appended(nodes, op)),
        op.leaf() ==> appended(nodes, op) == nodes.push((op, 0usize)),
        counted(nodes) ==> counted(appended(nodes, op)),
        forall|i: int| 0 <= i < nodes.len() ==> (#[trigger] appended(nodes, op)[i]).1 == nodes[i].1 + op.uses(i),
{
    let after = appended(nodes, op);
    let n = nodes.len() as int;
    assert forall|i: int| 0 <= i < after.len() implies (#[trigger] after[i]).0.below(i) by {
        if i < n {
            assert(nodes[i].0.below(i));
        }
    }
    assert forall|i: int| 0 <= i < after.len() implies incoming(after, i) <= (#[trigger] after[i]).1 <= 2 * (
    after.len() - 1 - i) && (counted(nodes) ==> after[i].1 == incoming(after, i)) by {
        lemma_incoming_agree(after, nodes, i, n);
        if i < n {
            assert(incoming(nodes, i) <= nodes[i].1 <= 2 * (n - 1 - i));
            assert(op.uses(i) <= 2);
        } else {
            lemma_incoming_none(nodes, i, n);
        }
    }
    if op.leaf() {
        assert(after =~= nodes.push((op, 0usize)));
    }
}

/// The list of tested properties names exactly the properties that some
/// node tests.
pub proof fn lemma_variables<Pid: Property>(nodes: Nodes<Pid>, n: int, property: Pid)
    requires
        n <= nodes.len(),
    ensures
        variables_upto(nodes, n).contains(property) <==> exists|i: int|
            0 <= i < n && (#[trigger] nodes[i]).0.tests() == Some(property),
    decreases n,
{
    if n > 0 {
        lemma_variables(nodes, n - 1, property);
        let before = variables_upto(nodes, n - 1);
        let all = variables_upto(nodes, n);
        if exists|i: int| 0 <= i < n - 1 && (#[trigger] nodes[i]).0.tests() == Some(property) {
            let i = choose|i: int| 0 <= i < n - 1 && (#[trigger] nodes[i]).0.tests() == Some(property);
            assert(nodes[i].0.tests() == Some(property));
            let k = choose|k: int| 0 <= k < before.len() && before[k] == property;
            assert(all[k] == property);
        }
        if nodes[n - 1].0.tests() == Some(property) {
            assert(all[all.len() - 1] == property);
        }
        if all.contains(property) {
            let k = choose|k: int| 0 <= k < all.len() && all[k] == property;
            if k < before.len() {
                assert(before[k] == property);
                assert(before.contains(property));
            } else {
                assert(nodes[n - 1].0.tests() == Some(property));
            }
        }
    }
}

} // verus!
