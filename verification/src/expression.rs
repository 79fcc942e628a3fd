//! Expressions: lists of nodes built by appending, and their evaluation.

use vstd::prelude::*;
use vstd::string::StringExecFns;
use crate::condition::{all_match, first_mismatch, In, InView, Is, IsView};
use crate::sequence::distinct;
use crate::domain::{mismatch, Property};
use crate::error::{Error, ErrorView, Result};
use crate::evaluation::{
    connected, first_loose, folded, lemma_first_loose, lemma_folded_constant,
    lemma_residual_well_formed, lemma_step, log_text, outcome, residual, Outcome,
};
use crate::node::{
    appended, bad_reference, counted, free, last, lemma_appended, lemma_variables, rendering,
    variables, variables_upto, well_formed, Nodes, OperationView,
};
use crate::text::push_decimal;
use crate::value::{Value, ValueView};

pub use crate::context::Context;
pub use crate::node::{OpRef, Operation, Operations, RefCount};

verus! {

/// The node that `display` shows: the one named, or the root.
pub open spec fn shown<Pid: Property>(nodes: Nodes<Pid>, root: Option<OpRef>) -> int {
    match root {
        Some(at) => at as int,
        None => last(nodes),
    }
}

/// The error for a reference to a node that the expression does not have.
pub open spec fn out_of_bounds<Pid: Property>(nodes: Nodes<Pid>, at: int) -> ErrorView {
    ErrorView::ExpressionOutOfBounds(at, last(nodes), rendering(nodes, last(nodes)))
}

/// Adds one to the count of the node at `at`.
fn link<Pid: Property>(ops: &mut Operations<Pid>, at: usize)
    requires
        at < old(ops).len(),
        old(ops)[at as int].1 < usize::MAX,
    ensures
        final(ops).len() == old(ops).len(),
        forall|i: int|
            0 <= i < old(ops).len() ==> (#[trigger] final(ops)[i]).0 == old(ops)[i].0 && final(ops)[i].1
                == old(ops)[i].1 + (if i == at {
                1int
            } else {
                0int
            }),
{
    let count: usize = ops[at].1;
    ops[at].1 = count + 1;
}

/// A boolean expression over the properties of a domain: a list of nodes,
/// each a constant, a condition, or a connective over earlier nodes. The
/// last node is the root.
#[derive(Debug)]
pub struct Expression<Pid: Property> {
    ops: Operations<Pid>,
}

impl<Pid: Property> View for Expression<Pid> {
    type V = Nodes<Pid>;

    closed spec fn view(&self) -> Nodes<Pid> {
        self.ops.deep_view()
    }
}

impl<Pid: Property> Expression<Pid> {
    /// Holds of every expression: see [`well_formed`].
    #[verifier::type_invariant]
    pub open spec fn wf(self) -> bool {
        well_formed(self@)
    }

    /// The node at `root`, or the root itself for `None`, as text.
    pub fn display(&self, root: Option<OpRef>) -> (text: String)
        ensures
            text@ == rendering(self@, shown(self@, root)),
        decreases shown(self@, root),
    {
        proof {
            use_type_invariant(self);
        }
        let last: usize = if self.ops.len() == 0 {
            0
        } else {
            self.ops.len() - 1
        };
        let rootref: usize = match root {
            Some(at) => at,
            None => last,
        };
        if rootref < self.ops.len() {
            assert(self@[rootref as int].0.below(rootref as int));
            match &self.ops[rootref].0 {
                Operation::Const(value) => if *value {
                    String::from_str("true")
                } else {
                    String::from_str("false")
                },
                Operation::Is(cond) => cond.render(),
                Operation::In(cond) => cond.render(),
                Operation::Not(opref) => {
                    let mut text = String::from_str("!(");
                    text.append(self.display(Some(*opref)).as_str());
                    text.append(")");
                    assert(text@ =~= rendering(self@, rootref as int));
                    text
                },
                Operation::Or(lhs, rhs) => {
                    let mut text = String::from_str("(");
                    text.append(self.display(Some(*lhs)).as_str());
                    text.append(" || ");
                    text.append(self.display(Some(*rhs)).as_str());
                    text.append(")");
                    assert(text@ =~= rendering(self@, rootref as int));
                    text
                },
                Operation::And(lhs, rhs) => {
                    let mut text = String::from_str("(");
                    text.append(self.display(Some(*lhs)).as_str());
                    text.append(" && ");
                    text.append(self.display(Some(*rhs)).as_str());
                    text.append(")");
                    assert(text@ =~= rendering(self@, rootref as int));
                    text
                },
            }
        } else {
            let mut text = String::from_str("<badref: ");
            push_decimal(&mut text, rootref as u64);
            text.append("/");
            push_decimal(&mut text, last as u64);
            text.append(">");
            assert(text@ =~= bad_reference(rootref as int, last as int));
            text
        }
    }

    /// The expression as text: what `display` shows of the root.
    pub fn render(&self) -> (text: String)
        ensures
            text@ == rendering(self@, last(self@)),
    {
        self.display(None)
    }

    /// The number of nodes.
    pub fn len(&self) -> (count: usize)
        ensures
            count == self@.len(),
    {
        self.ops.len()
    }

    fn last(&self) -> (found: Result<OpRef>)
        ensures
            self@.len() > 0 ==> found == Ok::<OpRef, Error>((self@.len() - 1) as usize),
            self@.len() == 0 ==> (found matches Err(e) && e@ == out_of_bounds(self@, 0)),
    {
        if self.ops.len() != 0 {
            Ok(self.ops.len() - 1)
        } else {
            Err(Error::ExpressionOutOfBounds(0, 0, self.display(None)))
        }
    }

    fn valid(&self, op: OpRef) -> (checked: Result<OpRef>)
        ensures
            op < self@.len() ==> checked == Ok::<OpRef, Error>(op),
            op >= self@.len() ==> (checked matches Err(e) && e@ == out_of_bounds(self@, op as int)),
    {
        if op < self.ops.len() {
            Ok(op)
        } else {
            let last: usize = match self.last() {
                Ok(index) => index,
                Err(_) => 0,
            };
            Err(Error::ExpressionOutOfBounds(op, last, self.display(None)))
        }
    }

    /// Appends a node that refers to earlier nodes only, and counts its
    /// operands.
    fn append(&mut self, op: Operation<Pid>) -> (at: OpRef)
        requires
            op.deep_view().below(old(self)@.len() as int),
            op.deep_view().leaf() || 2 * old(self)@.len() <= usize::MAX,
        ensures
            at == old(self)@.len(),
            final(self)@ == appended(old(self)@, op.deep_view()),
            op.deep_view().leaf() ==> final(self)@ == old(self)@.push((op.deep_view(), 0usize)),
            counted(old(self)@) ==> counted(final(self)@),
    {
        proof {
            use_type_invariant(&*self);
            lemma_appended(self@, op.deep_view());
        }
        let ghost before = self@;
        let ghost added = op.deep_view();
        let mut ops: Operations<Pid> = Vec::new();
        assert(ops.deep_view() =~= Seq::empty());
        assert(well_formed(ops.deep_view()));
        std::mem::swap(&mut self.ops, &mut ops);
        let at: usize = ops.len();
        assert(ops.deep_view() == before);
        assert forall|i: int| 0 <= i < at implies (#[trigger] ops[i]).1 <= 2 * (at - 1 - i) by {
            assert(before[i].1 == ops[i].1);
        }
        match op {
            Operation::Not(opref) => {
                ops.push((Operation::Not(opref), 0));
                link(&mut ops, opref);
            },
            Operation::Or(lhs, rhs) => {
                ops.push((Operation::Or(lhs, rhs), 0));
                link(&mut ops, lhs);
                link(&mut ops, rhs);
            },
            Operation::And(lhs, rhs) => {
                ops.push((Operation::And(lhs, rhs), 0));
                link(&mut ops, lhs);
                link(&mut ops, rhs);
            },
            other => {
                ops.push((other, 0));
            },
        }
        assert(ops.deep_view() =~= appended(before, added));
        self.ops = ops;
        at
    }

    /// An expression without nodes.
    pub fn new() -> (expression: Expression<Pid>)
        ensures
            expression@ == Seq::<(OperationView<Pid>, RefCount)>::empty(),
            counted(expression@),
    {
        let expression = Expression { ops: Vec::new() };
        assert(expression@ =~= Seq::empty());
        expression
    }

    /// Appends a constant and returns its index.
    pub fn constant(&mut self, value: bool) -> (made: Result<OpRef>)
        ensures
            made == Ok::<OpRef, Error>(old(self)@.len() as usize),
            final(self)@ == old(self)@.push((OperationView::Const(value), 0usize)),
            counted(old(self)@) ==> counted(final(self)@),
    {
        let _ = self.append(Operation::Const(value));
        self.last()
    }

    /// Appends the condition that `variable` equals `value` and returns its
    /// index. Fails with `TypeMismatch`, and appends nothing, when the value
    /// is not of the property's datatype.
    pub fn is(&mut self, variable: Pid, value: Value) -> (made: Result<OpRef>)
        ensures
            variable.datatype_spec() == value@.datatype() ==> {
                &&& made == Ok::<OpRef, Error>(old(self)@.len() as usize)
                &&& final(self)@ == old(self)@.push(
                    (OperationView::Is(IsView { variable, expected: value@ }), 0usize),
                )
            },
            variable.datatype_spec() != value@.datatype() ==> {
                &&& made matches Err(e) && e@ == mismatch(variable, value@.datatype())
                &&& final(self)@ == old(self)@
            },
            counted(old(self)@) ==> counted(final(self)@),
    {
        let cond = Is::new(variable, value)?;
        let _ = self.append(Operation::Is(cond));
        self.last()
    }

    /// Appends the condition that `variable` has one of `values` and returns
    /// its index. Fails with `TypeMismatch`, and appends nothing, when one
    /// of the values is not of the property's datatype; the error speaks of
    /// the first such value.
    pub fn is_in(&mut self, variable: Pid, values: Vec<Value>) -> (made: Result<OpRef>)
        ensures
            match made {
                Ok(at) => {
                    &&& all_match(variable, values.deep_view())
                    &&& at == old(self)@.len()
                    &&& final(self)@ == old(self)@.push(
                        (
                            OperationView::In(InView { variable, expected: distinct(values.deep_view()) }),
                            0usize,
                        ),
                    )
                },
                Err(e) => {
                    &&& exists|at: int|
                        {
                            &&& #[trigger] first_mismatch(variable, values.deep_view(), at)
                            &&& e@ == mismatch(variable, values.deep_view()[at].datatype())
                        }
                    &&& final(self)@ == old(self)@
                },
            },
            counted(old(self)@) ==> counted(final(self)@),
    {
        let cond = In::new(variable, values)?;
        let _ = self.append(Operation::In(cond));
        self.last()
    }

    /// Appends the negation of the node at `opref` and returns its index.
    /// Fails with `ExpressionOutOfBounds`, and appends nothing, when there
    /// is no such node.
    pub fn not(&mut self, opref: OpRef) -> (made: Result<OpRef>)
        requires
            2 * old(self)@.len() <= usize::MAX,
        ensures
            opref < old(self)@.len() ==> {
                &&& made == Ok::<OpRef, Error>(old(self)@.len() as usize)
                &&& final(self)@ == appended(old(self)@, OperationView::Not(opref as int))
            },
            opref >= old(self)@.len() ==> {
                &&& made matches Err(e) && e@ == out_of_bounds(old(self)@, opref as int)
                &&& final(self)@ == old(self)@
            },
            counted(old(self)@) ==> counted(final(self)@),
    {
        let opref = self.valid(opref)?;
        let _ = self.append(Operation::Not(opref));
        self.last()
    }

    /// Appends the disjunction of the nodes at `lhs` and `rhs` and returns
    /// its index. Fails with `ExpressionOutOfBounds`, and appends nothing,
    /// when one of the nodes is not there; the error speaks of `lhs` if that
    /// is missing, else of `rhs`.
    pub fn or(&mut self, lhs: OpRef, rhs: OpRef) -> (made: Result<OpRef>)
        requires
            2 * old(self)@.len() <= usize::MAX,
        ensures
            lhs < old(self)@.len() && rhs < old(self)@.len() ==> {
                &&& made == Ok::<OpRef, Error>(old(self)@.len() as usize)
                &&& final(self)@ == appended(old(self)@, OperationView::Or(lhs as int, rhs as int))
            },
            lhs >= old(self)@.len() ==> (made matches Err(e) && e@ == out_of_bounds(
                old(self)@,
                lhs as int,
            )),
            lhs < old(self)@.len() && rhs >= old(self)@.len() ==> (made matches Err(e) && e@
                == out_of_bounds(old(self)@, rhs as int)),
            lhs >= old(self)@.len() || rhs >= old(self)@.len() ==> final(self)@ == old(self)@,
            counted(old(self)@) ==> counted(final(self)@),
    {
        let lhs = self.valid(lhs)?;
        let rhs = self.valid(rhs)?;
        let _ = self.append(Operation::Or(lhs, rhs));
        self.last()
    }

    /// Appends the conjunction of the nodes at `lhs` and `rhs` and returns
    /// its index. Fails with `ExpressionOutOfBounds`, and appends nothing,
    /// when one of the nodes is not there; the error speaks of `lhs` if that
    /// is missing, else of `rhs`.
    pub fn and(&mut self, lhs: OpRef, rhs: OpRef) -> (made: Result<OpRef>)
        requires
            2 * old(self)@.len() <= usize::MAX,
        ensures
            lhs < old(self)@.len() && rhs < old(self)@.len() ==> {
                &&& made == Ok::<OpRef, Error>(old(self)@.len() as usize)
                &&& final(self)@ == appended(old(self)@, OperationView::And(lhs as int, rhs as int))
            },
            lhs >= old(self)@.len() ==> (made matches Err(e) && e@ == out_of_bounds(
                old(self)@,
                lhs as int,
            )),
            lhs < old(self)@.len() && rhs >= old(self)@.len() ==> (made matches Err(e) && e@
                == out_of_bounds(old(self)@, rhs as int)),
            lhs >= old(self)@.len() || rhs >= old(self)@.len() ==> final(self)@ == old(self)@,
            counted(old(self)@) ==> counted(final(self)@),
    {
        let lhs = self.valid(lhs)?;
        let rhs = self.valid(rhs)?;
        let _ = self.append(Operation::And(lhs, rhs));
        self.last()
    }

    /// A context that requests the properties that the expression tests,
    /// each once, in the order of the nodes.
    pub fn variables(&self) -> (context: Context<Pid>)
        ensures
            context@.requested == distinct(variables(self@)),
            context@.wanted() == free(self@),
            context@.provided == Seq::<(Pid, ValueView)>::empty(),
    {
        let mut props: Vec<Pid> = Vec::new();
        let mut i: usize = 0;
        while i < self.ops.len()
            invariant
                i <= self.ops.len(),
                props@ == variables_upto(self@, i as int),
            decreases self.ops.len() - i,
        {
            match &self.ops[i].0 {
                Operation::Is(cond) => {
                    props.push(cond.variable());
                },
                Operation::In(cond) => {
                    props.push(cond.variable());
                },
                _ => {},
            }
            i += 1;
        }
        let context = Context::request(props);
        proof {
            assert(context@.wanted() =~= free(self@)) by {
                assert forall|p: Pid| context@.wanted().contains(p) <==> free(self@).contains(p) by {
                    lemma_variables(self@, self@.len() as int, p);
                    assert(props@.to_set().contains(p) <==> props@.contains(p));
                }
            }
        }
        context
    }

    /// What the node `op`, standing at `idx`, folds to, given the nodes
    /// folded before it and the values of the context: the truth value of a
    /// condition whose property has a value, that of a connective whose
    /// operands are all constants, else nothing. Fails with
    /// `ExpressionFutureReference` when an operand is not among `results`.
    pub fn eval_single(
        &self,
        idx: OpRef,
        op: &Operation<Pid>,
        results: &Operations<Pid>,
        context: &Context<Pid>,
    ) -> (res: Result<Option<bool>>)
        ensures
            match op.deep_view().dangling(results.len() as int) {
                Some(at) => res matches Err(e) && e@ == ErrorView::ExpressionFutureReference(
                    at,
                    idx as int,
                    rendering(self@, idx as int),
                ),
                None => res == Ok::<Option<bool>, Error>(
                    op.deep_view().step(results.deep_view(), context@.known()),
                ),
            },
    {
        match op {
            Operation::Is(cond) => {
                if let Some(val) = context.value(cond.variable()) {
                    match cond.eval(val) {
                        Ok(met) => Ok(Some(met)),
                        Err(e) => Err(e),
                    }
                } else {
                    Ok(None)
                }
            },
            Operation::In(cond) => {
                if let Some(val) = context.value(cond.variable()) {
                    match cond.eval(val) {
                        Ok(met) => Ok(Some(met)),
                        Err(e) => Err(e),
                    }
                } else {
                    Ok(None)
                }
            },
            Operation::Not(opref) => {
                if *opref >= results.len() {
                    return Err(Error::ExpressionFutureReference(*opref, idx, self.display(Some(idx))));
                }
                if let Operation::Const(val) = results[*opref].0 {
                    Ok(Some(!val))
                } else {
                    Ok(None)
                }
            },
            Operation::Or(lhs, rhs) => {
                if *lhs >= results.len() {
                    return Err(Error::ExpressionFutureReference(*lhs, idx, self.display(Some(idx))));
                }
                if *rhs >= results.len() {
                    return Err(Error::ExpressionFutureReference(*rhs, idx, self.display(Some(idx))));
                }
                if let (Operation::Const(lval), Operation::Const(rval)) = (&results[*lhs].0, &results[*rhs].0) {
                    Ok(Some(*lval || *rval))
                } else {
                    Ok(None)
                }
            },
            Operation::And(lhs, rhs) => {
                if *lhs >= results.len() {
                    return Err(Error::ExpressionFutureReference(*lhs, idx, self.display(Some(idx))));
                }
                if *rhs >= results.len() {
                    return Err(Error::ExpressionFutureReference(*rhs, idx, self.display(Some(idx))));
                }
                if let (Operation::Const(lval), Operation::Const(rval)) = (&results[*lhs].0, &results[*rhs].0) {
                    Ok(Some(*lval && *rval))
                } else {
                    Ok(None)
                }
            },
            _ => Ok(None),
        }
    }

    /// Evaluates the expression under the values of the context: folds each
    /// node that these decide to the constant of its truth value. Fails with
    /// `ExpressionNoop` when there is no node, and with
    /// `ExpressionDisconnected` when a node is neither the root nor an
    /// operand. The expression itself stays as it is.
    pub fn eval(&self, context: &Context<Pid>) -> (res: Result<Evaluated<Pid>>)
        ensures
            match outcome(self@, context@.known()) {
                Outcome::Noop => res matches Err(e) && e@ == ErrorView::ExpressionNoop,
                Outcome::Disconnected(at) => res matches Err(e) && e@ == ErrorView::ExpressionDisconnected(
                    at,
                    rendering(self@, at),
                    rendering(self@, last(self@)),
                ),
                done => res matches Ok(evaluated) && evaluated@ == done,
            },
    {
        proof {
            use_type_invariant(self);
        }
        if self.ops.len() == 0 {
            return Err(Error::ExpressionNoop);
        }
        let ghost known = context@.known();
        let mut partial: Operations<Pid> = Vec::with_capacity(self.ops.len());
        assert(partial.deep_view() =~= residual(self@, known).take(0));
        let mut idx: usize = 0;
        while idx < self.ops.len()
            invariant
                idx <= self.ops.len(),
                self.ops.len() > 0,
                well_formed(self@),
                self@ == self.ops.deep_view(),
                known == context@.known(),
                partial.deep_view() == residual(self@, known).take(idx as int),
                forall|j: int| 0 <= j < idx && j < self.ops.len() - 1 ==> (#[trigger] self@[j]).1 != 0,
            decreases self.ops.len() - idx,
        {
            let op = &self.ops[idx];
            assert(self@[idx as int].1 == op.1);
            if op.1 <= 0 && idx != self.ops.len() - 1 {
                proof {
                    assert(first_loose(self@, idx as int));
                    lemma_first_loose(self@, idx as int);
                }
                return Err(Error::ExpressionDisconnected(idx, self.display(Some(idx)), self.display(None)));
            }
            proof {
                lemma_step(self@, known, idx as int);
                assert(partial.len() == idx) by {
                    assert(partial.deep_view().len() == partial.len());
                }
                assert(op.0.deep_view() == self@[idx as int].0);
            }
            let ghost before = partial.deep_view();
            partial.push(
                match self.eval_single(idx, &op.0, &partial, context)? {
                    Some(val) => (Operation::Const(val), op.1),
                    None => (op.0.clone(), op.1),
                },
            );
            idx += 1;
            assert(partial.deep_view() =~= before.push(folded(self@, known, idx - 1)));
            assert(partial.deep_view() =~= residual(self@, known).take(idx as int));
        }
        proof {
            assert(partial.deep_view() =~= residual(self@, known));
            assert(connected(self@));
            lemma_folded_constant(self@, known, last(self@));
            lemma_residual_well_formed(self@, known);
        }
        let root: usize = self.ops.len() - 1;
        assert(partial.deep_view()[root as int] == folded(self@, known, root as int));
        assert(partial.deep_view()[root as int].0 == partial[root as int].0.deep_view());
        if let Operation::Const(result) = partial[root].0 {
            Ok(Evaluated::Fully(result, partial))
        } else {
            Ok(Evaluated::Partially(Expression { ops: partial }))
        }
    }
}

impl<Pid: Property> Default for Expression<Pid> {
    fn default() -> (expression: Expression<Pid>)
        ensures
            expression@ == Seq::<(OperationView<Pid>, RefCount)>::empty(),
            counted(expression@),
    {
        Expression::new()
    }
}

/// The result of one evaluation.
#[derive(Debug)]
pub enum Evaluated<Pid: Property> {
    /// The truth value of the expression, and its nodes as folded: a log of
    /// the evaluation.
    Fully(bool, Operations<Pid>),
    /// The expression that is left: the nodes as folded, to be evaluated
    /// again when more values are known.
    Partially(Expression<Pid>),
}

impl<Pid: Property> View for Evaluated<Pid> {
    type V = Outcome<Pid>;

    open spec fn view(&self) -> Outcome<Pid> {
        match self {
            Evaluated::Fully(value, log) => Outcome::Fully(*value, log.deep_view()),
            Evaluated::Partially(rest) => Outcome::Partially(rest@),
        }
    }
}

impl<Pid: Property> Evaluated<Pid> {
    /// The result as text.
    pub fn render(&self) -> (text: String)
        ensures
            text@ == self@.rendering(),
    {
        match self {
            Evaluated::Fully(value, log) => {
                let mut text = String::from_str("Fully evaluated to '");
                text.append(if *value {
                    "true"
                } else {
                    "false"
                });
                text.append("', log: [");
                let ghost head = text@;
                let mut idx: usize = 0;
                while idx < log.len()
                    invariant
                        idx <= log.len(),
                        text@ == head + log_text(log.deep_view(), idx as int),
                    decreases log.len() - idx,
                {
                    if let Operation::Const(res) = log[idx].0 {
                        push_decimal(&mut text, idx as u64);
                        text.append(": ");
                        text.append(if res {
                            "true"
                        } else {
                            "false"
                        });
                        text.append(", ");
                    } else {
                        text.append("<unevaluated>");
                    }
                    idx += 1;
                    assert(text@ =~= head + log_text(log.deep_view(), idx as int));
                }
                text.append("]");
                assert(text@ =~= self@.rendering());
                text
            },
            Evaluated::Partially(rest) => {
                let mut text = String::from_str("Partially evaluated, expression: ");
                text.append(rest.render().as_str());
                text
            },
        }
    }
}

} // verus!
