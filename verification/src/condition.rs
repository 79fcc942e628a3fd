//! Conditions: a property tested against one expected value, or against a
//! set of them.

use vstd::prelude::*;
use vstd::string::StringExecFns;
use crate::domain::{mismatch, Property};
use crate::sequence::{distinct, lemma_distinct};
use crate::error::Result;
use crate::value::{Value, ValueView};

verus! {

/// The mathematical content of an [`Is`].
pub struct IsView<Pid> {
    pub variable: Pid,
    pub expected: ValueView,
}

impl<Pid: Property> IsView<Pid> {
    /// The expected value is of the property's datatype.
    pub open spec fn wf(self) -> bool {
        self.variable.datatype_spec() == self.expected.datatype()
    }

    /// Whether a value meets the condition.
    pub open spec fn holds(self, actual: ValueView) -> bool {
        actual == self.expected
    }

    /// The condition as text: the property's name, its datatype in
    /// brackets, `==` and the expected value.
    pub open spec fn rendering(self) -> Seq<char> {
        self.variable.name_spec() + " ("@ + self.variable.datatype_spec().rendering() + ") == "@
            + self.expected.rendering()
    }
}

/// The condition that a property equals a value.
#[derive(Debug)]
pub struct Is<Pid: Property> {
    variable: Pid,
    expected: Value,
}

impl<Pid: Property> View for Is<Pid> {
    type V = IsView<Pid>;

    closed spec fn view(&self) -> IsView<Pid> {
        IsView { variable: self.variable, expected: self.expected@ }
    }
}

impl<Pid: Property> DeepView for Is<Pid> {
    type V = IsView<Pid>;

    open spec fn deep_view(&self) -> IsView<Pid> {
        self@
    }
}

impl<Pid: Property> Clone for Is<Pid> {
    fn clone(&self) -> (copy: Is<Pid>)
        ensures
            copy@ == self@,
    {
        proof {
            use_type_invariant(self);
        }
        Is { variable: self.variable, expected: self.expected.clone() }
    }
}

impl<Pid: Property> Is<Pid> {
    /// Holds of every condition: the expected value is of the property's
    /// datatype.
    #[verifier::type_invariant]
    pub open spec fn wf(self) -> bool {
        self@.wf()
    }

    /// Binds a property to the value it is expected to have. Fails with
    /// `TypeMismatch` when the value is not of the property's datatype.
    pub fn new(variable: Pid, expected: Value) -> (made: Result<Is<Pid>>)
        ensures
            variable.datatype_spec() == expected@.datatype() ==> (made matches Ok(cond) && cond@ == (IsView {
                variable,
                expected: expected@,
            })),
            variable.datatype_spec() != expected@.datatype() ==> (made matches Err(e) && e@ == mismatch(
                variable,
                expected@.datatype(),
            )),
    {
        variable.validate(&expected)?;
        Ok(Is { variable, expected })
    }

    /// The property that the condition tests.
    pub fn variable(&self) -> (id: Pid)
        ensures
            id == self@.variable,
    {
        self.variable
    }

    /// Whether `actual` is the expected value. Fails with `TypeMismatch`
    /// when `actual` is not of the property's datatype.
    pub fn eval(&self, actual: &Value) -> (met: Result<bool>)
        ensures
            self@.variable.datatype_spec() == actual@.datatype() ==> (met matches Ok(holds) && holds
                == self@.holds(actual@)),
            self@.variable.datatype_spec() != actual@.datatype() ==> (met matches Err(e) && e@ == mismatch(
                self@.variable,
                actual@.datatype(),
            )),
    {
        self.variable.validate(actual)?;
        Ok(self.expected == *actual)
    }

    /// The condition as text.
    pub fn render(&self) -> (text: String)
        ensures
            text@ == self@.rendering(),
    {
        let mut text = String::from_str(self.variable.name());
        text.append(" (");
        text.append(self.variable.datatype().render().as_str());
        text.append(") == ");
        text.append(self.expected.render().as_str());
        assert(text@ =~= self@.rendering());
        text
    }
}

/// The value at `at` is the first in the list that is not of the
/// property's datatype.
pub open spec fn first_mismatch<Pid: Property>(variable: Pid, values: Seq<ValueView>, at: int) -> bool {
    &&& 0 <= at < values.len()
    &&& values[at].datatype() != variable.datatype_spec()
    &&& forall|j: int| 0 <= j < at ==> (#[trigger] values[j]).datatype() == variable.datatype_spec()
}

/// Every value in the list is of the property's datatype.
pub open spec fn all_match<Pid: Property>(variable: Pid, values: Seq<ValueView>) -> bool {
    forall|i: int| 0 <= i < values.len() ==> (#[trigger] values[i]).datatype() == variable.datatype_spec()
}

/// The items of a list as text, each followed by a comma and a space.
pub open spec fn listing(values: Seq<ValueView>) -> Seq<char>
    decreases values.len(),
{
    if values.len() == 0 {
        Seq::empty()
    } else {
        listing(values.drop_last()) + values.last().rendering() + ", "@
    }
}

/// The mathematical content of an [`In`]: the property, and the expected
/// values in the order in which they were first given.
pub struct InView<Pid> {
    pub variable: Pid,
    pub expected: Seq<ValueView>,
}

impl<Pid: Property> InView<Pid> {
    /// No expected value occurs twice, and each is of the property's
    /// datatype.
    pub open spec fn wf(self) -> bool {
        &&& self.expected.no_duplicates()
        &&& forall|i: int|
            0 <= i < self.expected.len() ==> (#[trigger] self.expected[i]).datatype()
                == self.variable.datatype_spec()
    }

    /// The set of expected values.
    pub open spec fn members(self) -> Set<ValueView> {
        self.expected.to_set()
    }

    /// Whether a value meets the condition.
    pub open spec fn holds(self, actual: ValueView) -> bool {
        self.expected.contains(actual)
    }

    /// The condition as text: the property's name, its datatype in
    /// brackets, `in` and the list of expected values.
    pub open spec fn rendering(self) -> Seq<char> {
        self.variable.name_spec() + " ("@ + self.variable.datatype_spec().rendering() + ") in ["@
            + listing(self.expected) + "]"@
    }
}

/// Whether the list holds a value equal to `needle`.
fn holds_value(values: &Vec<Value>, needle: &Value) -> (found: bool)
    ensures
        found == values.deep_view().contains(needle@),
{
    let mut i: usize = 0;
    while i < values.len()
        invariant
            i <= values.len(),
            forall|j: int| 0 <= j < i ==> values.deep_view()[j] != needle@,
        decreases values.len() - i,
    {
        if values[i] == *needle {
            assert(values.deep_view()[i as int] == needle@);
            return true;
        }
        i += 1;
    }
    false
}

/// The condition that a property has one of a set of values.
#[derive(Debug)]
pub struct In<Pid: Property> {
    variable: Pid,
    expected: Vec<Value>,
}

impl<Pid: Property> View for In<Pid> {
    type V = InView<Pid>;

    closed spec fn view(&self) -> InView<Pid> {
        InView { variable: self.variable, expected: self.expected.deep_view() }
    }
}

impl<Pid: Property> DeepView for In<Pid> {
    type V = InView<Pid>;

    open spec fn deep_view(&self) -> InView<Pid> {
        self@
    }
}

impl<Pid: Property> Clone for In<Pid> {
    fn clone(&self) -> (copy: In<Pid>)
        ensures
            copy@ == self@,
    {
        proof {
            use_type_invariant(self);
        }
        let mut expected: Vec<Value> = Vec::new();
        let mut i: usize = 0;
        while i < self.expected.len()
            invariant
                i <= self.expected.len(),
                expected.deep_view() == self.expected.deep_view().take(i as int),
            decreases self.expected.len() - i,
        {
            let ghost before = expected.deep_view();
            expected.push(self.expected[i].clone());
            assert(expected.deep_view() =~= before.push(self.expected[i as int]@));
            i += 1;
            assert(expected.deep_view() =~= self.expected.deep_view().take(i as int));
        }
        assert(expected.deep_view() =~= self.expected.deep_view());
        In { variable: self.variable, expected }
    }
}

impl<Pid: Property> In<Pid> {
    /// Holds of every condition: no expected value occurs twice, and each
    /// is of the property's datatype.
    #[verifier::type_invariant]
    pub open spec fn wf(self) -> bool {
        self@.wf()
    }

    /// Binds a property to the values it is expected to be among; a value
    /// given twice counts once. Fails with `TypeMismatch`, for the first
    /// value in the list that is not of the property's datatype.
    pub fn new(variable: Pid, expected: Vec<Value>) -> (made: Result<In<Pid>>)
        ensures
            match made {
                Ok(cond) => {
                    &&& all_match(variable, expected.deep_view())
                    &&& cond@ == (InView { variable, expected: distinct(expected.deep_view()) })
                    &&& cond@.members() == expected.deep_view().to_set()
                },
                Err(e) => exists|at: int|
                    {
                        &&& #[trigger] first_mismatch(variable, expected.deep_view(), at)
                        &&& e@ == mismatch(variable, expected.deep_view()[at].datatype())
                    },
            },
    {
        let ghost given = expected.deep_view();
        let mut kept: Vec<Value> = Vec::new();
        let mut i: usize = 0;
        while i < expected.len()
            invariant
                i <= expected.len(),
                given == expected.deep_view(),
                forall|j: int| 0 <= j < i ==> (#[trigger] given[j]).datatype() == variable.datatype_spec(),
                kept.deep_view() == distinct(given.take(i as int)),
            decreases expected.len() - i,
        {
            match variable.validate(&expected[i]) {
                Err(e) => {
                    assert(first_mismatch(variable, given, i as int));
                    return Err(e);
                },
                Ok(()) => {},
            }
            assert(given[i as int] == expected[i as int]@);
            let ghost before = kept.deep_view();
            assert(given.take(i + 1).drop_last() =~= given.take(i as int));
            assert(given.take(i + 1).last() == expected[i as int]@);
            if !holds_value(&kept, &expected[i]) {
                kept.push(expected[i].clone());
                assert(kept.deep_view() =~= before.push(expected[i as int]@));
            }
            i += 1;
        }
        proof {
            assert(given.take(i as int) =~= given);
            lemma_distinct(given);
            assert(kept.deep_view().to_set() =~= given.to_set()) by {
                assert forall|v: ValueView| kept.deep_view().to_set().contains(v) <==> given.to_set().contains(
                    v,
                ) by {
                    assert(kept.deep_view().contains(v) <==> given.contains(v));
                }
            }
            assert forall|k: int| 0 <= k < kept.deep_view().len() implies (#[trigger] kept.deep_view()[k]).datatype()
                == variable.datatype_spec() by {
                let v = kept.deep_view()[k];
                assert(kept.deep_view().contains(v));
                assert(given.contains(v));
                let j = choose|j: int| 0 <= j < given.len() && given[j] == v;
                assert(given[j].datatype() == variable.datatype_spec());
            }
        }
        Ok(In { variable, expected: kept })
    }

    /// The property that the condition tests.
    pub fn variable(&self) -> (id: Pid)
        ensures
            id == self@.variable,
    {
        self.variable
    }

    /// Whether `actual` is one of the expected values. Fails with
    /// `TypeMismatch` when `actual` is not of the property's datatype.
    pub fn eval(&self, actual: &Value) -> (met: Result<bool>)
        ensures
            self@.variable.datatype_spec() == actual@.datatype() ==> (met matches Ok(holds) && holds
                == self@.holds(actual@)),
            self@.variable.datatype_spec() != actual@.datatype() ==> (met matches Err(e) && e@ == mismatch(
                self@.variable,
                actual@.datatype(),
            )),
    {
        self.variable.validate(actual)?;
        Ok(holds_value(&self.expected, actual))
    }

    /// The condition as text.
    pub fn render(&self) -> (text: String)
        ensures
            text@ == self@.rendering(),
    {
        let mut text = String::from_str(self.variable.name());
        text.append(" (");
        text.append(self.variable.datatype().render().as_str());
        text.append(") in [");
        let ghost head = text@;
        let mut i: usize = 0;
        while i < self.expected.len()
            invariant
                i <= self.expected.len(),
                text@ == head + listing(self.expected.deep_view().take(i as int)),
            decreases self.expected.len() - i,
        {
            let ghost shown = self.expected.deep_view().take(i as int);
            text.append(self.expected[i].render().as_str());
            text.append(", ");
            i += 1;
            proof {
                let now = self.expected.deep_view().take(i as int);
                assert(now.drop_last() =~= shown);
                assert(now.last() == self.expected[i - 1]@);
                assert(text@ =~= head + listing(now));
            }
        }
        assert(self.expected.deep_view().take(i as int) =~= self.expected.deep_view());
        text.append("]");
        assert(text@ =~= self@.rendering());
        text
    }
}

} // verus!
