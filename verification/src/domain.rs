//! What a domain has to provide: identifiers for its properties and
//! entities, and for each property a name and a datatype.

use vstd::prelude::*;
use vstd::std_specs::cmp::PartialEqSpec;
use std::marker::PhantomData;
use strum::ParseError;
use crate::error::{Error, ErrorView, Result};
use crate::value::{Datatype, Value};

verus! {

/// An identifier of a domain: a small copyable value, compared with `==`.
///
/// Contexts and expressions find a property again by comparing identifiers,
/// so an implementation proves that its `==` tells two identifiers apart and
/// does nothing else.
pub trait DomainEnum: Copy + PartialEq {
    /// `==` holds of two identifiers exactly when they are the same one.
    proof fn lemma_eq_is_identity()
        ensures
            Self::obeys_eq_spec(),
            forall|a: Self, b: Self| #[trigger] a.eq_spec(&b) <==> (a == b),
    ;
}

/// Whether two identifiers are the same one.
pub fn same<Id: DomainEnum>(a: &Id, b: &Id) -> (equal: bool)
    ensures
        equal == (*a == *b),
{
    proof {
        Id::lemma_eq_is_identity();
    }
    *a == *b
}

/// A property of a domain: a typed, named variable that conditions test.
///
/// The name and the datatype depend on the identifier alone, so they never
/// change.
pub trait Property: DomainEnum {
    /// The name that `name` returns.
    spec fn name_spec(&self) -> Seq<char>;

    /// The datatype that `datatype` returns.
    spec fn datatype_spec(&self) -> Datatype;

    /// The name shown in diagnostics.
    fn name(&self) -> (text: &'static str)
        ensures
            text@ == self.name_spec(),
    ;

    /// The datatype that the property is declared to hold.
    fn datatype(&self) -> (tag: Datatype)
        ensures
            tag == self.datatype_spec(),
    ;

    /// Accepts a value of the property's datatype and no other.
    fn validate(&self, value: &Value) -> (checked: Result<()>)
        ensures
            self.datatype_spec() == value@.datatype() ==> checked is Ok,
            self.datatype_spec() != value@.datatype() ==> (checked matches Err(e) && e@ == ErrorView::TypeMismatch(
                self.name_spec(),
                self.datatype_spec(),
                value@.datatype(),
            )),
    {
        if self.datatype() != value.datatype() {
            Err(Error::TypeMismatch(self.name(), self.datatype(), value.datatype()))
        } else {
            Ok(())
        }
    }
}

/// The error for a value of datatype `given` where the property declares
/// another.
pub open spec fn mismatch<Pid: Property>(property: Pid, given: Datatype) -> ErrorView {
    ErrorView::TypeMismatch(property.name_spec(), property.datatype_spec(), given)
}

/// An entity of a domain: a named group of properties.
///
/// The name and the properties depend on the identifier alone.
pub trait Entity<Prop: Property>: DomainEnum {
    /// The name that `name` returns.
    spec fn name_spec(&self) -> Seq<char>;

    /// The properties that `properties` returns.
    spec fn properties_spec(&self) -> Seq<Prop>;

    /// The name shown in diagnostics.
    fn name(&self) -> (text: &str)
        ensures
            text@ == self.name_spec(),
    ;

    /// The properties that the entity owns.
    fn properties(&self) -> (owned: &[Prop])
        ensures
            owned@ == self.properties_spec(),
    ;
}

/// A domain: its properties and its entities.
pub trait Domain<Pid: Property, Eid: Entity<Pid>> {
    type Property;

    type Entity;
}

/// Turns the outcome of parsing a name into an identifier of the domain.
pub struct Lookup<Pid: Property, Eid: Entity<Pid>> {
    eid: PhantomData<Eid>,
    pid: PhantomData<Pid>,
}

impl<Pid: Property, Eid: Entity<Pid>> Lookup<Pid, Eid> {
    /// The property that a name was parsed to, or `IdentifierNotFound` with
    /// the parser's reason.
    pub fn property(parsed: std::result::Result<Pid, ParseError>) -> (found: Result<Pid>)
        ensures
            match parsed {
                Ok(id) => found == Ok::<Pid, Error>(id),
                Err(cause) => found == Err::<Pid, Error>(Error::IdentifierNotFound(cause)),
            },
    {
        match parsed {
            Ok(id) => Ok(id),
            Err(cause) => Err(Error::from(cause)),
        }
    }

    /// The entity that a name was parsed to, or `IdentifierNotFound` with
    /// the parser's reason.
    pub fn entity(parsed: std::result::Result<Eid, ParseError>) -> (found: Result<Eid>)
        ensures
            match parsed {
                Ok(id) => found == Ok::<Eid, Error>(id),
                Err(cause) => found == Err::<Eid, Error>(Error::IdentifierNotFound(cause)),
            },
    {
        match parsed {
            Ok(id) => Ok(id),
            Err(cause) => Err(Error::from(cause)),
        }
    }
}

} // verus!
