//! A small domain: three properties, one of each datatype, and the one
//! entity that owns them.

use vstd::prelude::*;
use vstd::std_specs::cmp::PartialEqSpecImpl;
use vstd::string::StringExecFns;
use crate::domain;
use crate::value::Datatype;

verus! {

/// The properties of the domain, each named after its datatype.
#[derive(Clone, Copy, Hash, Eq, Debug)]
pub enum Property {
    Bool,
    Int,
    Str,
}

impl PartialEq for Property {
    fn eq(&self, other: &Property) -> (same: bool) {
        match (self, other) {
            (Property::Bool, Property::Bool) => true,
            (Property::Int, Property::Int) => true,
            (Property::Str, Property::Str) => true,
            _ => false,
        }
    }
}

impl PartialEqSpecImpl for Property {
    open spec fn obeys_eq_spec() -> bool {
        true
    }

    open spec fn eq_spec(&self, other: &Property) -> bool {
        *self == *other
    }
}

impl Property {
    /// The property as text: its name.
    pub fn render(&self) -> (text: String)
        ensures
            text@ == domain::Property::name_spec(self),
    {
        String::from_str(domain::Property::name(self))
    }
}

impl domain::DomainEnum for Property {
    proof fn lemma_eq_is_identity() {
    }
}

impl domain::Property for Property {
    open spec fn name_spec(&self) -> Seq<char> {
        match self {
            Property::Bool => "Property::Bool"@,
            Property::Int => "Property::Int"@,
            Property::Str => "Property::Str"@,
        }
    }

    open spec fn datatype_spec(&self) -> Datatype {
        match self {
            Property::Bool => Datatype::Bool,
            Property::Int => Datatype::Int,
            Property::Str => Datatype::Str,
        }
    }

    fn name(&self) -> &'static str {
        match self {
            Property::Bool => "Property::Bool",
            Property::Int => "Property::Int",
            Property::Str => "Property::Str",
        }
    }

    fn datatype(&self) -> Datatype {
        match self {
            Property::Bool => Datatype::Bool,
            Property::Int => Datatype::Int,
            Property::Str => Datatype::Str,
        }
    }
}

/// The entities of the domain.
#[derive(Clone, Copy, Hash, Eq, Debug)]
pub enum Entity {
    Record,
}

impl PartialEq for Entity {
    fn eq(&self, other: &Entity) -> (same: bool) {
        match (self, other) {
            (Entity::Record, Entity::Record) => true,
        }
    }
}

impl PartialEqSpecImpl for Entity {
    open spec fn obeys_eq_spec() -> bool {
        true
    }

    open spec fn eq_spec(&self, other: &Entity) -> bool {
        *self == *other
    }
}

impl domain::DomainEnum for Entity {
    proof fn lemma_eq_is_identity() {
    }
}

impl domain::Entity<Property> for Entity {
    open spec fn name_spec(&self) -> Seq<char> {
        match self {
            Entity::Record => "Entity::Record"@,
        }
    }

    open spec fn properties_spec(&self) -> Seq<Property> {
        match self {
            Entity::Record => seq![Property::Bool, Property::Int, Property::Str],
        }
    }

    fn name(&self) -> &str {
        match self {
            Entity::Record => "Entity::Record",
        }
    }

    fn properties(&self) -> &[Property] {
        match self {
            Entity::Record => {
                let owned: &[Property] = &[Property::Bool, Property::Int, Property::Str];
                assert(owned@ =~= seq![Property::Bool, Property::Int, Property::Str]);
                owned
            },
        }
    }
}

} // verus!
