//! The errors of the engine.

use vstd::prelude::*;
use vstd::std_specs::convert::FromSpecImpl;
use vstd::string::StringExecFns;
use strum::ParseError;
use crate::text::{decimal, push_decimal};
use crate::value::Datatype;

verus! {

/// `strum::ParseError`: why a name matched no variant of an enum. Carried
/// through as it came; nothing in this crate looks inside.
#[verifier::external_type_specification]
#[verifier::external_body]
pub struct ExParseError(strum::ParseError);

#[derive(Debug)]
pub enum Error {
    /// A name matched no property or entity of the domain.
    IdentifierNotFound(ParseError),
    /// A value's datatype is not the one its property declares: the
    /// property's name, the property's datatype, the value's datatype.
    TypeMismatch(&'static str, Datatype, Datatype),
    /// An expression without nodes was evaluated.
    ExpressionNoop,
    /// A node was built over a reference that no node has: the reference,
    /// the last valid reference, the expression as text.
    ExpressionOutOfBounds(usize, usize, String),
    /// A node refers to a node that is not before it: the reference, the
    /// node's index, the node as text.
    ExpressionFutureReference(usize, usize, String),
    /// A node other than the root is no operand of any node: its index, the
    /// node as text, the expression as text.
    ExpressionDisconnected(usize, String, String),
}

/// The mathematical content of an [`Error`].
pub enum ErrorView {
    IdentifierNotFound(ParseError),
    TypeMismatch(Seq<char>, Datatype, Datatype),
    ExpressionNoop,
    ExpressionOutOfBounds(int, int, Seq<char>),
    ExpressionFutureReference(int, int, Seq<char>),
    ExpressionDisconnected(int, Seq<char>, Seq<char>),
}

impl ErrorView {
    /// The error as a sentence.
    pub open spec fn rendering(self) -> Seq<char> {
        match self {
            ErrorView::IdentifierNotFound(_) => "Property or Entity identifier was not found in the domain"@,
            ErrorView::TypeMismatch(name, declared, given) => "Property type mismatch: property '"@ + name
                + "' is "@ + declared.rendering() + ", but provided value is "@ + given.rendering(),
            ErrorView::ExpressionNoop => "Expression is empty"@,
            ErrorView::ExpressionOutOfBounds(at, last, shown) => "Operation reference "@ + decimal(at as nat)
                + "/"@ + decimal(last as nat) + " is out of bounds; expression: "@ + shown,
            ErrorView::ExpressionFutureReference(at, node, shown) => "Operation reference "@ + decimal(
                at as nat,
            ) + " is invalid: it points to an operation that is not defined yet ("@ + decimal(node as nat)
                + "); expression: "@ + shown,
            ErrorView::ExpressionDisconnected(node, shown, root) => "Expression is inconsistent: operation "@
                + decimal(node as nat) + " ("@ + shown + ") is not connected to the root ("@ + root + ")"@,
        }
    }
}

impl Error {
    /// The error as a sentence.
    pub fn render(&self) -> (text: String)
        ensures
            text@ == self@.rendering(),
    {
        match self {
            Error::IdentifierNotFound(_) => String::from_str(
                "Property or Entity identifier was not found in the domain",
            ),
            Error::TypeMismatch(name, declared, given) => {
                let mut text = String::from_str("Property type mismatch: property '");
                text.append(name);
                text.append("' is ");
                text.append(declared.render().as_str());
                text.append(", but provided value is ");
                text.append(given.render().as_str());
                assert(text@ =~= self@.rendering());
                text
            },
            Error::ExpressionNoop => String::from_str("Expression is empty"),
            Error::ExpressionOutOfBounds(at, last, shown) => {
                let mut text = String::from_str("Operation reference ");
                push_decimal(&mut text, *at as u64);
                text.append("/");
                push_decimal(&mut text, *last as u64);
                text.append(" is out of bounds; expression: ");
                text.append(shown.as_str());
                assert(text@ =~= self@.rendering());
                text
            },
            Error::ExpressionFutureReference(at, node, shown) => {
                let mut text = String::from_str("Operation reference ");
                push_decimal(&mut text, *at as u64);
                text.append(" is invalid: it points to an operation that is not defined yet (");
                push_decimal(&mut text, *node as u64);
                text.append("); expression: ");
                text.append(shown.as_str());
                assert(text@ =~= self@.rendering());
                text
            },
            Error::ExpressionDisconnected(node, shown, root) => {
                let mut text = String::from_str("Expression is inconsistent: operation ");
                push_decimal(&mut text, *node as u64);
                text.append(" (");
                text.append(shown.as_str());
                text.append(") is not connected to the root (");
                text.append(root.as_str());
                text.append(")");
                assert(text@ =~= self@.rendering());
                text
            },
        }
    }
}

impl View for Error {
    type V = ErrorView;

    open spec fn view(&self) -> ErrorView {
        match self {
            Error::IdentifierNotFound(cause) => ErrorView::IdentifierNotFound(*cause),
            Error::TypeMismatch(name, declared, given) => ErrorView::TypeMismatch(
                name@,
                *declared,
                *given,
            ),
            Error::ExpressionNoop => ErrorView::ExpressionNoop,
            Error::ExpressionOutOfBounds(at, last, shown) => ErrorView::ExpressionOutOfBounds(
                *at as int,
                *last as int,
                shown@,
            ),
            Error::ExpressionFutureReference(at, node, shown) => ErrorView::ExpressionFutureReference(
                *at as int,
                *node as int,
                shown@,
            ),
            Error::ExpressionDisconnected(node, shown, root) => ErrorView::ExpressionDisconnected(
                *node as int,
                shown@,
                root@,
            ),
        }
    }
}

impl From<ParseError> for Error {
    fn from(cause: ParseError) -> (error: Error) {
        Error::IdentifierNotFound(cause)
    }
}

impl FromSpecImpl<ParseError> for Error {
    open spec fn obeys_from_spec() -> bool {
        true
    }

    open spec fn from_spec(cause: ParseError) -> Error {
        Error::IdentifierNotFound(cause)
    }
}

pub type Result<T> = std::result::Result<T, Error>;

} // verus!
