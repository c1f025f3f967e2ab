//! The errors of validation, with their causes and their messages.

use vstd::prelude::*;
use vstd::string::StringExecFns;

use crate::primitives::Integer;
use crate::text::{decimal, push_decimal, push_integer, signed_decimal};

verus! {

/// Why a byte string is not a packed value of a layout.
#[derive(Debug)]
pub enum Error {
    /// The slice has not the size of the layout.
    InvalidSize {
        /// the name of the layout
        ty: String,
        /// the length of the slice
        received: usize,
        /// the size of the layout
        expected: usize,
    },
    /// The bytes differ from the constant that the layout fixes.
    Assumption {
        /// the name of the type that was compared
        ty: String,
        /// the comparison that failed
        assumption: String,
        /// what was expected and what was received
        message: String,
    },
    /// The bytes hold a number that no variant has for its discriminant.
    InvalidDiscriminant {
        /// the name of the layout
        ty: String,
        /// the discriminants of the variants, with `, ` between them
        options: String,
        /// the number found
        found: Integer,
    },
    /// A named field of a composite is not valid.
    InvalidField {
        /// the name of the field's layout
        ty: String,
        /// the name of the field
        field: String,
    },
    /// A positional field of a composite is not valid.
    InvalidTuple {
        /// the name of the field's layout
        ty: String,
        /// the position of the field
        index: usize,
    },
    /// A plain message.
    Message(String),
    /// A cause that is reported as it is.
    Custom(Box<Error>),
    /// An error together with the error that caused it.
    Context {
        /// the name of the type of what was asked for
        ty: String,
        /// what went wrong
        error: Box<Error>,
        /// why it went wrong
        cause: Box<Error>,
    },
}

/// The mathematical content of an [`Error`].
pub enum ErrorView {
    InvalidSize { ty: Seq<char>, received: nat, expected: nat },
    Assumption { ty: Seq<char>, assumption: Seq<char>, message: Seq<char> },
    InvalidDiscriminant { ty: Seq<char>, options: Seq<char>, found: int },
    InvalidField { ty: Seq<char>, field: Seq<char> },
    InvalidTuple { ty: Seq<char>, index: nat },
    Message(Seq<char>),
    Custom(Box<ErrorView>),
    Context { ty: Seq<char>, error: Box<ErrorView>, cause: Box<ErrorView> },
}

impl ErrorView {
    /// The message of the error.
    pub open spec fn text(self) -> Seq<char>
        decreases self,
    {
        match self {
            ErrorView::InvalidSize { ty, received, expected } => "Invalid size for "@ + ty
                + ": expected "@ + decimal(expected) + " bytes but received "@ + decimal(received)
                + " bytes"@,
            ErrorView::Assumption { ty, assumption, message } => "Assumption `"@ + assumption
                + "` failed for "@ + ty + ": "@ + message,
            ErrorView::InvalidDiscriminant { ty, options, found } => "Invalid discriminant for "@
                + ty + ", received "@ + signed_decimal(found) + " while expecting one of: [ "@
                + options + "]"@,
            ErrorView::InvalidField { ty, field } => "Field "@ + field + " of "@ + ty
                + " is not valid"@,
            ErrorView::InvalidTuple { ty, index } => "Tuple entry "@ + ty + "."@ + decimal(index)
                + " is not valid"@,
            ErrorView::Message(message) => message,
            ErrorView::Custom(cause) => cause.text(),
            ErrorView::Context { ty, error, cause } => ty + ": "@ + error.text(),
        }
    }

    /// The error that an error reports of `context`, with `self` for its
    /// cause; `ty` names the type of what was asked for.
    pub open spec fn in_context(self, ty: Seq<char>, context: ErrorView) -> ErrorView {
        ErrorView::Context {
            ty,
            error: Box::new(context),
            cause: Box::new(ErrorView::Custom(Box::new(self))),
        }
    }

    /// The error that caused this one, if it has a cause.
    pub open spec fn source(self) -> Option<ErrorView>
        decreases self,
    {
        match self {
            ErrorView::Custom(cause) => cause.source(),
            ErrorView::Context { ty, error, cause } => Some(*cause),
            _ => None,
        }
    }

    /// The causes of the error, the nearest first: the cause of the error,
    /// the cause of that cause, and so on down to the error that has none.
    pub open spec fn causes(self) -> Seq<ErrorView>
        decreases self,
    {
        match self {
            ErrorView::Custom(cause) => cause.causes(),
            ErrorView::Context { ty, error, cause } => seq![*cause] + cause.causes(),
            _ => Seq::<ErrorView>::empty(),
        }
    }
}

/// The causes of an error begin with its cause, and go on with the causes of
/// that cause. An error without cause has no causes.
pub proof fn lemma_causes(error: ErrorView)
    ensures
        match error.source() {
            Some(cause) => error.causes() == seq![cause] + cause.causes(),
            None => error.causes().len() == 0,
        },
    decreases error,
{
    match error {
        ErrorView::Custom(cause) => {
            lemma_causes(*cause);
        },
        _ => {},
    }
}

impl Error {
    /// The mathematical content of the error.
    pub open spec fn model(&self) -> ErrorView
        decreases self,
    {
        match self {
            Error::InvalidSize { ty, received, expected } => ErrorView::InvalidSize {
                ty: ty@,
                received: *received as nat,
                expected: *expected as nat,
            },
            Error::Assumption { ty, assumption, message } => ErrorView::Assumption {
                ty: ty@,
                assumption: assumption@,
                message: message@,
            },
            Error::InvalidDiscriminant { ty, options, found } => ErrorView::InvalidDiscriminant {
                ty: ty@,
                options: options@,
                found: found.as_int(),
            },
            Error::InvalidField { ty, field } => ErrorView::InvalidField { ty: ty@, field: field@ },
            Error::InvalidTuple { ty, index } => ErrorView::InvalidTuple {
                ty: ty@,
                index: *index as nat,
            },
            Error::Message(message) => ErrorView::Message(message@),
            Error::Custom(cause) => ErrorView::Custom(Box::new(cause.model())),
            Error::Context { ty, error, cause } => ErrorView::Context {
                ty: ty@,
                error: Box::new(error.model()),
                cause: Box::new(cause.model()),
            },
        }
    }
}

impl View for Error {
    type V = ErrorView;

    open spec fn view(&self) -> ErrorView {
        self.model()
    }
}

impl Error {
    /// The error of a slice of `received` bytes where the layout `ty` takes
    /// `expected` bytes.
    pub fn invalid_size(ty: &str, received: usize, expected: usize) -> (error: Error)
        ensures
            error@ == (ErrorView::InvalidSize {
                ty: ty@,
                received: received as nat,
                expected: expected as nat,
            }),
    {
        Error::InvalidSize { ty: String::from_str(ty), received, expected }
    }

    /// The error of the number `found` where the layout `ty` has the
    /// discriminants listed in `options`.
    pub fn invalid_discriminant(ty: &str, found: Integer, options: &str) -> (error: Error)
        ensures
            error@ == (ErrorView::InvalidDiscriminant {
                ty: ty@,
                options: options@,
                found: found.as_int(),
            }),
    {
        Error::InvalidDiscriminant {
            ty: String::from_str(ty),
            options: String::from_str(options),
            found,
        }
    }

    /// The error of the field named `field`, whose layout is `ty`.
    pub fn invalid_field(ty: &str, field: &str) -> (error: Error)
        ensures
            error@ == (ErrorView::InvalidField { ty: ty@, field: field@ }),
    {
        Error::InvalidField { ty: String::from_str(ty), field: String::from_str(field) }
    }

    /// The error of the field at position `index`, whose layout is `ty`.
    pub fn invalid_tuple(ty: &str, index: usize) -> (error: Error)
        ensures
            error@ == (ErrorView::InvalidTuple { ty: ty@, index: index as nat }),
    {
        Error::InvalidTuple { ty: String::from_str(ty), index }
    }

    /// The error that is nothing but a message.
    pub fn message(message: &str) -> (error: Error)
        ensures
            error@ == ErrorView::Message(message@),
    {
        Error::Message(String::from_str(message))
    }

    /// Appends the message of the error to `out`.
    fn render(&self, out: &mut String)
        ensures
            final(out)@ == old(out)@ + self@.text(),
        decreases self,
    {
        match self {
            Error::InvalidSize { ty, received, expected } => {
                out.append("Invalid size for ");
                out.append(ty.as_str());
                out.append(": expected ");
                push_decimal(out, *expected as u128);
                out.append(" bytes but received ");
                push_decimal(out, *received as u128);
                out.append(" bytes");
                assert(out@ =~= old(out)@ + self@.text());
            },
            Error::Assumption { ty, assumption, message } => {
                out.append("Assumption `");
                out.append(assumption.as_str());
                out.append("` failed for ");
                out.append(ty.as_str());
                out.append(": ");
                out.append(message.as_str());
                assert(out@ =~= old(out)@ + self@.text());
            },
            Error::InvalidDiscriminant { ty, options, found } => {
                out.append("Invalid discriminant for ");
                out.append(ty.as_str());
                out.append(", received ");
                push_integer(out, *found);
                out.append(" while expecting one of: [ ");
                out.append(options.as_str());
                out.append("]");
                assert(out@ =~= old(out)@ + self@.text());
            },
            Error::InvalidField { ty, field } => {
                out.append("Field ");
                out.append(field.as_str());
                out.append(" of ");
                out.append(ty.as_str());
                out.append(" is not valid");
                assert(out@ =~= old(out)@ + self@.text());
            },
            Error::InvalidTuple { ty, index } => {
                out.append("Tuple entry ");
                out.append(ty.as_str());
                out.append(".");
                push_decimal(out, *index as u128);
                out.append(" is not valid");
                assert(out@ =~= old(out)@ + self@.text());
            },
            Error::Message(message) => {
                out.append(message.as_str());
            },
            Error::Custom(cause) => {
                cause.render(out);
            },
            Error::Context { ty, error, cause } => {
                out.append(ty.as_str());
                out.append(": ");
                error.render(out);
                assert(out@ =~= old(out)@ + self@.text());
            },
        }
    }

    /// The message of the error.
    pub fn to_string(&self) -> (text: String)
        ensures
            text@ == self@.text(),
    {
        let mut out = String::new();
        self.render(&mut out);
        assert(Seq::<char>::empty() + self@.text() =~= self@.text());
        out
    }

    /// The error that caused this one, if it has a cause. A cause that is
    /// reported as it is has the cause of what it holds.
    pub fn source(&self) -> (cause: Option<&Error>)
        ensures
            match self@.source() {
                Some(inner) => cause is Some && cause.unwrap()@ == inner,
                None => cause is None,
            },
        decreases self,
    {
        match self {
            Error::Custom(cause) => cause.source(),
            Error::Context { ty, error, cause } => Some(&**cause),
            _ => None,
        }
    }

    /// The causes of the error, the nearest first: the path from what was
    /// asked for down to what failed.
    pub fn causes(&self) -> (list: Vec<&Error>)
        ensures
            list@.len() == self@.causes().len(),
            forall|i: int| 0 <= i < list@.len() ==> (#[trigger] list@[i])@ == self@.causes()[i],
        decreases self,
    {
        match self {
            Error::Custom(cause) => cause.causes(),
            Error::Context { ty, error, cause } => {
                let mut list: Vec<&Error> = Vec::new();
                list.push(&**cause);
                let mut rest = cause.causes();
                list.append(&mut rest);
                list
            },
            _ => Vec::new(),
        }
    }
}

/// The results to which a context can be attached.
pub trait Sealed {

}

impl<T> Sealed for Result<T, Error> {

}

/// Attaching to a failure what was being done when it happened.
pub trait Context<T>: Sealed {
    /// The result that `self` becomes in the context of `context`.
    spec fn spec_context(self, ty: Seq<char>, context: ErrorView) -> Result<T, ErrorView>;

    /// Keeps a success as it is. Turns a failure into the error `context`
    /// with the failure for its cause; `ty` names the type of what was asked
    /// for.
    fn context(self, ty: &str, context: Error) -> (result: Result<T, Error>)
        ensures
            match self.spec_context(ty@, context@) {
                Ok(value) => result == Ok::<T, Error>(value),
                Err(error) => result is Err && result->Err_0@ == error,
            },
    ;
}

impl<T> Context<T> for Result<T, Error> {
    open spec fn spec_context(self, ty: Seq<char>, context: ErrorView) -> Result<T, ErrorView> {
        match self {
            Ok(value) => Ok(value),
            Err(cause) => Err(cause@.in_context(ty, context)),
        }
    }

    fn context(self, ty: &str, context: Error) -> (result: Result<T, Error>) {
        proof {
            reveal_with_fuel(Error::model, 3);
        }
        match self {
            Ok(value) => Ok(value),
            Err(cause) => Err(
                Error::Context {
                    ty: String::from_str(ty),
                    error: Box::new(context),
                    cause: Box::new(Error::Custom(Box::new(cause))),
                },
            ),
        }
    }
}

} // verus!
