//! The error taxonomy shared by the parser and the store operations, and
//! its rendering to the human-readable text that the dispatcher prints.

use vstd::prelude::*;

verus! {

/// Which value shape an operation required when it found another.
#[derive(Clone, Copy, PartialEq, Eq, Structural, Debug)]
pub enum TypeKind {
    Number,
    SetLike,
}

/// A failure of one command. Errors are terminal for the single command
/// being processed and never corrupt store state: a failed operation leaves
/// the store unchanged.
#[derive(Debug)]
pub enum ApplicationError {
    /// A read found no value under the key.
    NoSuchKey(String),
    /// The rendered value that was found, and the shape that was required.
    WrongType(String, TypeKind),
    /// The named operation was given too few operands.
    InsufficientOperands(String),
    /// The command line itself was malformed.
    ParseError(String),
}

/// The mathematical shape of an [`ApplicationError`].
#[verifier::ext_equal]
pub enum ErrV {
    NoSuchKey(Seq<char>),
    WrongType(Seq<char>, TypeKind),
    InsufficientOperands(Seq<char>),
    ParseError(Seq<char>),
}

impl View for ApplicationError {
    type V = ErrV;

    open spec fn view(&self) -> ErrV {
        match self {
            ApplicationError::NoSuchKey(k) => ErrV::NoSuchKey(k@),
            ApplicationError::WrongType(v, t) => ErrV::WrongType(v@, *t),
            ApplicationError::InsufficientOperands(op) => ErrV::InsufficientOperands(op@),
            ApplicationError::ParseError(d) => ErrV::ParseError(d@),
        }
    }
}

/// The human-readable message of an error.
pub open spec fn err_msg(e: ErrV) -> Seq<char> {
    match e {
        ErrV::NoSuchKey(k) => "No value at key "@ + k,
        ErrV::WrongType(v, TypeKind::Number) => v + " is not a number"@,
        ErrV::WrongType(v, TypeKind::SetLike) => v + " is not a set"@,
        ErrV::InsufficientOperands(op) => "Not enough sets to "@ + op,
        ErrV::ParseError(d) => d,
    }
}

impl ApplicationError {
    /// Renders this error to its human-readable message.
    pub fn message(&self) -> (r: String)
        ensures
            r@ == err_msg(self@),
    {
        match self {
            ApplicationError::NoSuchKey(k) => {
                let r = "No value at key ".to_owned().concat(k.as_str());
                proof {
                    assert(r@ =~= err_msg(self@));
                }
                r
            },
            ApplicationError::WrongType(v, TypeKind::Number) => {
                let r = v.clone().concat(" is not a number");
                proof {
                    assert(r@ =~= err_msg(self@));
                }
                r
            },
            ApplicationError::WrongType(v, TypeKind::SetLike) => {
                let r = v.clone().concat(" is not a set");
                proof {
                    assert(r@ =~= err_msg(self@));
                }
                r
            },
            ApplicationError::InsufficientOperands(op) => {
                let r = "Not enough sets to ".to_owned().concat(op.as_str());
                proof {
                    assert(r@ =~= err_msg(self@));
                }
                r
            },
            ApplicationError::ParseError(d) => d.clone(),
        }
    }
}

/// Turns an optional value into a result, with a parse error carrying the
/// given message when the value is absent.
pub trait Fallible<S>: Sized {
    fn fail_to(self, message: &str) -> (r: Result<S, ApplicationError>);
}

impl<S> Fallible<S> for Option<S> {
    fn fail_to(self, message: &str) -> (r: Result<S, ApplicationError>)
        ensures
            match self {
                Some(v) => r matches Ok(x) && x == v,
                None => r matches Err(e) && e@ == ErrV::ParseError(message@),
            },
    {
        match self {
            Some(v) => Ok(v),
            None => Err(ApplicationError::ParseError(message.to_owned())),
        }
    }
}

/// Collapses a result whose success is itself a result over the same error
/// type into a single layer.
pub trait Flattenable<S>: Sized {
    fn flatten(self) -> (r: Result<S, ApplicationError>);
}

impl<S> Flattenable<S> for Result<Result<S, ApplicationError>, ApplicationError> {
    fn flatten(self) -> (r: Result<S, ApplicationError>)
        ensures
            match self {
                Ok(inner) => r == inner,
                Err(e) => r is Err && r->Err_0 == e,
            },
    {
        match self {
            Ok(inner) => inner,
            Err(e) => Err(e),
        }
    }
}

} // verus!
