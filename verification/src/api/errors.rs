//! The three kinds of error an endpoint can answer with.

use vstd::prelude::*;

verus! {

/// What an endpoint answers with when it cannot answer: an internal
/// error, a bad request, or that what was asked for is not there.
#[derive(Debug)]
pub enum IkError {
    InternalError,
    BadRequest(String),
    NotFound(String),
}

/// The HTTP status of each kind.
pub open spec fn status_code_of(e: IkError) -> int {
    match e {
        IkError::InternalError => 500,
        IkError::BadRequest(_) => 400,
        IkError::NotFound(_) => 404,
    }
}

/// The name under which a kind is reported in the `error` field.
pub open spec fn kind_name_of(e: IkError) -> Seq<char> {
    match e {
        IkError::InternalError => "InternalError"@,
        IkError::BadRequest(_) => "BadRequest"@,
        IkError::NotFound(_) => "NotFound"@,
    }
}

impl IkError {
    /// The HTTP status that the error is answered with.
    pub fn status_code(&self) -> (code: u16)
        ensures
            code == status_code_of(*self),
    {
        match self {
            IkError::InternalError => 500,
            IkError::BadRequest(_) => 400,
            IkError::NotFound(_) => 404,
        }
    }

    /// The name of the kind, as the `error` field of the answer has it.
    pub fn kind(&self) -> (name: &'static str)
        ensures
            name@ == kind_name_of(*self),
    {
        match self {
            IkError::InternalError => "InternalError",
            IkError::BadRequest(_) => "BadRequest",
            IkError::NotFound(_) => "NotFound",
        }
    }

    /// The message of the error, which an internal error does not have.
    pub fn message(&self) -> (msg: Option<&String>)
        ensures
            msg == match *self {
                IkError::InternalError => None::<&String>,
                IkError::BadRequest(m) => Some(&m),
                IkError::NotFound(m) => Some(&m),
            },
    {
        match self {
            IkError::InternalError => None,
            IkError::BadRequest(m) => Some(m),
            IkError::NotFound(m) => Some(m),
        }
    }

    /// What is shown for the error.
    pub fn to_string(&self) -> (s: String)
        ensures
            s@ == match *self {
                IkError::InternalError => "internal error"@,
                IkError::BadRequest(_) => "bad request"@,
                IkError::NotFound(_) => "not found"@,
            },
    {
        match self {
            IkError::InternalError => "internal error".to_string(),
            IkError::BadRequest(_) => "bad request".to_string(),
            IkError::NotFound(_) => "not found".to_string(),
        }
    }
}

} // verus!
