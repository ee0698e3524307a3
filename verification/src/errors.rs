//! The errors that the queries and mutations of the game server answer
//! with.
use vstd::prelude::*;

verus! {

/// The kinds of error, each with a status number and a reason.
#[derive(Debug, PartialEq, Eq, Clone, Copy, Structural)]
pub enum ErrorKind {
    /// 400: the request itself is malformed.
    BadRequest,
    /// 404: what was asked for does not exist.
    NotFound,
    /// 422: the request is well formed, but what it holds is not valid.
    Unprocessable,
    /// 500: the server failed.
    Internal,
}

impl ErrorKind {
    /// The status number of the kind.
    pub open spec fn status(self) -> u16 {
        match self {
            ErrorKind::BadRequest => 400,
            ErrorKind::NotFound => 404,
            ErrorKind::Unprocessable => 422,
            ErrorKind::Internal => 500,
        }
    }

    /// The reason that goes with the status number.
    pub open spec fn reason(self) -> Seq<char> {
        match self {
            ErrorKind::BadRequest => "Bad Request"@,
            ErrorKind::NotFound => "Not Found"@,
            ErrorKind::Unprocessable => "Unprocessable Content"@,
            ErrorKind::Internal => "Internal Server Error"@,
        }
    }

    /// The code of the kind: its status number and its reason.
    pub fn code(self) -> (code: Code)
        ensures
            code.0 == self.status(),
            code.1@ == self.reason(),
    {
        match self {
            ErrorKind::BadRequest => Code(400, String::from_str("Bad Request")),
            ErrorKind::NotFound => Code(404, String::from_str("Not Found")),
            ErrorKind::Unprocessable => Code(422, String::from_str("Unprocessable Content")),
            ErrorKind::Internal => Code(500, String::from_str("Internal Server Error")),
        }
    }
}

/// The code of an error: the status number and the reason that goes with
/// it.
#[derive(Debug)]
pub struct Code(pub u16, pub String);

/// An error that a query or a mutation answers with.
#[derive(Debug)]
pub struct GraphqlServerError {
    /// The error message.
    pub message: String,
    /// The error code.
    pub code: Code,
}

impl GraphqlServerError {
    /// Whether the error holds `message` and the code of `kind`.
    pub open spec fn holds(self, message: Seq<char>, kind: ErrorKind) -> bool {
        &&& self.message@ == message
        &&& self.code.0 == kind.status()
        &&& self.code.1@ == kind.reason()
    }

    /// The error with the message `message` and the code of `kind`.
    pub fn new(message: String, kind: ErrorKind) -> (error: GraphqlServerError)
        ensures
            error.holds(message@, kind),
    {
        GraphqlServerError { message, code: kind.code() }
    }
}

} // verus!
