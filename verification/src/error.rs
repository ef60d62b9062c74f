use vstd::prelude::*;

verus! {

/// The category of a failure reported to the caller.
#[derive(Clone, Copy, Debug, PartialEq, Eq, Structural)]
pub enum ErrorKind {
    /// The stored configuration lacks something the operation needs.
    Config,
    /// The caller passed an argument outside the accepted range.
    Usage,
    /// The native database library failed or is missing a symbol.
    Native,
    /// Any other runtime failure.
    Runtime,
}

/// A failure of a service operation: its category and a human-readable message.
#[derive(Clone, Debug)]
pub struct AppError {
    pub kind: ErrorKind,
    pub message: String,
}

/// `r` is an error of the given kind whose message is `msg`.
pub open spec fn is_app_error<T>(r: Result<T, AppError>, kind: ErrorKind, msg: Seq<char>) -> bool {
    &&& r is Err
    &&& r->Err_0.kind == kind
    &&& r->Err_0.message@ == msg
}

impl AppError {
    pub fn new(kind: ErrorKind, message: &str) -> (e: AppError)
        ensures
            e.kind == kind,
            e.message@ == message@,
    {
        AppError { kind, message: String::from_str(message) }
    }

    pub fn config(message: &str) -> (e: AppError)
        ensures
            e.kind == ErrorKind::Config,
            e.message@ == message@,
    {
        Self::new(ErrorKind::Config, message)
    }

    pub fn usage(message: &str) -> (e: AppError)
        ensures
            e.kind == ErrorKind::Usage,
            e.message@ == message@,
    {
        Self::new(ErrorKind::Usage, message)
    }

    pub fn native(message: &str) -> (e: AppError)
        ensures
            e.kind == ErrorKind::Native,
            e.message@ == message@,
    {
        Self::new(ErrorKind::Native, message)
    }

    pub fn runtime(message: &str) -> (e: AppError)
        ensures
            e.kind == ErrorKind::Runtime,
            e.message@ == message@,
    {
        Self::new(ErrorKind::Runtime, message)
    }
}

} // verus!
