//! Error values that carry a status, an optional context message and an
//! optional source error.

use vstd::prelude::*;
use vstd::std_specs::convert::FromSpecImpl;
use crate::status::{display_text, Status};

verus! {

/// High-level error type that wraps Status with additional context
#[derive(Debug)]
pub struct Error {
    status: Status,
    context: Option<String>,
    source: Option<Box<Error>>,
}

/// Result type using the improved Error
pub type Result<T> = core::result::Result<T, Error>;

/// The text that displays an error: its context, a colon and a space, then
/// the status; or the status alone when there is no context.
pub open spec fn error_display(status: Status, context: Option<Seq<char>>) -> Seq<char> {
    match context {
        Some(c) => c + ": "@ + display_text(status),
        None => display_text(status),
    }
}

impl Error {
    /// The status that the error carries.
    pub closed spec fn spec_status(&self) -> Status {
        self.status
    }

    /// The context message of the error, if any.
    pub closed spec fn spec_context(&self) -> Option<Seq<char>> {
        match self.context {
            Some(c) => Some(c@),
            None => None,
        }
    }

    /// The source error, if any.
    pub closed spec fn spec_source(&self) -> Option<Error> {
        match self.source {
            Some(b) => Some(*b),
            None => None,
        }
    }

    /// Create a new Error from a Status
    pub fn from_status(status: Status) -> (r: Self)
        ensures
            r.spec_status() == status,
            r.spec_context() is None,
            r.spec_source() is None,
    {
        Error { status, context: None, source: None }
    }

    /// Add context to the error
    pub fn context(self, ctx: &str) -> (r: Self)
        ensures
            r.spec_status() == self.spec_status(),
            r.spec_context() == Some(ctx@),
            r.spec_source() == self.spec_source(),
    {
        Error { status: self.status, context: Some(ctx.to_owned()), source: self.source }
    }

    /// Add a context message given as an owned string.
    pub fn context_string(self, ctx: String) -> (r: Self)
        ensures
            r.spec_status() == self.spec_status(),
            r.spec_context() == Some(ctx@),
            r.spec_source() == self.spec_source(),
    {
        Error { status: self.status, context: Some(ctx), source: self.source }
    }

    /// Add a source error
    pub fn with_source(self, source: Error) -> (r: Self)
        ensures
            r.spec_status() == self.spec_status(),
            r.spec_context() == self.spec_context(),
            r.spec_source() == Some(source),
    {
        Error { status: self.status, context: self.context, source: Some(Box::new(source)) }
    }

    /// Get the underlying Status
    pub fn status(&self) -> (r: Status)
        ensures
            r == self.spec_status(),
    {
        self.status
    }

    /// The context message, if one was added.
    pub fn get_context(&self) -> (r: Option<&str>)
        ensures
            r matches Some(c) ==> self.spec_context() == Some(c@),
            r is None ==> self.spec_context() is None,
    {
        match &self.context {
            Some(c) => Some(c.as_str()),
            None => None,
        }
    }

    /// The source error, if one was added.
    pub fn source(&self) -> (r: Option<&Error>)
        ensures
            r matches Some(e) ==> self.spec_source() == Some(*e),
            r is None ==> self.spec_source() is None,
    {
        match &self.source {
            Some(b) => Some(&**b),
            None => None,
        }
    }

    /// The text that displays this error.
    pub fn to_display_string(&self) -> (r: String)
        ensures
            r@ == error_display(self.spec_status(), self.spec_context()),
    {
        let shown = self.status.to_display_string();
        match &self.context {
            Some(c) => {
                let mut r = c.clone();
                r.append(": ");
                r.append(shown.as_str());
                r
            },
            None => shown,
        }
    }
}

impl From<Status> for Error {
    fn from(status: Status) -> (r: Self) {
        Error::from_status(status)
    }
}

impl FromSpecImpl<Status> for Error {
    open spec fn obeys_from_spec() -> bool {
        true
    }

    open spec fn from_spec(v: Status) -> Self {
        error_of_status(v)
    }
}

/// Extension trait to add context to Results
pub trait ErrorContext<T>: Sized {
    /// The error that the result holds, as an `Error`, if it holds one.
    spec fn spec_error(&self) -> Option<Error>;

    /// The success value, if the result holds one.
    spec fn spec_ok(&self) -> Option<T>;

    /// Add context to an error result
    fn context(self, ctx: &str) -> (r: Result<T>)
        ensures
            self.spec_ok() matches Some(v) ==> r == Ok::<T, Error>(v),
            self.spec_error() matches Some(e) ==> (r matches Err(e2) && e2.spec_status()
                == e.spec_status() && e2.spec_context() == Some(ctx@) && e2.spec_source()
                == e.spec_source()),
    ;

    /// Add context computed by a closure, which runs only on an error.
    fn with_context<F: FnOnce() -> String>(self, f: F) -> (r: Result<T>)
        requires
            self.spec_error() is Some ==> f.requires(()),
        ensures
            self.spec_ok() matches Some(v) ==> r == Ok::<T, Error>(v),
            self.spec_error() matches Some(e) ==> (r matches Err(e2) && e2.spec_status()
                == e.spec_status() && e2.spec_source() == e.spec_source() && (exists|c: String|
                f.ensures((), c) && e2.spec_context() == Some(c@))),
    ;
}

impl<T> ErrorContext<T> for core::result::Result<T, Status> {
    open spec fn spec_error(&self) -> Option<Error> {
        match self {
            Ok(_) => None,
            Err(s) => Some(error_of_status(*s)),
        }
    }

    open spec fn spec_ok(&self) -> Option<T> {
        match self {
            Ok(v) => Some(*v),
            Err(_) => None,
        }
    }

    fn context(self, ctx: &str) -> (r: Result<T>) {
        match self {
            Ok(v) => Ok(v),
            Err(s) => {
                proof {
                    lemma_from_spec_status(s);
                }
                Err(Error::from_status(s).context(ctx))
            },
        }
    }

    fn with_context<F: FnOnce() -> String>(self, f: F) -> (r: Result<T>) {
        match self {
            Ok(v) => Ok(v),
            Err(s) => {
                proof {
                    lemma_from_spec_status(s);
                }
                let c = f();
                Err(Error::from_status(s).context_string(c))
            },
        }
    }
}

impl<T> ErrorContext<T> for core::result::Result<T, Error> {
    open spec fn spec_error(&self) -> Option<Error> {
        match self {
            Ok(_) => None,
            Err(e) => Some(*e),
        }
    }

    open spec fn spec_ok(&self) -> Option<T> {
        match self {
            Ok(v) => Some(*v),
            Err(_) => None,
        }
    }

    fn context(self, ctx: &str) -> (r: Result<T>) {
        match self {
            Ok(v) => Ok(v),
            Err(e) => Err(e.context(ctx)),
        }
    }

    fn with_context<F: FnOnce() -> String>(self, f: F) -> (r: Result<T>) {
        match self {
            Ok(v) => Ok(v),
            Err(e) => {
                let c = f();
                Err(e.context_string(c))
            },
        }
    }
}

/// The error that a status converts to: that status, no context, no source.
pub closed spec fn error_of_status(s: Status) -> Error {
    Error { status: s, context: None, source: None }
}

/// The error that a status converts to carries that status and nothing else.
pub proof fn lemma_from_spec_status(s: Status)
    ensures
        error_of_status(s).spec_status() == s,
        error_of_status(s).spec_context() is None,
        error_of_status(s).spec_source() is None,
{
}

} // verus!
