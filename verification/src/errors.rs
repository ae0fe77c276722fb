//! Diagnostics: an error paired with the token it was found at, and the
//! reporting sink a host shell supplies.

use vstd::prelude::*;

use crate::token::{Span, SpannedToken};

verus! {

/// A diagnostic: the offending token, if any, and the error itself.
#[derive(Clone, Debug, PartialEq, Eq)]
pub struct Error<E> {
    pub token: Option<SpannedToken>,
    pub error_kind: E,
}

impl<E> Error<E> {
    pub fn new(token: Option<SpannedToken>, error_kind: E) -> (r: Error<E>)
        ensures
            r.token == token,
            r.error_kind == error_kind,
    {
        Error { token, error_kind }
    }
}

/// A sink that receives each diagnostic; the core assumes nothing about
/// where a report goes.
pub trait ErrorReporter {
    fn report<E>(&mut self, source: &Vec<u8>, error: &Error<E>);
}

/// A reporter that records the span of each reported diagnostic, for a
/// host to render against the source.
pub struct SimpleReporter {
    pub spans: Vec<Span>,
}

impl SimpleReporter {
    pub fn new() -> (r: SimpleReporter)
        ensures
            r.spans@.len() == 0,
    {
        SimpleReporter { spans: Vec::new() }
    }
}

impl ErrorReporter for SimpleReporter {
    fn report<E>(&mut self, source: &Vec<u8>, error: &Error<E>) {
        match &error.token {
            Some(t) => {
                self.spans.push(t.span);
            },
            None => {
                self.spans.push(Span { start: 0, end: 0 });
            },
        }
    }
}

} // verus!
