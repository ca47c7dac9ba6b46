//! The error taxonomy of the pool.

use vstd::prelude::*;

verus! {

/// The operation that was in flight when a deadline expired.
#[derive(Clone, Copy, Debug, PartialEq, Eq, Structural)]
pub enum Stage {
    /// Waiting for an admission permit.
    Wait,
    /// Creating a fresh resource.
    Connect,
    /// Probing the liveness of a resource.
    Check,
}

impl Stage {
    /// The conventional text tag of this stage, for reports and logs.
    pub fn tag(&self) -> (r: &'static str)
        ensures
            self is Wait ==> r@ == "wait"@,
            self is Connect ==> r@ == "connect"@,
            self is Check ==> r@ == "check"@,
    {
        match *self {
            Stage::Wait => "wait",
            Stage::Connect => "connect",
            Stage::Check => "check",
        }
    }
}

/// The error type returned by methods of the pool.
#[derive(Debug)]
pub enum Error<E> {
    /// A failure reported by the manager's `connect` or `check`.
    Inner(E),
    /// The configured deadline expired while the tagged stage was in flight.
    Timeout(Stage),
    /// The pool has been closed.
    Closed,
}

impl<E> From<E> for Error<E> {
    /// A bare manager error is an `Inner` failure.
    fn from(e: E) -> (r: Error<E>) {
        Error::Inner(e)
    }
}

impl<E> vstd::std_specs::convert::FromSpecImpl<E> for Error<E> {
    open spec fn obeys_from_spec() -> bool {
        true
    }

    open spec fn from_spec(e: E) -> Error<E> {
        Error::Inner(e)
    }
}

impl<E> Error<E> {
    /// The manager's own error, if this is an `Inner` failure.
    pub fn into_inner(self) -> (r: Option<E>)
        ensures
            r == (match self {
                Error::Inner(e) => Some(e),
                _ => None::<E>,
            }),
    {
        match self {
            Error::Inner(e) => Some(e),
            _ => None,
        }
    }

    /// Whether this is a failure reported by the manager.
    pub fn is_inner(&self) -> (r: bool)
        ensures
            r == (self is Inner),
    {
        match *self {
            Error::Inner(_) => true,
            _ => false,
        }
    }

    /// Whether this is an expired deadline.
    pub fn is_timeout(&self) -> (r: bool)
        ensures
            r == (self is Timeout),
    {
        match *self {
            Error::Timeout(_) => true,
            _ => false,
        }
    }

    /// Whether the pool was closed.
    pub fn is_closed(&self) -> (r: bool)
        ensures
            r == (self is Closed),
    {
        match *self {
            Error::Closed => true,
            _ => false,
        }
    }
}

} // verus!
