//! The ways in which an operation on the fabric can fail.

use vstd::prelude::*;

verus! {

#[derive(Clone, Copy, Debug, PartialEq, Eq, Structural)]
pub enum Error {
    /// A connection or channel is not there.
    NotFound,
    /// The connection id is taken.
    AlreadyExists,
    /// A signature or credential did not check out.
    AuthFailed,
    /// The rate limiter refused.
    RateLimited,
    /// A name or payload exceeds the tenant's sizes.
    PayloadTooLarge,
    /// The presence channel is full.
    PresenceLimitExceeded,
    /// The broker could not be reached.
    BrokerUnavailable,
    /// A cluster-wide query ran into its deadline.
    AggregateTimeout,
    /// The request would break the state's consistency.
    Internal,
}

impl Error {
    /// Whether the error is answered with a frame to the one connection that
    /// caused it, leaving everything else as it was.
    pub open spec fn is_rejection(self) -> bool {
        self == Error::AuthFailed || self == Error::RateLimited || self == Error::PayloadTooLarge
            || self == Error::PresenceLimitExceeded
    }

    pub fn rejects(self) -> (b: bool)
        ensures
            b == self.is_rejection(),
    {
        match self {
            Error::AuthFailed => true,
            Error::RateLimited => true,
            Error::PayloadTooLarge => true,
            Error::PresenceLimitExceeded => true,
            _ => false,
        }
    }
}

} // verus!
