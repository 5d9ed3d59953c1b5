//! Error kinds of the remote gateway and of the resolution pipeline.

use vstd::prelude::*;

verus! {

/// Why a single call to the remote gateway failed.
#[derive(Clone, Copy, Debug, PartialEq, Eq, Structural)]
pub enum GatewayError {
    /// The remote system knows no item under the requested ID.
    NotFound,
    /// The transport failed or timed out.
    NetworkError,
    /// The response arrived but could not be understood.
    DecodeError,
}

/// Why a resolution produced no result.
#[derive(Clone, Copy, Debug, PartialEq, Eq, Structural)]
pub enum ResolveError {
    /// The remote system knows no item under a requested ID.
    NotFound,
    /// The transport failed or timed out.
    NetworkError,
    /// A response was malformed, or held an item of the wrong kind.
    DecodeError,
    /// The comment tree is nested more deeply than the configured cap.
    DepthExceeded,
    /// The result belongs to a request that a newer one has replaced.
    Superseded,
}

impl ResolveError {
    /// The resolution error that a gateway error turns into: the same kind.
    pub open spec fn of_gateway(e: GatewayError) -> ResolveError {
        match e {
            GatewayError::NotFound => ResolveError::NotFound,
            GatewayError::NetworkError => ResolveError::NetworkError,
            GatewayError::DecodeError => ResolveError::DecodeError,
        }
    }

    /// Whether the error may be shown to the user. Only `Superseded` may not.
    pub open spec fn user_visible(self) -> bool {
        self != ResolveError::Superseded
    }

    /// Carries a gateway error up the resolver chain without changing its kind.
    pub fn from_gateway(e: GatewayError) -> (r: ResolveError)
        ensures
            r == Self::of_gateway(e),
            r.user_visible(),
    {
        match e {
            GatewayError::NotFound => ResolveError::NotFound,
            GatewayError::NetworkError => ResolveError::NetworkError,
            GatewayError::DecodeError => ResolveError::DecodeError,
        }
    }

    /// Tells whether the error may be shown to the user.
    pub fn is_user_visible(&self) -> (b: bool)
        ensures
            b == self.user_visible(),
    {
        match self {
            ResolveError::Superseded => false,
            _ => true,
        }
    }
}

} // verus!
