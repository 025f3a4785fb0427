//! Why a request fails.

use vstd::prelude::*;

verus! {

/// Why a request fails before a server has answered it.
#[derive(Debug, Clone, Copy, PartialEq, Eq, Structural)]
pub enum ProxyError {
    /// No server that could take the request is in sync.
    NotSynced,
    /// Every server has been tried.
    RetriesExhausted,
    /// No server of the group is in sync.
    NoServersInSync,
    /// The request was delayed too often.
    Internal,
}

/// The message of an error.
pub open spec fn error_message(e: ProxyError) -> Seq<char> {
    match e {
        ProxyError::NotSynced => "not synced"@,
        ProxyError::RetriesExhausted => "all retries exhausted"@,
        ProxyError::NoServersInSync => "no servers in sync"@,
        ProxyError::Internal => "internal error"@,
    }
}

impl ProxyError {
    /// The message of the error.
    pub fn message(&self) -> (r: String)
        ensures
            r@ == error_message(*self),
    {
        match self {
            ProxyError::NotSynced => "not synced".to_owned(),
            ProxyError::RetriesExhausted => "all retries exhausted".to_owned(),
            ProxyError::NoServersInSync => "no servers in sync".to_owned(),
            ProxyError::Internal => "internal error".to_owned(),
        }
    }
}

} // verus!
