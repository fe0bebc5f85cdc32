use vstd::prelude::*;

verus! {

/// Terminal result of one logical request.
pub enum TransferOutcome {
    /// The exchange finished at the transport level; any HTTP status counts.
    Success { status: u32, body_len: usize },
    /// The transport failed (reset, timeout, protocol violation).
    Failure { description: String },
}

impl TransferOutcome {
    pub open spec fn is_success_spec(&self) -> bool {
        self is Success
    }

    pub fn is_success(&self) -> (r: bool)
        ensures
            r == self.is_success_spec(),
    {
        match self {
            TransferOutcome::Success { .. } => true,
            TransferOutcome::Failure { .. } => false,
        }
    }
}

/// A notification that the request carrying `token` reached its terminal result.
pub struct CompletionEvent {
    pub token: usize,
    pub outcome: TransferOutcome,
}

/// A completion event that cannot be routed to the token table.
#[derive(Debug, PartialEq, Eq, Structural)]
pub enum LookupError {
    /// No request was ever submitted under this token.
    UnknownToken { token: usize },
    /// The request under this token already has a terminal result.
    AlreadyResolved { token: usize },
}

} // verus!
