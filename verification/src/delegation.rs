use vstd::prelude::*;

use crate::errors::OrderbookError;

verus! {

/// One of the two cooperating execution contexts: the durable context holds
/// finalized state, the fast context receives temporarily delegated records
/// for low-latency mutation.
#[derive(Clone, Copy, Debug, PartialEq, Eq, Structural)]
pub enum ExecutionContext {
    Durable,
    Fast,
}

/// Ownership state of a delegatable record.
///
/// A record is created in `Owned(Durable)`; `delegate` hands it to the fast
/// context and `undelegate` commits it back. While `TransitionPending` the
/// record is mid-transfer and no context may mutate it. The manager never
/// interprets the record's contents: it is the same protocol for market and
/// trader records.
#[derive(Clone, Copy, Debug, PartialEq, Eq, Structural)]
pub enum DelegationState {
    Owned(ExecutionContext),
    TransitionPending,
}

impl DelegationState {
    /// The context `ctx` holds exclusive mutation rights for the record.
    pub open spec fn owned_by(self, ctx: ExecutionContext) -> bool {
        self == DelegationState::Owned(ctx)
    }

    /// Authority check performed by every mutating entry point: a mutation
    /// is admitted only from the context that currently owns the record.
    pub fn allows_mutation(&self, ctx: ExecutionContext) -> (r: bool)
        ensures
            r == self.owned_by(ctx),
    {
        match self {
            DelegationState::Owned(c) => *c == ctx,
            DelegationState::TransitionPending => false,
        }
    }

    /// First half of an ownership transfer: the owning context gives the
    /// record up and the record becomes `TransitionPending`. Fails with
    /// `AuthorityMismatch`, changing nothing, unless `from` owns the record.
    pub fn begin_transition(&mut self, from: ExecutionContext) -> (r: Result<(), OrderbookError>)
        ensures
            old(self).owned_by(from) ==> r is Ok && *final(self) is TransitionPending,
            !old(self).owned_by(from) ==> r == Err::<(), OrderbookError>(
                OrderbookError::AuthorityMismatch,
            ) && *final(self) == *old(self),
    {
        if self.allows_mutation(from) {
            *self = DelegationState::TransitionPending;
            Ok(())
        } else {
            Err(OrderbookError::AuthorityMismatch)
        }
    }

    /// Second half of an ownership transfer: the pending record settles in
    /// the hands of `to`.
    pub fn complete_transition(&mut self, to: ExecutionContext)
        requires
            *old(self) is TransitionPending,
        ensures
            *final(self) == DelegationState::Owned(to),
    {
        *self = DelegationState::Owned(to);
    }
}

} // verus!
