use vstd::prelude::*;

verus! {

/// A typed rejection of a single engine operation.
///
/// Every validation failure aborts the whole operation with no partial
/// state change; there are no fatal errors in this core.
#[derive(Clone, Copy, Debug, PartialEq, Eq, Structural)]
pub enum OrderbookError {
    /// The named principal is not registered with the market.
    UnknownTrader,
    /// A debit of base units exceeds the trader's spendable base balance.
    InsufficientBaseFunds,
    /// A debit of quote units exceeds the trader's spendable quote balance.
    InsufficientQuoteFunds,
    /// A submitted order already carries a match timestamp.
    AlreadyMatched,
    /// An order reference does not resolve to an open order.
    InvalidOrderIndex,
    /// The resolved order is on the wrong side for its role in a match.
    InvalidOrderType,
    /// An order reference names a trader who does not own the order. With
    /// per-trader order lists every reference resolves through its owner,
    /// so no operation of this crate returns it; kept for callers that
    /// address orders through a shared table.
    InvalidOrderOwner,
    /// Maker and taker orders do not cross at the attested price, or their
    /// quantities differ.
    MismatchingOrders,
    /// The record to create already exists.
    AlreadyExists,
    /// The record is not owned by the context attempting the mutation.
    AuthorityMismatch,
    /// The asset is neither the base nor the quote asset of the market.
    InvalidAsset,
}

} // verus!
