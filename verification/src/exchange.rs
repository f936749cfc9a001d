use vstd::prelude::*;

use crate::delegation::{DelegationState, ExecutionContext};
use crate::errors::OrderbookError;
use crate::state::{
    find_order_position, lemma_order_index, lemma_orders_invariants_remove, lemma_trader_index,
    lemma_trader_index_first, order_ids_unique, order_index, orders_resting, trader_index, Order,
    OrderType, Orderbook, TemporalNumericValue, Trader, TraderView,
};
use crate::sums::{ledger_base, ledger_quote};

verus! {

/// The whole engine state for one trading pair: the market header and the
/// per-trader records. Conceptually a key-value store of growable records
/// addressed by deterministic identifiers; here the records live in one
/// collection keyed by principal.
pub struct Exchange {
    pub orderbook: Orderbook,
    pub traders: Vec<Trader>,
}

/// Ghost model of the whole engine state.
#[verifier::ext_equal]
pub struct ExchangeView {
    pub orderbook: Orderbook,
    pub traders: Seq<TraderView>,
}

impl View for Exchange {
    type V = ExchangeView;

    open spec fn view(&self) -> ExchangeView {
        ExchangeView {
            orderbook: self.orderbook,
            traders: self.traders@.map_values(|t: Trader| t@),
        }
    }
}

impl ExchangeView {
    /// System invariant: the market pairs distinct assets, every trader
    /// record is well formed and belongs to this market, and principals are
    /// registered at most once.
    pub open spec fn wf(self) -> bool {
        &&& self.orderbook.wf()
        &&& forall|i: int|
            0 <= i < self.traders.len() ==> (#[trigger] self.traders[i]).wf(self.orderbook)
        &&& forall|i: int, j: int|
            0 <= i < j < self.traders.len() ==> self.traders[i].user != self.traders[j].user
    }

    /// Base units attributed to traders: spendable plus escrowed.
    pub open spec fn total_base(self) -> int {
        ledger_base(self.traders)
    }

    /// Quote units attributed to traders: spendable plus escrowed.
    pub open spec fn total_quote(self) -> int {
        ledger_quote(self.traders)
    }

    /// The principal is registered with this market.
    pub open spec fn has_trader(self, user: u64) -> bool {
        trader_index(self.traders, user) >= 0
    }

    /// State of a freshly initialized market: no traders, record owned by
    /// the durable context.
    pub open spec fn initial(id: u64, base_mint: u64, quote_mint: u64) -> ExchangeView {
        ExchangeView {
            orderbook: Orderbook {
                id,
                base_mint,
                quote_mint,
                delegation: DelegationState::Owned(ExecutionContext::Durable),
            },
            traders: Seq::empty(),
        }
    }

    /// A zero-balance trader record as registration creates it.
    pub open spec fn new_trader(orderbook: u64, user: u64) -> TraderView {
        TraderView {
            user,
            orderbook,
            base_balance: 0,
            quote_balance: 0,
            orders: Seq::empty(),
            delegation: DelegationState::Owned(ExecutionContext::Durable),
        }
    }

    /// Registration of a principal: fails with `AlreadyExists` on a
    /// duplicate, otherwise appends a zero-balance record owned by the
    /// durable context.
    pub open spec fn create_trader_spec(self, user: u64) -> Result<ExchangeView, OrderbookError> {
        if trader_index(self.traders, user) >= 0 {
            Err(OrderbookError::AlreadyExists)
        } else {
            Ok(
                ExchangeView {
                    traders: self.traders.push(Self::new_trader(self.orderbook.id, user)),
                    ..self
                },
            )
        }
    }

    /// A deposit would not overflow the credited balance. Machine limit on
    /// the `u64` ledger, not a business rule.
    pub open spec fn deposit_fits(self, user: u64, mint: u64, amount: u64) -> bool {
        trader_index(self.traders, user) >= 0 ==> {
            let t = self.traders[trader_index(self.traders, user)];
            if mint == self.orderbook.base_mint {
                t.base_balance + amount <= u64::MAX
            } else {
                t.quote_balance + amount <= u64::MAX
            }
        }
    }

    /// Deposit: credits `amount` of the named asset to the trader's
    /// spendable balance. The external custody pull happens outside this
    /// core, atomically with the credit.
    ///
    /// Checks in order: the asset belongs to the market (`InvalidAsset`),
    /// the principal is registered (`UnknownTrader`), the record is owned by
    /// the calling context (`AuthorityMismatch`).
    pub open spec fn deposit_spec(
        self,
        ctx: ExecutionContext,
        user: u64,
        mint: u64,
        amount: u64,
    ) -> Result<ExchangeView, OrderbookError> {
        if !self.orderbook.is_asset(mint) {
            Err(OrderbookError::InvalidAsset)
        } else {
            let i = trader_index(self.traders, user);
            if i < 0 {
                Err(OrderbookError::UnknownTrader)
            } else if !self.traders[i].delegation.owned_by(ctx) {
                Err(OrderbookError::AuthorityMismatch)
            } else {
                let t = self.traders[i];
                let t2 = if mint == self.orderbook.base_mint {
                    TraderView { base_balance: (t.base_balance + amount) as u64, ..t }
                } else {
                    TraderView { quote_balance: (t.quote_balance + amount) as u64, ..t }
                };
                Ok(ExchangeView { traders: self.traders.update(i, t2), ..self })
            }
        }
    }

    /// Withdrawal: debits `amount` of the named asset from the trader's
    /// spendable balance; escrowed funds cannot be withdrawn. The external
    /// custody push happens outside this core, atomically with the debit.
    ///
    /// Checks in order: asset (`InvalidAsset`), registration
    /// (`UnknownTrader`), record ownership (`AuthorityMismatch`), then
    /// sufficient spendable funds (`InsufficientBaseFunds` /
    /// `InsufficientQuoteFunds`).
    pub open spec fn withdraw_spec(
        self,
        ctx: ExecutionContext,
        user: u64,
        mint: u64,
        amount: u64,
    ) -> Result<ExchangeView, OrderbookError> {
        if !self.orderbook.is_asset(mint) {
            Err(OrderbookError::InvalidAsset)
        } else {
            let i = trader_index(self.traders, user);
            if i < 0 {
                Err(OrderbookError::UnknownTrader)
            } else if !self.traders[i].delegation.owned_by(ctx) {
                Err(OrderbookError::AuthorityMismatch)
            } else {
                let t = self.traders[i];
                if mint == self.orderbook.base_mint {
                    if amount > t.base_balance {
                        Err(OrderbookError::InsufficientBaseFunds)
                    } else {
                        Ok(
                            ExchangeView {
                                traders: self.traders.update(
                                    i,
                                    TraderView {
                                        base_balance: (t.base_balance - amount) as u64,
                                        ..t
                                    },
                                ),
                                ..self
                            },
                        )
                    }
                } else {
                    if amount > t.quote_balance {
                        Err(OrderbookError::InsufficientQuoteFunds)
                    } else {
                        Ok(
                            ExchangeView {
                                traders: self.traders.update(
                                    i,
                                    TraderView {
                                        quote_balance: (t.quote_balance - amount) as u64,
                                        ..t
                                    },
                                ),
                                ..self
                            },
                        )
                    }
                }
            }
        }
    }

    /// Order entry: escrows the order's cost out of the spendable balance
    /// and appends the order to the trader's open-order list.
    ///
    /// Checks in order: registration (`UnknownTrader`), record ownership
    /// (`AuthorityMismatch`), the order is not pre-marked as matched
    /// (`AlreadyMatched`), its identifier is fresh for this trader
    /// (`AlreadyExists`), and the spendable balance covers the escrow
    /// (`InsufficientQuoteFunds` for buys, `InsufficientBaseFunds` for
    /// sells).
    pub open spec fn create_order_spec(
        self,
        ctx: ExecutionContext,
        user: u64,
        order: Order,
    ) -> Result<ExchangeView, OrderbookError> {
        let i = trader_index(self.traders, user);
        if i < 0 {
            Err(OrderbookError::UnknownTrader)
        } else if !self.traders[i].delegation.owned_by(ctx) {
            Err(OrderbookError::AuthorityMismatch)
        } else if order.match_timestamp is Some {
            Err(OrderbookError::AlreadyMatched)
        } else if order_index(self.traders[i].orders, order.id) >= 0 {
            Err(OrderbookError::AlreadyExists)
        } else {
            let t = self.traders[i];
            if order.order_type is Buy {
                if t.quote_balance < order.price * order.quantity {
                    Err(OrderbookError::InsufficientQuoteFunds)
                } else {
                    Ok(
                        ExchangeView {
                            traders: self.traders.update(
                                i,
                                TraderView {
                                    quote_balance: (t.quote_balance - order.price
                                        * order.quantity) as u64,
                                    orders: t.orders.push(order),
                                    ..t
                                },
                            ),
                            ..self
                        },
                    )
                }
            } else {
                if t.base_balance < order.quantity {
                    Err(OrderbookError::InsufficientBaseFunds)
                } else {
                    Ok(
                        ExchangeView {
                            traders: self.traders.update(
                                i,
                                TraderView {
                                    base_balance: (t.base_balance - order.quantity) as u64,
                                    orders: t.orders.push(order),
                                    ..t
                                },
                            ),
                            ..self
                        },
                    )
                }
            }
        }
    }

    /// Both removals of a successful match, on one order list when maker and
    /// taker are the same trader. The higher position leaves first so that
    /// the lower position still addresses the order it was read from.
    pub open spec fn remove_two(s: Seq<Order>, a: int, b: int) -> Seq<Order> {
        if a > b {
            s.remove(a).remove(b)
        } else {
            s.remove(b).remove(a)
        }
    }

    /// State after a successful match of the maker order at position `pm` of
    /// trader `mi` against the taker order at position `pt` of trader `ti`:
    /// the maker is credited the quote proceeds at the maker's stated price,
    /// the taker is credited the base quantity, and both orders leave their
    /// open-order lists in the same atomic step.
    pub open spec fn settle(self, mi: int, pm: int, ti: int, pt: int) -> ExchangeView {
        let maker = self.traders[mi];
        let taker = self.traders[ti];
        let mo = maker.orders[pm];
        if mi == ti {
            let both = TraderView {
                quote_balance: (maker.quote_balance + mo.price * mo.quantity) as u64,
                base_balance: (maker.base_balance + mo.quantity) as u64,
                orders: Self::remove_two(maker.orders, pm, pt),
                ..maker
            };
            ExchangeView { traders: self.traders.update(mi, both), ..self }
        } else {
            let m2 = TraderView {
                quote_balance: (maker.quote_balance + mo.price * mo.quantity) as u64,
                orders: maker.orders.remove(pm),
                ..maker
            };
            let t2 = TraderView {
                base_balance: (taker.base_balance + mo.quantity) as u64,
                orders: taker.orders.remove(pt),
                ..taker
            };
            ExchangeView { traders: self.traders.update(mi, m2).update(ti, t2), ..self }
        }
    }

    /// Settlement would not overflow the credited balances. Machine limit on
    /// the `u64` ledger, not a business rule.
    pub open spec fn match_fits(self, m_user: u64, m_id: u64, t_user: u64) -> bool {
        let mi = trader_index(self.traders, m_user);
        let ti = trader_index(self.traders, t_user);
        mi >= 0 && ti >= 0 ==> {
            let maker = self.traders[mi];
            let taker = self.traders[ti];
            let pm = order_index(maker.orders, m_id);
            pm >= 0 ==> {
                let mo = maker.orders[pm];
                maker.quote_balance + mo.price * mo.quantity <= u64::MAX && taker.base_balance
                    + mo.quantity <= u64::MAX
            }
        }
    }

    /// The matching engine: crosses the maker's resting sell against the
    /// taker's resting buy at an attested reference price.
    ///
    /// Checks in order: both principals registered (`UnknownTrader`), both
    /// records owned by the calling context (`AuthorityMismatch`), the maker
    /// reference resolves (`InvalidOrderIndex`) to a sell
    /// (`InvalidOrderType`), the taker reference resolves
    /// (`InvalidOrderIndex`) to a buy (`InvalidOrderType`), and the orders
    /// cross: maker ask at or below the attested price, taker bid at or
    /// above it, equal quantities (`MismatchingOrders` otherwise — there are
    /// no partial fills). Settlement uses the maker's stated price.
    pub open spec fn match_order_spec(
        self,
        ctx: ExecutionContext,
        m_user: u64,
        m_id: u64,
        t_user: u64,
        t_id: u64,
        attested: TemporalNumericValue,
    ) -> Result<ExchangeView, OrderbookError> {
        let mi = trader_index(self.traders, m_user);
        let ti = trader_index(self.traders, t_user);
        if mi < 0 || ti < 0 {
            Err(OrderbookError::UnknownTrader)
        } else if !self.traders[mi].delegation.owned_by(ctx) || !self.traders[ti].delegation.owned_by(
            ctx,
        ) {
            Err(OrderbookError::AuthorityMismatch)
        } else {
            let maker = self.traders[mi];
            let taker = self.traders[ti];
            let pm = order_index(maker.orders, m_id);
            if pm < 0 {
                Err(OrderbookError::InvalidOrderIndex)
            } else if !(maker.orders[pm].order_type is Sell) {
                Err(OrderbookError::InvalidOrderType)
            } else {
                let pt = order_index(taker.orders, t_id);
                if pt < 0 {
                    Err(OrderbookError::InvalidOrderIndex)
                } else if !(taker.orders[pt].order_type is Buy) {
                    Err(OrderbookError::InvalidOrderType)
                } else {
                    let mo = maker.orders[pm];
                    let to = taker.orders[pt];
                    if mo.price > attested.quantized_value || to.price < attested.quantized_value
                        || mo.quantity != to.quantity {
                        Err(OrderbookError::MismatchingOrders)
                    } else {
                        Ok(self.settle(mi, pm, ti, pt))
                    }
                }
            }
        }
    }

    /// Delegation of a trader record: hands ownership from the durable
    /// context to `target`. Fails with `AuthorityMismatch` unless the record
    /// is currently owned by the durable context.
    pub open spec fn delegate_trader_spec(self, user: u64, target: ExecutionContext) -> Result<
        ExchangeView,
        OrderbookError,
    > {
        let i = trader_index(self.traders, user);
        if i < 0 {
            Err(OrderbookError::UnknownTrader)
        } else if !self.traders[i].delegation.owned_by(ExecutionContext::Durable) {
            Err(OrderbookError::AuthorityMismatch)
        } else {
            Ok(
                ExchangeView {
                    traders: self.traders.update(
                        i,
                        TraderView {
                            delegation: DelegationState::Owned(target),
                            ..self.traders[i]
                        },
                    ),
                    ..self
                },
            )
        }
    }

    /// Undelegation of a trader record: the fast context commits the
    /// record's current value back as authoritative and returns ownership to
    /// the durable context. Fails with `AuthorityMismatch` unless the record
    /// is currently owned by the fast context.
    pub open spec fn undelegate_trader_spec(self, user: u64) -> Result<
        ExchangeView,
        OrderbookError,
    > {
        let i = trader_index(self.traders, user);
        if i < 0 {
            Err(OrderbookError::UnknownTrader)
        } else if !self.traders[i].delegation.owned_by(ExecutionContext::Fast) {
            Err(OrderbookError::AuthorityMismatch)
        } else {
            Ok(
                ExchangeView {
                    traders: self.traders.update(
                        i,
                        TraderView {
                            delegation: DelegationState::Owned(ExecutionContext::Durable),
                            ..self.traders[i]
                        },
                    ),
                    ..self
                },
            )
        }
    }

    /// Delegation of the market record, as for a trader record.
    pub open spec fn delegate_orderbook_spec(self, target: ExecutionContext) -> Result<
        ExchangeView,
        OrderbookError,
    > {
        if !self.orderbook.delegation.owned_by(ExecutionContext::Durable) {
            Err(OrderbookError::AuthorityMismatch)
        } else {
            Ok(
                ExchangeView {
                    orderbook: Orderbook {
                        delegation: DelegationState::Owned(target),
                        ..self.orderbook
                    },
                    ..self
                },
            )
        }
    }

    /// Undelegation of the market record, as for a trader record.
    pub open spec fn undelegate_orderbook_spec(self) -> Result<ExchangeView, OrderbookError> {
        if !self.orderbook.delegation.owned_by(ExecutionContext::Fast) {
            Err(OrderbookError::AuthorityMismatch)
        } else {
            Ok(
                ExchangeView {
                    orderbook: Orderbook {
                        delegation: DelegationState::Owned(ExecutionContext::Durable),
                        ..self.orderbook
                    },
                    ..self
                },
            )
        }
    }
}

/// Replacing one trader record preserves the system invariant as long as
/// the replacement keeps the identity fields and a well-formed order list.
pub proof fn lemma_wf_update(s: ExchangeView, i: int, t2: TraderView)
    requires
        s.wf(),
        0 <= i < s.traders.len(),
        t2.user == s.traders[i].user,
        t2.orderbook == s.traders[i].orderbook,
        order_ids_unique(t2.orders),
        orders_resting(t2.orders),
    ensures
        (ExchangeView { traders: s.traders.update(i, t2), ..s }).wf(),
{
    let s2 = ExchangeView { traders: s.traders.update(i, t2), ..s };
    assert forall|k: int| 0 <= k < s2.traders.len() implies (#[trigger] s2.traders[k]).wf(
        s2.orderbook,
    ) by {
        if k != i {
            assert(s2.traders[k] == s.traders[k]);
        }
    }
    assert forall|k: int, l: int|
        0 <= k < l < s2.traders.len() implies s2.traders[k].user != s2.traders[l].user by {
        assert(s2.traders[k].user == s.traders[k].user);
        assert(s2.traders[l].user == s.traders[l].user);
    }
}

impl Exchange {
    /// Creates the market header for a new trading pair. The record starts
    /// owned by the durable context with no traders registered.
    pub fn initialize_orderbook(id: u64, base_mint: u64, quote_mint: u64) -> (r: Exchange)
        requires
            base_mint != quote_mint,
        ensures
            r@ == ExchangeView::initial(id, base_mint, quote_mint),
            r@.wf(),
    {
        let ex = Exchange {
            orderbook: Orderbook {
                id,
                base_mint,
                quote_mint,
                delegation: DelegationState::Owned(ExecutionContext::Durable),
            },
            traders: Vec::new(),
        };
        proof {
            assert(ex@.traders =~= Seq::<TraderView>::empty());
        }
        ex
    }

    /// Position of the trader record for `user`, if registered.
    pub fn find_trader(&self, user: u64) -> (r: Option<usize>)
        ensures
            r matches Some(i) ==> i < self.traders.len() && trader_index(self@.traders, user)
                == i,
            r is None ==> trader_index(self@.traders, user) == -1,
    {
        let mut i: usize = 0;
        while i < self.traders.len()
            invariant
                i <= self.traders.len(),
                forall|j: int| 0 <= j < i ==> self@.traders[j].user != user,
            decreases self.traders.len() - i,
        {
            if self.traders[i].user == user {
                proof {
                    assert(self@.traders[i as int] == self.traders@[i as int]@);
                    lemma_trader_index_first(self@.traders, user, i as int);
                }
                return Some(i);
            }
            proof {
                assert(self@.traders[i as int] == self.traders@[i as int]@);
            }
            i += 1;
        }
        proof {
            lemma_trader_index(self@.traders, user);
        }
        None
    }

    /// The trader record for `user`, if registered.
    pub fn get_trader(&self, user: u64) -> (r: Option<&Trader>)
        ensures
            r matches Some(t) ==> trader_index(self@.traders, user) >= 0 && t@ == self@.traders[
                trader_index(self@.traders, user)
            ],
            r is None ==> trader_index(self@.traders, user) == -1,
    {
        match self.find_trader(user) {
            None => None,
            Some(i) => {
                proof {
                    assert(self@.traders[i as int] == self.traders@[i as int]@);
                }
                Some(&self.traders[i])
            },
        }
    }

    /// Registers a principal with the market, once.
    pub fn create_trader(&mut self, user: u64) -> (r: Result<(), OrderbookError>)
        requires
            old(self)@.wf(),
        ensures
            final(self)@.wf(),
            old(self)@.create_trader_spec(user) matches Ok(s2) ==> r is Ok && final(self)@ == s2,
            old(self)@.create_trader_spec(user) matches Err(e) ==> r == Err::<(), OrderbookError>(
                e,
            ) && final(self)@ == old(self)@,
    {
        if self.find_trader(user).is_some() {
            return Err(OrderbookError::AlreadyExists);
        }
        let ghost pre = self@;
        self.traders.push(
            Trader {
                user,
                orderbook: self.orderbook.id,
                base_balance: 0,
                quote_balance: 0,
                orders: Vec::new(),
                delegation: DelegationState::Owned(ExecutionContext::Durable),
            },
        );
        proof {
            let t2 = ExchangeView::new_trader(pre.orderbook.id, user);
            assert(self@.traders =~= pre.traders.push(t2));
            lemma_trader_index(pre.traders, user);
            assert forall|k: int| 0 <= k < self@.traders.len() implies (#[trigger] self@.traders[k]).wf(
                self@.orderbook,
            ) by {
                if k < pre.traders.len() as int {
                    assert(self@.traders[k] == pre.traders[k]);
                } else {
                    assert(self@.traders[k] == t2);
                }
            }
        }
        Ok(())
    }

    /// Credits a deposit of `amount` units of asset `mint` to the trader's
    /// spendable balance. The external custody pull is the caller's part,
    /// applied atomically with this credit or rolled back with it.
    pub fn deposit(
        &mut self,
        ctx: ExecutionContext,
        user: u64,
        mint: u64,
        amount: u64,
    ) -> (r: Result<(), OrderbookError>)
        requires
            old(self)@.wf(),
            amount > 0,
            old(self)@.deposit_fits(user, mint, amount),
        ensures
            final(self)@.wf(),
            old(self)@.deposit_spec(ctx, user, mint, amount) matches Ok(s2) ==> r is Ok
                && final(self)@ == s2,
            old(self)@.deposit_spec(ctx, user, mint, amount) matches Err(e) ==> r == Err::<
                (),
                OrderbookError,
            >(e) && final(self)@ == old(self)@,
    {
        if mint != self.orderbook.base_mint && mint != self.orderbook.quote_mint {
            return Err(OrderbookError::InvalidAsset);
        }
        let i = match self.find_trader(user) {
            None => { return Err(OrderbookError::UnknownTrader) },
            Some(i) => i,
        };
        proof {
            assert(self@.traders[i as int] == self.traders@[i as int]@);
        }
        if !self.traders[i].delegation.allows_mutation(ctx) {
            return Err(OrderbookError::AuthorityMismatch);
        }
        let is_base = mint == self.orderbook.base_mint;
        let t = &mut self.traders[i];
        if is_base {
            t.base_balance = t.base_balance + amount;
        } else {
            t.quote_balance = t.quote_balance + amount;
        }
        proof {
            let pre = old(self)@;
            let t0 = pre.traders[i as int];
            let t2 = if is_base {
                TraderView { base_balance: (t0.base_balance + amount) as u64, ..t0 }
            } else {
                TraderView { quote_balance: (t0.quote_balance + amount) as u64, ..t0 }
            };
            assert(self@.traders =~= pre.traders.update(i as int, t2));
            lemma_wf_update(pre, i as int, t2);
        }
        Ok(())
    }

    /// Debits a withdrawal of `amount` units of asset `mint` from the
    /// trader's spendable balance; escrowed funds stay reserved. The
    /// external custody push is the caller's part, applied atomically with
    /// this debit.
    pub fn withdraw(
        &mut self,
        ctx: ExecutionContext,
        user: u64,
        mint: u64,
        amount: u64,
    ) -> (r: Result<(), OrderbookError>)
        requires
            old(self)@.wf(),
            amount > 0,
        ensures
            final(self)@.wf(),
            old(self)@.withdraw_spec(ctx, user, mint, amount) matches Ok(s2) ==> r is Ok
                && final(self)@ == s2,
            old(self)@.withdraw_spec(ctx, user, mint, amount) matches Err(e) ==> r == Err::<
                (),
                OrderbookError,
            >(e) && final(self)@ == old(self)@,
    {
        if mint != self.orderbook.base_mint && mint != self.orderbook.quote_mint {
            return Err(OrderbookError::InvalidAsset);
        }
        let i = match self.find_trader(user) {
            None => { return Err(OrderbookError::UnknownTrader) },
            Some(i) => i,
        };
        proof {
            assert(self@.traders[i as int] == self.traders@[i as int]@);
        }
        if !self.traders[i].delegation.allows_mutation(ctx) {
            return Err(OrderbookError::AuthorityMismatch);
        }
        let is_base = mint == self.orderbook.base_mint;
        if is_base {
            if amount > self.traders[i].base_balance {
                return Err(OrderbookError::InsufficientBaseFunds);
            }
        } else {
            if amount > self.traders[i].quote_balance {
                return Err(OrderbookError::InsufficientQuoteFunds);
            }
        }
        let t = &mut self.traders[i];
        if is_base {
            t.base_balance = t.base_balance - amount;
        } else {
            t.quote_balance = t.quote_balance - amount;
        }
        proof {
            let pre = old(self)@;
            let t0 = pre.traders[i as int];
            let t2 = if is_base {
                TraderView { base_balance: (t0.base_balance - amount) as u64, ..t0 }
            } else {
                TraderView { quote_balance: (t0.quote_balance - amount) as u64, ..t0 }
            };
            assert(self@.traders =~= pre.traders.update(i as int, t2));
            lemma_wf_update(pre, i as int, t2);
        }
        Ok(())
    }

    /// Places a limit order: escrows its cost out of the spendable balance
    /// and appends it to the trader's open-order list. Orders carry stable
    /// caller-chosen identifiers; a duplicate identifier is rejected rather
    /// than shadowed, so references stay unambiguous.
    pub fn create_order(&mut self, ctx: ExecutionContext, user: u64, order: Order) -> (r: Result<
        (),
        OrderbookError,
    >)
        requires
            old(self)@.wf(),
            order.valid(),
        ensures
            final(self)@.wf(),
            old(self)@.create_order_spec(ctx, user, order) matches Ok(s2) ==> r is Ok
                && final(self)@ == s2,
            old(self)@.create_order_spec(ctx, user, order) matches Err(e) ==> r == Err::<
                (),
                OrderbookError,
            >(e) && final(self)@ == old(self)@,
    {
        let i = match self.find_trader(user) {
            None => { return Err(OrderbookError::UnknownTrader) },
            Some(i) => i,
        };
        proof {
            assert(self@.traders[i as int] == self.traders@[i as int]@);
        }
        if !self.traders[i].delegation.allows_mutation(ctx) {
            return Err(OrderbookError::AuthorityMismatch);
        }
        if order.match_timestamp.is_some() {
            return Err(OrderbookError::AlreadyMatched);
        }
        match find_order_position(&self.traders[i].orders, order.id) {
            Some(_) => { return Err(OrderbookError::AlreadyExists) },
            None => {},
        }
        let is_buy = order.order_type == OrderType::Buy;
        let cost = order.price * order.quantity;
        if is_buy {
            if self.traders[i].quote_balance < cost {
                return Err(OrderbookError::InsufficientQuoteFunds);
            }
        } else {
            if self.traders[i].base_balance < order.quantity {
                return Err(OrderbookError::InsufficientBaseFunds);
            }
        }
        let t = &mut self.traders[i];
        if is_buy {
            t.quote_balance = t.quote_balance - cost;
        } else {
            t.base_balance = t.base_balance - order.quantity;
        }
        t.orders.push(order);
        proof {
            let pre = old(self)@;
            let t0 = pre.traders[i as int];
            let t2 = if is_buy {
                TraderView {
                    quote_balance: (t0.quote_balance - order.price * order.quantity) as u64,
                    orders: t0.orders.push(order),
                    ..t0
                }
            } else {
                TraderView {
                    base_balance: (t0.base_balance - order.quantity) as u64,
                    orders: t0.orders.push(order),
                    ..t0
                }
            };
            assert(self@.traders =~= pre.traders.update(i as int, t2));
            lemma_order_index(t0.orders, order.id);
            assert forall|a: int, b: int|
                0 <= a < b < t2.orders.len() implies t2.orders[a].id != t2.orders[b].id by {
                if b < t0.orders.len() as int {
                    assert(t2.orders[a] == t0.orders[a]);
                    assert(t2.orders[b] == t0.orders[b]);
                } else {
                    assert(t2.orders[a] == t0.orders[a]);
                    assert(t2.orders[b] == order);
                }
            }
            assert forall|a: int|
                0 <= a < t2.orders.len() implies (#[trigger] t2.orders[a]).is_open()
                    && t2.orders[a].valid() by {
                if a < t0.orders.len() as int {
                    assert(t2.orders[a] == t0.orders[a]);
                } else {
                    assert(t2.orders[a] == order);
                }
            }
            lemma_wf_update(pre, i as int, t2);
        }
        Ok(())
    }

    /// Crosses the maker's resting sell against the taker's resting buy.
    ///
    /// The maker's ask must be at or below the attested reference price, the
    /// taker's bid at or above it, and the quantities must be equal — there
    /// are no partial fills. Settlement uses the maker's stated price: the
    /// maker is credited `price * quantity` quote units against base escrow
    /// already reserved at order entry, the taker is credited `quantity`
    /// base units against quote escrow likewise already reserved. Both
    /// orders are stamped with the attested time and removed from their
    /// open-order lists in the same atomic step; when both rest in the same
    /// trader's list the higher position is removed first so the lower one
    /// still addresses the order it was read from. Any failure leaves no
    /// balance or order-state change.
    pub fn match_order(
        &mut self,
        ctx: ExecutionContext,
        maker_user: u64,
        maker_order_id: u64,
        taker_user: u64,
        taker_order_id: u64,
        attested: TemporalNumericValue,
    ) -> (r: Result<(), OrderbookError>)
        requires
            old(self)@.wf(),
            old(self)@.match_fits(maker_user, maker_order_id, taker_user),
        ensures
            final(self)@.wf(),
            old(self)@.match_order_spec(
                ctx,
                maker_user,
                maker_order_id,
                taker_user,
                taker_order_id,
                attested,
            ) matches Ok(s2) ==> r is Ok && final(self)@ == s2,
            old(self)@.match_order_spec(
                ctx,
                maker_user,
                maker_order_id,
                taker_user,
                taker_order_id,
                attested,
            ) matches Err(e) ==> r == Err::<(), OrderbookError>(e) && final(self)@ == old(self)@,
    {
        let mi = match self.find_trader(maker_user) {
            None => { return Err(OrderbookError::UnknownTrader) },
            Some(i) => i,
        };
        let ti = match self.find_trader(taker_user) {
            None => { return Err(OrderbookError::UnknownTrader) },
            Some(i) => i,
        };
        proof {
            assert(self@.traders[mi as int] == self.traders@[mi as int]@);
            assert(self@.traders[ti as int] == self.traders@[ti as int]@);
        }
        if !self.traders[mi].delegation.allows_mutation(ctx) {
            return Err(OrderbookError::AuthorityMismatch);
        }
        if !self.traders[ti].delegation.allows_mutation(ctx) {
            return Err(OrderbookError::AuthorityMismatch);
        }
        let pm = match find_order_position(&self.traders[mi].orders, maker_order_id) {
            None => { return Err(OrderbookError::InvalidOrderIndex) },
            Some(p) => p,
        };
        let maker_order = self.traders[mi].orders[pm];
        if maker_order.order_type != OrderType::Sell {
            return Err(OrderbookError::InvalidOrderType);
        }
        let pt = match find_order_position(&self.traders[ti].orders, taker_order_id) {
            None => { return Err(OrderbookError::InvalidOrderIndex) },
            Some(p) => p,
        };
        let taker_order = self.traders[ti].orders[pt];
        if taker_order.order_type != OrderType::Buy {
            return Err(OrderbookError::InvalidOrderType);
        }
        if maker_order.price > attested.quantized_value || taker_order.price
            < attested.quantized_value || maker_order.quantity != taker_order.quantity {
            return Err(OrderbookError::MismatchingOrders);
        }
        proof {
            assert(old(self)@.traders[mi as int].orders[pm as int].valid());
        }
        let proceeds = maker_order.price * maker_order.quantity;
        if mi == ti {
            let t = &mut self.traders[mi];
            t.quote_balance = t.quote_balance + proceeds;
            t.base_balance = t.base_balance + maker_order.quantity;
            {
                let om = &mut t.orders[pm];
                om.match_timestamp = Some(attested.timestamp_ns);
            }
            {
                let ot = &mut t.orders[pt];
                ot.match_timestamp = Some(attested.timestamp_ns);
            }
            if pm > pt {
                t.orders.remove(pm);
                t.orders.remove(pt);
            } else {
                t.orders.remove(pt);
                t.orders.remove(pm);
            }
            proof {
                let pre = old(self)@;
                let t0 = pre.traders[mi as int];
                let mo = t0.orders[pm as int];
                let both = TraderView {
                    quote_balance: (t0.quote_balance + mo.price * mo.quantity) as u64,
                    base_balance: (t0.base_balance + mo.quantity) as u64,
                    orders: ExchangeView::remove_two(t0.orders, pm as int, pt as int),
                    ..t0
                };
                assert(self@.traders =~~= pre.traders.update(mi as int, both));
                let lower = if pm < pt {
                    pm as int
                } else {
                    pt as int
                };
                let higher = if pm < pt {
                    pt as int
                } else {
                    pm as int
                };
                lemma_orders_invariants_remove(t0.orders, higher);
                lemma_orders_invariants_remove(t0.orders.remove(higher), lower);
                assert(both.orders == t0.orders.remove(higher).remove(lower));
                lemma_wf_update(pre, mi as int, both);
            }
        } else {
            {
                let m = &mut self.traders[mi];
                m.quote_balance = m.quote_balance + proceeds;
                {
                    let om = &mut m.orders[pm];
                    om.match_timestamp = Some(attested.timestamp_ns);
                }
                m.orders.remove(pm);
            }
            {
                let t = &mut self.traders[ti];
                t.base_balance = t.base_balance + maker_order.quantity;
                {
                    let ot = &mut t.orders[pt];
                    ot.match_timestamp = Some(attested.timestamp_ns);
                }
                t.orders.remove(pt);
            }
            proof {
                let pre = old(self)@;
                let t0 = pre.traders[mi as int];
                let u0 = pre.traders[ti as int];
                let mo = t0.orders[pm as int];
                let m2 = TraderView {
                    quote_balance: (t0.quote_balance + mo.price * mo.quantity) as u64,
                    orders: t0.orders.remove(pm as int),
                    ..t0
                };
                let t2 = TraderView {
                    base_balance: (u0.base_balance + mo.quantity) as u64,
                    orders: u0.orders.remove(pt as int),
                    ..u0
                };
                assert(self@.traders =~~= pre.traders.update(mi as int, m2).update(ti as int, t2));
                lemma_orders_invariants_remove(t0.orders, pm as int);
                lemma_orders_invariants_remove(u0.orders, pt as int);
                let mid = ExchangeView { traders: pre.traders.update(mi as int, m2), ..pre };
                lemma_wf_update(pre, mi as int, m2);
                assert(mid.traders[ti as int] == u0);
                lemma_wf_update(mid, ti as int, t2);
                assert(mid.traders.update(ti as int, t2) == pre.traders.update(
                    mi as int,
                    m2,
                ).update(ti as int, t2));
            }
        }
        Ok(())
    }

    /// Hands ownership of a trader record from the durable context to
    /// `target` through the two-phase transfer protocol.
    pub fn delegate_trader(&mut self, user: u64, target: ExecutionContext) -> (r: Result<
        (),
        OrderbookError,
    >)
        requires
            old(self)@.wf(),
        ensures
            final(self)@.wf(),
            old(self)@.delegate_trader_spec(user, target) matches Ok(s2) ==> r is Ok
                && final(self)@ == s2,
            old(self)@.delegate_trader_spec(user, target) matches Err(e) ==> r == Err::<
                (),
                OrderbookError,
            >(e) && final(self)@ == old(self)@,
    {
        let i = match self.find_trader(user) {
            None => { return Err(OrderbookError::UnknownTrader) },
            Some(i) => i,
        };
        proof {
            assert(self@.traders[i as int] == self.traders@[i as int]@);
        }
        let t = &mut self.traders[i];
        let began = t.delegation.begin_transition(ExecutionContext::Durable);
        let ok = began.is_ok();
        if ok {
            t.delegation.complete_transition(target);
        }
        if ok {
            proof {
                let pre = old(self)@;
                let t2 = TraderView {
                    delegation: DelegationState::Owned(target),
                    ..pre.traders[i as int]
                };
                assert(self@.traders =~= pre.traders.update(i as int, t2));
                lemma_wf_update(pre, i as int, t2);
            }
            Ok(())
        } else {
            proof {
                assert(self@.traders =~= old(self)@.traders);
            }
            Err(OrderbookError::AuthorityMismatch)
        }
    }

    /// Commits a trader record back from the fast context: the record's
    /// current value becomes the durable context's authoritative value and
    /// ownership returns to the durable context.
    pub fn undelegate_trader(&mut self, user: u64) -> (r: Result<(), OrderbookError>)
        requires
            old(self)@.wf(),
        ensures
            final(self)@.wf(),
            old(self)@.undelegate_trader_spec(user) matches Ok(s2) ==> r is Ok
                && final(self)@ == s2,
            old(self)@.undelegate_trader_spec(user) matches Err(e) ==> r == Err::<
                (),
                OrderbookError,
            >(e) && final(self)@ == old(self)@,
    {
        let i = match self.find_trader(user) {
            None => { return Err(OrderbookError::UnknownTrader) },
            Some(i) => i,
        };
        proof {
            assert(self@.traders[i as int] == self.traders@[i as int]@);
        }
        let t = &mut self.traders[i];
        let began = t.delegation.begin_transition(ExecutionContext::Fast);
        let ok = began.is_ok();
        if ok {
            t.delegation.complete_transition(ExecutionContext::Durable);
        }
        if ok {
            proof {
                let pre = old(self)@;
                let t2 = TraderView {
                    delegation: DelegationState::Owned(ExecutionContext::Durable),
                    ..pre.traders[i as int]
                };
                assert(self@.traders =~= pre.traders.update(i as int, t2));
                lemma_wf_update(pre, i as int, t2);
            }
            Ok(())
        } else {
            proof {
                assert(self@.traders =~= old(self)@.traders);
            }
            Err(OrderbookError::AuthorityMismatch)
        }
    }

    /// Hands ownership of the market record from the durable context to
    /// `target`, as `delegate_trader` does for a trader record.
    pub fn delegate_orderbook(&mut self, target: ExecutionContext) -> (r: Result<
        (),
        OrderbookError,
    >)
        requires
            old(self)@.wf(),
        ensures
            final(self)@.wf(),
            old(self)@.delegate_orderbook_spec(target) matches Ok(s2) ==> r is Ok
                && final(self)@ == s2,
            old(self)@.delegate_orderbook_spec(target) matches Err(e) ==> r == Err::<
                (),
                OrderbookError,
            >(e) && final(self)@ == old(self)@,
    {
        let began = self.orderbook.delegation.begin_transition(ExecutionContext::Durable);
        let ok = began.is_ok();
        if ok {
            self.orderbook.delegation.complete_transition(target);
        }
        if ok {
            Ok(())
        } else {
            Err(OrderbookError::AuthorityMismatch)
        }
    }

    /// Commits the market record back from the fast context, as
    /// `undelegate_trader` does for a trader record.
    pub fn undelegate_orderbook(&mut self) -> (r: Result<(), OrderbookError>)
        requires
            old(self)@.wf(),
        ensures
            final(self)@.wf(),
            old(self)@.undelegate_orderbook_spec() matches Ok(s2) ==> r is Ok
                && final(self)@ == s2,
            old(self)@.undelegate_orderbook_spec() matches Err(e) ==> r == Err::<
                (),
                OrderbookError,
            >(e) && final(self)@ == old(self)@,
    {
        let began = self.orderbook.delegation.begin_transition(ExecutionContext::Fast);
        let ok = began.is_ok();
        if ok {
            self.orderbook.delegation.complete_transition(ExecutionContext::Durable);
        }
        if ok {
            Ok(())
        } else {
            Err(OrderbookError::AuthorityMismatch)
        }
    }
}

} // verus!
