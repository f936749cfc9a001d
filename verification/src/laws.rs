use vstd::prelude::*;

use crate::delegation::{DelegationState, ExecutionContext};
use crate::errors::OrderbookError;
use crate::exchange::{lemma_wf_update, ExchangeView};
use crate::state::{lemma_order_index, lemma_orders_invariants_remove, lemma_trader_index,
    lemma_trader_index_same_users,
    order_index, trader_index, Order, TemporalNumericValue, TraderView};
use crate::sums::{lemma_ledger_push, lemma_ledger_update, lemma_orders_escrow_push,
    lemma_orders_escrow_remove};

verus! {

/// Registration never creates value: a new trader adds nothing to the
/// ledger totals.
pub proof fn lemma_create_trader_conserves(s: ExchangeView, user: u64)
    requires
        s.wf(),
    ensures
        s.create_trader_spec(user) matches Ok(s2) ==> s2.total_base() == s.total_base()
            && s2.total_quote() == s.total_quote(),
{
    if s.create_trader_spec(user) is Ok {
        lemma_ledger_push(s.traders, ExchangeView::new_trader(s.orderbook.id, user));
    }
}

/// A successful deposit raises the ledger total of the deposited asset by
/// exactly the deposited amount and leaves the other asset's total alone.
pub proof fn lemma_deposit_flow(
    s: ExchangeView,
    ctx: ExecutionContext,
    user: u64,
    mint: u64,
    amount: u64,
)
    requires
        s.wf(),
        s.deposit_fits(user, mint, amount),
    ensures
        s.deposit_spec(ctx, user, mint, amount) matches Ok(s2) ==> if mint
            == s.orderbook.base_mint {
            s2.total_base() == s.total_base() + amount && s2.total_quote() == s.total_quote()
        } else {
            s2.total_quote() == s.total_quote() + amount && s2.total_base() == s.total_base()
        },
{
    if s.deposit_spec(ctx, user, mint, amount) is Ok {
        lemma_trader_index(s.traders, user);
        let i = trader_index(s.traders, user);
        let t = s.traders[i];
        let t2 = if mint == s.orderbook.base_mint {
            TraderView { base_balance: (t.base_balance + amount) as u64, ..t }
        } else {
            TraderView { quote_balance: (t.quote_balance + amount) as u64, ..t }
        };
        lemma_ledger_update(s.traders, i, t2);
    }
}

/// A successful withdrawal lowers the ledger total of the withdrawn asset
/// by exactly the withdrawn amount and leaves the other asset's total alone.
pub proof fn lemma_withdraw_flow(
    s: ExchangeView,
    ctx: ExecutionContext,
    user: u64,
    mint: u64,
    amount: u64,
)
    requires
        s.wf(),
    ensures
        s.withdraw_spec(ctx, user, mint, amount) matches Ok(s2) ==> if mint
            == s.orderbook.base_mint {
            s2.total_base() == s.total_base() - amount && s2.total_quote() == s.total_quote()
        } else {
            s2.total_quote() == s.total_quote() - amount && s2.total_base() == s.total_base()
        },
{
    if s.withdraw_spec(ctx, user, mint, amount) is Ok {
        lemma_trader_index(s.traders, user);
        let i = trader_index(s.traders, user);
        let t = s.traders[i];
        let t2 = if mint == s.orderbook.base_mint {
            TraderView { base_balance: (t.base_balance - amount) as u64, ..t }
        } else {
            TraderView { quote_balance: (t.quote_balance - amount) as u64, ..t }
        };
        lemma_ledger_update(s.traders, i, t2);
    }
}

/// A withdrawal that exceeds the spendable balance is rejected with the
/// asset's insufficiency error, never clamped or partially applied.
pub proof fn lemma_withdraw_rejects_overdraft(
    s: ExchangeView,
    ctx: ExecutionContext,
    user: u64,
    mint: u64,
    amount: u64,
)
    requires
        s.wf(),
        s.orderbook.is_asset(mint),
        s.has_trader(user),
        s.traders[trader_index(s.traders, user)].delegation.owned_by(ctx),
        amount > (if mint == s.orderbook.base_mint {
            s.traders[trader_index(s.traders, user)].base_balance
        } else {
            s.traders[trader_index(s.traders, user)].quote_balance
        }),
    ensures
        s.withdraw_spec(ctx, user, mint, amount) == Err::<ExchangeView, OrderbookError>(
            if mint == s.orderbook.base_mint {
                OrderbookError::InsufficientBaseFunds
            } else {
                OrderbookError::InsufficientQuoteFunds
            },
        ),
{
}

/// An order whose escrow the spendable balance cannot cover is rejected
/// with the asset's insufficiency error, never partially escrowed.
pub proof fn lemma_create_order_rejects_overdraft(
    s: ExchangeView,
    ctx: ExecutionContext,
    user: u64,
    order: Order,
)
    requires
        s.wf(),
        s.has_trader(user),
        s.traders[trader_index(s.traders, user)].delegation.owned_by(ctx),
        order.is_open(),
        order_index(s.traders[trader_index(s.traders, user)].orders, order.id) < 0,
        order.order_type is Buy ==> s.traders[trader_index(s.traders, user)].quote_balance
            < order.price * order.quantity,
        order.order_type is Sell ==> s.traders[trader_index(s.traders, user)].base_balance
            < order.quantity,
    ensures
        s.create_order_spec(ctx, user, order) == Err::<ExchangeView, OrderbookError>(
            if order.order_type is Buy {
                OrderbookError::InsufficientQuoteFunds
            } else {
                OrderbookError::InsufficientBaseFunds
            },
        ),
{
    lemma_trader_index(s.traders, user);
}

/// Escrow correctness: a successful buy order moves exactly
/// `price * quantity` quote units from the spendable balance into escrow; a
/// successful sell order moves exactly `quantity` base units. Either way the
/// ledger totals are unchanged: order entry only reserves funds.
pub proof fn lemma_create_order_escrow(
    s: ExchangeView,
    ctx: ExecutionContext,
    user: u64,
    order: Order,
)
    requires
        s.wf(),
    ensures
        s.create_order_spec(ctx, user, order) matches Ok(s2) ==> {
            let i = trader_index(s.traders, user);
            &&& order.order_type is Buy ==> s2.traders[i].quote_balance == s.traders[i].quote_balance
                - order.price * order.quantity && s2.traders[i].base_balance
                == s.traders[i].base_balance
            &&& order.order_type is Sell ==> s2.traders[i].base_balance
                == s.traders[i].base_balance - order.quantity && s2.traders[i].quote_balance
                == s.traders[i].quote_balance
            &&& s2.traders[i].orders == s.traders[i].orders.push(order)
            &&& s2.total_base() == s.total_base()
            &&& s2.total_quote() == s.total_quote()
        },
{
    if s.create_order_spec(ctx, user, order) is Ok {
        lemma_trader_index(s.traders, user);
        let i = trader_index(s.traders, user);
        let t = s.traders[i];
        lemma_orders_escrow_push(t.orders, order);
        let t2 = if order.order_type is Buy {
            TraderView {
                quote_balance: (t.quote_balance - order.price * order.quantity) as u64,
                orders: t.orders.push(order),
                ..t
            }
        } else {
            TraderView {
                base_balance: (t.base_balance - order.quantity) as u64,
                orders: t.orders.push(order),
                ..t
            }
        };
        lemma_ledger_update(s.traders, i, t2);
    }
}

/// Settlement bookkeeping of a successful match: the base total is
/// unchanged — the maker's released base escrow funds the taker's credit —
/// and the quote total changes by exactly the maker's proceeds minus the
/// quote escrow the taker released at the taker's own bid. When the bid
/// equals the ask, a match conserves both totals and only redistributes
/// them.
pub proof fn lemma_match_settlement_totals(
    s: ExchangeView,
    ctx: ExecutionContext,
    m_user: u64,
    m_id: u64,
    t_user: u64,
    t_id: u64,
    attested: TemporalNumericValue,
)
    requires
        s.wf(),
        s.match_fits(m_user, m_id, t_user),
    ensures
        s.match_order_spec(ctx, m_user, m_id, t_user, t_id, attested) matches Ok(s2) ==> {
            let mi = trader_index(s.traders, m_user);
            let ti = trader_index(s.traders, t_user);
            let mo = s.traders[mi].orders[order_index(s.traders[mi].orders, m_id)];
            let to = s.traders[ti].orders[order_index(s.traders[ti].orders, t_id)];
            &&& s2.total_base() == s.total_base()
            &&& s2.total_quote() == s.total_quote() + mo.price * mo.quantity - to.price
                * to.quantity
            &&& to.price == mo.price ==> s2.total_quote() == s.total_quote()
        },
{
    if s.match_order_spec(ctx, m_user, m_id, t_user, t_id, attested) is Ok {
        lemma_trader_index(s.traders, m_user);
        lemma_trader_index(s.traders, t_user);
        let mi = trader_index(s.traders, m_user);
        let ti = trader_index(s.traders, t_user);
        let maker = s.traders[mi];
        let taker = s.traders[ti];
        lemma_order_index(maker.orders, m_id);
        lemma_order_index(taker.orders, t_id);
        let pm = order_index(maker.orders, m_id);
        let pt = order_index(taker.orders, t_id);
        let mo = maker.orders[pm];
        let to = taker.orders[pt];
        if mi == ti {
            let lower = if pm < pt {
                pm
            } else {
                pt
            };
            let higher = if pm < pt {
                pt
            } else {
                pm
            };
            lemma_orders_escrow_remove(maker.orders, higher);
            assert(maker.orders.remove(higher)[lower] == maker.orders[lower]);
            lemma_orders_escrow_remove(maker.orders.remove(higher), lower);
            let both = TraderView {
                quote_balance: (maker.quote_balance + mo.price * mo.quantity) as u64,
                base_balance: (maker.base_balance + mo.quantity) as u64,
                orders: ExchangeView::remove_two(maker.orders, pm, pt),
                ..maker
            };
            lemma_ledger_update(s.traders, mi, both);
        } else {
            let m2 = TraderView {
                quote_balance: (maker.quote_balance + mo.price * mo.quantity) as u64,
                orders: maker.orders.remove(pm),
                ..maker
            };
            let t2 = TraderView {
                base_balance: (taker.base_balance + mo.quantity) as u64,
                orders: taker.orders.remove(pt),
                ..taker
            };
            lemma_orders_escrow_remove(maker.orders, pm);
            lemma_orders_escrow_remove(taker.orders, pt);
            lemma_ledger_update(s.traders, mi, m2);
            assert(s.traders.update(mi, m2)[ti] == taker);
            lemma_ledger_update(s.traders.update(mi, m2), ti, t2);
        }
    }
}

/// Match terminality: after a successful match both participating orders
/// are absent from their traders' open-order lists, and re-submitting the
/// same references fails with `InvalidOrderIndex`, whatever price the
/// oracle attests next.
pub proof fn lemma_match_terminality(
    s: ExchangeView,
    ctx: ExecutionContext,
    m_user: u64,
    m_id: u64,
    t_user: u64,
    t_id: u64,
    attested: TemporalNumericValue,
    attested2: TemporalNumericValue,
)
    requires
        s.wf(),
    ensures
        s.match_order_spec(ctx, m_user, m_id, t_user, t_id, attested) matches Ok(s2) ==> {
            let mi = trader_index(s2.traders, m_user);
            let ti = trader_index(s2.traders, t_user);
            &&& order_index(s2.traders[mi].orders, m_id) == -1
            &&& order_index(s2.traders[ti].orders, t_id) == -1
            &&& s2.match_order_spec(ctx, m_user, m_id, t_user, t_id, attested2) == Err::<
                ExchangeView,
                OrderbookError,
            >(OrderbookError::InvalidOrderIndex)
        },
{
    if s.match_order_spec(ctx, m_user, m_id, t_user, t_id, attested) is Ok {
        lemma_trader_index(s.traders, m_user);
        lemma_trader_index(s.traders, t_user);
        let mi = trader_index(s.traders, m_user);
        let ti = trader_index(s.traders, t_user);
        let maker = s.traders[mi];
        let taker = s.traders[ti];
        lemma_order_index(maker.orders, m_id);
        lemma_order_index(taker.orders, t_id);
        let pm = order_index(maker.orders, m_id);
        let pt = order_index(taker.orders, t_id);
        let s2 = s.settle(mi, pm, ti, pt);
        assert(forall|k: int| 0 <= k < s.traders.len() ==> s2.traders[k].user == s.traders[k].user);
        lemma_trader_index_same_users(s2.traders, s.traders, m_user);
        lemma_trader_index_same_users(s2.traders, s.traders, t_user);
        if mi == ti {
            let lower = if pm < pt {
                pm
            } else {
                pt
            };
            let higher = if pm < pt {
                pt
            } else {
                pm
            };
            let rest = ExchangeView::remove_two(maker.orders, pm, pt);
            assert forall|j: int| 0 <= j < rest.len() implies rest[j].id != m_id && rest[j].id
                != t_id by {
                let j1 = if j < lower {
                    j
                } else {
                    j + 1
                };
                let j0 = if j1 < higher {
                    j1
                } else {
                    j1 + 1
                };
                assert(rest[j] == maker.orders[j0]);
            }
            lemma_order_index(rest, m_id);
            lemma_order_index(rest, t_id);
        } else {
            let m_rest = maker.orders.remove(pm);
            assert forall|j: int| 0 <= j < m_rest.len() implies m_rest[j].id != m_id by {
                let j0 = if j < pm {
                    j
                } else {
                    j + 1
                };
                assert(m_rest[j] == maker.orders[j0]);
            }
            let t_rest = taker.orders.remove(pt);
            assert forall|j: int| 0 <= j < t_rest.len() implies t_rest[j].id != t_id by {
                let j0 = if j < pt {
                    j
                } else {
                    j + 1
                };
                assert(t_rest[j] == taker.orders[j0]);
            }
            lemma_order_index(m_rest, m_id);
            lemma_order_index(t_rest, t_id);
        }
    }
}

/// Delegation exclusivity: while a trader record is owned by one execution
/// context, every mutating operation attempted through the other context is
/// rejected with `AuthorityMismatch` and no state changes.
pub proof fn lemma_delegation_exclusivity(
    s: ExchangeView,
    ctx: ExecutionContext,
    owner: ExecutionContext,
    user: u64,
    mint: u64,
    amount: u64,
    order: Order,
)
    requires
        s.wf(),
        s.orderbook.is_asset(mint),
        s.has_trader(user),
        s.traders[trader_index(s.traders, user)].delegation == DelegationState::Owned(owner),
        owner != ctx,
    ensures
        s.deposit_spec(ctx, user, mint, amount) == Err::<ExchangeView, OrderbookError>(
            OrderbookError::AuthorityMismatch,
        ),
        s.withdraw_spec(ctx, user, mint, amount) == Err::<ExchangeView, OrderbookError>(
            OrderbookError::AuthorityMismatch,
        ),
        s.create_order_spec(ctx, user, order) == Err::<ExchangeView, OrderbookError>(
            OrderbookError::AuthorityMismatch,
        ),
{
    lemma_trader_index(s.traders, user);
}

/// Undelegation restores the durable context's authority: once the record
/// is committed back, a retry of the same withdrawal through the durable
/// context succeeds whenever the spendable balance covers it.
pub proof fn lemma_undelegate_restores_authority(
    s: ExchangeView,
    user: u64,
    mint: u64,
    amount: u64,
)
    requires
        s.wf(),
        s.orderbook.is_asset(mint),
        s.has_trader(user),
        s.traders[trader_index(s.traders, user)].delegation == DelegationState::Owned(
            ExecutionContext::Fast,
        ),
        amount <= (if mint == s.orderbook.base_mint {
            s.traders[trader_index(s.traders, user)].base_balance
        } else {
            s.traders[trader_index(s.traders, user)].quote_balance
        }),
    ensures
        s.undelegate_trader_spec(user) is Ok,
        s.undelegate_trader_spec(user) matches Ok(s2) ==> s2.withdraw_spec(
            ExecutionContext::Durable,
            user,
            mint,
            amount,
        ) is Ok,
{
    lemma_trader_index(s.traders, user);
    let i = trader_index(s.traders, user);
    let t2 = TraderView {
        delegation: DelegationState::Owned(ExecutionContext::Durable),
        ..s.traders[i]
    };
    let s2 = ExchangeView { traders: s.traders.update(i, t2), ..s };
    assert(s.undelegate_trader_spec(user) == Ok::<ExchangeView, OrderbookError>(s2));
    assert(forall|k: int| 0 <= k < s.traders.len() ==> s2.traders[k].user == s.traders[k].user);
    lemma_trader_index_same_users(s2.traders, s.traders, user);
}

/// One ledger-mutating call, as a caller would issue it.
pub enum LedgerOp {
    Deposit { ctx: ExecutionContext, user: u64, mint: u64, amount: u64 },
    Withdraw { ctx: ExecutionContext, user: u64, mint: u64, amount: u64 },
    CreateOrder { ctx: ExecutionContext, user: u64, order: Order },
    MatchOrder {
        ctx: ExecutionContext,
        m_user: u64,
        m_id: u64,
        t_user: u64,
        t_id: u64,
        attested: TemporalNumericValue,
    },
}

/// State after one call: the new state on success, the old state untouched
/// on any rejection.
pub open spec fn apply_op(s: ExchangeView, op: LedgerOp) -> ExchangeView {
    match op {
        LedgerOp::Deposit { ctx, user, mint, amount } => match s.deposit_spec(
            ctx,
            user,
            mint,
            amount,
        ) {
            Ok(s2) => s2,
            Err(_) => s,
        },
        LedgerOp::Withdraw { ctx, user, mint, amount } => match s.withdraw_spec(
            ctx,
            user,
            mint,
            amount,
        ) {
            Ok(s2) => s2,
            Err(_) => s,
        },
        LedgerOp::CreateOrder { ctx, user, order } => match s.create_order_spec(ctx, user, order) {
            Ok(s2) => s2,
            Err(_) => s,
        },
        LedgerOp::MatchOrder { ctx, m_user, m_id, t_user, t_id, attested } => match s
            .match_order_spec(ctx, m_user, m_id, t_user, t_id, attested) {
            Ok(s2) => s2,
            Err(_) => s,
        },
    }
}

/// State after a whole sequence of calls.
pub open spec fn apply_ops(s: ExchangeView, ops: Seq<LedgerOp>) -> ExchangeView
    decreases ops.len(),
{
    if ops.len() == 0 {
        s
    } else {
        apply_ops(apply_op(s, ops.first()), ops.drop_first())
    }
}

/// The machine limits a call must respect in state `s`: credited balances
/// must stay representable and an order's cost must be representable.
pub open spec fn op_admissible(s: ExchangeView, op: LedgerOp) -> bool {
    match op {
        LedgerOp::Deposit { user, mint, amount, .. } => s.deposit_fits(user, mint, amount),
        LedgerOp::Withdraw { .. } => true,
        LedgerOp::CreateOrder { order, .. } => order.valid(),
        LedgerOp::MatchOrder { m_user, m_id, t_user, .. } => s.match_fits(m_user, m_id, t_user),
    }
}

/// Every call of the sequence respects the machine limits in the state it
/// actually runs in.
pub open spec fn trace_admissible(s: ExchangeView, ops: Seq<LedgerOp>) -> bool
    decreases ops.len(),
{
    ops.len() == 0 || (op_admissible(s, ops.first()) && trace_admissible(
        apply_op(s, ops.first()),
        ops.drop_first(),
    ))
}

/// Base units a call moves into (positive) or out of (negative) custody:
/// only deposits and withdrawals of the base asset move any.
pub open spec fn base_flow(s: ExchangeView, op: LedgerOp) -> int {
    match op {
        LedgerOp::Deposit { ctx, user, mint, amount } => if s.deposit_spec(ctx, user, mint, amount)
            is Ok && mint == s.orderbook.base_mint {
            amount as int
        } else {
            0
        },
        LedgerOp::Withdraw { ctx, user, mint, amount } => if s.withdraw_spec(
            ctx,
            user,
            mint,
            amount,
        ) is Ok && mint == s.orderbook.base_mint {
            -(amount as int)
        } else {
            0
        },
        LedgerOp::CreateOrder { .. } => 0,
        LedgerOp::MatchOrder { .. } => 0,
    }
}

/// Quote units a call adds to the attributed ledger totals. Deposits and
/// withdrawals of the quote asset move custody funds; a successful match
/// moves none, but the quote escrow the taker posted at the taker's bid is
/// consumed while the maker is credited at the maker's ask, so the
/// difference leaves the attributed totals — zero whenever the bid equals
/// the ask.
pub open spec fn quote_flow(s: ExchangeView, op: LedgerOp) -> int {
    match op {
        LedgerOp::Deposit { ctx, user, mint, amount } => if s.deposit_spec(ctx, user, mint, amount)
            is Ok && mint != s.orderbook.base_mint {
            amount as int
        } else {
            0
        },
        LedgerOp::Withdraw { ctx, user, mint, amount } => if s.withdraw_spec(
            ctx,
            user,
            mint,
            amount,
        ) is Ok && mint != s.orderbook.base_mint {
            -(amount as int)
        } else {
            0
        },
        LedgerOp::CreateOrder { .. } => 0,
        LedgerOp::MatchOrder { ctx, m_user, m_id, t_user, t_id, attested } => if s.match_order_spec(
            ctx,
            m_user,
            m_id,
            t_user,
            t_id,
            attested,
        ) is Ok {
            let mi = trader_index(s.traders, m_user);
            let ti = trader_index(s.traders, t_user);
            let mo = s.traders[mi].orders[order_index(s.traders[mi].orders, m_id)];
            let to = s.traders[ti].orders[order_index(s.traders[ti].orders, t_id)];
            mo.price * mo.quantity - to.price * to.quantity
        } else {
            0
        },
    }
}

/// Net base flow of a whole sequence.
pub open spec fn total_base_flow(s: ExchangeView, ops: Seq<LedgerOp>) -> int
    decreases ops.len(),
{
    if ops.len() == 0 {
        0
    } else {
        base_flow(s, ops.first()) + total_base_flow(apply_op(s, ops.first()), ops.drop_first())
    }
}

/// Net quote flow of a whole sequence.
pub open spec fn total_quote_flow(s: ExchangeView, ops: Seq<LedgerOp>) -> int
    decreases ops.len(),
{
    if ops.len() == 0 {
        0
    } else {
        quote_flow(s, ops.first()) + total_quote_flow(apply_op(s, ops.first()), ops.drop_first())
    }
}

/// Every single call preserves the system invariant.
pub proof fn lemma_apply_op_wf(s: ExchangeView, op: LedgerOp)
    requires
        s.wf(),
        op_admissible(s, op),
    ensures
        apply_op(s, op).wf(),
{
    match op {
        LedgerOp::Deposit { ctx, user, mint, amount } => {
            if s.deposit_spec(ctx, user, mint, amount) is Ok {
                lemma_trader_index(s.traders, user);
                let i = trader_index(s.traders, user);
                let t = s.traders[i];
                let t2 = if mint == s.orderbook.base_mint {
                    TraderView { base_balance: (t.base_balance + amount) as u64, ..t }
                } else {
                    TraderView { quote_balance: (t.quote_balance + amount) as u64, ..t }
                };
                lemma_wf_update(s, i, t2);
            }
        },
        LedgerOp::Withdraw { ctx, user, mint, amount } => {
            if s.withdraw_spec(ctx, user, mint, amount) is Ok {
                lemma_trader_index(s.traders, user);
                let i = trader_index(s.traders, user);
                let t = s.traders[i];
                let t2 = if mint == s.orderbook.base_mint {
                    TraderView { base_balance: (t.base_balance - amount) as u64, ..t }
                } else {
                    TraderView { quote_balance: (t.quote_balance - amount) as u64, ..t }
                };
                lemma_wf_update(s, i, t2);
            }
        },
        LedgerOp::CreateOrder { ctx, user, order } => {
            if s.create_order_spec(ctx, user, order) is Ok {
                lemma_trader_index(s.traders, user);
                let i = trader_index(s.traders, user);
                let t = s.traders[i];
                lemma_order_index(t.orders, order.id);
                let orders2 = t.orders.push(order);
                assert forall|a: int, b: int|
                    0 <= a < b < orders2.len() implies orders2[a].id != orders2[b].id by {
                    if b < t.orders.len() as int {
                        assert(orders2[a] == t.orders[a]);
                        assert(orders2[b] == t.orders[b]);
                    } else {
                        assert(orders2[a] == t.orders[a]);
                        assert(orders2[b] == order);
                    }
                }
                assert forall|a: int|
                    0 <= a < orders2.len() implies (#[trigger] orders2[a]).is_open()
                        && orders2[a].valid() by {
                    if a < t.orders.len() as int {
                        assert(orders2[a] == t.orders[a]);
                    } else {
                        assert(orders2[a] == order);
                    }
                }
                let t2 = if order.order_type is Buy {
                    TraderView {
                        quote_balance: (t.quote_balance - order.price * order.quantity) as u64,
                        orders: orders2,
                        ..t
                    }
                } else {
                    TraderView {
                        base_balance: (t.base_balance - order.quantity) as u64,
                        orders: orders2,
                        ..t
                    }
                };
                lemma_wf_update(s, i, t2);
            }
        },
        LedgerOp::MatchOrder { ctx, m_user, m_id, t_user, t_id, attested } => {
            if s.match_order_spec(ctx, m_user, m_id, t_user, t_id, attested) is Ok {
                lemma_trader_index(s.traders, m_user);
                lemma_trader_index(s.traders, t_user);
                let mi = trader_index(s.traders, m_user);
                let ti = trader_index(s.traders, t_user);
                let maker = s.traders[mi];
                let taker = s.traders[ti];
                lemma_order_index(maker.orders, m_id);
                lemma_order_index(taker.orders, t_id);
                let pm = order_index(maker.orders, m_id);
                let pt = order_index(taker.orders, t_id);
                let mo = maker.orders[pm];
                if mi == ti {
                    let lower = if pm < pt {
                        pm
                    } else {
                        pt
                    };
                    let higher = if pm < pt {
                        pt
                    } else {
                        pm
                    };
                    lemma_orders_invariants_remove(maker.orders, higher);
                    lemma_orders_invariants_remove(maker.orders.remove(higher), lower);
                    let both = TraderView {
                        quote_balance: (maker.quote_balance + mo.price * mo.quantity) as u64,
                        base_balance: (maker.base_balance + mo.quantity) as u64,
                        orders: ExchangeView::remove_two(maker.orders, pm, pt),
                        ..maker
                    };
                    lemma_wf_update(s, mi, both);
                } else {
                    lemma_orders_invariants_remove(maker.orders, pm);
                    lemma_orders_invariants_remove(taker.orders, pt);
                    let m2 = TraderView {
                        quote_balance: (maker.quote_balance + mo.price * mo.quantity) as u64,
                        orders: maker.orders.remove(pm),
                        ..maker
                    };
                    let t2 = TraderView {
                        base_balance: (taker.base_balance + mo.quantity) as u64,
                        orders: taker.orders.remove(pt),
                        ..taker
                    };
                    lemma_wf_update(s, mi, m2);
                    let mid = ExchangeView { traders: s.traders.update(mi, m2), ..s };
                    assert(mid.traders[ti] == taker);
                    lemma_wf_update(mid, ti, t2);
                    assert(mid.traders.update(ti, t2) == s.traders.update(mi, m2).update(ti, t2));
                }
            }
        },
    }
}

/// Conservation over whole call sequences: across any admissible sequence
/// of deposits, withdrawals, order entries and matches, the attributed
/// ledger totals change exactly by the net flows — deposits minus
/// withdrawals per asset, plus, on the quote side, the surplus a match
/// leaves behind when the taker's bid exceeded the maker's ask (zero when
/// the two prices agree). Order entry never changes a total: it only moves
/// funds between spendable balance and escrow.
pub proof fn lemma_conservation(s: ExchangeView, ops: Seq<LedgerOp>)
    requires
        s.wf(),
        trace_admissible(s, ops),
    ensures
        apply_ops(s, ops).wf(),
        apply_ops(s, ops).total_base() == s.total_base() + total_base_flow(s, ops),
        apply_ops(s, ops).total_quote() == s.total_quote() + total_quote_flow(s, ops),
    decreases ops.len(),
{
    if ops.len() > 0 {
        let op = ops.first();
        lemma_apply_op_wf(s, op);
        match op {
            LedgerOp::Deposit { ctx, user, mint, amount } => {
                lemma_deposit_flow(s, ctx, user, mint, amount);
            },
            LedgerOp::Withdraw { ctx, user, mint, amount } => {
                lemma_withdraw_flow(s, ctx, user, mint, amount);
            },
            LedgerOp::CreateOrder { ctx, user, order } => {
                lemma_create_order_escrow(s, ctx, user, order);
            },
            LedgerOp::MatchOrder { ctx, m_user, m_id, t_user, t_id, attested } => {
                lemma_match_settlement_totals(s, ctx, m_user, m_id, t_user, t_id, attested);
            },
        }
        lemma_conservation(apply_op(s, op), ops.drop_first());
    }
}

} // verus!
