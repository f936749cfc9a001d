use vstd::prelude::*;

use crate::delegation::DelegationState;

verus! {

/// Side of a limit order.
#[derive(Clone, Copy, Debug, PartialEq, Eq, Structural)]
pub enum OrderType {
    Buy,
    Sell,
}

/// A limit order belonging to exactly one trader and one market.
///
/// `match_timestamp` is `None` while the order rests; it is set exactly once,
/// at match time, in the same atomic step that removes the order from its
/// trader's open-order list, so a stamped order is never observable in a
/// resting collection.
#[derive(Clone, Copy, Debug, PartialEq, Eq, Structural)]
pub struct Order {
    /// Stable opaque identifier; unique within the owning trader's list.
    pub id: u64,
    pub order_type: OrderType,
    pub price: u64,
    pub quantity: u64,
    pub match_timestamp: Option<i64>,
}

/// An attested `(timestamp, price)` pair from the external price oracle.
/// Its signature is checked before it reaches this core; here it is plain
/// trusted data.
#[derive(Clone, Copy, Debug, PartialEq, Eq, Structural)]
pub struct TemporalNumericValue {
    pub timestamp_ns: i64,
    pub quantized_value: u64,
}

/// The market header: one per trading pair, immutable after creation except
/// for its delegation state.
#[derive(Clone, Copy, Debug, PartialEq, Eq, Structural)]
pub struct Orderbook {
    /// Opaque market identifier.
    pub id: u64,
    /// Asset identifier of the base asset.
    pub base_mint: u64,
    /// Asset identifier of the quote asset.
    pub quote_mint: u64,
    /// Which execution context currently owns the market record.
    pub delegation: DelegationState,
}

impl Orderbook {
    /// A market pairs two distinct assets.
    pub open spec fn wf(self) -> bool {
        self.base_mint != self.quote_mint
    }

    /// `mint` names one of the two assets of this market.
    pub open spec fn is_asset(self, mint: u64) -> bool {
        mint == self.base_mint || mint == self.quote_mint
    }
}

/// A registered participant: spendable balances plus the trader's own list
/// of open orders. Escrowed funds are already deducted from the balances
/// here, so `base_balance` and `quote_balance` are always spendable amounts.
#[derive(Debug)]
pub struct Trader {
    /// Opaque principal identifier of the participant.
    pub user: u64,
    /// Identifier of the owning market.
    pub orderbook: u64,
    pub base_balance: u64,
    pub quote_balance: u64,
    pub orders: Vec<Order>,
    /// Which execution context currently owns this trader record.
    pub delegation: DelegationState,
}

/// Ghost model of a trader record: the same fields over a mathematical
/// sequence of orders.
#[verifier::ext_equal]
pub struct TraderView {
    pub user: u64,
    pub orderbook: u64,
    pub base_balance: u64,
    pub quote_balance: u64,
    pub orders: Seq<Order>,
    pub delegation: DelegationState,
}

impl View for Trader {
    type V = TraderView;

    open spec fn view(&self) -> TraderView {
        TraderView {
            user: self.user,
            orderbook: self.orderbook,
            base_balance: self.base_balance,
            quote_balance: self.quote_balance,
            orders: self.orders@,
            delegation: self.delegation,
        }
    }
}

impl Order {
    /// Prices and quantities are strictly positive and the quote cost of the
    /// order is representable.
    pub open spec fn valid(self) -> bool {
        self.price > 0 && self.quantity > 0 && self.price * self.quantity <= u64::MAX
    }

    /// The order is resting: not yet matched.
    pub open spec fn is_open(self) -> bool {
        self.match_timestamp is None
    }

    /// Base units reserved against this resting order.
    pub open spec fn base_escrow(self) -> int {
        if self.order_type is Sell {
            self.quantity as int
        } else {
            0
        }
    }

    /// Quote units reserved against this resting order.
    pub open spec fn quote_escrow(self) -> int {
        if self.order_type is Buy {
            self.price * self.quantity
        } else {
            0
        }
    }
}

/// No two orders in the list share an identifier.
pub open spec fn order_ids_unique(s: Seq<Order>) -> bool {
    forall|i: int, j: int| 0 <= i < j < s.len() ==> s[i].id != s[j].id
}

/// Every order in the list is resting and has positive, representable size.
pub open spec fn orders_resting(s: Seq<Order>) -> bool {
    forall|i: int| 0 <= i < s.len() ==> (#[trigger] s[i]).is_open() && s[i].valid()
}

impl TraderView {
    /// Record invariant: the trader belongs to `market`, its order
    /// identifiers are unique, and every listed order is open and valid.
    pub open spec fn wf(self, market: Orderbook) -> bool {
        &&& self.orderbook == market.id
        &&& order_ids_unique(self.orders)
        &&& orders_resting(self.orders)
    }

    /// Spendable base plus base units escrowed in resting sell orders.
    pub open spec fn total_base(self) -> int {
        self.base_balance + crate::sums::orders_base_escrow(self.orders)
    }

    /// Spendable quote plus quote units escrowed in resting buy orders.
    pub open spec fn total_quote(self) -> int {
        self.quote_balance + crate::sums::orders_quote_escrow(self.orders)
    }
}

/// Index of the first order with identifier `id`, or `-1` if absent.
pub open spec fn order_index(s: Seq<Order>, id: u64) -> int
    decreases s.len(),
{
    if s.len() == 0 {
        -1
    } else if s[0].id == id {
        0
    } else {
        let r = order_index(s.drop_first(), id);
        if r < 0 {
            -1
        } else {
            r + 1
        }
    }
}

/// Index of the first trader with principal `user`, or `-1` if absent.
pub open spec fn trader_index(ts: Seq<TraderView>, user: u64) -> int
    decreases ts.len(),
{
    if ts.len() == 0 {
        -1
    } else if ts[0].user == user {
        0
    } else {
        let r = trader_index(ts.drop_first(), user);
        if r < 0 {
            -1
        } else {
            r + 1
        }
    }
}

/// `order_index` returns `-1` exactly when no order carries `id`, and
/// otherwise the first position that does.
pub proof fn lemma_order_index(s: Seq<Order>, id: u64)
    ensures
        order_index(s, id) == -1 ==> forall|i: int| 0 <= i < s.len() ==> s[i].id != id,
        order_index(s, id) != -1 ==> 0 <= order_index(s, id) < s.len() && s[order_index(s, id)].id
            == id && forall|i: int| 0 <= i < order_index(s, id) ==> s[i].id != id,
    decreases s.len(),
{
    if s.len() == 0 {
    } else if s[0].id == id {
    } else {
        lemma_order_index(s.drop_first(), id);
        let sub = s.drop_first();
        assert(forall|i: int| 1 <= i < s.len() ==> s[i] == sub[i - 1]);
    }
}

/// Converse direction: a first occurrence at `k` pins `order_index` to `k`.
pub proof fn lemma_order_index_first(s: Seq<Order>, id: u64, k: int)
    requires
        0 <= k < s.len(),
        s[k].id == id,
        forall|i: int| 0 <= i < k ==> s[i].id != id,
    ensures
        order_index(s, id) == k,
    decreases s.len(),
{
    if k == 0 {
    } else {
        let sub = s.drop_first();
        assert(forall|i: int| 1 <= i < s.len() ==> s[i] == sub[i - 1]);
        lemma_order_index_first(sub, id, k - 1);
    }
}

/// `trader_index` returns `-1` exactly when no trader carries `user`, and
/// otherwise the first position that does.
pub proof fn lemma_trader_index(ts: Seq<TraderView>, user: u64)
    ensures
        trader_index(ts, user) == -1 ==> forall|i: int| 0 <= i < ts.len() ==> ts[i].user != user,
        trader_index(ts, user) != -1 ==> 0 <= trader_index(ts, user) < ts.len() && ts[trader_index(
            ts,
            user,
        )].user == user && forall|i: int| 0 <= i < trader_index(ts, user) ==> ts[i].user != user,
    decreases ts.len(),
{
    if ts.len() == 0 {
    } else if ts[0].user == user {
    } else {
        lemma_trader_index(ts.drop_first(), user);
        let sub = ts.drop_first();
        assert(forall|i: int| 1 <= i < ts.len() ==> ts[i] == sub[i - 1]);
    }
}

/// Converse direction: a first occurrence at `k` pins `trader_index` to `k`.
pub proof fn lemma_trader_index_first(ts: Seq<TraderView>, user: u64, k: int)
    requires
        0 <= k < ts.len(),
        ts[k].user == user,
        forall|i: int| 0 <= i < k ==> ts[i].user != user,
    ensures
        trader_index(ts, user) == k,
    decreases ts.len(),
{
    if k == 0 {
    } else {
        let sub = ts.drop_first();
        assert(forall|i: int| 1 <= i < ts.len() ==> ts[i] == sub[i - 1]);
        lemma_trader_index_first(sub, user, k - 1);
    }
}

/// Position of the order with identifier `id` in `orders`, if present.
pub fn find_order_position(orders: &Vec<Order>, id: u64) -> (r: Option<usize>)
    ensures
        r matches Some(i) ==> i < orders.len() && order_index(orders@, id) == i,
        r is None ==> order_index(orders@, id) == -1,
{
    let mut i: usize = 0;
    while i < orders.len()
        invariant
            i <= orders.len(),
            forall|j: int| 0 <= j < i ==> orders@[j].id != id,
        decreases orders.len() - i,
    {
        if orders[i].id == id {
            proof {
                lemma_order_index_first(orders@, id, i as int);
            }
            return Some(i);
        }
        i += 1;
    }
    proof {
        lemma_order_index(orders@, id);
    }
    None
}

/// `trader_index` depends only on the principal fields: two trader lists
/// that agree on principals position by position agree on every lookup.
pub proof fn lemma_trader_index_same_users(a: Seq<TraderView>, b: Seq<TraderView>, user: u64)
    requires
        a.len() == b.len(),
        forall|i: int| 0 <= i < a.len() ==> a[i].user == b[i].user,
    ensures
        trader_index(a, user) == trader_index(b, user),
    decreases a.len(),
{
    if a.len() == 0 {
    } else {
        let sa = a.drop_first();
        let sb = b.drop_first();
        assert(forall|i: int| 0 <= i < sa.len() ==> sa[i].user == a[i + 1].user);
        assert(forall|i: int| 0 <= i < sb.len() ==> sb[i].user == b[i + 1].user);
        lemma_trader_index_same_users(sa, sb, user);
    }
}

/// Removing an order keeps identifier uniqueness and the resting invariant.
pub proof fn lemma_orders_invariants_remove(s: Seq<Order>, i: int)
    requires
        0 <= i < s.len(),
        order_ids_unique(s),
        orders_resting(s),
    ensures
        order_ids_unique(s.remove(i)),
        orders_resting(s.remove(i)),
{
    let r = s.remove(i);
    assert forall|a: int, b: int| 0 <= a < b < r.len() implies r[a].id != r[b].id by {
        let a0 = if a < i {
            a
        } else {
            a + 1
        };
        let b0 = if b < i {
            b
        } else {
            b + 1
        };
        assert(r[a] == s[a0]);
        assert(r[b] == s[b0]);
    }
    assert forall|a: int| 0 <= a < r.len() implies (#[trigger] r[a]).is_open() && r[a].valid() by {
        let a0 = if a < i {
            a
        } else {
            a + 1
        };
        assert(r[a] == s[a0]);
    }
}

/// Fixed byte footprint of one persisted order: identifier, side tag, price,
/// quantity, and the tagged match timestamp.
pub const ORDER_BYTES: usize = 34;

/// Fixed byte footprint of a persisted trader record before its order list:
/// principal, market identifier, both balances, delegation tag, list length.
pub const TRADER_HEADER_BYTES: usize = 38;

impl Trader {
    /// Bytes needed to persist a trader record holding `orders` open orders,
    /// for a storage backend with growable variable-length records.
    pub fn space(orders: usize) -> (r: usize)
        requires
            TRADER_HEADER_BYTES + orders * ORDER_BYTES <= usize::MAX,
        ensures
            r == TRADER_HEADER_BYTES + orders * ORDER_BYTES,
    {
        TRADER_HEADER_BYTES + orders * ORDER_BYTES
    }
}

} // verus!
