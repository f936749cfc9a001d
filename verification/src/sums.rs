use vstd::prelude::*;

use crate::state::{Order, TraderView};

verus! {

/// Base units escrowed across a list of resting orders.
pub open spec fn orders_base_escrow(s: Seq<Order>) -> int
    decreases s.len(),
{
    if s.len() == 0 {
        0
    } else {
        s.first().base_escrow() + orders_base_escrow(s.drop_first())
    }
}

/// Quote units escrowed across a list of resting orders.
pub open spec fn orders_quote_escrow(s: Seq<Order>) -> int
    decreases s.len(),
{
    if s.len() == 0 {
        0
    } else {
        s.first().quote_escrow() + orders_quote_escrow(s.drop_first())
    }
}

/// Base units held by the ledger across all traders: spendable balances
/// plus escrow. This is the externally auditable custody total.
pub open spec fn ledger_base(ts: Seq<TraderView>) -> int
    decreases ts.len(),
{
    if ts.len() == 0 {
        0
    } else {
        ts.first().total_base() + ledger_base(ts.drop_first())
    }
}

/// Quote units held by the ledger across all traders.
pub open spec fn ledger_quote(ts: Seq<TraderView>) -> int
    decreases ts.len(),
{
    if ts.len() == 0 {
        0
    } else {
        ts.first().total_quote() + ledger_quote(ts.drop_first())
    }
}

/// Appending an order adds exactly its escrow to the list's escrow totals.
pub proof fn lemma_orders_escrow_push(s: Seq<Order>, o: Order)
    ensures
        orders_base_escrow(s.push(o)) == orders_base_escrow(s) + o.base_escrow(),
        orders_quote_escrow(s.push(o)) == orders_quote_escrow(s) + o.quote_escrow(),
    decreases s.len(),
{
    if s.len() == 0 {
        assert(s.push(o)[0] == o);
        assert(orders_base_escrow(Seq::<Order>::empty()) == 0);
        assert(orders_quote_escrow(Seq::<Order>::empty()) == 0);
        assert(s.push(o).drop_first() =~= Seq::<Order>::empty());
    } else {
        assert(s.push(o)[0] == s[0]);
        assert(s.push(o).drop_first() =~= s.drop_first().push(o));
        lemma_orders_escrow_push(s.drop_first(), o);
    }
}

/// Removing the order at `i` subtracts exactly its escrow from the list's
/// escrow totals.
pub proof fn lemma_orders_escrow_remove(s: Seq<Order>, i: int)
    requires
        0 <= i < s.len(),
    ensures
        orders_base_escrow(s.remove(i)) == orders_base_escrow(s) - s[i].base_escrow(),
        orders_quote_escrow(s.remove(i)) == orders_quote_escrow(s) - s[i].quote_escrow(),
    decreases s.len(),
{
    if i == 0 {
        assert(s.remove(0) =~= s.drop_first());
    } else {
        assert(s.remove(i).drop_first() =~= s.drop_first().remove(i - 1));
        assert(s.remove(i)[0] == s[0]);
        lemma_orders_escrow_remove(s.drop_first(), i - 1);
        assert(s.drop_first()[i - 1] == s[i]);
    }
}

/// Replacing the trader at `i` shifts the ledger totals by exactly the
/// difference between the new and the old record.
pub proof fn lemma_ledger_update(ts: Seq<TraderView>, i: int, t: TraderView)
    requires
        0 <= i < ts.len(),
    ensures
        ledger_base(ts.update(i, t)) == ledger_base(ts) - ts[i].total_base() + t.total_base(),
        ledger_quote(ts.update(i, t)) == ledger_quote(ts) - ts[i].total_quote() + t.total_quote(),
    decreases ts.len(),
{
    if i == 0 {
        assert(ts.update(0, t).drop_first() =~= ts.drop_first());
        assert(ts.update(0, t)[0] == t);
    } else {
        assert(ts.update(i, t).drop_first() =~= ts.drop_first().update(i - 1, t));
        assert(ts.update(i, t)[0] == ts[0]);
        lemma_ledger_update(ts.drop_first(), i - 1, t);
        assert(ts.drop_first()[i - 1] == ts[i]);
    }
}

/// Registering a trader adds exactly that record's holdings to the ledger
/// totals.
pub proof fn lemma_ledger_push(ts: Seq<TraderView>, t: TraderView)
    ensures
        ledger_base(ts.push(t)) == ledger_base(ts) + t.total_base(),
        ledger_quote(ts.push(t)) == ledger_quote(ts) + t.total_quote(),
    decreases ts.len(),
{
    if ts.len() == 0 {
        assert(ts.push(t)[0] == t);
        assert(ledger_base(Seq::<TraderView>::empty()) == 0);
        assert(ledger_quote(Seq::<TraderView>::empty()) == 0);
        assert(ts.push(t).drop_first() =~= Seq::<TraderView>::empty());
    } else {
        assert(ts.push(t)[0] == ts[0]);
        assert(ts.push(t).drop_first() =~= ts.drop_first().push(t));
        lemma_ledger_push(ts.drop_first(), t);
    }
}

} // verus!
