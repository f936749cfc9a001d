use ephemeral_orderbook::errors::OrderbookError;
use ephemeral_orderbook::exchange::Exchange;
use ephemeral_orderbook::delegation::ExecutionContext;
use ephemeral_orderbook::state::{Order, OrderType, TemporalNumericValue, Trader};

const MARKET: u64 = 1;
const BASE: u64 = 7;
const QUOTE: u64 = 8;
const OTHER_ASSET: u64 = 99;

fn new_market() -> Exchange {
    Exchange::initialize_orderbook(MARKET, BASE, QUOTE)
}

fn durable() -> ExecutionContext {
    ExecutionContext::Durable
}

fn order(id: u64, order_type: OrderType, price: u64, quantity: u64) -> Order {
    Order { id, order_type, price, quantity, match_timestamp: None }
}

fn attested(price: u64, timestamp_ns: i64) -> TemporalNumericValue {
    TemporalNumericValue { timestamp_ns, quantized_value: price }
}

fn base_of(ex: &Exchange, user: u64) -> u64 {
    ex.get_trader(user).unwrap().base_balance
}

fn quote_of(ex: &Exchange, user: u64) -> u64 {
    ex.get_trader(user).unwrap().quote_balance
}

fn open_orders(ex: &Exchange, user: u64) -> usize {
    ex.get_trader(user).unwrap().orders.len()
}

/// Spendable plus escrowed units across all traders, per asset.
fn ledger_totals(ex: &Exchange) -> (u128, u128) {
    let mut base: u128 = 0;
    let mut quote: u128 = 0;
    for t in &ex.traders {
        base += t.base_balance as u128;
        quote += t.quote_balance as u128;
        for o in &t.orders {
            match o.order_type {
                OrderType::Sell => base += o.quantity as u128,
                OrderType::Buy => quote += (o.price as u128) * (o.quantity as u128),
            }
        }
    }
    (base, quote)
}

#[test]
fn initialize_market_starts_empty() {
    let ex = new_market();
    assert_eq!(ex.orderbook.id, MARKET);
    assert_eq!(ex.orderbook.base_mint, BASE);
    assert_eq!(ex.orderbook.quote_mint, QUOTE);
    assert_eq!(ex.traders.len(), 0);
    assert!(ex.get_trader(42).is_none());
}

#[test]
fn create_trader_registers_once() {
    let mut ex = new_market();
    assert_eq!(ex.create_trader(42), Ok(()));
    assert_eq!(base_of(&ex, 42), 0);
    assert_eq!(quote_of(&ex, 42), 0);
    assert_eq!(open_orders(&ex, 42), 0);
    assert_eq!(ex.create_trader(42), Err(OrderbookError::AlreadyExists));
    assert_eq!(ex.traders.len(), 1);
}

#[test]
fn deposit_credits_exactly() {
    let mut ex = new_market();
    ex.create_trader(42).unwrap();
    assert_eq!(ex.deposit(durable(), 42, BASE, 30), Ok(()));
    assert_eq!(ex.deposit(durable(), 42, QUOTE, 100), Ok(()));
    assert_eq!(base_of(&ex, 42), 30);
    assert_eq!(quote_of(&ex, 42), 100);
    assert_eq!(ledger_totals(&ex), (30, 100));
}

#[test]
fn deposit_rejects_foreign_asset() {
    let mut ex = new_market();
    ex.create_trader(42).unwrap();
    assert_eq!(ex.deposit(durable(), 42, OTHER_ASSET, 5), Err(OrderbookError::InvalidAsset));
    assert_eq!(ex.withdraw(durable(), 42, OTHER_ASSET, 5), Err(OrderbookError::InvalidAsset));
    assert_eq!(ledger_totals(&ex), (0, 0));
}

#[test]
fn unregistered_principal_is_rejected() {
    let mut ex = new_market();
    assert_eq!(ex.deposit(durable(), 9, BASE, 5), Err(OrderbookError::UnknownTrader));
    assert_eq!(ex.withdraw(durable(), 9, BASE, 5), Err(OrderbookError::UnknownTrader));
    assert_eq!(
        ex.create_order(durable(), 9, order(1, OrderType::Buy, 1, 1)),
        Err(OrderbookError::UnknownTrader)
    );
    assert_eq!(
        ex.match_order(durable(), 9, 1, 10, 2, attested(1, 0)),
        Err(OrderbookError::UnknownTrader)
    );
}

#[test]
fn withdraw_debits_and_rejects_overdraft() {
    let mut ex = new_market();
    ex.create_trader(42).unwrap();
    ex.deposit(durable(), 42, BASE, 30).unwrap();
    ex.deposit(durable(), 42, QUOTE, 10).unwrap();
    assert_eq!(ex.withdraw(durable(), 42, BASE, 12), Ok(()));
    assert_eq!(base_of(&ex, 42), 18);
    // rejected, not clamped: the failing call changes nothing
    assert_eq!(ex.withdraw(durable(), 42, BASE, 19), Err(OrderbookError::InsufficientBaseFunds));
    assert_eq!(base_of(&ex, 42), 18);
    assert_eq!(ex.withdraw(durable(), 42, QUOTE, 11), Err(OrderbookError::InsufficientQuoteFunds));
    assert_eq!(quote_of(&ex, 42), 10);
    assert_eq!(ledger_totals(&ex), (18, 10));
}

#[test]
fn buy_order_escrows_quote() {
    let mut ex = new_market();
    ex.create_trader(42).unwrap();
    ex.deposit(durable(), 42, QUOTE, 100).unwrap();
    assert_eq!(ex.create_order(durable(), 42, order(1, OrderType::Buy, 10, 5)), Ok(()));
    // spendable quote drops by exactly price * quantity
    assert_eq!(quote_of(&ex, 42), 50);
    assert_eq!(open_orders(&ex, 42), 1);
    // the escrow stays attributed to the trader
    assert_eq!(ledger_totals(&ex), (0, 100));
}

#[test]
fn sell_order_escrows_base() {
    let mut ex = new_market();
    ex.create_trader(42).unwrap();
    ex.deposit(durable(), 42, BASE, 5).unwrap();
    assert_eq!(ex.create_order(durable(), 42, order(1, OrderType::Sell, 10, 5)), Ok(()));
    // spendable base drops by exactly the quantity
    assert_eq!(base_of(&ex, 42), 0);
    assert_eq!(open_orders(&ex, 42), 1);
    assert_eq!(ledger_totals(&ex), (5, 0));
}

#[test]
fn order_entry_rejects_insufficient_escrow() {
    let mut ex = new_market();
    ex.create_trader(42).unwrap();
    ex.deposit(durable(), 42, QUOTE, 49).unwrap();
    ex.deposit(durable(), 42, BASE, 4).unwrap();
    assert_eq!(
        ex.create_order(durable(), 42, order(1, OrderType::Buy, 10, 5)),
        Err(OrderbookError::InsufficientQuoteFunds)
    );
    assert_eq!(
        ex.create_order(durable(), 42, order(2, OrderType::Sell, 10, 5)),
        Err(OrderbookError::InsufficientBaseFunds)
    );
    assert_eq!(quote_of(&ex, 42), 49);
    assert_eq!(base_of(&ex, 42), 4);
    assert_eq!(open_orders(&ex, 42), 0);
}

#[test]
fn order_entry_rejects_terminal_state() {
    let mut ex = new_market();
    ex.create_trader(42).unwrap();
    ex.deposit(durable(), 42, QUOTE, 100).unwrap();
    let mut stamped = order(1, OrderType::Buy, 10, 5);
    stamped.match_timestamp = Some(777);
    assert_eq!(ex.create_order(durable(), 42, stamped), Err(OrderbookError::AlreadyMatched));
    assert_eq!(quote_of(&ex, 42), 100);
}

#[test]
fn order_entry_rejects_duplicate_id() {
    let mut ex = new_market();
    ex.create_trader(42).unwrap();
    ex.deposit(durable(), 42, QUOTE, 100).unwrap();
    ex.create_order(durable(), 42, order(1, OrderType::Buy, 10, 5)).unwrap();
    assert_eq!(
        ex.create_order(durable(), 42, order(1, OrderType::Buy, 2, 3)),
        Err(OrderbookError::AlreadyExists)
    );
    assert_eq!(quote_of(&ex, 42), 50);
    assert_eq!(open_orders(&ex, 42), 1);
}

/// The worked example: trader A buys 5 base at 10, trader B sells 5 base at
/// 10, the oracle attests 10.
#[test]
fn example_scenario() {
    let mut ex = new_market();
    ex.create_trader(1).unwrap();
    ex.create_trader(2).unwrap();
    ex.deposit(durable(), 1, QUOTE, 100).unwrap();
    ex.create_order(durable(), 1, order(11, OrderType::Buy, 10, 5)).unwrap();
    assert_eq!(quote_of(&ex, 1), 50);
    ex.deposit(durable(), 2, BASE, 5).unwrap();
    ex.create_order(durable(), 2, order(21, OrderType::Sell, 10, 5)).unwrap();
    assert_eq!(base_of(&ex, 2), 0);
    let before = ledger_totals(&ex);
    assert_eq!(ex.match_order(durable(), 2, 21, 1, 11, attested(10, 99)), Ok(()));
    // taker A is credited the base quantity; the quote escrow is consumed
    assert_eq!(base_of(&ex, 1), 5);
    assert_eq!(quote_of(&ex, 1), 50);
    // maker B is credited the proceeds at the maker's price
    assert_eq!(quote_of(&ex, 2), 50);
    assert_eq!(base_of(&ex, 2), 0);
    // both orders left their open-order lists
    assert_eq!(open_orders(&ex, 1), 0);
    assert_eq!(open_orders(&ex, 2), 0);
    // a match at equal prices redistributes but conserves the totals
    assert_eq!(ledger_totals(&ex), before);
    assert_eq!(ledger_totals(&ex), (5, 100));
}

#[test]
fn match_rejects_wrong_sides() {
    let mut ex = new_market();
    ex.create_trader(1).unwrap();
    ex.create_trader(2).unwrap();
    ex.deposit(durable(), 1, QUOTE, 100).unwrap();
    ex.create_order(durable(), 1, order(11, OrderType::Buy, 10, 5)).unwrap();
    ex.deposit(durable(), 2, BASE, 5).unwrap();
    ex.create_order(durable(), 2, order(21, OrderType::Sell, 10, 5)).unwrap();
    let before = ledger_totals(&ex);
    // maker must be the sell side
    assert_eq!(
        ex.match_order(durable(), 1, 11, 2, 21, attested(10, 99)),
        Err(OrderbookError::InvalidOrderType)
    );
    // taker must be the buy side: both references name the sell
    assert_eq!(
        ex.match_order(durable(), 2, 21, 2, 21, attested(10, 99)),
        Err(OrderbookError::InvalidOrderType)
    );
    // nothing changed
    assert_eq!(ledger_totals(&ex), before);
    assert_eq!(open_orders(&ex, 1), 1);
    assert_eq!(open_orders(&ex, 2), 1);
    assert_eq!(quote_of(&ex, 1), 50);
    assert_eq!(base_of(&ex, 2), 0);
}

#[test]
fn match_rejects_prices_outside_attestation() {
    let mut ex = new_market();
    ex.create_trader(1).unwrap();
    ex.create_trader(2).unwrap();
    ex.deposit(durable(), 1, QUOTE, 100).unwrap();
    ex.create_order(durable(), 1, order(11, OrderType::Buy, 10, 5)).unwrap();
    ex.deposit(durable(), 2, BASE, 5).unwrap();
    ex.create_order(durable(), 2, order(21, OrderType::Sell, 10, 5)).unwrap();
    // maker ask above the attested price
    assert_eq!(
        ex.match_order(durable(), 2, 21, 1, 11, attested(9, 99)),
        Err(OrderbookError::MismatchingOrders)
    );
    // taker bid below the attested price
    assert_eq!(
        ex.match_order(durable(), 2, 21, 1, 11, attested(11, 99)),
        Err(OrderbookError::MismatchingOrders)
    );
    assert_eq!(quote_of(&ex, 1), 50);
    assert_eq!(base_of(&ex, 1), 0);
    assert_eq!(quote_of(&ex, 2), 0);
    assert_eq!(open_orders(&ex, 1), 1);
    assert_eq!(open_orders(&ex, 2), 1);
}

#[test]
fn match_rejects_quantity_mismatch() {
    let mut ex = new_market();
    ex.create_trader(1).unwrap();
    ex.create_trader(2).unwrap();
    ex.deposit(durable(), 1, QUOTE, 100).unwrap();
    ex.create_order(durable(), 1, order(11, OrderType::Buy, 10, 4)).unwrap();
    ex.deposit(durable(), 2, BASE, 5).unwrap();
    ex.create_order(durable(), 2, order(21, OrderType::Sell, 10, 5)).unwrap();
    let before = ledger_totals(&ex);
    // no partial fills: quantities must agree exactly
    assert_eq!(
        ex.match_order(durable(), 2, 21, 1, 11, attested(10, 99)),
        Err(OrderbookError::MismatchingOrders)
    );
    assert_eq!(ledger_totals(&ex), before);
    assert_eq!(open_orders(&ex, 1), 1);
    assert_eq!(open_orders(&ex, 2), 1);
}

#[test]
fn match_rejects_unknown_order_reference() {
    let mut ex = new_market();
    ex.create_trader(1).unwrap();
    ex.create_trader(2).unwrap();
    ex.deposit(durable(), 1, QUOTE, 100).unwrap();
    ex.create_order(durable(), 1, order(11, OrderType::Buy, 10, 5)).unwrap();
    ex.deposit(durable(), 2, BASE, 5).unwrap();
    ex.create_order(durable(), 2, order(21, OrderType::Sell, 10, 5)).unwrap();
    assert_eq!(
        ex.match_order(durable(), 2, 99, 1, 11, attested(10, 99)),
        Err(OrderbookError::InvalidOrderIndex)
    );
    assert_eq!(
        ex.match_order(durable(), 2, 21, 1, 99, attested(10, 99)),
        Err(OrderbookError::InvalidOrderIndex)
    );
    assert_eq!(open_orders(&ex, 1), 1);
    assert_eq!(open_orders(&ex, 2), 1);
}

/// Match terminality: both orders are gone and the same references fail.
#[test]
fn matched_orders_are_terminal() {
    let mut ex = new_market();
    ex.create_trader(1).unwrap();
    ex.create_trader(2).unwrap();
    ex.deposit(durable(), 1, QUOTE, 100).unwrap();
    ex.create_order(durable(), 1, order(11, OrderType::Buy, 10, 5)).unwrap();
    ex.deposit(durable(), 2, BASE, 5).unwrap();
    ex.create_order(durable(), 2, order(21, OrderType::Sell, 10, 5)).unwrap();
    ex.match_order(durable(), 2, 21, 1, 11, attested(10, 99)).unwrap();
    assert_eq!(open_orders(&ex, 1), 0);
    assert_eq!(open_orders(&ex, 2), 0);
    assert_eq!(
        ex.match_order(durable(), 2, 21, 1, 11, attested(10, 100)),
        Err(OrderbookError::InvalidOrderIndex)
    );
}

/// Settlement happens at the maker's stated price, not the attested price;
/// the surplus the taker over-escrowed leaves the attributed totals.
#[test]
fn settlement_uses_maker_price() {
    let mut ex = new_market();
    ex.create_trader(1).unwrap();
    ex.create_trader(2).unwrap();
    ex.deposit(durable(), 1, QUOTE, 60).unwrap();
    ex.create_order(durable(), 1, order(11, OrderType::Buy, 12, 5)).unwrap();
    assert_eq!(quote_of(&ex, 1), 0);
    ex.deposit(durable(), 2, BASE, 5).unwrap();
    ex.create_order(durable(), 2, order(21, OrderType::Sell, 10, 5)).unwrap();
    assert_eq!(ex.match_order(durable(), 2, 21, 1, 11, attested(11, 99)), Ok(()));
    // the maker receives 10 * 5, although the taker had escrowed 12 * 5
    assert_eq!(quote_of(&ex, 2), 50);
    assert_eq!(base_of(&ex, 1), 5);
    assert_eq!(quote_of(&ex, 1), 0);
    assert_eq!(ledger_totals(&ex), (5, 50));
}

/// One trader may rest both sides; the two removals from its single order
/// list must not disturb each other.
#[test]
fn self_match_settles_one_record() {
    let mut ex = new_market();
    ex.create_trader(42).unwrap();
    ex.deposit(durable(), 42, QUOTE, 100).unwrap();
    ex.deposit(durable(), 42, BASE, 5).unwrap();
    ex.create_order(durable(), 42, order(1, OrderType::Buy, 10, 5)).unwrap();
    ex.create_order(durable(), 42, order(2, OrderType::Sell, 10, 5)).unwrap();
    assert_eq!(quote_of(&ex, 42), 50);
    assert_eq!(base_of(&ex, 42), 0);
    assert_eq!(ex.match_order(durable(), 42, 2, 42, 1, attested(10, 99)), Ok(()));
    assert_eq!(quote_of(&ex, 42), 100);
    assert_eq!(base_of(&ex, 42), 5);
    assert_eq!(open_orders(&ex, 42), 0);
    assert_eq!(ledger_totals(&ex), (5, 100));
}

/// Conservation across a sequence of calls: the totals change only by net
/// deposits minus withdrawals; order entry and equal-price matches only
/// redistribute.
#[test]
fn conservation_across_a_sequence() {
    let mut ex = new_market();
    ex.create_trader(1).unwrap();
    ex.create_trader(2).unwrap();
    assert_eq!(ledger_totals(&ex), (0, 0));
    ex.deposit(durable(), 1, QUOTE, 80).unwrap();
    ex.deposit(durable(), 2, BASE, 9).unwrap();
    assert_eq!(ledger_totals(&ex), (9, 80));
    ex.create_order(durable(), 1, order(11, OrderType::Buy, 8, 3)).unwrap();
    ex.create_order(durable(), 2, order(21, OrderType::Sell, 8, 3)).unwrap();
    assert_eq!(ledger_totals(&ex), (9, 80));
    ex.match_order(durable(), 2, 21, 1, 11, attested(8, 5)).unwrap();
    assert_eq!(ledger_totals(&ex), (9, 80));
    ex.withdraw(durable(), 1, BASE, 3).unwrap();
    ex.withdraw(durable(), 2, QUOTE, 24).unwrap();
    assert_eq!(ledger_totals(&ex), (6, 56));
}

#[test]
fn trader_space_is_header_plus_orders() {
    assert_eq!(Trader::space(0), 38);
    assert_eq!(Trader::space(1), 72);
    assert_eq!(Trader::space(2), 106);
}

#[test]
fn u64_boundary_amounts() {
    let mut ex = new_market();
    ex.create_trader(42).unwrap();
    assert_eq!(ex.deposit(durable(), 42, QUOTE, u64::MAX), Ok(()));
    assert_eq!(quote_of(&ex, 42), u64::MAX);
    assert_eq!(ex.create_order(durable(), 42, order(1, OrderType::Buy, u64::MAX, 1)), Ok(()));
    assert_eq!(quote_of(&ex, 42), 0);
    assert_eq!(ledger_totals(&ex), (0, u64::MAX as u128));
}
