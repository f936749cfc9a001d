use ephemeral_orderbook::delegation::{DelegationState, ExecutionContext};
use ephemeral_orderbook::errors::OrderbookError;
use ephemeral_orderbook::exchange::Exchange;
use ephemeral_orderbook::state::{Order, OrderType};

const MARKET: u64 = 1;
const BASE: u64 = 7;
const QUOTE: u64 = 8;

fn new_market() -> Exchange {
    Exchange::initialize_orderbook(MARKET, BASE, QUOTE)
}

fn durable() -> ExecutionContext {
    ExecutionContext::Durable
}

fn fast() -> ExecutionContext {
    ExecutionContext::Fast
}

#[test]
fn records_start_owned_by_durable() {
    let mut ex = new_market();
    assert_eq!(ex.orderbook.delegation, DelegationState::Owned(ExecutionContext::Durable));
    ex.create_trader(42).unwrap();
    assert_eq!(
        ex.get_trader(42).unwrap().delegation,
        DelegationState::Owned(ExecutionContext::Durable)
    );
}

/// The exclusivity scenario: delegate a trader record, then attempt a
/// withdrawal through the durable context — it must fail; undelegate, then
/// retry — it must succeed.
#[test]
fn delegated_record_rejects_durable_mutations() {
    let mut ex = new_market();
    ex.create_trader(42).unwrap();
    ex.deposit(durable(), 42, BASE, 10).unwrap();
    assert_eq!(ex.delegate_trader(42, fast()), Ok(()));
    assert_eq!(
        ex.get_trader(42).unwrap().delegation,
        DelegationState::Owned(ExecutionContext::Fast)
    );
    assert_eq!(ex.withdraw(durable(), 42, BASE, 4), Err(OrderbookError::AuthorityMismatch));
    assert_eq!(ex.deposit(durable(), 42, BASE, 4), Err(OrderbookError::AuthorityMismatch));
    assert_eq!(
        ex.create_order(durable(), 42, Order {
            id: 1,
            order_type: OrderType::Sell,
            price: 2,
            quantity: 3,
            match_timestamp: None,
        }),
        Err(OrderbookError::AuthorityMismatch)
    );
    assert_eq!(ex.get_trader(42).unwrap().base_balance, 10);
    assert_eq!(ex.undelegate_trader(42), Ok(()));
    assert_eq!(ex.withdraw(durable(), 42, BASE, 4), Ok(()));
    assert_eq!(ex.get_trader(42).unwrap().base_balance, 6);
}

/// While delegated, the fast context has full authority over the record.
#[test]
fn fast_context_mutates_delegated_record() {
    let mut ex = new_market();
    ex.create_trader(42).unwrap();
    ex.deposit(durable(), 42, BASE, 10).unwrap();
    ex.delegate_trader(42, fast()).unwrap();
    assert_eq!(ex.withdraw(fast(), 42, BASE, 4), Ok(()));
    assert_eq!(ex.get_trader(42).unwrap().base_balance, 6);
    // and the durable context regains it only after undelegation
    assert_eq!(ex.withdraw(fast(), 42, BASE, 1), Ok(()));
    ex.undelegate_trader(42).unwrap();
    assert_eq!(ex.withdraw(fast(), 42, BASE, 1), Err(OrderbookError::AuthorityMismatch));
}

#[test]
fn delegate_requires_durable_ownership() {
    let mut ex = new_market();
    ex.create_trader(42).unwrap();
    ex.delegate_trader(42, fast()).unwrap();
    // already delegated
    assert_eq!(ex.delegate_trader(42, fast()), Err(OrderbookError::AuthorityMismatch));
    ex.undelegate_trader(42).unwrap();
    // not delegated any more
    assert_eq!(ex.undelegate_trader(42), Err(OrderbookError::AuthorityMismatch));
    assert_eq!(ex.delegate_trader(9, fast()), Err(OrderbookError::UnknownTrader));
    assert_eq!(ex.undelegate_trader(9), Err(OrderbookError::UnknownTrader));
}

#[test]
fn orderbook_record_delegates_like_a_trader_record() {
    let mut ex = new_market();
    assert_eq!(ex.delegate_orderbook(fast()), Ok(()));
    assert_eq!(ex.orderbook.delegation, DelegationState::Owned(ExecutionContext::Fast));
    assert_eq!(ex.delegate_orderbook(fast()), Err(OrderbookError::AuthorityMismatch));
    assert_eq!(ex.undelegate_orderbook(), Ok(()));
    assert_eq!(ex.orderbook.delegation, DelegationState::Owned(ExecutionContext::Durable));
    assert_eq!(ex.undelegate_orderbook(), Err(OrderbookError::AuthorityMismatch));
}

/// Matching in the fast context over delegated records: the usual flow of
/// the two-context design.
#[test]
fn delegated_matching_flow() {
    let mut ex = new_market();
    ex.create_trader(1).unwrap();
    ex.create_trader(2).unwrap();
    ex.deposit(durable(), 1, QUOTE, 100).unwrap();
    ex.deposit(durable(), 2, BASE, 5).unwrap();
    ex.delegate_trader(1, fast()).unwrap();
    ex.delegate_trader(2, fast()).unwrap();
    ex.create_order(fast(), 1, Order {
        id: 11,
        order_type: OrderType::Buy,
        price: 10,
        quantity: 5,
        match_timestamp: None,
    })
        .unwrap();
    ex.create_order(fast(), 2, Order {
        id: 21,
        order_type: OrderType::Sell,
        price: 10,
        quantity: 5,
        match_timestamp: None,
    })
        .unwrap();
    // the durable context may not match delegated records
    assert_eq!(
        ex.match_order(
            durable(),
            2,
            21,
            1,
            11,
            ephemeral_orderbook::state::TemporalNumericValue {
                timestamp_ns: 99,
                quantized_value: 10,
            },
        ),
        Err(OrderbookError::AuthorityMismatch)
    );
    assert_eq!(
        ex.match_order(
            fast(),
            2,
            21,
            1,
            11,
            ephemeral_orderbook::state::TemporalNumericValue {
                timestamp_ns: 99,
                quantized_value: 10,
            },
        ),
        Ok(())
    );
    ex.undelegate_trader(1).unwrap();
    ex.undelegate_trader(2).unwrap();
    assert_eq!(ex.get_trader(1).unwrap().base_balance, 5);
    assert_eq!(ex.get_trader(2).unwrap().quote_balance, 50);
    assert_eq!(ex.withdraw(durable(), 2, QUOTE, 50), Ok(()));
}
