use stock_exchange::{Order, OrderBook, OrderType, Rejection, Trade};

fn order(id: u128, order_type: OrderType, ticker: &str, price: u64, quantity: u32) -> Order {
    Order { id, order_type, ticker: ticker.to_string(), price, quantity }
}

fn buy(id: u128, price: u64, quantity: u32) -> Order {
    order(id, OrderType::Buy, "AAPL", price, quantity)
}

fn sell(id: u128, price: u64, quantity: u32) -> Order {
    order(id, OrderType::Sell, "AAPL", price, quantity)
}

fn trade(price: u64, quantity: u32, buy_id: u128, sell_id: u128) -> Trade {
    Trade { ticker: "AAPL".to_string(), price, quantity, buy_id, sell_id }
}

fn resting(queue: &std::collections::VecDeque<Order>) -> Vec<(u128, u32)> {
    queue.iter().map(|o| (o.id, o.quantity)).collect()
}

#[test]
fn new_book_has_nothing_resting() {
    let book = OrderBook::new();
    assert!(book.buy_orders().is_empty());
    assert!(book.sell_orders().is_empty());
}

#[test]
fn matching_an_empty_book_does_nothing() {
    let mut book = OrderBook::new();
    let trades = book.match_orders();
    assert!(trades.is_empty());
    assert!(book.buy_orders().is_empty());
    assert!(book.sell_orders().is_empty());
}

#[test]
fn equal_orders_trade_in_full_and_leave_the_book_empty() {
    let mut book = OrderBook::new();
    let first = book.add_order(buy(1, 100, 10));
    assert!(first.trades.is_empty());
    assert_eq!(first.order, buy(1, 100, 10));
    let second = book.add_order(sell(2, 100, 10));
    assert_eq!(second.trades, vec![trade(100, 10, 1, 2)]);
    assert_eq!(second.order, sell(2, 100, 0));
    assert!(book.buy_orders().is_empty());
    assert!(book.sell_orders().is_empty());
}

#[test]
fn smaller_sell_leaves_the_buy_at_the_head_with_the_rest() {
    let mut book = OrderBook::new();
    book.add_order(buy(1, 100, 10));
    let placement = book.add_order(sell(2, 100, 4));
    assert_eq!(placement.trades, vec![trade(100, 4, 1, 2)]);
    assert_eq!(placement.order.quantity, 0);
    assert_eq!(book.buy_orders().front(), Some(&buy(1, 100, 6)));
    assert_eq!(book.buy_orders().len(), 1);
    assert!(book.sell_orders().is_empty());
}

#[test]
fn smaller_buy_leaves_the_sell_at_the_head_with_the_rest() {
    let mut book = OrderBook::new();
    book.add_order(sell(1, 100, 9));
    let placement = book.add_order(buy(2, 100, 2));
    assert_eq!(placement.trades, vec![trade(100, 2, 2, 1)]);
    assert_eq!(placement.order, buy(2, 100, 0));
    assert_eq!(resting(book.sell_orders()), vec![(1, 7)]);
    assert!(book.buy_orders().is_empty());
}

#[test]
fn bid_below_ask_does_not_trade() {
    let mut book = OrderBook::new();
    let first = book.add_order(sell(1, 105, 5));
    let second = book.add_order(buy(2, 100, 5));
    assert!(first.trades.is_empty());
    assert!(second.trades.is_empty());
    assert_eq!(second.order, buy(2, 100, 5));
    assert_eq!(book.sell_orders().front(), Some(&sell(1, 105, 5)));
    assert_eq!(book.buy_orders().front(), Some(&buy(2, 100, 5)));
}

#[test]
fn older_buy_is_filled_before_the_newer_one_is_touched() {
    let mut book = OrderBook::new();
    book.add_order(buy(1, 100, 5));
    book.add_order(buy(2, 100, 5));
    let placement = book.add_order(sell(3, 100, 7));
    assert_eq!(placement.trades, vec![trade(100, 5, 1, 3), trade(100, 2, 2, 3)]);
    assert_eq!(placement.order.quantity, 0);
    assert_eq!(resting(book.buy_orders()), vec![(2, 3)]);
    assert!(book.sell_orders().is_empty());
}

#[test]
fn older_sell_is_filled_before_the_newer_one_is_touched() {
    let mut book = OrderBook::new();
    book.add_order(sell(1, 50, 3));
    book.add_order(sell(2, 50, 4));
    book.add_order(sell(3, 50, 5));
    let placement = book.add_order(buy(4, 50, 8));
    assert_eq!(
        placement.trades,
        vec![trade(50, 3, 4, 1), trade(50, 4, 4, 2), trade(50, 1, 4, 3)]
    );
    assert_eq!(placement.order, buy(4, 50, 0));
    assert_eq!(resting(book.sell_orders()), vec![(3, 4)]);
}

#[test]
fn trade_executes_at_the_sell_price_when_the_sell_rests() {
    let mut book = OrderBook::new();
    book.add_order(sell(1, 100, 5));
    let placement = book.add_order(buy(2, 105, 5));
    assert_eq!(placement.trades, vec![trade(100, 5, 2, 1)]);
}

#[test]
fn trade_executes_at_the_sell_price_when_the_buy_rests() {
    let mut book = OrderBook::new();
    book.add_order(buy(1, 105, 5));
    let placement = book.add_order(sell(2, 100, 5));
    assert_eq!(placement.trades, vec![trade(100, 5, 1, 2)]);
}

#[test]
fn better_priced_order_does_not_jump_its_queue() {
    let mut book = OrderBook::new();
    book.add_order(buy(1, 90, 5));
    book.add_order(sell(2, 100, 5));
    let placement = book.add_order(buy(3, 110, 5));
    assert!(placement.trades.is_empty());
    assert_eq!(placement.order, buy(3, 110, 5));
    assert_eq!(resting(book.buy_orders()), vec![(1, 5), (3, 5)]);
    assert_eq!(resting(book.sell_orders()), vec![(2, 5)]);
}

#[test]
fn matching_stops_at_the_first_head_pair_that_does_not_cross() {
    let mut book = OrderBook::new();
    book.add_order(sell(1, 100, 2));
    book.add_order(sell(2, 120, 2));
    book.add_order(sell(3, 100, 2));
    let placement = book.add_order(buy(4, 110, 6));
    assert_eq!(placement.trades, vec![trade(100, 2, 4, 1)]);
    assert_eq!(placement.order, buy(4, 110, 4));
    assert_eq!(resting(book.sell_orders()), vec![(2, 2), (3, 2)]);
    assert_eq!(resting(book.buy_orders()), vec![(4, 4)]);
}

#[test]
fn incoming_order_behind_a_resting_one_waits_until_it_is_at_the_head() {
    let mut book = OrderBook::new();
    book.add_order(buy(1, 100, 4));
    book.add_order(buy(2, 100, 6));
    let first = book.add_order(sell(3, 100, 4));
    assert_eq!(first.trades, vec![trade(100, 4, 1, 3)]);
    let second = book.add_order(sell(4, 95, 10));
    assert_eq!(second.trades, vec![trade(95, 6, 2, 4)]);
    assert_eq!(second.order, sell(4, 95, 4));
    assert!(book.buy_orders().is_empty());
    assert_eq!(resting(book.sell_orders()), vec![(4, 4)]);
}

#[test]
fn traded_and_resting_quantities_add_up_on_both_sides() {
    let mut book = OrderBook::new();
    let mut traded: u32 = 0;
    let mut placed_buys: u32 = 0;
    let mut placed_sells: u32 = 0;
    let orders = vec![
        buy(1, 100, 7),
        buy(2, 101, 3),
        sell(3, 99, 5),
        sell(4, 100, 9),
        buy(5, 100, 2),
        sell(6, 150, 4),
        buy(7, 100, 11),
    ];
    for o in orders {
        match o.order_type {
            OrderType::Buy => placed_buys += o.quantity,
            OrderType::Sell => placed_sells += o.quantity,
        }
        let placement = book.add_order(o);
        for t in &placement.trades {
            assert!(t.quantity > 0);
            traded += t.quantity;
        }
        for o in book.buy_orders().iter().chain(book.sell_orders().iter()) {
            assert!(o.quantity > 0);
        }
    }
    let resting_buys: u32 = book.buy_orders().iter().map(|o| o.quantity).sum();
    let resting_sells: u32 = book.sell_orders().iter().map(|o| o.quantity).sum();
    assert_eq!(traded, 14);
    assert_eq!(resting_buys + traded, placed_buys);
    assert_eq!(resting_sells + traded, placed_sells);
    assert!(traded <= placed_buys.min(placed_sells));
}

#[test]
fn one_pair_trades_the_smaller_quantity_once() {
    let mut book = OrderBook::new();
    book.add_order(buy(1, 10, 30));
    let placement = book.add_order(sell(2, 10, 45));
    let traded: u32 = placement.trades.iter().map(|t| t.quantity).sum();
    assert_eq!(placement.trades.len(), 1);
    assert_eq!(traded, 30);
    assert_eq!(placement.order.quantity, 45 - traded);
    assert!(book.buy_orders().is_empty());
    assert_eq!(resting(book.sell_orders()), vec![(2, 15)]);
}

#[test]
fn matching_a_book_at_rest_changes_nothing() {
    let mut book = OrderBook::new();
    book.add_order(buy(1, 100, 10));
    book.add_order(sell(2, 101, 4));
    let trades = book.match_orders();
    assert!(trades.is_empty());
    assert_eq!(resting(book.buy_orders()), vec![(1, 10)]);
    assert_eq!(resting(book.sell_orders()), vec![(2, 4)]);
}

#[test]
fn trade_carries_the_instrument_of_the_buy_order() {
    let mut book = OrderBook::new();
    book.add_order(order(1, OrderType::Buy, "MSFT", 10, 1));
    let placement = book.add_order(order(2, OrderType::Sell, "MSFT", 10, 1));
    assert_eq!(placement.trades.len(), 1);
    assert_eq!(placement.trades[0].ticker, "MSFT");
}

#[test]
fn largest_quantities_and_prices_are_handled() {
    let mut book = OrderBook::new();
    book.add_order(buy(u128::MAX, u64::MAX, u32::MAX));
    let placement = book.add_order(sell(1, u64::MAX, u32::MAX - 1));
    assert_eq!(placement.trades, vec![trade(u64::MAX, u32::MAX - 1, u128::MAX, 1)]);
    assert_eq!(resting(book.buy_orders()), vec![(u128::MAX, 1)]);
}

#[test]
fn with_quantity_changes_only_the_quantity() {
    let source = buy(9, 100, 10);
    let copy = source.with_quantity(3);
    assert_eq!(copy, buy(9, 100, 3));
    assert_eq!(source, buy(9, 100, 10));
}

#[test]
fn validate_accepts_a_complete_order() {
    assert_eq!(buy(1, 1, 1).validate(), Ok(()));
    assert_eq!(sell(u128::MAX, u64::MAX, u32::MAX).validate(), Ok(()));
}

#[test]
fn validate_rejects_an_empty_id() {
    assert_eq!(buy(0, 100, 10).validate(), Err(Rejection::EmptyId));
}

#[test]
fn validate_rejects_an_empty_instrument() {
    assert_eq!(
        order(1, OrderType::Sell, "", 100, 10).validate(),
        Err(Rejection::EmptyInstrument)
    );
}

#[test]
fn validate_rejects_a_zero_price() {
    assert_eq!(buy(1, 0, 10).validate(), Err(Rejection::NonPositivePrice));
}

#[test]
fn validate_rejects_a_zero_quantity() {
    assert_eq!(sell(1, 100, 0).validate(), Err(Rejection::ZeroQuantity));
}

#[test]
fn validate_reports_the_first_fault_only() {
    assert_eq!(order(0, OrderType::Buy, "", 0, 0).validate(), Err(Rejection::EmptyId));
    assert_eq!(order(1, OrderType::Buy, "", 0, 0).validate(), Err(Rejection::EmptyInstrument));
    assert_eq!(order(1, OrderType::Buy, "AAPL", 0, 0).validate(), Err(Rejection::NonPositivePrice));
}
