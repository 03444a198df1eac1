//! Orders, trades, and the values by which contracts speak of them.

use vstd::prelude::*;

verus! {

/// The side of the market an order stands on.
#[derive(Clone, Copy, Debug, PartialEq, Eq, Structural)]
pub enum OrderType {
    Buy,
    Sell,
}

/// A limit order.
///
/// `price` is the limit as a positive integer key that orders exactly as the
/// prices do (a count of minimum price increments, for instance). `quantity` is
/// what remains to be filled; it is the only field that matching changes.
#[derive(Clone, Debug, PartialEq, Eq)]
pub struct Order {
    pub id: u128,
    pub order_type: OrderType,
    pub ticker: String,
    pub price: u64,
    pub quantity: u32,
}

/// An order as contracts see it.
pub struct OrderView {
    pub id: u128,
    pub order_type: OrderType,
    pub ticker: Seq<char>,
    pub price: nat,
    pub quantity: nat,
}

impl OrderView {
    /// What a book relies on: something is left to fill, at a positive price.
    pub open spec fn fillable(self) -> bool {
        self.quantity > 0 && self.price > 0
    }

    /// The same order with `quantity` left to fill.
    pub open spec fn with_quantity(self, quantity: nat) -> OrderView {
        OrderView { quantity, ..self }
    }
}

impl View for Order {
    type V = OrderView;

    open spec fn view(&self) -> OrderView {
        OrderView {
            id: self.id,
            order_type: self.order_type,
            ticker: self.ticker@,
            price: self.price as nat,
            quantity: self.quantity as nat,
        }
    }
}

/// The views of a sequence of orders, in the same order.
pub open spec fn order_views(orders: Seq<Order>) -> Seq<OrderView> {
    orders.map_values(|o: Order| o@)
}

impl Order {
    /// A copy of this order with `quantity` left to fill.
    pub fn with_quantity(&self, quantity: u32) -> (copy: Order)
        ensures
            copy@ == self@.with_quantity(quantity as nat),
    {
        Order {
            id: self.id,
            order_type: self.order_type,
            ticker: self.ticker.clone(),
            price: self.price,
            quantity,
        }
    }
}

/// One execution: `quantity` units of `ticker` changed hands at `price`
/// between the buy order `buy_id` and the sell order `sell_id`.
#[derive(Clone, Debug, PartialEq, Eq)]
pub struct Trade {
    pub ticker: String,
    pub price: u64,
    pub quantity: u32,
    pub buy_id: u128,
    pub sell_id: u128,
}

/// A trade as contracts see it.
pub struct TradeView {
    pub ticker: Seq<char>,
    pub price: nat,
    pub quantity: nat,
    pub buy_id: u128,
    pub sell_id: u128,
}

impl View for Trade {
    type V = TradeView;

    open spec fn view(&self) -> TradeView {
        TradeView {
            ticker: self.ticker@,
            price: self.price as nat,
            quantity: self.quantity as nat,
            buy_id: self.buy_id,
            sell_id: self.sell_id,
        }
    }
}

/// The views of a sequence of trades, in the same order.
pub open spec fn trade_views(trades: Seq<Trade>) -> Seq<TradeView> {
    trades.map_values(|t: Trade| t@)
}

/// Why an order was turned away before it reached any book.
#[derive(Clone, Copy, Debug, PartialEq, Eq, Structural)]
pub enum Rejection {
    /// The identifier is the all-zero value, which stands for "none".
    EmptyId,
    /// The instrument name has no characters.
    EmptyInstrument,
    /// The limit price is zero.
    NonPositivePrice,
    /// There is nothing to fill.
    ZeroQuantity,
}

/// The first reason, if any, for which `order` is turned away.
pub open spec fn rejection_of(order: OrderView) -> Option<Rejection> {
    if order.id == 0 {
        Some(Rejection::EmptyId)
    } else if order.ticker.len() == 0 {
        Some(Rejection::EmptyInstrument)
    } else if order.price == 0 {
        Some(Rejection::NonPositivePrice)
    } else if order.quantity == 0 {
        Some(Rejection::ZeroQuantity)
    } else {
        None
    }
}

impl Order {
    /// Checks what every book takes for granted of an order.
    pub fn validate(&self) -> (r: Result<(), Rejection>)
        ensures
            match rejection_of(self@) {
                Some(reason) => r == Err::<(), Rejection>(reason),
                None => r is Ok,
            },
    {
        if self.id == 0 {
            Err(Rejection::EmptyId)
        } else if self.ticker.as_str().is_empty() {
            Err(Rejection::EmptyInstrument)
        } else if self.price == 0 {
            Err(Rejection::NonPositivePrice)
        } else if self.quantity == 0 {
            Err(Rejection::ZeroQuantity)
        } else {
            Ok(())
        }
    }
}

} // verus!
