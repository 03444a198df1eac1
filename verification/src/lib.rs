//! A minimal trading venue: limit orders for named instruments are queued per
//! instrument and per side, and crossing orders at the heads of the two queues
//! are matched into trades.
//!
//! * [`order`] holds the plain data: orders, trades and their mathematical views.
//! * [`matching`] is the mathematical model of one instrument's book and the
//!   laws that the matching procedure obeys.
//! * [`order_book`] is the executable book of one instrument.
//! * [`exchange`] routes orders to the book of their instrument.

pub mod exchange;
pub mod matching;
pub mod order;
pub mod order_book;

pub use matching::BookView;
pub use order::{Order, OrderType, OrderView, Rejection, Trade, TradeView};
pub use order_book::{OrderBook, Placement};
pub use exchange::{ExchangeView, StockExchange};
