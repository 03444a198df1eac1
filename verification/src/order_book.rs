//! The executable book of one instrument.

use std::collections::VecDeque;
use vstd::prelude::*;
use crate::matching::{matching_keeps_books_well_formed, BookView};
use crate::order::{order_views, trade_views, Order, OrderType, Trade};

verus! {

/// The resting orders of one instrument: a queue per side, oldest first.
#[derive(Debug)]
pub struct OrderBook {
    buy_orders: VecDeque<Order>,
    sell_orders: VecDeque<Order>,
}

/// What became of an order that was handed to a book.
#[derive(Debug)]
pub struct Placement {
    /// The order as it now stands: `quantity` is what is left to fill.
    pub order: Order,
    /// The trades that its arrival set off, in the order in which they happened.
    pub trades: Vec<Trade>,
}

impl View for OrderBook {
    type V = BookView;

    closed spec fn view(&self) -> BookView {
        BookView { buys: order_views(self.buy_orders@), sells: order_views(self.sell_orders@) }
    }
}

impl OrderBook {
    /// Each queue holds only fillable orders of its own side.
    pub open spec fn wf(&self) -> bool {
        self@.wf()
    }

    /// A book with nothing resting.
    pub fn new() -> (book: OrderBook)
        ensures
            book@ == BookView::empty(),
            book.wf(),
    {
        let book = OrderBook { buy_orders: VecDeque::new(), sell_orders: VecDeque::new() };
        assert(book@.buys =~= Seq::empty());
        assert(book@.sells =~= Seq::empty());
        book
    }

    /// Whether the heads of the two queues cross.
    fn heads_cross(&self) -> (crossing: bool)
        ensures
            crossing == self@.crossing(),
    {
        self.buy_orders.len() > 0 && self.sell_orders.len() > 0 && self.buy_orders[0].price
            >= self.sell_orders[0].price
    }

    /// Matches the heads of the two queues until they no longer cross, and
    /// returns the trades in the order in which they happened.
    pub fn match_orders(&mut self) -> (trades: Vec<Trade>)
        ensures
            final(self)@ == old(self)@.settled(),
            trade_views(trades@) == old(self)@.trades(),
            !final(self)@.crossing(),
            old(self).wf() ==> final(self).wf(),
    {
        proof {
            if old(self).wf() {
                matching_keeps_books_well_formed(old(self)@);
            }
        }
        let mut trades: Vec<Trade> = Vec::new();
        assert(trade_views(trades@) =~= Seq::empty());
        while self.heads_cross()
            invariant
                self@.settled() == old(self)@.settled(),
                trade_views(trades@) + self@.trades() == old(self)@.trades(),
            decreases self.buy_orders.len() + self.sell_orders.len(),
        {
            let ghost before = self@;
            let ghost buys = self.buy_orders@;
            let ghost sells = self.sell_orders@;
            let ghost done = trades@;
            let buy = self.buy_orders.pop_front().unwrap();
            let sell = self.sell_orders.pop_front().unwrap();
            let quantity: u32 = if buy.quantity <= sell.quantity {
                buy.quantity
            } else {
                sell.quantity
            };
            let trade = Trade {
                ticker: buy.ticker.clone(),
                price: sell.price,
                quantity,
                buy_id: buy.id,
                sell_id: sell.id,
            };
            assert(trade@ == before.head_trade());
            trades.push(trade);
            if buy.quantity > quantity {
                let rest = Order { quantity: buy.quantity - quantity, ..buy };
                self.buy_orders.push_front(rest);
            }
            if sell.quantity > quantity {
                let rest = Order { quantity: sell.quantity - quantity, ..sell };
                self.sell_orders.push_front(rest);
            }
            proof {
                assert(self@.buys =~= before.after_head_trade().buys);
                assert(self@.sells =~= before.after_head_trade().sells);
                assert(self@ == before.after_head_trade());
                assert(trade_views(trades@) =~= trade_views(done).push(before.head_trade()));
                assert(trade_views(trades@) + self@.trades() =~= trade_views(done)
                    + before.trades());
            }
        }
        proof {
            assert(trade_views(trades@) + self@.trades() =~= trade_views(trades@));
        }
        trades
    }

    /// Appends `order` to the queue of its side, then matches. The placement
    /// holds the order with what is left of it, and the trades that followed.
    pub fn add_order(&mut self, order: Order) -> (placement: Placement)
        requires
            old(self).wf(),
            order@.fillable(),
        ensures
            final(self)@ == old(self)@.with_order(order@).settled(),
            trade_views(placement.trades@) == old(self)@.with_order(order@).trades(),
            placement.order@ == order@.with_quantity(
                final(self)@.left_of_newest(order@.order_type),
            ),
            final(self).wf(),
            !final(self)@.crossing(),
    {
        let mut order = order;
        let resting = order.with_quantity(order.quantity);
        assert(resting@ == order@);
        match order.order_type {
            OrderType::Buy => {
                self.buy_orders.push_back(resting);
                assert(self@.buys =~= old(self)@.buys.push(order@));
            },
            OrderType::Sell => {
                self.sell_orders.push_back(resting);
                assert(self@.sells =~= old(self)@.sells.push(order@));
            },
        }
        assert(self@ == old(self)@.with_order(order@));
        let trades = self.match_orders();
        let left: u32 = match order.order_type {
            OrderType::Buy => {
                let resting = self.buy_orders.len();
                if resting == 0 {
                    0
                } else {
                    self.buy_orders[resting - 1].quantity
                }
            },
            OrderType::Sell => {
                let resting = self.sell_orders.len();
                if resting == 0 {
                    0
                } else {
                    self.sell_orders[resting - 1].quantity
                }
            },
        };
        order.quantity = left;
        Placement { order, trades }
    }

    /// The resting buy orders, oldest first.
    pub fn buy_orders(&self) -> (queue: &VecDeque<Order>)
        ensures
            order_views(queue@) == self@.buys,
    {
        &self.buy_orders
    }

    /// The resting sell orders, oldest first.
    pub fn sell_orders(&self) -> (queue: &VecDeque<Order>)
        ensures
            order_views(queue@) == self@.sells,
    {
        &self.sell_orders
    }
}

} // verus!
