//! The mathematical model of one instrument's book.
//!
//! A book is two queues of resting orders. Matching looks only at the two
//! heads: while both queues are non-empty and the head buy bids at least what
//! the head sell asks, the two trade the smaller of their quantities at the
//! sell order's price; a head that is filled leaves its queue, a head with
//! something left stays where it is.

use vstd::prelude::*;
use crate::order::{OrderType, OrderView, TradeView};

verus! {

/// The state of one book: resting buy orders and resting sell orders, oldest
/// first.
pub struct BookView {
    pub buys: Seq<OrderView>,
    pub sells: Seq<OrderView>,
}

/// Every order of `queue` stands on `side` and is fillable.
pub open spec fn queue_wf(queue: Seq<OrderView>, side: OrderType) -> bool {
    forall|i: int|
        0 <= i < queue.len() ==> (#[trigger] queue[i]).order_type == side && queue[i].fillable()
}

/// `queue` after `quantity` units of its head were filled: the head leaves
/// when nothing of it is left, and otherwise stays first with the rest.
pub open spec fn fill_head(queue: Seq<OrderView>, quantity: nat) -> Seq<OrderView> {
    if queue[0].quantity > quantity {
        queue.update(0, queue[0].with_quantity((queue[0].quantity - quantity) as nat))
    } else {
        queue.skip(1)
    }
}

/// The sum of the quantities left in `queue`.
pub open spec fn resting_quantity(queue: Seq<OrderView>) -> nat
    decreases queue.len(),
{
    if queue.len() == 0 {
        0
    } else {
        queue[0].quantity + resting_quantity(queue.skip(1))
    }
}

/// The sum of the quantities of `trades`.
pub open spec fn traded_quantity(trades: Seq<TradeView>) -> nat
    decreases trades.len(),
{
    if trades.len() == 0 {
        0
    } else {
        trades[0].quantity + traded_quantity(trades.skip(1))
    }
}

impl BookView {
    /// The book with nothing resting.
    pub open spec fn empty() -> BookView {
        BookView { buys: Seq::empty(), sells: Seq::empty() }
    }

    /// The queue of `side`.
    pub open spec fn queue(self, side: OrderType) -> Seq<OrderView> {
        match side {
            OrderType::Buy => self.buys,
            OrderType::Sell => self.sells,
        }
    }

    /// Each queue holds only fillable orders of its own side.
    pub open spec fn wf(self) -> bool {
        queue_wf(self.buys, OrderType::Buy) && queue_wf(self.sells, OrderType::Sell)
    }

    /// Every resting order is for the instrument `ticker`.
    pub open spec fn listed_under(self, ticker: Seq<char>) -> bool {
        &&& forall|i: int| 0 <= i < self.buys.len() ==> (#[trigger] self.buys[i]).ticker == ticker
        &&& forall|i: int| 0 <= i < self.sells.len() ==> (#[trigger] self.sells[i]).ticker == ticker
    }

    /// The heads cross: both queues have one, and the head buy bids at least
    /// what the head sell asks.
    pub open spec fn crossing(self) -> bool {
        self.buys.len() > 0 && self.sells.len() > 0 && self.buys[0].price >= self.sells[0].price
    }

    /// The trade between the two heads of a crossing book.
    pub open spec fn head_trade(self) -> TradeView {
        TradeView {
            ticker: self.buys[0].ticker,
            price: self.sells[0].price,
            quantity: if self.buys[0].quantity <= self.sells[0].quantity {
                self.buys[0].quantity
            } else {
                self.sells[0].quantity
            },
            buy_id: self.buys[0].id,
            sell_id: self.sells[0].id,
        }
    }

    /// A crossing book after the trade between its heads.
    pub open spec fn after_head_trade(self) -> BookView {
        BookView {
            buys: fill_head(self.buys, self.head_trade().quantity),
            sells: fill_head(self.sells, self.head_trade().quantity),
        }
    }

    /// The book once matching has run to its end.
    pub open spec fn settled(self) -> BookView
        decreases self.buys.len() + self.sells.len(),
    {
        if self.crossing() {
            self.after_head_trade().settled()
        } else {
            self
        }
    }

    /// The trades that matching produces, in the order in which they happen.
    pub open spec fn trades(self) -> Seq<TradeView>
        decreases self.buys.len() + self.sells.len(),
    {
        if self.crossing() {
            seq![self.head_trade()] + self.after_head_trade().trades()
        } else {
            Seq::empty()
        }
    }

    /// The book with `order` appended to the queue of its side.
    pub open spec fn with_order(self, order: OrderView) -> BookView {
        match order.order_type {
            OrderType::Buy => BookView { buys: self.buys.push(order), ..self },
            OrderType::Sell => BookView { sells: self.sells.push(order), ..self },
        }
    }

    /// What is left of the order that was appended last to the queue of
    /// `side`: nothing once that queue is empty, else the quantity of its tail.
    pub open spec fn left_of_newest(self, side: OrderType) -> nat {
        if self.queue(side).len() == 0 {
            0
        } else {
            self.queue(side).last().quantity
        }
    }
}

/// `after` is what first-in-first-out filling can leave of `before`: some of
/// the oldest orders are gone, the oldest one left may have lost part of its
/// quantity, and every later one is exactly as it was.
pub open spec fn is_fifo_rest(before: Seq<OrderView>, after: Seq<OrderView>) -> bool {
    let gone = before.len() - after.len();
    &&& after.len() <= before.len()
    &&& after.len() > 0 ==> {
        &&& after[0].quantity <= before[gone].quantity
        &&& after[0] == before[gone].with_quantity(after[0].quantity)
    }
    &&& forall|i: int| 1 <= i < after.len() ==> #[trigger] after[i] == before[gone + i]
}

/// What first-in-first-out filling took from `before` to leave `after`: the
/// whole of every order that is gone, and of the oldest one left the part that
/// it has lost.
pub open spec fn filled_first_in_first_out(before: Seq<OrderView>, after: Seq<OrderView>) -> int {
    let gone = before.len() - after.len();
    resting_quantity(before.take(gone)) + if after.len() > 0 {
        before[gone].quantity - after[0].quantity
    } else {
        0
    }
}

impl BookView {
    /// The book after the first `count` trades of its matching (after all of
    /// them, where there are fewer).
    pub open spec fn after_trades(self, count: nat) -> BookView
        decreases count,
    {
        if count == 0 || !self.crossing() {
            self
        } else {
            self.after_head_trade().after_trades((count - 1) as nat)
        }
    }
}

proof fn resting_quantity_of_fill_head(queue: Seq<OrderView>, quantity: nat)
    requires
        queue.len() > 0,
        quantity <= queue[0].quantity,
    ensures
        resting_quantity(fill_head(queue, quantity)) + quantity == resting_quantity(queue),
{
    if queue[0].quantity > quantity {
        assert(fill_head(queue, quantity).skip(1) =~= queue.skip(1));
    }
}

proof fn traded_quantity_of_first_and_rest(first: TradeView, rest: Seq<TradeView>)
    ensures
        traded_quantity(seq![first] + rest) == first.quantity + traded_quantity(rest),
{
    assert((seq![first] + rest).skip(1) =~= rest);
}

proof fn resting_quantity_splits(queue: Seq<OrderView>, at: int)
    requires
        0 <= at <= queue.len(),
    ensures
        resting_quantity(queue) == resting_quantity(queue.take(at)) + resting_quantity(
            queue.skip(at),
        ),
    decreases at,
{
    if at == 0 {
        assert(queue.skip(0) =~= queue);
    } else {
        assert(queue.take(at).skip(1) =~= queue.skip(1).take(at - 1));
        assert(queue.skip(1).skip(at - 1) =~= queue.skip(at));
        resting_quantity_splits(queue.skip(1), at - 1);
    }
}

proof fn resting_quantity_of_fifo_rest(before: Seq<OrderView>, after: Seq<OrderView>)
    requires
        is_fifo_rest(before, after),
    ensures
        resting_quantity(before) - resting_quantity(after) == filled_first_in_first_out(
            before,
            after,
        ),
{
    let gone = before.len() - after.len();
    resting_quantity_splits(before, gone);
    if after.len() > 0 {
        assert(before.skip(gone).skip(1) =~= after.skip(1));
    }
}

proof fn fifo_rest_of_fill_head(queue: Seq<OrderView>, quantity: nat)
    requires
        queue.len() > 0,
    ensures
        is_fifo_rest(queue, fill_head(queue, quantity)),
{
}

proof fn fifo_rest_is_transitive(first: Seq<OrderView>, second: Seq<OrderView>, third: Seq<OrderView>)
    requires
        is_fifo_rest(first, second),
        is_fifo_rest(second, third),
    ensures
        is_fifo_rest(first, third),
{
    let gone = first.len() - third.len();
    let gone_first = first.len() - second.len();
    let gone_second = second.len() - third.len();
    assert forall|i: int| 1 <= i < third.len() implies #[trigger] third[i] == first[gone + i] by {
        assert(third[i] == second[gone_second + i]);
        assert(second[gone_second + i] == first[gone_first + (gone_second + i)]);
    }
    if third.len() > 0 {
        if gone_second > 0 {
            assert(second[gone_second] == first[gone_first + gone_second]);
        }
    }
}

/// Matching keeps a book well-formed: whatever rests afterwards is fillable
/// and on its own side, the heads no longer cross, and every trade moved a
/// positive quantity at a positive price. No quantity ever reaches below zero.
pub proof fn matching_keeps_books_well_formed(book: BookView)
    requires
        book.wf(),
    ensures
        book.settled().wf(),
        !book.settled().crossing(),
        forall|i: int|
            0 <= i < book.trades().len() ==> (#[trigger] book.trades()[i]).quantity > 0
                && book.trades()[i].price > 0,
    decreases book.buys.len() + book.sells.len(),
{
    if book.crossing() {
        let next = book.after_head_trade();
        assert(next.wf());
        matching_keeps_books_well_formed(next);
        assert forall|i: int| 0 <= i < book.trades().len() implies (#[trigger] book.trades()[i]).quantity
            > 0 && book.trades()[i].price > 0 by {
            if i > 0 {
                assert(book.trades()[i] == next.trades()[i - 1]);
            }
        }
    }
}

/// The same holds at every point of matching, not only at its end: after any
/// number of trades each resting order still has a positive quantity.
pub proof fn matching_keeps_books_well_formed_throughout(book: BookView, count: nat)
    requires
        book.wf(),
    ensures
        book.after_trades(count).wf(),
    decreases count,
{
    if count > 0 && book.crossing() {
        let next = book.after_head_trade();
        assert(next.wf());
        matching_keeps_books_well_formed_throughout(next, (count - 1) as nat);
    }
}

/// Matching conserves quantity on each side: what rests afterwards and what
/// was traded add up to what rested before.
pub proof fn matching_conserves_quantity(book: BookView)
    ensures
        resting_quantity(book.settled().buys) + traded_quantity(book.trades()) == resting_quantity(
            book.buys,
        ),
        resting_quantity(book.settled().sells) + traded_quantity(book.trades())
            == resting_quantity(book.sells),
    decreases book.buys.len() + book.sells.len(),
{
    if book.crossing() {
        let next = book.after_head_trade();
        let quantity = book.head_trade().quantity;
        matching_conserves_quantity(next);
        resting_quantity_of_fill_head(book.buys, quantity);
        resting_quantity_of_fill_head(book.sells, quantity);
        traded_quantity_of_first_and_rest(book.head_trade(), next.trades());
    }
}

/// Between one buy order and one sell order the trades sum to no more than the
/// smaller of the two quantities, and each order is left with its quantity
/// less what was traded.
pub proof fn matching_one_pair_conserves_quantity(buy: OrderView, sell: OrderView)
    ensures
        ({
            let book = BookView { buys: seq![buy], sells: seq![sell] };
            let traded = traded_quantity(book.trades());
            &&& traded <= buy.quantity
            &&& traded <= sell.quantity
            &&& resting_quantity(book.settled().buys) == buy.quantity - traded
            &&& resting_quantity(book.settled().sells) == sell.quantity - traded
        }),
{
    let book = BookView { buys: seq![buy], sells: seq![sell] };
    matching_conserves_quantity(book);
    assert(book.buys.skip(1) =~= Seq::<OrderView>::empty());
    assert(book.sells.skip(1) =~= Seq::<OrderView>::empty());
    assert(resting_quantity(book.buys.skip(1)) == 0);
    assert(resting_quantity(book.sells.skip(1)) == 0);
}

/// The first `count` trades of a book's matching lead to a book whose own
/// matching yields the remaining trades and ends in the same state.
pub proof fn matching_resumes_after_trades(book: BookView, count: nat)
    requires
        count <= book.trades().len(),
    ensures
        book.after_trades(count).settled() == book.settled(),
        book.after_trades(count).trades() == book.trades().skip(count as int),
        count < book.trades().len() ==> book.after_trades(count).crossing() && book.trades()[count as int]
            == book.after_trades(count).head_trade(),
    decreases count,
{
    if count == 0 {
        assert(book.trades().skip(0) =~= book.trades());
    } else {
        let next = book.after_head_trade();
        assert(book.crossing());
        assert(book.trades().skip(1) =~= next.trades());
        matching_resumes_after_trades(next, (count - 1) as nat);
        assert(book.trades().skip(count as int) =~= next.trades().skip(count - 1));
        if count < book.trades().len() {
            assert(book.trades()[count as int] == next.trades()[count - 1]);
        }
    }
}

/// Matching fills each side first in, first out. At the moment of any trade,
/// each queue is what it was at the start less some of its oldest orders, with at
/// most the oldest one left partly filled and every later one untouched; the
/// trade is between these two oldest ones; and the trades so far have moved
/// exactly the whole of every order that is gone plus the part that the
/// oldest one left has lost. So an order is touched only when every order that
/// came before it on its side has been filled completely.
pub proof fn matching_is_first_in_first_out(book: BookView, count: nat)
    requires
        count <= book.trades().len(),
    ensures
        is_fifo_rest(book.buys, book.after_trades(count).buys),
        is_fifo_rest(book.sells, book.after_trades(count).sells),
        resting_quantity(book.after_trades(count).buys) + traded_quantity(
            book.trades().take(count as int),
        ) == resting_quantity(book.buys),
        resting_quantity(book.after_trades(count).sells) + traded_quantity(
            book.trades().take(count as int),
        ) == resting_quantity(book.sells),
        count < book.trades().len() ==> {
            &&& book.after_trades(count).crossing()
            &&& book.trades()[count as int] == book.after_trades(count).head_trade()
        },
        count == book.trades().len() ==> book.after_trades(count) == book.settled(),
        traded_quantity(book.trades().take(count as int)) == filled_first_in_first_out(
            book.buys,
            book.after_trades(count).buys,
        ),
        traded_quantity(book.trades().take(count as int)) == filled_first_in_first_out(
            book.sells,
            book.after_trades(count).sells,
        ),
    decreases count,
{
    matching_resumes_after_trades(book, count);
    if count == 0 {
        assert(book.trades().take(0) =~= Seq::<TradeView>::empty());
    } else {
        let next = book.after_head_trade();
        let quantity = book.head_trade().quantity;
        assert(book.crossing());
        assert(book.trades().skip(1) =~= next.trades());
        matching_is_first_in_first_out(next, (count - 1) as nat);
        fifo_rest_of_fill_head(book.buys, quantity);
        fifo_rest_of_fill_head(book.sells, quantity);
        fifo_rest_is_transitive(book.buys, next.buys, next.after_trades((count - 1) as nat).buys);
        fifo_rest_is_transitive(book.sells, next.sells, next.after_trades((count - 1) as nat).sells);
        resting_quantity_of_fill_head(book.buys, quantity);
        resting_quantity_of_fill_head(book.sells, quantity);
        assert(book.trades().take(count as int) =~= seq![book.head_trade()] + next.trades().take(
            count - 1,
        ));
        traded_quantity_of_first_and_rest(book.head_trade(), next.trades().take(count - 1));
    }
    if count == book.trades().len() {
        let last = book.after_trades(count);
        assert(last.trades() =~= Seq::<TradeView>::empty());
        assert(!last.crossing()) by {
            if last.crossing() {
                assert(last.trades().len() > 0);
            }
        }
    }
    resting_quantity_of_fifo_rest(book.buys, book.after_trades(count).buys);
    resting_quantity_of_fifo_rest(book.sells, book.after_trades(count).sells);
}

/// Matching never leaves the instrument: in a book whose orders are all for
/// one instrument, every trade is for that instrument, and so is every order
/// that rests afterwards.
pub proof fn matching_stays_within_instrument(book: BookView, ticker: Seq<char>)
    requires
        book.listed_under(ticker),
    ensures
        book.settled().listed_under(ticker),
        forall|i: int| 0 <= i < book.trades().len() ==> (#[trigger] book.trades()[i]).ticker == ticker,
    decreases book.buys.len() + book.sells.len(),
{
    if book.crossing() {
        let next = book.after_head_trade();
        assert(next.listed_under(ticker));
        matching_stays_within_instrument(next, ticker);
        assert forall|i: int| 0 <= i < book.trades().len() implies (#[trigger] book.trades()[i]).ticker
            == ticker by {
            if i > 0 {
                assert(book.trades()[i] == next.trades()[i - 1]);
            }
        }
    }
}

/// No order is lost on arrival. At a book at rest a new order trades only
/// itself: every trade that follows names it on its own side, what is left of
/// it and what was traded add up to its quantity, and if anything is left it
/// rests last in the queue of its side.
pub proof fn arrival_is_accounted_for(book: BookView, order: OrderView)
    requires
        !book.crossing(),
    ensures
        ({
            let arrived = book.with_order(order);
            let left = arrived.settled().left_of_newest(order.order_type);
            &&& left + traded_quantity(arrived.trades()) == order.quantity
            &&& forall|i: int|
                0 <= i < arrived.trades().len() ==> match order.order_type {
                    OrderType::Buy => (#[trigger] arrived.trades()[i]).buy_id == order.id,
                    OrderType::Sell => arrived.trades()[i].sell_id == order.id,
                }
            &&& left > 0 ==> arrived.settled().queue(order.order_type).len() > 0
                && arrived.settled().queue(order.order_type).last() == order.with_quantity(left)
        }),
{
    let side = order.order_type;
    let arrived = book.with_order(order);
    if book.queue(side).len() > 0 {
        assert(arrived.buys[0] == book.buys[0]);
        assert(arrived.sells[0] == book.sells[0]);
        assert(!arrived.crossing());
    } else {
        let count = arrived.trades().len();
        matching_is_first_in_first_out(arrived, count);
        assert(arrived.queue(side) =~= seq![order]);
        assert(arrived.queue(side).skip(1) =~= Seq::<OrderView>::empty());
        assert(resting_quantity(arrived.queue(side).skip(1)) == 0);
        assert(arrived.trades().take(count as int) =~= arrived.trades());
        let rest = arrived.settled().queue(side);
        if rest.len() > 0 {
            assert(rest.skip(1) =~= Seq::<OrderView>::empty());
            assert(resting_quantity(rest.skip(1)) == 0);
        }
        assert forall|i: int| 0 <= i < arrived.trades().len() implies match side {
            OrderType::Buy => (#[trigger] arrived.trades()[i]).buy_id == order.id,
            OrderType::Sell => arrived.trades()[i].sell_id == order.id,
        } by {
            matching_is_first_in_first_out(arrived, i as nat);
        }
    }
}

} // verus!
