//! The exchange: one book per instrument, made when the instrument's first
//! order arrives.

use vstd::hash_map::StringHashMap;
use vstd::prelude::*;
use crate::matching::{
    arrival_is_accounted_for, matching_keeps_books_well_formed, matching_stays_within_instrument,
    traded_quantity, BookView,
};
use crate::order::{rejection_of, trade_views, Order, OrderType, OrderView, Rejection};
use crate::order_book::{OrderBook, Placement};

verus! {

/// The books of an exchange as contracts see them: instrument to book.
pub type ExchangeView = Map<Seq<char>, BookView>;

/// The book that `books` holds for `ticker`: an empty one where it holds none.
pub open spec fn book_of(books: ExchangeView, ticker: Seq<char>) -> BookView {
    if books.contains_key(ticker) {
        books[ticker]
    } else {
        BookView::empty()
    }
}

/// The book of `order`'s instrument at the moment `order` has joined its
/// queue and nothing has been matched yet.
pub open spec fn book_on_arrival(books: ExchangeView, order: OrderView) -> BookView {
    book_of(books, order.ticker).with_order(order)
}

/// The books once `order` has been placed and matched.
pub open spec fn books_after(books: ExchangeView, order: OrderView) -> ExchangeView {
    books.insert(order.ticker, book_on_arrival(books, order).settled())
}

/// Every book is well-formed, at rest, and holds only orders of the
/// instrument that it is kept under; there are finitely many books.
pub open spec fn books_wf(books: ExchangeView) -> bool {
    &&& books.dom().finite()
    &&& forall|ticker: Seq<char>| #[trigger]
        books.contains_key(ticker) ==> {
            &&& books[ticker].wf()
            &&& !books[ticker].crossing()
            &&& books[ticker].listed_under(ticker)
        }
}

/// The registry of books. Each instrument has at most one book, which is
/// made on the instrument's first order and then stays.
pub struct StockExchange {
    slots: StringHashMap<usize>,
    order_books: Vec<OrderBook>,
}

impl View for StockExchange {
    type V = ExchangeView;

    closed spec fn view(&self) -> ExchangeView {
        Map::new(
            |ticker: Seq<char>| self.slots@.contains_key(ticker),
            |ticker: Seq<char>| self.order_books@[self.slots@[ticker] as int]@,
        )
    }
}

impl StockExchange {
    /// Each instrument's slot holds a book, no two instruments share one, and
    /// there is no book without an instrument.
    pub closed spec fn slots_wf(&self) -> bool {
        &&& self.slots@.dom().finite()
        &&& self.slots@.dom().len() == self.order_books@.len()
        &&& forall|ticker: Seq<char>| #[trigger]
            self.slots@.contains_key(ticker) ==> self.slots@[ticker] < self.order_books@.len()
        &&& forall|one: Seq<char>, other: Seq<char>|
            self.slots@.contains_key(one) && self.slots@.contains_key(other) && one != other
                ==> #[trigger] self.slots@[one] != #[trigger] self.slots@[other]
    }

    /// The exchange is sound inside, and so is every book.
    pub open spec fn wf(&self) -> bool {
        self.slots_wf() && books_wf(self@)
    }

    /// An exchange without books.
    pub fn new() -> (exchange: StockExchange)
        ensures
            exchange@ == Map::<Seq<char>, BookView>::empty(),
            exchange.wf(),
    {
        let exchange = StockExchange { slots: StringHashMap::new(), order_books: Vec::new() };
        assert(exchange@ =~= Map::<Seq<char>, BookView>::empty());
        exchange
    }

    /// Places `order` in the book of its instrument, which is made first if
    /// the instrument has none yet, and matches that book. An order that no
    /// book could hold is turned away and changes nothing.
    pub fn place_order(&mut self, order: Order) -> (outcome: Result<Placement, Rejection>)
        requires
            old(self).wf(),
        ensures
            final(self).wf(),
            match rejection_of(order@) {
                Some(reason) => {
                    &&& outcome is Err
                    &&& outcome->Err_0 == reason
                    &&& final(self)@ == old(self)@
                },
                None => {
                    &&& outcome is Ok
                    &&& final(self)@ == books_after(old(self)@, order@)
                    &&& trade_views(outcome->Ok_0.trades@) == book_on_arrival(
                        old(self)@,
                        order@,
                    ).trades()
                    &&& outcome->Ok_0.order@ == order@.with_quantity(
                        book_on_arrival(old(self)@, order@).settled().left_of_newest(
                            order@.order_type,
                        ),
                    )
                },
            },
    {
        match order.validate() {
            Err(reason) => {
                return Err(reason);
            },
            Ok(()) => {},
        }
        let found: Option<usize> = match self.slots.get(order.ticker.as_str()) {
            Some(slot) => Some(*slot),
            None => None,
        };
        let slot: usize = match found {
            Some(slot) => slot,
            None => {
                let slot = self.order_books.len();
                self.order_books.push(OrderBook::new());
                self.slots.insert(order.ticker.clone(), slot);
                assert(self@ =~= old(self)@.insert(order@.ticker, BookView::empty()));
                assert(self.slots_wf());
                slot
            },
        };
        let ghost before = self@;
        let ghost arrived = book_on_arrival(old(self)@, order@);
        assert(before[order@.ticker] == book_of(old(self)@, order@.ticker));
        proof {
            assert(arrived.wf());
            assert(arrived.listed_under(order@.ticker));
            matching_keeps_books_well_formed(arrived);
            matching_stays_within_instrument(arrived, order@.ticker);
        }
        let placement = self.order_books[slot].add_order(order);
        assert(self@ =~= books_after(old(self)@, order@));
        Ok(placement)
    }

    /// The book of `ticker`, if the instrument has one.
    pub fn book(&self, ticker: &str) -> (book: Option<&OrderBook>)
        requires
            self.wf(),
        ensures
            match book {
                Some(book) => self@.contains_key(ticker@) && book@ == self@[ticker@],
                None => !self@.contains_key(ticker@),
            },
    {
        match self.slots.get(ticker) {
            Some(slot) => Some(&self.order_books[*slot]),
            None => None,
        }
    }

    /// The number of books, which is the number of instruments seen so far.
    pub fn book_count(&self) -> (count: usize)
        requires
            self.wf(),
        ensures
            count == self@.dom().len(),
    {
        assert(self@.dom() =~= self.slots@.dom());
        self.order_books.len()
    }
}

/// Placing a fillable order keeps every book well-formed, at rest and under
/// its own instrument.
pub proof fn placing_keeps_books_well_formed(books: ExchangeView, order: OrderView)
    requires
        books_wf(books),
        order.fillable(),
    ensures
        books_wf(books_after(books, order)),
{
    let arrived = book_on_arrival(books, order);
    assert(arrived.wf());
    assert(arrived.listed_under(order.ticker));
    matching_keeps_books_well_formed(arrived);
    matching_stays_within_instrument(arrived, order.ticker);
    assert(books_after(books, order).dom() =~= books.dom().insert(order.ticker));
}

/// Instruments are isolated. An order touches no book but that of its own
/// instrument, each trade that it sets off is for that instrument, and the
/// orders that rest in that book afterwards are all for that instrument too.
pub proof fn placing_stays_within_instrument(
    books: ExchangeView,
    order: OrderView,
    other: Seq<char>,
)
    requires
        books_wf(books),
        other != order.ticker,
    ensures
        books_after(books, order).contains_key(other) == books.contains_key(other),
        book_of(books_after(books, order), other) == book_of(books, other),
        book_of(books_after(books, order), order.ticker).listed_under(order.ticker),
        forall|i: int|
            0 <= i < book_on_arrival(books, order).trades().len() ==> (#[trigger] book_on_arrival(
                books,
                order,
            ).trades()[i]).ticker == order.ticker,
{
    let arrived = book_on_arrival(books, order);
    assert(arrived.listed_under(order.ticker));
    matching_stays_within_instrument(arrived, order.ticker);
}

/// Books of different instruments evolve independently: two orders for
/// different instruments may be placed in either order. The books end the
/// same, and each order meets the very book, and so sets off the very trades,
/// that it would have met had the other never been placed.
pub proof fn placing_on_two_instruments_commutes(
    books: ExchangeView,
    one: OrderView,
    other: OrderView,
)
    requires
        one.ticker != other.ticker,
    ensures
        books_after(books_after(books, one), other) == books_after(books_after(books, other), one),
        book_on_arrival(books_after(books, one), other) == book_on_arrival(books, other),
        book_on_arrival(books_after(books, other), one) == book_on_arrival(books, one),
{
    assert(books_after(books_after(books, one), other) =~= books_after(
        books_after(books, other),
        one,
    ));
}

/// A book is made once. After an order is placed its instrument has a book,
/// no other instrument gained or lost one, and the number of books has grown
/// by one if the instrument had none and not at all if it had one.
pub proof fn placing_makes_at_most_one_book(books: ExchangeView, order: OrderView)
    requires
        books.dom().finite(),
    ensures
        books_after(books, order).dom() == books.dom().insert(order.ticker),
        books_after(books, order).dom().finite(),
        books_after(books, order).dom().len() == books.dom().len() + if books.contains_key(
            order.ticker,
        ) {
            0nat
        } else {
            1nat
        },
{
    assert(books_after(books, order).dom() =~= books.dom().insert(order.ticker));
}

/// Orders for a new instrument share its one book, however many arrive: the
/// second one joins the book that the first one left, and no further book
/// appears.
pub proof fn orders_of_one_instrument_share_its_book(
    books: ExchangeView,
    first: OrderView,
    second: OrderView,
)
    requires
        first.ticker == second.ticker,
    ensures
        book_on_arrival(books_after(books, first), second) == book_on_arrival(
            books,
            first,
        ).settled().with_order(second),
        books_after(books_after(books, first), second).dom() == books_after(books, first).dom(),
{
    assert(books_after(books_after(books, first), second).dom() =~= books_after(
        books,
        first,
    ).dom());
}

/// No order is dropped. What is left of a placed order and what its trades
/// moved add up to its quantity; every one of those trades names it on its own
/// side; and whatever is left of it rests last in the queue of its side in
/// the book of its instrument.
pub proof fn placing_accounts_for_the_order(books: ExchangeView, order: OrderView)
    requires
        books_wf(books),
    ensures
        ({
            let arrived = book_on_arrival(books, order);
            let rests = book_of(books_after(books, order), order.ticker).queue(order.order_type);
            let left = arrived.settled().left_of_newest(order.order_type);
            &&& left + traded_quantity(arrived.trades()) == order.quantity
            &&& forall|i: int|
                0 <= i < arrived.trades().len() ==> match order.order_type {
                    OrderType::Buy => (#[trigger] arrived.trades()[i]).buy_id == order.id,
                    OrderType::Sell => arrived.trades()[i].sell_id == order.id,
                }
            &&& left > 0 ==> rests.len() > 0 && rests.last() == order.with_quantity(left)
        }),
{
    arrival_is_accounted_for(book_of(books, order.ticker), order);
}

} // verus!
