//! The registry of books, one for each instrument, and the routing of
//! orders to them.

use crate::order::Order;
use crate::orderbook::{book_after_market, book_with_order, market_rest, OrderBook, OrderBookView};
use crate::pair::{Instrument, TradingPair};
use crate::price::Price;
use vstd::prelude::*;

verus! {

/// Why the engine could not route an order.
#[derive(Debug, Clone, Copy, PartialEq, Eq, Structural)]
pub enum EngineError {
    /// No book is registered for the instrument.
    OrderBookNotFound,
}

impl EngineError {
    /// The error in words.
    pub fn message(&self) -> (text: &'static str)
        ensures
            text@ == "Orderbook does not exist"@,
    {
        match self {
            EngineError::OrderBookNotFound => "Orderbook does not exist",
        }
    }
}

/// The registry after a book has been offered for an instrument: the book
/// is taken only if the instrument has none yet.
pub open spec fn registered(
    registry: Map<Instrument, OrderBookView>,
    instrument: Instrument,
    book: OrderBookView,
) -> Map<Instrument, OrderBookView> {
    if registry.contains_key(instrument) {
        registry
    } else {
        registry.insert(instrument, book)
    }
}

/// Idempotent registration: the first book registered for an instrument
/// stays, and a book offered for it later changes nothing.
pub proof fn lemma_registration_is_idempotent(
    registry: Map<Instrument, OrderBookView>,
    instrument: Instrument,
    first: OrderBookView,
    second: OrderBookView,
)
    ensures
        registered(registered(registry, instrument, first), instrument, second) == registered(
            registry,
            instrument,
            first,
        ),
        !registry.contains_key(instrument) ==> registered(
            registered(registry, instrument, first),
            instrument,
            second,
        )[instrument] == first,
        forall|other: Instrument|
            other != instrument ==> (#[trigger] registered(
                registered(registry, instrument, first),
                instrument,
                second,
            ).contains_key(other) <==> registry.contains_key(other)),
{
}

/// The books of all registered instruments.
///
/// A book is added once for its instrument; it is never replaced and never
/// removed.
#[derive(Debug)]
pub struct Engine {
    pairs: Vec<TradingPair>,
    books: Vec<OrderBook>,
}

impl View for Engine {
    type V = Map<Instrument, OrderBookView>;

    closed spec fn view(&self) -> Map<Instrument, OrderBookView> {
        Map::new(
            |k: Instrument| self.slot_of(k) < self.pairs.len(),
            |k: Instrument| self.books@[self.slot_of(k)]@,
        )
    }
}

impl Engine {
    /// The first slot among the first `n` that holds `instrument`, or `n`.
    spec fn slot_among(&self, instrument: Instrument, n: int) -> int
        decreases n,
    {
        if n <= 0 {
            0
        } else {
            let before = self.slot_among(instrument, n - 1);
            if before < n - 1 {
                before
            } else if self.pairs@[n - 1]@ == instrument {
                n - 1
            } else {
                n
            }
        }
    }

    /// The slot that holds `instrument`, or the number of slots.
    spec fn slot_of(&self, instrument: Instrument) -> int {
        self.slot_among(instrument, self.pairs.len() as int)
    }

    /// Every instrument has one slot and every book is well formed.
    pub closed spec fn wf(&self) -> bool {
        &&& self.pairs.len() == self.books.len()
        &&& forall|i: int| 0 <= i < self.books.len() ==> (#[trigger] self.books@[i]).wf()
        &&& forall|i: int, j: int|
            0 <= i < j < self.pairs.len() ==> (#[trigger] self.pairs@[i])@ != (
            #[trigger] self.pairs@[j])@
    }

    proof fn lemma_slot_among(&self, instrument: Instrument, n: int)
        requires
            0 <= n <= self.pairs.len(),
        ensures
            0 <= self.slot_among(instrument, n) <= n,
            self.slot_among(instrument, n) < n ==> self.pairs@[self.slot_among(
                instrument,
                n,
            )]@ == instrument,
            forall|j: int|
                0 <= j < self.slot_among(instrument, n) ==> (#[trigger] self.pairs@[j])@
                    != instrument,
        decreases n,
    {
        if n > 0 {
            self.lemma_slot_among(instrument, n - 1);
        }
    }

    /// An engine without books.
    pub fn new() -> (engine: Engine)
        ensures
            engine.wf(),
            engine@ == Map::<Instrument, OrderBookView>::empty(),
    {
        Engine { pairs: Vec::new(), books: Vec::new() }
    }

    /// The slot of `trading_pair`, if it is registered.
    fn find(&self, trading_pair: &TradingPair) -> (slot: Option<usize>)
        requires
            self.wf(),
        ensures
            slot.is_some() <==> self@.contains_key(trading_pair@),
            slot.is_some() ==> {
                &&& slot.unwrap() < self.pairs.len()
                &&& slot.unwrap() == self.slot_of(trading_pair@)
                &&& self.pairs@[slot.unwrap() as int]@ == trading_pair@
                &&& self@[trading_pair@] == self.books@[slot.unwrap() as int]@
            },
            slot.is_none() ==> self.slot_of(trading_pair@) == self.pairs.len(),
    {
        let mut i: usize = 0;
        while i < self.pairs.len()
            invariant
                i <= self.pairs.len(),
                self.slot_among(trading_pair@, i as int) == i,
            decreases self.pairs.len() - i,
        {
            if self.pairs[i] == *trading_pair {
                proof {
                    self.lemma_slot_among(trading_pair@, self.pairs.len() as int);
                    self.lemma_slot_among(trading_pair@, i as int + 1);
                }
                return Some(i);
            }
            i = i + 1;
        }
        None
    }

    /// Whether a book is registered for `trading_pair`.
    pub fn contains(&self, trading_pair: &TradingPair) -> (found: bool)
        requires
            self.wf(),
        ensures
            found == self@.contains_key(trading_pair@),
    {
        self.find(trading_pair).is_some()
    }

    /// The book registered for `trading_pair`, if there is one.
    pub fn orderbook(&self, trading_pair: &TradingPair) -> (book: Option<&OrderBook>)
        requires
            self.wf(),
        ensures
            book.is_some() <==> self@.contains_key(trading_pair@),
            book.is_some() ==> book.unwrap().wf() && book.unwrap()@ == self@[trading_pair@],
    {
        match self.find(trading_pair) {
            Some(slot) => Some(&self.books[slot]),
            None => None,
        }
    }

    /// Registers `orderbook` for `trading_pair`, unless the pair has a book
    /// already: then nothing changes and `orderbook` is dropped.
    pub fn add_orderbook(&mut self, trading_pair: TradingPair, orderbook: OrderBook)
        requires
            old(self).wf(),
            orderbook.wf(),
        ensures
            final(self).wf(),
            final(self)@ == registered(old(self)@, trading_pair@, orderbook@),
    {
        match self.find(&trading_pair) {
            Some(_) => {},
            None => {
                let ghost before = *self;
                self.pairs.push(trading_pair);
                self.books.push(orderbook);
                proof {
                    let n = before.pairs.len() as int;
                    before.lemma_slot_among(trading_pair@, n);
                    assert forall|k: Instrument|
                        self@.contains_key(k) == #[trigger] before@.insert(
                            trading_pair@,
                            orderbook@,
                        ).contains_key(k) && (self@.contains_key(k) ==> self@[k]
                            == before@.insert(trading_pair@, orderbook@)[k]) by {
                        before.lemma_slot_among(k, n);
                        self.lemma_same_slots(before, k, n);
                    }
                }
            },
        }
    }

    /// Slots are found alike in two engines that hold the same pairs in
    /// their first `n` slots.
    proof fn lemma_same_slots(&self, other: Engine, instrument: Instrument, n: int)
        requires
            0 <= n <= self.pairs.len(),
            n <= other.pairs.len(),
            forall|j: int| 0 <= j < n ==> (#[trigger] self.pairs@[j])@ == other.pairs@[j]@,
        ensures
            self.slot_among(instrument, n) == other.slot_among(instrument, n),
        decreases n,
    {
        if n > 0 {
            self.lemma_same_slots(other, instrument, n - 1);
        }
    }

    /// Queues a limit order at `price` in the book of `trading_pair`. The
    /// order is never matched on the way in. Fails, and changes nothing, if
    /// the pair has no book.
    pub fn place_limit_order(
        &mut self,
        trading_pair: TradingPair,
        price: Price,
        order: Order,
    ) -> (placed: Result<(), EngineError>)
        requires
            old(self).wf(),
            price.wf(),
        ensures
            final(self).wf(),
            placed.is_ok() <==> old(self)@.contains_key(trading_pair@),
            placed.is_ok() ==> final(self)@ == old(self)@.insert(
                trading_pair@,
                book_with_order(old(self)@[trading_pair@], order, price),
            ),
            placed.is_err() ==> placed == Err::<(), EngineError>(EngineError::OrderBookNotFound)
                && final(self)@ == old(self)@,
    {
        match self.find(&trading_pair) {
            Some(slot) => {
                let ghost before = *self;
                self.books[slot].add(order, price);
                proof {
                    let n = before.pairs.len() as int;
                    let after = before@.insert(
                        trading_pair@,
                        book_with_order(before@[trading_pair@], order, price),
                    );
                    assert forall|k: Instrument|
                        self@.contains_key(k) == #[trigger] after.contains_key(k) && (
                        self@.contains_key(k) ==> self@[k] == after[k]) by {
                        before.lemma_slot_among(k, n);
                        self.lemma_same_slots(before, k, n);
                    }
                }
                Ok(())
            },
            None => Err(EngineError::OrderBookNotFound),
        }
    }

    /// Executes a market order against the book of `trading_pair`. Fails,
    /// and changes neither the books nor the order, if the pair has no
    /// book.
    pub fn place_market_order(
        &mut self,
        trading_pair: TradingPair,
        order: &mut Order,
    ) -> (placed: Result<(), EngineError>)
        requires
            old(self).wf(),
        ensures
            final(self).wf(),
            placed.is_ok() <==> old(self)@.contains_key(trading_pair@),
            placed.is_ok() ==> {
                &&& final(self)@ == old(self)@.insert(
                    trading_pair@,
                    book_after_market(old(self)@[trading_pair@], *old(order)),
                )
                &&& *final(order) == old(order).with_size(
                    market_rest(old(self)@[trading_pair@], *old(order)) as u64,
                )
            },
            placed.is_err() ==> {
                &&& placed == Err::<(), EngineError>(EngineError::OrderBookNotFound)
                &&& final(self)@ == old(self)@
                &&& *final(order) == *old(order)
            },
    {
        match self.find(&trading_pair) {
            Some(slot) => {
                let ghost before = *self;
                let ghost taker = *order;
                self.books[slot].place_market_order(order);
                proof {
                    let n = before.pairs.len() as int;
                    let after = before@.insert(
                        trading_pair@,
                        book_after_market(before@[trading_pair@], taker),
                    );
                    assert forall|k: Instrument|
                        self@.contains_key(k) == #[trigger] after.contains_key(k) && (
                        self@.contains_key(k) ==> self@[k] == after[k]) by {
                        before.lemma_slot_among(k, n);
                        self.lemma_same_slots(before, k, n);
                    }
                }
                Ok(())
            },
            None => Err(EngineError::OrderBookNotFound),
        }
    }
}

} // verus!
