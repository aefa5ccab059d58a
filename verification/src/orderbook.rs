//! The two-sided book of one instrument.
//!
//! Each side holds its price levels in matching priority: asks from the
//! lowest price up, bids from the highest price down. A limit order is
//! queued at its price; a market order sweeps the opposing side, best
//! price first and oldest order first within a price.

use crate::limit::{fill_queue, volume_of, Limit, LimitView};
use crate::limit::{lemma_fill_conserves_volume, lemma_fill_nothing};
use crate::order::{Order, OrderType};
use crate::price::{lemma_equal_is_by_ticks, lemma_order_is_by_ticks, Price};
use core::cmp::Ordering;
use vstd::prelude::*;

verus! {

/// Whether, on the side that holds orders of type `side`, a level at price
/// `a` is matched before a level at price `b`: the lower ask and the higher
/// bid come first.
pub open spec fn better(side: OrderType, a: Price, b: Price) -> bool {
    match side {
        OrderType::Ask => a.ticks() < b.ticks(),
        OrderType::Bid => a.ticks() > b.ticks(),
    }
}

/// The levels stand in matching priority, each at a price of its own.
pub open spec fn in_priority(levels: Seq<LimitView>, side: OrderType) -> bool {
    forall|i: int, j: int|
        0 <= i < j < levels.len() ==> better(side, #[trigger] levels[i].price, #[trigger] levels[j].price)
}

/// How many of the first `n` levels are matched before a level at `price`.
pub open spec fn rank_among(levels: Seq<LimitView>, side: OrderType, price: Price, n: int) -> int
    decreases n,
{
    if n <= 0 {
        0
    } else {
        rank_among(levels, side, price, n - 1) + if better(side, levels[n - 1].price, price) {
            1int
        } else {
            0int
        }
    }
}

/// How many levels are matched before a level at `price`.
pub open spec fn rank(levels: Seq<LimitView>, side: OrderType, price: Price) -> int {
    rank_among(levels, side, price, levels.len() as int)
}

/// One side of a book after `order` has been queued at `price`: the order
/// joins the back of the level at that price, or a new level holding it
/// alone takes its place behind the levels that are matched first.
pub open spec fn with_order(
    levels: Seq<LimitView>,
    side: OrderType,
    order: Order,
    price: Price,
) -> Seq<LimitView> {
    let k = rank(levels, side, price);
    if k < levels.len() && levels[k].price.ticks() == price.ticks() {
        levels.update(k, LimitView { price: levels[k].price, queue: levels[k].queue.push(order) })
    } else {
        levels.insert(k, LimitView { price, queue: seq![order] })
    }
}

/// The quantity open in the first `i` levels: what is matched before
/// level `i` is reached.
pub open spec fn depth_ahead(levels: Seq<LimitView>, i: int) -> nat
    decreases i,
{
    if i <= 0 {
        0
    } else {
        depth_ahead(levels, i - 1) + volume_of(levels[i - 1].queue)
    }
}

/// The quantity open on a whole side.
pub open spec fn depth_of(levels: Seq<LimitView>) -> nat {
    depth_ahead(levels, levels.len() as int)
}

/// The part of an incoming quantity that is still unmatched when level `i`
/// is reached.
pub open spec fn reaching(levels: Seq<LimitView>, incoming: nat, i: int) -> nat {
    if incoming <= depth_ahead(levels, i) {
        0
    } else {
        (incoming - depth_ahead(levels, i)) as nat
    }
}

/// One side of a book after an incoming quantity has swept it: each level
/// is matched against what reaches it.
pub open spec fn sweep(levels: Seq<LimitView>, incoming: nat) -> Seq<LimitView> {
    Seq::new(
        levels.len(),
        |i: int|
            LimitView {
                price: levels[i].price,
                queue: fill_queue(levels[i].queue, reaching(levels, incoming, i)),
            },
    )
}

/// What is left of an incoming quantity once it has swept a side.
pub open spec fn sweep_rest(levels: Seq<LimitView>, incoming: nat) -> nat {
    reaching(levels, incoming, levels.len() as int)
}

/// The best ask less the best bid, in fractional units of price, where both
/// sides have a level.
pub open spec fn spread_of(book: OrderBookView) -> Option<int> {
    if book.asks.len() == 0 || book.bids.len() == 0 {
        None
    } else {
        Some(book.asks[0].price.ticks() - book.bids[0].price.ticks())
    }
}

/// The book after a limit order has been queued at `price` on its side.
pub open spec fn book_with_order(book: OrderBookView, order: Order, price: Price) -> OrderBookView {
    match order.order_type {
        OrderType::Ask => OrderBookView {
            asks: with_order(book.asks, OrderType::Ask, order, price),
            bids: book.bids,
        },
        OrderType::Bid => OrderBookView {
            asks: book.asks,
            bids: with_order(book.bids, OrderType::Bid, order, price),
        },
    }
}

/// The book after a market order has swept the side opposite to its own.
pub open spec fn book_after_market(book: OrderBookView, order: Order) -> OrderBookView {
    match order.order_type {
        OrderType::Ask => OrderBookView {
            asks: book.asks,
            bids: sweep(book.bids, order.size as nat),
        },
        OrderType::Bid => OrderBookView {
            asks: sweep(book.asks, order.size as nat),
            bids: book.bids,
        },
    }
}

/// What is left of a market order once it has swept the side opposite to
/// its own.
pub open spec fn market_rest(book: OrderBookView, order: Order) -> nat {
    match order.order_type {
        OrderType::Ask => sweep_rest(book.bids, order.size as nat),
        OrderType::Bid => sweep_rest(book.asks, order.size as nat),
    }
}

/// The depth ahead of a level grows with the level.
pub proof fn lemma_depth_ahead_grows(levels: Seq<LimitView>, i: int, j: int)
    requires
        i <= j,
    ensures
        depth_ahead(levels, i) <= depth_ahead(levels, j),
    decreases j - i,
{
    if i < j {
        lemma_depth_ahead_grows(levels, i, j - 1);
    }
}

/// Among levels in priority, the levels matched before `price` are exactly
/// those in front of the first level that is not.
pub proof fn lemma_rank_in_priority(
    levels: Seq<LimitView>,
    side: OrderType,
    price: Price,
    k: int,
    n: int,
)
    requires
        in_priority(levels, side),
        0 <= k <= levels.len(),
        0 <= n <= levels.len(),
        forall|j: int| 0 <= j < k ==> better(side, #[trigger] levels[j].price, price),
        k < levels.len() ==> !better(side, levels[k].price, price),
    ensures
        rank_among(levels, side, price, n) == if n <= k {
            n
        } else {
            k
        },
    decreases n,
{
    if n > 0 {
        lemma_rank_in_priority(levels, side, price, k, n - 1);
    }
}

/// The number of levels matched before a price is at most the number of
/// levels.
pub proof fn lemma_rank_bounds(levels: Seq<LimitView>, side: OrderType, price: Price, n: int)
    requires
        0 <= n <= levels.len(),
    ensures
        0 <= rank_among(levels, side, price, n) <= n,
    decreases n,
{
    if n > 0 {
        lemma_rank_bounds(levels, side, price, n - 1);
    }
}

/// Every level in front of the rank of a price is matched before it, and
/// the level at the rank is not.
pub proof fn lemma_rank_splits(levels: Seq<LimitView>, side: OrderType, price: Price, n: int)
    requires
        in_priority(levels, side),
        0 <= n <= levels.len(),
    ensures
        forall|j: int|
            0 <= j < rank_among(levels, side, price, n) ==> better(
                side,
                #[trigger] levels[j].price,
                price,
            ),
        forall|j: int|
            rank_among(levels, side, price, n) <= j < n ==> !better(
                side,
                #[trigger] levels[j].price,
                price,
            ),
    decreases n,
{
    if n > 0 {
        lemma_rank_splits(levels, side, price, n - 1);
        lemma_rank_bounds(levels, side, price, n - 1);
    }
}

/// Priority ordering: queuing an order keeps a side in matching priority,
/// whatever the price and whatever was queued before.
pub proof fn lemma_with_order_keeps_priority(
    levels: Seq<LimitView>,
    side: OrderType,
    order: Order,
    price: Price,
)
    requires
        in_priority(levels, side),
    ensures
        in_priority(with_order(levels, side, order, price), side),
{
    lemma_rank_bounds(levels, side, price, levels.len() as int);
    lemma_rank_splits(levels, side, price, levels.len() as int);
}

/// A sweep conserves volume up to any level: what the first `i` levels
/// lose is what the incoming quantity found ahead of level `i`.
pub proof fn lemma_sweep_conserves_ahead(levels: Seq<LimitView>, incoming: nat, i: int)
    requires
        0 <= i <= levels.len(),
    ensures
        depth_ahead(sweep(levels, incoming), i) + incoming == depth_ahead(levels, i) + reaching(
            levels,
            incoming,
            i,
        ),
    decreases i,
{
    if i > 0 {
        lemma_sweep_conserves_ahead(levels, incoming, i - 1);
        lemma_fill_conserves_volume(levels[i - 1].queue, reaching(levels, incoming, i - 1));
    }
}

/// Volume conservation: the quantity that a side loses in a sweep is
/// exactly the quantity that the incoming order loses.
pub proof fn lemma_sweep_conserves_volume(levels: Seq<LimitView>, incoming: nat)
    ensures
        depth_of(sweep(levels, incoming)) <= depth_of(levels),
        sweep_rest(levels, incoming) <= incoming,
        depth_of(levels) - depth_of(sweep(levels, incoming)) == incoming - sweep_rest(
            levels,
            incoming,
        ),
{
    lemma_sweep_conserves_ahead(levels, incoming, levels.len() as int);
}

/// Price priority: a level loses quantity only if every level matched
/// before it has no quantity left.
pub proof fn lemma_sweep_is_best_price_first(levels: Seq<LimitView>, incoming: nat, i: int, j: int)
    requires
        0 <= i < j < levels.len(),
        volume_of(sweep(levels, incoming)[j].queue) < volume_of(levels[j].queue),
    ensures
        volume_of(sweep(levels, incoming)[i].queue) == 0,
{
    lemma_depth_ahead_grows(levels, i + 1, j);
    if reaching(levels, incoming, j) == 0 {
        lemma_fill_nothing(levels[j].queue);
    }
    lemma_fill_conserves_volume(levels[i].queue, reaching(levels, incoming, i));
}

/// What a book is: its two sides, each in matching priority.
pub struct OrderBookView {
    pub asks: Seq<LimitView>,
    pub bids: Seq<LimitView>,
}

/// The levels of a side as the model sees them.
pub open spec fn views(levels: Seq<Limit>) -> Seq<LimitView> {
    Seq::new(levels.len(), |i: int| levels[i]@)
}

/// Every level is well formed and the levels stand in matching priority.
pub open spec fn side_wf(levels: Seq<Limit>, side: OrderType) -> bool {
    &&& forall|i: int| 0 <= i < levels.len() ==> (#[trigger] levels[i]).wf()
    &&& in_priority(views(levels), side)
}

/// The book of one instrument.
#[derive(Debug)]
pub struct OrderBook {
    asks: Vec<Limit>,
    bids: Vec<Limit>,
}

impl View for OrderBook {
    type V = OrderBookView;

    closed spec fn view(&self) -> OrderBookView {
        OrderBookView { asks: views(self.asks@), bids: views(self.bids@) }
    }
}

/// Whether a level at price `a` is matched before a level at price `b`.
fn has_priority(side: OrderType, a: &Price, b: &Price) -> (first: bool)
    requires
        a.wf(),
        b.wf(),
    ensures
        first == better(side, *a, *b),
{
    proof {
        lemma_order_is_by_ticks(*a, *b);
    }
    match a.cmp(b) {
        Ordering::Less => side == OrderType::Ask,
        Ordering::Greater => side == OrderType::Bid,
        Ordering::Equal => false,
    }
}

/// Queues `order` at `price` on one side of a book.
fn queue_order(levels: &mut Vec<Limit>, side: OrderType, order: Order, price: Price)
    requires
        side_wf(old(levels)@, side),
        price.wf(),
    ensures
        side_wf(final(levels)@, side),
        views(final(levels)@) == with_order(views(old(levels)@), side, order, price),
{
    let ghost before = views(levels@);
    let mut i: usize = 0;
    while i < levels.len() && has_priority(side, &levels[i].price(), &price)
        invariant
            i <= levels.len(),
            price.wf(),
            levels@ == old(levels)@,
            before == views(levels@),
            side_wf(levels@, side),
            forall|j: int| 0 <= j < i ==> better(side, #[trigger] before[j].price, price),
        decreases levels.len() - i,
    {
        i = i + 1;
    }
    proof {
        lemma_rank_in_priority(before, side, price, i as int, before.len() as int);
        lemma_with_order_keeps_priority(before, side, order, price);
        if i < levels.len() {
            lemma_equal_is_by_ticks(levels[i as int]@.price, price);
        }
    }
    if i < levels.len() && levels[i].price() == price {
        levels[i].add(order);
        assert(views(levels@) =~= with_order(before, side, order, price));
    } else {
        let mut limit = Limit::new(price);
        limit.add(order);
        levels.insert(i, limit);
        assert(views(levels@) =~= with_order(before, side, order, price));
    }
}

/// Matches `order` against the levels of one side, in their order.
fn sweep_levels(levels: &mut Vec<Limit>, side: OrderType, order: &mut Order)
    requires
        side_wf(old(levels)@, side),
    ensures
        side_wf(final(levels)@, side),
        views(final(levels)@) == sweep(views(old(levels)@), old(order).size as nat),
        *final(order) == old(order).with_size(
            sweep_rest(views(old(levels)@), old(order).size as nat) as u64,
        ),
{
    let ghost before = views(levels@);
    let ghost incoming = order.size as nat;
    let ghost taker = order.order_type;
    let mut i: usize = 0;
    while i < levels.len() && !order.is_filled()
        invariant
            i <= levels.len(),
            levels@.len() == before.len(),
            before == views(old(levels)@),
            order.order_type == taker,
            order.size == reaching(before, incoming, i as int),
            forall|j: int| 0 <= j < levels.len() ==> (#[trigger] levels@[j]).wf(),
            forall|j: int| 0 <= j < i ==> (#[trigger] levels@[j])@ == sweep(before, incoming)[j],
            forall|j: int| i <= j < levels.len() ==> (#[trigger] levels@[j])@ == before[j],
        decreases levels.len() - i,
    {
        levels[i].fill(order);
        i = i + 1;
    }
    proof {
        assert forall|j: int| 0 <= j < before.len() implies (#[trigger] levels@[j])@ == sweep(
            before,
            incoming,
        )[j] by {
            if j >= i {
                lemma_depth_ahead_grows(before, i as int, j);
                lemma_fill_nothing(before[j].queue);
            }
        }
        lemma_depth_ahead_grows(before, i as int, before.len() as int);
    }
}

impl OrderBook {
    /// Both sides are well formed: every level is, asks stand from the
    /// lowest price up and bids from the highest price down, and no price
    /// has two levels on one side.
    pub closed spec fn wf(&self) -> bool {
        &&& side_wf(self.asks@, OrderType::Ask)
        &&& side_wf(self.bids@, OrderType::Bid)
    }

    /// Priority ordering: in a well-formed book the asks stand from the
    /// lowest price up and the bids from the highest price down, and every
    /// price is well formed.
    pub proof fn lemma_sides_in_priority(&self)
        requires
            self.wf(),
        ensures
            in_priority(self@.asks, OrderType::Ask),
            in_priority(self@.bids, OrderType::Bid),
            forall|i: int| 0 <= i < self@.asks.len() ==> (#[trigger] self@.asks[i]).price.wf(),
            forall|i: int| 0 <= i < self@.bids.len() ==> (#[trigger] self@.bids[i]).price.wf(),
    {
        assert forall|i: int| 0 <= i < self@.asks.len() implies (#[trigger] self@.asks[i]).price.wf() by {
            self.asks@[i].lemma_wf();
        }
        assert forall|i: int| 0 <= i < self@.bids.len() implies (#[trigger] self@.bids[i]).price.wf() by {
            self.bids@[i].lemma_wf();
        }
    }

    /// A book with two empty sides.
    pub fn new() -> (book: OrderBook)
        ensures
            book.wf(),
            book@ == (OrderBookView { asks: Seq::empty(), bids: Seq::empty() }),
    {
        assert(views(Seq::<Limit>::empty()) =~= Seq::<LimitView>::empty());
        OrderBook { asks: Vec::new(), bids: Vec::new() }
    }

    /// Executes a market order: the order sweeps the opposing side (an ask
    /// the bids, a bid the asks), best price first, until it is filled or
    /// the side has nothing left. What cannot be matched stays on the order
    /// and is not queued.
    pub fn place_market_order(&mut self, order: &mut Order)
        requires
            old(self).wf(),
        ensures
            final(self).wf(),
            final(self)@ == book_after_market(old(self)@, *old(order)),
            *final(order) == old(order).with_size(market_rest(old(self)@, *old(order)) as u64),
            market_rest(old(self)@, *old(order)) <= old(order).size,
            depth_of(old(self)@.asks) + depth_of(old(self)@.bids) - depth_of(final(self)@.asks)
                - depth_of(final(self)@.bids) == old(order).size - final(order).size,
    {
        proof {
            lemma_sweep_conserves_volume(self@.asks, order.size as nat);
            lemma_sweep_conserves_volume(self@.bids, order.size as nat);
        }
        match order.order_type {
            OrderType::Ask => sweep_levels(&mut self.bids, OrderType::Bid, order),
            OrderType::Bid => sweep_levels(&mut self.asks, OrderType::Ask, order),
        }
    }

    /// The ask levels in matching priority: from the lowest price up.
    pub fn ask_limits(&self) -> (limits: &Vec<Limit>)
        requires
            self.wf(),
        ensures
            views(limits@) == self@.asks,
            side_wf(limits@, OrderType::Ask),
            forall|i: int, j: int|
                0 <= i <= j < limits.len() ==> (#[trigger] limits[i])@.price.ticks() <= (
                #[trigger] limits[j])@.price.ticks(),
    {
        proof {
            let levels = views(self.asks@);
            assert forall|i: int, j: int| 0 <= i <= j < self.asks.len() implies (
            #[trigger] self.asks[i])@.price.ticks() <= (#[trigger] self.asks[j])@.price.ticks() by {
                if i < j {
                    assert(better(OrderType::Ask, levels[i].price, levels[j].price));
                }
            }
        }
        &self.asks
    }

    /// The bid levels in matching priority: from the highest price down.
    pub fn bid_limits(&self) -> (limits: &Vec<Limit>)
        requires
            self.wf(),
        ensures
            views(limits@) == self@.bids,
            side_wf(limits@, OrderType::Bid),
            forall|i: int, j: int|
                0 <= i <= j < limits.len() ==> (#[trigger] limits[i])@.price.ticks() >= (
                #[trigger] limits[j])@.price.ticks(),
    {
        proof {
            let levels = views(self.bids@);
            assert forall|i: int, j: int| 0 <= i <= j < self.bids.len() implies (
            #[trigger] self.bids[i])@.price.ticks() >= (#[trigger] self.bids[j])@.price.ticks() by {
                if i < j {
                    assert(better(OrderType::Bid, levels[i].price, levels[j].price));
                }
            }
        }
        &self.bids
    }

    /// Queues a limit order at `price` on its own side. The order joins the
    /// level at that price, which is made if the price is new to the side.
    /// Nothing is matched, whatever rests on the other side.
    pub fn add(&mut self, order: Order, price: Price)
        requires
            old(self).wf(),
            price.wf(),
        ensures
            final(self).wf(),
            final(self)@ == book_with_order(old(self)@, order, price),
    {
        match order.order_type {
            OrderType::Ask => queue_order(&mut self.asks, OrderType::Ask, order, price),
            OrderType::Bid => queue_order(&mut self.bids, OrderType::Bid, order, price),
        }
    }

    /// The best ask less the best bid, in fractional units of price. There
    /// is no spread unless both sides have a level.
    pub fn spread(&self) -> (spread: Option<i128>)
        requires
            self.wf(),
        ensures
            spread.is_some() == spread_of(self@).is_some(),
            spread.is_some() ==> spread.unwrap() == spread_of(self@).unwrap(),
    {
        if self.asks.len() == 0 || self.bids.len() == 0 {
            None
        } else {
            let ask: Price = self.asks[0].price();
            let bid: Price = self.bids[0].price();
            Some(ask.distance(&bid))
        }
    }
}

} // verus!
