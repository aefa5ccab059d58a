//! Price levels: the orders resting at one price, in arrival order, and the
//! rule by which an incoming order is matched against them.

use crate::order::{Order, OrderType};
use crate::price::Price;
use vstd::prelude::*;

verus! {

/// The quantity open in the first `i` orders of `queue`: what stands ahead
/// of the order at position `i`.
pub open spec fn volume_ahead(queue: Seq<Order>, i: int) -> nat
    decreases i,
{
    if i <= 0 {
        0
    } else {
        volume_ahead(queue, i - 1) + queue[i - 1].size as nat
    }
}

/// The quantity open in the whole of `queue`.
pub open spec fn volume_of(queue: Seq<Order>) -> nat {
    volume_ahead(queue, queue.len() as int)
}

/// What an incoming quantity takes from the order at position `i`: nothing
/// until everything ahead of it is used up, then as much as is left of the
/// incoming quantity, up to the whole order.
pub open spec fn taken_from(queue: Seq<Order>, incoming: nat, i: int) -> nat {
    let ahead = volume_ahead(queue, i);
    if incoming <= ahead {
        0
    } else if incoming - ahead >= queue[i].size {
        queue[i].size as nat
    } else {
        (incoming - ahead) as nat
    }
}

/// The queue after an incoming quantity has been matched against it: every
/// order keeps its place and its side and loses what was taken from it.
pub open spec fn fill_queue(queue: Seq<Order>, incoming: nat) -> Seq<Order> {
    Seq::new(
        queue.len(),
        |i: int| queue[i].with_size((queue[i].size - taken_from(queue, incoming, i)) as u64),
    )
}

/// What is left of an incoming quantity once it has been matched against
/// `queue`.
pub open spec fn fill_rest(queue: Seq<Order>, incoming: nat) -> nat {
    if incoming <= volume_of(queue) {
        0
    } else {
        (incoming - volume_of(queue)) as nat
    }
}

/// The quantity ahead of a position grows with the position.
pub proof fn lemma_volume_ahead_grows(queue: Seq<Order>, i: int, j: int)
    requires
        i <= j,
    ensures
        volume_ahead(queue, i) <= volume_ahead(queue, j),
    decreases j - i,
{
    if i < j {
        lemma_volume_ahead_grows(queue, i, j - 1);
    }
}

/// Nothing is open ahead of a position when every order before it is filled.
pub proof fn lemma_nothing_ahead_of_filled(queue: Seq<Order>, i: int)
    requires
        0 <= i <= queue.len(),
        forall|j: int| 0 <= j < i ==> queue[j].size == 0,
    ensures
        volume_ahead(queue, i) == 0,
    decreases i,
{
    if i > 0 {
        lemma_nothing_ahead_of_filled(queue, i - 1);
    }
}

/// A quantity of zero leaves the queue as it is.
pub proof fn lemma_fill_nothing(queue: Seq<Order>)
    ensures
        fill_queue(queue, 0) == queue,
        fill_rest(queue, 0) == 0,
{
}

/// Matching conserves volume up to any position: what the first `i` orders
/// lose is what the incoming quantity found ahead of position `i`.
pub proof fn lemma_fill_conserves_ahead(queue: Seq<Order>, incoming: nat, i: int)
    requires
        0 <= i <= queue.len(),
    ensures
        volume_ahead(fill_queue(queue, incoming), i) + incoming == volume_ahead(queue, i) + (
        if incoming <= volume_ahead(queue, i) {
            0
        } else {
            incoming - volume_ahead(queue, i)
        }),
    decreases i,
{
    if i > 0 {
        lemma_fill_conserves_ahead(queue, incoming, i - 1);
    }
}

/// Volume conservation: the quantity that the resting orders lose in a fill
/// is exactly the quantity that the incoming order loses.
pub proof fn lemma_fill_conserves_volume(queue: Seq<Order>, incoming: nat)
    ensures
        volume_of(fill_queue(queue, incoming)) <= volume_of(queue),
        fill_rest(queue, incoming) <= incoming,
        volume_of(queue) - volume_of(fill_queue(queue, incoming)) == incoming - fill_rest(
            queue,
            incoming,
        ),
{
    lemma_fill_conserves_ahead(queue, incoming, queue.len() as int);
}

/// An order only ever loses quantity in a fill, and keeps its side.
pub proof fn lemma_fill_only_shrinks(queue: Seq<Order>, incoming: nat, i: int)
    requires
        0 <= i < queue.len(),
    ensures
        fill_queue(queue, incoming).len() == queue.len(),
        fill_queue(queue, incoming)[i].size <= queue[i].size,
        fill_queue(queue, incoming)[i].order_type == queue[i].order_type,
        queue[i].size == 0 ==> fill_queue(queue, incoming)[i] == queue[i],
{
}

/// Time priority: an order loses quantity only if every order ahead of it
/// is filled, and the incoming quantity is used up unless the whole queue
/// is.
pub proof fn lemma_fill_is_first_in_first_out(queue: Seq<Order>, incoming: nat, i: int, j: int)
    requires
        0 <= i < j < queue.len(),
        fill_queue(queue, incoming)[j].size < queue[j].size,
    ensures
        fill_queue(queue, incoming)[i].size == 0,
{
    lemma_volume_ahead_grows(queue, i + 1, j);
}

/// Whether `k` is the first position of `queue` with quantity left, or its
/// length where every order is filled.
pub open spec fn is_first_open(queue: Seq<Order>, k: int) -> bool {
    &&& 0 <= k <= queue.len()
    &&& forall|j: int| 0 <= j < k ==> queue[j].size == 0
    &&& k < queue.len() ==> queue[k].size > 0
}

/// What a price level is: its price and the orders that arrived at it,
/// oldest first.
pub struct LimitView {
    pub price: Price,
    pub queue: Seq<Order>,
}

/// One price level of a book.
///
/// Orders are kept in arrival order and are never reordered. Orders at the
/// front that have been filled stay where they are and are passed over by
/// later fills.
#[derive(Debug)]
pub struct Limit {
    price: Price,
    orders: Vec<Order>,
    first_open: usize,
}

impl View for Limit {
    type V = LimitView;

    closed spec fn view(&self) -> LimitView {
        LimitView { price: self.price, queue: self.orders@ }
    }
}

impl Limit {
    /// The level's price is well formed and every order that later fills
    /// pass over is filled.
    pub closed spec fn wf(&self) -> bool {
        &&& self.price.wf()
        &&& self.first_open <= self.orders.len()
        &&& forall|j: int| 0 <= j < self.first_open ==> self.orders@[j].size == 0
    }

    /// The position from which fills start: the orders in front of it are
    /// filled and take no further part in matching.
    pub closed spec fn open_from(&self) -> int {
        self.first_open as int
    }

    /// What well-formedness means: the price is well formed and the orders
    /// that fills pass over are filled.
    pub proof fn lemma_wf(&self)
        requires
            self.wf(),
        ensures
            self@.price.wf(),
            0 <= self.open_from() <= self@.queue.len(),
            forall|j: int| 0 <= j < self.open_from() ==> self@.queue[j].size == 0,
    {
    }

    /// The quantity open at this level.
    pub open spec fn volume_spec(&self) -> nat {
        volume_of(self@.queue)
    }

    /// An empty level at `price`.
    pub fn new(price: Price) -> (limit: Limit)
        requires
            price.wf(),
        ensures
            limit.wf(),
            limit@ == (LimitView { price, queue: Seq::empty() }),
            limit.open_from() == 0,
    {
        Limit { price, orders: Vec::new(), first_open: 0 }
    }

    /// The price of this level.
    pub fn price(&self) -> (price: Price)
        ensures
            price == self@.price,
            self.wf() ==> price.wf(),
    {
        self.price
    }

    /// The position from which fills start.
    pub fn first_open(&self) -> (position: usize)
        ensures
            position == self.open_from(),
    {
        self.first_open
    }

    /// The orders of this level, oldest first. Filled orders keep their
    /// place.
    pub fn orders(&self) -> (orders: &Vec<Order>)
        ensures
            orders@ == self@.queue,
    {
        &self.orders
    }

    /// Queues `order` behind the orders that are already resting here.
    /// Nothing is matched.
    pub fn add(&mut self, order: Order)
        requires
            old(self).wf(),
        ensures
            final(self).wf(),
            final(self)@ == (LimitView {
                price: old(self)@.price,
                queue: old(self)@.queue.push(order),
            }),
            final(self).open_from() == old(self).open_from(),
    {
        self.orders.push(order);
    }

    /// The quantity open at this level.
    pub fn volume(&self) -> (total: u128)
        requires
            self.wf(),
        ensures
            total == self.volume_spec(),
    {
        let mut total: u128 = 0;
        let mut i: usize = self.first_open;
        proof {
            lemma_nothing_ahead_of_filled(self.orders@, i as int);
        }
        while i < self.orders.len()
            invariant
                i <= self.orders.len(),
                total == volume_ahead(self.orders@, i as int),
                total <= i * u64::MAX,
            decreases self.orders.len() - i,
        {
            total = total + self.orders[i].size as u128;
            i = i + 1;
        }
        total
    }

    /// Matches `market_order` against the orders resting here, oldest
    /// first. Each resting order in turn is used up while the incoming
    /// quantity covers it; the first one that it does not cover keeps the
    /// difference and the incoming order is then filled. Orders that are
    /// filled are left in place and excluded from later fills.
    pub fn fill(&mut self, market_order: &mut Order)
        requires
            old(self).wf(),
        ensures
            final(self).wf(),
            final(self)@.price == old(self)@.price,
            final(self)@.queue == fill_queue(old(self)@.queue, old(market_order).size as nat),
            *final(market_order) == old(market_order).with_size(
                fill_rest(old(self)@.queue, old(market_order).size as nat) as u64,
            ),
            old(self).volume_spec() - final(self).volume_spec()
                == old(market_order).size - final(market_order).size,
            is_first_open(final(self)@.queue, final(self).open_from()),
    {
        let ghost before = self.orders@;
        let ghost incoming = market_order.size as nat;
        let ghost side = market_order.order_type;
        let mut i: usize = self.first_open;
        proof {
            lemma_nothing_ahead_of_filled(before, i as int);
        }
        while i < self.orders.len() && market_order.size > 0
            invariant
                self.price == old(self).price,
                self.first_open <= i <= self.orders.len(),
                self.orders@.len() == before.len(),
                market_order.order_type == side,
                market_order.size <= incoming,
                self.orders@ == fill_queue(before, (incoming - market_order.size) as nat),
                incoming - market_order.size <= volume_of(before),
                market_order.size > 0 ==> incoming - market_order.size == volume_ahead(
                    before,
                    i as int,
                ),
                forall|j: int| 0 <= j < i ==> self.orders@[j].size == 0,
            decreases self.orders.len() - i, market_order.size,
        {
            let resting: u64 = self.orders[i].size;
            let resting_side: OrderType = self.orders[i].order_type;
            proof {
                lemma_volume_ahead_grows(before, i as int + 1, before.len() as int);
            }
            if market_order.size >= resting {
                market_order.size = market_order.size - resting;
                self.orders.set(i, Order { size: 0, order_type: resting_side });
                proof {
                    let now = (incoming - market_order.size) as nat;
                    assert forall|j: int| 0 <= j < before.len() implies self.orders@[j]
                        == #[trigger] fill_queue(before, now)[j] by {
                        if j > i {
                            lemma_volume_ahead_grows(before, i as int + 1, j);
                        }
                    }
                }
                i = i + 1;
            } else {
                self.orders.set(
                    i,
                    Order { size: resting - market_order.size, order_type: resting_side },
                );
                market_order.size = 0;
                proof {
                    assert forall|j: int| 0 <= j < before.len() implies self.orders@[j]
                        == #[trigger] fill_queue(before, incoming)[j] by {
                        if j > i {
                            lemma_volume_ahead_grows(before, i as int + 1, j);
                        }
                    }
                }
            }
        }
        while i < self.orders.len() && self.orders[i].size == 0
            invariant
                i <= self.orders.len(),
                forall|j: int| 0 <= j < i ==> self.orders@[j].size == 0,
            decreases self.orders.len() - i,
        {
            i = i + 1;
        }
        self.first_open = i;
        proof {
            let used = (incoming - market_order.size) as nat;
            if market_order.size > 0 {
                assert(fill_queue(before, used) =~= fill_queue(before, incoming));
            }
            lemma_fill_conserves_volume(before, incoming);
        }
    }
}

} // verus!
