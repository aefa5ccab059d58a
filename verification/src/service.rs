//! The rules of the service boundary: how a request that names a symbol and
//! a side becomes an order, and how each outcome is answered.
//!
//! Nothing here waits or talks to anyone. A caller that owns the engine
//! hands it in, together with the plain values of the request, and sends
//! back whatever comes out.

use crate::engine::Engine;
use crate::order::{Order, OrderType};
use crate::orderbook::{book_with_order, spread_of, OrderBookView};
use crate::pair::{Instrument, TradingPair};
use crate::price::Price;
use vstd::prelude::*;
use vstd::string::StringExecFns;

verus! {

/// The class of a refusal, as the caller reports it.
#[derive(Debug, Clone, Copy, PartialEq, Eq, Structural)]
pub enum StatusCode {
    InvalidArgument,
    NotFound,
}

/// Why an order was not added.
#[derive(Debug, Clone, Copy, PartialEq, Eq, Structural)]
pub enum AddOrderError {
    /// The request names a side that is neither `Bid` nor `Ask`.
    InvalidOrderType,
    /// The quantity of the request is not a whole number of lots.
    InvalidOrderSize,
    /// No book is registered for the instrument.
    OrderBookNotFound,
}

/// Why no spread was given.
#[derive(Debug, Clone, Copy, PartialEq, Eq, Structural)]
pub enum SpreadError {
    /// No book is registered for the instrument.
    OrderBookNotFound,
    /// The book has no level on one of its sides.
    NoSpread,
}

impl AddOrderError {
    /// The class under which the refusal is reported: a request that is
    /// malformed is an invalid argument, and an instrument without a book is
    /// something not found.
    pub open spec fn class(self) -> StatusCode {
        match self {
            AddOrderError::InvalidOrderType => StatusCode::InvalidArgument,
            AddOrderError::InvalidOrderSize => StatusCode::InvalidArgument,
            AddOrderError::OrderBookNotFound => StatusCode::NotFound,
        }
    }

    /// The class under which the refusal is reported.
    pub fn code(&self) -> (code: StatusCode)
        ensures
            code == self.class(),
    {
        match self {
            AddOrderError::InvalidOrderType => StatusCode::InvalidArgument,
            AddOrderError::InvalidOrderSize => StatusCode::InvalidArgument,
            AddOrderError::OrderBookNotFound => StatusCode::NotFound,
        }
    }

    /// The refusal in words.
    pub fn message(&self) -> (text: &'static str)
        ensures
            text@ == match *self {
                AddOrderError::InvalidOrderType => "Invalid order type"@,
                AddOrderError::InvalidOrderSize => "Invalid order size"@,
                AddOrderError::OrderBookNotFound => "Orderbook does not exist"@,
            },
    {
        match self {
            AddOrderError::InvalidOrderType => "Invalid order type",
            AddOrderError::InvalidOrderSize => "Invalid order size",
            AddOrderError::OrderBookNotFound => "Orderbook does not exist",
        }
    }
}

impl SpreadError {
    /// The class under which the refusal is reported: a missing spread is
    /// something not found, never a spread of zero.
    pub fn code(&self) -> (code: StatusCode)
        ensures
            code == StatusCode::NotFound,
    {
        StatusCode::NotFound
    }

    /// The refusal in words.
    pub fn message(&self) -> (text: &'static str)
        ensures
            text@ == match *self {
                SpreadError::OrderBookNotFound => "Orderbook not found"@,
                SpreadError::NoSpread => "No spread available"@,
            },
    {
        match self {
            SpreadError::OrderBookNotFound => "Orderbook not found",
            SpreadError::NoSpread => "No spread available",
        }
    }
}

/// The side that a request names, if it names one.
pub open spec fn side_named(text: Seq<char>) -> Option<OrderType> {
    if text == "Bid"@ {
        Some(OrderType::Bid)
    } else if text == "Ask"@ {
        Some(OrderType::Ask)
    } else {
        None
    }
}

/// The instrument that a request names: its symbol, quoted in USD.
pub open spec fn instrument_named(symbol: Seq<char>) -> Instrument {
    (symbol, "USD"@)
}

/// What adding an order does to the registry: nothing unless the request is
/// answered with success, and then the order is queued in the book of its
/// instrument.
pub open spec fn registry_after_order(
    registry: Map<Instrument, OrderBookView>,
    symbol: Seq<char>,
    side: Seq<char>,
    size: Option<u64>,
    price: Price,
) -> Map<Instrument, OrderBookView> {
    let instrument = instrument_named(symbol);
    if add_order_answer(registry, symbol, side, size).is_ok() {
        registry.insert(
            instrument,
            book_with_order(
                registry[instrument],
                Order { size: size.unwrap(), order_type: side_named(side).unwrap() },
                price,
            ),
        )
    } else {
        registry
    }
}

/// How a request to add an order is answered: the side is looked at first,
/// then the quantity, then the instrument.
pub open spec fn add_order_answer(
    registry: Map<Instrument, OrderBookView>,
    symbol: Seq<char>,
    side: Seq<char>,
    size: Option<u64>,
) -> Result<(), AddOrderError> {
    if side_named(side).is_none() {
        Err(AddOrderError::InvalidOrderType)
    } else if size.is_none() {
        Err(AddOrderError::InvalidOrderSize)
    } else if !registry.contains_key(instrument_named(symbol)) {
        Err(AddOrderError::OrderBookNotFound)
    } else {
        Ok(())
    }
}

/// A well-formed request for an instrument without a book is answered as
/// not found, and in no other case is an order refused as not found. A
/// request that is refused leaves the registry as it was.
pub proof fn lemma_unknown_instrument_is_not_found(
    registry: Map<Instrument, OrderBookView>,
    symbol: Seq<char>,
    side: Seq<char>,
    size: Option<u64>,
    price: Price,
)
    ensures
        (side_named(side).is_some() && size.is_some() && !registry.contains_key(
            instrument_named(symbol),
        )) <==> (add_order_answer(registry, symbol, side, size).is_err() && add_order_answer(
            registry,
            symbol,
            side,
            size,
        ).unwrap_err().class() == StatusCode::NotFound),
        add_order_answer(registry, symbol, side, size).is_err() ==> registry_after_order(
            registry,
            symbol,
            side,
            size,
            price,
        ) == registry,
{
}

/// How a request for a spread is answered.
pub open spec fn spread_answer(
    registry: Map<Instrument, OrderBookView>,
    symbol: Seq<char>,
) -> Result<int, SpreadError> {
    let instrument = instrument_named(symbol);
    if !registry.contains_key(instrument) {
        Err(SpreadError::OrderBookNotFound)
    } else {
        match spread_of(registry[instrument]) {
            Some(spread) => Ok(spread),
            None => Err(SpreadError::NoSpread),
        }
    }
}

/// Reads the side of an order: `Bid` or `Ask`, spelled exactly so.
pub fn parse_order_type(text: &String) -> (side: Option<OrderType>)
    ensures
        side == side_named(text@),
{
    if *text == String::from_str("Bid") {
        Some(OrderType::Bid)
    } else if *text == String::from_str("Ask") {
        Some(OrderType::Ask)
    } else {
        None
    }
}

/// Adds a limit order of `size` lots at `price` for the instrument that
/// `trading_pair` names. `size` is `None` where the quantity of the request
/// is not a whole number of lots. The side is read first, then the
/// quantity; an order for an instrument without a book is refused.
pub fn add_order(
    engine: &mut Engine,
    trading_pair: String,
    order_type: &String,
    size: Option<u64>,
    price: Price,
) -> (added: Result<(), AddOrderError>)
    requires
        old(engine).wf(),
        price.wf(),
    ensures
        final(engine).wf(),
        added == add_order_answer(old(engine)@, trading_pair@, order_type@, size),
        final(engine)@ == registry_after_order(
            old(engine)@,
            trading_pair@,
            order_type@,
            size,
            price,
        ),
{
    let side = match parse_order_type(order_type) {
        Some(side) => side,
        None => {
            return Err(AddOrderError::InvalidOrderType);
        },
    };
    let lots = match size {
        Some(lots) => lots,
        None => {
            return Err(AddOrderError::InvalidOrderSize);
        },
    };
    let pair = TradingPair::new(trading_pair, String::from_str("USD"));
    let order = Order::new(side, lots);
    match engine.place_limit_order(pair, price, order) {
        Ok(_) => Ok(()),
        Err(_) => Err(AddOrderError::OrderBookNotFound),
    }
}

/// The spread of the instrument that `trading_pair` names, in fractional
/// units of price.
pub fn get_spread(engine: &Engine, trading_pair: String) -> (spread: Result<i128, SpreadError>)
    requires
        engine.wf(),
    ensures
        match (spread, spread_answer(engine@, trading_pair@)) {
            (Ok(given), Ok(owed)) => given == owed,
            (Err(given), Err(owed)) => given == owed,
            _ => false,
        },
{
    let pair = TradingPair::new(trading_pair, String::from_str("USD"));
    match engine.orderbook(&pair) {
        Some(orderbook) => match orderbook.spread() {
            Some(spread) => Ok(spread),
            None => Err(SpreadError::NoSpread),
        },
        None => Err(SpreadError::OrderBookNotFound),
    }
}

} // verus!
