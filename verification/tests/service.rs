use matching::service::{
    add_order, get_spread, parse_order_type, AddOrderError, SpreadError, StatusCode,
};
use matching::{Engine, OrderBook, OrderType, Price, TradingPair};

fn engine_with(symbol: &str) -> Engine {
    let mut engine = Engine::new();
    engine.add_orderbook(
        TradingPair::new(symbol.to_string(), "USD".to_string()),
        OrderBook::new(),
    );
    engine
}

#[test]
fn side_is_read_letter_for_letter() {
    assert_eq!(parse_order_type(&"Bid".to_string()), Some(OrderType::Bid));
    assert_eq!(parse_order_type(&"Ask".to_string()), Some(OrderType::Ask));
    assert_eq!(parse_order_type(&"bid".to_string()), None);
    assert_eq!(parse_order_type(&"ASK".to_string()), None);
    assert_eq!(parse_order_type(&"".to_string()), None);
    assert_eq!(parse_order_type(&"Bid ".to_string()), None);
}

#[test]
fn add_order_queues_in_the_book_quoted_in_usd() {
    let mut engine = engine_with("BTC");
    let added = add_order(&mut engine, "BTC".to_string(), &"Ask".to_string(), Some(10), Price::new(203, 2));
    assert_eq!(added, Ok(()));
    let pair = TradingPair::new("BTC".to_string(), "USD".to_string());
    let book = engine.orderbook(&pair).unwrap();
    assert_eq!(book.ask_limits().len(), 1);
    assert_eq!(book.ask_limits()[0].price(), Price::new(203, 2));
    assert_eq!(book.ask_limits()[0].orders()[0].size, 10);
    assert_eq!(book.ask_limits()[0].orders()[0].order_type, OrderType::Ask);
    assert_eq!(book.bid_limits().len(), 0);
}

#[test]
fn add_order_refuses_an_unknown_side() {
    let mut engine = engine_with("BTC");
    let added = add_order(&mut engine, "BTC".to_string(), &"Buy".to_string(), Some(10), Price::new(1, 1));
    assert_eq!(added, Err(AddOrderError::InvalidOrderType));
    let pair = TradingPair::new("BTC".to_string(), "USD".to_string());
    let book = engine.orderbook(&pair).unwrap();
    assert_eq!(book.ask_limits().len(), 0);
    assert_eq!(book.bid_limits().len(), 0);
}

#[test]
fn add_order_reads_the_side_before_it_looks_for_the_book() {
    let mut engine = Engine::new();
    let added = add_order(&mut engine, "BTC".to_string(), &"Buy".to_string(), Some(10), Price::new(1, 1));
    assert_eq!(added, Err(AddOrderError::InvalidOrderType));
}

#[test]
fn add_order_refuses_an_unregistered_instrument() {
    let mut engine = engine_with("BTC");
    let added = add_order(&mut engine, "ETH".to_string(), &"Bid".to_string(), Some(10), Price::new(1, 1));
    assert_eq!(added, Err(AddOrderError::OrderBookNotFound));
    assert!(!engine.contains(&TradingPair::new("ETH".to_string(), "USD".to_string())));
}

#[test]
fn spread_of_a_registered_instrument() {
    let mut engine = engine_with("BTC");
    assert_eq!(get_spread(&engine, "BTC".to_string()), Err(SpreadError::NoSpread));
    assert!(add_order(&mut engine, "BTC".to_string(), &"Ask".to_string(), Some(1), Price::new(100, 1)).is_ok());
    assert_eq!(get_spread(&engine, "BTC".to_string()), Err(SpreadError::NoSpread));
    assert!(add_order(&mut engine, "BTC".to_string(), &"Bid".to_string(), Some(1), Price::new(90, 1)).is_ok());
    assert_eq!(get_spread(&engine, "BTC".to_string()), Ok(1000000));
    assert_eq!(get_spread(&engine, "ETH".to_string()), Err(SpreadError::OrderBookNotFound));
}

#[test]
fn a_spread_of_zero_is_a_spread() {
    let mut engine = engine_with("BTC");
    assert!(add_order(&mut engine, "BTC".to_string(), &"Ask".to_string(), Some(1), Price::new(100, 1)).is_ok());
    assert!(add_order(&mut engine, "BTC".to_string(), &"Bid".to_string(), Some(1), Price::new(100, 1)).is_ok());
    assert_eq!(get_spread(&engine, "BTC".to_string()), Ok(0));
}

#[test]
fn refusals_have_a_class_and_words() {
    assert_eq!(AddOrderError::InvalidOrderType.code(), StatusCode::InvalidArgument);
    assert_eq!(AddOrderError::InvalidOrderType.message(), "Invalid order type");
    assert_eq!(AddOrderError::InvalidOrderSize.code(), StatusCode::InvalidArgument);
    assert_eq!(AddOrderError::InvalidOrderSize.message(), "Invalid order size");
    assert_eq!(AddOrderError::OrderBookNotFound.code(), StatusCode::NotFound);
    assert_eq!(AddOrderError::OrderBookNotFound.message(), "Orderbook does not exist");
    assert_eq!(SpreadError::OrderBookNotFound.code(), StatusCode::NotFound);
    assert_eq!(SpreadError::OrderBookNotFound.message(), "Orderbook not found");
    assert_eq!(SpreadError::NoSpread.code(), StatusCode::NotFound);
    assert_eq!(SpreadError::NoSpread.message(), "No spread available");
}

#[test]
fn an_unknown_pair_is_answered_as_not_found() {
    let mut engine = engine_with("BTC");
    let added = add_order(&mut engine, "ETH".to_string(), &"Ask".to_string(), Some(1), Price::from(1));
    assert_eq!(added.unwrap_err().code(), StatusCode::NotFound);
    assert_eq!(get_spread(&engine, "ETH".to_string()).unwrap_err().code(), StatusCode::NotFound);
}

#[test]
fn add_order_refuses_a_quantity_that_is_not_whole_lots() {
    let mut engine = engine_with("BTC");
    let added = add_order(&mut engine, "BTC".to_string(), &"Bid".to_string(), None, Price::from(1));
    assert_eq!(added, Err(AddOrderError::InvalidOrderSize));
    let pair = TradingPair::new("BTC".to_string(), "USD".to_string());
    assert_eq!(engine.orderbook(&pair).unwrap().bid_limits().len(), 0);
    let unknown = add_order(&mut engine, "ETH".to_string(), &"Bid".to_string(), None, Price::from(1));
    assert_eq!(unknown, Err(AddOrderError::InvalidOrderSize));
    let both = add_order(&mut engine, "BTC".to_string(), &"Buy".to_string(), None, Price::from(1));
    assert_eq!(both, Err(AddOrderError::InvalidOrderType));
}

#[test]
fn add_order_takes_a_quantity_of_zero() {
    let mut engine = engine_with("BTC");
    let added = add_order(&mut engine, "BTC".to_string(), &"Bid".to_string(), Some(0), Price::from(1));
    assert_eq!(added, Ok(()));
    let pair = TradingPair::new("BTC".to_string(), "USD".to_string());
    assert_eq!(engine.orderbook(&pair).unwrap().bid_limits()[0].orders()[0].size, 0);
}
