use matching::{Engine, EngineError, Order, OrderBook, OrderType, Price, TradingPair};

fn pair(base: &str, quote: &str) -> TradingPair {
    TradingPair::new(base.to_string(), quote.to_string())
}

#[test]
fn limit_order_for_an_unregistered_pair_is_refused() {
    let mut engine = Engine::new();
    let placed = engine.place_limit_order(
        pair("BTC", "USD"),
        Price::new(100, 1),
        Order::new(OrderType::Bid, 100),
    );
    assert_eq!(placed, Err(EngineError::OrderBookNotFound));
    assert!(!engine.contains(&pair("BTC", "USD")));
    assert!(engine.orderbook(&pair("BTC", "USD")).is_none());
}

#[test]
fn limit_order_is_routed_to_the_book_of_its_pair() {
    let mut engine = Engine::new();
    engine.add_orderbook(pair("BTC", "USD"), OrderBook::new());
    engine.add_orderbook(pair("ETH", "USD"), OrderBook::new());
    let placed = engine.place_limit_order(
        pair("ETH", "USD"),
        Price::new(100, 1),
        Order::new(OrderType::Bid, 100),
    );
    assert_eq!(placed, Ok(()));
    let eth = engine.orderbook(&pair("ETH", "USD")).unwrap();
    assert_eq!(eth.bid_limits().len(), 1);
    assert_eq!(eth.bid_limits()[0].price(), Price::new(100, 1));
    assert_eq!(eth.bid_limits()[0].orders()[0].size, 100);
    assert_eq!(eth.ask_limits().len(), 0);
    let btc = engine.orderbook(&pair("BTC", "USD")).unwrap();
    assert_eq!(btc.bid_limits().len(), 0);
    assert_eq!(btc.ask_limits().len(), 0);
}

#[test]
fn limit_order_through_the_engine_is_never_matched() {
    let mut engine = Engine::new();
    engine.add_orderbook(pair("BTC", "USD"), OrderBook::new());
    assert!(engine
        .place_limit_order(pair("BTC", "USD"), Price::new(100, 1), Order::new(OrderType::Ask, 5))
        .is_ok());
    assert!(engine
        .place_limit_order(pair("BTC", "USD"), Price::new(200, 1), Order::new(OrderType::Bid, 5))
        .is_ok());
    let book = engine.orderbook(&pair("BTC", "USD")).unwrap();
    assert_eq!(book.ask_limits()[0].volume(), 5);
    assert_eq!(book.bid_limits()[0].volume(), 5);
    assert_eq!(book.spread(), Some(-100 * 100000));
}

#[test]
fn first_registration_wins() {
    let mut first = OrderBook::new();
    first.add(Order::new(OrderType::Bid, 7), Price::new(10, 1));
    let mut second = OrderBook::new();
    second.add(Order::new(OrderType::Ask, 9), Price::new(20, 1));

    let mut engine = Engine::new();
    engine.add_orderbook(pair("BTC", "USD"), first);
    engine.add_orderbook(pair("BTC", "USD"), second);

    let book = engine.orderbook(&pair("BTC", "USD")).unwrap();
    assert_eq!(book.bid_limits().len(), 1);
    assert_eq!(book.bid_limits()[0].orders()[0].size, 7);
    assert_eq!(book.ask_limits().len(), 0);
}

#[test]
fn pairs_are_told_apart_letter_for_letter() {
    let mut engine = Engine::new();
    engine.add_orderbook(pair("BTC", "USD"), OrderBook::new());
    assert!(engine.contains(&pair("BTC", "USD")));
    assert!(!engine.contains(&pair("btc", "USD")));
    assert!(!engine.contains(&pair("BTC", "usd")));
    assert!(!engine.contains(&pair("USD", "BTC")));
    assert!(!engine.contains(&pair("BTCU", "SD")));
}

#[test]
fn market_order_through_the_engine() {
    let mut engine = Engine::new();
    engine.add_orderbook(pair("BTC", "USD"), OrderBook::new());
    assert!(engine
        .place_limit_order(pair("BTC", "USD"), Price::new(100, 1), Order::new(OrderType::Ask, 5))
        .is_ok());
    let mut market = Order::new(OrderType::Bid, 3);
    assert_eq!(engine.place_market_order(pair("BTC", "USD"), &mut market), Ok(()));
    assert!(market.is_filled());
    let book = engine.orderbook(&pair("BTC", "USD")).unwrap();
    assert_eq!(book.ask_limits()[0].volume(), 2);

    let mut lost = Order::new(OrderType::Bid, 3);
    assert_eq!(
        engine.place_market_order(pair("ETH", "USD"), &mut lost),
        Err(EngineError::OrderBookNotFound)
    );
    assert_eq!(lost.size, 3);
    assert!(!engine.contains(&pair("ETH", "USD")));
}

#[test]
fn error_in_words() {
    assert_eq!(EngineError::OrderBookNotFound.message(), "Orderbook does not exist");
}

#[test]
fn trading_pair_as_text() {
    let p = pair("BTC", "USD");
    assert_eq!(p.symbol(), "BTC/USD");
    assert_eq!(p.base(), "BTC");
    assert_eq!(p.quote(), "USD");
    assert_eq!(pair("", "").symbol(), "/");
}

#[test]
fn trading_pair_from_a_tuple() {
    let p = TradingPair::from(("BTC".to_string(), "USD".to_string()));
    assert_eq!(p, pair("BTC", "USD"));
    assert!(p != pair("BTC", "EUR"));
    assert_eq!(p.clone(), p);
}
