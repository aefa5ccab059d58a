use matching::{Order, OrderType, Price, SCALAR};
use std::cmp::Ordering;

#[test]
fn price_of_a_whole_value() {
    let p = Price::new(1000, 1);
    assert_eq!(p.integral(), 1000);
    assert_eq!(p.fractional(), 0);
    assert_eq!(p.scalar(), 100000);
    assert_eq!(SCALAR, 100000);
}

#[test]
fn price_keeps_five_decimal_places() {
    let p = Price::new(123456789, 1000000);
    assert_eq!(p.integral(), 123);
    assert_eq!(p.fractional(), 45678);
}

#[test]
fn price_truncates_and_does_not_round() {
    let p = Price::new(2, 3);
    assert_eq!(p.integral(), 0);
    assert_eq!(p.fractional(), 66666);
    let q = Price::new(1999999, 1000000);
    assert_eq!(q.integral(), 1);
    assert_eq!(q.fractional(), 99999);
}

#[test]
fn price_of_the_largest_inputs() {
    let p = Price::new(u64::MAX, 1);
    assert_eq!(p.integral(), u64::MAX);
    assert_eq!(p.fractional(), 0);
    let q = Price::new(u64::MAX - 1, u64::MAX);
    assert_eq!(q.integral(), 0);
    assert_eq!(q.fractional(), 99999);
}

#[test]
fn price_construction_is_deterministic() {
    assert_eq!(Price::new(7, 4), Price::new(7, 4));
    assert_eq!(Price::new(7, 4), Price::new(175, 100));
    assert_eq!(Price::new(7, 4).cmp(&Price::new(7, 4)), Ordering::Equal);
}

#[test]
fn price_round_trip_is_within_one_unit() {
    let cases: [(u64, u64); 5] = [(1, 3), (22, 7), (1000, 1), (5, 1000000), (99999, 100000)];
    for (n, d) in cases {
        let p = Price::new(n, d);
        let ticks = p.integral() as u128 * 100000 + p.fractional() as u128;
        assert!(ticks * d as u128 <= n as u128 * 100000);
        assert!((n as u128) * 100000 < (ticks + 1) * d as u128);
    }
}

#[test]
fn price_from_parts_wants_a_proper_fraction() {
    let p = Price::from_parts(12, 99999).unwrap();
    assert_eq!(p.integral(), 12);
    assert_eq!(p.fractional(), 99999);
    assert_eq!(p.scalar(), 100000);
    assert!(Price::from_parts(12, 100000).is_none());
    assert!(Price::from_parts(0, u64::MAX).is_none());
    assert_eq!(Price::from_parts(3, 50000).unwrap(), Price::new(7, 2));
}

#[test]
fn price_order_is_by_whole_then_fraction() {
    let a = Price::new(100, 1);
    let b = Price::new(1005, 10);
    let c = Price::new(101, 1);
    assert_eq!(a.cmp(&b), Ordering::Less);
    assert_eq!(b.cmp(&a), Ordering::Greater);
    assert_eq!(b.cmp(&c), Ordering::Less);
    assert_eq!(c.cmp(&b), Ordering::Greater);
    assert_eq!(c.cmp(&c), Ordering::Equal);
    assert!(a < b);
    assert!(c > b);
    assert!(a <= a);
    assert!(a != b);
    assert_eq!(a.partial_cmp(&b), Some(Ordering::Less));
}

#[test]
fn price_default_is_zero() {
    let p = Price::default();
    assert_eq!(p.integral(), 0);
    assert_eq!(p.fractional(), 0);
    assert_eq!(p.scalar(), 100000);
    assert_eq!(p, Price::new(0, 5));
}

#[test]
fn price_distance_is_signed() {
    let a = Price::new(100, 1);
    let b = Price::new(181, 2);
    assert_eq!(a.distance(&b), 950000);
    assert_eq!(b.distance(&a), -950000);
    assert_eq!(a.distance(&a), 0);
    let top = Price::new(u64::MAX, 1);
    let zero = Price::default();
    assert_eq!(zero.distance(&top), -(u64::MAX as i128) * 100000);
}

#[test]
fn order_is_filled_only_at_zero() {
    let o = Order::new(OrderType::Bid, 100);
    assert_eq!(o.size, 100);
    assert_eq!(o.order_type, OrderType::Bid);
    assert!(!o.is_filled());
    assert!(Order::new(OrderType::Ask, 0).is_filled());
    assert!(!Order::new(OrderType::Ask, 1).is_filled());
}

#[test]
fn price_total_order_agrees_with_cmp() {
    let prices = [
        Price::new(100, 1),
        Price::new(1005, 10),
        Price::new(101, 1),
        Price::new(0, 1),
        Price::new(1005, 10),
    ];
    for a in prices {
        for b in prices {
            assert_eq!(Ord::cmp(&a, &b), a.cmp(&b));
            assert_eq!(PartialOrd::partial_cmp(&a, &b), Some(a.cmp(&b)));
            assert_eq!(a == b, a.cmp(&b) == Ordering::Equal);
        }
    }
    let mut sorted = prices.to_vec();
    sorted.sort();
    let whole: Vec<u64> = sorted.iter().map(|p| p.integral()).collect();
    assert_eq!(whole, vec![0, 100, 100, 100, 101]);
    assert_eq!(std::cmp::max(prices[0], prices[2]), prices[2]);
}

#[test]
fn price_from_whole_units() {
    let p = Price::from(1000);
    assert_eq!(p.integral(), 1000);
    assert_eq!(p.fractional(), 0);
    assert_eq!(p.scalar(), 100000);
    assert_eq!(p, Price::new(1000, 1));
    assert_eq!(Price::from(0), Price::default());
    assert_eq!(Price::from(u64::MAX).integral(), u64::MAX);
}

#[test]
fn price_from_is_deterministic_in_every_part() {
    for x in [0u64, 1, 99999, 100000, u64::MAX] {
        let a = Price::from(x);
        let b = Price::from(x);
        assert_eq!(a, b);
        assert_eq!(a.integral(), b.integral());
        assert_eq!(a.fractional(), b.fractional());
        assert_eq!(a.scalar(), b.scalar());
    }
    let a = Price::new(22, 7);
    let b = Price::new(22, 7);
    assert_eq!((a.integral(), a.fractional(), a.scalar()), (b.integral(), b.fractional(), b.scalar()));
}
