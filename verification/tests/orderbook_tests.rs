use rand::Rng;
use trading_core::orderbook::{BookError, Orderbook, RestingOrder, RestingOrderType};

#[test]
fn test_insert_order_orderbook() {
    let mut orderbook = Orderbook::new();

    let resting_order_bid = RestingOrder { price: 10, size: 5, ts: 1_000_000 };

    let resting_order_ask = RestingOrder { price: 9, size: 10, ts: 1_000_100 };

    orderbook.insert_order(RestingOrderType::BidOrder(resting_order_bid));
    orderbook.insert_order(RestingOrderType::AskOrder(resting_order_ask));

    assert_eq!(orderbook.asks.len(), 1);
    assert_eq!(orderbook.bids.len(), 1);
    assert_eq!(orderbook.last_update_time, 1_000_100)
}

#[test]
fn test_get_ask_orderbook() {
    let mut orderbook = Orderbook::new();
    let mut rng = rand::thread_rng();

    let resting_order_ask_1 = RestingOrder {
        price: rng.gen::<u64>(),
        size: rng.gen::<u32>(),
        ts: rng.gen::<u64>(),
    };

    let resting_order_ask_2 = RestingOrder {
        price: rng.gen::<u64>(),
        size: rng.gen::<u32>(),
        ts: rng.gen::<u64>(),
    };

    let test_copy_1 = resting_order_ask_1.clone();
    let test_copy_2 = resting_order_ask_2.clone();

    orderbook.insert_order(RestingOrderType::AskOrder(resting_order_ask_1));
    orderbook.insert_order(RestingOrderType::AskOrder(resting_order_ask_2));

    let ask = orderbook.get_ask().unwrap();

    if test_copy_1.price > test_copy_2.price {
        assert_eq!(ask, test_copy_2);
    } else {
        assert_eq!(ask, test_copy_1)
    }
}

#[test]
fn test_get_bid_orderbook() {
    let mut orderbook = Orderbook::new();
    let mut rng = rand::thread_rng();

    let resting_order_bid_1 = RestingOrder {
        price: rng.gen::<u64>(),
        size: rng.gen::<u32>(),
        ts: rng.gen::<u64>(),
    };

    let resting_order_bid_2 = RestingOrder {
        price: rng.gen::<u64>(),
        size: rng.gen::<u32>(),
        ts: rng.gen::<u64>(),
    };

    let test_copy_1 = resting_order_bid_1.clone();
    let test_copy_2 = resting_order_bid_2.clone();

    orderbook.insert_order(RestingOrderType::BidOrder(resting_order_bid_1));
    orderbook.insert_order(RestingOrderType::BidOrder(resting_order_bid_2));

    let bid = orderbook.get_bid().unwrap();

    if test_copy_1.price > test_copy_2.price {
        assert_eq!(bid, test_copy_1);
    } else {
        assert_eq!(bid, test_copy_2)
    }
}

#[test]
fn test_get_bids_orderbook() {
    let mut orderbook = Orderbook::new();
    let mut rng = rand::thread_rng();

    let resting_order_bid_1 = RestingOrder {
        price: rng.gen::<u64>(),
        size: rng.gen::<u32>(),
        ts: rng.gen::<u64>(),
    };

    let resting_order_bid_2 = RestingOrder {
        price: rng.gen::<u64>(),
        size: rng.gen::<u32>(),
        ts: rng.gen::<u64>(),
    };

    orderbook.insert_order(RestingOrderType::BidOrder(resting_order_bid_1));
    orderbook.insert_order(RestingOrderType::BidOrder(resting_order_bid_2));

    let bids = orderbook.get_bids();
    let should_be_bids = &orderbook.bids;

    assert_eq!(&bids, should_be_bids);
}

#[test]
fn test_get_asks_orderbook() {
    let mut orderbook = Orderbook::new();
    let mut rng = rand::thread_rng();

    let resting_order_ask_1 = RestingOrder {
        price: rng.gen::<u64>(),
        size: rng.gen::<u32>(),
        ts: rng.gen::<u64>(),
    };

    let resting_order_ask_2 = RestingOrder {
        price: rng.gen::<u64>(),
        size: rng.gen::<u32>(),
        ts: rng.gen::<u64>(),
    };

    orderbook.insert_order(RestingOrderType::AskOrder(resting_order_ask_1));
    orderbook.insert_order(RestingOrderType::AskOrder(resting_order_ask_2));

    let asks = orderbook.get_asks();
    let should_be_asks = &orderbook.asks;

    assert_eq!(&asks, should_be_asks);
}

#[test]
fn test_safety_check_size_orderbook() {
    let mut orderbook = Orderbook::new();

    let resting_order_ask = RestingOrder { price: 11, size: 10, ts: 1_000_000 };

    let resting_order_bid = RestingOrder { price: 10, size: 100, ts: 1_000_200 };

    orderbook.insert_order(RestingOrderType::BidOrder(resting_order_bid));
    orderbook.insert_order(RestingOrderType::AskOrder(resting_order_ask));
    // Bids Block
    assert_eq!(orderbook.safety_check_size(RestingOrderType::BidPrice(10), 110).unwrap(), false);
    assert_eq!(orderbook.safety_check_size(RestingOrderType::BidPrice(10), 95).unwrap(), true);
    assert_eq!(orderbook.safety_check_size(RestingOrderType::BidPrice(10), 100).unwrap(), true);
    // Asks Block
    assert_eq!(orderbook.safety_check_size(RestingOrderType::AskPrice(11), 11).unwrap(), false);
    assert_eq!(orderbook.safety_check_size(RestingOrderType::AskPrice(11), 9).unwrap(), true);
    assert_eq!(orderbook.safety_check_size(RestingOrderType::AskPrice(11), 10).unwrap(), true);
}

#[test]
fn test_get_mid_price_orderbook() {
    let mut orderbook = Orderbook::new();
    let mut rng = rand::thread_rng();

    let resting_order_ask = RestingOrder {
        price: rng.gen_range(50..100),
        size: 10,
        ts: 1_000_000,
    };

    let resting_order_ask_2 = RestingOrder {
        price: rng.gen_range(50..100),
        size: 10,
        ts: 1_000_000,
    };

    let resting_order_bid = RestingOrder {
        price: rng.gen_range(1..50),
        size: 100,
        ts: 1_000_200,
    };

    let resting_order_bid_2 = RestingOrder {
        price: rng.gen_range(1..50),
        size: 100,
        ts: 1_000_200,
    };

    let b1 = resting_order_bid.price;
    let b2 = resting_order_bid_2.price;
    let a1 = resting_order_ask.price;
    let a2 = resting_order_ask_2.price;

    let bid = u64::max(b1, b2);
    let ask = u64::min(a1, a2);

    // The mid-price comes back in half-ticks: twice the arithmetic mean.
    let result = (ask + bid) as u128;

    orderbook.insert_order(RestingOrderType::BidOrder(resting_order_bid));
    orderbook.insert_order(RestingOrderType::AskOrder(resting_order_ask));
    orderbook.insert_order(RestingOrderType::BidOrder(resting_order_bid_2));
    orderbook.insert_order(RestingOrderType::AskOrder(resting_order_ask_2));

    let mid_price = orderbook.get_mid_price().unwrap();

    assert_eq!(mid_price, result);
}

#[test]
fn test_get_ordebook_skew_orderbook() {
    let mut orderbook = Orderbook::new();
    let mut rng = rand::thread_rng();

    let resting_order_ask_2 = RestingOrder {
        price: rng.gen_range(50_000..100_000),
        size: rng.gen::<u32>(),
        ts: rng.gen::<u64>(),
    };

    let resting_order_ask = RestingOrder {
        price: rng.gen_range(50_000..100_000),
        size: rng.gen::<u32>(),
        ts: rng.gen::<u64>(),
    };

    let resting_order_bid = RestingOrder {
        price: rng.gen_range(100..49_900),
        size: rng.gen::<u32>(),
        ts: rng.gen::<u64>(),
    };

    let resting_order_bid_2 = RestingOrder {
        price: rng.gen_range(100..49_900),
        size: rng.gen::<u32>(),
        ts: rng.gen::<u64>(),
    };

    let b1 = resting_order_bid.size;
    let b2 = resting_order_bid_2.size;
    let a1 = resting_order_ask.size;
    let a2 = resting_order_ask_2.size;

    orderbook.insert_order(RestingOrderType::BidOrder(resting_order_bid));
    orderbook.insert_order(RestingOrderType::AskOrder(resting_order_ask));
    orderbook.insert_order(RestingOrderType::BidOrder(resting_order_bid_2));
    orderbook.insert_order(RestingOrderType::AskOrder(resting_order_ask_2));

    let anw = ((b1 as u64 + b2 as u64) as f64).ln() - ((a1 as u64 + a2 as u64) as f64).ln();

    // The verified core reports the two depths; the log-ratio is taken on top.
    let (bid_depth, ask_depth) = orderbook.get_side_depths();
    let skew = (bid_depth as f64).ln() - (ask_depth as f64).ln();

    assert_eq!(anw, skew);
}

#[test]
fn test_get_orderbook_spread_orderbook() {
    let mut orderbook = Orderbook::new();
    let mut rng = rand::thread_rng();

    let resting_order_ask = RestingOrder {
        price: rng.gen_range(50..100),
        size: rng.gen::<u32>(),
        ts: rng.gen::<u64>(),
    };

    let resting_order_bid = RestingOrder {
        price: rng.gen_range(1..50),
        size: rng.gen::<u32>(),
        ts: rng.gen::<u64>(),
    };

    let b1 = resting_order_bid.price;
    let a1 = resting_order_ask.price;

    orderbook.insert_order(RestingOrderType::BidOrder(resting_order_bid));
    orderbook.insert_order(RestingOrderType::AskOrder(resting_order_ask));

    let spread = orderbook.get_orderbook_spread().unwrap();
    let anw = a1 as i128 - b1 as i128;

    assert_eq!(anw, spread);
}

#[test]
fn best_bid_is_highest_and_best_ask_is_lowest() {
    let mut book = Orderbook::new();
    book.insert_order(RestingOrderType::BidOrder(RestingOrder { price: 9, size: 1, ts: 1 }));
    book.insert_order(RestingOrderType::BidOrder(RestingOrder { price: 10, size: 1, ts: 2 }));
    assert_eq!(book.get_bid().unwrap().price, 10);

    book.insert_order(RestingOrderType::AskOrder(RestingOrder { price: 9, size: 1, ts: 3 }));
    book.insert_order(RestingOrderType::AskOrder(RestingOrder { price: 10, size: 1, ts: 4 }));
    assert_eq!(book.get_ask().unwrap().price, 9);
}

#[test]
fn upsert_twice_same_level_is_idempotent() {
    let level = RestingOrder { price: 42, size: 7, ts: 900 };
    let other = RestingOrder { price: 40, size: 3, ts: 800 };

    let mut once = Orderbook::new();
    once.insert_order(RestingOrderType::BidOrder(other));
    once.insert_order(RestingOrderType::BidOrder(level));

    let mut twice = Orderbook::new();
    twice.insert_order(RestingOrderType::BidOrder(other));
    twice.insert_order(RestingOrderType::BidOrder(level));
    twice.insert_order(RestingOrderType::BidOrder(level));

    assert_eq!(once, twice);
}

#[test]
fn upsert_replaces_level_at_same_price() {
    let mut book = Orderbook::new();
    book.insert_order(RestingOrderType::BidOrder(RestingOrder { price: 42, size: 7, ts: 900 }));
    book.insert_order(RestingOrderType::BidOrder(RestingOrder { price: 42, size: 9, ts: 901 }));
    assert_eq!(book.bids.len(), 1);
    assert_eq!(book.get_bid().unwrap(), RestingOrder { price: 42, size: 9, ts: 901 });
}

#[test]
fn last_update_time_follows_most_recent_upsert() {
    let mut book = Orderbook::new();
    book.insert_order(RestingOrderType::BidOrder(RestingOrder { price: 10, size: 1, ts: 1_000 }));
    assert_eq!(book.last_update_time, 1_000);
    book.insert_order(RestingOrderType::AskOrder(RestingOrder { price: 11, size: 1, ts: 2_000 }));
    assert_eq!(book.last_update_time, 2_000);
    book.insert_order(RestingOrderType::BidOrder(RestingOrder { price: 9, size: 1, ts: 3_000 }));
    assert_eq!(book.last_update_time, 3_000);
}

#[test]
fn mid_price_and_spread_exact_scenario() {
    let mut book = Orderbook::new();
    book.insert_order(RestingOrderType::BidOrder(RestingOrder { price: 50, size: 100, ts: 1 }));
    book.insert_order(RestingOrderType::AskOrder(RestingOrder { price: 60, size: 10, ts: 2 }));
    // Mid-price 55.0 in ticks is 110 half-ticks, exactly.
    assert_eq!(book.get_mid_price().unwrap(), 110);
    assert_eq!(book.get_orderbook_spread().unwrap(), 10);
}

#[test]
fn skew_depths_formula_scenario() {
    let mut book = Orderbook::new();
    book.insert_order(RestingOrderType::BidOrder(RestingOrder { price: 10, size: 100, ts: 1 }));
    book.insert_order(RestingOrderType::BidOrder(RestingOrder { price: 11, size: 100, ts: 2 }));
    book.insert_order(RestingOrderType::AskOrder(RestingOrder { price: 20, size: 10, ts: 3 }));
    book.insert_order(RestingOrderType::AskOrder(RestingOrder { price: 21, size: 10, ts: 4 }));

    let (bid_depth, ask_depth) = book.get_side_depths();
    assert_eq!(bid_depth, 200);
    assert_eq!(ask_depth, 20);
    let skew = (bid_depth as f64).ln() - (ask_depth as f64).ln();
    assert_eq!(skew, (200f64).ln() - (20f64).ln());
}

#[test]
fn skew_depths_by_range_trims_each_side_toward_mid() {
    let mut book = Orderbook::new();
    book.insert_order(RestingOrderType::BidOrder(RestingOrder { price: 10, size: 5, ts: 1 }));
    book.insert_order(RestingOrderType::BidOrder(RestingOrder { price: 48, size: 7, ts: 2 }));
    book.insert_order(RestingOrderType::BidOrder(RestingOrder { price: 49, size: 9, ts: 3 }));
    book.insert_order(RestingOrderType::AskOrder(RestingOrder { price: 51, size: 11, ts: 4 }));
    book.insert_order(RestingOrderType::AskOrder(RestingOrder { price: 60, size: 13, ts: 5 }));
    book.insert_order(RestingOrderType::AskOrder(RestingOrder { price: 90, size: 17, ts: 6 }));

    // Mid is 50; with half-width 5 the window keeps bids at 45 or above
    // (48 and 49) and asks at 55 or below (51 only).
    let (bid_depth, ask_depth) = book.get_side_depths_by_range(5).unwrap();
    assert_eq!(bid_depth, 16);
    assert_eq!(ask_depth, 11);
}

#[test]
fn window_bounds_are_exact_at_half_ticks() {
    let mut book = Orderbook::new();
    book.insert_order(RestingOrderType::BidOrder(RestingOrder { price: 49, size: 3, ts: 1 }));
    book.insert_order(RestingOrderType::AskOrder(RestingOrder { price: 52, size: 5, ts: 2 }));
    // Mid is 50.5 (101 half-ticks). With half-width 1 the window is
    // [49.5, 51.5]: both levels fall outside. With half-width 2 it is
    // [48.5, 52.5]: both fall inside.
    assert_eq!(book.get_side_depths_by_range(1).unwrap(), (0, 0));
    assert_eq!(book.get_side_depths_by_range(2).unwrap(), (3, 5));
}

#[test]
fn zero_depth_side_gives_non_finite_skew() {
    let mut book = Orderbook::new();
    book.insert_order(RestingOrderType::BidOrder(RestingOrder { price: 10, size: 5, ts: 1 }));
    let (bid_depth, ask_depth) = book.get_side_depths();
    assert_eq!(bid_depth, 5);
    assert_eq!(ask_depth, 0);
    let skew = (bid_depth as f64).ln() - (ask_depth as f64).ln();
    assert!(!skew.is_finite());
}

#[test]
fn safety_check_spread_gates_on_max_spread() {
    let mut book = Orderbook::new();
    book.insert_order(RestingOrderType::BidOrder(RestingOrder { price: 50, size: 1, ts: 1 }));
    book.insert_order(RestingOrderType::AskOrder(RestingOrder { price: 60, size: 1, ts: 2 }));
    assert_eq!(book.safety_check_spread(10).unwrap(), true);
    assert_eq!(book.safety_check_spread(9).unwrap(), false);
}

#[test]
fn crossed_book_has_negative_spread() {
    let mut book = Orderbook::new();
    book.insert_order(RestingOrderType::BidOrder(RestingOrder { price: 60, size: 1, ts: 1 }));
    book.insert_order(RestingOrderType::AskOrder(RestingOrder { price: 50, size: 1, ts: 2 }));
    assert_eq!(book.get_orderbook_spread().unwrap(), -10);
}

#[test]
fn safety_check_at_unknown_price_is_price_not_found() {
    let mut book = Orderbook::new();
    book.insert_order(RestingOrderType::BidOrder(RestingOrder { price: 10, size: 100, ts: 1 }));
    assert_eq!(
        book.safety_check_size(RestingOrderType::BidPrice(11), 5),
        Err(BookError::PriceNotFound)
    );
    assert_eq!(
        book.safety_check_size(RestingOrderType::AskPrice(10), 5),
        Err(BookError::PriceNotFound)
    );
}

#[test]
fn queries_on_empty_book_fail_with_empty_side() {
    let book = Orderbook::new();
    assert_eq!(book.get_bid(), Err(BookError::EmptySide));
    assert_eq!(book.get_ask(), Err(BookError::EmptySide));
    assert_eq!(book.get_mid_price(), Err(BookError::EmptySide));
    assert_eq!(book.get_orderbook_spread(), Err(BookError::EmptySide));
    assert_eq!(book.safety_check_spread(10), Err(BookError::EmptySide));
    assert_eq!(book.get_side_depths_by_range(5), Err(BookError::EmptySide));
    assert_eq!(book.get_side_depths(), (0, 0));
}

#[test]
fn one_sided_book_still_fails_with_empty_side() {
    let mut book = Orderbook::new();
    book.insert_order(RestingOrderType::BidOrder(RestingOrder { price: 10, size: 1, ts: 1 }));
    assert_eq!(book.get_mid_price(), Err(BookError::EmptySide));
    assert_eq!(book.get_orderbook_spread(), Err(BookError::EmptySide));
    assert_eq!(book.get_ask(), Err(BookError::EmptySide));
    assert!(book.get_bid().is_ok());
}
