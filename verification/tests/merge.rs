use orderbook_merge::exchange::Exchange;
use orderbook_merge::order_book::merge_side;
use orderbook_merge::order_book::rank_levels;
use orderbook_merge::order_book::Level;
use orderbook_merge::order_book::OrderBook;
use orderbook_merge::order_book::OrderBookStore;
use orderbook_merge::order_book::Quote;
use orderbook_merge::order_book::Summary;

const UNIT: i64 = 100_000_000;

fn quote(price_hundredths: i64, amount_hundredths: i64) -> Quote {
    Quote { price: price_hundredths * (UNIT / 100), amount: amount_hundredths * (UNIT / 100) }
}

fn level(exchange: Exchange, price_hundredths: i64, amount_hundredths: i64) -> Level {
    Level {
        exchange,
        price: price_hundredths * (UNIT / 100),
        amount: amount_hundredths * (UNIT / 100),
    }
}

fn two_venues() -> OrderBookStore {
    let mut store = OrderBookStore::default();
    store.update(OrderBook {
        exchange: Exchange::Binance,
        asks: vec![quote(10000, 100), quote(10100, 200)],
        bids: vec![quote(9900, 100)],
    });
    store.update(OrderBook {
        exchange: Exchange::Bitstamp,
        asks: vec![quote(10050, 50)],
        bids: vec![quote(9950, 200)],
    });
    store
}

#[test]
fn new_store_is_empty() {
    let store = OrderBookStore::default();
    assert_eq!(store.summary, Summary { spread: 0, asks: vec![], bids: vec![] });
    assert_eq!(Summary::new(), store.summary);
}

#[test]
fn two_venues_interleave_by_price() {
    let store = two_venues();
    assert_eq!(
        store.summary.asks,
        vec![
            level(Exchange::Binance, 10000, 100),
            level(Exchange::Bitstamp, 10050, 50),
            level(Exchange::Binance, 10100, 200),
        ]
    );
    assert_eq!(
        store.summary.bids,
        vec![level(Exchange::Bitstamp, 9950, 200), level(Exchange::Binance, 9900, 100)]
    );
    assert_eq!(store.summary.spread, 50_000_000);
}

#[test]
fn a_new_snapshot_replaces_the_venues_levels() {
    let mut store = two_venues();
    store.update(OrderBook {
        exchange: Exchange::Binance,
        asks: vec![quote(10200, 100)],
        bids: vec![],
    });
    assert_eq!(
        store.summary.asks,
        vec![level(Exchange::Bitstamp, 10050, 50), level(Exchange::Binance, 10200, 100)]
    );
    assert_eq!(store.summary.bids, vec![level(Exchange::Bitstamp, 9950, 200)]);
    assert_eq!(store.summary.spread, 100_000_000);
}

#[test]
fn eleven_asks_keep_the_ten_lowest() {
    let mut store = OrderBookStore::default();
    let mut asks = Vec::new();
    for i in 0..11 {
        asks.push(quote(10000 + ((i * 7) % 11) * 100, 100));
    }
    store.update(OrderBook { exchange: Exchange::Binance, asks, bids: vec![] });
    assert_eq!(store.summary.asks.len(), 10);
    for (i, l) in store.summary.asks.iter().enumerate() {
        assert_eq!(*l, level(Exchange::Binance, 10000 + (i as i64) * 100, 100));
    }
}

#[test]
fn eleven_bids_keep_the_ten_highest() {
    let mut store = OrderBookStore::default();
    let mut bids = Vec::new();
    for i in 0..11 {
        bids.push(quote(10000 + ((i * 3) % 11) * 100, 100));
    }
    store.update(OrderBook { exchange: Exchange::Bitstamp, asks: vec![], bids });
    assert_eq!(store.summary.bids.len(), 10);
    for (i, l) in store.summary.bids.iter().enumerate() {
        assert_eq!(*l, level(Exchange::Bitstamp, 11000 - (i as i64) * 100, 100));
    }
}

#[test]
fn depth_stays_bounded_over_many_merges() {
    let mut store = OrderBookStore::default();
    for round in 0..6 {
        let exchange = if round % 2 == 0 { Exchange::Binance } else { Exchange::Bitstamp };
        let mut asks = Vec::new();
        let mut bids = Vec::new();
        for i in 0..9 {
            asks.push(quote(20000 + round * 10 + i * 3, 100));
            bids.push(quote(19000 - round * 10 - i * 3, 100));
        }
        store.update(OrderBook { exchange, asks, bids });
        assert!(store.summary.asks.len() <= 10);
        assert!(store.summary.bids.len() <= 10);
        assert!(store.summary.asks.windows(2).all(|w| w[0].price <= w[1].price));
        assert!(store.summary.bids.windows(2).all(|w| w[0].price >= w[1].price));
        assert_eq!(
            store.summary.spread,
            (store.summary.asks[0].price - store.summary.bids[0].price) as i128
        );
    }
}

#[test]
fn equal_prices_keep_their_order() {
    let levels = vec![
        level(Exchange::Binance, 10000, 1),
        level(Exchange::Bitstamp, 9000, 2),
        level(Exchange::Bitstamp, 10000, 3),
        level(Exchange::Binance, 9000, 4),
    ];
    assert_eq!(
        rank_levels(&levels, true),
        vec![
            level(Exchange::Bitstamp, 9000, 2),
            level(Exchange::Binance, 9000, 4),
            level(Exchange::Binance, 10000, 1),
            level(Exchange::Bitstamp, 10000, 3),
        ]
    );
    assert_eq!(
        rank_levels(&levels, false),
        vec![
            level(Exchange::Binance, 10000, 1),
            level(Exchange::Bitstamp, 10000, 3),
            level(Exchange::Bitstamp, 9000, 2),
            level(Exchange::Binance, 9000, 4),
        ]
    );
}

#[test]
fn new_levels_of_a_price_go_behind_the_others() {
    let current = vec![level(Exchange::Binance, 10000, 1), level(Exchange::Bitstamp, 10000, 2)];
    let merged = merge_side(&current, Exchange::Binance, &vec![quote(10000, 9)], true);
    assert_eq!(
        merged,
        vec![level(Exchange::Bitstamp, 10000, 2), level(Exchange::Binance, 10000, 9)]
    );
}

#[test]
fn no_stale_level_of_the_venue_survives() {
    let mut store = two_venues();
    store.update(OrderBook { exchange: Exchange::Bitstamp, asks: vec![], bids: vec![] });
    assert!(store.summary.asks.iter().all(|l| l.exchange == Exchange::Binance));
    assert!(store.summary.bids.iter().all(|l| l.exchange == Exchange::Binance));
    assert_eq!(store.summary.asks.len(), 2);
    assert_eq!(store.summary.bids.len(), 1);
    assert_eq!(store.summary.spread, 100_000_000);
}

#[test]
fn spread_stays_while_a_side_is_empty() {
    let mut store = two_venues();
    store.update(OrderBook { exchange: Exchange::Binance, asks: vec![], bids: vec![] });
    store.update(OrderBook {
        exchange: Exchange::Bitstamp,
        asks: vec![quote(10050, 50)],
        bids: vec![],
    });
    assert!(store.summary.bids.is_empty());
    assert_eq!(store.summary.spread, 100_000_000);
}

#[test]
fn spread_of_extreme_prices_is_exact() {
    let mut store = OrderBookStore::default();
    store.update(OrderBook {
        exchange: Exchange::Binance,
        asks: vec![Quote { price: i64::MAX, amount: 1 }],
        bids: vec![Quote { price: i64::MIN, amount: 1 }],
    });
    assert_eq!(store.summary.spread, (i64::MAX as i128) - (i64::MIN as i128));
}

#[test]
fn views_compare_by_content() {
    let a = two_venues().summary;
    let b = two_venues().summary;
    assert!(a.same_as(&b));
    assert!(a.same_as(&a.copy()));
    assert_eq!(a.copy(), a);
    let mut c = a.copy();
    c.spread += 1;
    assert!(!a.same_as(&c));
    let mut d = a.copy();
    d.bids[0].amount += 1;
    assert!(!a.same_as(&d));
    let mut e = a.copy();
    e.asks.pop();
    assert!(!a.same_as(&e));
}
