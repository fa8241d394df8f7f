//! The read surface: snapshots of the book rendered for clients, with every
//! number formatted in decimal and the status rendered from its closed
//! variant, never compared on text.

use vstd::prelude::*;
use vstd::string::StringExecFns;
use crate::types::{OrderType, OrderStatus, SpotOrder, TradeEvent};
use crate::book::{OrderBook, range_pred};

verus! {

// ---------------------------------------------------------------------------
// Decimal rendering, verified
// ---------------------------------------------------------------------------

/// The character of one decimal digit.
pub open spec fn dec_digit(d: nat) -> char {
    if d == 0 {
        '0'
    } else if d == 1 {
        '1'
    } else if d == 2 {
        '2'
    } else if d == 3 {
        '3'
    } else if d == 4 {
        '4'
    } else if d == 5 {
        '5'
    } else if d == 6 {
        '6'
    } else if d == 7 {
        '7'
    } else if d == 8 {
        '8'
    } else {
        '9'
    }
}

/// The decimal representation of a number, no leading zeros.
pub open spec fn dec_of(n: nat) -> Seq<char>
    decreases n,
{
    if n < 10 {
        seq![dec_digit(n)]
    } else {
        dec_of(n / 10) + seq![dec_digit(n % 10)]
    }
}

/// The decimal representation of a signed value, with a leading minus sign
/// when it is negative.
pub open spec fn signed_dec_of(v: int) -> Seq<char> {
    if v >= 0 {
        dec_of(v as nat)
    } else {
        seq!['-'] + dec_of((-v) as nat)
    }
}

/// One decimal digit as a string slice.
fn digit_str(d: u64) -> (r: &'static str)
    requires
        d < 10,
    ensures
        r@ == seq![dec_digit(d as nat)],
{
    proof {
        reveal_strlit("0");
        reveal_strlit("1");
        reveal_strlit("2");
        reveal_strlit("3");
        reveal_strlit("4");
        reveal_strlit("5");
        reveal_strlit("6");
        reveal_strlit("7");
        reveal_strlit("8");
        reveal_strlit("9");
    }
    let r: &'static str = if d == 0 {
        "0"
    } else if d == 1 {
        "1"
    } else if d == 2 {
        "2"
    } else if d == 3 {
        "3"
    } else if d == 4 {
        "4"
    } else if d == 5 {
        "5"
    } else if d == 6 {
        "6"
    } else if d == 7 {
        "7"
    } else if d == 8 {
        "8"
    } else {
        "9"
    };
    proof {
        assert(r@ =~= seq![dec_digit(d as nat)]);
    }
    r
}

/// Format a number in decimal: exactly `dec_of`.
pub fn u64_to_dec(n: u64) -> (r: String)
    ensures
        r@ == dec_of(n as nat),
    decreases n,
{
    if n < 10 {
        let r = String::from_str(digit_str(n));
        proof {
            assert(r@ =~= dec_of(n as nat));
        }
        r
    } else {
        let mut s = u64_to_dec(n / 10);
        s.append(digit_str(n % 10));
        proof {
            assert(s@ =~= dec_of((n / 10) as nat) + seq![dec_digit((n % 10) as nat)]);
            assert(s@ =~= dec_of(n as nat));
        }
        s
    }
}

// ---------------------------------------------------------------------------
// Side and status rendering
// ---------------------------------------------------------------------------

/// The rendered side label.
pub open spec fn side_chars(t: OrderType) -> Seq<char> {
    if t == OrderType::Buy {
        seq!['B', 'u', 'y']
    } else {
        seq!['S', 'e', 'l', 'l']
    }
}

/// The rendered status label.
pub open spec fn status_chars(s: OrderStatus) -> Seq<char> {
    match s {
        OrderStatus::Active => seq!['A', 'c', 't', 'i', 'v', 'e'],
        OrderStatus::PartiallyFilled => seq![
            'P', 'a', 'r', 't', 'i', 'a', 'l', 'l', 'y', 'F', 'i', 'l', 'l', 'e', 'd',
        ],
        OrderStatus::Filled => seq!['F', 'i', 'l', 'l', 'e', 'd'],
        OrderStatus::Cancelled => seq!['C', 'a', 'n', 'c', 'e', 'l', 'l', 'e', 'd'],
    }
}

/// Render the side label.
pub fn side_str(t: OrderType) -> (r: String)
    ensures
        r@ == side_chars(t),
{
    match t {
        OrderType::Buy => {
            proof {
                reveal_strlit("Buy");
            }
            let r = String::from_str("Buy");
            proof {
                assert(r@ =~= side_chars(OrderType::Buy));
            }
            r
        },
        OrderType::Sell => {
            proof {
                reveal_strlit("Sell");
            }
            let r = String::from_str("Sell");
            proof {
                assert(r@ =~= side_chars(OrderType::Sell));
            }
            r
        },
    }
}

/// Render the status label from its closed variant.
pub fn status_str(s: OrderStatus) -> (r: String)
    ensures
        r@ == status_chars(s),
{
    match s {
        OrderStatus::Active => {
            proof {
                reveal_strlit("Active");
            }
            let r = String::from_str("Active");
            proof {
                assert(r@ =~= status_chars(OrderStatus::Active));
            }
            r
        },
        OrderStatus::PartiallyFilled => {
            proof {
                reveal_strlit("PartiallyFilled");
            }
            let r = String::from_str("PartiallyFilled");
            proof {
                assert(r@ =~= status_chars(OrderStatus::PartiallyFilled));
            }
            r
        },
        OrderStatus::Filled => {
            proof {
                reveal_strlit("Filled");
            }
            let r = String::from_str("Filled");
            proof {
                assert(r@ =~= status_chars(OrderStatus::Filled));
            }
            r
        },
        OrderStatus::Cancelled => {
            proof {
                reveal_strlit("Cancelled");
            }
            let r = String::from_str("Cancelled");
            proof {
                assert(r@ =~= status_chars(OrderStatus::Cancelled));
            }
            r
        },
    }
}

// ---------------------------------------------------------------------------
// Rendered shapes
// ---------------------------------------------------------------------------

/// One order as a client sees it: every number in decimal, the side and
/// status as their labels.
#[derive(Clone, Debug)]
pub struct Order {
    pub id: String,
    pub user: String,
    pub asset: String,
    pub amount: String,
    pub price: String,
    pub timestamp: u64,
    pub order_type: String,
    pub status: Option<String>,
}

/// One trade as a client sees it.
#[derive(Clone, Debug)]
pub struct TradeOrderEvent {
    pub id: String,
    pub trade_price: String,
    pub trade_size: String,
    pub timestamp: u64,
}

/// The rendered order shows exactly the stored order.
pub open spec fn renders_order(v: Order, o: SpotOrder) -> bool {
    &&& v.id@ == dec_of(o.id as nat)
    &&& v.user@ == dec_of(o.user as nat)
    &&& v.asset@ == dec_of(o.asset as nat)
    &&& v.amount@ == dec_of(o.amount as nat)
    &&& v.price@ == dec_of(o.price as nat)
    &&& v.timestamp == o.timestamp
    &&& v.order_type@ == side_chars(o.order_type)
    &&& (match v.status {
        Option::Some(s) => s@ == status_chars(o.status),
        Option::None => false,
    })
}

/// The rendered trade shows exactly the logged trade.
pub open spec fn renders_trade(v: TradeOrderEvent, t: TradeEvent) -> bool {
    &&& v.id@ == dec_of(t.id as nat)
    &&& v.trade_price@ == dec_of(t.trade_price as nat)
    &&& v.trade_size@ == dec_of(t.trade_size as nat)
    &&& v.timestamp == t.timestamp
}

/// Render one stored order.
pub fn render_order(o: &SpotOrder) -> (v: Order)
    ensures
        renders_order(v, *o),
{
    Order {
        id: u64_to_dec(o.id),
        user: u64_to_dec(o.user),
        asset: u64_to_dec(o.asset),
        amount: u64_to_dec(o.amount),
        price: u64_to_dec(o.price),
        timestamp: o.timestamp,
        order_type: side_str(o.order_type),
        status: Option::Some(status_str(o.status)),
    }
}

/// Render one logged trade.
pub fn render_trade(t: &TradeEvent) -> (v: TradeOrderEvent)
    ensures
        renders_trade(v, *t),
{
    TradeOrderEvent {
        id: u64_to_dec(t.id),
        trade_price: u64_to_dec(t.trade_price),
        trade_size: u64_to_dec(t.trade_size),
        timestamp: t.timestamp,
    }
}

/// Render a sequence of stored orders, in order.
fn render_orders(v: &Vec<SpotOrder>) -> (r: Vec<Order>)
    ensures
        r@.len() == v@.len(),
        forall|i: int| 0 <= i < v@.len() ==> renders_order(#[trigger] r@[i], v@[i]),
{
    let mut r: Vec<Order> = Vec::new();
    let mut i: usize = 0;
    while i < v.len()
        invariant
            i <= v@.len(),
            r@.len() == i,
            forall|k: int| 0 <= k < i ==> renders_order(#[trigger] r@[k], v@[k]),
        decreases v@.len() - i,
    {
        r.push(render_order(&v[i]));
        i += 1;
    }
    r
}

// ---------------------------------------------------------------------------
// Price extremes, for the spread
// ---------------------------------------------------------------------------

/// The greatest price in the sequence (zero when empty).
pub open spec fn max_price_of(s: Seq<SpotOrder>) -> u64
    decreases s.len(),
{
    if s.len() == 0 {
        0
    } else {
        let m = max_price_of(s.drop_last());
        if s.last().price > m {
            s.last().price
        } else {
            m
        }
    }
}

/// The least price in the sequence (the largest word when empty).
pub open spec fn min_price_of(s: Seq<SpotOrder>) -> u64
    decreases s.len(),
{
    if s.len() == 0 {
        0xFFFF_FFFF_FFFF_FFFFu64
    } else {
        let m = min_price_of(s.drop_last());
        if s.last().price < m {
            s.last().price
        } else {
            m
        }
    }
}

/// The greatest price among the orders, at run time.
fn max_price_exec(v: &Vec<SpotOrder>) -> (r: u64)
    ensures
        r == max_price_of(v@),
{
    let mut m: u64 = 0;
    let mut i: usize = 0;
    proof {
        assert(v@.take(0) =~= Seq::<SpotOrder>::empty());
    }
    while i < v.len()
        invariant
            i <= v@.len(),
            m == max_price_of(v@.take(i as int)),
        decreases v@.len() - i,
    {
        proof {
            assert(v@.take(i as int + 1).drop_last() =~= v@.take(i as int));
            assert(v@.take(i as int + 1).last() == v@[i as int]);
        }
        if v[i].price > m {
            m = v[i].price;
        }
        i += 1;
    }
    proof {
        assert(v@.take(v@.len() as int) =~= v@);
    }
    m
}

/// The least price among the orders, at run time.
fn min_price_exec(v: &Vec<SpotOrder>) -> (r: u64)
    ensures
        r == min_price_of(v@),
{
    let mut m: u64 = 0xFFFF_FFFF_FFFF_FFFF;
    let mut i: usize = 0;
    proof {
        assert(v@.take(0) =~= Seq::<SpotOrder>::empty());
    }
    while i < v.len()
        invariant
            i <= v@.len(),
            m == min_price_of(v@.take(i as int)),
        decreases v@.len() - i,
    {
        proof {
            assert(v@.take(i as int + 1).drop_last() =~= v@.take(i as int));
            assert(v@.take(i as int + 1).last() == v@[i as int]);
        }
        if v[i].price < m {
            m = v[i].price;
        }
        i += 1;
    }
    proof {
        assert(v@.take(v@.len() as int) =~= v@);
    }
    m
}

// ---------------------------------------------------------------------------
// The query surface
// ---------------------------------------------------------------------------

/// The full-range filter: every open order on a side.
pub open spec fn open_orders(book: OrderBook, side: OrderType) -> Seq<SpotOrder> {
    book.side_view(side).filter(range_pred(0u64, 0xFFFF_FFFF_FFFF_FFFFu64))
}

/// The point-query surface over the store.
pub struct Query;

impl Query {
    /// All active bid-side orders, price-ascending, rendered.
    pub fn buy_orders(&self, book: &OrderBook) -> (r: Vec<Order>)
        requires
            book.wf(),
        ensures
            r@.len() == open_orders(*book, OrderType::Buy).len(),
            forall|i: int| 0 <= i < r@.len() ==> renders_order(
                #[trigger] r@[i],
                open_orders(*book, OrderType::Buy)[i],
            ),
    {
        let orders = book.get_orders_in_range(0, 0xFFFF_FFFF_FFFF_FFFF, OrderType::Buy);
        render_orders(&orders)
    }

    /// All active ask-side orders, price-ascending, rendered.
    pub fn sell_orders(&self, book: &OrderBook) -> (r: Vec<Order>)
        requires
            book.wf(),
        ensures
            r@.len() == open_orders(*book, OrderType::Sell).len(),
            forall|i: int| 0 <= i < r@.len() ==> renders_order(
                #[trigger] r@[i],
                open_orders(*book, OrderType::Sell)[i],
            ),
    {
        let orders = book.get_orders_in_range(0, 0xFFFF_FFFF_FFFF_FFFF, OrderType::Sell);
        render_orders(&orders)
    }

    /// The spread: lowest ask price minus highest bid price, signed, rendered
    /// in decimal; absent when either side has no active order.
    pub fn spread(&self, book: &OrderBook) -> (r: Option<String>)
        requires
            book.wf(),
        ensures
            ({
                let bids = open_orders(*book, OrderType::Buy);
                let asks = open_orders(*book, OrderType::Sell);
                match r {
                    Option::None => bids.len() == 0 || asks.len() == 0,
                    Option::Some(s) => {
                        &&& bids.len() > 0
                        &&& asks.len() > 0
                        &&& s@ == signed_dec_of(min_price_of(asks) - max_price_of(bids))
                    },
                }
            }),
    {
        let bids = book.get_orders_in_range(0, 0xFFFF_FFFF_FFFF_FFFF, OrderType::Buy);
        let asks = book.get_orders_in_range(0, 0xFFFF_FFFF_FFFF_FFFF, OrderType::Sell);
        if bids.len() == 0 || asks.len() == 0 {
            return Option::None;
        }
        let max_bid = max_price_exec(&bids);
        let min_ask = min_price_exec(&asks);
        if min_ask >= max_bid {
            Option::Some(u64_to_dec(min_ask - max_bid))
        } else {
            proof {
                reveal_strlit("-");
            }
            let mut s = String::from_str("-");
            let magnitude = u64_to_dec(max_bid - min_ask);
            s.append(magnitude.as_str());
            proof {
                assert(s@ =~= seq!['-'] + dec_of((max_bid - min_ask) as nat));
            }
            Option::Some(s)
        }
    }

    /// Both sides' active orders, buys then sells, each price-ascending, with
    /// offset and limit applied after concatenation.
    pub fn all_orders(&self, book: &OrderBook, limit: Option<usize>, offset: Option<usize>) -> (r: Vec<Order>)
        requires
            book.wf(),
        ensures
            ({
                let combined = open_orders(*book, OrderType::Buy) + open_orders(*book, OrderType::Sell);
                let off = (match offset {
                    Option::Some(x) => if x as int > combined.len() { combined.len() as int } else { x as int },
                    Option::None => 0,
                });
                let lim = (match limit {
                    Option::Some(l) => l as int,
                    Option::None => combined.len() as int,
                });
                let end = if off + lim > combined.len() { combined.len() as int } else { off + lim };
                let page = combined.subrange(off, end);
                &&& r@.len() == page.len()
                &&& forall|i: int| 0 <= i < page.len() ==> renders_order(#[trigger] r@[i], page[i])
            }),
    {
        let mut combined = book.get_orders_in_range(0, 0xFFFF_FFFF_FFFF_FFFF, OrderType::Buy);
        let mut asks = book.get_orders_in_range(0, 0xFFFF_FFFF_FFFF_FFFF, OrderType::Sell);
        combined.append(&mut asks);
        let total = combined.len();
        let off = match offset {
            Option::Some(x) => if x > total { total } else { x },
            Option::None => 0,
        };
        let lim = match limit {
            Option::Some(l) => l,
            Option::None => total,
        };
        let end = if lim >= total - off { total } else { off + lim };
        let mut r: Vec<Order> = Vec::new();
        let mut i: usize = off;
        while i < end
            invariant
                off <= i <= end <= combined@.len(),
                r@.len() == i - off,
                forall|k: int| 0 <= k < r@.len() ==> renders_order(#[trigger] r@[k], combined@[off + k]),
            decreases end - i,
        {
            r.push(render_order(&combined[i]));
            i += 1;
        }
        proof {
            let combined_s = open_orders(*book, OrderType::Buy) + open_orders(*book, OrderType::Sell);
            assert(combined@ == combined_s);
            let page = combined_s.subrange(off as int, end as int);
            assert(r@.len() == page.len());
            assert forall|k: int| 0 <= k < page.len() implies renders_order(#[trigger] r@[k], page[k]) by {
                assert(page[k] == combined@[off + k]);
            }
        }
        r
    }

    /// The trade log, oldest first, rendered, with offset and limit.
    pub fn trade_events(&self, book: &OrderBook, limit: Option<usize>, offset: Option<usize>) -> (r: Vec<TradeOrderEvent>)
        ensures
            ({
                let log = book.trades_view();
                let off = (match offset {
                    Option::Some(x) => if x as int > log.len() { log.len() as int } else { x as int },
                    Option::None => 0,
                });
                let lim = (match limit {
                    Option::Some(l) => l as int,
                    Option::None => log.len() as int,
                });
                let end = if off + lim > log.len() { log.len() as int } else { off + lim };
                let page = log.subrange(off, end);
                &&& r@.len() == page.len()
                &&& forall|i: int| 0 <= i < page.len() ==> renders_trade(#[trigger] r@[i], page[i])
            }),
    {
        let log = book.get_trade_events();
        let total = log.len();
        let off = match offset {
            Option::Some(x) => if x > total { total } else { x },
            Option::None => 0,
        };
        let lim = match limit {
            Option::Some(l) => l,
            Option::None => total,
        };
        let end = if lim >= total - off { total } else { off + lim };
        let mut r: Vec<TradeOrderEvent> = Vec::new();
        let mut i: usize = off;
        while i < end
            invariant
                off <= i <= end <= log@.len(),
                r@.len() == i - off,
                forall|k: int| 0 <= k < r@.len() ==> renders_trade(#[trigger] r@[k], log@[off + k]),
            decreases end - i,
        {
            r.push(render_trade(&log[i]));
            i += 1;
        }
        proof {
            let page = book.trades_view().subrange(off as int, end as int);
            assert(r@.len() == page.len());
            assert forall|k: int| 0 <= k < page.len() implies renders_trade(#[trigger] r@[k], page[k]) by {
                assert(page[k] == log@[off + k]);
            }
        }
        r
    }
}

// ---------------------------------------------------------------------------
// The subscription surface
// ---------------------------------------------------------------------------

/// The polling subscription surface: each method computes one tick's full
/// snapshot; the surrounding runtime repeats it on its cadence until the
/// consumer disconnects.
pub struct Subscription;

impl Subscription {
    /// One tick of the active-orders subscription: the full snapshot of the
    /// named side, or an empty snapshot for an unknown side label.
    pub fn active_orders_snapshot(&self, book: &OrderBook, order_type: &String) -> (r: Vec<Order>)
        requires
            book.wf(),
        ensures
            ({
                if order_type@ == side_chars(OrderType::Buy) {
                    &&& r@.len() == open_orders(*book, OrderType::Buy).len()
                    &&& forall|i: int| 0 <= i < r@.len() ==> renders_order(
                        #[trigger] r@[i],
                        open_orders(*book, OrderType::Buy)[i],
                    )
                } else if order_type@ == side_chars(OrderType::Sell) {
                    &&& r@.len() == open_orders(*book, OrderType::Sell).len()
                    &&& forall|i: int| 0 <= i < r@.len() ==> renders_order(
                        #[trigger] r@[i],
                        open_orders(*book, OrderType::Sell)[i],
                    )
                } else {
                    r@.len() == 0
                }
            }),
    {
        proof {
            reveal_strlit("Buy");
            reveal_strlit("Sell");
        }
        let buy_label = String::from_str("Buy");
        let sell_label = String::from_str("Sell");
        proof {
            assert(buy_label@ =~= side_chars(OrderType::Buy));
            assert(sell_label@ =~= side_chars(OrderType::Sell));
        }
        if order_type.eq(&buy_label) {
            let orders = book.get_orders_in_range(0, 0xFFFF_FFFF_FFFF_FFFF, OrderType::Buy);
            render_orders(&orders)
        } else if order_type.eq(&sell_label) {
            let orders = book.get_orders_in_range(0, 0xFFFF_FFFF_FFFF_FFFF, OrderType::Sell);
            render_orders(&orders)
        } else {
            Vec::new()
        }
    }

    /// One tick of the trade-events subscription: the full trade log.
    pub fn trade_events_snapshot(&self, book: &OrderBook) -> (r: Vec<TradeOrderEvent>)
        ensures
            r@.len() == book.trades_view().len(),
            forall|i: int| 0 <= i < r@.len() ==> renders_trade(#[trigger] r@[i], book.trades_view()[i]),
    {
        let log = book.get_trade_events();
        let mut r: Vec<TradeOrderEvent> = Vec::new();
        let mut i: usize = 0;
        while i < log.len()
            invariant
                i <= log@.len(),
                r@.len() == i,
                forall|k: int| 0 <= k < i ==> renders_trade(#[trigger] r@[k], log@[k]),
            decreases log@.len() - i,
        {
            r.push(render_trade(&log[i]));
            i += 1;
        }
        r
    }
}

} // verus!
