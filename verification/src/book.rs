//! The order-book store: two price-ordered side indices plus an append-only
//! trade log, with an id-keyed mathematical model for the contracts.

use vstd::prelude::*;
use crate::types::{OrderType, OrderStatus, SpotOrder, TradeEvent, StoreError, is_terminal, is_open_status};

verus! {

// ---------------------------------------------------------------------------
// Spec helpers over sequences of orders
// ---------------------------------------------------------------------------

/// Some element of `s` carries the id.
pub open spec fn has_id(s: Seq<SpotOrder>, id: u64) -> bool {
    exists|i: int| 0 <= i < s.len() && s[i].id == id
}

/// The index of the element carrying the id (well defined when ids are unique).
pub open spec fn idx_of(s: Seq<SpotOrder>, id: u64) -> int {
    choose|i: int| 0 <= i < s.len() && s[i].id == id
}

/// The element of `s` carrying the id.
pub open spec fn lookup(s: Seq<SpotOrder>, id: u64) -> SpotOrder {
    s[idx_of(s, id)]
}

/// No two elements share an id.
pub open spec fn unique_ids(s: Seq<SpotOrder>) -> bool {
    forall|i: int, j: int| #![trigger s[i], s[j]] 0 <= i < j < s.len() ==> s[i].id != s[j].id
}

/// The strict (price, id) order that keeps each side index sorted.
pub open spec fn key_lt(a: SpotOrder, b: SpotOrder) -> bool {
    a.price < b.price || (a.price == b.price && a.id < b.id)
}

/// Strictly ascending by (price, id).
pub open spec fn sorted_by_key(s: Seq<SpotOrder>) -> bool {
    forall|i: int, j: int| #![trigger s[i], s[j]] 0 <= i < j < s.len() ==> key_lt(s[i], s[j])
}

/// Every element rests on the given side.
pub open spec fn all_side(s: Seq<SpotOrder>, t: OrderType) -> bool {
    forall|i: int| 0 <= i < s.len() ==> #[trigger] s[i].order_type == t
}

/// What a range query keeps: open orders with price inside the inclusive bounds.
pub open spec fn range_pred(min_price: u64, max_price: u64) -> spec_fn(SpotOrder) -> bool {
    |o: SpotOrder| is_open_status(o.status) && min_price <= o.price && o.price <= max_price
}

// ---------------------------------------------------------------------------
// The mathematical model of the store
// ---------------------------------------------------------------------------

/// The store, seen mathematically: the id-keyed order map and the trade log.
#[verifier::ext_equal]
pub ghost struct BookModel {
    pub orders: Map<u64, SpotOrder>,
    pub trades: Seq<TradeEvent>,
}

/// The model of a store holding nothing.
pub open spec fn empty_model() -> BookModel {
    BookModel { orders: Map::empty(), trades: Seq::empty() }
}

/// The order an upsert leaves under the id: a known id keeps everything but
/// amount and status; a fresh id takes the incoming order whole.
pub open spec fn spec_merge(m: BookModel, order: SpotOrder) -> SpotOrder {
    if m.orders.contains_key(order.id) {
        SpotOrder { amount: order.amount, status: order.status, ..m.orders[order.id] }
    } else {
        order
    }
}

/// An upsert is rejected exactly when it would change an existing id's side.
pub open spec fn upsert_rejected(m: BookModel, order: SpotOrder) -> bool {
    m.orders.contains_key(order.id) && m.orders[order.id].order_type != order.order_type
}

/// What an upsert does to the model: nothing when rejected, otherwise the
/// merged order replaces (or introduces) the id. The trade log is untouched.
pub open spec fn spec_upsert(m: BookModel, order: SpotOrder) -> BookModel {
    if upsert_rejected(m, order) {
        m
    } else {
        BookModel { orders: m.orders.insert(order.id, spec_merge(m, order)), trades: m.trades }
    }
}

/// What a close does to the model: unknown ids and already-terminal orders are
/// left alone; an open order takes the terminal status.
pub open spec fn spec_close(m: BookModel, order_id: u64, terminal_status: OrderStatus) -> BookModel {
    if !m.orders.contains_key(order_id) {
        m
    } else if is_terminal(m.orders[order_id].status) {
        m
    } else {
        BookModel {
            orders: m.orders.insert(order_id, SpotOrder { status: terminal_status, ..m.orders[order_id] }),
            trades: m.trades,
        }
    }
}

/// What appending a trade does to the model: a trade already present is not
/// appended again (re-deliveries across reconnects stay idempotent); otherwise
/// it goes to the end. Existing entries are never altered.
pub open spec fn spec_append_trade(m: BookModel, t: TradeEvent) -> BookModel {
    if m.trades.contains(t) {
        m
    } else {
        BookModel { orders: m.orders, trades: m.trades.push(t) }
    }
}

// ---------------------------------------------------------------------------
// The store itself
// ---------------------------------------------------------------------------

/// The order-book store. One price-ordered index per side, ids unique across
/// both, plus the append-only trade log.
pub struct OrderBook {
    bids: Vec<SpotOrder>,
    asks: Vec<SpotOrder>,
    trades: Vec<TradeEvent>,
}

impl OrderBook {
    /// The bid-side index, price-ascending.
    pub closed spec fn bids_view(self) -> Seq<SpotOrder> {
        self.bids@
    }

    /// The ask-side index, price-ascending.
    pub closed spec fn asks_view(self) -> Seq<SpotOrder> {
        self.asks@
    }

    /// The trade log, oldest first.
    pub closed spec fn trades_view(self) -> Seq<TradeEvent> {
        self.trades@
    }

    /// The index for one side.
    pub open spec fn side_view(self, side: OrderType) -> Seq<SpotOrder> {
        if side == OrderType::Buy {
            self.bids_view()
        } else {
            self.asks_view()
        }
    }

    /// No id rests on both sides at once.
    pub open spec fn sides_disjoint(self) -> bool {
        forall|id: u64|
            #![trigger has_id(self.bids_view(), id)]
            #![trigger has_id(self.asks_view(), id)]
            !(has_id(self.bids_view(), id) && has_id(self.asks_view(), id))
    }

    /// Well-formedness: each side is sorted by (price, id), ids are unique
    /// within a side and across sides, and every order rests on its own side.
    pub open spec fn wf(self) -> bool {
        &&& sorted_by_key(self.bids_view())
        &&& sorted_by_key(self.asks_view())
        &&& unique_ids(self.bids_view())
        &&& unique_ids(self.asks_view())
        &&& all_side(self.bids_view(), OrderType::Buy)
        &&& all_side(self.asks_view(), OrderType::Sell)
        &&& self.sides_disjoint()
    }

    /// The store holds the id somewhere.
    pub open spec fn contains_order(self, id: u64) -> bool {
        has_id(self.bids_view(), id) || has_id(self.asks_view(), id)
    }

    /// The order resting under the id.
    pub open spec fn order_of(self, id: u64) -> SpotOrder {
        if has_id(self.bids_view(), id) {
            lookup(self.bids_view(), id)
        } else {
            lookup(self.asks_view(), id)
        }
    }

    /// The id-keyed order map the contracts speak of.
    pub open spec fn orders_map(self) -> Map<u64, SpotOrder> {
        Map::new(|id: u64| self.contains_order(id), |id: u64| self.order_of(id))
    }

    /// The full mathematical model of the store.
    pub open spec fn model(self) -> BookModel {
        BookModel { orders: self.orders_map(), trades: self.trades_view() }
    }

    /// A fresh, empty store.
    pub fn new() -> (r: OrderBook)
        ensures
            r.wf(),
            r.model() == empty_model(),
            r.bids_view() == Seq::<SpotOrder>::empty(),
            r.asks_view() == Seq::<SpotOrder>::empty(),
            r.trades_view() == Seq::<TradeEvent>::empty(),
    {
        let r = OrderBook { bids: Vec::new(), asks: Vec::new(), trades: Vec::new() };
        proof {
            assert(r.bids_view() =~= Seq::<SpotOrder>::empty());
            assert(r.asks_view() =~= Seq::<SpotOrder>::empty());
            assert(r.trades_view() =~= Seq::<TradeEvent>::empty());
            assert(r.orders_map() =~= Map::<u64, SpotOrder>::empty());
            assert(r.model() =~= empty_model());
        }
        r
    }
}

// ---------------------------------------------------------------------------
// Structural lemmas
// ---------------------------------------------------------------------------

/// With unique ids, the element at a witnessing index is the lookup result.
pub proof fn lemma_idx_unique(s: Seq<SpotOrder>, i: int, id: u64)
    requires
        unique_ids(s),
        0 <= i < s.len(),
        s[i].id == id,
    ensures
        has_id(s, id),
        idx_of(s, id) == i,
        lookup(s, id) == s[i],
{
    assert(has_id(s, id));
    let j = idx_of(s, id);
    assert(0 <= j < s.len() && s[j].id == id);
    if i < j {
        assert(s[i].id != s[j].id);
    } else if j < i {
        assert(s[j].id != s[i].id);
    }
}

/// Replacing an element with one of the same id and price keeps the side
/// index well formed and changes only that id's lookup.
proof fn lemma_update_keeps_structure(s: Seq<SpotOrder>, i: int, v: SpotOrder)
    requires
        sorted_by_key(s),
        unique_ids(s),
        0 <= i < s.len(),
        v.id == s[i].id,
        v.price == s[i].price,
    ensures
        sorted_by_key(s.update(i, v)),
        unique_ids(s.update(i, v)),
        forall|x: u64| #[trigger] has_id(s.update(i, v), x) <==> has_id(s, x),
        lookup(s.update(i, v), v.id) == v,
        forall|x: u64|
            x != v.id && #[trigger] has_id(s, x) ==> lookup(s.update(i, v), x) == lookup(s, x),
{
    let s2 = s.update(i, v);
    assert(unique_ids(s2));
    assert(sorted_by_key(s2));
    assert forall|x: u64| #[trigger] has_id(s2, x) implies has_id(s, x) by {
        let k = choose|k: int| 0 <= k < s2.len() && s2[k].id == x;
        assert(s[k].id == x);
    }
    assert forall|x: u64| has_id(s, x) implies #[trigger] has_id(s2, x) by {
        let k = choose|k: int| 0 <= k < s.len() && s[k].id == x;
        assert(s2[k].id == x);
    }
    lemma_idx_unique(s2, i, v.id);
    assert forall|x: u64|
        x != v.id && #[trigger] has_id(s, x) implies lookup(s2, x) == lookup(s, x) by {
        let k = choose|k: int| 0 <= k < s.len() && s[k].id == x;
        assert(k != i);
        lemma_idx_unique(s, k, x);
        lemma_idx_unique(s2, k, x);
    }
}

/// Inserting a fresh id at its (price, id) position keeps the side index well
/// formed, adds that id, and changes no other lookup.
proof fn lemma_insert_keeps_structure(s: Seq<SpotOrder>, p: int, v: SpotOrder)
    requires
        sorted_by_key(s),
        unique_ids(s),
        0 <= p <= s.len(),
        !has_id(s, v.id),
        forall|i: int| 0 <= i < p ==> key_lt(#[trigger] s[i], v),
        forall|i: int| p <= i < s.len() ==> key_lt(v, #[trigger] s[i]),
    ensures
        sorted_by_key(s.insert(p, v)),
        unique_ids(s.insert(p, v)),
        forall|x: u64| #[trigger] has_id(s.insert(p, v), x) <==> (has_id(s, x) || x == v.id),
        lookup(s.insert(p, v), v.id) == v,
        forall|x: u64|
            x != v.id && #[trigger] has_id(s, x) ==> lookup(s.insert(p, v), x) == lookup(s, x),
{
    let s2 = s.insert(p, v);
    s.insert_ensures(p, v);
    assert(s2.len() == s.len() + 1);
    // Where each old element sits in the new sequence.
    assert forall|k: int| 0 <= k < s2.len() implies
        (if k < p { s2[k] == s[k] } else if k == p { s2[k] == v } else { s2[k] == s[k - 1] }) by {
        if k > p {
            assert(s2[(k - 1) + 1] == s[k - 1]);
        }
    }
    assert forall|a: int, b: int| #![trigger s2[a], s2[b]] 0 <= a < b < s2.len() implies key_lt(s2[a], s2[b]) by {
        if a < p && b < p {
            assert(key_lt(s[a], s[b]));
        } else if a < p && b == p {
            assert(key_lt(s[a], v));
        } else if a < p && b > p {
            assert(key_lt(s[a], s[b - 1]));
        } else if a == p && b > p {
            assert(key_lt(v, s[b - 1]));
        } else if a > p && b > p {
            assert(key_lt(s[a - 1], s[b - 1]));
        }
    }
    assert forall|a: int, b: int| #![trigger s2[a], s2[b]] 0 <= a < b < s2.len() implies s2[a].id != s2[b].id by {
        assert(key_lt(s2[a], s2[b]));
        if s2[a].id == s2[b].id {
            // Both elements come from s, or one is v: v's id is fresh and
            // s's ids are pairwise distinct, so equal ids are impossible.
            assert(s2[a].price < s2[b].price);
            if a == p {
                assert(s[b - 1].id == v.id);
                assert(has_id(s, v.id));
            } else if b == p {
                assert(s[a].id == v.id);
                assert(has_id(s, v.id));
            } else {
                let a0: int = if a < p { a } else { a - 1 };
                let b0: int = if b < p { b } else { b - 1 };
                assert(s[a0].id != s[b0].id);
            }
        }
    }
    assert(unique_ids(s2));
    assert(sorted_by_key(s2));
    assert forall|x: u64| #[trigger] has_id(s2, x) implies (has_id(s, x) || x == v.id) by {
        let k = choose|k: int| 0 <= k < s2.len() && s2[k].id == x;
        if k < p {
            assert(s[k].id == x);
        } else if k > p {
            assert(s[k - 1].id == x);
        }
    }
    assert forall|x: u64| has_id(s, x) || x == v.id implies #[trigger] has_id(s2, x) by {
        if x == v.id {
            assert(s2[p].id == x);
        } else {
            let k = choose|k: int| 0 <= k < s.len() && s[k].id == x;
            if k < p {
                assert(s2[k].id == x);
            } else {
                assert(s2[k + 1].id == x);
            }
        }
    }
    lemma_idx_unique(s2, p, v.id);
    assert forall|x: u64|
        x != v.id && #[trigger] has_id(s, x) implies lookup(s2, x) == lookup(s, x) by {
        let k = choose|k: int| 0 <= k < s.len() && s[k].id == x;
        lemma_idx_unique(s, k, x);
        if k < p {
            lemma_idx_unique(s2, k, x);
        } else {
            lemma_idx_unique(s2, k + 1, x);
        }
    }
}

/// The opposite side.
pub open spec fn other_side(side: OrderType) -> OrderType {
    if side == OrderType::Buy {
        OrderType::Sell
    } else {
        OrderType::Buy
    }
}

/// Replacing an order in place (same id, price and side) keeps the store well
/// formed and updates the model map at exactly that id.
proof fn lemma_book_update(b0: OrderBook, b1: OrderBook, side: OrderType, i: int, v: SpotOrder)
    requires
        b0.wf(),
        0 <= i < b0.side_view(side).len(),
        v.id == b0.side_view(side)[i].id,
        v.price == b0.side_view(side)[i].price,
        v.order_type == b0.side_view(side)[i].order_type,
        b1.side_view(side) == b0.side_view(side).update(i, v),
        b1.side_view(other_side(side)) == b0.side_view(other_side(side)),
        b1.trades_view() == b0.trades_view(),
    ensures
        b1.wf(),
        b1.model() == (BookModel { orders: b0.orders_map().insert(v.id, v), trades: b0.trades_view() }),
        b1.contains_order(v.id),
{
    let s = b0.side_view(side);
    let s2 = b1.side_view(side);
    let o = b0.side_view(other_side(side));
    lemma_update_keeps_structure(s, i, v);
    assert(all_side(s2, if side == OrderType::Buy { OrderType::Buy } else { OrderType::Sell })) by {
        assert(forall|k: int| 0 <= k < s2.len() ==> (#[trigger] s2[k]).order_type == s[k].order_type);
        assert(forall|k: int| 0 <= k < s.len() ==> (#[trigger] s[k]).order_type == (if side == OrderType::Buy { OrderType::Buy } else { OrderType::Sell }));
    }
    assert(b1.sides_disjoint()) by {
        assert forall|id: u64|
            !(#[trigger] has_id(b1.bids_view(), id) && #[trigger] has_id(b1.asks_view(), id)) by {
            assert(has_id(s2, id) <==> has_id(s, id));
        }
    }
    assert(b1.wf());
    assert forall|x: u64| true implies
        (#[trigger] b1.contains_order(x) <==> (b0.contains_order(x) || x == v.id)) by {
        assert(has_id(s2, x) <==> has_id(s, x));
        if x == v.id {
            assert(has_id(s, x));
        }
    }
    assert forall|x: u64| b1.contains_order(x) && x != v.id implies
        #[trigger] b1.order_of(x) == b0.order_of(x) by {
        assert(has_id(s2, x) <==> has_id(s, x));
    }
    assert(b1.order_of(v.id) == v) by {
        if side == OrderType::Buy {
            assert(lookup(b1.bids_view(), v.id) == v);
        } else {
            assert(!has_id(b1.bids_view(), v.id));
            assert(lookup(b1.asks_view(), v.id) == v);
        }
    }
    assert(b1.orders_map() =~= b0.orders_map().insert(v.id, v));
    assert(b1.model() =~= (BookModel { orders: b0.orders_map().insert(v.id, v), trades: b0.trades_view() }));
}

/// Inserting a fresh order at its sorted position on its own side keeps the
/// store well formed and extends the model map by exactly that id.
proof fn lemma_book_insert(b0: OrderBook, b1: OrderBook, side: OrderType, p: int, v: SpotOrder)
    requires
        b0.wf(),
        0 <= p <= b0.side_view(side).len(),
        !b0.contains_order(v.id),
        v.order_type == side,
        forall|i: int| 0 <= i < p ==> key_lt(#[trigger] b0.side_view(side)[i], v),
        forall|i: int| p <= i < b0.side_view(side).len() ==> key_lt(v, #[trigger] b0.side_view(side)[i]),
        b1.side_view(side) == b0.side_view(side).insert(p, v),
        b1.side_view(other_side(side)) == b0.side_view(other_side(side)),
        b1.trades_view() == b0.trades_view(),
    ensures
        b1.wf(),
        b1.model() == (BookModel { orders: b0.orders_map().insert(v.id, v), trades: b0.trades_view() }),
        b1.contains_order(v.id),
{
    let s = b0.side_view(side);
    let s2 = b1.side_view(side);
    lemma_insert_keeps_structure(s, p, v);
    s.insert_ensures(p, v);
    assert(all_side(s2, if side == OrderType::Buy { OrderType::Buy } else { OrderType::Sell })) by {
        assert forall|k: int| 0 <= k < s2.len() implies
            (#[trigger] s2[k]).order_type == (if side == OrderType::Buy { OrderType::Buy } else { OrderType::Sell }) by {
            if k < p {
                assert(s2[k] == s[k]);
            } else if k > p {
                assert(s2[(k - 1) + 1] == s[k - 1]);
            }
        }
    }
    assert(b1.sides_disjoint()) by {
        assert forall|id: u64|
            !(#[trigger] has_id(b1.bids_view(), id) && #[trigger] has_id(b1.asks_view(), id)) by {
            assert(has_id(s2, id) <==> (has_id(s, id) || id == v.id));
        }
    }
    assert(b1.wf());
    assert forall|x: u64| true implies
        (#[trigger] b1.contains_order(x) <==> (b0.contains_order(x) || x == v.id)) by {
        assert(has_id(s2, x) <==> (has_id(s, x) || x == v.id));
    }
    assert forall|x: u64| b1.contains_order(x) && x != v.id implies
        #[trigger] b1.order_of(x) == b0.order_of(x) by {
        assert(has_id(s2, x) <==> (has_id(s, x) || x == v.id));
    }
    assert(b1.order_of(v.id) == v) by {
        if side == OrderType::Buy {
            assert(lookup(b1.bids_view(), v.id) == v);
        } else {
            assert(!has_id(b1.bids_view(), v.id));
            assert(lookup(b1.asks_view(), v.id) == v);
        }
    }
    assert(b1.orders_map() =~= b0.orders_map().insert(v.id, v));
    assert(b1.model() =~= (BookModel { orders: b0.orders_map().insert(v.id, v), trades: b0.trades_view() }));
}

// ---------------------------------------------------------------------------
// Executable helpers
// ---------------------------------------------------------------------------

/// Whether the status is terminal, decidable at run time.
pub fn is_terminal_exec(s: OrderStatus) -> (r: bool)
    ensures
        r == is_terminal(s),
{
    match s {
        OrderStatus::Filled => true,
        OrderStatus::Cancelled => true,
        _ => false,
    }
}

/// Find the index holding the id, scanning the side index.
fn find_idx(v: &Vec<SpotOrder>, id: u64) -> (r: Option<usize>)
    ensures
        match r {
            Option::Some(i) => i < v@.len() && v@[i as int].id == id,
            Option::None => !has_id(v@, id),
        },
{
    let mut i: usize = 0;
    while i < v.len()
        invariant
            i <= v@.len(),
            forall|k: int| 0 <= k < i ==> (#[trigger] v@[k]).id != id,
        decreases v@.len() - i,
    {
        if v[i].id == id {
            return Option::Some(i);
        }
        i += 1;
    }
    Option::None
}

/// The sorted position for a fresh order: everything before it is strictly
/// below its (price, id) key, nothing after it is.
fn insert_pos(v: &Vec<SpotOrder>, o: &SpotOrder) -> (p: usize)
    requires
        sorted_by_key(v@),
    ensures
        p <= v@.len(),
        forall|i: int| 0 <= i < p ==> key_lt(#[trigger] v@[i], *o),
        forall|i: int| p <= i < v@.len() ==> !key_lt(#[trigger] v@[i], *o),
{
    let mut i: usize = 0;
    while i < v.len()
        invariant
            i <= v@.len(),
            sorted_by_key(v@),
            forall|k: int| 0 <= k < i ==> key_lt(#[trigger] v@[k], *o),
        decreases v@.len() - i,
    {
        let c = v[i];
        let below = c.price < o.price || (c.price == o.price && c.id < o.id);
        if !below {
            proof {
                assert forall|k: int| i <= k < v@.len() implies !key_lt(#[trigger] v@[k], *o) by {
                    if k > i {
                        assert(key_lt(v@[i as int], v@[k]));
                    }
                }
            }
            return i;
        }
        i += 1;
    }
    v.len()
}

/// A sequence with nothing to keep filters to nothing.
proof fn lemma_filter_none(s: Seq<SpotOrder>, pred: spec_fn(SpotOrder) -> bool)
    requires
        forall|k: int| 0 <= k < s.len() ==> !pred(#[trigger] s[k]),
    ensures
        s.filter(pred) == Seq::<SpotOrder>::empty(),
    decreases s.len(),
{
    reveal(Seq::filter);
    if s.len() > 0 {
        lemma_filter_none(s.drop_last(), pred);
        assert(!pred(s.last()));
        assert(s.filter(pred) =~= Seq::<SpotOrder>::empty());
    } else {
        assert(s.filter(pred) =~= Seq::<SpotOrder>::empty());
    }
}

/// The first index whose price reaches the bound, found by binary search
/// over the price-sorted side index.
fn lower_bound(v: &Vec<SpotOrder>, min_price: u64) -> (lo: usize)
    requires
        sorted_by_key(v@),
    ensures
        lo <= v@.len(),
        forall|k: int| 0 <= k < lo ==> (#[trigger] v@[k]).price < min_price,
{
    let mut lo: usize = 0;
    let mut hi: usize = v.len();
    while lo < hi
        invariant
            lo <= hi <= v@.len(),
            sorted_by_key(v@),
            forall|k: int| 0 <= k < lo ==> (#[trigger] v@[k]).price < min_price,
        decreases hi - lo,
    {
        let mid = lo + (hi - lo) / 2;
        if v[mid].price < min_price {
            proof {
                assert forall|k: int| 0 <= k < mid + 1 implies
                    (#[trigger] v@[k]).price < min_price by {
                    if k < mid {
                        assert(key_lt(v@[k], v@[mid as int]));
                    }
                }
            }
            lo = mid + 1;
        } else {
            hi = mid;
        }
    }
    lo
}

/// Whether the trade log already holds an equal entry.
fn trades_contains(v: &Vec<TradeEvent>, t: &TradeEvent) -> (r: bool)
    ensures
        r == v@.contains(*t),
{
    let mut i: usize = 0;
    while i < v.len()
        invariant
            i <= v@.len(),
            forall|k: int| 0 <= k < i ==> #[trigger] v@[k] != *t,
        decreases v@.len() - i,
    {
        if v[i] == *t {
            return true;
        }
        i += 1;
    }
    proof {
        if v@.contains(*t) {
            let k = choose|k: int| 0 <= k < v@.len() && v@[k] == *t;
            assert(v@[k] != *t);
        }
    }
    false
}

impl OrderBook {
    /// Insert a new order or update the amount and status of an existing id.
    /// Side is immutable: an upsert that would move an id across sides is
    /// reported and not applied.
    pub fn upsert(&mut self, order: SpotOrder) -> (r: Result<(), StoreError>)
        requires
            old(self).wf(),
        ensures
            final(self).wf(),
            final(self).model() == spec_upsert(old(self).model(), order),
            final(self).trades_view() == old(self).trades_view(),
            r == (if upsert_rejected(old(self).model(), order) {
                Result::<(), StoreError>::Err(StoreError::SideMismatch)
            } else {
                Result::<(), StoreError>::Ok(())
            }),
    {
        let ghost b0 = *self;
        let in_bids = find_idx(&self.bids, order.id);
        if let Option::Some(i) = in_bids {
            proof {
                lemma_idx_unique(b0.bids_view(), i as int, order.id);
                assert(b0.bids_view()[i as int].order_type == OrderType::Buy);
                assert(b0.orders_map()[order.id] == b0.bids_view()[i as int]);
            }
            if order.order_type == OrderType::Buy {
                let merged = SpotOrder { amount: order.amount, status: order.status, ..self.bids[i] };
                self.bids[i] = merged;
                proof {
                    lemma_book_update(b0, *self, OrderType::Buy, i as int, merged);
                    assert(merged == spec_merge(b0.model(), order));
                }
                Result::Ok(())
            } else {
                proof {
                    assert(upsert_rejected(b0.model(), order));
                }
                Result::Err(StoreError::SideMismatch)
            }
        } else {
            let in_asks = find_idx(&self.asks, order.id);
            if let Option::Some(i) = in_asks {
                proof {
                    lemma_idx_unique(b0.asks_view(), i as int, order.id);
                    assert(b0.asks_view()[i as int].order_type == OrderType::Sell);
                    assert(b0.orders_map()[order.id] == b0.asks_view()[i as int]);
                }
                if order.order_type == OrderType::Sell {
                    let merged = SpotOrder { amount: order.amount, status: order.status, ..self.asks[i] };
                    self.asks[i] = merged;
                    proof {
                        lemma_book_update(b0, *self, OrderType::Sell, i as int, merged);
                        assert(merged == spec_merge(b0.model(), order));
                    }
                    Result::Ok(())
                } else {
                    proof {
                        assert(upsert_rejected(b0.model(), order));
                    }
                    Result::Err(StoreError::SideMismatch)
                }
            } else {
                proof {
                    assert(!b0.contains_order(order.id));
                }
                if order.order_type == OrderType::Buy {
                    let p = insert_pos(&self.bids, &order);
                    proof {
                        assert forall|k: int| p <= k < b0.bids_view().len() implies
                            key_lt(order, #[trigger] b0.bids_view()[k]) by {
                            assert(!key_lt(b0.bids_view()[k], order));
                            assert(b0.bids_view()[k].id != order.id);
                        }
                    }
                    self.bids.insert(p, order);
                    proof {
                        lemma_book_insert(b0, *self, OrderType::Buy, p as int, order);
                    }
                } else {
                    let p = insert_pos(&self.asks, &order);
                    proof {
                        assert forall|k: int| p <= k < b0.asks_view().len() implies
                            key_lt(order, #[trigger] b0.asks_view()[k]) by {
                            assert(!key_lt(b0.asks_view()[k], order));
                            assert(b0.asks_view()[k].id != order.id);
                        }
                    }
                    self.asks.insert(p, order);
                    proof {
                        lemma_book_insert(b0, *self, OrderType::Sell, p as int, order);
                    }
                }
                Result::Ok(())
            }
        }
    }

    /// Transition an order to a terminal status. The order is retained so its
    /// status stays queryable; closing an already-closed id is a no-op, and an
    /// unknown id is a reported, non-fatal error.
    pub fn close(&mut self, order_id: u64, terminal_status: OrderStatus) -> (r: Result<(), StoreError>)
        requires
            old(self).wf(),
            is_terminal(terminal_status),
        ensures
            final(self).wf(),
            final(self).model() == spec_close(old(self).model(), order_id, terminal_status),
            final(self).trades_view() == old(self).trades_view(),
            r == (if old(self).contains_order(order_id) {
                Result::<(), StoreError>::Ok(())
            } else {
                Result::<(), StoreError>::Err(StoreError::UnknownId)
            }),
    {
        let ghost b0 = *self;
        let in_bids = find_idx(&self.bids, order_id);
        if let Option::Some(i) = in_bids {
            proof {
                lemma_idx_unique(b0.bids_view(), i as int, order_id);
                assert(b0.orders_map()[order_id] == b0.bids_view()[i as int]);
            }
            let existing = self.bids[i];
            if is_terminal_exec(existing.status) {
                Result::Ok(())
            } else {
                let updated = SpotOrder { status: terminal_status, ..existing };
                self.bids[i] = updated;
                proof {
                    lemma_book_update(b0, *self, OrderType::Buy, i as int, updated);
                }
                Result::Ok(())
            }
        } else {
            let in_asks = find_idx(&self.asks, order_id);
            if let Option::Some(i) = in_asks {
                proof {
                    lemma_idx_unique(b0.asks_view(), i as int, order_id);
                    assert(b0.orders_map()[order_id] == b0.asks_view()[i as int]);
                }
                let existing = self.asks[i];
                if is_terminal_exec(existing.status) {
                    Result::Ok(())
                } else {
                    let updated = SpotOrder { status: terminal_status, ..existing };
                    self.asks[i] = updated;
                    proof {
                        lemma_book_update(b0, *self, OrderType::Sell, i as int, updated);
                    }
                    Result::Ok(())
                }
            } else {
                proof {
                    assert(!b0.contains_order(order_id));
                }
                Result::Err(StoreError::UnknownId)
            }
        }
    }

    /// Append a trade to the log. An entry equal to one already present is
    /// not appended again, so re-delivered events stay idempotent; existing
    /// entries are never altered and the log never shrinks.
    pub fn append_trade(&mut self, t: TradeEvent)
        requires
            old(self).wf(),
        ensures
            final(self).wf(),
            final(self).model() == spec_append_trade(old(self).model(), t),
            final(self).bids_view() == old(self).bids_view(),
            final(self).asks_view() == old(self).asks_view(),
            old(self).trades_view().is_prefix_of(final(self).trades_view()),
    {
        let ghost b0 = *self;
        let present = trades_contains(&self.trades, &t);
        if !present {
            self.trades.push(t);
        }
        proof {
            assert(self.orders_map() =~= b0.orders_map());
            if present {
                assert(self.trades_view() =~= b0.trades_view());
                assert(self.model() =~= spec_append_trade(b0.model(), t));
                assert(b0.trades_view().is_prefix_of(self.trades_view())) by {
                    assert(b0.trades_view() =~= self.trades_view().subrange(0, b0.trades_view().len() as int));
                }
            } else {
                assert(self.trades_view() == b0.trades_view().push(t));
                assert(self.model() =~= spec_append_trade(b0.model(), t));
                assert(b0.trades_view().is_prefix_of(self.trades_view())) by {
                    assert(b0.trades_view() =~= self.trades_view().subrange(0, b0.trades_view().len() as int));
                }
            }
        }
    }

    /// All open orders on the side with price inside the inclusive bounds,
    /// price-ascending. A snapshot: exactly the filter of the side index.
    /// Subscriptions re-issue these every second, so the walk descends to the
    /// lower bound by binary search and stops at the first price past the
    /// upper bound: logarithmic descent plus the width of the price window.
    pub fn get_orders_in_range(&self, min_price: u64, max_price: u64, side: OrderType) -> (r: Vec<SpotOrder>)
        requires
            self.wf(),
        ensures
            r@ == self.side_view(side).filter(range_pred(min_price, max_price)),
    {
        let v = match side {
            OrderType::Buy => &self.bids,
            OrderType::Sell => &self.asks,
        };
        proof {
            assert(v@ == self.side_view(side));
        }
        let ghost pred = range_pred(min_price, max_price);
        let lo = lower_bound(v, min_price);
        let mut r: Vec<SpotOrder> = Vec::new();
        let mut i: usize = lo;
        proof {
            let head = v@.take(lo as int);
            assert forall|k: int| 0 <= k < head.len() implies !pred(#[trigger] head[k]) by {
                assert(head[k] == v@[k]);
                assert(v@[k].price < min_price);
            }
            lemma_filter_none(head, pred);
        }
        while i < v.len()
            invariant
                lo <= i <= v@.len(),
                sorted_by_key(v@),
                v@ == self.side_view(side),
                r@ == v@.take(i as int).filter(pred),
                pred == range_pred(min_price, max_price),
            decreases v@.len() - i,
        {
            let o = v[i];
            if o.price > max_price {
                // Everything from here on is priced past the bound.
                proof {
                    let tail = v@.skip(i as int);
                    assert forall|k: int| 0 <= k < tail.len() implies !pred(#[trigger] tail[k]) by {
                        if k > 0 {
                            assert(key_lt(v@[i as int], v@[i as int + k]));
                        }
                        assert(tail[k] == v@[i as int + k]);
                    }
                    lemma_filter_none(tail, pred);
                    assert(v@.take(i as int) + tail =~= v@);
                    Seq::<SpotOrder>::filter_distributes_over_add(v@.take(i as int), tail, pred);
                    assert(v@.take(i as int).filter(pred) + Seq::<SpotOrder>::empty()
                        =~= v@.take(i as int).filter(pred));
                }
                return r;
            }
            let open = !is_terminal_exec(o.status);
            proof {
                let t1 = v@.take(i as int + 1);
                assert(t1.drop_last() =~= v@.take(i as int));
                assert(t1.last() == o);
                reveal(Seq::filter);
                assert(t1.filter(pred) == if pred(o) {
                    v@.take(i as int).filter(pred).push(o)
                } else {
                    v@.take(i as int).filter(pred)
                });
            }
            if open && min_price <= o.price {
                r.push(o);
            }
            i += 1;
        }
        proof {
            assert(v@.take(v@.len() as int) =~= v@);
        }
        r
    }

    /// The order under the id, whatever its status: closed orders are
    /// retained, so their status stays queryable.
    pub fn get_order(&self, id: u64) -> (r: Option<SpotOrder>)
        requires
            self.wf(),
        ensures
            r == (if self.model().orders.contains_key(id) {
                Option::Some(self.model().orders[id])
            } else {
                Option::<SpotOrder>::None
            }),
    {
        let in_bids = find_idx(&self.bids, id);
        if let Option::Some(i) = in_bids {
            proof {
                lemma_idx_unique(self.bids_view(), i as int, id);
            }
            return Option::Some(self.bids[i]);
        }
        let in_asks = find_idx(&self.asks, id);
        if let Option::Some(i) = in_asks {
            proof {
                lemma_idx_unique(self.asks_view(), i as int, id);
            }
            return Option::Some(self.asks[i]);
        }
        Option::None
    }

    /// The trade log, oldest first. A snapshot: exactly the log's contents.
    pub fn get_trade_events(&self) -> (r: Vec<TradeEvent>)
        ensures
            r@ == self.trades_view(),
    {
        let mut r: Vec<TradeEvent> = Vec::new();
        let mut i: usize = 0;
        while i < self.trades.len()
            invariant
                i <= self.trades@.len(),
                r@ == self.trades@.take(i as int),
            decreases self.trades@.len() - i,
        {
            r.push(self.trades[i]);
            proof {
                assert(r@ =~= self.trades@.take(i as int + 1));
            }
            i += 1;
        }
        proof {
            assert(self.trades@.take(self.trades@.len() as int) =~= self.trades@);
        }
        r
    }
}

// ---------------------------------------------------------------------------
// Laws of the store
// ---------------------------------------------------------------------------

/// Range correctness: a range query's result holds an order exactly when the
/// store holds that order under its id, it rests on the queried side, it is
/// open, and its price lies inside the inclusive bounds.
pub proof fn lemma_range_exact(b: OrderBook, min_price: u64, max_price: u64, side: OrderType, o: SpotOrder)
    requires
        b.wf(),
    ensures
        b.side_view(side).filter(range_pred(min_price, max_price)).contains(o) <==> {
            &&& b.model().orders.contains_key(o.id)
            &&& b.model().orders[o.id] == o
            &&& o.order_type == side
            &&& is_open_status(o.status)
            &&& min_price <= o.price
            &&& o.price <= max_price
        },
{
    let s = b.side_view(side);
    let pred = range_pred(min_price, max_price);
    let f = s.filter(pred);
    if f.contains(o) {
        let fi = choose|fi: int| 0 <= fi < f.len() && f[fi] == o;
        s.lemma_filter_pred(pred, fi);
        s.lemma_filter_contains_rev(pred, o);
        let k = choose|k: int| 0 <= k < s.len() && s[k] == o;
        assert(s[k].order_type == side);
        if side == OrderType::Buy {
            lemma_idx_unique(b.bids_view(), k, o.id);
            assert(b.contains_order(o.id));
            assert(b.order_of(o.id) == o);
        } else {
            lemma_idx_unique(b.asks_view(), k, o.id);
            assert(!has_id(b.bids_view(), o.id));
            assert(b.contains_order(o.id));
            assert(b.order_of(o.id) == o);
        }
    }
    if b.model().orders.contains_key(o.id) && b.model().orders[o.id] == o && o.order_type == side
        && is_open_status(o.status) && min_price <= o.price && o.price <= max_price {
        assert(b.contains_order(o.id));
        assert(b.order_of(o.id) == o);
        if has_id(b.bids_view(), o.id) {
            let k = idx_of(b.bids_view(), o.id);
            assert(0 <= k < b.bids_view().len() && b.bids_view()[k].id == o.id);
            assert(b.bids_view()[k] == o);
            assert(b.bids_view()[k].order_type == OrderType::Buy);
            assert(side == OrderType::Buy);
            assert(s[k] == o);
            assert(pred(s[k]));
            s.lemma_filter_contains(pred, k);
        } else {
            let k = idx_of(b.asks_view(), o.id);
            assert(0 <= k < b.asks_view().len() && b.asks_view()[k].id == o.id);
            assert(b.asks_view()[k] == o);
            assert(b.asks_view()[k].order_type == OrderType::Sell);
            assert(side == OrderType::Sell);
            assert(s[k] == o);
            assert(pred(s[k]));
            s.lemma_filter_contains(pred, k);
        }
    }
}

/// Side invariant: no id appears in a bid-side range result and an ask-side
/// range result at the same time, whatever the bounds of either query.
pub proof fn lemma_sides_exclusive(
    b: OrderBook,
    bid_min: u64,
    bid_max: u64,
    ask_min: u64,
    ask_max: u64,
    id: u64,
)
    requires
        b.wf(),
    ensures
        !(has_id(b.bids_view().filter(range_pred(bid_min, bid_max)), id)
            && has_id(b.asks_view().filter(range_pred(ask_min, ask_max)), id)),
{
    let fb = b.bids_view().filter(range_pred(bid_min, bid_max));
    let fa = b.asks_view().filter(range_pred(ask_min, ask_max));
    if has_id(fb, id) && has_id(fa, id) {
        let i = choose|i: int| 0 <= i < fb.len() && fb[i].id == id;
        let j = choose|j: int| 0 <= j < fa.len() && fa[j].id == id;
        b.bids_view().lemma_filter_contains_rev(range_pred(bid_min, bid_max), fb[i]);
        b.asks_view().lemma_filter_contains_rev(range_pred(ask_min, ask_max), fa[j]);
        let k = choose|k: int| 0 <= k < b.bids_view().len() && b.bids_view()[k] == fb[i];
        let l = choose|l: int| 0 <= l < b.asks_view().len() && b.asks_view()[l] == fa[j];
        assert(has_id(b.bids_view(), id));
        assert(has_id(b.asks_view(), id));
    }
}

} // verus!
