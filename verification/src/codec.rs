//! The event decoder: a raw byte record becomes a typed event, or a decode
//! error on malformed encoding or schema violation. Stateless and pure.
//!
//! Record layout (all integers little-endian):
//! byte 0 is the event kind, bytes 1..25 are block number, market id and
//! order id. A cancel record ends there. An open record adds a side byte and
//! user, asset, amount, price, timestamp. A fill or partial-fill record adds
//! the same plus trade price and trade size. A block number with every bit
//! set is reserved (the resume cursor must be able to step past any block),
//! so such a record is a schema violation.

use vstd::prelude::*;
use vstd::arithmetic::div_mod::lemma_fundamental_div_mod;
use crate::types::OrderType;

verus! {

/// Why a record failed to decode. Malformed records are dropped by the
/// pipeline; they never stop ingestion.
#[derive(Clone, Copy, Debug, PartialEq, Eq, Structural)]
pub enum DecodeError {
    /// Shorter than the fixed header.
    TooShort,
    /// An event kind outside the known taxonomy.
    BadKind,
    /// The reserved all-ones block number.
    BadBlock,
    /// The record's length does not match its kind.
    BadLength,
    /// A side byte that is neither buy nor sell.
    BadSide,
}

/// The payload of one decoded event.
#[derive(Clone, Copy, Debug, PartialEq, Eq, Structural)]
pub enum EventBody {
    /// A new order enters the book.
    Open { order_type: OrderType, user: u64, asset: u64, amount: u64, price: u64, timestamp: u64 },
    /// An order is filled completely; a trade is realized.
    Fill {
        order_type: OrderType,
        user: u64,
        asset: u64,
        amount: u64,
        price: u64,
        timestamp: u64,
        trade_price: u64,
        trade_size: u64,
    },
    /// An order is filled in part; a trade is realized.
    PartialFill {
        order_type: OrderType,
        user: u64,
        asset: u64,
        amount: u64,
        price: u64,
        timestamp: u64,
        trade_price: u64,
        trade_size: u64,
    },
    /// An order is cancelled.
    Cancel,
}

/// One decoded event: where it happened and what it says.
#[derive(Clone, Copy, Debug, PartialEq, Eq, Structural)]
pub struct RawEvent {
    pub block_number: u64,
    pub market_id: u64,
    pub order_id: u64,
    pub body: EventBody,
}

/// A decoded event never carries the reserved block number.
pub open spec fn event_wf(e: RawEvent) -> bool {
    e.block_number < 0xFFFF_FFFF_FFFF_FFFF
}

/// The little-endian value of the eight bytes at `off`.
pub open spec fn le64_int(s: Seq<u8>, off: int) -> int
    recommends
        0 <= off,
        off + 8 <= s.len(),
{
    (s[off] as int) + 256 * ((s[off + 1] as int) + 256 * ((s[off + 2] as int) + 256 * ((s[off
        + 3] as int) + 256 * ((s[off + 4] as int) + 256 * ((s[off + 5] as int) + 256 * ((s[off
        + 6] as int) + 256 * (s[off + 7] as int)))))))
}

/// The same value as a machine word.
pub open spec fn le64_u(s: Seq<u8>, off: int) -> u64 {
    le64_int(s, off) as u64
}

/// Eight bytes always fit a word.
pub proof fn lemma_le64_bounds(s: Seq<u8>, off: int)
    requires
        0 <= off,
        off + 8 <= s.len(),
    ensures
        0 <= le64_int(s, off) < 0x1_0000_0000_0000_0000,
        le64_u(s, off) as int == le64_int(s, off),
{
}

/// The value reads the same after bytes are appended beyond it.
pub proof fn lemma_le64_frame(s1: Seq<u8>, s2: Seq<u8>, off: int)
    requires
        0 <= off,
        off + 8 <= s1.len(),
        s1.len() <= s2.len(),
        forall|k: int| 0 <= k < s1.len() ==> s2[k] == s1[k],
    ensures
        le64_int(s2, off) == le64_int(s1, off),
{
}

/// Side bytes: 0 is buy, 1 is sell.
pub open spec fn side_of_byte(b: u8) -> OrderType {
    if b == 0 {
        OrderType::Buy
    } else {
        OrderType::Sell
    }
}

/// What any byte record decodes to.
pub open spec fn spec_decode(s: Seq<u8>) -> Result<RawEvent, DecodeError> {
    if s.len() < 25 {
        Err(DecodeError::TooShort)
    } else if s[0] > 3 {
        Err(DecodeError::BadKind)
    } else if le64_int(s, 1) == 0xFFFF_FFFF_FFFF_FFFF {
        Err(DecodeError::BadBlock)
    } else if s[0] == 3 {
        if s.len() != 25 {
            Err(DecodeError::BadLength)
        } else {
            Ok(RawEvent {
                block_number: le64_u(s, 1),
                market_id: le64_u(s, 9),
                order_id: le64_u(s, 17),
                body: EventBody::Cancel,
            })
        }
    } else if s[0] == 0 {
        if s.len() != 66 {
            Err(DecodeError::BadLength)
        } else if s[25] > 1 {
            Err(DecodeError::BadSide)
        } else {
            Ok(RawEvent {
                block_number: le64_u(s, 1),
                market_id: le64_u(s, 9),
                order_id: le64_u(s, 17),
                body: EventBody::Open {
                    order_type: side_of_byte(s[25]),
                    user: le64_u(s, 26),
                    asset: le64_u(s, 34),
                    amount: le64_u(s, 42),
                    price: le64_u(s, 50),
                    timestamp: le64_u(s, 58),
                },
            })
        }
    } else if s.len() != 82 {
        Err(DecodeError::BadLength)
    } else if s[25] > 1 {
        Err(DecodeError::BadSide)
    } else if s[0] == 1 {
        Ok(RawEvent {
            block_number: le64_u(s, 1),
            market_id: le64_u(s, 9),
            order_id: le64_u(s, 17),
            body: EventBody::Fill {
                order_type: side_of_byte(s[25]),
                user: le64_u(s, 26),
                asset: le64_u(s, 34),
                amount: le64_u(s, 42),
                price: le64_u(s, 50),
                timestamp: le64_u(s, 58),
                trade_price: le64_u(s, 66),
                trade_size: le64_u(s, 74),
            },
        })
    } else {
        Ok(RawEvent {
            block_number: le64_u(s, 1),
            market_id: le64_u(s, 9),
            order_id: le64_u(s, 17),
            body: EventBody::PartialFill {
                order_type: side_of_byte(s[25]),
                user: le64_u(s, 26),
                asset: le64_u(s, 34),
                amount: le64_u(s, 42),
                price: le64_u(s, 50),
                timestamp: le64_u(s, 58),
                trade_price: le64_u(s, 66),
                trade_size: le64_u(s, 74),
            },
        })
    }
}

/// A successful decode never yields the reserved block number.
pub proof fn lemma_decode_wf(s: Seq<u8>, e: RawEvent)
    requires
        spec_decode(s) == Ok::<RawEvent, DecodeError>(e),
    ensures
        event_wf(e),
{
    lemma_le64_bounds(s, 1);
}

/// Read the word at `off`.
fn read_le64(b: &Vec<u8>, off: usize) -> (r: u64)
    requires
        off + 8 <= b.len(),
    ensures
        r == le64_u(b@, off as int),
        r as int == le64_int(b@, off as int),
{
    let x7: u64 = b[off + 7] as u64;
    let x6: u64 = (b[off + 6] as u64) + 256 * x7;
    let x5: u64 = (b[off + 5] as u64) + 256 * x6;
    let x4: u64 = (b[off + 4] as u64) + 256 * x5;
    let x3: u64 = (b[off + 3] as u64) + 256 * x4;
    let x2: u64 = (b[off + 2] as u64) + 256 * x3;
    let x1: u64 = (b[off + 1] as u64) + 256 * x2;
    let x0: u64 = (b[off] as u64) + 256 * x1;
    proof {
        lemma_le64_bounds(b@, off as int);
    }
    x0
}

/// Read the side byte.
fn read_side(b: u8) -> (r: OrderType)
    ensures
        r == side_of_byte(b),
{
    if b == 0 {
        OrderType::Buy
    } else {
        OrderType::Sell
    }
}

/// Decode one byte record into a typed event: exactly `spec_decode`.
pub fn decode(bytes: &Vec<u8>) -> (r: Result<RawEvent, DecodeError>)
    ensures
        r == spec_decode(bytes@),
{
    if bytes.len() < 25 {
        return Err(DecodeError::TooShort);
    }
    let kind = bytes[0];
    if kind > 3 {
        return Err(DecodeError::BadKind);
    }
    let block_number = read_le64(bytes, 1);
    if block_number == 0xFFFF_FFFF_FFFF_FFFF {
        proof {
            lemma_le64_bounds(bytes@, 1);
        }
        return Err(DecodeError::BadBlock);
    }
    proof {
        lemma_le64_bounds(bytes@, 1);
    }
    let market_id = read_le64(bytes, 9);
    let order_id = read_le64(bytes, 17);
    if kind == 3 {
        if bytes.len() != 25 {
            return Err(DecodeError::BadLength);
        }
        return Ok(RawEvent { block_number, market_id, order_id, body: EventBody::Cancel });
    }
    if kind == 0 {
        if bytes.len() != 66 {
            return Err(DecodeError::BadLength);
        }
        if bytes[25] > 1 {
            return Err(DecodeError::BadSide);
        }
        let body = EventBody::Open {
            order_type: read_side(bytes[25]),
            user: read_le64(bytes, 26),
            asset: read_le64(bytes, 34),
            amount: read_le64(bytes, 42),
            price: read_le64(bytes, 50),
            timestamp: read_le64(bytes, 58),
        };
        return Ok(RawEvent { block_number, market_id, order_id, body });
    }
    if bytes.len() != 82 {
        return Err(DecodeError::BadLength);
    }
    if bytes[25] > 1 {
        return Err(DecodeError::BadSide);
    }
    let order_type = read_side(bytes[25]);
    let user = read_le64(bytes, 26);
    let asset = read_le64(bytes, 34);
    let amount = read_le64(bytes, 42);
    let price = read_le64(bytes, 50);
    let timestamp = read_le64(bytes, 58);
    let trade_price = read_le64(bytes, 66);
    let trade_size = read_le64(bytes, 74);
    if kind == 1 {
        let body = EventBody::Fill {
            order_type, user, asset, amount, price, timestamp, trade_price, trade_size,
        };
        Ok(RawEvent { block_number, market_id, order_id, body })
    } else {
        let body = EventBody::PartialFill {
            order_type, user, asset, amount, price, timestamp, trade_price, trade_size,
        };
        Ok(RawEvent { block_number, market_id, order_id, body })
    }
}

/// Append the word's eight little-endian bytes.
fn write_le64(r: &mut Vec<u8>, n: u64)
    ensures
        final(r)@.len() == old(r)@.len() + 8,
        forall|k: int| 0 <= k < old(r)@.len() ==> final(r)@[k] == old(r)@[k],
        le64_int(final(r)@, old(r)@.len() as int) == n as int,
{
    let d0: u8 = (n % 256) as u8;
    let n1: u64 = n / 256;
    let d1: u8 = (n1 % 256) as u8;
    let n2: u64 = n1 / 256;
    let d2: u8 = (n2 % 256) as u8;
    let n3: u64 = n2 / 256;
    let d3: u8 = (n3 % 256) as u8;
    let n4: u64 = n3 / 256;
    let d4: u8 = (n4 % 256) as u8;
    let n5: u64 = n4 / 256;
    let d5: u8 = (n5 % 256) as u8;
    let n6: u64 = n5 / 256;
    let d6: u8 = (n6 % 256) as u8;
    let n7: u64 = n6 / 256;
    let d7: u8 = (n7 % 256) as u8;
    proof {
        lemma_fundamental_div_mod(n as int, 256);
        lemma_fundamental_div_mod(n1 as int, 256);
        lemma_fundamental_div_mod(n2 as int, 256);
        lemma_fundamental_div_mod(n3 as int, 256);
        lemma_fundamental_div_mod(n4 as int, 256);
        lemma_fundamental_div_mod(n5 as int, 256);
        lemma_fundamental_div_mod(n6 as int, 256);
        assert(n7 < 256);
        assert(d7 == n7);
    }
    r.push(d0);
    r.push(d1);
    r.push(d2);
    r.push(d3);
    r.push(d4);
    r.push(d5);
    r.push(d6);
    r.push(d7);
    proof {
        let off = old(r)@.len() as int;
        assert(r@[off] == d0);
        assert(r@[off + 1] == d1);
        assert(r@[off + 2] == d2);
        assert(r@[off + 3] == d3);
        assert(r@[off + 4] == d4);
        assert(r@[off + 5] == d5);
        assert(r@[off + 6] == d6);
        assert(r@[off + 7] == d7);
    }
}

/// The kind byte of a body.
fn kind_byte(body: &EventBody) -> (r: u8)
    ensures
        r == (match *body {
            EventBody::Open { .. } => 0u8,
            EventBody::Fill { .. } => 1u8,
            EventBody::PartialFill { .. } => 2u8,
            EventBody::Cancel => 3u8,
        }),
{
    match body {
        EventBody::Open { .. } => 0,
        EventBody::Fill { .. } => 1,
        EventBody::PartialFill { .. } => 2,
        EventBody::Cancel => 3,
    }
}

/// The side byte of a side.
fn side_byte(t: OrderType) -> (r: u8)
    ensures
        r <= 1,
        side_of_byte(r) == t,
{
    match t {
        OrderType::Buy => 0,
        OrderType::Sell => 1,
    }
}

/// Encode an event so that decoding gives it back exactly.
#[verifier::rlimit(60)]
pub fn encode(e: &RawEvent) -> (r: Vec<u8>)
    requires
        event_wf(*e),
    ensures
        spec_decode(r@) == Ok::<RawEvent, DecodeError>(*e),
{
    let mut r: Vec<u8> = Vec::new();
    r.push(kind_byte(&e.body));
    write_le64(&mut r, e.block_number);
    let ghost after_block = r@;
    write_le64(&mut r, e.market_id);
    let ghost after_market = r@;
    write_le64(&mut r, e.order_id);
    let ghost after_oid = r@;
    match &e.body {
        EventBody::Cancel => {},
        EventBody::Open { order_type, user, asset, amount, price, timestamp } => {
            r.push(side_byte(*order_type));
            write_le64(&mut r, *user);
            write_le64(&mut r, *asset);
            write_le64(&mut r, *amount);
            write_le64(&mut r, *price);
            write_le64(&mut r, *timestamp);
        },
        EventBody::Fill { order_type, user, asset, amount, price, timestamp, trade_price, trade_size } => {
            r.push(side_byte(*order_type));
            write_le64(&mut r, *user);
            write_le64(&mut r, *asset);
            write_le64(&mut r, *amount);
            write_le64(&mut r, *price);
            write_le64(&mut r, *timestamp);
            write_le64(&mut r, *trade_price);
            write_le64(&mut r, *trade_size);
        },
        EventBody::PartialFill { order_type, user, asset, amount, price, timestamp, trade_price, trade_size } => {
            r.push(side_byte(*order_type));
            write_le64(&mut r, *user);
            write_le64(&mut r, *asset);
            write_le64(&mut r, *amount);
            write_le64(&mut r, *price);
            write_le64(&mut r, *timestamp);
            write_le64(&mut r, *trade_price);
            write_le64(&mut r, *trade_size);
        },
    }
    proof {
        lemma_le64_frame(after_block, r@, 1);
        lemma_le64_frame(after_market, r@, 9);
        lemma_le64_frame(after_oid, r@, 17);
        lemma_le64_bounds(r@, 1);
        lemma_le64_bounds(r@, 9);
        lemma_le64_bounds(r@, 17);
        assert(le64_u(r@, 1) == e.block_number);
        assert(le64_u(r@, 9) == e.market_id);
        assert(le64_u(r@, 17) == e.order_id);
        match e.body {
            EventBody::Cancel => {
                assert(r@.len() == 25);
                assert(r@[0] == 3);
            },
            EventBody::Open { order_type, user, asset, amount, price, timestamp } => {
                assert(r@.len() == 66);
                assert(r@[0] == 0);
                assert(side_of_byte(r@[25]) == order_type);
                lemma_le64_bounds(r@, 26);
                lemma_le64_bounds(r@, 34);
                lemma_le64_bounds(r@, 42);
                lemma_le64_bounds(r@, 50);
                lemma_le64_bounds(r@, 58);
                assert(le64_u(r@, 26) == user);
                assert(le64_u(r@, 34) == asset);
                assert(le64_u(r@, 42) == amount);
                assert(le64_u(r@, 50) == price);
                assert(le64_u(r@, 58) == timestamp);
            },
            EventBody::Fill { order_type, user, asset, amount, price, timestamp, trade_price, trade_size } => {
                assert(r@.len() == 82);
                assert(r@[0] == 1);
                assert(side_of_byte(r@[25]) == order_type);
                lemma_le64_bounds(r@, 26);
                lemma_le64_bounds(r@, 34);
                lemma_le64_bounds(r@, 42);
                lemma_le64_bounds(r@, 50);
                lemma_le64_bounds(r@, 58);
                lemma_le64_bounds(r@, 66);
                lemma_le64_bounds(r@, 74);
                assert(le64_u(r@, 26) == user);
                assert(le64_u(r@, 34) == asset);
                assert(le64_u(r@, 42) == amount);
                assert(le64_u(r@, 50) == price);
                assert(le64_u(r@, 58) == timestamp);
                assert(le64_u(r@, 66) == trade_price);
                assert(le64_u(r@, 74) == trade_size);
            },
            EventBody::PartialFill { order_type, user, asset, amount, price, timestamp, trade_price, trade_size } => {
                assert(r@.len() == 82);
                assert(r@[0] == 2);
                assert(side_of_byte(r@[25]) == order_type);
                lemma_le64_bounds(r@, 26);
                lemma_le64_bounds(r@, 34);
                lemma_le64_bounds(r@, 42);
                lemma_le64_bounds(r@, 50);
                lemma_le64_bounds(r@, 58);
                lemma_le64_bounds(r@, 66);
                lemma_le64_bounds(r@, 74);
                assert(le64_u(r@, 26) == user);
                assert(le64_u(r@, 34) == asset);
                assert(le64_u(r@, 42) == amount);
                assert(le64_u(r@, 50) == price);
                assert(le64_u(r@, 58) == timestamp);
                assert(le64_u(r@, 66) == trade_price);
                assert(le64_u(r@, 74) == trade_size);
            },
        }
    }
    r
}

} // verus!
