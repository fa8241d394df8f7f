use dex_mirror::codec::{decode, encode, DecodeError, EventBody, RawEvent};
use dex_mirror::types::OrderType;

fn open_ev(block: u64, market: u64, id: u64, side: OrderType, amount: u64, price: u64) -> RawEvent {
    RawEvent {
        block_number: block,
        market_id: market,
        order_id: id,
        body: EventBody::Open {
            order_type: side,
            user: 11,
            asset: 22,
            amount,
            price,
            timestamp: 1_700_000_000,
        },
    }
}

fn fill_ev(block: u64, market: u64, id: u64, side: OrderType, trade_price: u64, trade_size: u64) -> RawEvent {
    RawEvent {
        block_number: block,
        market_id: market,
        order_id: id,
        body: EventBody::Fill {
            order_type: side,
            user: 11,
            asset: 22,
            amount: 0,
            price: trade_price,
            timestamp: 1_700_000_001,
            trade_price,
            trade_size,
        },
    }
}

#[test]
fn roundtrip_open() {
    let e = open_ev(101, 7, 1, OrderType::Buy, 10, 50);
    let bytes = encode(&e);
    assert_eq!(bytes.len(), 66);
    assert_eq!(decode(&bytes), Ok(e));
}

#[test]
fn roundtrip_fill() {
    let e = fill_ev(103, 7, 1, OrderType::Buy, 50, 10);
    let bytes = encode(&e);
    assert_eq!(bytes.len(), 82);
    assert_eq!(decode(&bytes), Ok(e));
}

#[test]
fn roundtrip_partial_fill() {
    let e = RawEvent {
        block_number: 104,
        market_id: 7,
        order_id: 9,
        body: EventBody::PartialFill {
            order_type: OrderType::Sell,
            user: 3,
            asset: 4,
            amount: 5,
            price: 6,
            timestamp: 7,
            trade_price: 8,
            trade_size: 9,
        },
    };
    let bytes = encode(&e);
    assert_eq!(decode(&bytes), Ok(e));
}

#[test]
fn roundtrip_cancel() {
    let e = RawEvent { block_number: 105, market_id: 7, order_id: 2, body: EventBody::Cancel };
    let bytes = encode(&e);
    assert_eq!(bytes.len(), 25);
    assert_eq!(decode(&bytes), Ok(e));
}

#[test]
fn decode_exact_bytes() {
    // A cancel record written out by hand: kind 3, block 258, market 1, order 2.
    let mut bytes: Vec<u8> = vec![3];
    bytes.extend_from_slice(&[2, 1, 0, 0, 0, 0, 0, 0]); // 258 little-endian
    bytes.extend_from_slice(&[1, 0, 0, 0, 0, 0, 0, 0]);
    bytes.extend_from_slice(&[2, 0, 0, 0, 0, 0, 0, 0]);
    let e = decode(&bytes).unwrap();
    assert_eq!(e.block_number, 258);
    assert_eq!(e.market_id, 1);
    assert_eq!(e.order_id, 2);
    assert_eq!(e.body, EventBody::Cancel);
}

#[test]
fn too_short_record() {
    let bytes: Vec<u8> = vec![0, 1, 2];
    assert_eq!(decode(&bytes), Err(DecodeError::TooShort));
}

#[test]
fn bad_kind_record() {
    let mut bytes: Vec<u8> = vec![9];
    bytes.extend_from_slice(&[0u8; 24]);
    assert_eq!(decode(&bytes), Err(DecodeError::BadKind));
}

#[test]
fn bad_block_record() {
    let mut bytes: Vec<u8> = vec![3];
    bytes.extend_from_slice(&[0xFF; 8]);
    bytes.extend_from_slice(&[0u8; 16]);
    assert_eq!(decode(&bytes), Err(DecodeError::BadBlock));
}

#[test]
fn bad_length_record() {
    // A cancel record with a trailing byte.
    let mut bytes: Vec<u8> = vec![3];
    bytes.extend_from_slice(&[0u8; 24]);
    bytes.push(0);
    assert_eq!(decode(&bytes), Err(DecodeError::BadLength));
}

#[test]
fn bad_side_record() {
    let e = open_ev(101, 7, 1, OrderType::Buy, 10, 50);
    let mut bytes = encode(&e);
    bytes[25] = 2;
    assert_eq!(decode(&bytes), Err(DecodeError::BadSide));
}
