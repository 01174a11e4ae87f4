//! Synthetic order-book updates, and how they are laid out in an arena.

use vstd::prelude::*;
use crate::bits::is_power_of_two;
use crate::codec::{ArenaValue, le_bytes, le_value, push_le, read_le, lemma_pow256_values, lemma_le_roundtrip, lemma_pow2_small};
use crate::arena::header::le_field;

verus! {

#[derive(Debug, Clone, Copy, PartialEq, Eq, Structural)]
pub enum Side {
    Bid,
    Ask,
}

#[derive(Debug, Clone, Copy, PartialEq, Eq, Structural)]
pub struct OrderUpdate {
    pub sequence: u64,
    pub instrument_id: u32,
    pub side: Side,
    pub price_ticks: u64,
    pub quantity: u32,
    pub event_ts_ns: u64,
}

/// Timestamp every synthetic update is offset from.
pub const SYNTHETIC_EPOCH_NS: u64 = 1_700_000_000_000_000_000;

/// The update generated for `sequence`: every field is a fixed function of
/// the sequence number, so runs can be compared.
pub open spec fn synthetic_update(sequence: u64) -> OrderUpdate {
    OrderUpdate {
        sequence,
        instrument_id: ((sequence % 2048) + 1) as u32,
        side: if sequence % 2 == 0 {
            Side::Bid
        } else {
            Side::Ask
        },
        price_ticks: (100_000 + (sequence % 10_000)) as u64,
        quantity: ((sequence % 128) + 1) as u32,
        event_ts_ns: if SYNTHETIC_EPOCH_NS + sequence > u64::MAX {
            u64::MAX
        } else {
            (SYNTHETIC_EPOCH_NS + sequence) as u64
        },
    }
}

impl OrderUpdate {
    pub fn synthetic(sequence: u64) -> (r: OrderUpdate)
        ensures
            r == synthetic_update(sequence),
    {
        OrderUpdate {
            sequence,
            instrument_id: ((sequence % 2048) + 1) as u32,
            side: if sequence % 2 == 0 {
                Side::Bid
            } else {
                Side::Ask
            },
            price_ticks: 100_000 + (sequence % 10_000),
            quantity: ((sequence % 128) + 1) as u32,
            event_ts_ns: SYNTHETIC_EPOCH_NS.saturating_add(sequence),
        }
    }
}

/// The byte a side is stored as.
pub open spec fn side_byte(s: Side) -> nat {
    match s {
        Side::Bid => 0,
        Side::Ask => 1,
    }
}

/// The 40 bytes an update is stored as: the three 64-bit fields, the two
/// 32-bit fields, the side, and seven bytes of padding.
pub open spec fn order_bytes(o: OrderUpdate) -> Seq<u8> {
    le_bytes(o.sequence as nat, 8) + le_bytes(o.price_ticks as nat, 8) + le_bytes(
        o.event_ts_ns as nat,
        8,
    ) + le_bytes(o.instrument_id as nat, 4) + le_bytes(o.quantity as nat, 4) + le_bytes(
        side_byte(o.side),
        1,
    ) + le_bytes(0, 7)
}

/// The update stored in `b`; any nonzero side byte reads as `Ask`.
pub open spec fn order_from_bytes(b: Seq<u8>) -> OrderUpdate {
    OrderUpdate {
        sequence: le_field(b, 0, 8) as u64,
        price_ticks: le_field(b, 8, 8) as u64,
        event_ts_ns: le_field(b, 16, 8) as u64,
        instrument_id: le_field(b, 24, 4) as u32,
        quantity: le_field(b, 28, 4) as u32,
        side: if le_field(b, 32, 1) == 0 {
            Side::Bid
        } else {
            Side::Ask
        },
    }
}

impl ArenaValue for OrderUpdate {
    open spec fn spec_size() -> nat {
        40
    }

    open spec fn spec_align() -> nat {
        8
    }

    open spec fn spec_encode(v: OrderUpdate) -> Seq<u8> {
        order_bytes(v)
    }

    open spec fn spec_decode(bytes: Seq<u8>) -> OrderUpdate {
        order_from_bytes(bytes)
    }

    proof fn lemma_codec(v: OrderUpdate) {
        lemma_pow256_values();
        lemma_le_roundtrip(v.sequence as nat, 8);
        lemma_le_roundtrip(v.price_ticks as nat, 8);
        lemma_le_roundtrip(v.event_ts_ns as nat, 8);
        lemma_le_roundtrip(v.instrument_id as nat, 4);
        lemma_le_roundtrip(v.quantity as nat, 4);
        lemma_le_roundtrip(side_byte(v.side), 1);
        lemma_le_roundtrip(0, 7);
        let b = order_bytes(v);
        assert(b.subrange(0, 8) =~= le_bytes(v.sequence as nat, 8));
        assert(b.subrange(8, 16) =~= le_bytes(v.price_ticks as nat, 8));
        assert(b.subrange(16, 24) =~= le_bytes(v.event_ts_ns as nat, 8));
        assert(b.subrange(24, 28) =~= le_bytes(v.instrument_id as nat, 4));
        assert(b.subrange(28, 32) =~= le_bytes(v.quantity as nat, 4));
        assert(b.subrange(32, 33) =~= le_bytes(side_byte(v.side), 1));
    }

    proof fn lemma_shape() {
        lemma_pow2_small();
    }

    fn size() -> (r: usize) {
        40
    }

    fn align() -> (r: usize) {
        8
    }

    fn encode(&self) -> (r: Vec<u8>) {
        proof {
            lemma_pow256_values();
        }
        let mut out: Vec<u8> = Vec::new();
        push_le(&mut out, self.sequence, 8);
        push_le(&mut out, self.price_ticks, 8);
        push_le(&mut out, self.event_ts_ns, 8);
        push_le(&mut out, self.instrument_id as u64, 4);
        push_le(&mut out, self.quantity as u64, 4);
        let side: u64 = match self.side {
            Side::Bid => 0,
            Side::Ask => 1,
        };
        push_le(&mut out, side, 1);
        push_le(&mut out, 0, 7);
        assert(out@ =~= order_bytes(*self));
        out
    }

    fn decode(bytes: &[u8]) -> (r: OrderUpdate) {
        OrderUpdate {
            sequence: read_le(bytes, 0, 8),
            price_ticks: read_le(bytes, 8, 8),
            event_ts_ns: read_le(bytes, 16, 8),
            instrument_id: read_le(bytes, 24, 4) as u32,
            quantity: read_le(bytes, 28, 4) as u32,
            side: if read_le(bytes, 32, 1) == 0 {
                Side::Bid
            } else {
                Side::Ask
            },
        }
    }
}

} // verus!
