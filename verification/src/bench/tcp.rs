//! The TCP + JSON baseline the shared-memory path is compared with: how a
//! message is framed on the byte stream, and what the client does next after
//! each echo.

use vstd::prelude::*;
use crate::codec::{le_bytes, le_value, push_le, read_le, lemma_pow256_values, lemma_le_value_bound};
use crate::bench::data::{OrderUpdate, synthetic_update};

verus! {

/// What the client of the loopback baseline does next.
#[derive(Debug, Clone, Copy, PartialEq, Eq, Structural)]
pub enum TcpAction {
    /// Send this update and wait for its echo.
    Send(OrderUpdate),
    /// Every update was sent and echoed back.
    Done,
    /// The echo carried another sequence number than the update sent.
    Mismatch { expected: u64, got: u64 },
}

/// The 4-byte little-endian length prefix of a frame whose payload has
/// `len` bytes; `None` when the length does not fit in 32 bits.
pub fn frame_prefix(len: usize) -> (r: Option<Vec<u8>>)
    ensures
        len <= u32::MAX <==> r is Some,
        r matches Some(b) ==> b@ == le_bytes(len as nat, 4),
{
    if len > 0xFFFF_FFFF {
        return None;
    }
    let mut out: Vec<u8> = Vec::new();
    proof {
        lemma_pow256_values();
    }
    push_le(&mut out, len as u64, 4);
    assert(out@ =~= le_bytes(len as nat, 4));
    Some(out)
}

/// The payload length a 4-byte frame prefix announces.
pub fn frame_len(prefix: &[u8]) -> (r: u32)
    requires
        prefix@.len() == 4,
    ensures
        r as nat == le_value(prefix@),
{
    let v = read_le(prefix, 0, 4);
    proof {
        assert(prefix@.subrange(0, 4) =~= prefix@);
        lemma_pow256_values();
        lemma_le_value_bound(prefix@);
    }
    v as u32
}

/// The client's next step: `next_seq` updates were sent so far and
/// `echoed` holds the sequence number of the last echo, if one came back.
/// A wrong echo ends the run; otherwise the next update is sent until
/// `iterations` were.
pub fn tcp_step(next_seq: u64, iterations: u64, echoed: Option<u64>) -> (r: TcpAction)
    requires
        next_seq <= iterations,
        echoed is Some ==> next_seq >= 1,
    ensures
        r == (if echoed is Some && echoed->0 != next_seq - 1 {
            TcpAction::Mismatch { expected: (next_seq - 1) as u64, got: echoed->0 }
        } else if next_seq == iterations {
            TcpAction::Done
        } else {
            TcpAction::Send(synthetic_update(next_seq))
        }),
{
    match echoed {
        Some(g) => {
            if g != next_seq - 1 {
                return TcpAction::Mismatch { expected: next_seq - 1, got: g };
            }
        },
        None => {},
    }
    if next_seq == iterations {
        TcpAction::Done
    } else {
        TcpAction::Send(OrderUpdate::synthetic(next_seq))
    }
}

} // verus!
