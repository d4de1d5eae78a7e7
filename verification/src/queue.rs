//! Packed codec for a buyer's pending-prize queue account.
//!
//! The queue account holds an 8-byte reserved tag, the layout version, the
//! machine and buyer identities, and the pending prizes as a length-prefixed
//! run of fixed-width records in draw order. The account grows by one record
//! per draw and shrinks by one per claim, so its size is always exactly
//! `UnclaimedPrizes::space` of its prize count.

use vstd::bytes::*;
use vstd::prelude::*;
use vstd::slice::slice_subrange;

use crate::codec::{spec_prize_record, write_bytes, write_prize_at, zero_vec};
use crate::errors::JellybeanError;
use crate::pubkey::Pubkey;
use crate::state::{Prize, UnclaimedPrizes, PRIZE_SIZE};

verus! {

/// Byte offset of the prize count inside a queue account.
pub const PRIZE_COUNT_OFFSET: usize = 73;

/// Byte offset of the first prize record inside a queue account.
pub const PRIZES_OFFSET: usize = 77;

/// The bytes `data` hold exactly the queue `q` at their front.
pub open spec fn queue_matches(data: Seq<u8>, q: UnclaimedPrizes) -> bool {
    let n = q.prizes@.len() as int;
    &&& data.len() >= PRIZES_OFFSET + PRIZE_SIZE * n
    &&& forall|k: int| 0 <= k < 8 ==> data[k] == 0
    &&& data[8] == q.version
    &&& data.subrange(9, 41) == q.jellybean_machine@
    &&& data.subrange(41, 73) == q.buyer@
    &&& spec_u32_from_le_bytes(data.subrange(73, 77)) == n
    &&& forall|j: int|
        0 <= j < n ==> spec_prize_record(data, 77 + PRIZE_SIZE * j) == #[trigger] q.prizes@[j]
}

/// The front of `data` parses as a queue account.
pub open spec fn queue_bytes_valid(data: Seq<u8>) -> bool {
    &&& data.len() >= PRIZES_OFFSET
    &&& forall|k: int| 0 <= k < 8 ==> data[k] == 0
    &&& data.len() >= PRIZES_OFFSET + PRIZE_SIZE * spec_u32_from_le_bytes(
        data.subrange(73, 77),
    )
}

/// Encodes the queue as a fresh account image of exactly
/// `UnclaimedPrizes::space` bytes.
pub fn encode_unclaimed_prizes(q: &UnclaimedPrizes) -> (r: Vec<u8>)
    requires
        UnclaimedPrizes::BASE_SIZE + q.prizes@.len() * PRIZE_SIZE <= u32::MAX,
    ensures
        r@.len() == UnclaimedPrizes::BASE_SIZE + q.prizes@.len() * PRIZE_SIZE,
        queue_matches(r@, *q),
{
    let n = q.prizes.len();
    let size = UnclaimedPrizes::BASE_SIZE + n * PRIZE_SIZE;
    let mut out: Vec<u8> = zero_vec(size);
    out[8] = q.version;
    write_bytes(&mut out, 9, q.jellybean_machine.bytes.as_slice());
    write_bytes(&mut out, 41, q.buyer.bytes.as_slice());
    let n_bytes = u32_to_le_bytes(n as u32);
    write_bytes(&mut out, PRIZE_COUNT_OFFSET, n_bytes.as_slice());
    let ghost after_prefix = out@;
    let mut j: usize = 0;
    while j < n
        invariant
            n == q.prizes@.len(),
            77 + 5 * n <= u32::MAX,
            j <= n,
            out@.len() == after_prefix.len(),
            out@.len() == 77 + 5 * n,
            forall|k: int|
                0 <= k < out@.len() && !(77 <= k < 77 + 5 * j) ==> out@[k] == after_prefix[k],
            forall|i: int|
                0 <= i < j ==> spec_prize_record(out@, 77 + 5 * i) == #[trigger] q.prizes@[i],
        decreases n - j,
    {
        let ghost before = out@;
        let prize = q.prizes[j];
        write_prize_at(&mut out, 77 + 5 * j, &prize);
        proof {
            assert forall|i: int| 0 <= i < j implies spec_prize_record(out@, 77 + 5 * i)
                == #[trigger] q.prizes@[i] by {
                assert(out@[77 + 5 * i] == before[77 + 5 * i]);
                assert(out@.subrange(77 + 5 * i + 1, 77 + 5 * i + 5) =~= before.subrange(
                    77 + 5 * i + 1,
                    77 + 5 * i + 5,
                ));
            }
        }
        j = j + 1;
    }
    proof {
        lemma_auto_spec_u32_to_from_le_bytes();
        let d = out@;
        assert forall|k: int| 0 <= k < 8 implies d[k] == 0 by {
            assert(after_prefix[k] == 0);
            assert(d[k] == after_prefix[k]);
        }
        assert(d.subrange(9, 41) =~= q.jellybean_machine.bytes@);
        assert(d.subrange(41, 73) =~= q.buyer.bytes@);
        assert(d.subrange(73, 77) =~= spec_u32_to_le_bytes(n as u32));
    }
    out
}

/// Decodes a queue account; fails with `MalformedRecord` exactly when the
/// bytes do not parse as one.
pub fn decode_unclaimed_prizes(data: &Vec<u8>) -> (r: Result<UnclaimedPrizes, JellybeanError>)
    ensures
        r is Ok <==> queue_bytes_valid(data@),
        match r {
            Ok(q) => queue_matches(data@, q),
            Err(e) => e == JellybeanError::MalformedRecord,
        },
{
    if data.len() < PRIZES_OFFSET {
        return Err(JellybeanError::MalformedRecord);
    }
    let mut tag_i: usize = 0;
    while tag_i < 8
        invariant
            data@.len() >= PRIZES_OFFSET,
            tag_i <= 8,
            forall|k: int| 0 <= k < tag_i ==> data@[k] == 0,
        decreases 8 - tag_i,
    {
        if data[tag_i] != 0 {
            return Err(JellybeanError::MalformedRecord);
        }
        tag_i = tag_i + 1;
    }
    let n32 = u32_from_le_bytes(slice_subrange(data.as_slice(), PRIZE_COUNT_OFFSET, PRIZES_OFFSET));
    if data.len() < PRIZES_OFFSET || (data.len() - PRIZES_OFFSET) / PRIZE_SIZE < n32 as usize {
        proof {
            assert(data@.len() < 77 + 5 * spec_u32_from_le_bytes(data@.subrange(73, 77))) by (
            nonlinear_arith)
                requires
                    n32 == spec_u32_from_le_bytes(data@.subrange(73, 77)),
                    data@.len() >= 77,
                    (data@.len() - 77) / 5 < n32,
            ;
        }
        return Err(JellybeanError::MalformedRecord);
    }
    let n = n32 as usize;
    proof {
        assert(77 + 5 * (n as int) <= data@.len()) by (nonlinear_arith)
            requires
                data@.len() >= 77,
                (data@.len() - 77) / 5 >= n as int,
        ;
    }
    let version = data[8];
    let mut machine_bytes = [0u8; 32];
    let mut t: usize = 0;
    while t < 32
        invariant
            data@.len() >= PRIZES_OFFSET,
            t <= 32,
            forall|k: int| 0 <= k < t ==> machine_bytes@[k] == data@[9 + k],
        decreases 32 - t,
    {
        machine_bytes[t] = data[9 + t];
        t = t + 1;
    }
    let mut buyer_bytes = [0u8; 32];
    let mut t2: usize = 0;
    while t2 < 32
        invariant
            data@.len() >= PRIZES_OFFSET,
            t2 <= 32,
            forall|k: int| 0 <= k < t2 ==> buyer_bytes@[k] == data@[41 + k],
        decreases 32 - t2,
    {
        buyer_bytes[t2] = data[41 + t2];
        t2 = t2 + 1;
    }
    let mut prizes: Vec<Prize> = Vec::new();
    let mut j: usize = 0;
    while j < n
        invariant
            77 + 5 * n <= data.len(),
            n <= u32::MAX,
            j <= n,
            prizes@.len() == j,
            forall|i: int|
                0 <= i < j ==> #[trigger] prizes@[i] == spec_prize_record(data@, 77 + 5 * i),
        decreases n - j,
    {
        let prize = crate::codec::read_prize_at(data, 77 + 5 * j);
        prizes.push(prize);
        j = j + 1;
    }
    let q = UnclaimedPrizes {
        version,
        jellybean_machine: Pubkey::new(machine_bytes),
        buyer: Pubkey::new(buyer_bytes),
        prizes,
    };
    proof {
        assert(q.jellybean_machine@ =~= data@.subrange(9, 41));
        assert(q.buyer@ =~= data@.subrange(41, 73));
    }
    Ok(q)
}

} // verus!
