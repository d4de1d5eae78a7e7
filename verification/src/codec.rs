//! Packed record codec: fixed-width encode and decode of loaded-item and
//! prize records at byte offsets of a shared buffer.
//!
//! The layout is little-endian and schema-fixed. `spec_item_record` is the
//! canonical meaning of 52 bytes as an item record; every exec encode, decode
//! and field overwrite is specified against it, so a record written by this
//! module decodes to exactly the value that was written, and a single-field
//! overwrite changes exactly that field.

use vstd::bytes::*;
use vstd::prelude::*;
use vstd::slice::slice_subrange;

use crate::errors::JellybeanError;
use crate::pubkey::Pubkey;
use crate::state::{ItemView, LoadedItem, Prize, LOADED_ITEM_SIZE, PRIZE_SIZE};

verus! {

/// Byte offset of `supply_loaded` inside an item record.
pub const ITEM_SUPPLY_LOADED_OFFSET: usize = 32;

/// Byte offset of `supply_redeemed` inside an item record.
pub const ITEM_SUPPLY_REDEEMED_OFFSET: usize = 36;

/// Byte offset of `supply_claimed` inside an item record.
pub const ITEM_SUPPLY_CLAIMED_OFFSET: usize = 40;

/// Byte offset of `escrow_amount` inside an item record.
pub const ITEM_ESCROW_AMOUNT_OFFSET: usize = 44;

/// The item record starting at byte `pos` of `data`, as a mathematical value.
pub open spec fn spec_item_record(data: Seq<u8>, pos: int) -> ItemView {
    ItemView {
        mint: data.subrange(pos, pos + 32),
        supply_loaded: spec_u32_from_le_bytes(data.subrange(pos + 32, pos + 36)),
        supply_redeemed: spec_u32_from_le_bytes(data.subrange(pos + 36, pos + 40)),
        supply_claimed: spec_u32_from_le_bytes(data.subrange(pos + 40, pos + 44)),
        escrow_amount: spec_u64_from_le_bytes(data.subrange(pos + 44, pos + 52)),
    }
}

/// The table of `count` item records starting at byte `base` of `data`.
pub open spec fn spec_items(data: Seq<u8>, base: int, count: int) -> Seq<ItemView> {
    Seq::new(count as nat, |i: int| spec_item_record(data, base + i * LOADED_ITEM_SIZE))
}

/// The prize record starting at byte `pos` of `data`.
pub open spec fn spec_prize_record(data: Seq<u8>, pos: int) -> Prize {
    Prize {
        item_index: data[pos],
        edition_number: spec_u32_from_le_bytes(data.subrange(pos + 1, pos + 5)),
    }
}

/// Overwrites `data[pos .. pos + src.len()]` with `src`, leaving every other
/// byte unchanged.
pub fn write_bytes(data: &mut Vec<u8>, pos: usize, src: &[u8])
    requires
        pos + src@.len() <= old(data).len(),
    ensures
        final(data)@.len() == old(data)@.len(),
        final(data)@.subrange(pos as int, pos + src@.len()) == src@,
        forall|k: int|
            0 <= k < old(data)@.len() && !(pos <= k < pos + src@.len()) ==> final(data)@[k] == old(data)@[k],
{
    let n = src.len();
    let mut i: usize = 0;
    while i < n
        invariant
            n == src@.len(),
            pos + n <= data.len(),
            i <= n,
            data@.len() == old(data)@.len(),
            forall|k: int| 0 <= k < i ==> data@[pos + k] == src@[k],
            forall|k: int|
                0 <= k < old(data)@.len() && !(pos <= k < pos + n) ==> data@[k] == old(data)@[k],
        decreases n - i,
    {
        let b = *vstd::slice::slice_index_get(src, i);
        data[pos + i] = b;
        i = i + 1;
    }
    proof {
        assert(data@.subrange(pos as int, pos + src@.len()) =~= src@);
    }
}

/// Copies `len` bytes from `src` down to `dst` (`dst <= src`) inside one
/// buffer, as a single forward pass; bytes outside the destination range
/// keep their values.
pub fn copy_within_bytes(data: &mut Vec<u8>, src: usize, dst: usize, len: usize)
    requires
        dst <= src,
        src + len <= old(data).len(),
    ensures
        final(data)@.len() == old(data)@.len(),
        forall|t: int| 0 <= t < len ==> #[trigger] final(data)@[dst + t] == old(data)@[src + t],
        forall|k: int|
            0 <= k < old(data)@.len() && !(dst <= k < dst + len) ==> final(data)@[k] == old(
                data,
            )@[k],
{
    let mut t: usize = 0;
    while t < len
        invariant
            dst <= src,
            src + len <= data.len(),
            t <= len,
            data@.len() == old(data)@.len(),
            forall|m: int| t <= m < len ==> #[trigger] data@[src + m] == old(data)@[src + m],
            forall|m: int| 0 <= m < t ==> #[trigger] data@[dst + m] == old(data)@[src + m],
            forall|k: int|
                0 <= k < old(data)@.len() && !(dst <= k < dst + t) ==> data@[k] == old(data)@[k],
        decreases len - t,
    {
        let b = data[src + t];
        data[dst + t] = b;
        t = t + 1;
    }
}

/// A fresh buffer of `len` zero bytes.
pub fn zero_vec(len: usize) -> (r: Vec<u8>)
    ensures
        r@.len() == len,
        forall|k: int| 0 <= k < len ==> r@[k] == 0u8,
{
    let mut r: Vec<u8> = Vec::new();
    let mut i: usize = 0;
    while i < len
        invariant
            i <= len,
            r@.len() == i,
            forall|k: int| 0 <= k < i ==> r@[k] == 0u8,
        decreases len - i,
    {
        r.push(0u8);
        i = i + 1;
    }
    r
}

/// Reads the item record at byte `pos` of `data`.
pub fn read_item_at(data: &Vec<u8>, pos: usize) -> (r: LoadedItem)
    requires
        pos + LOADED_ITEM_SIZE <= data.len(),
    ensures
        r@ == spec_item_record(data@, pos as int),
{
    let mut mint_bytes = [0u8; 32];
    let mut i: usize = 0;
    while i < 32
        invariant
            pos + LOADED_ITEM_SIZE <= data.len(),
            i <= 32,
            forall|k: int| 0 <= k < i ==> mint_bytes@[k] == data@[pos + k],
        decreases 32 - i,
    {
        mint_bytes[i] = data[pos + i];
        i = i + 1;
    }
    let supply_loaded = u32_from_le_bytes(
        slice_subrange(data.as_slice(), pos + ITEM_SUPPLY_LOADED_OFFSET, pos + 36),
    );
    let supply_redeemed = u32_from_le_bytes(
        slice_subrange(data.as_slice(), pos + ITEM_SUPPLY_REDEEMED_OFFSET, pos + 40),
    );
    let supply_claimed = u32_from_le_bytes(
        slice_subrange(data.as_slice(), pos + ITEM_SUPPLY_CLAIMED_OFFSET, pos + 44),
    );
    let escrow_amount = u64_from_le_bytes(
        slice_subrange(data.as_slice(), pos + ITEM_ESCROW_AMOUNT_OFFSET, pos + 52),
    );
    let r = LoadedItem {
        mint: Pubkey::new(mint_bytes),
        supply_loaded,
        supply_redeemed,
        supply_claimed,
        escrow_amount,
    };
    proof {
        assert(r@.mint =~= spec_item_record(data@, pos as int).mint);
        assert(r@ =~= spec_item_record(data@, pos as int));
    }
    r
}

/// Writes `item` as the record at byte `pos` of `data`, leaving every byte
/// outside the record unchanged.
pub fn write_item_at(data: &mut Vec<u8>, pos: usize, item: &LoadedItem)
    requires
        pos + LOADED_ITEM_SIZE <= old(data).len(),
    ensures
        final(data)@.len() == old(data)@.len(),
        spec_item_record(final(data)@, pos as int) == item@,
        forall|k: int|
            0 <= k < old(data)@.len() && !(pos <= k < pos + LOADED_ITEM_SIZE) ==> final(data)@[k] == old(data)@[k],
{
    let ghost data0 = data@;
    write_bytes(data, pos, item.mint.bytes.as_slice());
    let loaded_bytes = u32_to_le_bytes(item.supply_loaded);
    write_bytes(data, pos + ITEM_SUPPLY_LOADED_OFFSET, loaded_bytes.as_slice());
    let redeemed_bytes = u32_to_le_bytes(item.supply_redeemed);
    write_bytes(data, pos + ITEM_SUPPLY_REDEEMED_OFFSET, redeemed_bytes.as_slice());
    let claimed_bytes = u32_to_le_bytes(item.supply_claimed);
    write_bytes(data, pos + ITEM_SUPPLY_CLAIMED_OFFSET, claimed_bytes.as_slice());
    let escrow_bytes = u64_to_le_bytes(item.escrow_amount);
    write_bytes(data, pos + ITEM_ESCROW_AMOUNT_OFFSET, escrow_bytes.as_slice());
    proof {
        lemma_auto_spec_u32_to_from_le_bytes();
        lemma_auto_spec_u64_to_from_le_bytes();
        assert(data@.subrange(pos as int, pos + 32) =~= item.mint.bytes@);
        assert(data@.subrange(pos + 32, pos + 36) =~= spec_u32_to_le_bytes(item.supply_loaded));
        assert(data@.subrange(pos + 36, pos + 40) =~= spec_u32_to_le_bytes(item.supply_redeemed));
        assert(data@.subrange(pos + 40, pos + 44) =~= spec_u32_to_le_bytes(item.supply_claimed));
        assert(data@.subrange(pos + 44, pos + 52) =~= spec_u64_to_le_bytes(item.escrow_amount));
        assert(spec_item_record(data@, pos as int) =~= item@);
    }
}

/// Encodes one item as a fresh 52-byte record.
pub fn encode_loaded_item(item: &LoadedItem) -> (r: Vec<u8>)
    ensures
        r@.len() == LOADED_ITEM_SIZE,
        spec_item_record(r@, 0) == item@,
{
    let mut data: Vec<u8> = Vec::new();
    data.resize(LOADED_ITEM_SIZE, 0u8);
    write_item_at(&mut data, 0, item);
    data
}

/// Decodes the item record at byte `pos` of `data`; fails with
/// `MalformedRecord` when the buffer is too short to hold it.
pub fn decode_loaded_item(data: &Vec<u8>, pos: usize) -> (r: Result<LoadedItem, JellybeanError>)
    ensures
        match r {
            Ok(item) => pos + LOADED_ITEM_SIZE <= data@.len() && item@ == spec_item_record(
                data@,
                pos as int,
            ),
            Err(e) => e == JellybeanError::MalformedRecord && pos + LOADED_ITEM_SIZE > data@.len(),
        },
{
    if pos > data.len() || data.len() - pos < LOADED_ITEM_SIZE {
        return Err(JellybeanError::MalformedRecord);
    }
    Ok(read_item_at(data, pos))
}

/// Reads the prize record at byte `pos` of `data`.
pub fn read_prize_at(data: &Vec<u8>, pos: usize) -> (r: Prize)
    requires
        pos + PRIZE_SIZE <= data.len(),
    ensures
        r == spec_prize_record(data@, pos as int),
{
    let item_index = data[pos];
    let edition_number = u32_from_le_bytes(slice_subrange(data.as_slice(), pos + 1, pos + 5));
    Prize { item_index, edition_number }
}

/// Writes `prize` as the record at byte `pos` of `data`, leaving every byte
/// outside the record unchanged.
pub fn write_prize_at(data: &mut Vec<u8>, pos: usize, prize: &Prize)
    requires
        pos + PRIZE_SIZE <= old(data).len(),
    ensures
        final(data)@.len() == old(data)@.len(),
        spec_prize_record(final(data)@, pos as int) == *prize,
        forall|k: int|
            0 <= k < old(data)@.len() && !(pos <= k < pos + PRIZE_SIZE) ==> final(data)@[k] == old(data)@[k],
{
    data[pos] = prize.item_index;
    let edition_bytes = u32_to_le_bytes(prize.edition_number);
    write_bytes(data, pos + 1, edition_bytes.as_slice());
    proof {
        lemma_auto_spec_u32_to_from_le_bytes();
        assert(data@.subrange(pos + 1, pos + 5) =~= spec_u32_to_le_bytes(prize.edition_number));
    }
}

/// Encodes one prize as a fresh 5-byte record.
pub fn encode_prize(prize: &Prize) -> (r: Vec<u8>)
    ensures
        r@.len() == PRIZE_SIZE,
        spec_prize_record(r@, 0) == *prize,
{
    let mut data: Vec<u8> = Vec::new();
    data.resize(PRIZE_SIZE, 0u8);
    write_prize_at(&mut data, 0, prize);
    data
}

/// Decodes the prize record at byte `pos` of `data`; fails with
/// `MalformedRecord` when the buffer is too short to hold it.
pub fn decode_prize(data: &Vec<u8>, pos: usize) -> (r: Result<Prize, JellybeanError>)
    ensures
        match r {
            Ok(prize) => pos + PRIZE_SIZE <= data@.len() && prize == spec_prize_record(
                data@,
                pos as int,
            ),
            Err(e) => e == JellybeanError::MalformedRecord && pos + PRIZE_SIZE > data@.len(),
        },
{
    if pos > data.len() || data.len() - pos < PRIZE_SIZE {
        return Err(JellybeanError::MalformedRecord);
    }
    Ok(read_prize_at(data, pos))
}

/// Two record positions that agree byte for byte hold the same record.
pub proof fn lemma_record_equal_bytes(d1: Seq<u8>, p1: int, d0: Seq<u8>, p0: int)
    requires
        0 <= p1,
        p1 + LOADED_ITEM_SIZE <= d1.len(),
        0 <= p0,
        p0 + LOADED_ITEM_SIZE <= d0.len(),
        forall|t: int| 0 <= t < LOADED_ITEM_SIZE ==> #[trigger] d1[p1 + t] == d0[p0 + t],
    ensures
        spec_item_record(d1, p1) == spec_item_record(d0, p0),
{
    assert forall|x: int| 0 <= x < 32 implies #[trigger] d1.subrange(p1, p1 + 32)[x] == d0.subrange(
        p0,
        p0 + 32,
    )[x] by {
        assert(d1[p1 + x] == d0[p0 + x]);
    }
    assert(d1.subrange(p1, p1 + 32) =~= d0.subrange(p0, p0 + 32));
    assert forall|x: int| 0 <= x < 4 implies #[trigger] d1.subrange(p1 + 32, p1 + 36)[x] == d0.subrange(
        p0 + 32,
        p0 + 36,
    )[x] by {
        assert(d1[p1 + (32 + x)] == d0[p0 + (32 + x)]);
    }
    assert(d1.subrange(p1 + 32, p1 + 36) =~= d0.subrange(p0 + 32, p0 + 36));
    assert forall|x: int| 0 <= x < 4 implies #[trigger] d1.subrange(p1 + 36, p1 + 40)[x] == d0.subrange(
        p0 + 36,
        p0 + 40,
    )[x] by {
        assert(d1[p1 + (36 + x)] == d0[p0 + (36 + x)]);
    }
    assert(d1.subrange(p1 + 36, p1 + 40) =~= d0.subrange(p0 + 36, p0 + 40));
    assert forall|x: int| 0 <= x < 4 implies #[trigger] d1.subrange(p1 + 40, p1 + 44)[x] == d0.subrange(
        p0 + 40,
        p0 + 44,
    )[x] by {
        assert(d1[p1 + (40 + x)] == d0[p0 + (40 + x)]);
    }
    assert(d1.subrange(p1 + 40, p1 + 44) =~= d0.subrange(p0 + 40, p0 + 44));
    assert forall|x: int| 0 <= x < 8 implies #[trigger] d1.subrange(p1 + 44, p1 + 52)[x] == d0.subrange(
        p0 + 44,
        p0 + 52,
    )[x] by {
        assert(d1[p1 + (44 + x)] == d0[p0 + (44 + x)]);
    }
    assert(d1.subrange(p1 + 44, p1 + 52) =~= d0.subrange(p0 + 44, p0 + 52));
    assert(spec_item_record(d1, p1) =~= spec_item_record(d0, p0));
}

/// Two buffers that agree on a table's bytes hold the same records there.
pub proof fn lemma_items_equal(d1: Seq<u8>, d2: Seq<u8>, base: int, count: int)
    requires
        0 <= base,
        0 <= count,
        base + count * LOADED_ITEM_SIZE <= d1.len(),
        base + count * LOADED_ITEM_SIZE <= d2.len(),
        forall|k: int| base <= k < base + count * LOADED_ITEM_SIZE ==> d1[k] == d2[k],
    ensures
        spec_items(d1, base, count) == spec_items(d2, base, count),
{
    assert forall|j: int| 0 <= j < count implies #[trigger] spec_item_record(
        d1,
        base + j * LOADED_ITEM_SIZE,
    ) == spec_item_record(d2, base + j * LOADED_ITEM_SIZE) by {
        let pos = base + j * LOADED_ITEM_SIZE;
        assert(j * LOADED_ITEM_SIZE + LOADED_ITEM_SIZE == (j + 1) * LOADED_ITEM_SIZE) by (
        nonlinear_arith);
        assert((j + 1) * LOADED_ITEM_SIZE <= count * LOADED_ITEM_SIZE) by (nonlinear_arith)
            requires
                j + 1 <= count,
                LOADED_ITEM_SIZE > 0,
        ;
        assert(0 <= j * LOADED_ITEM_SIZE) by (nonlinear_arith)
            requires
                0 <= j,
        ;
        assert(d1.subrange(pos, pos + 32) =~= d2.subrange(pos, pos + 32));
        assert(d1.subrange(pos + 32, pos + 36) =~= d2.subrange(pos + 32, pos + 36));
        assert(d1.subrange(pos + 36, pos + 40) =~= d2.subrange(pos + 36, pos + 40));
        assert(d1.subrange(pos + 40, pos + 44) =~= d2.subrange(pos + 40, pos + 44));
        assert(d1.subrange(pos + 44, pos + 52) =~= d2.subrange(pos + 44, pos + 52));
        assert(spec_item_record(d1, pos) =~= spec_item_record(d2, pos));
    }
    assert(spec_items(d1, base, count) =~= spec_items(d2, base, count));
}

/// Overwriting the bytes of record `index` alone updates that record alone.
pub proof fn lemma_items_update(d1: Seq<u8>, d2: Seq<u8>, base: int, count: int, index: int)
    requires
        0 <= base,
        0 <= index < count,
        base + count * LOADED_ITEM_SIZE <= d1.len(),
        d1.len() == d2.len(),
        forall|k: int|
            0 <= k < d1.len() && !(base + index * LOADED_ITEM_SIZE <= k < base + index
                * LOADED_ITEM_SIZE + LOADED_ITEM_SIZE) ==> d1[k] == d2[k],
    ensures
        spec_items(d2, base, count) == spec_items(d1, base, count).update(
            index,
            spec_item_record(d2, base + index * LOADED_ITEM_SIZE),
        ),
{
    let lo = base + index * LOADED_ITEM_SIZE;
    assert forall|j: int| 0 <= j < count && j != index implies #[trigger] spec_item_record(
        d2,
        base + j * LOADED_ITEM_SIZE,
    ) == spec_item_record(d1, base + j * LOADED_ITEM_SIZE) by {
        let pos = base + j * LOADED_ITEM_SIZE;
        assert(j * LOADED_ITEM_SIZE + LOADED_ITEM_SIZE == (j + 1) * LOADED_ITEM_SIZE) by (
        nonlinear_arith);
        assert((j + 1) * LOADED_ITEM_SIZE <= count * LOADED_ITEM_SIZE) by (nonlinear_arith)
            requires
                j + 1 <= count,
                LOADED_ITEM_SIZE > 0,
        ;
        assert(0 <= j * LOADED_ITEM_SIZE) by (nonlinear_arith)
            requires
                0 <= j,
        ;
        // Records at distinct indices occupy disjoint byte ranges.
        assert(j < index ==> (j + 1) * LOADED_ITEM_SIZE <= index * LOADED_ITEM_SIZE) by (
        nonlinear_arith)
            requires
                LOADED_ITEM_SIZE > 0,
        ;
        assert(index < j ==> (index + 1) * LOADED_ITEM_SIZE <= j * LOADED_ITEM_SIZE) by (
        nonlinear_arith)
            requires
                LOADED_ITEM_SIZE > 0,
        ;
        assert(d2.subrange(pos, pos + 32) =~= d1.subrange(pos, pos + 32));
        assert(d2.subrange(pos + 32, pos + 36) =~= d1.subrange(pos + 32, pos + 36));
        assert(d2.subrange(pos + 36, pos + 40) =~= d1.subrange(pos + 36, pos + 40));
        assert(d2.subrange(pos + 40, pos + 44) =~= d1.subrange(pos + 40, pos + 44));
        assert(d2.subrange(pos + 44, pos + 52) =~= d1.subrange(pos + 44, pos + 52));
        assert(spec_item_record(d2, pos) =~= spec_item_record(d1, pos));
    }
    assert(spec_items(d2, base, count) =~= spec_items(d1, base, count).update(
        index,
        spec_item_record(d2, lo),
    ));
}

} // verus!
