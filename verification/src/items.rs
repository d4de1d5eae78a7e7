//! Item table edits: loading new items and removing fully claimed spans.
//!
//! `add_item` appends a record to the packed table (growing the buffer by
//! one record width); `remove_multiple_items_span` drops a contiguous span
//! of fully claimed records, shifting the tail down with a single contiguous
//! byte copy and shrinking the buffer to the exact new size. Both keep the
//! header counters reconciled with the table, and both leave everything
//! untouched when any check fails.

use vstd::prelude::*;

use crate::codec;
use crate::errors::JellybeanError;
use crate::pubkey::Pubkey;
use crate::state::{
    lemma_sum_loaded_bound, lemma_sum_loaded_concat, lemma_sum_redeemed_concat,
    lemma_sum_redeemed_nonneg, sum_loaded, ItemView, JellybeanMachine, JellybeanState, LoadedItem,
    LOADED_ITEM_SIZE, MAX_ITEMS,
};

verus! {

/// A unique (single-unit) asset loads with one unit of supply and no
/// redemption history.
pub fn loaded_item_for_unique_asset(mint: Pubkey) -> (r: LoadedItem)
    ensures
        r == (LoadedItem {
            mint,
            supply_loaded: 1u32,
            supply_redeemed: 0u32,
            supply_claimed: 0u32,
            escrow_amount: 0u64,
        }),
{
    LoadedItem { mint, supply_loaded: 1, supply_redeemed: 0, supply_claimed: 0, escrow_amount: 0 }
}

/// A multi-edition source loads with its declared maximum supply; it must be
/// empty (no editions printed yet) and must declare a maximum supply.
pub fn loaded_item_for_master_edition(
    mint: Pubkey,
    current_size: u32,
    max_supply: Option<u32>,
) -> (r: Result<LoadedItem, JellybeanError>)
    ensures
        r is Ok <==> (current_size == 0 && max_supply is Some),
        match r {
            Ok(item) => item == (LoadedItem {
                mint,
                supply_loaded: max_supply->Some_0,
                supply_redeemed: current_size,
                supply_claimed: 0u32,
                escrow_amount: 0u64,
            }),
            Err(e) => {
                &&& (e == JellybeanError::MasterEditionNotEmpty <==> current_size != 0)
                &&& (e == JellybeanError::InvalidMasterEditionSupply <==> current_size == 0
                    && max_supply is None)
            },
        },
{
    if current_size != 0 {
        return Err(JellybeanError::MasterEditionNotEmpty);
    }
    match max_supply {
        Some(supply) => Ok(
            LoadedItem {
                mint,
                supply_loaded: supply,
                supply_redeemed: current_size,
                supply_claimed: 0,
                escrow_amount: 0,
            },
        ),
        None => Err(JellybeanError::InvalidMasterEditionSupply),
    }
}

/// Appends one freshly loaded item to the table: grows the buffer by one
/// record width, writes the record at the end and bumps the header counters.
/// Legal only during setup and below the item capacity; fails without any
/// mutation otherwise.
pub fn add_item(machine: &mut JellybeanMachine, data: &mut Vec<u8>, item: LoadedItem) -> (r: Result<
    (),
    JellybeanError,
>)
    requires
        old(machine).wf(old(data)@),
        item.supply_redeemed == 0,
        item.supply_claimed == 0,
    ensures
        final(machine).wf(final(data)@),
        r is Ok <==> (old(machine).state == JellybeanState::Setup && old(machine).items_loaded
            < MAX_ITEMS),
        match r {
            Ok(()) => {
                &&& *final(machine) == (JellybeanMachine {
                    items_loaded: (old(machine).items_loaded + 1) as u16,
                    supply_loaded: (old(machine).supply_loaded + item.supply_loaded) as u64,
                    ..*old(machine)
                })
                &&& final(machine).items(final(data)@) == old(machine).items(old(data)@).push(
                    item@,
                )
                &&& final(data)@.len() == old(data)@.len() + LOADED_ITEM_SIZE
                &&& forall|k: int| 0 <= k < old(data)@.len() ==> final(data)@[k] == old(data)@[k]
            },
            Err(e) => {
                &&& *final(machine) == *old(machine)
                &&& final(data)@ == old(data)@
                &&& (e == JellybeanError::InvalidState <==> old(machine).state
                    != JellybeanState::Setup)
                &&& (e == JellybeanError::TooManyItems <==> old(machine).state
                    == JellybeanState::Setup && old(machine).items_loaded >= MAX_ITEMS)
            },
        },
{
    if !machine.can_add_items() {
        return Err(JellybeanError::InvalidState);
    }
    if machine.items_loaded >= MAX_ITEMS {
        return Err(JellybeanError::TooManyItems);
    }
    let ghost items0 = machine.items(data@);
    let ghost base = machine.spec_base_size();
    let count = machine.items_loaded;
    proof {
        lemma_sum_loaded_bound(items0);
        lemma_sum_redeemed_nonneg(items0);
        assert((count + 1) * LOADED_ITEM_SIZE == count * LOADED_ITEM_SIZE + LOADED_ITEM_SIZE) by (
        nonlinear_arith);
    }
    let pos = machine.get_loaded_item_position(count as usize);
    let ghost data0 = data@;
    data.resize(pos + LOADED_ITEM_SIZE, 0u8);
    proof {
        assert(forall|k: int| 0 <= k < data0.len() ==> data@[k] == data0[k]);
    }
    codec::write_item_at(data, pos, &item);
    machine.items_loaded = count + 1;
    machine.supply_loaded = machine.supply_loaded + item.supply_loaded as u64;
    proof {
        codec::lemma_items_equal(data0, data@, base, count as int);
        assert(machine.items(data@) =~= items0.push(item@));
        assert(machine.items(data@).drop_last() =~= items0);
        assert(forall|i: int|
            0 <= i < items0.len() ==> #[trigger] machine.items(data@)[i] == items0[i]);
    }
    Ok(())
}

/// Removes the items at indices `start_index ..= end_index` from the table:
/// legal only when structural edits are allowed and every item in the span
/// is fully claimed. The tail records shift down by one contiguous byte
/// copy, the buffer shrinks to the exact new size, and the header counters
/// drop by the span's item count and supply. Fails without any mutation
/// otherwise.
pub fn remove_multiple_items_span(
    machine: &mut JellybeanMachine,
    data: &mut Vec<u8>,
    start_index: u8,
    end_index: u8,
) -> (r: Result<(), JellybeanError>)
    requires
        old(machine).wf(old(data)@),
    ensures
        final(machine).wf(final(data)@),
        ({
            let items0 = old(machine).items(old(data)@);
            let count = old(machine).items_loaded as int;
            let s = start_index as int;
            let e = end_index as int;
            let may_remove = old(machine).state == JellybeanState::Setup || old(machine).state
                == JellybeanState::SaleEnded;
            &&& (r is Ok <==> {
                &&& may_remove
                &&& s <= e
                &&& e < count
                &&& forall|i: int|
                    s <= i <= e ==> (#[trigger] items0[i]).supply_claimed
                        == items0[i].supply_redeemed
            })
            &&& match r {
                Ok(()) => {
                    &&& *final(machine) == (JellybeanMachine {
                        items_loaded: (count - (e - s + 1)) as u16,
                        supply_loaded: (old(machine).supply_loaded - sum_loaded(
                            items0.subrange(s, e + 1),
                        )) as u64,
                        ..*old(machine)
                    })
                    &&& final(machine).items(final(data)@) == items0.subrange(0, s)
                        + items0.subrange(e + 1, count)
                    &&& final(data)@.len() == old(machine).spec_base_size() + (count - (e - s + 1))
                        * LOADED_ITEM_SIZE
                    &&& forall|k: int|
                        0 <= k < old(machine).spec_base_size() ==> final(data)@[k] == old(
                            data,
                        )@[k]
                },
                Err(err) => {
                    &&& *final(machine) == *old(machine)
                    &&& final(data)@ == old(data)@
                    &&& (err == JellybeanError::InvalidState <==> !may_remove)
                    &&& (err == JellybeanError::InvalidInputLength <==> may_remove && s > e)
                    &&& (err == JellybeanError::IndexGreaterThanLength <==> may_remove && s <= e
                        && e >= count)
                    &&& (err == JellybeanError::ItemNotFullyClaimed <==> may_remove && s <= e && e
                        < count && exists|i: int|
                        s <= i <= e && (#[trigger] items0[i]).supply_claimed
                            != items0[i].supply_redeemed)
                },
            }
        }),
{
    if !machine.can_remove_items() {
        return Err(JellybeanError::InvalidState);
    }
    if start_index > end_index {
        return Err(JellybeanError::InvalidInputLength);
    }
    let items_loaded = machine.items_loaded;
    if end_index as u16 >= items_loaded {
        return Err(JellybeanError::IndexGreaterThanLength);
    }
    let ghost items0 = machine.items(data@);
    let ghost base = machine.spec_base_size();
    let ghost count = items_loaded as int;
    let items_to_remove = end_index - start_index + 1;

    // Every item in the span must be fully claimed, and its loaded supply is
    // tallied so the header counter can drop by exactly that much.
    let mut total_supply_removed: u64 = 0;
    let mut index: usize = start_index as usize;
    proof {
        assert(items0.subrange(start_index as int, start_index as int) =~= Seq::<
            ItemView,
        >::empty());
        lemma_sum_loaded_bound(items0);
    }
    while index <= end_index as usize
        invariant
            machine.wf(data@),
            *machine == *old(machine),
            data@ == old(data)@,
            machine.state == JellybeanState::Setup || machine.state == JellybeanState::SaleEnded,
            items0 == machine.items(data@),
            base == machine.spec_base_size(),
            count == machine.items_loaded as int,
            start_index <= end_index,
            (end_index as int) < count,
            (start_index as int) <= (index as int),
            (index as int) <= (end_index as int) + 1,
            total_supply_removed == sum_loaded(items0.subrange(start_index as int, index as int)),
            total_supply_removed <= count * (u32::MAX as int),
            forall|i: int|
                (start_index as int) <= i < (index as int) ==> (#[trigger] items0[i]).supply_claimed
                    == items0[i].supply_redeemed,
        decreases end_index as int + 1 - index as int,
    {
        let item = match machine.get_loaded_item_at_index(data, index) {
            Ok(item) => item,
            Err(e) => {
                proof {
                    assert(false);
                }
                return Err(e);
            },
        };
        if item.supply_claimed != item.supply_redeemed {
            proof {
                let w = index as int;
                assert((#[trigger] items0[w]).supply_claimed != items0[w].supply_redeemed);
            }
            return Err(JellybeanError::ItemNotFullyClaimed);
        }
        proof {
            assert(items0.subrange(start_index as int, index as int + 1).drop_last()
                =~= items0.subrange(start_index as int, index as int));
            lemma_sum_loaded_bound(items0.subrange(start_index as int, index as int));
            lemma_sum_loaded_bound(items0.subrange(start_index as int, index as int + 1));
        }
        total_supply_removed = total_supply_removed + item.supply_loaded as u64;
        index = index + 1;
    }
    let ghost s = start_index as int;
    let ghost e = end_index as int;
    let ghost removed = items0.subrange(s, e + 1);
    let ghost front = items0.subrange(0, s);
    let ghost back = items0.subrange(e + 1, count);
    proof {
        // The span's supply is part of the whole table's supply, so the
        // header counter cannot underflow.
        assert(items0 =~= (front + removed) + back);
        lemma_sum_loaded_concat(front + removed, back);
        lemma_sum_loaded_concat(front, removed);
        lemma_sum_redeemed_concat(front + removed, back);
        lemma_sum_redeemed_concat(front, removed);
        lemma_sum_loaded_bound(front);
        lemma_sum_loaded_bound(back);
        lemma_sum_redeemed_nonneg(front);
        lemma_sum_redeemed_nonneg(back);
        lemma_sum_redeemed_nonneg(removed);
    }

    // Shift the tail block down over the removed span with one contiguous
    // forward byte copy, then shrink the buffer to the exact new size.
    let new_count = items_loaded - items_to_remove as u16;
    let ghost data0 = data@;
    if (end_index as u16) < items_loaded - 1 {
        let items_after_removal = items_loaded - 1 - end_index as u16;
        let src = machine.get_loaded_item_position(end_index as usize + 1);
        let dst = machine.get_loaded_item_position(start_index as usize);
        let copy_size = items_after_removal as usize * LOADED_ITEM_SIZE;
        proof {
            assert((e + 1) * LOADED_ITEM_SIZE + (count - e - 1) * LOADED_ITEM_SIZE == count
                * LOADED_ITEM_SIZE) by (nonlinear_arith);
            assert(s * LOADED_ITEM_SIZE <= (e + 1) * LOADED_ITEM_SIZE) by (nonlinear_arith)
                requires
                    s <= e + 1,
                    LOADED_ITEM_SIZE > 0,
            ;
        }
        codec::copy_within_bytes(data, src, dst, copy_size);
    }
    let new_size = machine.get_size(new_count as u64);
    proof {
        assert((count - (e - s + 1)) * LOADED_ITEM_SIZE <= count * LOADED_ITEM_SIZE) by (
        nonlinear_arith)
            requires
                0 <= count - (e - s + 1) <= count,
                LOADED_ITEM_SIZE > 0,
        ;
    }
    data.truncate(new_size);
    machine.items_loaded = new_count;
    machine.supply_loaded = machine.supply_loaded - total_supply_removed;
    proof {
        lemma_removed_span_items(data0, data@, base, count, s, e);
        assert(machine.items(data@) == front + back);
        lemma_sum_loaded_concat(front, back);
        lemma_sum_redeemed_concat(front, back);
        assert(forall|i: int|
            0 <= i < front.len() ==> #[trigger] (front + back)[i] == items0[i]);
        assert(forall|i: int|
            front.len() <= i < (front + back).len() ==> #[trigger] (front + back)[i] == items0[i
                + (e - s + 1)]);
    }
    Ok(())
}

/// After the tail shift and the truncation, the table holds exactly the
/// records outside the removed span, in order.
proof fn lemma_removed_span_items(
    data0: Seq<u8>,
    data1: Seq<u8>,
    base: int,
    count: int,
    s: int,
    e: int,
)
    requires
        0 <= base,
        0 <= s <= e < count,
        data0.len() == base + count * LOADED_ITEM_SIZE,
        data1.len() == base + (count - (e - s + 1)) * LOADED_ITEM_SIZE,
        forall|k: int| 0 <= k < base + s * LOADED_ITEM_SIZE ==> data1[k] == data0[k],
        forall|t: int|
            0 <= t < (count - e - 1) * LOADED_ITEM_SIZE ==> #[trigger] data1[base + s
                * LOADED_ITEM_SIZE + t] == data0[base + (e + 1) * LOADED_ITEM_SIZE + t],
    ensures
        crate::codec::spec_items(data1, base, count - (e - s + 1)) == crate::codec::spec_items(data0, base, count)
            .subrange(0, s) + crate::codec::spec_items(data0, base, count).subrange(e + 1, count),
{
    let m = count - (e - s + 1);
    let items0 = crate::codec::spec_items(data0, base, count);
    let items1 = crate::codec::spec_items(data1, base, m);
    let expected = items0.subrange(0, s) + items0.subrange(e + 1, count);
    assert forall|j: int| 0 <= j < m implies items1[j] == expected[j] by {
        let p1 = base + j * LOADED_ITEM_SIZE;
        assert((j + 1) * LOADED_ITEM_SIZE == j * LOADED_ITEM_SIZE + LOADED_ITEM_SIZE) by (
        nonlinear_arith);
        assert((j + 1) * LOADED_ITEM_SIZE <= m * LOADED_ITEM_SIZE) by (nonlinear_arith)
            requires
                j + 1 <= m,
                LOADED_ITEM_SIZE > 0,
        ;
        assert(0 <= j * LOADED_ITEM_SIZE) by (nonlinear_arith)
            requires
                0 <= j,
        ;
        if j < s {
            // Records before the span kept their bytes.
            assert((j + 1) * LOADED_ITEM_SIZE <= s * LOADED_ITEM_SIZE) by (nonlinear_arith)
                requires
                    j + 1 <= s,
                    LOADED_ITEM_SIZE > 0,
            ;
            assert(s * LOADED_ITEM_SIZE <= count * LOADED_ITEM_SIZE) by (nonlinear_arith)
                requires
                    s <= count,
                    LOADED_ITEM_SIZE > 0,
            ;
            assert forall|t: int| 0 <= t < LOADED_ITEM_SIZE implies #[trigger] data1[p1 + t]
                == data0[p1 + t] by {
                assert(0 <= p1 + t < base + s * LOADED_ITEM_SIZE);
            }
            crate::codec::lemma_record_equal_bytes(data1, p1, data0, p1);
        } else {
            // Records at and after the span start came down from the tail.
            let jj = j + (e - s + 1);
            let p0 = base + jj * LOADED_ITEM_SIZE;
            assert((j + (e - s + 1)) * LOADED_ITEM_SIZE == (e + 1) * LOADED_ITEM_SIZE + ((j - s)
                * LOADED_ITEM_SIZE)) by (nonlinear_arith);
            assert(j * LOADED_ITEM_SIZE == s * LOADED_ITEM_SIZE + ((j - s) * LOADED_ITEM_SIZE))
                by (nonlinear_arith);
            assert((j - s) * LOADED_ITEM_SIZE + LOADED_ITEM_SIZE <= (count - e - 1)
                * LOADED_ITEM_SIZE) by (nonlinear_arith)
                requires
                    j - s + 1 <= count - e - 1,
                    LOADED_ITEM_SIZE > 0,
            ;
            assert(0 <= (j - s) * LOADED_ITEM_SIZE) by (nonlinear_arith)
                requires
                    0 <= j - s,
            ;
            assert((j + (e - s + 1) + 1) * LOADED_ITEM_SIZE <= count * LOADED_ITEM_SIZE) by (
            nonlinear_arith)
                requires
                    j + (e - s + 1) + 1 <= count,
                    LOADED_ITEM_SIZE > 0,
            ;
            assert forall|t: int| 0 <= t < LOADED_ITEM_SIZE implies #[trigger] data1[p1 + t]
                == data0[p0 + t] by {
                let tt = (j - s) * LOADED_ITEM_SIZE + t;
                assert(data1[base + s * LOADED_ITEM_SIZE + tt] == data0[base + (e + 1)
                    * LOADED_ITEM_SIZE + tt]);
                assert(p1 + t == base + s * LOADED_ITEM_SIZE + tt);
                assert(p0 + t == base + (e + 1) * LOADED_ITEM_SIZE + tt);
            }
            crate::codec::lemma_record_equal_bytes(data1, p1, data0, p0);
        }
    }
    assert(items1 =~= expected);
}

} // verus!
