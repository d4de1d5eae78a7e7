//! Draw engine: weighted random selection of one unit of remaining supply.
//!
//! A draw reduces an opaque 64-bit entropy seed to a target unit index among
//! all remaining units, scans the item table in order until the cumulative
//! remaining supply covers the target, bumps the chosen item's
//! `supply_redeemed` in place, bumps the header counter and ends the sale
//! when the last unit goes. Value movement (escrowing, print fees) is
//! reported back to the caller as amounts owed; this crate moves no value.

use vstd::bytes::*;
use vstd::prelude::*;

use crate::codec;
use crate::errors::JellybeanError;
use crate::state::{
    item_wf, lemma_sum_loaded_bound, lemma_sum_loaded_update, lemma_sum_redeemed_nonneg,
    lemma_sum_redeemed_update, lemma_sum_remaining_parts, sum_loaded, sum_remaining, ItemView,
    JellybeanMachine, JellybeanState, LoadedItem, PrintFeeConfig, Prize, LOADED_ITEM_SIZE,
};

verus! {

/// Everything a successful draw obliges the host to do: queue the prize,
/// escrow `escrow_amount` from the payer when it is nonzero, and pay the
/// print fee when one is owed.
#[derive(Debug)]
pub struct DrawOutcome {
    /// The prize the buyer drew; append it to the buyer's pending queue.
    pub prize: Prize,
    /// Value to move from the payer into custody against the drawn item;
    /// zero when the item holds no escrow.
    pub escrow_amount: u64,
    /// Flat fee owed for drawing from a multi-edition source, if any.
    pub print_fee: Option<PrintFeeConfig>,
}

/// Cumulative remaining supply of the first `i` items: the number of units a
/// scan has passed before it reaches item `i`.
pub open spec fn covered_before(items: Seq<ItemView>, i: int) -> int {
    sum_remaining(items.subrange(0, i))
}

/// Item `i` is the one whose block of remaining units contains `target`.
pub open spec fn is_chosen_index(items: Seq<ItemView>, target: int, i: int) -> bool {
    &&& 0 <= i < items.len()
    &&& covered_before(items, i) <= target
    &&& target < covered_before(items, i) + (items[i].supply_loaded - items[i].supply_redeemed)
}

/// Passing one more item grows the covered count by that item's remaining
/// supply.
pub proof fn lemma_covered_step(items: Seq<ItemView>, i: int)
    requires
        0 <= i < items.len(),
    ensures
        covered_before(items, i + 1) == covered_before(items, i) + (items[i].supply_loaded
            - items[i].supply_redeemed),
{
    assert(items.subrange(0, i + 1).drop_last() =~= items.subrange(0, i));
}

/// The covered count never shrinks as the scan advances.
pub proof fn lemma_covered_monotonic(items: Seq<ItemView>, i: int, j: int)
    requires
        forall|k: int| 0 <= k < items.len() ==> item_wf(#[trigger] items[k]),
        0 <= i <= j <= items.len(),
    ensures
        covered_before(items, i) <= covered_before(items, j),
    decreases j - i,
{
    if i < j {
        lemma_covered_step(items, j - 1);
        lemma_covered_monotonic(items, i, j - 1);
        assert(item_wf(items[j - 1]));
    }
}

/// Draw determinism: on a fixed table, a fixed target unit index falls into
/// the remaining-supply block of exactly one item, so a draw with a fixed
/// seed always selects the same item and produces the same edition number.
pub proof fn lemma_draw_deterministic(items: Seq<ItemView>, target: int, i: int, j: int)
    requires
        forall|k: int| 0 <= k < items.len() ==> item_wf(#[trigger] items[k]),
        is_chosen_index(items, target, i),
        is_chosen_index(items, target, j),
    ensures
        i == j,
{
    if i < j {
        lemma_covered_step(items, i);
        lemma_covered_monotonic(items, i + 1, j);
    }
    if j < i {
        lemma_covered_step(items, j);
        lemma_covered_monotonic(items, j + 1, i);
    }
}

/// Draw determinism at the prize level: two prizes produced against the same
/// table and the same target unit are the same prize, item index and edition
/// number alike.
pub proof fn lemma_draw_prize_deterministic(items: Seq<ItemView>, target: int, p1: Prize, p2: Prize)
    requires
        forall|k: int| 0 <= k < items.len() ==> item_wf(#[trigger] items[k]),
        is_chosen_index(items, target, p1.item_index as int),
        p1.edition_number == items[p1.item_index as int].supply_redeemed + 1,
        is_chosen_index(items, target, p2.item_index as int),
        p2.edition_number == items[p2.item_index as int].supply_redeemed + 1,
    ensures
        p1 == p2,
{
    lemma_draw_deterministic(items, target, p1.item_index as int, p2.item_index as int);
}

/// Scanning the whole table covers exactly the total remaining supply.
pub proof fn lemma_covered_total(items: Seq<ItemView>)
    ensures
        covered_before(items, items.len() as int) == sum_remaining(items),
{
    assert(items.subrange(0, items.len() as int) =~= items);
}

/// Scans the item table for the item whose block of remaining units contains
/// `target`, and bumps that item's `supply_redeemed` in place. Returns the
/// prize (chosen index and fresh edition number) together with the chosen
/// item as it was before the bump.
pub fn get_prize_and_update_supply_redeemed(
    machine: &JellybeanMachine,
    data: &mut Vec<u8>,
    target: u64,
) -> (r: Result<(Prize, LoadedItem), JellybeanError>)
    requires
        machine.wf(old(data)@),
        target < sum_remaining(machine.items(old(data)@)),
    ensures
        match r {
            Ok((prize, item)) => {
                let items0 = machine.items(old(data)@);
                let idx = prize.item_index as int;
                &&& is_chosen_index(items0, target as int, idx)
                &&& item@ == items0[idx]
                &&& prize.edition_number == item@.supply_redeemed + 1
                &&& final(data)@.len() == old(data)@.len()
                &&& machine.items(final(data)@) == items0.update(
                    idx,
                    ItemView { supply_redeemed: prize.edition_number, ..items0[idx] },
                )
                &&& forall|k: int|
                    0 <= k < machine.spec_base_size() ==> final(data)@[k] == old(data)@[k]
            },
            Err(_) => false,
        },
{
    let ghost items0 = machine.items(data@);
    let count = machine.items_loaded;
    let mut covered: u64 = 0;
    let mut i: u16 = 0;
    proof {
        assert(items0.subrange(0, 0) =~= Seq::<ItemView>::empty());
        lemma_sum_loaded_bound(items0);
        lemma_sum_redeemed_nonneg(items0);
        lemma_sum_remaining_parts(items0);
    }
    while i < count
        invariant
            machine.wf(data@),
            data@ == old(data)@,
            count == machine.items_loaded,
            i <= count,
            covered == covered_before(items0, i as int),
            covered <= target,
            items0 == machine.items(data@),
            target < sum_remaining(items0),
            sum_remaining(items0) <= sum_loaded(items0) <= count * (u32::MAX as int),
        decreases count - i,
    {
        let item = match machine.get_loaded_item_at_index(data, i as usize) {
            Ok(item) => item,
            Err(e) => {
                proof {
                    assert(false);
                }
                return Err(e);
            },
        };
        proof {
            assert(item_wf(items0[i as int]));
        }
        let remaining = item.supply_loaded - item.supply_redeemed;
        if remaining == 0 {
            proof {
                lemma_covered_step(items0, i as int);
            }
            i = i + 1;
            continue ;
        }
        proof {
            lemma_covered_step(items0, i as int);
            lemma_covered_monotonic(items0, i as int + 1, count as int);
            lemma_covered_total(items0);
        }
        if target < covered + remaining as u64 {
            let new_supply_redeemed = item.supply_redeemed + 1;
            let pos = machine.get_loaded_item_position(i as usize);
            proof {
                assert((i as int + 1) * LOADED_ITEM_SIZE <= count * LOADED_ITEM_SIZE) by (
                nonlinear_arith)
                    requires
                        i as int + 1 <= count,
                        LOADED_ITEM_SIZE > 0,
                ;
                assert((i as int + 1) * LOADED_ITEM_SIZE == i as int * LOADED_ITEM_SIZE
                    + LOADED_ITEM_SIZE) by (nonlinear_arith);
            }
            let ghost data1 = data@;
            let redeemed_bytes = u32_to_le_bytes(new_supply_redeemed);
            codec::write_bytes(
                data,
                pos + codec::ITEM_SUPPLY_REDEEMED_OFFSET,
                redeemed_bytes.as_slice(),
            );
            proof {
                lemma_auto_spec_u32_to_from_le_bytes();
                let p = pos as int;
                assert(data@.subrange(p + 36, p + 40) =~= spec_u32_to_le_bytes(
                    new_supply_redeemed,
                ));
                assert(data@.subrange(p, p + 32) =~= data1.subrange(p, p + 32));
                assert(data@.subrange(p + 32, p + 36) =~= data1.subrange(p + 32, p + 36));
                assert(data@.subrange(p + 40, p + 44) =~= data1.subrange(p + 40, p + 44));
                assert(data@.subrange(p + 44, p + 52) =~= data1.subrange(p + 44, p + 52));
                assert(codec::spec_item_record(data@, p) =~= ItemView {
                    supply_redeemed: new_supply_redeemed,
                    ..items0[i as int]
                });
                codec::lemma_items_update(
                    data1,
                    data@,
                    machine.spec_base_size(),
                    count as int,
                    i as int,
                );
            }
            let prize = Prize { item_index: i as u8, edition_number: new_supply_redeemed };
            return Ok((prize, item));
        }
        covered = covered + remaining as u64;
        i = i + 1;
    }
    // Defensive: a target below the total remaining supply always falls
    // inside some item's block, so the scan cannot fall through; the proof
    // shows this exit unreachable.
    proof {
        lemma_covered_total(items0);
        assert(false);
    }
    Err(JellybeanError::IndexGreaterThanLength)
}

/// Performs one draw against the machine: rejects a machine whose sale is
/// not live or whose supply is exhausted, reduces the entropy seed to a
/// target unit, commits the selection, and ends the sale on the last unit.
pub fn process_draw(machine: &mut JellybeanMachine, data: &mut Vec<u8>, seed: u64) -> (r: Result<
    DrawOutcome,
    JellybeanError,
>)
    requires
        old(machine).wf(old(data)@),
    ensures
        final(machine).wf(final(data)@),
        r is Ok <==> (old(machine).state == JellybeanState::SaleLive && old(
            machine,
        ).supply_redeemed < old(machine).supply_loaded),
        match r {
            Ok(out) => {
                let items0 = old(machine).items(old(data)@);
                let target = seed % (old(machine).supply_loaded - old(
                    machine,
                ).supply_redeemed) as u64;
                let idx = out.prize.item_index as int;
                &&& is_chosen_index(items0, target as int, idx)
                &&& out.prize.edition_number == items0[idx].supply_redeemed + 1
                &&& *final(machine) == (JellybeanMachine {
                    supply_redeemed: (old(machine).supply_redeemed + 1) as u64,
                    state: if old(machine).supply_redeemed + 1 == old(machine).supply_loaded {
                        JellybeanState::SaleEnded
                    } else {
                        JellybeanState::SaleLive
                    },
                    ..*old(machine)
                })
                &&& final(machine).items(final(data)@) == items0.update(
                    idx,
                    ItemView { supply_redeemed: out.prize.edition_number, ..items0[idx] },
                )
                &&& final(data)@.len() == old(data)@.len()
                &&& forall|k: int|
                    0 <= k < old(machine).spec_base_size() ==> final(data)@[k] == old(data)@[k]
                &&& out.escrow_amount == items0[idx].escrow_amount
                &&& out.print_fee == (if items0[idx].supply_loaded > 1 {
                    match old(machine).print_fee_config {
                        Some(cfg) => if cfg.amount > 0 {
                            Some(cfg)
                        } else {
                            None
                        },
                        None => None,
                    }
                } else {
                    Option::<PrintFeeConfig>::None
                })
            },
            Err(e) => {
                &&& *final(machine) == *old(machine)
                &&& final(data)@ == old(data)@
                &&& (e == JellybeanError::InvalidState <==> old(machine).state
                    != JellybeanState::SaleLive)
                &&& (e == JellybeanError::JellybeanMachineEmpty <==> (old(machine).state
                    == JellybeanState::SaleLive && old(machine).supply_redeemed >= old(
                    machine,
                ).supply_loaded))
            },
        },
{
    if !(machine.state == JellybeanState::SaleLive) {
        return Err(JellybeanError::InvalidState);
    }
    let supply_loaded = machine.supply_loaded;
    if machine.supply_redeemed >= supply_loaded {
        return Err(JellybeanError::JellybeanMachineEmpty);
    }
    proof {
        lemma_sum_loaded_bound(machine.items(data@));
        lemma_sum_redeemed_nonneg(machine.items(data@));
        lemma_sum_remaining_parts(machine.items(data@));
    }
    let target = seed % (supply_loaded - machine.supply_redeemed);
    let (prize, item) = match get_prize_and_update_supply_redeemed(machine, data, target) {
        Ok(pair) => pair,
        Err(e) => {
            proof {
                assert(false);
            }
            return Err(e);
        },
    };
    let ghost items0 = old(machine).items(old(data)@);
    let ghost idx = prize.item_index as int;
    machine.supply_redeemed = machine.supply_redeemed + 1;
    if machine.supply_redeemed == supply_loaded {
        machine.state = JellybeanState::SaleEnded;
    }
    let escrow_amount = item.escrow_amount;
    let print_fee = if item.supply_loaded > 1 {
        match &machine.print_fee_config {
            Some(cfg) => if cfg.amount > 0 {
                Some(PrintFeeConfig { address: cfg.address, amount: cfg.amount })
            } else {
                None
            },
            None => None,
        }
    } else {
        None
    };
    proof {
        lemma_sum_loaded_update(
            items0,
            idx,
            ItemView { supply_redeemed: prize.edition_number, ..items0[idx] },
        );
        lemma_sum_redeemed_update(
            items0,
            idx,
            ItemView { supply_redeemed: prize.edition_number, ..items0[idx] },
        );
        assert(final(machine).items(final(data)@) == machine.items(data@));
    }
    Ok(DrawOutcome { prize, escrow_amount, print_fee })
}

} // verus!
