//! Claim engine: materializing one pending prize for a buyer.
//!
//! A claim locates the first pending prize matching the requested item
//! index, checks the supplied asset identity against the drawn item's mint,
//! removes the prize from the queue, bumps the item's `supply_claimed` and
//! the machine's `supply_settled`, and reports back the escrow to refund and
//! whether the emptied queue can be closed. Nothing is mutated unless every
//! check passes.

use vstd::bytes::*;
use vstd::prelude::*;

use crate::codec;
use crate::errors::JellybeanError;
use crate::pubkey::Pubkey;
use crate::state::{
    lemma_sum_loaded_update, lemma_sum_redeemed_update, ItemView, JellybeanMachine, JellybeanState,
    LoadedItem, Prize, UnclaimedPrizes, LOADED_ITEM_SIZE,
};

verus! {

/// Index of the first prize in `prizes` drawn from item `item_index`, or -1
/// when no pending prize matches. Claims always remove the first match.
pub open spec fn first_match(prizes: Seq<Prize>, item_index: u8) -> int
    decreases prizes.len(),
{
    if prizes.len() == 0 {
        -1
    } else if prizes[0].item_index == item_index {
        0
    } else {
        let rest = first_match(prizes.drop_first(), item_index);
        if rest < 0 {
            -1
        } else {
            rest + 1
        }
    }
}

/// Number of pending prizes in `prizes` drawn from item `item_index`.
pub open spec fn count_matching(prizes: Seq<Prize>, item_index: u8) -> int
    decreases prizes.len(),
{
    if prizes.len() == 0 {
        0
    } else {
        (if prizes[0].item_index == item_index {
            1int
        } else {
            0int
        }) + count_matching(prizes.drop_first(), item_index)
    }
}

/// `first_match` returns -1 exactly when nothing matches, and otherwise the
/// least matching index.
pub proof fn lemma_first_match_spec(prizes: Seq<Prize>, item_index: u8)
    ensures
        ({
            let r = first_match(prizes, item_index);
            &&& (r == -1 <==> forall|k: int|
                0 <= k < prizes.len() ==> (#[trigger] prizes[k]).item_index != item_index)
            &&& (r != -1 ==> 0 <= r < prizes.len() && prizes[r].item_index == item_index && forall|
                k: int,
            |
                0 <= k < r ==> (#[trigger] prizes[k]).item_index != item_index)
        }),
    decreases prizes.len(),
{
    if prizes.len() > 0 && prizes[0].item_index != item_index {
        lemma_first_match_spec(prizes.drop_first(), item_index);
        let rest = first_match(prizes.drop_first(), item_index);
        if rest == -1 {
            assert forall|k: int| 0 <= k < prizes.len() implies (#[trigger] prizes[k]).item_index
                != item_index by {
                if k > 0 {
                    assert(prizes[k] == prizes.drop_first()[k - 1]);
                }
            }
        } else {
            assert(prizes[rest + 1] == prizes.drop_first()[rest]);
            assert forall|k: int| 0 <= k < rest + 1 implies (#[trigger] prizes[k]).item_index
                != item_index by {
                if k > 0 {
                    assert(prizes[k] == prizes.drop_first()[k - 1]);
                }
            }
        }
    }
}

/// Splitting a queue splits its matching-prize count.
pub proof fn lemma_count_matching_concat(a: Seq<Prize>, b: Seq<Prize>, item_index: u8)
    ensures
        count_matching(a + b, item_index) == count_matching(a, item_index) + count_matching(
            b,
            item_index,
        ),
    decreases a.len(),
{
    if a.len() == 0 {
        assert(a + b =~= b);
    } else {
        assert((a + b).drop_first() =~= a.drop_first() + b);
        lemma_count_matching_concat(a.drop_first(), b, item_index);
    }
}

/// A queue holds no match exactly when its matching-prize count is zero.
pub proof fn lemma_count_matching_zero(prizes: Seq<Prize>, item_index: u8)
    ensures
        0 <= count_matching(prizes, item_index),
        count_matching(prizes, item_index) == 0 <==> forall|k: int|
            0 <= k < prizes.len() ==> (#[trigger] prizes[k]).item_index != item_index,
    decreases prizes.len(),
{
    if prizes.len() > 0 {
        lemma_count_matching_zero(prizes.drop_first(), item_index);
        if count_matching(prizes, item_index) == 0 {
            assert forall|k: int| 0 <= k < prizes.len() implies (#[trigger] prizes[k]).item_index
                != item_index by {
                if k > 0 {
                    assert(prizes[k] == prizes.drop_first()[k - 1]);
                }
            }
        } else {
            if prizes[0].item_index != item_index {
                let r = count_matching(prizes.drop_first(), item_index);
                assert(r != 0);
                let w = choose|k: int|
                    0 <= k < prizes.drop_first().len() && (#[trigger] prizes.drop_first()[k]).item_index == item_index;
                assert(prizes[w + 1] == prizes.drop_first()[w]);
            }
        }
    }
}

/// Removing one prize drops the matching count by one when it matches, and
/// leaves the count alone otherwise.
pub proof fn lemma_count_matching_remove(prizes: Seq<Prize>, item_index: u8, j: int)
    requires
        0 <= j < prizes.len(),
    ensures
        count_matching(prizes.remove(j), item_index) == count_matching(prizes, item_index) - (
        if prizes[j].item_index == item_index {
            1int
        } else {
            0int
        }),
{
    let front = prizes.subrange(0, j);
    let back = prizes.subrange(j + 1, prizes.len() as int);
    let at = prizes.subrange(j, prizes.len() as int);
    assert(prizes.remove(j) =~= front + back);
    assert(prizes =~= front + at);
    assert(at.drop_first() =~= back);
    lemma_count_matching_concat(front, back, item_index);
    lemma_count_matching_concat(front, at, item_index);
}

/// Claim exclusivity: when a queue holds exactly one pending prize for an
/// item, claiming that item removes it, and the queue left behind holds no
/// match for the same index, so a second claim of it must fail.
pub proof fn lemma_claim_exclusivity(prizes: Seq<Prize>, item_index: u8)
    requires
        count_matching(prizes, item_index) == 1,
    ensures
        ({
            let fm = first_match(prizes, item_index);
            &&& 0 <= fm < prizes.len()
            &&& first_match(prizes.remove(fm), item_index) == -1
        }),
{
    lemma_first_match_spec(prizes, item_index);
    lemma_count_matching_zero(prizes, item_index);
    let fm = first_match(prizes, item_index);
    lemma_count_matching_remove(prizes, item_index, fm);
    lemma_count_matching_zero(prizes.remove(fm), item_index);
    lemma_first_match_spec(prizes.remove(fm), item_index);
}

impl UnclaimedPrizes {
    /// Position of the first pending prize drawn from `item_index`, if any.
    fn find_first_match(&self, item_index: u8) -> (r: Option<usize>)
        ensures
            match r {
                Some(p) => p as int == first_match(self.prizes@, item_index),
                None => first_match(self.prizes@, item_index) == -1,
            },
    {
        proof {
            lemma_first_match_spec(self.prizes@, item_index);
        }
        let n = self.prizes.len();
        let mut i: usize = 0;
        while i < n
            invariant
                n == self.prizes@.len(),
                i <= n,
                forall|k: int|
                    0 <= k < i ==> (#[trigger] self.prizes@[k]).item_index != item_index,
            decreases n - i,
        {
            if self.prizes[i].item_index == item_index {
                proof {
                    lemma_first_match_spec(self.prizes@, item_index);
                }
                return Some(i);
            }
            i = i + 1;
        }
        None
    }

    /// Removes and returns the first pending prize drawn from `item_index`;
    /// fails with `InvalidItemIndex` when no pending prize matches.
    pub fn claim_item(&mut self, item_index: u8) -> (r: Result<Prize, JellybeanError>)
        ensures
            final(self).version == old(self).version,
            final(self).jellybean_machine == old(self).jellybean_machine,
            final(self).buyer == old(self).buyer,
            r is Ok <==> first_match(old(self).prizes@, item_index) >= 0,
            match r {
                Ok(prize) => {
                    let fm = first_match(old(self).prizes@, item_index);
                    &&& 0 <= fm < old(self).prizes@.len()
                    &&& prize == old(self).prizes@[fm]
                    &&& prize.item_index == item_index
                    &&& final(self).prizes@ == old(self).prizes@.remove(fm)
                },
                Err(e) => {
                    &&& e == JellybeanError::InvalidItemIndex
                    &&& *final(self) == *old(self)
                },
            },
    {
        proof {
            lemma_first_match_spec(self.prizes@, item_index);
        }
        let position = match self.find_first_match(item_index) {
            Some(p) => p,
            None => {
                return Err(JellybeanError::InvalidItemIndex);
            },
        };
        Ok(self.prizes.remove(position))
    }
}

/// Everything a successful claim obliges the host to do: materialize the
/// asset, refund escrow, and shrink or close the queue's storage.
#[derive(Debug)]
pub struct ClaimOutcome {
    /// The pending prize that was claimed, removed from the queue.
    pub prize: Prize,
    /// The drawn item as it stood before this claim bumped its counter; its
    /// mint is the asset to materialize for the buyer.
    pub item: LoadedItem,
    /// Escrowed value to release back to the claiming payer before a
    /// multi-edition print; zero otherwise.
    pub escrow_refund: u64,
    /// True when the queue is now empty and its storage can be reclaimed.
    pub queue_now_empty: bool,
}

/// Claims one pending prize: checks the lifecycle state, that a pending
/// prize matches, that the supplied asset is exactly the drawn item's mint,
/// and that a redeemed-but-unclaimed unit is outstanding; then removes the
/// prize, bumps the item's `supply_claimed` in place and the machine's
/// `supply_settled`. Fails without any mutation otherwise.
pub fn process_claim_item(
    machine: &mut JellybeanMachine,
    data: &mut Vec<u8>,
    unclaimed: &mut UnclaimedPrizes,
    item_index: u8,
    asset: &Pubkey,
) -> (r: Result<ClaimOutcome, JellybeanError>)
    requires
        old(machine).wf(old(data)@),
    ensures
        final(machine).wf(final(data)@),
        ({
            let items0 = old(machine).items(old(data)@);
            let fm = first_match(old(unclaimed).prizes@, item_index);
            let idx = item_index as int;
            let state_ok = old(machine).state == JellybeanState::SaleLive || old(machine).state
                == JellybeanState::SaleEnded;
            &&& (r is Ok <==> {
                &&& state_ok
                &&& fm >= 0
                &&& idx < old(machine).items_loaded
                &&& items0[idx].mint == asset@
                &&& items0[idx].supply_claimed < items0[idx].supply_redeemed
                &&& old(machine).supply_settled < old(machine).supply_redeemed
            })
            &&& match r {
                Ok(out) => {
                    &&& out.prize == old(unclaimed).prizes@[fm]
                    &&& final(unclaimed).prizes@ == old(unclaimed).prizes@.remove(fm)
                    &&& final(unclaimed).version == old(unclaimed).version
                    &&& final(unclaimed).jellybean_machine == old(unclaimed).jellybean_machine
                    &&& final(unclaimed).buyer == old(unclaimed).buyer
                    &&& out.item@ == items0[idx]
                    &&& *final(machine) == (JellybeanMachine {
                        supply_settled: (old(machine).supply_settled + 1) as u64,
                        ..*old(machine)
                    })
                    &&& final(machine).items(final(data)@) == items0.update(
                        idx,
                        ItemView {
                            supply_claimed: (items0[idx].supply_claimed + 1) as u32,
                            ..items0[idx]
                        },
                    )
                    &&& final(data)@.len() == old(data)@.len()
                    &&& forall|k: int|
                        0 <= k < old(machine).spec_base_size() ==> final(data)@[k] == old(
                            data,
                        )@[k]
                    &&& out.escrow_refund == (if items0[idx].supply_loaded > 1 {
                        items0[idx].escrow_amount
                    } else {
                        0u64
                    })
                    &&& out.queue_now_empty == (final(unclaimed).prizes@.len() == 0)
                },
                Err(e) => {
                    &&& *final(machine) == *old(machine)
                    &&& final(data)@ == old(data)@
                    &&& *final(unclaimed) == *old(unclaimed)
                    &&& (e == JellybeanError::InvalidState <==> !state_ok)
                    &&& (e == JellybeanError::InvalidItemIndex <==> state_ok && fm < 0)
                    &&& (e == JellybeanError::IndexGreaterThanLength <==> state_ok && fm >= 0
                        && idx >= old(machine).items_loaded)
                    &&& (e == JellybeanError::PublicKeyMismatch <==> state_ok && fm >= 0 && idx
                        < old(machine).items_loaded && items0[idx].mint != asset@)
                    &&& (e == JellybeanError::NumericalOverflowError <==> state_ok && fm >= 0
                        && idx < old(machine).items_loaded && items0[idx].mint == asset@ && !(
                        items0[idx].supply_claimed < items0[idx].supply_redeemed && old(
                            machine,
                        ).supply_settled < old(machine).supply_redeemed))
                },
            }
        }),
{
    if !(machine.state == JellybeanState::SaleLive || machine.state == JellybeanState::SaleEnded) {
        return Err(JellybeanError::InvalidState);
    }
    let position = match unclaimed.find_first_match(item_index) {
        Some(p) => p,
        None => {
            return Err(JellybeanError::InvalidItemIndex);
        },
    };
    proof {
        lemma_first_match_spec(unclaimed.prizes@, item_index);
    }
    let item = match machine.get_loaded_item_at_index(data, item_index as usize) {
        Ok(item) => item,
        Err(_) => {
            return Err(JellybeanError::IndexGreaterThanLength);
        },
    };
    if !(asset == &item.mint) {
        return Err(JellybeanError::PublicKeyMismatch);
    }
    // A pending prize for an item always lies between its claimed and
    // redeemed counters; fail closed when the counters cannot absorb the
    // claim.
    if item.supply_claimed >= item.supply_redeemed || machine.supply_settled
        >= machine.supply_redeemed {
        return Err(JellybeanError::NumericalOverflowError);
    }
    let ghost items0 = machine.items(data@);
    let ghost idx = item_index as int;
    let prize = match unclaimed.claim_item(item_index) {
        Ok(prize) => prize,
        Err(e) => {
            proof {
                assert(false);
            }
            return Err(e);
        },
    };
    let count = machine.items_loaded;
    let new_supply_claimed = item.supply_claimed + 1;
    let pos = machine.get_loaded_item_position(item_index as usize);
    proof {
        assert((idx + 1) * LOADED_ITEM_SIZE <= count * LOADED_ITEM_SIZE) by (nonlinear_arith)
            requires
                idx + 1 <= count,
                LOADED_ITEM_SIZE > 0,
        ;
        assert((idx + 1) * LOADED_ITEM_SIZE == idx * LOADED_ITEM_SIZE + LOADED_ITEM_SIZE) by (
        nonlinear_arith);
    }
    let ghost data1 = data@;
    let claimed_bytes = u32_to_le_bytes(new_supply_claimed);
    codec::write_bytes(data, pos + codec::ITEM_SUPPLY_CLAIMED_OFFSET, claimed_bytes.as_slice());
    proof {
        lemma_auto_spec_u32_to_from_le_bytes();
        let p = pos as int;
        assert(data@.subrange(p + 40, p + 44) =~= spec_u32_to_le_bytes(new_supply_claimed));
        assert(data@.subrange(p, p + 32) =~= data1.subrange(p, p + 32));
        assert(data@.subrange(p + 32, p + 36) =~= data1.subrange(p + 32, p + 36));
        assert(data@.subrange(p + 36, p + 40) =~= data1.subrange(p + 36, p + 40));
        assert(data@.subrange(p + 44, p + 52) =~= data1.subrange(p + 44, p + 52));
        assert(codec::spec_item_record(data@, p) =~= ItemView {
            supply_claimed: new_supply_claimed,
            ..items0[idx]
        });
        codec::lemma_items_update(data1, data@, machine.spec_base_size(), count as int, idx);
        lemma_sum_loaded_update(
            items0,
            idx,
            ItemView { supply_claimed: new_supply_claimed, ..items0[idx] },
        );
        lemma_sum_redeemed_update(
            items0,
            idx,
            ItemView { supply_claimed: new_supply_claimed, ..items0[idx] },
        );
    }
    machine.supply_settled = machine.supply_settled + 1;
    let escrow_refund = if item.supply_loaded > 1 {
        item.escrow_amount
    } else {
        0
    };
    let queue_now_empty = unclaimed.prizes.len() == 0;
    Ok(ClaimOutcome { prize, item, escrow_refund, queue_now_empty })
}

} // verus!
