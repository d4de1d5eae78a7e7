//! Proportional fee arithmetic over basis points.

use vstd::arithmetic::div_mod::{
    lemma_div_is_ordered, lemma_div_multiples_vanish, lemma_div_pos_is_pos,
};
use vstd::arithmetic::mul::lemma_mul_inequality;
use vstd::prelude::*;

use crate::errors::JellybeanError;
use crate::state::FeeAccount;

verus! {

/// The proportional share `bps` basis points cut out of `amount`, rounded
/// down; one whole is 10000 basis points.
pub open spec fn spec_bps_of(amount: u64, bps: u16) -> int {
    (amount * bps) / 10000
}

/// A share of at most one whole never exceeds the amount itself.
pub proof fn lemma_bps_of_le_amount(amount: u64, bps: u16)
    requires
        bps <= 10000,
    ensures
        0 <= spec_bps_of(amount, bps) <= amount,
{
    lemma_mul_inequality(bps as int, 10000, amount as int);
    assert(amount * bps == bps * amount) by (nonlinear_arith);
    assert(amount * 10000 == 10000 * amount) by (nonlinear_arith);
    lemma_div_is_ordered(amount * bps, amount * 10000, 10000);
    lemma_div_multiples_vanish(amount as int, 10000);
    assert(0 <= amount * bps) by (nonlinear_arith);
    lemma_div_pos_is_pos(amount * bps, 10000);
}

/// Cuts `bps` basis points out of `amount`, rounding down.
pub fn get_bps_of(amount: u64, bps: u16) -> (r: Result<u64, JellybeanError>)
    requires
        bps <= 10000,
    ensures
        r == Ok::<u64, JellybeanError>((spec_bps_of(amount, bps)) as u64),
        r->Ok_0 <= amount,
{
    proof {
        lemma_bps_of_le_amount(amount, bps);
    }
    if bps == 0 || amount == 0 {
        proof {
            assert(amount * bps == 0) by (nonlinear_arith)
                requires
                    bps == 0 || amount == 0,
            ;
            assert(spec_bps_of(amount, bps) == 0);
        }
        return Ok(0);
    }
    let wide = match (amount as u128).checked_mul(bps as u128) {
        Some(w) => w,
        None => {
            proof {
                assert(amount as int * bps as int <= u64::MAX as int * u16::MAX as int) by (
                nonlinear_arith)
                    requires
                        amount <= u64::MAX,
                        bps <= u16::MAX,
                ;
                assert(false);
            }
            return Err(JellybeanError::NumericalOverflowError);
        },
    };
    let result = (wide / 10000) as u64;
    Ok(result)
}

/// Sum of a sequence of payout amounts.
pub open spec fn sum_payouts(payouts: Seq<u64>) -> int
    decreases payouts.len(),
{
    if payouts.len() == 0 {
        0
    } else {
        sum_payouts(payouts.drop_last()) + payouts.last()
    }
}

/// The fee owed to every entry of a validated fee table, in table order,
/// together with the total across all entries. The total never exceeds the
/// amount being split, since the table's shares sum to at most one whole.
pub fn fee_payouts(fee_accounts: &Vec<FeeAccount>, amount: u64) -> (r: (Vec<u64>, u64))
    requires
        crate::checks::sum_basis_points(fee_accounts@) <= 10000,
    ensures
        r.0@.len() == fee_accounts@.len(),
        forall|i: int|
            0 <= i < fee_accounts@.len() ==> r.0@[i] == spec_bps_of(
                amount,
                (#[trigger] fee_accounts@[i]).basis_points,
            ),
        r.1 == sum_payouts(r.0@),
        r.1 <= amount,
{
    let n = fee_accounts.len();
    let mut payouts: Vec<u64> = Vec::new();
    let mut total_paid: u64 = 0;
    let mut i: usize = 0;
    proof {
        assert(fee_accounts@.subrange(0, 0) =~= Seq::<FeeAccount>::empty());
    }
    while i < n
        invariant
            n == fee_accounts@.len(),
            i <= n,
            payouts@.len() == i,
            crate::checks::sum_basis_points(fee_accounts@) <= 10000,
            forall|j: int|
                0 <= j < i ==> payouts@[j] == spec_bps_of(
                    amount,
                    (#[trigger] fee_accounts@[j]).basis_points,
                ),
            total_paid * 10000 <= amount * crate::checks::sum_basis_points(
                fee_accounts@.subrange(0, i as int),
            ),
            total_paid == sum_payouts(payouts@),
            total_paid <= amount,
        decreases n - i,
    {
        let bps = fee_accounts[i].basis_points;
        proof {
            assert(fee_accounts@.subrange(0, i + 1).drop_last() =~= fee_accounts@.subrange(
                0,
                i as int,
            ));
            crate::checks::lemma_sum_basis_points_prefix(fee_accounts@, i + 1);
            crate::checks::lemma_sum_basis_points_prefix(fee_accounts@, i as int);
            assert(fee_accounts@.subrange(0, i + 1).last() == fee_accounts@[i as int]);
            assert(bps <= 10000);
            lemma_bps_of_le_amount(amount, bps);
        }
        let ghost old_payouts = payouts@;
        let fee_amount = match get_bps_of(amount, bps) {
            Ok(f) => f,
            Err(e) => {
                proof {
                    assert(false);
                }
                return (payouts, total_paid);
            },
        };
        proof {
            // The running total, scaled back up by one whole, stays within
            // the amount times the shares seen so far.
            let pre = crate::checks::sum_basis_points(fee_accounts@.subrange(0, i as int));
            let now = crate::checks::sum_basis_points(fee_accounts@.subrange(0, i + 1));
            assert(fee_amount * 10000 <= amount * bps) by (nonlinear_arith)
                requires
                    fee_amount == (amount * bps) / 10000,
                    0 <= amount * bps,
            ;
            assert((total_paid + fee_amount) * 10000 == total_paid * 10000 + fee_amount * 10000)
                by (nonlinear_arith);
            assert(amount * pre + amount * bps == amount * now) by (nonlinear_arith)
                requires
                    now == pre + bps,
            ;
            assert(amount * now <= amount * 10000) by (nonlinear_arith)
                requires
                    now <= 10000,
                    0 <= amount,
            ;
            assert((total_paid + fee_amount) <= amount) by (nonlinear_arith)
                requires
                    (total_paid + fee_amount) * 10000 <= amount * 10000,
            ;
            crate::checks::lemma_sum_basis_points_prefix(fee_accounts@, i + 1);
        }
        total_paid = total_paid + fee_amount;
        payouts.push(fee_amount);
        proof {
            assert(payouts@.drop_last() =~= old_payouts);
        }
        i = i + 1;
    }
    (payouts, total_paid)
}

} // verus!
