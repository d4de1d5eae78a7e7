//! Validation of identities, settings and the fee table.

use vstd::prelude::*;

use crate::errors::JellybeanError;
use crate::pubkey::Pubkey;
use crate::state::{FeeAccount, SettingsArgs, MAX_FEE_ACCOUNTS, MAX_URI_LENGTH};

verus! {

/// Sum of the basis points over a fee table.
pub open spec fn sum_basis_points(fee_accounts: Seq<FeeAccount>) -> int
    decreases fee_accounts.len(),
{
    if fee_accounts.len() == 0 {
        0
    } else {
        sum_basis_points(fee_accounts.drop_last()) + fee_accounts.last().basis_points
    }
}

/// Basis points are unsigned, so every prefix sum stays within the total.
pub proof fn lemma_sum_basis_points_prefix(fee_accounts: Seq<FeeAccount>, i: int)
    requires
        0 <= i <= fee_accounts.len(),
    ensures
        sum_basis_points(fee_accounts.subrange(0, i)) <= sum_basis_points(fee_accounts),
        0 <= sum_basis_points(fee_accounts.subrange(0, i)),
    decreases fee_accounts.len() - i,
{
    lemma_sum_basis_points_nonneg(fee_accounts.subrange(0, i));
    if i == fee_accounts.len() {
        assert(fee_accounts.subrange(0, i) =~= fee_accounts);
    } else {
        assert(fee_accounts.subrange(0, i + 1).drop_last() =~= fee_accounts.subrange(0, i));
        lemma_sum_basis_points_prefix(fee_accounts, i + 1);
    }
}

/// A sum of unsigned shares is never negative.
pub proof fn lemma_sum_basis_points_nonneg(fee_accounts: Seq<FeeAccount>)
    ensures
        0 <= sum_basis_points(fee_accounts),
    decreases fee_accounts.len(),
{
    if fee_accounts.len() > 0 {
        lemma_sum_basis_points_nonneg(fee_accounts.drop_last());
    }
}

/// Two identities that have to coincide; fails with `PublicKeyMismatch` when
/// they do not. The message describes the mismatch to a human operator and
/// plays no part in the result.
pub fn assert_keys_equal(key1: Pubkey, key2: Pubkey, _error_message: &str) -> (r: Result<
    (),
    JellybeanError,
>)
    ensures
        r is Ok <==> key1@ == key2@,
        r is Err ==> r->Err_0 == JellybeanError::PublicKeyMismatch,
{
    if key1 != key2 {
        return Err(JellybeanError::PublicKeyMismatch);
    }
    Ok(())
}

/// The metadata uri must fit the fixed uri region next to its length prefix.
pub fn validate_uri_length(uri: &Vec<u8>) -> (r: Result<(), JellybeanError>)
    ensures
        r is Ok <==> uri@.len() <= MAX_URI_LENGTH - 4,
        r is Err ==> r->Err_0 == JellybeanError::UriTooLong,
{
    if uri.len() > MAX_URI_LENGTH - 4 {
        return Err(JellybeanError::UriTooLong);
    }
    Ok(())
}

/// The fee table must fit the capacity, and a nonempty table's basis points
/// must sum to exactly 10000 (one whole).
pub fn validate_fee_accounts(fee_accounts: &Vec<FeeAccount>) -> (r: Result<(), JellybeanError>)
    ensures
        r is Ok <==> (fee_accounts@.len() <= MAX_FEE_ACCOUNTS && (fee_accounts@.len() == 0
            || sum_basis_points(fee_accounts@) == 10000)),
        match r {
            Ok(()) => true,
            Err(e) => {
                &&& (e == JellybeanError::TooManyFeeAccounts <==> fee_accounts@.len()
                    > MAX_FEE_ACCOUNTS)
                &&& (e == JellybeanError::InvalidFeeAccountBasisPoints <==> fee_accounts@.len()
                    <= MAX_FEE_ACCOUNTS && fee_accounts@.len() > 0 && sum_basis_points(
                    fee_accounts@,
                ) != 10000)
            },
        },
{
    if fee_accounts.len() > MAX_FEE_ACCOUNTS {
        return Err(JellybeanError::TooManyFeeAccounts);
    }
    let n = fee_accounts.len();
    let mut total_basis_points: u16 = 0;
    let mut i: usize = 0;
    proof {
        assert(fee_accounts@.subrange(0, 0) =~= Seq::<FeeAccount>::empty());
    }
    while i < n
        invariant
            n == fee_accounts@.len(),
            n <= MAX_FEE_ACCOUNTS,
            i <= n,
            total_basis_points == sum_basis_points(fee_accounts@.subrange(0, i as int)),
        decreases n - i,
    {
        let bps = fee_accounts[i].basis_points;
        proof {
            assert(fee_accounts@.subrange(0, i + 1).drop_last() =~= fee_accounts@.subrange(
                0,
                i as int,
            ));
            lemma_sum_basis_points_prefix(fee_accounts@, i + 1);
            assert(fee_accounts@.subrange(0, i + 1).last() == fee_accounts@[i as int]);
        }
        if total_basis_points > u16::MAX - bps {
            // The running total would overflow, so the whole sum cannot be
            // 10000 either.
            return Err(JellybeanError::InvalidFeeAccountBasisPoints);
        }
        total_basis_points = total_basis_points + bps;
        i = i + 1;
    }
    proof {
        assert(fee_accounts@.subrange(0, n as int) =~= fee_accounts@);
    }
    if n > 0 && total_basis_points != 10000 {
        return Err(JellybeanError::InvalidFeeAccountBasisPoints);
    }
    Ok(())
}

/// Validates everything a settings argument carries: the uri length and the
/// fee table.
pub fn validate_settings_args(args: &SettingsArgs) -> (r: Result<(), JellybeanError>)
    ensures
        r is Ok <==> (args.uri@.len() <= MAX_URI_LENGTH - 4 && args.fee_accounts@.len()
            <= MAX_FEE_ACCOUNTS && (args.fee_accounts@.len() == 0 || sum_basis_points(
            args.fee_accounts@,
        ) == 10000)),
        match r {
            Ok(()) => true,
            Err(e) => {
                &&& (e == JellybeanError::UriTooLong <==> args.uri@.len() > MAX_URI_LENGTH - 4)
                &&& (e == JellybeanError::TooManyFeeAccounts <==> args.uri@.len() <= MAX_URI_LENGTH
                    - 4 && args.fee_accounts@.len() > MAX_FEE_ACCOUNTS)
                &&& (e == JellybeanError::InvalidFeeAccountBasisPoints <==> args.uri@.len()
                    <= MAX_URI_LENGTH - 4 && args.fee_accounts@.len() <= MAX_FEE_ACCOUNTS
                    && args.fee_accounts@.len() > 0 && sum_basis_points(args.fee_accounts@)
                    != 10000)
            },
        },
{
    match validate_uri_length(&args.uri) {
        Ok(()) => (),
        Err(e) => {
            return Err(e);
        },
    }
    match validate_fee_accounts(&args.fee_accounts) {
        Ok(()) => (),
        Err(e) => {
            return Err(e);
        },
    }
    Ok(())
}

} // verus!
