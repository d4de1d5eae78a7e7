//! Machine lifecycle: construction, settings updates, the sale gates and the
//! final settlement check.
//!
//! The lifecycle only ever moves forward: setup, then a live sale, then an
//! ended sale. None of these operations touches the item table, so each one
//! states explicitly that it keeps any well-formed table well formed.

use vstd::prelude::*;

use crate::checks::{sum_basis_points, validate_settings_args};
use crate::errors::JellybeanError;
use crate::pubkey::Pubkey;
use crate::state::{
    JellybeanMachine, JellybeanState, SettingsArgs, MAX_FEE_ACCOUNTS, MAX_URI_LENGTH,
};

verus! {

/// Whether a settings argument passes validation.
pub open spec fn spec_settings_valid(args: SettingsArgs) -> bool {
    &&& args.uri@.len() <= MAX_URI_LENGTH - 4
    &&& args.fee_accounts@.len() <= MAX_FEE_ACCOUNTS
    &&& (args.fee_accounts@.len() == 0 || sum_basis_points(args.fee_accounts@) == 10000)
}

/// Builds a zero-state machine from validated settings; the caller becomes
/// both the authority and the initial mint authority. The machine is well
/// formed over any buffer of exactly its base size.
pub fn initialize(args: SettingsArgs, authority: Pubkey) -> (r: Result<
    JellybeanMachine,
    JellybeanError,
>)
    ensures
        r is Ok <==> spec_settings_valid(args),
        match r {
            Ok(machine) => {
                &&& machine == (JellybeanMachine {
                    version: JellybeanMachine::CURRENT_VERSION,
                    authority,
                    mint_authority: authority,
                    fee_accounts: args.fee_accounts,
                    print_fee_config: args.print_fee_config,
                    items_loaded: 0u16,
                    supply_loaded: 0u64,
                    supply_redeemed: 0u64,
                    supply_settled: 0u64,
                    state: JellybeanState::Setup,
                    uri: args.uri,
                })
                &&& forall|data: Seq<u8>|
                    data.len() == machine.spec_base_size() ==> machine.wf(data)
            },
            Err(e) => {
                &&& (e == JellybeanError::UriTooLong <==> args.uri@.len() > MAX_URI_LENGTH - 4)
                &&& (e == JellybeanError::TooManyFeeAccounts <==> args.uri@.len() <= MAX_URI_LENGTH
                    - 4 && args.fee_accounts@.len() > MAX_FEE_ACCOUNTS)
                &&& (e == JellybeanError::InvalidFeeAccountBasisPoints <==> args.uri@.len()
                    <= MAX_URI_LENGTH - 4 && args.fee_accounts@.len() <= MAX_FEE_ACCOUNTS
                    && args.fee_accounts@.len() > 0 && sum_basis_points(args.fee_accounts@)
                    != 10000)
            },
        },
{
    match validate_settings_args(&args) {
        Ok(()) => (),
        Err(e) => {
            return Err(e);
        },
    }
    let machine = JellybeanMachine {
        version: JellybeanMachine::CURRENT_VERSION,
        authority,
        mint_authority: authority,
        fee_accounts: args.fee_accounts,
        print_fee_config: args.print_fee_config,
        items_loaded: 0,
        supply_loaded: 0,
        supply_redeemed: 0,
        supply_settled: 0,
        state: JellybeanState::Setup,
        uri: args.uri,
    };
    proof {
        assert forall|data: Seq<u8>| data.len() == machine.spec_base_size() implies machine.wf(
            data,
        ) by {
            assert(machine.items(data) =~= Seq::<crate::state::ItemView>::empty());
        }
    }
    Ok(machine)
}

/// Replaces the machine's settings before the sale has ended. The fee table
/// length is frozen at initialization, so the header region never has to be
/// resized and any well-formed item buffer stays well formed.
pub fn update_settings(machine: &mut JellybeanMachine, args: SettingsArgs) -> (r: Result<
    (),
    JellybeanError,
>)
    ensures
        final(machine).spec_base_size() == old(machine).spec_base_size(),
        forall|data: Seq<u8>| old(machine).wf(data) ==> final(machine).wf(data),
        r is Ok <==> (old(machine).state != JellybeanState::SaleEnded && args.fee_accounts@.len()
            == old(machine).fee_accounts@.len() && spec_settings_valid(args)),
        match r {
            Ok(()) => *final(machine) == (JellybeanMachine {
                fee_accounts: args.fee_accounts,
                print_fee_config: args.print_fee_config,
                uri: args.uri,
                ..*old(machine)
            }),
            Err(e) => {
                &&& *final(machine) == *old(machine)
                &&& (e == JellybeanError::InvalidState <==> old(machine).state
                    == JellybeanState::SaleEnded)
                &&& (e == JellybeanError::InvalidFeeAccountsLength <==> old(machine).state
                    != JellybeanState::SaleEnded && args.fee_accounts@.len() != old(
                    machine,
                ).fee_accounts@.len())
            },
        },
{
    if machine.state == JellybeanState::SaleEnded {
        return Err(JellybeanError::InvalidState);
    }
    if args.fee_accounts.len() != machine.fee_accounts.len() {
        return Err(JellybeanError::InvalidFeeAccountsLength);
    }
    match validate_settings_args(&args) {
        Ok(()) => (),
        Err(e) => {
            return Err(e);
        },
    }
    let ghost machine0 = *machine;
    machine.fee_accounts = args.fee_accounts;
    machine.print_fee_config = args.print_fee_config;
    machine.uri = args.uri;
    proof {
        assert forall|data: Seq<u8>| machine0.wf(data) implies machine.wf(data) by {
            assert(machine.items(data) =~= machine0.items(data));
        }
    }
    Ok(())
}

/// Opens the sale: legal only from setup, with at least one loaded item, and
/// only for the authority or the mint authority.
pub fn start_sale(machine: &mut JellybeanMachine, caller: &Pubkey) -> (r: Result<
    (),
    JellybeanError,
>)
    ensures
        final(machine).spec_base_size() == old(machine).spec_base_size(),
        forall|data: Seq<u8>| old(machine).wf(data) ==> final(machine).wf(data),
        ({
            let authorized = caller@ == old(machine).authority@ || caller@ == old(
                machine,
            ).mint_authority@;
            &&& (r is Ok <==> authorized && old(machine).state == JellybeanState::Setup && old(
                machine,
            ).items_loaded > 0)
            &&& match r {
                Ok(()) => *final(machine) == (JellybeanMachine {
                    state: JellybeanState::SaleLive,
                    ..*old(machine)
                }),
                Err(e) => {
                    &&& *final(machine) == *old(machine)
                    &&& (e == JellybeanError::InvalidAuthority <==> !authorized)
                    &&& (e == JellybeanError::InvalidState <==> authorized && old(machine).state
                        != JellybeanState::Setup)
                    &&& (e == JellybeanError::JellybeanMachineEmpty <==> authorized && old(
                        machine,
                    ).state == JellybeanState::Setup && old(machine).items_loaded == 0)
                },
            }
        }),
{
    if !(caller == &machine.authority || caller == &machine.mint_authority) {
        return Err(JellybeanError::InvalidAuthority);
    }
    if machine.state != JellybeanState::Setup {
        return Err(JellybeanError::InvalidState);
    }
    if machine.items_loaded == 0 {
        return Err(JellybeanError::JellybeanMachineEmpty);
    }
    let ghost machine0 = *machine;
    machine.state = JellybeanState::SaleLive;
    proof {
        assert forall|data: Seq<u8>| machine0.wf(data) implies machine.wf(data) by {
            assert(machine.items(data) =~= machine0.items(data));
        }
    }
    Ok(())
}

/// Ends the sale by hand: authority only, and never twice.
pub fn end_sale(machine: &mut JellybeanMachine, caller: &Pubkey) -> (r: Result<(), JellybeanError>)
    ensures
        final(machine).spec_base_size() == old(machine).spec_base_size(),
        forall|data: Seq<u8>| old(machine).wf(data) ==> final(machine).wf(data),
        r is Ok <==> (caller@ == old(machine).authority@ && old(machine).state
            != JellybeanState::SaleEnded),
        match r {
            Ok(()) => *final(machine) == (JellybeanMachine {
                state: JellybeanState::SaleEnded,
                ..*old(machine)
            }),
            Err(e) => {
                &&& *final(machine) == *old(machine)
                &&& (e == JellybeanError::InvalidAuthority <==> caller@ != old(machine).authority@)
                &&& (e == JellybeanError::InvalidState <==> caller@ == old(machine).authority@
                    && old(machine).state == JellybeanState::SaleEnded)
            },
        },
{
    if !(caller == &machine.authority) {
        return Err(JellybeanError::InvalidAuthority);
    }
    if machine.state == JellybeanState::SaleEnded {
        return Err(JellybeanError::InvalidState);
    }
    let ghost machine0 = *machine;
    machine.state = JellybeanState::SaleEnded;
    proof {
        assert forall|data: Seq<u8>| machine0.wf(data) implies machine.wf(data) by {
            assert(machine.items(data) =~= machine0.items(data));
        }
    }
    Ok(())
}

/// Hands the mint authority to a new identity: authority only.
pub fn set_mint_authority(
    machine: &mut JellybeanMachine,
    caller: &Pubkey,
    new_mint_authority: Pubkey,
) -> (r: Result<(), JellybeanError>)
    ensures
        final(machine).spec_base_size() == old(machine).spec_base_size(),
        forall|data: Seq<u8>| old(machine).wf(data) ==> final(machine).wf(data),
        r is Ok <==> caller@ == old(machine).authority@,
        match r {
            Ok(()) => *final(machine) == (JellybeanMachine {
                mint_authority: new_mint_authority,
                ..*old(machine)
            }),
            Err(e) => {
                &&& *final(machine) == *old(machine)
                &&& e == JellybeanError::InvalidAuthority
            },
        },
{
    if !(caller == &machine.authority) {
        return Err(JellybeanError::InvalidAuthority);
    }
    let ghost machine0 = *machine;
    machine.mint_authority = new_mint_authority;
    proof {
        assert forall|data: Seq<u8>| machine0.wf(data) implies machine.wf(data) by {
            assert(machine.items(data) =~= machine0.items(data));
        }
    }
    Ok(())
}

/// Whether the machine's storage may be reclaimed: every item must have been
/// removed, and every redeemed unit settled.
pub fn check_can_withdraw(machine: &JellybeanMachine) -> (r: Result<(), JellybeanError>)
    ensures
        r is Ok <==> (machine.items_loaded == 0 && machine.supply_settled
            == machine.supply_redeemed),
        match r {
            Ok(()) => true,
            Err(e) => {
                &&& (e == JellybeanError::ItemsStillLoaded <==> machine.items_loaded > 0)
                &&& (e == JellybeanError::NotAllSettled <==> machine.items_loaded == 0
                    && machine.supply_settled != machine.supply_redeemed)
            },
        },
{
    if machine.items_loaded > 0 {
        return Err(JellybeanError::ItemsStillLoaded);
    }
    if machine.supply_settled != machine.supply_redeemed {
        return Err(JellybeanError::NotAllSettled);
    }
    Ok(())
}

} // verus!
