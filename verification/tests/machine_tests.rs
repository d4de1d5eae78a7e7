use jellybean::checks::{validate_fee_accounts, validate_settings_args, validate_uri_length};
use jellybean::errors::JellybeanError;
use jellybean::header::encode_header;
use jellybean::items::{add_item, loaded_item_for_master_edition, loaded_item_for_unique_asset};
use jellybean::lifecycle::{
    check_can_withdraw, end_sale, initialize, set_mint_authority, start_sale, update_settings,
};
use jellybean::math::{fee_payouts, get_bps_of};
use jellybean::pubkey::Pubkey;
use jellybean::state::{
    FeeAccount, JellybeanMachine, JellybeanState, LoadedItem, SettingsArgs, MAX_ITEMS,
};

fn key(b: u8) -> Pubkey {
    Pubkey::new([b; 32])
}

fn fee(addr: u8, basis_points: u16) -> FeeAccount {
    FeeAccount {
        address: key(addr),
        basis_points,
    }
}

fn plain_settings() -> SettingsArgs {
    SettingsArgs {
        uri: b"ipfs://machine".to_vec(),
        fee_accounts: Vec::new(),
        print_fee_config: None,
    }
}

fn fresh_machine() -> (JellybeanMachine, Vec<u8>) {
    let machine = initialize(plain_settings(), key(10)).unwrap();
    let data = encode_header(&machine);
    (machine, data)
}

fn unit_item(mint: u8) -> LoadedItem {
    loaded_item_for_unique_asset(key(mint))
}

#[test]
fn fee_table_summing_to_one_whole_is_accepted() {
    let accepted = vec![fee(1, 2000), fee(2, 3000), fee(3, 5000)];
    assert!(validate_fee_accounts(&accepted).is_ok());
    let rejected = vec![fee(1, 2000), fee(2, 3000), fee(3, 4000)];
    assert_eq!(
        validate_fee_accounts(&rejected),
        Err(JellybeanError::InvalidFeeAccountBasisPoints)
    );
}

#[test]
fn fee_table_limits() {
    let empty: Vec<FeeAccount> = Vec::new();
    assert!(validate_fee_accounts(&empty).is_ok());
    let seven = vec![
        fee(1, 1), fee(2, 1), fee(3, 1), fee(4, 1), fee(5, 1), fee(6, 1), fee(7, 9994),
    ];
    assert_eq!(
        validate_fee_accounts(&seven),
        Err(JellybeanError::TooManyFeeAccounts)
    );
    // Entries whose running total overflows cannot sum to one whole either.
    let overflowing = vec![fee(1, 60000), fee(2, 60000)];
    assert_eq!(
        validate_fee_accounts(&overflowing),
        Err(JellybeanError::InvalidFeeAccountBasisPoints)
    );
}

#[test]
fn uri_length_is_bounded() {
    assert!(validate_uri_length(&vec![b'a'; 192]).is_ok());
    assert_eq!(
        validate_uri_length(&vec![b'a'; 193]),
        Err(JellybeanError::UriTooLong)
    );
    let args = SettingsArgs {
        uri: vec![b'a'; 193],
        fee_accounts: Vec::new(),
        print_fee_config: None,
    };
    assert_eq!(validate_settings_args(&args), Err(JellybeanError::UriTooLong));
}

#[test]
fn initialize_sets_zero_state() {
    let args = SettingsArgs {
        uri: b"ipfs://machine".to_vec(),
        fee_accounts: vec![fee(1, 2000), fee(2, 8000)],
        print_fee_config: None,
    };
    let machine = initialize(args, key(10)).unwrap();
    assert_eq!(machine.version, JellybeanMachine::CURRENT_VERSION);
    assert_eq!(machine.authority, key(10));
    assert_eq!(machine.mint_authority, key(10));
    assert_eq!(machine.items_loaded, 0);
    assert_eq!(machine.supply_loaded, 0);
    assert_eq!(machine.supply_redeemed, 0);
    assert_eq!(machine.supply_settled, 0);
    assert_eq!(machine.state, JellybeanState::Setup);
}

#[test]
fn initialize_rejects_bad_fee_table() {
    let args = SettingsArgs {
        uri: Vec::new(),
        fee_accounts: vec![fee(1, 2000), fee(2, 3000), fee(3, 4000)],
        print_fee_config: None,
    };
    assert_eq!(
        initialize(args, key(10)).unwrap_err(),
        JellybeanError::InvalidFeeAccountBasisPoints
    );
}

#[test]
fn add_item_grows_table_and_counters() {
    let (mut machine, mut data) = fresh_machine();
    let base = machine.get_base_size();
    add_item(&mut machine, &mut data, unit_item(1)).unwrap();
    let edition = loaded_item_for_master_edition(key(2), 0, Some(10)).unwrap();
    add_item(&mut machine, &mut data, edition).unwrap();
    assert_eq!(machine.items_loaded, 2);
    assert_eq!(machine.supply_loaded, 11);
    assert_eq!(data.len(), machine.get_size(2));
    let first = machine.get_loaded_item_at_index(&data, 0).unwrap();
    assert_eq!(first.mint, key(1));
    assert_eq!(first.supply_loaded, 1);
    let second = machine.get_loaded_item_at_index(&data, 1).unwrap();
    assert_eq!(second.mint, key(2));
    assert_eq!(second.supply_loaded, 10);
    assert_eq!(
        machine.get_loaded_item_at_index(&data, 2).unwrap_err(),
        JellybeanError::IndexGreaterThanLength
    );
    assert_eq!(base + 2 * 52, data.len());
}

#[test]
fn add_item_beyond_capacity_fails_and_changes_nothing() {
    let (mut machine, mut data) = fresh_machine();
    for i in 0..MAX_ITEMS {
        add_item(&mut machine, &mut data, unit_item((i % 200) as u8)).unwrap();
    }
    assert_eq!(machine.items_loaded, MAX_ITEMS);
    let supply_before = machine.supply_loaded;
    let len_before = data.len();
    assert_eq!(
        add_item(&mut machine, &mut data, unit_item(9)),
        Err(JellybeanError::TooManyItems)
    );
    assert_eq!(machine.items_loaded, MAX_ITEMS);
    assert_eq!(machine.supply_loaded, supply_before);
    assert_eq!(data.len(), len_before);
}

#[test]
fn add_item_is_setup_only() {
    let (mut machine, mut data) = fresh_machine();
    add_item(&mut machine, &mut data, unit_item(1)).unwrap();
    start_sale(&mut machine, &key(10)).unwrap();
    assert_eq!(
        add_item(&mut machine, &mut data, unit_item(2)),
        Err(JellybeanError::InvalidState)
    );
}

#[test]
fn master_edition_item_checks() {
    assert_eq!(
        loaded_item_for_master_edition(key(1), 1, Some(10)).unwrap_err(),
        JellybeanError::MasterEditionNotEmpty
    );
    assert_eq!(
        loaded_item_for_master_edition(key(1), 0, None).unwrap_err(),
        JellybeanError::InvalidMasterEditionSupply
    );
}

#[test]
fn start_sale_gates() {
    let (mut machine, mut data) = fresh_machine();
    assert_eq!(
        start_sale(&mut machine, &key(99)),
        Err(JellybeanError::InvalidAuthority)
    );
    assert_eq!(
        start_sale(&mut machine, &key(10)),
        Err(JellybeanError::JellybeanMachineEmpty)
    );
    add_item(&mut machine, &mut data, unit_item(1)).unwrap();
    start_sale(&mut machine, &key(10)).unwrap();
    assert_eq!(machine.state, JellybeanState::SaleLive);
    assert_eq!(
        start_sale(&mut machine, &key(10)),
        Err(JellybeanError::InvalidState)
    );
}

#[test]
fn end_sale_is_authority_only_and_final() {
    let (mut machine, mut data) = fresh_machine();
    add_item(&mut machine, &mut data, unit_item(1)).unwrap();
    assert_eq!(
        end_sale(&mut machine, &key(99)),
        Err(JellybeanError::InvalidAuthority)
    );
    end_sale(&mut machine, &key(10)).unwrap();
    assert_eq!(machine.state, JellybeanState::SaleEnded);
    assert_eq!(
        end_sale(&mut machine, &key(10)),
        Err(JellybeanError::InvalidState)
    );
}

#[test]
fn update_settings_keeps_fee_table_length() {
    let args = SettingsArgs {
        uri: b"ipfs://one".to_vec(),
        fee_accounts: vec![fee(1, 10000)],
        print_fee_config: None,
    };
    let mut machine = initialize(args, key(10)).unwrap();
    let grown = SettingsArgs {
        uri: b"ipfs://two".to_vec(),
        fee_accounts: vec![fee(1, 5000), fee(2, 5000)],
        print_fee_config: None,
    };
    assert_eq!(
        update_settings(&mut machine, grown),
        Err(JellybeanError::InvalidFeeAccountsLength)
    );
    let same_len = SettingsArgs {
        uri: b"ipfs://two".to_vec(),
        fee_accounts: vec![fee(3, 10000)],
        print_fee_config: None,
    };
    update_settings(&mut machine, same_len).unwrap();
    assert_eq!(machine.uri, b"ipfs://two".to_vec());
    assert_eq!(machine.fee_accounts[0].address, key(3));
    machine.state = JellybeanState::SaleEnded;
    assert_eq!(
        update_settings(&mut machine, plain_settings_with_one_fee()),
        Err(JellybeanError::InvalidState)
    );
}

fn plain_settings_with_one_fee() -> SettingsArgs {
    SettingsArgs {
        uri: Vec::new(),
        fee_accounts: vec![fee(1, 10000)],
        print_fee_config: None,
    }
}

#[test]
fn set_mint_authority_is_authority_gated() {
    let (mut machine, _) = fresh_machine();
    assert_eq!(
        set_mint_authority(&mut machine, &key(99), key(42)),
        Err(JellybeanError::InvalidAuthority)
    );
    set_mint_authority(&mut machine, &key(10), key(42)).unwrap();
    assert_eq!(machine.mint_authority, key(42));
}

#[test]
fn withdraw_needs_empty_settled_machine() {
    let (mut machine, mut data) = fresh_machine();
    add_item(&mut machine, &mut data, unit_item(1)).unwrap();
    assert_eq!(
        check_can_withdraw(&machine),
        Err(JellybeanError::ItemsStillLoaded)
    );
    let mut empty = initialize(plain_settings(), key(10)).unwrap();
    empty.supply_redeemed = 3;
    empty.supply_settled = 2;
    assert_eq!(
        check_can_withdraw(&empty),
        Err(JellybeanError::NotAllSettled)
    );
    empty.supply_settled = 3;
    assert!(check_can_withdraw(&empty).is_ok());
}

#[test]
fn bps_arithmetic_is_exact() {
    assert_eq!(get_bps_of(0, 5000), Ok(0));
    assert_eq!(get_bps_of(10000, 0), Ok(0));
    assert_eq!(get_bps_of(10000, 2500), Ok(2500));
    assert_eq!(get_bps_of(999, 3333), Ok(332));
    assert_eq!(get_bps_of(u64::MAX, 10000), Ok(u64::MAX));
}

#[test]
fn fee_payouts_split_the_amount() {
    let table = vec![fee(1, 2000), fee(2, 3000), fee(3, 5000)];
    let (payouts, total) = fee_payouts(&table, 1000);
    assert_eq!(payouts, vec![200, 300, 500]);
    assert_eq!(total, 1000);
    let (payouts2, total2) = fee_payouts(&table, 7);
    assert_eq!(payouts2, vec![1, 2, 3]);
    assert_eq!(total2, 6);
}
