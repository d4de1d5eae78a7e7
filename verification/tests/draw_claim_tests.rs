use jellybean::claim::process_claim_item;
use jellybean::draw::process_draw;
use jellybean::errors::JellybeanError;
use jellybean::header::encode_header;
use jellybean::items::{add_item, remove_multiple_items_span};
use jellybean::lifecycle::{initialize, start_sale};
use jellybean::pubkey::Pubkey;
use jellybean::state::{
    JellybeanMachine, JellybeanState, LoadedItem, PrintFeeConfig, SettingsArgs, UnclaimedPrizes,
};

fn key(b: u8) -> Pubkey {
    Pubkey::new([b; 32])
}

fn item(mint: u8, supply: u32, escrow: u64) -> LoadedItem {
    LoadedItem {
        mint: key(mint),
        supply_loaded: supply,
        supply_redeemed: 0,
        supply_claimed: 0,
        escrow_amount: escrow,
    }
}

fn machine_with_items(items: &[LoadedItem]) -> (JellybeanMachine, Vec<u8>) {
    let args = SettingsArgs {
        uri: b"ipfs://machine".to_vec(),
        fee_accounts: Vec::new(),
        print_fee_config: None,
    };
    let mut machine = initialize(args, key(10)).unwrap();
    let mut data = encode_header(&machine);
    for it in items {
        add_item(&mut machine, &mut data, *it).unwrap();
    }
    (machine, data)
}

fn empty_queue(machine_key: u8, buyer: u8) -> UnclaimedPrizes {
    UnclaimedPrizes {
        version: UnclaimedPrizes::CURRENT_VERSION,
        jellybean_machine: key(machine_key),
        buyer: key(buyer),
        prizes: Vec::new(),
    }
}

#[test]
fn draw_requires_live_sale() {
    let (mut machine, mut data) = machine_with_items(&[item(1, 1, 0)]);
    assert_eq!(
        process_draw(&mut machine, &mut data, 0).unwrap_err(),
        JellybeanError::InvalidState
    );
}

#[test]
fn draw_scenario_two_items_exhausts_in_order() {
    // Two items with supplies {3, 1}. Seeds landing in [0, 3) must keep
    // selecting item 0 until it runs dry; the fourth draw must take item 1
    // and end the sale exactly then.
    let (mut machine, mut data) = machine_with_items(&[item(1, 3, 0), item(2, 1, 0)]);
    start_sale(&mut machine, &key(10)).unwrap();

    let first = process_draw(&mut machine, &mut data, 0).unwrap();
    assert_eq!(first.prize.item_index, 0);
    assert_eq!(first.prize.edition_number, 1);
    assert_eq!(machine.state, JellybeanState::SaleLive);

    let second = process_draw(&mut machine, &mut data, 1).unwrap();
    assert_eq!(second.prize.item_index, 0);
    assert_eq!(second.prize.edition_number, 2);
    assert_eq!(machine.state, JellybeanState::SaleLive);

    let third = process_draw(&mut machine, &mut data, 2).unwrap();
    assert_eq!(third.prize.item_index, 0);
    assert_eq!(third.prize.edition_number, 3);
    assert_eq!(machine.state, JellybeanState::SaleLive);

    let fourth = process_draw(&mut machine, &mut data, 12345).unwrap();
    assert_eq!(fourth.prize.item_index, 1);
    assert_eq!(fourth.prize.edition_number, 1);
    assert_eq!(machine.state, JellybeanState::SaleEnded);
    assert_eq!(machine.supply_redeemed, 4);

    assert_eq!(
        process_draw(&mut machine, &mut data, 0).unwrap_err(),
        JellybeanError::InvalidState
    );
}

#[test]
fn draw_skips_exhausted_items_by_weight() {
    // Supplies {2, 2}: a seed of 2 against 4 remaining units lands on the
    // second item even though the first still has supply.
    let (mut machine, mut data) = machine_with_items(&[item(1, 2, 0), item(2, 2, 0)]);
    start_sale(&mut machine, &key(10)).unwrap();
    let out = process_draw(&mut machine, &mut data, 2).unwrap();
    assert_eq!(out.prize.item_index, 1);
    assert_eq!(out.prize.edition_number, 1);
}

#[test]
fn draw_is_deterministic_for_a_fixed_seed() {
    let build = || {
        let (mut machine, mut data) = machine_with_items(&[item(1, 5, 0), item(2, 7, 0)]);
        start_sale(&mut machine, &key(10)).unwrap();
        let out = process_draw(&mut machine, &mut data, 987654321).unwrap();
        (out.prize.item_index, out.prize.edition_number)
    };
    assert_eq!(build(), build());
}

#[test]
fn draw_reports_escrow_and_print_fee() {
    let args = SettingsArgs {
        uri: Vec::new(),
        fee_accounts: Vec::new(),
        print_fee_config: Some(PrintFeeConfig {
            address: key(5),
            amount: 250,
        }),
    };
    let mut machine = initialize(args, key(10)).unwrap();
    let mut data = encode_header(&machine);
    add_item(&mut machine, &mut data, item(1, 4, 900)).unwrap();
    start_sale(&mut machine, &key(10)).unwrap();
    let out = process_draw(&mut machine, &mut data, 0).unwrap();
    assert_eq!(out.escrow_amount, 900);
    let cfg = out.print_fee.unwrap();
    assert_eq!(cfg.address, key(5));
    assert_eq!(cfg.amount, 250);

    // A single-unit item owes no print fee even when one is configured.
    let mut machine2 = initialize(
        SettingsArgs {
            uri: Vec::new(),
            fee_accounts: Vec::new(),
            print_fee_config: Some(PrintFeeConfig {
                address: key(5),
                amount: 250,
            }),
        },
        key(10),
    )
    .unwrap();
    let mut data2 = encode_header(&machine2);
    add_item(&mut machine2, &mut data2, item(1, 1, 0)).unwrap();
    start_sale(&mut machine2, &key(10)).unwrap();
    let out2 = process_draw(&mut machine2, &mut data2, 0).unwrap();
    assert_eq!(out2.escrow_amount, 0);
    assert!(out2.print_fee.is_none());
}

#[test]
fn claim_materializes_and_settles() {
    let (mut machine, mut data) = machine_with_items(&[item(1, 3, 40), item(2, 1, 0)]);
    start_sale(&mut machine, &key(10)).unwrap();
    let mut queue = empty_queue(50, 60);
    let drawn = process_draw(&mut machine, &mut data, 0).unwrap();
    queue.prizes.push(drawn.prize);

    let out = process_claim_item(&mut machine, &mut data, &mut queue, 0, &key(1)).unwrap();
    assert_eq!(out.prize, drawn.prize);
    assert_eq!(out.item.mint, key(1));
    // A multi-edition item refunds its escrow to the claiming payer.
    assert_eq!(out.escrow_refund, 40);
    assert!(out.queue_now_empty);
    assert_eq!(machine.supply_settled, 1);
    let updated = machine.get_loaded_item_at_index(&data, 0).unwrap();
    assert_eq!(updated.supply_claimed, 1);
    assert_eq!(updated.supply_redeemed, 1);
}

#[test]
fn claim_checks_asset_identity() {
    let (mut machine, mut data) = machine_with_items(&[item(1, 2, 0)]);
    start_sale(&mut machine, &key(10)).unwrap();
    let mut queue = empty_queue(50, 60);
    let drawn = process_draw(&mut machine, &mut data, 0).unwrap();
    queue.prizes.push(drawn.prize);
    assert_eq!(
        process_claim_item(&mut machine, &mut data, &mut queue, 0, &key(9)).unwrap_err(),
        JellybeanError::PublicKeyMismatch
    );
    // The failed claim left the queue untouched.
    assert_eq!(queue.prizes.len(), 1);
    assert_eq!(machine.supply_settled, 0);
}

#[test]
fn claiming_the_same_index_twice_fails() {
    let (mut machine, mut data) = machine_with_items(&[item(1, 3, 0)]);
    start_sale(&mut machine, &key(10)).unwrap();
    let mut queue = empty_queue(50, 60);
    let drawn = process_draw(&mut machine, &mut data, 0).unwrap();
    queue.prizes.push(drawn.prize);

    assert!(process_claim_item(&mut machine, &mut data, &mut queue, 0, &key(1)).is_ok());
    assert_eq!(
        process_claim_item(&mut machine, &mut data, &mut queue, 0, &key(1)).unwrap_err(),
        JellybeanError::InvalidItemIndex
    );
}

#[test]
fn claim_removes_the_first_match_only() {
    let (mut machine, mut data) = machine_with_items(&[item(1, 3, 0)]);
    start_sale(&mut machine, &key(10)).unwrap();
    let mut queue = empty_queue(50, 60);
    for seed in 0..3u64 {
        let drawn = process_draw(&mut machine, &mut data, seed).unwrap();
        queue.prizes.push(drawn.prize);
    }
    assert_eq!(queue.prizes.len(), 3);
    let out = process_claim_item(&mut machine, &mut data, &mut queue, 0, &key(1)).unwrap();
    // The first pending prize for the index goes first: edition 1.
    assert_eq!(out.prize.edition_number, 1);
    assert_eq!(queue.prizes.len(), 2);
    assert_eq!(queue.prizes[0].edition_number, 2);
    assert_eq!(queue.prizes[1].edition_number, 3);
    assert!(!out.queue_now_empty);
}

#[test]
fn queue_claim_item_matches_by_index() {
    let mut queue = empty_queue(50, 60);
    queue.prizes.push(jellybean::state::Prize {
        item_index: 2,
        edition_number: 7,
    });
    assert_eq!(
        queue.claim_item(1).unwrap_err(),
        JellybeanError::InvalidItemIndex
    );
    let prize = queue.claim_item(2).unwrap();
    assert_eq!(prize.edition_number, 7);
    assert!(queue.prizes.is_empty());
}

#[test]
fn removal_is_legal_exactly_when_fully_claimed() {
    let (mut machine, mut data) = machine_with_items(&[item(1, 2, 0), item(2, 1, 0)]);
    start_sale(&mut machine, &key(10)).unwrap();
    let mut queue = empty_queue(50, 60);
    let drawn = process_draw(&mut machine, &mut data, 0).unwrap();
    assert_eq!(drawn.prize.item_index, 0);
    queue.prizes.push(drawn.prize);
    machine.state = JellybeanState::SaleEnded;

    // Item 0 has one redeemed but unclaimed unit: removal must fail whole.
    let supply_before = machine.supply_loaded;
    assert_eq!(
        remove_multiple_items_span(&mut machine, &mut data, 0, 0).unwrap_err(),
        JellybeanError::ItemNotFullyClaimed
    );
    assert_eq!(machine.items_loaded, 2);
    assert_eq!(machine.supply_loaded, supply_before);

    // After the claim reconciles the counters, removal succeeds.
    process_claim_item(&mut machine, &mut data, &mut queue, 0, &key(1)).unwrap();
    remove_multiple_items_span(&mut machine, &mut data, 0, 0).unwrap();
    assert_eq!(machine.items_loaded, 1);
    assert_eq!(machine.supply_loaded, 1);
    // The tail item shifted down into slot 0.
    let survivor = machine.get_loaded_item_at_index(&data, 0).unwrap();
    assert_eq!(survivor.mint, key(2));
}

#[test]
fn removal_span_checks() {
    let (mut machine, mut data) = machine_with_items(&[item(1, 1, 0), item(2, 1, 0)]);
    assert_eq!(
        remove_multiple_items_span(&mut machine, &mut data, 1, 0).unwrap_err(),
        JellybeanError::InvalidInputLength
    );
    assert_eq!(
        remove_multiple_items_span(&mut machine, &mut data, 0, 2).unwrap_err(),
        JellybeanError::IndexGreaterThanLength
    );
    remove_multiple_items_span(&mut machine, &mut data, 0, 1).unwrap();
    assert_eq!(machine.items_loaded, 0);
    assert_eq!(machine.supply_loaded, 0);
    assert_eq!(data.len(), machine.get_base_size());
    machine.state = JellybeanState::SaleLive;
    assert_eq!(
        remove_multiple_items_span(&mut machine, &mut data, 0, 0).unwrap_err(),
        JellybeanError::InvalidState
    );
}

#[test]
fn machine_is_empty_once_supply_runs_out() {
    let (mut machine, mut data) = machine_with_items(&[item(1, 1, 0)]);
    start_sale(&mut machine, &key(10)).unwrap();
    process_draw(&mut machine, &mut data, 7).unwrap();
    // The sale ended with the last unit; drawing again reports the state.
    assert_eq!(machine.state, JellybeanState::SaleEnded);
    machine.state = JellybeanState::SaleLive;
    assert_eq!(
        process_draw(&mut machine, &mut data, 7).unwrap_err(),
        JellybeanError::JellybeanMachineEmpty
    );
}

#[test]
fn stale_prize_cannot_overdraw_the_claim_counter() {
    let (mut machine, mut data) = machine_with_items(&[item(1, 1, 0)]);
    start_sale(&mut machine, &key(10)).unwrap();
    let mut queue = empty_queue(50, 60);
    let drawn = process_draw(&mut machine, &mut data, 0).unwrap();
    queue.prizes.push(drawn.prize);
    process_claim_item(&mut machine, &mut data, &mut queue, 0, &key(1)).unwrap();

    // The item is now fully claimed; a forged prize for it cannot push
    // `supply_claimed` past `supply_redeemed`.
    queue.prizes.push(jellybean::state::Prize {
        item_index: 0,
        edition_number: 1,
    });
    assert_eq!(
        process_claim_item(&mut machine, &mut data, &mut queue, 0, &key(1)).unwrap_err(),
        JellybeanError::NumericalOverflowError
    );
    let item0 = machine.get_loaded_item_at_index(&data, 0).unwrap();
    assert_eq!(item0.supply_claimed, 1);
    assert_eq!(machine.supply_settled, 1);
}
