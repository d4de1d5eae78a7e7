use jellybean::codec::{
    decode_loaded_item, decode_prize, encode_loaded_item, encode_prize, read_item_at,
    write_item_at,
};
use jellybean::errors::JellybeanError;
use jellybean::header::{decode_header, encode_header};
use jellybean::lifecycle::initialize;
use jellybean::pubkey::Pubkey;
use jellybean::queue::{decode_unclaimed_prizes, encode_unclaimed_prizes};
use jellybean::state::{
    FeeAccount, JellybeanState, LoadedItem, PrintFeeConfig, Prize, SettingsArgs, UnclaimedPrizes,
    LOADED_ITEM_SIZE, PRIZE_SIZE,
};

fn key(b: u8) -> Pubkey {
    Pubkey::new([b; 32])
}

#[test]
fn loaded_item_round_trip() {
    let item = LoadedItem {
        mint: key(7),
        supply_loaded: 12,
        supply_redeemed: 5,
        supply_claimed: 3,
        escrow_amount: 987654321,
    };
    let bytes = encode_loaded_item(&item);
    assert_eq!(bytes.len(), LOADED_ITEM_SIZE);
    let back = decode_loaded_item(&bytes, 0).unwrap();
    assert_eq!(back.mint, item.mint);
    assert_eq!(back.supply_loaded, 12);
    assert_eq!(back.supply_redeemed, 5);
    assert_eq!(back.supply_claimed, 3);
    assert_eq!(back.escrow_amount, 987654321);
}

#[test]
fn loaded_item_layout_is_little_endian() {
    let item = LoadedItem {
        mint: key(0xAB),
        supply_loaded: 0x01020304,
        supply_redeemed: 0,
        supply_claimed: 0,
        escrow_amount: 1,
    };
    let bytes = encode_loaded_item(&item);
    assert_eq!(bytes[0], 0xAB);
    assert_eq!(bytes[31], 0xAB);
    assert_eq!(&bytes[32..36], &[0x04, 0x03, 0x02, 0x01]);
    assert_eq!(&bytes[36..40], &[0, 0, 0, 0]);
    assert_eq!(&bytes[44..52], &[1, 0, 0, 0, 0, 0, 0, 0]);
}

#[test]
fn decode_short_item_slice_is_malformed() {
    let bytes = vec![0u8; LOADED_ITEM_SIZE - 1];
    assert_eq!(
        decode_loaded_item(&bytes, 0).unwrap_err(),
        JellybeanError::MalformedRecord
    );
    let full = vec![0u8; LOADED_ITEM_SIZE];
    assert_eq!(
        decode_loaded_item(&full, 1).unwrap_err(),
        JellybeanError::MalformedRecord
    );
    assert!(decode_loaded_item(&full, 0).is_ok());
}

#[test]
fn item_field_overwrite_touches_only_its_field() {
    let item = LoadedItem {
        mint: key(9),
        supply_loaded: 4,
        supply_redeemed: 1,
        supply_claimed: 0,
        escrow_amount: 55,
    };
    let mut bytes = encode_loaded_item(&item);
    let changed = LoadedItem {
        supply_redeemed: 2,
        ..item
    };
    write_item_at(&mut bytes, 0, &changed);
    let back = read_item_at(&bytes, 0);
    assert_eq!(back.supply_redeemed, 2);
    assert_eq!(back.supply_loaded, 4);
    assert_eq!(back.escrow_amount, 55);
    assert_eq!(back.mint, key(9));
}

#[test]
fn prize_round_trip() {
    let prize = Prize {
        item_index: 3,
        edition_number: 0x0A0B0C0D,
    };
    let bytes = encode_prize(&prize);
    assert_eq!(bytes.len(), PRIZE_SIZE);
    assert_eq!(bytes[0], 3);
    assert_eq!(&bytes[1..5], &[0x0D, 0x0C, 0x0B, 0x0A]);
    assert_eq!(decode_prize(&bytes, 0), Ok(prize));
    let short = vec![0u8; PRIZE_SIZE - 1];
    assert_eq!(decode_prize(&short, 0), Err(JellybeanError::MalformedRecord));
}

#[test]
fn header_round_trip() {
    let args = SettingsArgs {
        uri: b"https://example.invalid/machine.json".to_vec(),
        fee_accounts: vec![
            FeeAccount {
                address: key(1),
                basis_points: 4000,
            },
            FeeAccount {
                address: key(2),
                basis_points: 6000,
            },
        ],
        print_fee_config: Some(PrintFeeConfig {
            address: key(3),
            amount: 777,
        }),
    };
    let mut machine = initialize(args, key(10)).unwrap();
    machine.items_loaded = 2;
    machine.supply_loaded = 4;
    machine.supply_redeemed = 1;
    machine.supply_settled = 1;
    machine.state = JellybeanState::SaleLive;
    let bytes = encode_header(&machine);
    assert_eq!(bytes.len(), machine.get_base_size());
    let back = decode_header(&bytes).unwrap();
    assert_eq!(back.version, machine.version);
    assert_eq!(back.authority, machine.authority);
    assert_eq!(back.mint_authority, machine.mint_authority);
    assert_eq!(back.fee_accounts.len(), 2);
    assert_eq!(back.fee_accounts[0].address, key(1));
    assert_eq!(back.fee_accounts[0].basis_points, 4000);
    assert_eq!(back.fee_accounts[1].basis_points, 6000);
    let cfg = back.print_fee_config.unwrap();
    assert_eq!(cfg.address, key(3));
    assert_eq!(cfg.amount, 777);
    assert_eq!(back.items_loaded, 2);
    assert_eq!(back.supply_loaded, 4);
    assert_eq!(back.supply_redeemed, 1);
    assert_eq!(back.supply_settled, 1);
    assert_eq!(back.state, JellybeanState::SaleLive);
    assert_eq!(back.uri, machine.uri);
}

#[test]
fn header_decode_rejects_garbage() {
    assert_eq!(
        decode_header(&vec![0u8; 10]).unwrap_err(),
        JellybeanError::MalformedRecord
    );
    // A nonzero reserved tag is not a header.
    let machine = initialize(
        SettingsArgs {
            uri: Vec::new(),
            fee_accounts: Vec::new(),
            print_fee_config: None,
        },
        key(10),
    )
    .unwrap();
    let mut bytes = encode_header(&machine);
    bytes[0] = 1;
    assert_eq!(decode_header(&bytes).unwrap_err(), JellybeanError::MalformedRecord);
    bytes[0] = 0;
    assert!(decode_header(&bytes).is_ok());
    // An out-of-range state byte is not a header.
    let f = 77;
    bytes[f + 67] = 3;
    assert_eq!(decode_header(&bytes).unwrap_err(), JellybeanError::MalformedRecord);
}

#[test]
fn queue_round_trip() {
    let q = UnclaimedPrizes {
        version: 0,
        jellybean_machine: key(20),
        buyer: key(21),
        prizes: vec![
            Prize {
                item_index: 0,
                edition_number: 1,
            },
            Prize {
                item_index: 2,
                edition_number: 9,
            },
        ],
    };
    let bytes = encode_unclaimed_prizes(&q);
    assert_eq!(bytes.len(), UnclaimedPrizes::space(2));
    let back = decode_unclaimed_prizes(&bytes).unwrap();
    assert_eq!(back.version, 0);
    assert_eq!(back.jellybean_machine, key(20));
    assert_eq!(back.buyer, key(21));
    assert_eq!(back.prizes.len(), 2);
    assert_eq!(back.prizes[0].item_index, 0);
    assert_eq!(back.prizes[0].edition_number, 1);
    assert_eq!(back.prizes[1].item_index, 2);
    assert_eq!(back.prizes[1].edition_number, 9);
    assert_eq!(
        decode_unclaimed_prizes(&vec![0u8; 20]).unwrap_err(),
        JellybeanError::MalformedRecord
    );
}
