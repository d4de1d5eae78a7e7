//! Packed codec for the machine header record.
//!
//! The header occupies the front of the account buffer, before the item
//! table: an 8-byte reserved tag, the identities and counters, the
//! variable-length fee table, the optional print fee, the length-prefixed
//! uri inside its fixed region, and reserved padding. `header_matches` is
//! the single meaning of "these bytes hold this header": encode establishes
//! it and decode recovers exactly the header the bytes hold.

use vstd::bytes::*;
use vstd::prelude::*;
use vstd::slice::slice_subrange;

use crate::codec::write_bytes;
use crate::errors::JellybeanError;
use crate::pubkey::Pubkey;
use crate::state::{
    FeeAccount, JellybeanMachine, JellybeanState, PrintFeeConfig, FEE_ACCOUNT_SIZE,
    MAX_FEE_ACCOUNTS, MAX_URI_LENGTH,
};

verus! {

/// Byte offset of the fee table length prefix inside the header.
pub const FEE_TABLE_LEN_OFFSET: usize = 73;

/// Byte offset of the first fee table entry inside the header.
pub const FEE_TABLE_OFFSET: usize = 77;

/// The single byte a lifecycle state is stored as.
pub open spec fn spec_state_byte(state: JellybeanState) -> u8 {
    match state {
        JellybeanState::Setup => 0u8,
        JellybeanState::SaleLive => 1u8,
        JellybeanState::SaleEnded => 2u8,
    }
}

/// The bytes `data` hold exactly the header `m` at their front.
pub open spec fn header_matches(data: Seq<u8>, m: JellybeanMachine) -> bool {
    let n = m.fee_accounts@.len() as int;
    let f = FEE_TABLE_OFFSET + FEE_ACCOUNT_SIZE * n;
    &&& data.len() >= m.spec_base_size()
    &&& forall|k: int| 0 <= k < 8 ==> data[k] == 0
    &&& data[8] == m.version
    &&& data.subrange(9, 41) == m.authority@
    &&& data.subrange(41, 73) == m.mint_authority@
    &&& spec_u32_from_le_bytes(data.subrange(73, 77)) == n
    &&& forall|j: int|
        0 <= j < n ==> data.subrange(77 + 34 * j, 77 + 34 * j + 32) == (
        #[trigger] m.fee_accounts@[j]).address@ && spec_u16_from_le_bytes(
            data.subrange(77 + 34 * j + 32, 77 + 34 * j + 34),
        ) == m.fee_accounts@[j].basis_points
    &&& match m.print_fee_config {
        Option::None => data[f] == 0,
        Option::Some(cfg) => {
            &&& data[f] == 1
            &&& data.subrange(f + 1, f + 33) == cfg.address@
            &&& spec_u64_from_le_bytes(data.subrange(f + 33, f + 41)) == cfg.amount
        },
    }
    &&& spec_u16_from_le_bytes(data.subrange(f + 41, f + 43)) == m.items_loaded
    &&& spec_u64_from_le_bytes(data.subrange(f + 43, f + 51)) == m.supply_loaded
    &&& spec_u64_from_le_bytes(data.subrange(f + 51, f + 59)) == m.supply_redeemed
    &&& spec_u64_from_le_bytes(data.subrange(f + 59, f + 67)) == m.supply_settled
    &&& data[f + 67] == spec_state_byte(m.state)
    &&& spec_u32_from_le_bytes(data.subrange(f + 68, f + 72)) == m.uri@.len()
    &&& data.subrange(f + 72, f + 72 + m.uri@.len()) == m.uri@
}

/// The front of `data` parses as a header: the lengths, the print fee tag,
/// the state byte and the uri length are all in range.
pub open spec fn header_bytes_valid(data: Seq<u8>) -> bool {
    &&& data.len() >= FEE_TABLE_OFFSET + 4
    &&& forall|k: int| 0 <= k < 8 ==> data[k] == 0
    &&& ({
        let n = spec_u32_from_le_bytes(data.subrange(73, 77)) as int;
        let f = FEE_TABLE_OFFSET + FEE_ACCOUNT_SIZE * n;
        &&& n <= MAX_FEE_ACCOUNTS
        &&& data.len() >= f + 584
        &&& (data[f] == 0 || data[f] == 1)
        &&& data[f + 67] <= 2
        &&& spec_u32_from_le_bytes(data.subrange(f + 68, f + 72)) + 4 <= MAX_URI_LENGTH
    })
}

/// A byte image holds at most one header: two headers matching the same
/// bytes agree on every observable field. Together with the encode and
/// decode contracts this is the codec's round trip: decoding an encoded
/// header recovers it field for field.
pub proof fn lemma_header_bytes_functional(
    data: Seq<u8>,
    m1: JellybeanMachine,
    m2: JellybeanMachine,
)
    requires
        header_matches(data, m1),
        header_matches(data, m2),
    ensures
        m1.version == m2.version,
        m1.authority@ == m2.authority@,
        m1.mint_authority@ == m2.mint_authority@,
        m1.fee_accounts@.len() == m2.fee_accounts@.len(),
        forall|j: int|
            0 <= j < m1.fee_accounts@.len() ==> (#[trigger] m1.fee_accounts@[j]).address@
                == m2.fee_accounts@[j].address@ && m1.fee_accounts@[j].basis_points
                == m2.fee_accounts@[j].basis_points,
        m1.print_fee_config is Some <==> m2.print_fee_config is Some,
        m1.print_fee_config is Some ==> m1.print_fee_config->Some_0.address@
            == m2.print_fee_config->Some_0.address@ && m1.print_fee_config->Some_0.amount
            == m2.print_fee_config->Some_0.amount,
        m1.items_loaded == m2.items_loaded,
        m1.supply_loaded == m2.supply_loaded,
        m1.supply_redeemed == m2.supply_redeemed,
        m1.supply_settled == m2.supply_settled,
        m1.state == m2.state,
        m1.uri@ == m2.uri@,
{
    let n = m1.fee_accounts@.len() as int;
    assert(m2.fee_accounts@.len() as int == n);
    let f = FEE_TABLE_OFFSET + FEE_ACCOUNT_SIZE * n;
    assert(data[f + 67] == spec_state_byte(m1.state) && data[f + 67] == spec_state_byte(m2.state));
    match (m1.state, m2.state) {
        (JellybeanState::Setup, JellybeanState::Setup) => {},
        (JellybeanState::SaleLive, JellybeanState::SaleLive) => {},
        (JellybeanState::SaleEnded, JellybeanState::SaleEnded) => {},
        _ => {
            assert(false);
        },
    }
}

/// Encodes the header into the first `spec_base_size` bytes of a fresh
/// buffer; everything after the fields it writes is left zero, so the item
/// table can grow right behind it.
#[verifier::rlimit(60)]
pub fn encode_header(machine: &JellybeanMachine) -> (r: Vec<u8>)
    requires
        machine.fee_accounts@.len() <= MAX_FEE_ACCOUNTS,
        machine.uri@.len() + 4 <= MAX_URI_LENGTH,
    ensures
        r@.len() == machine.spec_base_size(),
        header_matches(r@, *machine),
{
    let n = machine.fee_accounts.len();
    let base = JellybeanMachine::get_base_size_with_fee_accounts(n);
    let f = FEE_TABLE_OFFSET + FEE_ACCOUNT_SIZE * n;
    let mut out: Vec<u8> = crate::codec::zero_vec(base);
    out[8] = machine.version;
    write_bytes(&mut out, 9, machine.authority.bytes.as_slice());
    write_bytes(&mut out, 41, machine.mint_authority.bytes.as_slice());
    let n_bytes = u32_to_le_bytes(n as u32);
    write_bytes(&mut out, FEE_TABLE_LEN_OFFSET, n_bytes.as_slice());
    let ghost after_prefix = out@;
    let mut j: usize = 0;
    while j < n
        invariant
            n == machine.fee_accounts@.len(),
            n <= MAX_FEE_ACCOUNTS,
            j <= n,
            out@.len() == after_prefix.len(),
            out@.len() == 661 + n * FEE_ACCOUNT_SIZE,
            forall|k: int|
                0 <= k < out@.len() && !(77 <= k < 77 + 34 * j) ==> out@[k] == after_prefix[k],
            forall|i: int|
                0 <= i < j ==> out@.subrange(77 + 34 * i, 77 + 34 * i + 32) == (
                #[trigger] machine.fee_accounts@[i]).address@ && spec_u16_from_le_bytes(
                    out@.subrange(77 + 34 * i + 32, 77 + 34 * i + 34),
                ) == machine.fee_accounts@[i].basis_points,
        decreases n - j,
    {
        let ghost before = out@;
        let entry = machine.fee_accounts[j];
        write_bytes(&mut out, 77 + 34 * j, entry.address.bytes.as_slice());
        let bps_bytes = u16_to_le_bytes(entry.basis_points);
        write_bytes(&mut out, 77 + 34 * j + 32, bps_bytes.as_slice());
        proof {
            lemma_auto_spec_u16_to_from_le_bytes();
            assert(out@.subrange(77 + 34 * j as int, 77 + 34 * j as int + 32)
                =~= entry.address.bytes@);
            assert(out@.subrange(77 + 34 * j as int + 32, 77 + 34 * j as int + 34)
                =~= spec_u16_to_le_bytes(entry.basis_points));
            assert forall|i: int| 0 <= i < j implies out@.subrange(77 + 34 * i, 77 + 34 * i + 32)
                == (#[trigger] machine.fee_accounts@[i]).address@ && spec_u16_from_le_bytes(
                out@.subrange(77 + 34 * i + 32, 77 + 34 * i + 34),
            ) == machine.fee_accounts@[i].basis_points by {
                assert(out@.subrange(77 + 34 * i, 77 + 34 * i + 32) =~= before.subrange(
                    77 + 34 * i,
                    77 + 34 * i + 32,
                ));
                assert(out@.subrange(77 + 34 * i + 32, 77 + 34 * i + 34) =~= before.subrange(
                    77 + 34 * i + 32,
                    77 + 34 * i + 34,
                ));
            }
        }
        j = j + 1;
    }
    proof {
        assert(out@[f as int] == after_prefix[f as int]);
        assert(after_prefix[f as int] == 0);
    }
    if let Some(cfg) = &machine.print_fee_config {
        out[f] = 1;
        write_bytes(&mut out, f + 1, cfg.address.bytes.as_slice());
        let amount_bytes = u64_to_le_bytes(cfg.amount);
        write_bytes(&mut out, f + 33, amount_bytes.as_slice());
    }
    let items_bytes = u16_to_le_bytes(machine.items_loaded);
    write_bytes(&mut out, f + 41, items_bytes.as_slice());
    let loaded_bytes = u64_to_le_bytes(machine.supply_loaded);
    write_bytes(&mut out, f + 43, loaded_bytes.as_slice());
    let redeemed_bytes = u64_to_le_bytes(machine.supply_redeemed);
    write_bytes(&mut out, f + 51, redeemed_bytes.as_slice());
    let settled_bytes = u64_to_le_bytes(machine.supply_settled);
    write_bytes(&mut out, f + 59, settled_bytes.as_slice());
    let state_byte: u8 = match machine.state {
        JellybeanState::Setup => 0,
        JellybeanState::SaleLive => 1,
        JellybeanState::SaleEnded => 2,
    };
    out[f + 67] = state_byte;
    let uri_len_bytes = u32_to_le_bytes(machine.uri.len() as u32);
    write_bytes(&mut out, f + 68, uri_len_bytes.as_slice());
    write_bytes(&mut out, f + 72, machine.uri.as_slice());
    proof {
        lemma_auto_spec_u16_to_from_le_bytes();
        lemma_auto_spec_u32_to_from_le_bytes();
        lemma_auto_spec_u64_to_from_le_bytes();
        let d = out@;
        let fi = f as int;
        let n_ = n as int;
        assert forall|k: int| 0 <= k < 8 implies d[k] == 0 by {
            assert(after_prefix[k] == 0);
            assert(d[k] == after_prefix[k]);
        }
        assert(d.subrange(9, 41) =~= machine.authority.bytes@);
        assert(d.subrange(41, 73) =~= machine.mint_authority.bytes@);
        assert(d.subrange(73, 77) =~= spec_u32_to_le_bytes(n as u32));
        assert forall|i: int| 0 <= i < n_ implies d.subrange(77 + 34 * i, 77 + 34 * i + 32) == (
        #[trigger] machine.fee_accounts@[i]).address@ && spec_u16_from_le_bytes(
            d.subrange(77 + 34 * i + 32, 77 + 34 * i + 34),
        ) == machine.fee_accounts@[i].basis_points by {
            assert(d.subrange(77 + 34 * i, 77 + 34 * i + 32) =~= machine.fee_accounts@[i].address@);
            assert(d.subrange(77 + 34 * i + 32, 77 + 34 * i + 34) =~= spec_u16_to_le_bytes(
                machine.fee_accounts@[i].basis_points,
            ));
        }
        match machine.print_fee_config {
            Option::None => {
                assert(d[fi] == 0);
            },
            Option::Some(cfg) => {
                assert(d[fi] == 1);
                assert(d.subrange(fi + 1, fi + 33) =~= cfg.address.bytes@);
                assert(d.subrange(fi + 33, fi + 41) =~= spec_u64_to_le_bytes(cfg.amount));
            },
        }
        assert(d.subrange(fi + 41, fi + 43) =~= spec_u16_to_le_bytes(machine.items_loaded));
        assert(d.subrange(fi + 43, fi + 51) =~= spec_u64_to_le_bytes(machine.supply_loaded));
        assert(d.subrange(fi + 51, fi + 59) =~= spec_u64_to_le_bytes(machine.supply_redeemed));
        assert(d.subrange(fi + 59, fi + 67) =~= spec_u64_to_le_bytes(machine.supply_settled));
        assert(d.subrange(fi + 68, fi + 72) =~= spec_u32_to_le_bytes(machine.uri.len() as u32));
        assert(d.subrange(fi + 72, fi + 72 + machine.uri@.len()) =~= machine.uri@);
    }
    out
}

/// Decodes the header at the front of `data`; fails with `MalformedRecord`
/// exactly when the bytes do not parse as a header.
pub fn decode_header(data: &Vec<u8>) -> (r: Result<JellybeanMachine, JellybeanError>)
    ensures
        r is Ok <==> header_bytes_valid(data@),
        match r {
            Ok(h) => {
                &&& header_matches(data@, h)
                &&& h.fee_accounts@.len() <= MAX_FEE_ACCOUNTS
                &&& h.uri@.len() + 4 <= MAX_URI_LENGTH
            },
            Err(e) => e == JellybeanError::MalformedRecord,
        },
{
    if data.len() < FEE_TABLE_OFFSET + 4 {
        return Err(JellybeanError::MalformedRecord);
    }
    let mut tag_i: usize = 0;
    while tag_i < 8
        invariant
            data@.len() >= FEE_TABLE_OFFSET + 4,
            tag_i <= 8,
            forall|k: int| 0 <= k < tag_i ==> data@[k] == 0,
        decreases 8 - tag_i,
    {
        if data[tag_i] != 0 {
            return Err(JellybeanError::MalformedRecord);
        }
        tag_i = tag_i + 1;
    }
    let n32 = u32_from_le_bytes(
        slice_subrange(data.as_slice(), FEE_TABLE_LEN_OFFSET, FEE_TABLE_OFFSET),
    );
    if n32 > MAX_FEE_ACCOUNTS as u32 {
        return Err(JellybeanError::MalformedRecord);
    }
    let n = n32 as usize;
    let f = FEE_TABLE_OFFSET + FEE_ACCOUNT_SIZE * n;
    if data.len() < f + 584 {
        return Err(JellybeanError::MalformedRecord);
    }
    let mut fee_accounts: Vec<FeeAccount> = Vec::new();
    let mut j: usize = 0;
    while j < n
        invariant
            n <= MAX_FEE_ACCOUNTS,
            data@.len() >= 77 + 34 * n + 584,
            j <= n,
            fee_accounts@.len() == j,
            forall|i: int|
                0 <= i < j ==> (#[trigger] fee_accounts@[i]).address@ == data@.subrange(
                    77 + 34 * i,
                    77 + 34 * i + 32,
                ) && fee_accounts@[i].basis_points == spec_u16_from_le_bytes(
                    data@.subrange(77 + 34 * i + 32, 77 + 34 * i + 34),
                ),
        decreases n - j,
    {
        let mut addr = [0u8; 32];
        let mut t: usize = 0;
        while t < 32
            invariant
                data@.len() >= 77 + 34 * n + 584,
                n <= MAX_FEE_ACCOUNTS,
                j < n,
                t <= 32,
                forall|k: int| 0 <= k < t ==> addr@[k] == data@[77 + 34 * j + k],
            decreases 32 - t,
        {
            addr[t] = data[77 + 34 * j + t];
            t = t + 1;
        }
        let bps = u16_from_le_bytes(
            slice_subrange(data.as_slice(), 77 + 34 * j + 32, 77 + 34 * j + 34),
        );
        fee_accounts.push(FeeAccount { address: Pubkey::new(addr), basis_points: bps });
        proof {
            assert(addr@ =~= data@.subrange(77 + 34 * j as int, 77 + 34 * j as int + 32));
        }
        j = j + 1;
    }
    let print_tag = data[f];
    let print_fee_config = if print_tag == 0 {
        Option::<PrintFeeConfig>::None
    } else if print_tag == 1 {
        let mut addr = [0u8; 32];
        let mut t: usize = 0;
        while t < 32
            invariant
                data@.len() >= f + 584,
                f == 77 + 34 * n,
                n <= MAX_FEE_ACCOUNTS,
                t <= 32,
                forall|k: int| 0 <= k < t ==> addr@[k] == data@[f + 1 + k],
            decreases 32 - t,
        {
            addr[t] = data[f + 1 + t];
            t = t + 1;
        }
        let amount = u64_from_le_bytes(slice_subrange(data.as_slice(), f + 33, f + 41));
        proof {
            assert(addr@ =~= data@.subrange(f as int + 1, f as int + 33));
        }
        Some(PrintFeeConfig { address: Pubkey::new(addr), amount })
    } else {
        return Err(JellybeanError::MalformedRecord);
    };
    let version = data[8];
    let mut authority_bytes = [0u8; 32];
    let mut t: usize = 0;
    while t < 32
        invariant
            data@.len() >= 77 + 34 * n + 584,
            t <= 32,
            forall|k: int| 0 <= k < t ==> authority_bytes@[k] == data@[9 + k],
        decreases 32 - t,
    {
        authority_bytes[t] = data[9 + t];
        t = t + 1;
    }
    let mut mint_authority_bytes = [0u8; 32];
    let mut t2: usize = 0;
    while t2 < 32
        invariant
            data@.len() >= 77 + 34 * n + 584,
            t2 <= 32,
            forall|k: int| 0 <= k < t2 ==> mint_authority_bytes@[k] == data@[41 + k],
        decreases 32 - t2,
    {
        mint_authority_bytes[t2] = data[41 + t2];
        t2 = t2 + 1;
    }
    let items_loaded = u16_from_le_bytes(slice_subrange(data.as_slice(), f + 41, f + 43));
    let supply_loaded = u64_from_le_bytes(slice_subrange(data.as_slice(), f + 43, f + 51));
    let supply_redeemed = u64_from_le_bytes(slice_subrange(data.as_slice(), f + 51, f + 59));
    let supply_settled = u64_from_le_bytes(slice_subrange(data.as_slice(), f + 59, f + 67));
    let state = if data[f + 67] == 0 {
        JellybeanState::Setup
    } else if data[f + 67] == 1 {
        JellybeanState::SaleLive
    } else if data[f + 67] == 2 {
        JellybeanState::SaleEnded
    } else {
        return Err(JellybeanError::MalformedRecord);
    };
    let uri_len32 = u32_from_le_bytes(slice_subrange(data.as_slice(), f + 68, f + 72));
    if uri_len32 > (MAX_URI_LENGTH - 4) as u32 {
        return Err(JellybeanError::MalformedRecord);
    }
    let uri_len = uri_len32 as usize;
    let uri = vstd::slice::slice_to_vec(slice_subrange(data.as_slice(), f + 72, f + 72 + uri_len));
    let machine = JellybeanMachine {
        version,
        authority: Pubkey::new(authority_bytes),
        mint_authority: Pubkey::new(mint_authority_bytes),
        fee_accounts,
        print_fee_config,
        items_loaded,
        supply_loaded,
        supply_redeemed,
        supply_settled,
        state,
        uri,
    };
    proof {
        assert(machine.authority@ =~= data@.subrange(9, 41));
        assert(machine.mint_authority@ =~= data@.subrange(41, 73));
        assert(machine.uri@ =~= data@.subrange(
            f as int + 72,
            f as int + 72 + machine.uri@.len(),
        ));
    }
    Ok(machine)
}

} // verus!
