//! Machine state: the header, the loaded-item records, pending prizes and
//! the bookkeeping invariant that ties them together.
//!
//! The machine header is an ordinary struct; the loaded items live as packed
//! fixed-width records in a caller-owned byte buffer, starting right after
//! the space the encoded header occupies. `JellybeanMachine::wf` is the
//! single well-formedness predicate every operation preserves: the header's
//! `supply_loaded` equals the sum over the item records, every item keeps
//! `supply_claimed <= supply_redeemed <= supply_loaded`, and the buffer is
//! sized exactly for the records it holds.

use vstd::prelude::*;

use crate::pubkey::Pubkey;

verus! {

/// Maximum encoded length of the metadata uri region, length prefix included.
pub const MAX_URI_LENGTH: usize = 196;

/// Maximum number of entries in the fee table.
pub const MAX_FEE_ACCOUNTS: usize = 6;

/// Maximum number of loaded items; item indices must also fit in one byte.
pub const MAX_ITEMS: u16 = 255;

/// Packed width of one loaded-item record:
/// mint (32) + supply_loaded (4) + supply_redeemed (4) + supply_claimed (4)
/// + escrow_amount (8).
pub const LOADED_ITEM_SIZE: usize = 52;

/// Packed width of one pending-prize record: item_index (1) + edition_number (4).
pub const PRIZE_SIZE: usize = 5;

/// Packed width of one fee table entry: address (32) + basis_points (2).
pub const FEE_ACCOUNT_SIZE: usize = 34;

/// Packed size of the machine header without the fee table entries:
/// tag (8) + version (1) + authority (32) + mint_authority (32)
/// + fee table length (4) + print fee config (41) + items_loaded (2)
/// + supply_loaded (8) + supply_redeemed (8) + supply_settled (8)
/// + state (1) + uri (196) + reserved padding (320).
pub const BASE_JELLYBEAN_MACHINE_SIZE: usize = 8 + 1 + 32 + 32 + 4 + 41 + 2 + 8 + 8 + 8 + 1
    + 196 + 320;

/// One recipient of draw proceeds, paid a fixed share in basis points.
#[derive(Clone, Copy, Debug)]
pub struct FeeAccount {
    /// Where this share of the fees goes.
    pub address: Pubkey,
    /// Share of the proceeds in basis points.
    pub basis_points: u16,
}

/// A flat fee owed to a fixed recipient whenever an edition is printed.
#[derive(Clone, Copy, Debug)]
pub struct PrintFeeConfig {
    /// Recipient of the print fee.
    pub address: Pubkey,
    /// Flat fee amount per print.
    pub amount: u64,
}

/// Settings shared by machine construction and settings updates.
#[derive(Clone, Debug)]
pub struct SettingsArgs {
    /// UTF-8 bytes of the off-chain metadata uri.
    pub uri: Vec<u8>,
    /// Fee table; basis points must sum to 10000 unless the table is empty.
    pub fee_accounts: Vec<FeeAccount>,
    /// Optional flat fee charged when an edition is printed.
    pub print_fee_config: Option<PrintFeeConfig>,
}

/// Lifecycle of a machine. Transitions only ever move forward.
#[derive(Clone, Copy, Debug, PartialEq, Eq, Structural)]
pub enum JellybeanState {
    /// Setup: items may be added or removed, no drawing yet.
    Setup,
    /// The sale is live: drawing is enabled, the item table is frozen.
    SaleLive,
    /// The sale has ended: drawing is disabled, claims and settlement go on.
    SaleEnded,
}

/// One distinct issuable asset source with one or more redeemable units.
#[derive(Clone, Copy, Debug)]
pub struct LoadedItem {
    /// Mint account of the asset.
    pub mint: Pubkey,
    /// Total units loaded: 1 for a unique asset, N for a multi-edition source.
    pub supply_loaded: u32,
    /// Units drawn so far.
    pub supply_redeemed: u32,
    /// Drawn units that have been claimed.
    pub supply_claimed: u32,
    /// Native value held against this item, refunded at claim time for
    /// multi-edition prints.
    pub escrow_amount: u64,
}

/// Mathematical model of one loaded-item record.
#[verifier::ext_equal]
pub ghost struct ItemView {
    pub mint: Seq<u8>,
    pub supply_loaded: u32,
    pub supply_redeemed: u32,
    pub supply_claimed: u32,
    pub escrow_amount: u64,
}

impl View for LoadedItem {
    type V = ItemView;

    open spec fn view(&self) -> ItemView {
        ItemView {
            mint: self.mint@,
            supply_loaded: self.supply_loaded,
            supply_redeemed: self.supply_redeemed,
            supply_claimed: self.supply_claimed,
            escrow_amount: self.escrow_amount,
        }
    }
}

/// A drawn-but-not-yet-claimed unit, queued per buyer.
#[derive(Clone, Copy, Debug, PartialEq, Eq, Structural)]
pub struct Prize {
    /// Index of the drawn item in the machine's item table.
    pub item_index: u8,
    /// The item's `supply_redeemed` right after the draw that produced this
    /// prize; printable as an edition tag.
    pub edition_number: u32,
}

/// The counters an item must keep in order: claimed within redeemed within
/// loaded.
pub open spec fn item_wf(it: ItemView) -> bool {
    it.supply_claimed <= it.supply_redeemed <= it.supply_loaded
}

/// Sum of `supply_loaded` over a sequence of items.
pub open spec fn sum_loaded(items: Seq<ItemView>) -> int
    decreases items.len(),
{
    if items.len() == 0 {
        0
    } else {
        sum_loaded(items.drop_last()) + items.last().supply_loaded
    }
}

/// Sum of `supply_redeemed` over a sequence of items.
pub open spec fn sum_redeemed(items: Seq<ItemView>) -> int
    decreases items.len(),
{
    if items.len() == 0 {
        0
    } else {
        sum_redeemed(items.drop_last()) + items.last().supply_redeemed
    }
}

/// Sum of the remaining (loaded but not yet redeemed) units over a sequence
/// of items.
pub open spec fn sum_remaining(items: Seq<ItemView>) -> int
    decreases items.len(),
{
    if items.len() == 0 {
        0
    } else {
        sum_remaining(items.drop_last()) + (items.last().supply_loaded
            - items.last().supply_redeemed)
    }
}

/// Machine header plus its configuration. The loaded-item records live
/// separately, packed in the account byte buffer after the header region.
#[derive(Clone, Debug)]
pub struct JellybeanMachine {
    /// Version of the record layout.
    pub version: u8,
    /// Authority allowed to manage the machine.
    pub authority: Pubkey,
    /// Authority allowed to draw from the machine.
    pub mint_authority: Pubkey,
    /// Recipients of draw proceeds.
    pub fee_accounts: Vec<FeeAccount>,
    /// Optional flat fee charged when an edition is printed.
    pub print_fee_config: Option<PrintFeeConfig>,
    /// Number of distinct items loaded.
    pub items_loaded: u16,
    /// Sum over the items of each item's total supply.
    pub supply_loaded: u64,
    /// Number of draws performed.
    pub supply_redeemed: u64,
    /// Number of claims completed.
    pub supply_settled: u64,
    /// Lifecycle state of the machine.
    pub state: JellybeanState,
    /// UTF-8 bytes of the off-chain metadata uri.
    pub uri: Vec<u8>,
}

impl JellybeanMachine {
    /// Layout version written by this crate.
    pub const CURRENT_VERSION: u8 = 0;

    /// Size in bytes of the encoded header region, after which the item
    /// records start.
    pub open spec fn spec_base_size(&self) -> int {
        BASE_JELLYBEAN_MACHINE_SIZE + self.fee_accounts@.len() * FEE_ACCOUNT_SIZE
    }

    /// The item records of this machine, as decoded from the buffer.
    pub open spec fn items(&self, data: Seq<u8>) -> Seq<ItemView> {
        crate::codec::spec_items(data, self.spec_base_size(), self.items_loaded as int)
    }

    /// Well-formedness of the header together with its item buffer; every
    /// operation of this crate preserves it.
    pub open spec fn wf(&self, data: Seq<u8>) -> bool {
        &&& self.items_loaded <= MAX_ITEMS
        &&& self.fee_accounts@.len() <= MAX_FEE_ACCOUNTS
        &&& self.uri@.len() + 4 <= MAX_URI_LENGTH
        &&& data.len() == self.spec_base_size() + self.items_loaded * LOADED_ITEM_SIZE
        &&& forall|i: int| 0 <= i < self.items(data).len() ==> item_wf(#[trigger] self.items(
            data,
        )[i])
        &&& sum_loaded(self.items(data)) == self.supply_loaded
        &&& sum_redeemed(self.items(data)) <= self.supply_redeemed
        &&& self.supply_settled <= self.supply_redeemed
    }

    /// Size of the encoded header region given the fee table length.
    pub fn get_base_size_with_fee_accounts(fee_accounts_len: usize) -> (r: usize)
        requires
            fee_accounts_len <= MAX_FEE_ACCOUNTS,
        ensures
            r == BASE_JELLYBEAN_MACHINE_SIZE + fee_accounts_len * FEE_ACCOUNT_SIZE,
    {
        BASE_JELLYBEAN_MACHINE_SIZE + fee_accounts_len * FEE_ACCOUNT_SIZE
    }

    /// Size of this machine's encoded header region.
    pub fn get_base_size(&self) -> (r: usize)
        requires
            self.fee_accounts@.len() <= MAX_FEE_ACCOUNTS,
        ensures
            r == self.spec_base_size(),
    {
        Self::get_base_size_with_fee_accounts(self.fee_accounts.len())
    }

    /// Byte offset of the item record at `index` inside the account buffer.
    pub fn get_loaded_item_position(&self, index: usize) -> (r: usize)
        requires
            self.fee_accounts@.len() <= MAX_FEE_ACCOUNTS,
            index <= MAX_ITEMS,
        ensures
            r == self.spec_base_size() + index * LOADED_ITEM_SIZE,
    {
        self.get_base_size() + index * LOADED_ITEM_SIZE
    }

    /// Total account size for this machine holding `item_count` items.
    pub fn get_size(&self, item_count: u64) -> (r: usize)
        requires
            self.fee_accounts@.len() <= MAX_FEE_ACCOUNTS,
            item_count <= MAX_ITEMS,
        ensures
            r == self.spec_base_size() + item_count * LOADED_ITEM_SIZE,
    {
        Self::get_size_with_fee_accounts(self.fee_accounts.len(), item_count)
    }

    /// Total account size given the fee table length and an item count.
    pub fn get_size_with_fee_accounts(fee_accounts_len: usize, item_count: u64) -> (r: usize)
        requires
            fee_accounts_len <= MAX_FEE_ACCOUNTS,
            item_count <= MAX_ITEMS,
        ensures
            r == BASE_JELLYBEAN_MACHINE_SIZE + fee_accounts_len * FEE_ACCOUNT_SIZE + item_count
                * LOADED_ITEM_SIZE,
    {
        Self::get_base_size_with_fee_accounts(fee_accounts_len) + (LOADED_ITEM_SIZE) * (
        item_count as usize)
    }

    /// Structural edits that add items are only legal during setup.
    pub fn can_add_items(&self) -> (r: bool)
        ensures
            r == (self.state == JellybeanState::Setup),
    {
        self.state == JellybeanState::Setup
    }

    /// Items may be removed during setup or once the sale has ended.
    pub fn can_remove_items(&self) -> (r: bool)
        ensures
            r == (self.state == JellybeanState::Setup || self.state == JellybeanState::SaleEnded),
    {
        self.state == JellybeanState::Setup || self.state == JellybeanState::SaleEnded
    }

    /// The buffer is large enough for this header's item table.
    pub open spec fn sized(&self, data: Seq<u8>) -> bool {
        &&& self.items_loaded <= MAX_ITEMS
        &&& self.fee_accounts@.len() <= MAX_FEE_ACCOUNTS
        &&& data.len() >= self.spec_base_size() + self.items_loaded * LOADED_ITEM_SIZE
    }

    /// Decodes the item record at `index` out of the account buffer; fails
    /// with `IndexGreaterThanLength` when the index reaches past the table.
    pub fn get_loaded_item_at_index(&self, account_data: &Vec<u8>, index: usize) -> (r: Result<
        LoadedItem,
        crate::errors::JellybeanError,
    >)
        requires
            self.sized(account_data@),
        ensures
            match r {
                Ok(item) => index < self.items_loaded && item@ == self.items(
                    account_data@,
                )[index as int],
                Err(e) => e == crate::errors::JellybeanError::IndexGreaterThanLength && index
                    >= self.items_loaded,
            },
    {
        if index >= self.items_loaded as usize {
            return Err(crate::errors::JellybeanError::IndexGreaterThanLength);
        }
        let pos = self.get_loaded_item_position(index);
        proof {
            assert((index + 1) * LOADED_ITEM_SIZE <= self.items_loaded * LOADED_ITEM_SIZE) by (
            nonlinear_arith)
                requires
                    index + 1 <= self.items_loaded,
                    LOADED_ITEM_SIZE > 0,
            ;
            assert((index + 1) * LOADED_ITEM_SIZE == index * LOADED_ITEM_SIZE + LOADED_ITEM_SIZE)
                by (nonlinear_arith);
        }
        let item = crate::codec::read_item_at(account_data, pos);
        Ok(item)
    }
}

/// A buyer's pending prizes: every unit they drew that has not been claimed
/// yet, in draw order.
#[derive(Clone, Debug)]
pub struct UnclaimedPrizes {
    /// Version of the record layout.
    pub version: u8,
    /// Identity of the machine the prizes were drawn from.
    pub jellybean_machine: Pubkey,
    /// Identity of the buyer who drew them.
    pub buyer: Pubkey,
    /// Pending prizes in draw order.
    pub prizes: Vec<Prize>,
}

impl UnclaimedPrizes {
    /// Layout version written by this crate.
    pub const CURRENT_VERSION: u8 = 0;

    /// Packed size of the queue header:
    /// tag (8) + version (1) + machine (32) + buyer (32) + prize count (4).
    pub const BASE_SIZE: usize = 8 + 1 + 32 + 32 + 4;

    /// Account size needed for a queue holding `prize_count` prizes.
    pub fn space(prize_count: usize) -> (r: usize)
        requires
            prize_count <= usize::MAX / 8,
        ensures
            r == Self::BASE_SIZE + prize_count * PRIZE_SIZE,
    {
        Self::BASE_SIZE + prize_count * PRIZE_SIZE
    }
}

/// Splitting a table splits its `supply_loaded` sum.
pub proof fn lemma_sum_loaded_concat(a: Seq<ItemView>, b: Seq<ItemView>)
    ensures
        sum_loaded(a + b) == sum_loaded(a) + sum_loaded(b),
    decreases b.len(),
{
    if b.len() == 0 {
        assert(a + b =~= a);
    } else {
        assert((a + b).drop_last() =~= a + b.drop_last());
        lemma_sum_loaded_concat(a, b.drop_last());
    }
}

/// Splitting a table splits its `supply_redeemed` sum.
pub proof fn lemma_sum_redeemed_concat(a: Seq<ItemView>, b: Seq<ItemView>)
    ensures
        sum_redeemed(a + b) == sum_redeemed(a) + sum_redeemed(b),
    decreases b.len(),
{
    if b.len() == 0 {
        assert(a + b =~= a);
    } else {
        assert((a + b).drop_last() =~= a + b.drop_last());
        lemma_sum_redeemed_concat(a, b.drop_last());
    }
}

/// Replacing one record shifts the `supply_loaded` sum by that record's
/// difference.
pub proof fn lemma_sum_loaded_update(s: Seq<ItemView>, i: int, v: ItemView)
    requires
        0 <= i < s.len(),
    ensures
        sum_loaded(s.update(i, v)) == sum_loaded(s) - s[i].supply_loaded + v.supply_loaded,
    decreases s.len(),
{
    let t = s.update(i, v);
    if i == s.len() - 1 {
        assert(t.drop_last() =~= s.drop_last());
    } else {
        assert(t.drop_last() =~= s.drop_last().update(i, v));
        lemma_sum_loaded_update(s.drop_last(), i, v);
    }
}

/// Replacing one record shifts the `supply_redeemed` sum by that record's
/// difference.
pub proof fn lemma_sum_redeemed_update(s: Seq<ItemView>, i: int, v: ItemView)
    requires
        0 <= i < s.len(),
    ensures
        sum_redeemed(s.update(i, v)) == sum_redeemed(s) - s[i].supply_redeemed + v.supply_redeemed,
    decreases s.len(),
{
    let t = s.update(i, v);
    if i == s.len() - 1 {
        assert(t.drop_last() =~= s.drop_last());
    } else {
        assert(t.drop_last() =~= s.drop_last().update(i, v));
        lemma_sum_redeemed_update(s.drop_last(), i, v);
    }
}

/// The `supply_loaded` sum of a table lies between zero and the table length
/// times the largest single supply.
pub proof fn lemma_sum_loaded_bound(s: Seq<ItemView>)
    ensures
        0 <= sum_loaded(s) <= s.len() * (u32::MAX as int),
    decreases s.len(),
{
    if s.len() > 0 {
        lemma_sum_loaded_bound(s.drop_last());
        assert((s.len() - 1) * (u32::MAX as int) + (u32::MAX as int) == s.len() * (
        u32::MAX as int)) by (nonlinear_arith);
    }
}

/// The `supply_redeemed` sum of a table is never negative.
pub proof fn lemma_sum_redeemed_nonneg(s: Seq<ItemView>)
    ensures
        0 <= sum_redeemed(s),
    decreases s.len(),
{
    if s.len() > 0 {
        lemma_sum_redeemed_nonneg(s.drop_last());
    }
}

/// The remaining supply of a table is exactly loaded minus redeemed.
pub proof fn lemma_sum_remaining_parts(s: Seq<ItemView>)
    ensures
        sum_remaining(s) == sum_loaded(s) - sum_redeemed(s),
    decreases s.len(),
{
    if s.len() > 0 {
        lemma_sum_remaining_parts(s.drop_last());
    }
}

} // verus!
