//! Error codes shared by every operation of the machine.
//!
//! Every failure aborts the whole operation with no partial mutation
//! retained, and is surfaced verbatim to the caller as one of these codes.

use vstd::prelude::*;

verus! {

/// Stable, enumerable error codes for every way an operation can fail.
#[derive(Clone, Copy, Debug, PartialEq, Eq, Structural)]
pub enum JellybeanError {
    /// Two identities that had to match did not.
    PublicKeyMismatch,
    /// An account is owned by the wrong program.
    InvalidOwner,
    /// An account that had to be initialized is not.
    UninitializedAccount,
    /// An index reached past the end of a table or queue.
    IndexGreaterThanLength,
    /// A checked add or subtract on a counter overflowed.
    NumericalOverflowError,
    /// Every unit of supply has already been redeemed.
    JellybeanMachineEmpty,
    /// The machine is in the wrong lifecycle state for the operation.
    InvalidState,
    /// The caller is not the machine authority.
    InvalidAuthority,
    /// The caller is not the machine mint authority.
    InvalidMintAuthority,
    /// The pending-prize queue belongs to a different buyer.
    InvalidBuyer,
    /// The metadata uri exceeds the maximum encodable length.
    UriTooLong,
    /// Not every redeemed unit has been settled yet.
    NotAllSettled,
    /// The pending-prize queue refers to a different machine.
    InvalidJellybeanMachine,
    /// The supplied asset is not usable for this operation.
    InvalidAsset,
    /// A master edition must be empty when it is loaded.
    MasterEditionNotEmpty,
    /// A master edition must declare a maximum supply.
    InvalidMasterEditionSupply,
    /// A collection without a master edition cannot be loaded.
    MissingMasterEdition,
    /// A print target is required to claim an edition prize.
    MissingPrintAsset,
    /// A span or length argument is inconsistent.
    InvalidInputLength,
    /// No pending prize matches the requested item index.
    InvalidItemIndex,
    /// Fee account basis points must sum to exactly 10000.
    InvalidFeeAccountBasisPoints,
    /// An item may only be removed once fully claimed.
    ItemNotFullyClaimed,
    /// The machine still holds loaded items.
    ItemsStillLoaded,
    /// The fee table holds more entries than the maximum.
    TooManyFeeAccounts,
    /// The item table already holds the maximum number of items.
    TooManyItems,
    /// The fee table may not change its length after initialization.
    InvalidFeeAccountsLength,
    /// A record slice was too short to decode.
    MalformedRecord,
}

} // verus!
