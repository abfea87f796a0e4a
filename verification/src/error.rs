use vstd::prelude::*;

verus! {

/// Every way a configuration request can be rejected. Each failure is
/// terminal at this layer: the operation aborts with the error and no field
/// of the record is touched, and the host surfaces the error to the caller.
#[derive(Clone, Copy, Debug, PartialEq, Eq, Structural)]
pub enum ErrorCode {
    /// An add request names a wallet already in the tracking list.
    WalletAlreadyExists,
    /// A remove request names a wallet absent from the tracking list.
    WalletNotFound,
    /// The tracking list would exceed its capacity of ten wallets.
    TooManyWallets,
    /// The requested update interval is below the one-hour floor.
    InvalidUpdateInterval,
    /// The caller is not the stored authority.
    Unauthorized,
    /// The time gate has not elapsed since the last accepted update.
    UpdateNotDue,
    /// A revenue figure is not a positive amount.
    InvalidRevenueAmount,
}

} // verus!
