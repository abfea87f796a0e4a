use vstd::prelude::*;

use crate::error::ErrorCode;
use crate::key::Pubkey;
use crate::wallets::dedup;
use crate::wallets::dedup_wallets;
use crate::wallets::find_wallet;
use crate::wallets::lemma_dedup_bounds_len;
use crate::wallets::lemma_dedup_no_duplicates;
use crate::wallets::wallet_list_contains;

verus! {

/// Capacity of the tracking list.
pub const MAX_WALLETS: usize = 10;

/// Floor on the update interval: one hour, in seconds.
pub const MIN_UPDATE_INTERVAL: u64 = 3600;

/// The single persisted configuration record of the protocol analytics.
///
/// The host runtime stores exactly one such record at a well-known address
/// and guarantees that it is created once and mutated atomically; every
/// mutation goes through the operations below, which re-establish `wf` on
/// each accepted write.
#[derive(Debug)]
pub struct ProtocolConfig {
    /// Identity of the account permitted to mutate this record. Set at
    /// creation and immutable thereafter.
    pub authority: Pubkey,
    /// Tracked wallet addresses, in insertion order with the first
    /// occurrence of each address kept.
    pub wallets: Vec<Pubkey>,
    /// Minimum number of seconds between accepted analytics refreshes.
    pub update_interval: u64,
    /// Timestamp, in seconds since the epoch, of the last accepted update.
    pub last_updated: i64,
}

impl ProtocolConfig {
    /// The record's invariant: the tracking list is bounded and free of
    /// duplicates, and the interval respects the one-hour floor.
    pub open spec fn wf(self) -> bool {
        &&& self.wallets@.len() <= MAX_WALLETS
        &&& self.wallets@.no_duplicates()
        &&& self.update_interval >= MIN_UPDATE_INTERVAL
    }

    /// Everything but the tracking list is as it was.
    pub open spec fn same_but_wallets(self, other: ProtocolConfig) -> bool {
        &&& self.authority == other.authority
        &&& self.update_interval == other.update_interval
        &&& self.last_updated == other.last_updated
    }

    /// Shared guard of every mutating request: only the stored authority
    /// may proceed, and anyone else is turned away before any other check.
    pub fn check_authority(&self, caller: Pubkey) -> (result: Result<(), ErrorCode>)
        ensures
            result is Ok <==> caller == self.authority,
            result is Err ==> result == Err::<(), ErrorCode>(ErrorCode::Unauthorized),
    {
        if caller == self.authority {
            Ok(())
        } else {
            Err(ErrorCode::Unauthorized)
        }
    }

    /// Time gate of refresh requests: a refresh at `now` is due only once
    /// at least `update_interval` seconds have passed since `last_updated`.
    pub fn check_update_due(&self, now: i64) -> (result: Result<(), ErrorCode>)
        ensures
            result is Ok <==> now - self.last_updated >= self.update_interval,
            result is Err ==> result == Err::<(), ErrorCode>(ErrorCode::UpdateNotDue),
    {
        let elapsed: i128 = now as i128 - self.last_updated as i128;
        if elapsed >= self.update_interval as i128 {
            Ok(())
        } else {
            Err(ErrorCode::UpdateNotDue)
        }
    }

    /// Starts tracking one more wallet. The request fails for anyone but
    /// the authority, then for an address already tracked, then for a full
    /// list; on success the address is appended and nothing else changes.
    pub fn add_wallet(&mut self, caller: Pubkey, wallet: Pubkey) -> (result: Result<(), ErrorCode>)
        requires
            old(self).wf(),
        ensures
            final(self).wf(),
            caller != old(self).authority
                ==> result == Err::<(), ErrorCode>(ErrorCode::Unauthorized)
                    && *final(self) == *old(self),
            caller == old(self).authority && old(self).wallets@.contains(wallet)
                ==> result == Err::<(), ErrorCode>(ErrorCode::WalletAlreadyExists)
                    && *final(self) == *old(self),
            caller == old(self).authority && !old(self).wallets@.contains(wallet)
                && old(self).wallets@.len() >= MAX_WALLETS
                ==> result == Err::<(), ErrorCode>(ErrorCode::TooManyWallets)
                    && *final(self) == *old(self),
            caller == old(self).authority && !old(self).wallets@.contains(wallet)
                && old(self).wallets@.len() < MAX_WALLETS
                ==> result is Ok
                    && final(self).wallets@ == old(self).wallets@.push(wallet)
                    && final(self).same_but_wallets(*old(self)),
    {
        match self.check_authority(caller) {
            Ok(()) => {},
            Err(e) => {
                return Err(e);
            },
        }
        if wallet_list_contains(&self.wallets, wallet) {
            return Err(ErrorCode::WalletAlreadyExists);
        }
        if self.wallets.len() >= MAX_WALLETS {
            return Err(ErrorCode::TooManyWallets);
        }
        let ghost prev = self.wallets@;
        self.wallets.push(wallet);
        proof {
            assert forall|i: int, j: int|
                0 <= i < self.wallets@.len() && 0 <= j < self.wallets@.len() && i != j
                implies self.wallets@[i] != self.wallets@[j] by {
                if i == prev.len() && self.wallets@[i] == self.wallets@[j] {
                    assert(prev[j] == wallet);
                    assert(prev.contains(wallet));
                } else if j == prev.len() && self.wallets@[i] == self.wallets@[j] {
                    assert(prev[i] == wallet);
                    assert(prev.contains(wallet));
                }
            }
        }
        Ok(())
    }

    /// Stops tracking a wallet. The request fails for anyone but the
    /// authority, then for an address not tracked; on success the one
    /// occurrence of the address leaves the list, the rest keeping their
    /// order.
    pub fn remove_wallet(&mut self, caller: Pubkey, wallet: Pubkey) -> (result: Result<
        (),
        ErrorCode,
    >)
        requires
            old(self).wf(),
        ensures
            final(self).wf(),
            caller != old(self).authority
                ==> result == Err::<(), ErrorCode>(ErrorCode::Unauthorized)
                    && *final(self) == *old(self),
            caller == old(self).authority && !old(self).wallets@.contains(wallet)
                ==> result == Err::<(), ErrorCode>(ErrorCode::WalletNotFound)
                    && *final(self) == *old(self),
            caller == old(self).authority && old(self).wallets@.contains(wallet)
                ==> result is Ok
                    && final(self).wallets@ == old(self).wallets@.remove_value(wallet)
                    && final(self).same_but_wallets(*old(self)),
    {
        match self.check_authority(caller) {
            Ok(()) => {},
            Err(e) => {
                return Err(e);
            },
        }
        match find_wallet(&self.wallets, wallet) {
            None => Err(ErrorCode::WalletNotFound),
            Some(i) => {
                let ghost prev = self.wallets@;
                proof {
                    assert(prev.contains(wallet));
                    prev.index_of_first_ensures(wallet);
                    let idx: int = prev.index_of_first(wallet)->Some_0;
                    assert(prev[idx] == wallet);
                    assert(idx == i as int);
                    prev.remove_ensures(i as int);
                }
                self.wallets.remove(i);
                proof {
                    assert forall|p: int, q: int|
                        0 <= p < self.wallets@.len() && 0 <= q < self.wallets@.len() && p != q
                        implies self.wallets@[p] != self.wallets@[q] by {
                        let p_src: int = if p < i as int {
                            p
                        } else {
                            p + 1
                        };
                        let q_src: int = if q < i as int {
                            q
                        } else {
                            q + 1
                        };
                        assert(self.wallets@[p] == prev[p_src]);
                        assert(self.wallets@[q] == prev[q_src]);
                    }
                }
                Ok(())
            },
        }
    }

    /// Accepts a scheduled analytics refresh at time `now`: only the
    /// authority may request it, and only once the update interval has
    /// elapsed; on success `last_updated` moves to `now` and nothing else
    /// changes.
    pub fn record_refresh(&mut self, caller: Pubkey, now: i64) -> (result: Result<(), ErrorCode>)
        requires
            old(self).wf(),
        ensures
            final(self).wf(),
            caller != old(self).authority
                ==> result == Err::<(), ErrorCode>(ErrorCode::Unauthorized)
                    && *final(self) == *old(self),
            caller == old(self).authority
                && now - old(self).last_updated < old(self).update_interval
                ==> result == Err::<(), ErrorCode>(ErrorCode::UpdateNotDue)
                    && *final(self) == *old(self),
            caller == old(self).authority
                && now - old(self).last_updated >= old(self).update_interval
                ==> result is Ok
                    && final(self).last_updated == now
                    && final(self).authority == old(self).authority
                    && final(self).wallets@ == old(self).wallets@
                    && final(self).update_interval == old(self).update_interval,
    {
        match self.check_authority(caller) {
            Ok(()) => {},
            Err(e) => {
                return Err(e);
            },
        }
        match self.check_update_due(now) {
            Ok(()) => {},
            Err(e) => {
                return Err(e);
            },
        }
        self.last_updated = now;
        Ok(())
    }
}

/// Creates the configuration record from the host-supplied request.
///
/// The checks run in order and the first failure wins: an over-long wallet
/// list is rejected before the interval is looked at, and a rejected
/// request builds no record at all. Duplicates in the wallet list are not
/// an error: the stored list keeps the first occurrence of each address in
/// its original position.
pub fn initialize(caller: Pubkey, wallets: Vec<Pubkey>, update_interval: u64, now: i64) -> (result:
    Result<ProtocolConfig, ErrorCode>)
    ensures
        wallets@.len() > MAX_WALLETS
            ==> result == Err::<ProtocolConfig, ErrorCode>(ErrorCode::TooManyWallets),
        wallets@.len() <= MAX_WALLETS && update_interval < MIN_UPDATE_INTERVAL
            ==> result == Err::<ProtocolConfig, ErrorCode>(ErrorCode::InvalidUpdateInterval),
        wallets@.len() <= MAX_WALLETS && update_interval >= MIN_UPDATE_INTERVAL
            ==> (result matches Ok(config)
                && config.authority == caller
                && config.wallets@ == dedup(wallets@)
                && config.update_interval == update_interval
                && config.last_updated == now
                && config.wf()),
{
    if wallets.len() > MAX_WALLETS {
        return Err(ErrorCode::TooManyWallets);
    }
    if update_interval < MIN_UPDATE_INTERVAL {
        return Err(ErrorCode::InvalidUpdateInterval);
    }
    let unique_wallets = dedup_wallets(&wallets);
    proof {
        lemma_dedup_bounds_len(wallets@);
        lemma_dedup_no_duplicates(wallets@);
    }
    Ok(
        ProtocolConfig {
            authority: caller,
            wallets: unique_wallets,
            update_interval,
            last_updated: now,
        },
    )
}

/// Guard of revenue recording: a revenue figure is accepted only when it
/// is strictly positive; zero is the one malformed unsigned amount.
pub fn validate_revenue_amount(amount: u64) -> (result: Result<(), ErrorCode>)
    ensures
        result is Ok <==> amount > 0,
        result is Err ==> result == Err::<(), ErrorCode>(ErrorCode::InvalidRevenueAmount),
{
    if amount > 0 {
        Ok(())
    } else {
        Err(ErrorCode::InvalidRevenueAmount)
    }
}

} // verus!
