//! The mathematical model of the store, and the five operations as
//! transition functions over it.
//!
//! A transition takes the pre-state and the operation's inputs and returns
//! the post-state together with the result. Every error leaves the state
//! exactly as it was; the executable ledger is proved to refine these
//! transitions, so they are the single place the operations' behaviour is
//! written down.

use vstd::prelude::*;
use crate::addr::{Addr, Identity, counter_addr, relayer_addr, service_addr};
use crate::error::Error;
use crate::records::{
    LOCKED_FEE, MAX_FIELD_LEN, RelayerModel, ServiceModel, relayer_model_wf, service_model_wf,
};

verus! {

/// The modelled store: each record kind as a finite map from derived
/// addresses to record models, and the spendable balance of each wallet.
/// Balances are mathematical integers; the executable ledger keeps them
/// within `u64` range.
pub struct LedgerModel {
    pub relayers: Map<Addr, RelayerModel>,
    pub counters: Map<Addr, u64>,
    pub services: Map<Addr, ServiceModel>,
    pub wallets: Map<Identity, int>,
}

/// The empty store: no records, no balances.
pub open spec fn empty_model() -> LedgerModel {
    LedgerModel {
        relayers: Map::empty(),
        counters: Map::empty(),
        services: Map::empty(),
        wallets: Map::empty(),
    }
}

/// The spendable balance of `owner`: an absent wallet holds nothing.
pub open spec fn wallet_of(s: LedgerModel, owner: Identity) -> int {
    if s.wallets.contains_key(owner) {
        s.wallets[owner]
    } else {
        0
    }
}

/// Whether `owner` currently has a live relayer record.
pub open spec fn registered(s: LedgerModel, owner: Identity) -> bool {
    s.relayers.contains_key(relayer_addr(owner))
}

/// The invariant every reachable store satisfies: records sit at addresses of
/// their own role, a relayer record names the identity its address was
/// derived from and is paired with its counter, every stored record is well
/// formed, and balances fit `u64` — with room for the escrow refund while the
/// owner's deposit is locked.
pub open spec fn inv(s: LedgerModel) -> bool {
    &&& forall|a: Addr| #[trigger]
        s.relayers.contains_key(a) ==> (a matches Addr::RelayerBase { owner }
            && s.relayers[a].relayer == owner && relayer_model_wf(s.relayers[a]))
    &&& forall|a: Addr| #[trigger] s.counters.contains_key(a) ==> a is ServiceBase
    &&& forall|a: Addr| #[trigger]
        s.services.contains_key(a) ==> a is Service && service_model_wf(s.services[a])
    &&& forall|o: Identity|
        s.relayers.contains_key(#[trigger] relayer_addr(o)) ==> s.counters.contains_key(
            counter_addr(o),
        )
    &&& forall|o: Identity|
        s.counters.contains_key(#[trigger] counter_addr(o)) ==> s.relayers.contains_key(
            relayer_addr(o),
        )
    &&& forall|o: Identity| #[trigger]
        s.wallets.contains_key(o) ==> 0 <= s.wallets[o] && (if registered(s, o) {
            s.wallets[o] + LOCKED_FEE <= u64::MAX
        } else {
            s.wallets[o] <= u64::MAX
        })
}

/// Registration: creates the relayer record and its counter at their derived
/// addresses and locks the escrow deposit, or fails — in this order of
/// precedence — when an address is occupied, the url exceeds its capacity, or
/// the caller cannot cover the deposit.
pub open spec fn register_tr(s: LedgerModel, caller: Identity, url: Seq<u8>) -> (
    LedgerModel,
    Result<(), Error>,
) {
    if s.relayers.contains_key(relayer_addr(caller)) || s.counters.contains_key(
        counter_addr(caller),
    ) {
        (s, Err(Error::AlreadyInitialized))
    } else if url.len() > MAX_FIELD_LEN {
        (s, Err(Error::FieldTooLong))
    } else if wallet_of(s, caller) < LOCKED_FEE {
        (s, Err(Error::InsufficientFunds))
    } else {
        (
            LedgerModel {
                relayers: s.relayers.insert(
                    relayer_addr(caller),
                    RelayerModel { connection_url: url, relayer: caller, locked_fee: LOCKED_FEE },
                ),
                counters: s.counters.insert(counter_addr(caller), 0),
                services: s.services,
                wallets: s.wallets.insert(caller, wallet_of(s, caller) - LOCKED_FEE),
            },
            Ok(()),
        )
    }
}

/// Relayer update: rewrites the connection url of the record at the address
/// derived from `relayer`, touching nothing else, or fails — in this order —
/// when the record is missing, the caller is not its owner, or the url
/// exceeds its capacity.
pub open spec fn update_relayer_tr(
    s: LedgerModel,
    relayer: Identity,
    caller: Identity,
    url: Seq<u8>,
) -> (LedgerModel, Result<(), Error>) {
    let ra = relayer_addr(relayer);
    if !s.relayers.contains_key(ra) {
        (s, Err(Error::NotFound))
    } else if s.relayers[ra].relayer != caller {
        (s, Err(Error::Unauthorized))
    } else if url.len() > MAX_FIELD_LEN {
        (s, Err(Error::FieldTooLong))
    } else {
        (
            LedgerModel {
                relayers: s.relayers.insert(
                    ra,
                    RelayerModel { connection_url: url, ..s.relayers[ra] },
                ),
                ..s
            },
            Ok(()),
        )
    }
}

/// Deregistration: refunds the full locked fee to the caller and releases the
/// relayer record and its counter, leaving every service record in place, or
/// fails — in this order — when the record is missing or the caller is not
/// its owner.
pub open spec fn close_tr(s: LedgerModel, relayer: Identity, caller: Identity) -> (
    LedgerModel,
    Result<(), Error>,
) {
    let ra = relayer_addr(relayer);
    if !s.relayers.contains_key(ra) {
        (s, Err(Error::NotFound))
    } else if s.relayers[ra].relayer != caller {
        (s, Err(Error::Unauthorized))
    } else {
        (
            LedgerModel {
                relayers: s.relayers.remove(ra),
                counters: s.counters.remove(counter_addr(relayer)),
                services: s.services,
                wallets: s.wallets.insert(
                    caller,
                    wallet_of(s, caller) + s.relayers[ra].locked_fee,
                ),
            },
            Ok(()),
        )
    }
}

/// Service creation: allocates a service record at the address derived from
/// the counter value in effect, copies the payload verbatim, and increments
/// the counter, or fails — in this order — when the caller never registered,
/// the derived address is occupied (a record orphaned by an earlier
/// deregistration still holds it), a field exceeds its capacity, or the
/// counter stands at the maximum representable value. On success the result
/// carries the counter value the record was created under.
pub open spec fn create_service_tr(s: LedgerModel, caller: Identity, data: ServiceModel) -> (
    LedgerModel,
    Result<u64, Error>,
) {
    let ca = counter_addr(caller);
    if !s.counters.contains_key(ca) {
        (s, Err(Error::NotFound))
    } else {
        let c = s.counters[ca];
        if s.services.contains_key(service_addr(caller, c)) {
            (s, Err(Error::AlreadyInitialized))
        } else if !service_model_wf(data) {
            (s, Err(Error::FieldTooLong))
        } else if c == u64::MAX {
            (s, Err(Error::CounterOverflow))
        } else {
            (
                LedgerModel {
                    counters: s.counters.insert(ca, (c + 1) as u64),
                    services: s.services.insert(service_addr(caller, c), data),
                    ..s
                },
                Ok(c),
            )
        }
    }
}

/// Whether a service update demands that the caller be the relayer the
/// record's address was derived from. The permissive mode accepts any
/// signer, mirroring a store that checks only the signature itself.
#[derive(Clone, Copy, Debug, PartialEq, Eq, Structural)]
pub enum UpdatePolicy {
    Permissive,
    StrictOwner,
}

/// Service update: rewrites all five fields of the record at the address
/// derived from the caller-supplied counter value, or fails — in this order —
/// when the relayer's counter record or the service record is missing, the
/// policy demands the owner and the caller is another identity, or a field
/// exceeds its capacity. The supplied counter value is deliberately not
/// checked against the live counter.
pub open spec fn update_service_tr(
    s: LedgerModel,
    relayer: Identity,
    service_count: u64,
    caller: Identity,
    data: ServiceModel,
    policy: UpdatePolicy,
) -> (LedgerModel, Result<(), Error>) {
    let sa = service_addr(relayer, service_count);
    if !s.counters.contains_key(counter_addr(relayer)) {
        (s, Err(Error::NotFound))
    } else if !s.services.contains_key(sa) {
        (s, Err(Error::NotFound))
    } else if policy is StrictOwner && caller != relayer {
        (s, Err(Error::Unauthorized))
    } else if !service_model_wf(data) {
        (s, Err(Error::FieldTooLong))
    } else {
        (LedgerModel { services: s.services.insert(sa, data), ..s }, Ok(()))
    }
}

/// Funding: credits a wallet's spendable balance, as the surrounding store's
/// native transfer into the wallet would. It succeeds exactly when the new
/// balance still leaves the escrow-refund headroom the invariant demands.
pub open spec fn fund_tr(s: LedgerModel, owner: Identity, amount: u64) -> (LedgerModel, bool) {
    let cap: int = if registered(s, owner) {
        u64::MAX - LOCKED_FEE
    } else {
        u64::MAX as int
    };
    if wallet_of(s, owner) + amount <= cap {
        (LedgerModel { wallets: s.wallets.insert(owner, wallet_of(s, owner) + amount), ..s }, true)
    } else {
        (s, false)
    }
}

/// Registration preserves the invariant.
pub proof fn lemma_register_preserves_inv(s: LedgerModel, caller: Identity, url: Seq<u8>)
    requires
        inv(s),
    ensures
        inv(register_tr(s, caller, url).0),
{
}

/// Relayer update preserves the invariant.
pub proof fn lemma_update_relayer_preserves_inv(
    s: LedgerModel,
    relayer: Identity,
    caller: Identity,
    url: Seq<u8>,
)
    requires
        inv(s),
    ensures
        inv(update_relayer_tr(s, relayer, caller, url).0),
{
}

/// Deregistration preserves the invariant.
pub proof fn lemma_close_preserves_inv(s: LedgerModel, relayer: Identity, caller: Identity)
    requires
        inv(s),
    ensures
        inv(close_tr(s, relayer, caller).0),
{
}

/// Service creation preserves the invariant.
pub proof fn lemma_create_service_preserves_inv(
    s: LedgerModel,
    caller: Identity,
    data: ServiceModel,
)
    requires
        inv(s),
    ensures
        inv(create_service_tr(s, caller, data).0),
{
}

/// Service update preserves the invariant.
pub proof fn lemma_update_service_preserves_inv(
    s: LedgerModel,
    relayer: Identity,
    service_count: u64,
    caller: Identity,
    data: ServiceModel,
    policy: UpdatePolicy,
)
    requires
        inv(s),
    ensures
        inv(update_service_tr(s, relayer, service_count, caller, data, policy).0),
{
}

/// Funding preserves the invariant.
pub proof fn lemma_fund_preserves_inv(s: LedgerModel, owner: Identity, amount: u64)
    requires
        inv(s),
    ensures
        inv(fund_tr(s, owner, amount).0),
{
}

} // verus!
