//! Laws the operations obey together, stated and proved over the transition
//! functions of [`crate::model`]. Since every executable operation is proved
//! to refine its transition, each law carries over to any sequence of calls
//! on a well-formed [`crate::ledger::Ledger`].

use vstd::prelude::*;
use crate::addr::{Addr, Identity, counter_addr, relayer_addr, service_addr};
use crate::error::Error;
use crate::model::{LedgerModel, UpdatePolicy, close_tr, create_service_tr, fund_tr, inv,
    register_tr, update_relayer_tr, update_service_tr, wallet_of};
use crate::records::{LOCKED_FEE, MAX_FIELD_LEN, ServiceModel, service_model_wf};

verus! {

/// Every successful registration locks exactly the fixed fee: afterwards the
/// relayer record holds `locked_fee == LOCKED_FEE`, the fresh counter stands
/// at 0, and the caller's spendable balance has decreased by exactly
/// `LOCKED_FEE`.
pub proof fn lemma_register_sets_up_escrow(s: LedgerModel, caller: Identity, url: Seq<u8>)
    requires
        register_tr(s, caller, url).1 is Ok,
    ensures
        ({
            let t = register_tr(s, caller, url).0;
            &&& t.relayers.contains_key(relayer_addr(caller))
            &&& t.relayers[relayer_addr(caller)].locked_fee == LOCKED_FEE
            &&& t.counters.contains_key(counter_addr(caller))
            &&& t.counters[counter_addr(caller)] == 0
            &&& wallet_of(t, caller) == wallet_of(s, caller) - LOCKED_FEE
        }),
{
}

/// Registering the same identity twice without an intervening
/// deregistration fails with `AlreadyInitialized` and leaves the state
/// unchanged, whatever the second url.
pub proof fn lemma_register_twice_fails(
    s: LedgerModel,
    caller: Identity,
    url1: Seq<u8>,
    url2: Seq<u8>,
)
    requires
        register_tr(s, caller, url1).1 is Ok,
    ensures
        ({
            let s1 = register_tr(s, caller, url1).0;
            register_tr(s1, caller, url2) == (s1, Err::<(), Error>(Error::AlreadyInitialized))
        }),
{
}

/// A run of successive service creations for one relayer, each applied to
/// the state the previous one produced; the flag records whether every
/// creation succeeded.
pub open spec fn create_many(s: LedgerModel, caller: Identity, datas: Seq<ServiceModel>) -> (
    LedgerModel,
    bool,
)
    decreases datas.len(),
{
    if datas.len() == 0 {
        (s, true)
    } else {
        let (s1, r1) = create_service_tr(s, caller, datas.first());
        if r1 is Ok {
            create_many(s1, caller, datas.drop_first())
        } else {
            (s1, false)
        }
    }
}

/// After N successful service creations for one relayer the counter has
/// grown by exactly N, and the N records sit at the N distinct addresses
/// derived from the counter values in effect when each was created, each
/// holding its payload verbatim; no service record present before is
/// touched.
pub proof fn lemma_catalog_counter_counts(
    s: LedgerModel,
    caller: Identity,
    datas: Seq<ServiceModel>,
)
    requires
        s.counters.contains_key(counter_addr(caller)),
        create_many(s, caller, datas).1,
    ensures
        ({
            let t = create_many(s, caller, datas).0;
            let c0 = s.counters[counter_addr(caller)];
            &&& t.counters.contains_key(counter_addr(caller))
            &&& t.counters[counter_addr(caller)] == c0 + datas.len()
            &&& forall|ix: u64|
                c0 <= ix < c0 + datas.len() ==> t.services.contains_key(
                    #[trigger] service_addr(caller, ix),
                ) && t.services[service_addr(caller, ix)] == datas[ix - c0]
            &&& forall|i1: u64, i2: u64|
                c0 <= i1 < i2 < c0 + datas.len() ==> #[trigger] service_addr(caller, i1)
                    != #[trigger] service_addr(caller, i2)
            &&& forall|a: Addr| #[trigger]
                s.services.contains_key(a) ==> t.services.contains_key(a) && t.services[a]
                    == s.services[a]
        }),
    decreases datas.len(),
{
    if datas.len() == 0 {
    } else {
        let ca = counter_addr(caller);
        let c0 = s.counters[ca];
        let (s1, r1) = create_service_tr(s, caller, datas.first());
        assert(r1 is Ok);
        assert(c0 < u64::MAX);
        assert(s1.counters[ca] == c0 + 1);
        assert(!s.services.contains_key(service_addr(caller, c0)));
        assert(s1.services == s.services.insert(service_addr(caller, c0), datas.first()));
        lemma_catalog_counter_counts(s1, caller, datas.drop_first());
        assert(create_many(s, caller, datas) == create_many(s1, caller, datas.drop_first()));
        let tt = create_many(s1, caller, datas.drop_first()).0;
        assert(tt.counters[ca] == (c0 + 1) + datas.drop_first().len());
        assert(tt.counters[ca] == c0 + datas.len());
        assert forall|ix: u64| c0 <= ix < c0 + datas.len() implies tt.services.contains_key(
            #[trigger] service_addr(caller, ix),
        ) && tt.services[service_addr(caller, ix)] == datas[ix - c0] by {
            if ix == c0 {
                assert(s1.services.contains_key(service_addr(caller, c0)));
                assert(s1.services[service_addr(caller, c0)] == datas[0]);
                assert(tt.services.contains_key(service_addr(caller, c0)));
                assert(tt.services[service_addr(caller, c0)] == datas[0]);
            } else {
                assert(c0 + 1 <= ix < (c0 + 1) + datas.drop_first().len());
                assert(datas.drop_first()[ix - (c0 + 1)] == datas[ix - c0]);
            }
        }
        assert forall|i1: u64, i2: u64| c0 <= i1 < i2 < c0 + datas.len()
            implies #[trigger] service_addr(caller, i1) != #[trigger] service_addr(caller, i2) by {
        }
        assert forall|a: Addr| #[trigger] s.services.contains_key(a)
            implies tt.services.contains_key(a) && tt.services[a] == s.services[a] by {
            assert(s1.services.contains_key(a));
            assert(s1.services[a] == s.services[a]);
        }
    }
}

/// Deregistration followed immediately by registration of the same identity
/// succeeds — the refund alone already covers the fresh deposit — and yields
/// a counter starting again at 0, while every service record, including
/// those created before the deregistration, stays exactly as it was.
pub proof fn lemma_close_then_register(s: LedgerModel, relayer: Identity, url: Seq<u8>)
    requires
        inv(s),
        close_tr(s, relayer, relayer).1 is Ok,
        url.len() <= MAX_FIELD_LEN,
    ensures
        ({
            let s1 = close_tr(s, relayer, relayer).0;
            let (s2, r) = register_tr(s1, relayer, url);
            &&& r is Ok
            &&& s2.counters[counter_addr(relayer)] == 0
            &&& s2.services == s.services
        }),
{
    let ra = relayer_addr(relayer);
    assert(s.relayers.contains_key(ra));
    assert(s.relayers[ra].locked_fee == LOCKED_FEE);
    let s1 = close_tr(s, relayer, relayer).0;
    assert(wallet_of(s1, relayer) == wallet_of(s, relayer) + LOCKED_FEE);
    assert(wallet_of(s, relayer) >= 0);
}

/// An identity other than the record's owner can neither rewrite the
/// relayer's url nor deregister it: both fail with `Unauthorized` and leave
/// the state unchanged.
pub proof fn lemma_non_owner_rejected(
    s: LedgerModel,
    relayer: Identity,
    caller: Identity,
    url: Seq<u8>,
)
    requires
        s.relayers.contains_key(relayer_addr(relayer)),
        s.relayers[relayer_addr(relayer)].relayer != caller,
    ensures
        update_relayer_tr(s, relayer, caller, url) == (s, Err::<(), Error>(Error::Unauthorized)),
        close_tr(s, relayer, caller) == (s, Err::<(), Error>(Error::Unauthorized)),
{
}

/// Round trip: creating a service and then updating it under the counter
/// value returned at creation succeeds (for any caller the policy accepts)
/// and leaves the record holding exactly the second payload.
pub proof fn lemma_create_update_round_trip(
    s: LedgerModel,
    relayer: Identity,
    caller: Identity,
    d1: ServiceModel,
    d2: ServiceModel,
    policy: UpdatePolicy,
)
    requires
        create_service_tr(s, relayer, d1).1 is Ok,
        service_model_wf(d2),
        policy is Permissive || caller == relayer,
    ensures
        ({
            let (s1, r1) = create_service_tr(s, relayer, d1);
            let ix = r1->Ok_0;
            let (s2, r2) = update_service_tr(s1, relayer, ix, caller, d2, policy);
            &&& r2 == Ok::<(), Error>(())
            &&& s2.services.contains_key(service_addr(relayer, ix))
            &&& s2.services[service_addr(relayer, ix)] == d2
        }),
{
}

/// Deregistration never touches the service catalog: records created under
/// the relayer stay readable at their original addresses, orphaned.
pub proof fn lemma_close_leaves_services(s: LedgerModel, relayer: Identity, caller: Identity)
    ensures
        close_tr(s, relayer, caller).0.services == s.services,
{
}

/// Between a pre-state and a post-state, `o`'s counter, where live in both,
/// has not decreased.
pub open spec fn counter_kept_or_raised(s: LedgerModel, t: LedgerModel, o: Identity) -> bool {
    (s.counters.contains_key(counter_addr(o)) && t.counters.contains_key(counter_addr(o)))
        ==> t.counters[counter_addr(o)] >= s.counters[counter_addr(o)]
}

/// Between a pre-state and a post-state, `o`'s relayer record, where live in
/// both, still names the same owner and locks the same fee.
pub open spec fn relayer_identity_kept(s: LedgerModel, t: LedgerModel, o: Identity) -> bool {
    (s.relayers.contains_key(relayer_addr(o)) && t.relayers.contains_key(relayer_addr(o)))
        ==> t.relayers[relayer_addr(o)].relayer == s.relayers[relayer_addr(o)].relayer
            && t.relayers[relayer_addr(o)].locked_fee == s.relayers[relayer_addr(o)].locked_fee
}

/// The record invariants hold across every operation: no operation ever
/// lowers a live counter, and none rewrites a live relayer record's owner or
/// its locked fee — only the connection url may change. Deregistration
/// removes the pair outright; a later registration starts a fresh counter at
/// 0, but the addresses consumed earlier stay taken.
pub proof fn lemma_records_stable_across_operations(
    s: LedgerModel,
    o: Identity,
    relayer: Identity,
    caller: Identity,
    url: Seq<u8>,
    d: ServiceModel,
    service_count: u64,
    policy: UpdatePolicy,
    amount: u64,
)
    ensures
        counter_kept_or_raised(s, register_tr(s, caller, url).0, o),
        counter_kept_or_raised(s, update_relayer_tr(s, relayer, caller, url).0, o),
        counter_kept_or_raised(s, close_tr(s, relayer, caller).0, o),
        counter_kept_or_raised(s, create_service_tr(s, caller, d).0, o),
        counter_kept_or_raised(s, update_service_tr(s, relayer, service_count, caller, d,
            policy).0, o),
        counter_kept_or_raised(s, fund_tr(s, caller, amount).0, o),
        relayer_identity_kept(s, register_tr(s, caller, url).0, o),
        relayer_identity_kept(s, update_relayer_tr(s, relayer, caller, url).0, o),
        relayer_identity_kept(s, close_tr(s, relayer, caller).0, o),
        relayer_identity_kept(s, create_service_tr(s, caller, d).0, o),
        relayer_identity_kept(s, update_service_tr(s, relayer, service_count, caller, d,
            policy).0, o),
        relayer_identity_kept(s, fund_tr(s, caller, amount).0, o),
{
}

} // verus!

