//! The executable ledger: an arena of records keyed by derived addresses,
//! with the five operations, each proved to refine its transition function
//! in [`crate::model`].
//!
//! Each arena is an association vector with pairwise-distinct keys; the
//! relayer records and their counters sit in two aligned vectors, which keeps
//! the pair created and destroyed together. No operation exposes a mutable
//! alias into the store: every mutation is one call, atomic in effect —
//! either the whole operation commits or the state is exactly as before.

use vstd::prelude::*;
use crate::addr::{Identity, counter_addr, relayer_addr, service_addr};
use crate::error::Error;
use crate::kvmap::{keys_distinct, kv_map, lemma_kv_contains, lemma_kv_push, lemma_kv_remove,
    lemma_kv_update, lemma_kv_value};
use crate::model::{LedgerModel, UpdatePolicy, close_tr, create_service_tr, empty_model, fund_tr,
    inv, lemma_close_preserves_inv, lemma_create_service_preserves_inv, lemma_fund_preserves_inv,
    lemma_register_preserves_inv, lemma_update_relayer_preserves_inv,
    lemma_update_service_preserves_inv, register_tr, registered, update_relayer_tr,
    update_service_tr, wallet_of};
use crate::records::{LOCKED_FEE, MAX_FIELD_LEN, RelayerBase, RelayerModel, Service, ServiceBase,
    ServiceData, ServiceModel};

verus! {

/// The seed pair a service record's address is derived from: the owning
/// relayer identity and the counter value in effect at creation time.
#[derive(Clone, Copy, Debug, PartialEq, Eq, Hash, Structural)]
pub struct ServiceKey {
    pub owner: Identity,
    pub index: u64,
}

/// The ledger state. Abstractly (see [`Ledger::model`]) it is a
/// [`LedgerModel`]: finite maps from derived addresses to record models,
/// plus the wallets' spendable balances.
pub struct Ledger {
    relayers: Vec<(Identity, RelayerBase)>,
    counters: Vec<(Identity, ServiceBase)>,
    services: Vec<(ServiceKey, Service)>,
    wallets: Vec<(Identity, u64)>,
}

impl Ledger {
    spec fn relayer_pairs(self) -> Seq<(crate::addr::Addr, RelayerModel)> {
        self.relayers@.map_values(|p: (Identity, RelayerBase)| (relayer_addr(p.0), p.1@))
    }

    spec fn counter_pairs(self) -> Seq<(crate::addr::Addr, u64)> {
        self.counters@.map_values(|p: (Identity, ServiceBase)| (counter_addr(p.0),
            p.1.service_counter))
    }

    spec fn service_pairs(self) -> Seq<(crate::addr::Addr, ServiceModel)> {
        self.services@.map_values(|p: (ServiceKey, Service)| (service_addr(p.0.owner, p.0.index),
            p.1@))
    }

    spec fn wallet_pairs(self) -> Seq<(Identity, int)> {
        self.wallets@.map_values(|p: (Identity, u64)| (p.0, p.1 as int))
    }

    /// The store this ledger denotes.
    pub closed spec fn model(self) -> LedgerModel {
        LedgerModel {
            relayers: kv_map(self.relayer_pairs()),
            counters: kv_map(self.counter_pairs()),
            services: kv_map(self.service_pairs()),
            wallets: kv_map(self.wallet_pairs()),
        }
    }

    spec fn relayers_distinct(self) -> bool {
        forall|i: int, j: int|
            0 <= i < j < self.relayers@.len() ==> self.relayers@[i].0 != self.relayers@[j].0
    }

    spec fn services_distinct(self) -> bool {
        forall|i: int, j: int|
            0 <= i < j < self.services@.len() ==> self.services@[i].0 != self.services@[j].0
    }

    spec fn wallets_distinct(self) -> bool {
        forall|i: int, j: int|
            0 <= i < j < self.wallets@.len() ==> self.wallets@[i].0 != self.wallets@[j].0
    }

    /// The counter vector carries exactly the relayer vector's keys, entry by
    /// entry: a relayer record and its counter are created and destroyed
    /// together.
    spec fn counters_aligned(self) -> bool {
        &&& self.counters@.len() == self.relayers@.len()
        &&& forall|i: int|
            0 <= i < self.counters@.len() ==> (#[trigger] self.counters@[i]).0
                == self.relayers@[i].0
    }

    /// The ledger is well formed: distinct keys in every arena, the counter
    /// arena aligned with the relayer arena, and the denoted store satisfies
    /// the model invariant.
    pub closed spec fn wf(self) -> bool {
        &&& self.relayers_distinct()
        &&& self.services_distinct()
        &&& self.wallets_distinct()
        &&& self.counters_aligned()
        &&& inv(self.model())
    }

    proof fn lemma_relayer_view(self, owner: Identity)
        requires
            self.relayers_distinct(),
        ensures
            self.model().relayers.contains_key(relayer_addr(owner)) <==> (exists|i: int|
                0 <= i < self.relayers@.len() && self.relayers@[i].0 == owner),
            forall|i: int|
                0 <= i < self.relayers@.len() && (#[trigger] self.relayers@[i].0) == owner
                    ==> self.model().relayers[relayer_addr(owner)] == self.relayers@[i].1@,
    {
        let ps = self.relayer_pairs();
        assert(keys_distinct(ps));
        lemma_kv_contains(ps, relayer_addr(owner));
        if exists|i: int| 0 <= i < self.relayers@.len() && self.relayers@[i].0 == owner {
            let i = choose|i: int| 0 <= i < self.relayers@.len() && self.relayers@[i].0 == owner;
            assert(ps[i].0 == relayer_addr(owner));
        }
        if exists|i: int| 0 <= i < ps.len() && ps[i].0 == relayer_addr(owner) {
            let i = choose|i: int| 0 <= i < ps.len() && ps[i].0 == relayer_addr(owner);
            assert(self.relayers@[i].0 == owner);
        }
        assert forall|i: int|
            0 <= i < self.relayers@.len() && (#[trigger] self.relayers@[i].0) == owner
                implies self.model().relayers[relayer_addr(owner)] == self.relayers@[i].1@ by {
            lemma_kv_value(ps, i);
        }
    }

    proof fn lemma_counter_view(self, owner: Identity)
        requires
            self.relayers_distinct(),
            self.counters_aligned(),
        ensures
            self.model().counters.contains_key(counter_addr(owner)) <==> (exists|i: int|
                0 <= i < self.counters@.len() && self.counters@[i].0 == owner),
            forall|i: int|
                0 <= i < self.counters@.len() && (#[trigger] self.counters@[i].0) == owner
                    ==> self.model().counters[counter_addr(owner)]
                    == self.counters@[i].1.service_counter,
    {
        let ps = self.counter_pairs();
        assert(keys_distinct(ps));
        lemma_kv_contains(ps, counter_addr(owner));
        if exists|i: int| 0 <= i < self.counters@.len() && self.counters@[i].0 == owner {
            let i = choose|i: int| 0 <= i < self.counters@.len() && self.counters@[i].0 == owner;
            assert(ps[i].0 == counter_addr(owner));
        }
        if exists|i: int| 0 <= i < ps.len() && ps[i].0 == counter_addr(owner) {
            let i = choose|i: int| 0 <= i < ps.len() && ps[i].0 == counter_addr(owner);
            assert(self.counters@[i].0 == owner);
        }
        assert forall|i: int|
            0 <= i < self.counters@.len() && (#[trigger] self.counters@[i].0) == owner
                implies self.model().counters[counter_addr(owner)]
                == self.counters@[i].1.service_counter by {
            lemma_kv_value(ps, i);
        }
    }

    proof fn lemma_service_view(self, owner: Identity, index: u64)
        requires
            self.services_distinct(),
        ensures
            self.model().services.contains_key(service_addr(owner, index)) <==> (exists|i: int|
                0 <= i < self.services@.len() && self.services@[i].0 == (ServiceKey {
                    owner,
                    index,
                })),
            forall|i: int|
                0 <= i < self.services@.len() && (#[trigger] self.services@[i].0) == (ServiceKey {
                    owner,
                    index,
                }) ==> self.model().services[service_addr(owner, index)] == self.services@[i].1@,
    {
        let ps = self.service_pairs();
        let k = ServiceKey { owner, index };
        assert(keys_distinct(ps));
        lemma_kv_contains(ps, service_addr(owner, index));
        if exists|i: int| 0 <= i < self.services@.len() && self.services@[i].0 == k {
            let i = choose|i: int| 0 <= i < self.services@.len() && self.services@[i].0 == k;
            assert(ps[i].0 == service_addr(owner, index));
        }
        if exists|i: int| 0 <= i < ps.len() && ps[i].0 == service_addr(owner, index) {
            let i = choose|i: int| 0 <= i < ps.len() && ps[i].0 == service_addr(owner, index);
            assert(self.services@[i].0 == k);
        }
        assert forall|i: int|
            0 <= i < self.services@.len() && (#[trigger] self.services@[i].0) == k
                implies self.model().services[service_addr(owner, index)]
                == self.services@[i].1@ by {
            lemma_kv_value(ps, i);
        }
    }

    proof fn lemma_wallet_view(self, owner: Identity)
        requires
            self.wallets_distinct(),
        ensures
            self.model().wallets.contains_key(owner) <==> (exists|i: int|
                0 <= i < self.wallets@.len() && self.wallets@[i].0 == owner),
            forall|i: int|
                0 <= i < self.wallets@.len() && (#[trigger] self.wallets@[i].0) == owner
                    ==> self.model().wallets[owner] == self.wallets@[i].1 as int,
    {
        let ps = self.wallet_pairs();
        assert(keys_distinct(ps));
        lemma_kv_contains(ps, owner);
        if exists|i: int| 0 <= i < self.wallets@.len() && self.wallets@[i].0 == owner {
            let i = choose|i: int| 0 <= i < self.wallets@.len() && self.wallets@[i].0 == owner;
            assert(ps[i].0 == owner);
        }
        assert forall|i: int|
            0 <= i < self.wallets@.len() && (#[trigger] self.wallets@[i].0) == owner
                implies self.model().wallets[owner] == self.wallets@[i].1 as int by {
            lemma_kv_value(ps, i);
        }
    }

    /// A fresh, empty ledger.
    pub fn new() -> (r: Ledger)
        ensures
            r.wf(),
            r.model() == empty_model(),
    {
        let r = Ledger { relayers: Vec::new(), counters: Vec::new(), services: Vec::new(),
            wallets: Vec::new() };
        proof {
            assert(r.relayer_pairs() =~= Seq::<(crate::addr::Addr, RelayerModel)>::empty());
            assert(r.counter_pairs() =~= Seq::<(crate::addr::Addr, u64)>::empty());
            assert(r.service_pairs() =~= Seq::<(crate::addr::Addr, ServiceModel)>::empty());
            assert(r.wallet_pairs() =~= Seq::<(Identity, int)>::empty());
        }
        r
    }

    fn find_relayer(&self, owner: Identity) -> (r: Option<usize>)
        ensures
            match r {
                Some(i) => i < self.relayers@.len() && self.relayers@[i as int].0 == owner,
                None => forall|j: int|
                    0 <= j < self.relayers@.len() ==> self.relayers@[j].0 != owner,
            },
    {
        let mut i: usize = 0;
        while i < self.relayers.len()
            invariant
                i <= self.relayers@.len(),
                forall|j: int| 0 <= j < i ==> self.relayers@[j].0 != owner,
            decreases self.relayers@.len() - i,
        {
            if self.relayers[i].0 == owner {
                return Some(i);
            }
            i = i + 1;
        }
        None
    }

    fn find_counter(&self, owner: Identity) -> (r: Option<usize>)
        ensures
            match r {
                Some(i) => i < self.counters@.len() && self.counters@[i as int].0 == owner,
                None => forall|j: int|
                    0 <= j < self.counters@.len() ==> self.counters@[j].0 != owner,
            },
    {
        let mut i: usize = 0;
        while i < self.counters.len()
            invariant
                i <= self.counters@.len(),
                forall|j: int| 0 <= j < i ==> self.counters@[j].0 != owner,
            decreases self.counters@.len() - i,
        {
            if self.counters[i].0 == owner {
                return Some(i);
            }
            i = i + 1;
        }
        None
    }

    fn find_service(&self, owner: Identity, index: u64) -> (r: Option<usize>)
        ensures
            match r {
                Some(i) => i < self.services@.len() && self.services@[i as int].0 == (ServiceKey {
                    owner,
                    index,
                }),
                None => forall|j: int|
                    0 <= j < self.services@.len() ==> self.services@[j].0 != (ServiceKey {
                        owner,
                        index,
                    }),
            },
    {
        let mut i: usize = 0;
        while i < self.services.len()
            invariant
                i <= self.services@.len(),
                forall|j: int|
                    0 <= j < i ==> self.services@[j].0 != (ServiceKey { owner, index }),
            decreases self.services@.len() - i,
        {
            if self.services[i].0.owner == owner && self.services[i].0.index == index {
                return Some(i);
            }
            i = i + 1;
        }
        None
    }

    fn find_wallet(&self, owner: Identity) -> (r: Option<usize>)
        ensures
            match r {
                Some(i) => i < self.wallets@.len() && self.wallets@[i as int].0 == owner,
                None => forall|j: int|
                    0 <= j < self.wallets@.len() ==> self.wallets@[j].0 != owner,
            },
    {
        let mut i: usize = 0;
        while i < self.wallets.len()
            invariant
                i <= self.wallets@.len(),
                forall|j: int| 0 <= j < i ==> self.wallets@[j].0 != owner,
            decreases self.wallets@.len() - i,
        {
            if self.wallets[i].0 == owner {
                return Some(i);
            }
            i = i + 1;
        }
        None
    }

    /// Credits `owner`'s spendable balance, as the surrounding store's native
    /// transfer into the wallet would; returns whether the credit was
    /// applied. It is refused exactly when the new balance would not leave
    /// the headroom the invariant keeps for the escrow refund.
    pub fn fund_wallet(&mut self, owner: Identity, amount: u64) -> (r: bool)
        requires
            old(self).wf(),
        ensures
            final(self).wf(),
            ({
                let (m, ok) = fund_tr(old(self).model(), owner, amount);
                final(self).model() == m && r == ok
            }),
    {
        proof {
            old(self).lemma_wallet_view(owner);
            old(self).lemma_relayer_view(owner);
            lemma_fund_preserves_inv(old(self).model(), owner, amount);
        }
        let live = self.find_relayer(owner).is_some();
        let cap: u64 = if live {
            u64::MAX - LOCKED_FEE
        } else {
            u64::MAX
        };
        let wi = self.find_wallet(owner);
        let bal: u64 = match wi {
            Some(i) => self.wallets[i].1,
            None => 0,
        };
        if amount > cap - bal {
            return false;
        }
        match wi {
            Some(i) => {
                let ghost before = self.wallet_pairs();
                self.wallets[i] = (owner, bal + amount);
                proof {
                    assert(self.wallet_pairs() =~= before.update(i as int, (owner, (bal
                        + amount) as int)));
                    lemma_kv_update(before, i as int, (owner, (bal + amount) as int));
                }
            },
            None => {
                let ghost before = self.wallet_pairs();
                self.wallets.push((owner, amount));
                proof {
                    assert(self.wallet_pairs() =~= before.push((owner, amount as int)));
                    lemma_kv_push(before, (owner, amount as int));
                }
            },
        }
        true
    }

    /// Registers the calling identity as a relayer: creates its relayer
    /// record and service counter at their derived addresses and locks the
    /// escrow deposit of [`LOCKED_FEE`] units out of the caller's spendable
    /// balance. Refined by [`register_tr`], which also fixes the error
    /// precedence: an occupied address, then an oversized url, then
    /// insufficient funds.
    pub fn create_relayer(&mut self, caller: Identity, connection_url: Vec<u8>) -> (r: Result<
        (),
        Error,
    >)
        requires
            old(self).wf(),
        ensures
            final(self).wf(),
            ({
                let (m, res) = register_tr(old(self).model(), caller, connection_url@);
                final(self).model() == m && r == res
            }),
    {
        proof {
            old(self).lemma_relayer_view(caller);
            old(self).lemma_counter_view(caller);
            old(self).lemma_wallet_view(caller);
            lemma_register_preserves_inv(old(self).model(), caller, connection_url@);
        }
        let ri = self.find_relayer(caller);
        if ri.is_some() {
            return Err(Error::AlreadyInitialized);
        }
        proof {
            assert(forall|j: int|
                0 <= j < self.counters@.len() ==> (#[trigger] self.counters@[j]).0 != caller);
        }
        if connection_url.len() > MAX_FIELD_LEN {
            return Err(Error::FieldTooLong);
        }
        let wi = self.find_wallet(caller);
        let bal: u64 = match wi {
            Some(i) => self.wallets[i].1,
            None => 0,
        };
        if bal < LOCKED_FEE {
            return Err(Error::InsufficientFunds);
        }
        match wi {
            Some(i) => {
                let ghost wb = self.wallet_pairs();
                self.wallets[i] = (caller, bal - LOCKED_FEE);
                proof {
                    assert(self.wallet_pairs() =~= wb.update(i as int, (caller, (bal
                        - LOCKED_FEE) as int)));
                    lemma_kv_update(wb, i as int, (caller, (bal - LOCKED_FEE) as int));
                }
            },
            None => {
                // bal >= LOCKED_FEE > 0 here, and an absent wallet holds 0.
                proof {
                    assert(false);
                }
            },
        }
        let ghost rb = self.relayer_pairs();
        let ghost cb = self.counter_pairs();
        self.relayers.push((caller, RelayerBase { connection_url, relayer: caller,
            locked_fee: LOCKED_FEE }));
        self.counters.push((caller, ServiceBase { service_counter: 0 }));
        proof {
            let rm = RelayerModel { connection_url: connection_url@, relayer: caller,
                locked_fee: LOCKED_FEE };
            assert(self.relayer_pairs() =~= rb.push((relayer_addr(caller), rm)));
            lemma_kv_push(rb, (relayer_addr(caller), rm));
            assert(self.counter_pairs() =~= cb.push((counter_addr(caller), 0u64)));
            lemma_kv_push(cb, (counter_addr(caller), 0u64));
        }
        Ok(())
    }

    /// Rewrites the connection url of the relayer record at the address
    /// derived from `relayer`; nothing else changes — not the owner, the
    /// locked fee, the counter, nor any other record. Refined by
    /// [`update_relayer_tr`], which also fixes the error precedence: a
    /// missing record, then a caller other than the owner, then an oversized
    /// url.
    pub fn update_relayer(
        &mut self,
        relayer: Identity,
        caller: Identity,
        new_connection_url: Vec<u8>,
    ) -> (r: Result<(), Error>)
        requires
            old(self).wf(),
        ensures
            final(self).wf(),
            ({
                let (m, res) = update_relayer_tr(old(self).model(), relayer, caller,
                    new_connection_url@);
                final(self).model() == m && r == res
            }),
    {
        proof {
            old(self).lemma_relayer_view(relayer);
            lemma_update_relayer_preserves_inv(old(self).model(), relayer, caller,
                new_connection_url@);
        }
        let ri = match self.find_relayer(relayer) {
            Some(i) => i,
            None => {
                return Err(Error::NotFound);
            },
        };
        let owner = self.relayers[ri].1.relayer;
        if !(owner == caller) {
            return Err(Error::Unauthorized);
        }
        if new_connection_url.len() > MAX_FIELD_LEN {
            return Err(Error::FieldTooLong);
        }
        let fee = self.relayers[ri].1.locked_fee;
        let ghost rb = self.relayer_pairs();
        self.relayers[ri] = (relayer, RelayerBase { connection_url: new_connection_url,
            relayer: owner, locked_fee: fee });
        proof {
            let rm = RelayerModel { connection_url: new_connection_url@, relayer: owner,
                locked_fee: fee };
            assert(self.relayer_pairs() =~= rb.update(ri as int, (relayer_addr(relayer), rm)));
            lemma_kv_update(rb, ri as int, (relayer_addr(relayer), rm));
        }
        Ok(())
    }

    /// Deregisters the relayer at the address derived from `relayer`: moves
    /// the full locked fee back to the caller's spendable balance and
    /// releases the relayer record and its counter. Service records created
    /// under the relayer stay in place at their original addresses. Refined
    /// by [`close_tr`], which also fixes the error precedence: a missing
    /// record, then a caller other than the owner.
    pub fn close_relayer(&mut self, relayer: Identity, caller: Identity) -> (r: Result<(), Error>)
        requires
            old(self).wf(),
        ensures
            final(self).wf(),
            ({
                let (m, res) = close_tr(old(self).model(), relayer, caller);
                final(self).model() == m && r == res
            }),
    {
        proof {
            old(self).lemma_relayer_view(relayer);
            old(self).lemma_counter_view(relayer);
            old(self).lemma_wallet_view(caller);
            lemma_close_preserves_inv(old(self).model(), relayer, caller);
        }
        let ri = match self.find_relayer(relayer) {
            Some(i) => i,
            None => {
                return Err(Error::NotFound);
            },
        };
        let owner = self.relayers[ri].1.relayer;
        if !(owner == caller) {
            return Err(Error::Unauthorized);
        }
        let fee = self.relayers[ri].1.locked_fee;
        let wi = self.find_wallet(caller);
        let bal: u64 = match wi {
            Some(i) => self.wallets[i].1,
            None => 0,
        };
        proof {
            assert(registered(old(self).model(), caller));
            assert(fee == LOCKED_FEE);
            assert(bal + fee <= u64::MAX);
        }
        let newbal: u64 = bal + fee;
        let ghost rb = self.relayer_pairs();
        let ghost cb = self.counter_pairs();
        self.relayers.remove(ri);
        self.counters.remove(ri);
        proof {
            assert(keys_distinct(rb));
            assert(self.relayer_pairs() =~= rb.remove(ri as int));
            lemma_kv_remove(rb, ri as int);
            assert(keys_distinct(cb));
            assert(self.counter_pairs() =~= cb.remove(ri as int));
            lemma_kv_remove(cb, ri as int);
        }
        match wi {
            Some(i) => {
                let ghost wb = self.wallet_pairs();
                self.wallets[i] = (caller, newbal);
                proof {
                    assert(self.wallet_pairs() =~= wb.update(i as int, (caller, newbal as int)));
                    lemma_kv_update(wb, i as int, (caller, newbal as int));
                }
            },
            None => {
                let ghost wb = self.wallet_pairs();
                self.wallets.push((caller, newbal));
                proof {
                    assert(self.wallet_pairs() =~= wb.push((caller, newbal as int)));
                    lemma_kv_push(wb, (caller, newbal as int));
                }
            },
        }
        Ok(())
    }

    /// Creates a service record for the calling relayer at the address
    /// derived from the counter value in effect, copies the payload
    /// verbatim, and increments the counter by exactly 1; returns the
    /// counter value the record was created under. Refined by
    /// [`create_service_tr`], which also fixes the error precedence: a
    /// caller that never registered, then an occupied address (a record
    /// orphaned by an earlier deregistration still holds it), then an
    /// oversized field, then a counter at the maximum representable value.
    pub fn create_service(&mut self, caller: Identity, service_data: ServiceData) -> (r: Result<
        u64,
        Error,
    >)
        requires
            old(self).wf(),
        ensures
            final(self).wf(),
            ({
                let (m, res) = create_service_tr(old(self).model(), caller, service_data@);
                final(self).model() == m && r == res
            }),
    {
        proof {
            old(self).lemma_counter_view(caller);
            lemma_create_service_preserves_inv(old(self).model(), caller, service_data@);
        }
        let ci = match self.find_counter(caller) {
            Some(i) => i,
            None => {
                return Err(Error::NotFound);
            },
        };
        let c = self.counters[ci].1.service_counter;
        proof {
            old(self).lemma_service_view(caller, c);
        }
        let si = self.find_service(caller, c);
        if si.is_some() {
            return Err(Error::AlreadyInitialized);
        }
        let ServiceData { service_url, service_description, service_face_url, service_fee,
            relayer_share } = service_data;
        if service_url.len() > MAX_FIELD_LEN || service_description.len() > MAX_FIELD_LEN
            || service_face_url.len() > MAX_FIELD_LEN {
            return Err(Error::FieldTooLong);
        }
        if c == u64::MAX {
            return Err(Error::CounterOverflow);
        }
        let ghost cb = self.counter_pairs();
        let ghost sb = self.service_pairs();
        self.counters[ci] = (caller, ServiceBase { service_counter: c + 1 });
        self.services.push((ServiceKey { owner: caller, index: c }, Service { service_url,
            service_description, service_face_url, service_fee, relayer_share }));
        proof {
            assert(self.counter_pairs() =~= cb.update(ci as int, (counter_addr(caller), (c
                + 1) as u64)));
            lemma_kv_update(cb, ci as int, (counter_addr(caller), (c + 1) as u64));
            assert(self.service_pairs() =~= sb.push((service_addr(caller, c), service_data@)));
            lemma_kv_push(sb, (service_addr(caller, c), service_data@));
        }
        Ok(c)
    }

    /// Rewrites all five fields of the service record at the address derived
    /// from `(relayer, service_count)` with the payload, verbatim. The
    /// caller supplies the counter value; it is deliberately not checked
    /// against the live counter, and `policy` chooses whether the caller
    /// must be the relayer the address was derived from. Refined by
    /// [`update_service_tr`], which also fixes the error precedence: a
    /// missing counter or service record, then (under the strict policy) a
    /// caller other than the relayer, then an oversized field.
    pub fn update_service(
        &mut self,
        relayer: Identity,
        service_count: u64,
        caller: Identity,
        service_data: ServiceData,
        policy: UpdatePolicy,
    ) -> (r: Result<(), Error>)
        requires
            old(self).wf(),
        ensures
            final(self).wf(),
            ({
                let (m, res) = update_service_tr(old(self).model(), relayer, service_count,
                    caller, service_data@, policy);
                final(self).model() == m && r == res
            }),
    {
        proof {
            old(self).lemma_counter_view(relayer);
            old(self).lemma_service_view(relayer, service_count);
            lemma_update_service_preserves_inv(old(self).model(), relayer, service_count, caller,
                service_data@, policy);
        }
        if self.find_counter(relayer).is_none() {
            return Err(Error::NotFound);
        }
        let si = match self.find_service(relayer, service_count) {
            Some(i) => i,
            None => {
                return Err(Error::NotFound);
            },
        };
        match policy {
            UpdatePolicy::StrictOwner => {
                if !(caller == relayer) {
                    return Err(Error::Unauthorized);
                }
            },
            UpdatePolicy::Permissive => {},
        }
        let ServiceData { service_url, service_description, service_face_url, service_fee,
            relayer_share } = service_data;
        if service_url.len() > MAX_FIELD_LEN || service_description.len() > MAX_FIELD_LEN
            || service_face_url.len() > MAX_FIELD_LEN {
            return Err(Error::FieldTooLong);
        }
        let ghost sb = self.service_pairs();
        self.services[si] = (ServiceKey { owner: relayer, index: service_count }, Service {
            service_url,
            service_description,
            service_face_url,
            service_fee,
            relayer_share,
        });
        proof {
            assert(self.service_pairs() =~= sb.update(si as int, (service_addr(relayer,
                service_count), service_data@)));
            lemma_kv_update(sb, si as int, (service_addr(relayer, service_count),
                service_data@));
        }
        Ok(())
    }

    /// Reads the relayer record at the address derived from `owner`, if one
    /// is live.
    pub fn get_relayer(&self, owner: Identity) -> (r: Option<&RelayerBase>)
        requires
            self.wf(),
        ensures
            match r {
                Some(b) => self.model().relayers.contains_key(relayer_addr(owner)) && b@
                    == self.model().relayers[relayer_addr(owner)],
                None => !self.model().relayers.contains_key(relayer_addr(owner)),
            },
    {
        proof {
            self.lemma_relayer_view(owner);
        }
        match self.find_relayer(owner) {
            Some(i) => Some(&self.relayers[i].1),
            None => None,
        }
    }

    /// Reads the service counter at the address derived from `owner`, if the
    /// relayer is live.
    pub fn get_service_counter(&self, owner: Identity) -> (r: Option<u64>)
        requires
            self.wf(),
        ensures
            match r {
                Some(c) => self.model().counters.contains_key(counter_addr(owner)) && c
                    == self.model().counters[counter_addr(owner)],
                None => !self.model().counters.contains_key(counter_addr(owner)),
            },
    {
        proof {
            self.lemma_counter_view(owner);
        }
        match self.find_counter(owner) {
            Some(i) => Some(self.counters[i].1.service_counter),
            None => None,
        }
    }

    /// Reads the service record at the address derived from `(owner, index)`,
    /// whether or not its parent relayer is still live.
    pub fn get_service(&self, owner: Identity, index: u64) -> (r: Option<&Service>)
        requires
            self.wf(),
        ensures
            match r {
                Some(s) => self.model().services.contains_key(service_addr(owner, index)) && s@
                    == self.model().services[service_addr(owner, index)],
                None => !self.model().services.contains_key(service_addr(owner, index)),
            },
    {
        proof {
            self.lemma_service_view(owner, index);
        }
        match self.find_service(owner, index) {
            Some(i) => Some(&self.services[i].1),
            None => None,
        }
    }

    /// Reads `owner`'s spendable balance; an absent wallet holds nothing.
    pub fn balance_of(&self, owner: Identity) -> (r: u64)
        requires
            self.wf(),
        ensures
            r as int == wallet_of(self.model(), owner),
    {
        proof {
            self.lemma_wallet_view(owner);
        }
        match self.find_wallet(owner) {
            Some(i) => self.wallets[i].1,
            None => 0,
        }
    }
}

} // verus!
