//! The address deriver: a deterministic, collision-free mapping from an owner
//! identity plus a role tag (and, for service records, a numeric index) to a
//! storage address.
//!
//! The surrounding store hashes these seeds into an opaque key; the ledger
//! logic depends only on the mapping being deterministic and injective, so an
//! address is represented here by the seed tuple itself, which makes both
//! properties provable.

use vstd::prelude::*;

verus! {

/// A fixed-size (256-bit) public identity, standing for the signing key that
/// owns records in the store.
#[derive(Clone, Copy, Debug, PartialEq, Eq, Hash, Structural)]
pub struct Identity {
    pub hi: u128,
    pub lo: u128,
}

/// The role a derived address plays: the relayer's base record, its service
/// counter, or one of its service records.
#[derive(Clone, Copy, Debug, PartialEq, Eq, Hash, Structural)]
pub enum RoleTag {
    RelayerBase,
    ServiceBase,
    Service,
}

/// A derived storage address. Distinct seed tuples give distinct addresses,
/// and the same seeds always give the same address.
#[derive(Clone, Copy, Debug, PartialEq, Eq, Hash, Structural)]
pub enum Addr {
    RelayerBase { owner: Identity },
    ServiceBase { owner: Identity },
    Service { owner: Identity, index: u64 },
}

/// The address of an owner's relayer record.
pub open spec fn relayer_addr(owner: Identity) -> Addr {
    Addr::RelayerBase { owner }
}

/// The address of an owner's service counter record.
pub open spec fn counter_addr(owner: Identity) -> Addr {
    Addr::ServiceBase { owner }
}

/// The address of the service record an owner created while its counter
/// stood at `index`.
pub open spec fn service_addr(owner: Identity, index: u64) -> Addr {
    Addr::Service { owner, index }
}

/// What `derive` returns: an address for every well-formed seed tuple, and
/// nothing for a malformed one (an index given with a base tag, or a service
/// tag without an index).
pub open spec fn spec_derive(owner: Identity, tag: RoleTag, index: Option<u64>) -> Option<Addr> {
    match (tag, index) {
        (RoleTag::RelayerBase, None) => Some(relayer_addr(owner)),
        (RoleTag::ServiceBase, None) => Some(counter_addr(owner)),
        (RoleTag::Service, Some(i)) => Some(service_addr(owner, i)),
        _ => None,
    }
}

/// Derives the storage address for `(owner, tag, index)`. Deterministic and
/// free of side effects; fails exactly on malformed seed tuples.
pub fn derive(owner: Identity, tag: RoleTag, index: Option<u64>) -> (r: Option<Addr>)
    ensures
        r == spec_derive(owner, tag, index),
{
    match (tag, index) {
        (RoleTag::RelayerBase, None) => Some(Addr::RelayerBase { owner }),
        (RoleTag::ServiceBase, None) => Some(Addr::ServiceBase { owner }),
        (RoleTag::Service, Some(i)) => Some(Addr::Service { owner, index: i }),
        _ => None,
    }
}

/// Distinct well-formed seed tuples derive distinct addresses: the address
/// space has no collisions, so no central allocator is needed.
pub proof fn lemma_derive_injective(
    o1: Identity,
    t1: RoleTag,
    i1: Option<u64>,
    o2: Identity,
    t2: RoleTag,
    i2: Option<u64>,
)
    requires
        spec_derive(o1, t1, i1) is Some,
        spec_derive(o1, t1, i1) == spec_derive(o2, t2, i2),
    ensures
        o1 == o2,
        t1 == t2,
        i1 == i2,
{
}

} // verus!
