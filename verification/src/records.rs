//! The record types the ledger stores, and their mathematical models.
//!
//! String fields hold UTF-8 bytes and are capacity-bounded to
//! [`MAX_FIELD_LEN`] bytes at allocation time. Each record type has a model
//! struct over `Seq<u8>`, reached through the `View` (`@`) operator, which the
//! contracts and the transition functions speak of.

use vstd::prelude::*;
use crate::addr::Identity;

verus! {

/// The capacity, in bytes, of every bounded string field.
pub const MAX_FIELD_LEN: usize = 200;

/// The fixed escrow deposit a relayer locks at registration, in smallest
/// currency units, and the exact amount refunded at deregistration.
pub const LOCKED_FEE: u64 = 2_000_000_000;

/// The relayer's base record: one per registered relayer identity.
pub struct RelayerBase {
    /// Where the relayer can be reached; the only field the owner may rewrite.
    pub connection_url: Vec<u8>,
    /// The owning identity; immutable after creation.
    pub relayer: Identity,
    /// The escrow deposit locked at creation; set once, refunded in full.
    pub locked_fee: u64,
}

/// The relayer's service counter record, created and destroyed together with
/// its [`RelayerBase`].
pub struct ServiceBase {
    /// Counts successful service creations; starts at 0, grows by exactly 1
    /// each time, and a consumed value is never reused.
    pub service_counter: u64,
}

/// One advertised service: created at the address derived from the counter
/// value in effect at creation time.
pub struct Service {
    pub service_url: Vec<u8>,
    pub service_description: Vec<u8>,
    pub service_face_url: Vec<u8>,
    /// The advertised fee, in smallest currency units; no range validation.
    pub service_fee: u64,
    /// The relayer's intended share, as a percentage; no range validation.
    pub relayer_share: u8,
}

/// The payload a caller hands to service creation and update; copied verbatim
/// into the [`Service`] record.
pub struct ServiceData {
    pub service_url: Vec<u8>,
    pub service_description: Vec<u8>,
    pub service_face_url: Vec<u8>,
    pub service_fee: u64,
    pub relayer_share: u8,
}

/// The model of a [`RelayerBase`] record.
pub struct RelayerModel {
    pub connection_url: Seq<u8>,
    pub relayer: Identity,
    pub locked_fee: u64,
}

/// The model of a [`Service`] record, and equally of a [`ServiceData`]
/// payload: creation and update copy the payload verbatim.
pub struct ServiceModel {
    pub service_url: Seq<u8>,
    pub service_description: Seq<u8>,
    pub service_face_url: Seq<u8>,
    pub service_fee: u64,
    pub relayer_share: u8,
}

impl View for RelayerBase {
    type V = RelayerModel;

    open spec fn view(&self) -> RelayerModel {
        RelayerModel {
            connection_url: self.connection_url@,
            relayer: self.relayer,
            locked_fee: self.locked_fee,
        }
    }
}

impl View for Service {
    type V = ServiceModel;

    open spec fn view(&self) -> ServiceModel {
        ServiceModel {
            service_url: self.service_url@,
            service_description: self.service_description@,
            service_face_url: self.service_face_url@,
            service_fee: self.service_fee,
            relayer_share: self.relayer_share,
        }
    }
}

impl View for ServiceData {
    type V = ServiceModel;

    open spec fn view(&self) -> ServiceModel {
        ServiceModel {
            service_url: self.service_url@,
            service_description: self.service_description@,
            service_face_url: self.service_face_url@,
            service_fee: self.service_fee,
            relayer_share: self.relayer_share,
        }
    }
}

/// A stored relayer record is well formed: its deposit is the fixed fee and
/// its url fits the bounded capacity.
pub open spec fn relayer_model_wf(m: RelayerModel) -> bool {
    &&& m.locked_fee == LOCKED_FEE
    &&& m.connection_url.len() <= MAX_FIELD_LEN
}

/// A service payload (or stored record) fits the bounded capacities.
pub open spec fn service_model_wf(m: ServiceModel) -> bool {
    &&& m.service_url.len() <= MAX_FIELD_LEN
    &&& m.service_description.len() <= MAX_FIELD_LEN
    &&& m.service_face_url.len() <= MAX_FIELD_LEN
}

} // verus!
