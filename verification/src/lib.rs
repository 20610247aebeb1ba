//! A directory service for network relayers and the metered services they
//! advertise, modelled as state-mutating logic atop a replicated transactional
//! store (a ledger).
//!
//! The library has four parts:
//! - the address deriver: a pure function mapping an owner identity plus a
//!   role tag (and, for services, a numeric index) to a unique storage
//!   address ([`addr`]);
//! - the record types held at those addresses ([`records`]);
//! - a mathematical model of the store and the five operations as
//!   transition functions over it ([`model`]);
//! - the executable ledger, whose operations are proved to refine those
//!   transitions ([`ledger`]), and proof functions stating the laws the
//!   operations obey together ([`laws`]).

pub mod addr;
pub mod error;
pub mod kvmap;
pub mod ledger;
pub mod model;
pub mod records;
pub mod laws;
