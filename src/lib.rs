//! A registry of customer KYC records kept in one fixed-capacity byte slot.
//!
//! `record` holds the record types and their mathematical views, `codec` the
//! persisted binary form of a registry, `engine` the commands that are applied
//! to a slot, and `laws` what holds of them across calls.

pub mod codec;
pub mod engine;
pub mod laws;
pub mod record;

pub use codec::{decode_registry, encode_registry, load_registry};
pub use engine::{
    apply, create_customer, handle, parse_command, payload_text, update_customer, Command,
    EngineError, Envelope,
};
pub use record::{AddressData, CustomerData, CustomerDataList, KycDocument};
