//! A deterministic binary codec for consensus data: fixed-width little-endian
//! scalars, lists and containers laid out with a table of four-byte offsets,
//! together with the chain constants that are its most visible consumer.

pub mod error;
pub mod le;
pub mod layout;
pub mod layout_laws;
pub mod schema;
pub mod value;
pub mod codec;
pub mod encode;
pub mod split;
pub mod decode;
pub mod checked;
pub mod laws;
pub mod chain_spec;
pub mod client_config;

pub use crate::chain_spec::{ChainSpec, Domain, Epoch, Fork, Hash256, Slot};
pub use crate::client_config::{ClientConfig, DBType};
pub use crate::checked::{checked_decode, checked_encode};
pub use crate::decode::decode;
pub use crate::encode::encode;
pub use crate::error::DecodeError;
pub use crate::schema::{Schema, SizeClass};
pub use crate::value::Value;
