//! A codec for the STUN binary wire protocol.
//!
//! A [`Message`] is built from a class, a method and a list of attributes,
//! written into its canonical byte layout, and read back from received bytes
//! into a validated value. The functions carry contracts over mathematical
//! models of the wire format, and the contracts are machine-checked.

pub mod address;
pub mod algorithm;
pub mod attribute;
pub mod builder;
pub mod client;
pub mod crc;
pub mod error;
pub mod message;
pub mod message_type;
pub mod roundtrip;
pub mod transaction_id;
pub mod wire;

pub use address::{IpAddress, SocketAddress};
pub use algorithm::PasswordAlgorithm;
pub use attribute::Attribute;
pub use builder::MessageBuilder;
pub use client::Client;
pub use error::{DecodeError, EncodeError};
pub use message::Message;
pub use message_type::{pack, MessageClass, MessageType, Method};
pub use transaction_id::TransactionId;
