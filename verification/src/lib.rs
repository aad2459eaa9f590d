//! Core of a client-side chat participant: the wire envelope codec, the
//! synchronizer that keeps the local roster and message log consistent with
//! the server's pushes, and the notification bus that relays state changes
//! to observers.

mod bus;
mod client;
mod codec;
mod sync;
mod trusted;

pub use bus::Bus;
pub use bus::Subscription;
pub use client::Chat;
pub use codec::ChatMessage;
pub use codec::DecodeError;
pub use codec::Envelope;
pub use codec::MsgTypes;
pub use codec::decode;
pub use codec::decode_message_payload;
pub use codec::encode;
pub use codec::encode_message_payload;
pub use sync::ChatState;
pub use sync::Notification;
pub use sync::Phase;
pub use sync::Synchronizer;
pub use sync::UserProfile;
pub use sync::derive_avatar;
