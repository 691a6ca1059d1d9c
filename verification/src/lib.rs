//! A tiny MQTT v3.1.1 packet codec.
//!
//! The crate frames and parses the fourteen MQTT control packets: a pull
//! decoder consumes a byte buffer, a push encoder emits a byte buffer, and a
//! length meter predicts the encoded size so the remaining-length field can be
//! written before the body.  The `wire` module states the wire grammar as
//! mathematical functions over byte sequences; every encoder and decoder is
//! verified against those functions.

pub mod anyvec;
pub mod coding;
pub mod error;
pub mod laws;
pub mod packets;
pub mod text;
pub mod wire;

pub use anyvec::ByteBuf;
pub use error::MqttError;
pub use packets::acklike::{Puback, Pubcomp, Pubrec, Pubrel, Suback, Unsuback};
pub use packets::connack::Connack;
pub use packets::connect::Connect;
pub use packets::disconnect::MqttDisconnect;
pub use packets::packet::Packet;
pub use packets::pingreq::MqttPingreq;
pub use packets::publish::Publish;
pub use packets::signal::{Disconnect, Pingreq, Pingresp};
pub use packets::subscribe::Subscribe;
pub use packets::unsubscribe::Unsubscribe;
