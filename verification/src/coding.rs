//! Packet coding: the pull decoder, the push encoder, the length meter, and
//! the buffered reader and writer built on the same wire grammar.

pub mod counter;
pub mod decoder;
pub mod encoder;
pub mod length;
pub mod reader;
pub mod writer;

pub use counter::Length;
pub use decoder::Decoder;
pub use encoder::Encoder;
pub use reader::Reader;
pub use writer::Writer;
