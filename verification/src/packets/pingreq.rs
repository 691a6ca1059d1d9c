//! The MQTT PINGREQ packet over the buffered reader and writer.

use crate::coding::{Reader, Writer};
use crate::error::{kind_of, ErrorKind, MqttError};
use crate::packets::{no_flags, signal_bytes};
use crate::wire::{parse_constant, parse_header};
use vstd::prelude::*;

verus! {

/// An MQTT PINGREQ packet for the buffered reader and writer
#[derive(Debug, Clone)]
pub struct MqttPingreq {}

impl MqttPingreq {
    /// The packet type constant
    pub const TYPE: u8 = 12;

    /// Creates a new packet
    pub fn new() -> (r: Self) {
        Self {  }
    }

    /// Reads the packet from the given reader: the expected header byte,
    /// then a remaining length of exactly zero
    pub fn read(source: &mut Reader) -> (r: Result<Self, MqttError>)
        requires
            old(source).wf(),
        ensures
            (*final(source)).wf(),
            match parse_header(old(source).remaining()) {
                Ok(p) => if p.0.0 == 12 {
                    match parse_constant(seq![0u8], p.1) {
                        Ok(rest) => r is Ok && (*final(source)).remaining() == rest,
                        Err(k) => r matches Err(e) && e.kind == kind_of(k),
                    }
                } else {
                    r matches Err(e) && e.kind == ErrorKind::InvalidValue
                },
                Err(k) => r matches Err(e) && e.kind == kind_of(k),
            },
    {
        let expected: u8 = Self::TYPE;
        match source.read_header(&expected) {
            Ok(_) => (),
            Err(e) => {
                return Err(e);
            },
        }
        let body_len: Vec<u8> = vec![0u8];
        proof {
            assert(body_len@ =~= seq![0u8]);
        }
        match source.read_constant(body_len.as_slice()) {
            Ok(_) => (),
            Err(e) => {
                return Err(e);
            },
        }
        Ok(Self {  })
    }

    /// Writes the packet into the given sink
    pub fn write(self, sink: Vec<u8>) -> (r: Result<Vec<u8>, MqttError>)
        ensures
            r matches Ok(v) && v@ == sink@ + signal_bytes(12),
    {
        let writer = Writer::new(sink);
        let ghost pre = writer@;
        let writer = match writer.write_header(Self::TYPE, [false, false, false, false]) {
            Ok(w) => w,
            Err(e) => {
                return Err(e);
            },
        };
        let body_len: Vec<u8> = vec![0u8];
        proof {
            assert(body_len@ =~= seq![0u8]);
        }
        let writer = match writer.write_array(body_len.as_slice()) {
            Ok(w) => w,
            Err(e) => {
                return Err(e);
            },
        };
        let out = match writer.finalize() {
            Ok(v) => v,
            Err(e) => {
                return Err(e);
            },
        };
        proof {
            assert([false, false, false, false]@ =~= no_flags());
            assert(out@ =~= pre + signal_bytes(12));
        }
        Ok(out)
    }
}

} // verus!
