//! Text handling for the buffered reader and writer.
//!
//! MQTT strings travel as length-prefixed UTF-8 bytes.  The byte encoding of
//! a string is `vstd`'s UTF-8 model (`encode_utf8` of its characters); the
//! standard library's checked conversion back is relied on through the one
//! trusted item below.

use crate::error::Decoding;
use crate::wire::{parse_bytes_field, parse_u8, topics_bytes};
use vstd::prelude::*;
use vstd::utf8::{decode_utf8, valid_utf8};

verus! {

/// Relies on String::from_utf8: the conversion succeeds exactly on valid
/// UTF-8 and yields the decoded characters.
#[verifier::external_body]
pub(crate) fn bytes_to_string(b: Vec<u8>) -> (r: Option<String>)
    ensures
        match r {
            Some(s) => valid_utf8(b@) && s@ == decode_utf8(b@),
            None => !valid_utf8(b@),
        },
{
    match String::from_utf8(b) {
        Ok(s) => Some(s),
        Err(_) => None,
    }
}

/// The UTF-8 bytes of a character sequence
pub open spec fn utf8_of(s: Seq<char>) -> Seq<u8> {
    vstd::utf8::encode_utf8(s)
}

/// The wire bytes of a list of string topics
pub open spec fn string_topics_bytes(ts: Seq<Seq<char>>) -> Seq<u8> {
    topics_bytes(ts.map_values(|cs: Seq<char>| utf8_of(cs)))
}

/// The character sequences stored in a vector of strings
pub open spec fn strings_view(ts: Seq<String>) -> Seq<Seq<char>> {
    ts.map_values(|s: String| s@)
}

/// The character sequences and QoS bytes stored in a vector of pairs
pub open spec fn string_pairs_view(ts: Seq<(String, u8)>) -> Seq<(Seq<char>, u8)> {
    ts.map_values(|p: (String, u8)| (p.0@, p.1))
}

/// Reads length-prefixed UTF-8 topics until the region is exhausted
pub open spec fn parse_string_topics(s: Seq<u8>) -> Result<Seq<Seq<char>>, Decoding>
    decreases s.len(),
{
    if s.len() == 0 {
        Ok(Seq::empty())
    } else {
        match parse_bytes_field(s) {
            Ok((b, rest)) => {
                if valid_utf8(b) {
                    match parse_string_topics(rest) {
                        Ok(tail) => Ok(seq![decode_utf8(b)] + tail),
                        Err(k) => Err(k),
                    }
                } else {
                    Err(Decoding::SpecViolation)
                }
            },
            Err(k) => Err(k),
        }
    }
}

/// Reads length-prefixed UTF-8 topics, each followed by a QoS byte, until
/// the region is exhausted
pub open spec fn parse_string_topics_qos(s: Seq<u8>) -> Result<Seq<(Seq<char>, u8)>, Decoding>
    decreases s.len(),
{
    if s.len() == 0 {
        Ok(Seq::empty())
    } else {
        match parse_bytes_field(s) {
            Ok((b, rest)) => {
                if valid_utf8(b) {
                    match parse_u8(rest) {
                        Ok((qos, rest2)) => match parse_string_topics_qos(rest2) {
                            Ok(tail) => Ok(seq![(decode_utf8(b), qos)] + tail),
                            Err(k) => Err(k),
                        },
                        Err(k) => Err(k),
                    }
                } else {
                    Err(Decoding::SpecViolation)
                }
            },
            Err(k) => Err(k),
        }
    }
}

} // verus!
