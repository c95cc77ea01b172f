//! The wire codec for the plaintext protocols: command lines and client
//! replies travel as serialized strings, a `get_links` reply as a
//! serialized list of node identifiers. The serialization itself is
//! bincode's; this module names its results and builds the verified
//! frame-to-command path on top.
use vstd::prelude::*;
use crate::coordinator::Event;
use crate::links::ManCommand;
use crate::parse::{event_matches, parse_client_command, parse_client_spec, parse_management_command,
    parse_management_spec};

verus! {

/// The bytes bincode produces for a string: a function of the characters
/// alone.
pub uninterp spec fn string_wire(s: Seq<char>) -> Seq<u8>;

/// The bytes bincode produces for a list of node identifiers: a function of
/// the list alone.
pub uninterp spec fn links_wire(ids: Seq<u64>) -> Seq<u8>;

/// Relies on bincode::serialize for `str`: with its unlimited default size
/// the encoding cannot fail, and the bytes depend on the characters alone.
#[verifier::external_body]
fn encode_str_raw(s: &str) -> (r: Vec<u8>)
    ensures
        r@ == string_wire(s@),
{
    bincode::serialize(s).unwrap()
}

/// Relies on bincode::deserialize for `String`: decoding the encoding of a
/// string yields that string back. This entry point tolerates trailing
/// bytes, so of any other input nothing is claimed.
#[verifier::external_body]
fn decode_str_raw(buf: &[u8]) -> (r: Option<String>)
    ensures
        match r {
            Some(out) => forall|s: Seq<char>| buf@ == string_wire(s) ==> out@ == s,
            None => forall|s: Seq<char>| buf@ != string_wire(s),
        },
{
    bincode::deserialize::<String>(buf).ok()
}

/// Relies on bincode::serialize for `Vec<u64>`: with its unlimited default
/// size the encoding cannot fail, and the bytes depend on the list alone.
#[verifier::external_body]
fn encode_links_raw(ids: &Vec<u64>) -> (r: Vec<u8>)
    ensures
        r@ == links_wire(ids@),
{
    bincode::serialize(ids).unwrap()
}

/// Relies on bincode::deserialize for `Vec<u64>`: decoding the encoding of
/// a list yields that list back; of any other input nothing is claimed.
#[verifier::external_body]
fn decode_links_raw(buf: &[u8]) -> (r: Option<Vec<u64>>)
    ensures
        match r {
            Some(out) => forall|ids: Seq<u64>| buf@ == links_wire(ids) ==> out@ == ids,
            None => forall|ids: Seq<u64>| buf@ != links_wire(ids),
        },
{
    bincode::deserialize::<Vec<u64>>(buf).ok()
}

/// Frame a line of text — a command or a client reply — for the wire.
pub fn encode_text(s: &str) -> (r: Vec<u8>)
    ensures
        r@ == string_wire(s@),
{
    encode_str_raw(s)
}

/// Recover a line of text from a wire frame.
pub fn decode_text(buf: &[u8]) -> (r: Option<String>)
    ensures
        match r {
            Some(out) => forall|s: Seq<char>| buf@ == string_wire(s) ==> out@ == s,
            None => forall|s: Seq<char>| buf@ != string_wire(s),
        },
{
    decode_str_raw(buf)
}

/// Frame a `get_links` reply for the wire.
pub fn encode_links_response(ids: &Vec<u64>) -> (r: Vec<u8>)
    ensures
        r@ == links_wire(ids@),
{
    encode_links_raw(ids)
}

/// Recover a `get_links` reply from a wire frame.
pub fn decode_links_response(buf: &[u8]) -> (r: Option<Vec<u64>>)
    ensures
        match r {
            Some(out) => forall|ids: Seq<u64>| buf@ == links_wire(ids) ==> out@ == ids,
            None => forall|ids: Seq<u64>| buf@ != links_wire(ids),
        },
{
    decode_links_raw(buf)
}

/// Whether `r` is what the client command line `s` asks for.
pub open spec fn frame_denotes_client_event(r: Option<Event>, s: Seq<char>) -> bool {
    match r {
        Some(ev) => parse_client_spec(s) matches Some(c) && event_matches(ev, c),
        None => parse_client_spec(s) is None,
    }
}

/// Turn one frame from the client command port into the coordinator event
/// it asks for; a frame that decodes to no known command is noise and is
/// discarded.
pub fn client_event_from_frame(buf: &[u8]) -> (r: Option<Event>)
    ensures
        forall|s: Seq<char>| buf@ == string_wire(s) ==> frame_denotes_client_event(r, s),
{
    match decode_text(buf) {
        Some(line) => parse_client_command(line.as_str()),
        None => None,
    }
}

/// Turn one frame from the management port into the management command it
/// asks for; undecodable or unknown frames are noise and are discarded.
pub fn management_command_from_frame(buf: &[u8]) -> (r: Option<ManCommand>)
    ensures
        forall|s: Seq<char>| buf@ == string_wire(s) ==> r == parse_management_spec(s),
{
    match decode_text(buf) {
        Some(line) => parse_management_command(line.as_str()),
        None => None,
    }
}

} // verus!
