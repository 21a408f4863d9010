//! The version probe.
//!
//! Asking the service for its version is a health check, so its outcome is
//! always a string: the version on success, and otherwise the failure's own
//! message.  The caller performs the one request/reply exchange and hands
//! the outcome here; this function never fails.
use vstd::prelude::*;
use crate::rows::{decode_string_reply, parse_str_value};

verus! {

/// The fixed note reported when the service's reply is not a string:
/// the bytes of `"invalid reply from service"`.
pub open spec fn malformed_reply_note() -> Seq<u8> {
    seq![105u8, 110u8, 118u8, 97u8, 108u8, 105u8, 100u8, 32u8, 114u8, 101u8, 112u8, 108u8, 121u8, 32u8, 102u8, 114u8, 111u8, 109u8, 32u8, 115u8, 101u8, 114u8, 118u8, 105u8, 99u8, 101u8]
}

fn malformed_note_bytes() -> (out: Vec<u8>)
    ensures
        out@ == malformed_reply_note(),
{
    let mut out: Vec<u8> = Vec::new();
    out.push(105);
    out.push(110);
    out.push(118);
    out.push(97);
    out.push(108);
    out.push(105);
    out.push(100);
    out.push(32);
    out.push(114);
    out.push(101);
    out.push(112);
    out.push(108);
    out.push(121);
    out.push(32);
    out.push(102);
    out.push(114);
    out.push(111);
    out.push(109);
    out.push(32);
    out.push(115);
    out.push(101);
    out.push(114);
    out.push(118);
    out.push(105);
    out.push(99);
    out.push(101);
    proof {
        assert(out@ =~= malformed_reply_note());
    }
    out
}

/// Interpret the version probe's outcome.  `Ok` carries the reply bytes;
/// `Err` carries the message of a transport failure.  The result is always
/// a plain answer: the decoded version string, the transport failure's
/// message, or a fixed note for an undecodable reply.
pub fn mr_service_result(outcome: Result<Vec<u8>, Vec<u8>>) -> (r: Vec<u8>)
    ensures
        match outcome {
            Ok(reply) => match parse_str_value(reply@) {
                Some(s) => r@ == s,
                None => r@ == malformed_reply_note(),
            },
            Err(m) => r@ == m@,
        },
{
    match outcome {
        Ok(reply) => match decode_string_reply(reply.as_slice()) {
            Some(s) => s,
            None => malformed_note_bytes(),
        },
        Err(m) => m,
    }
}

} // verus!
