//! One step of a connection session: decode a frame, dispatch it, encode the
//! reply. The surrounding loop — reading bytes, writing replies — is I/O and
//! stays with the caller.

use vstd::prelude::*;

use crate::commands::{dispatch, dispatch_model, encode_reply, encode_reply_model, ReplicationConfig};
use crate::protocol::{parse_data_type, parse_frame, DecodeError, ParseResult};
use crate::store::Store;

verus! {

/// Serves exactly one request from `buf` at `pos`: decodes one frame,
/// dispatches it against store and configuration, and returns the reply's
/// wire bytes with the position just past the request. An `Incomplete` error
/// asks for more bytes first; either error leaves the store untouched.
pub fn session_step(
    buf: &Vec<u8>,
    pos: usize,
    store: &mut Store,
    config: &ReplicationConfig,
    now: u64,
) -> (r: Result<(Vec<u8>, usize), DecodeError>)
    requires
        pos <= buf@.len(),
        old(store).wf(),
    ensures
        final(store).wf(),
        match r {
            Ok(p) => parse_frame(buf@, pos as int) matches ParseResult::Parsed(f, next)
                && next == p.1 && pos < p.1 <= buf@.len() && p.0@ == encode_reply_model(
                dispatch_model(f, old(store)@, config@, now).0,
            ) && final(store)@ == dispatch_model(f, old(store)@, config@, now).1,
            Err(DecodeError::Incomplete) => parse_frame(buf@, pos as int)
                == ParseResult::Incomplete && final(store)@ == old(store)@,
            Err(DecodeError::Malformed) => parse_frame(buf@, pos as int)
                == ParseResult::Malformed && final(store)@ == old(store)@,
        },
{
    match parse_data_type(buf, pos) {
        Ok((frame, next)) => {
            let reply = dispatch(&frame, store, config, now);
            let out = encode_reply(&reply);
            Ok((out, next))
        },
        Err(e) => Err(e),
    }
}

} // verus!
