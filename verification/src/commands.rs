//! The command dispatcher: interprets one decoded frame as a command against
//! the keyed store and the replication configuration, and produces the reply.

use vstd::prelude::*;

use crate::protocol::{
    all_digits, crlf, dec_digits, digits_val, encode, encode_frame, lemma_array_model,
    lemma_dec_digits_len_u64, lemma_dec_digits_shape, lemma_digits_line_ok,
    lemma_line_ok_concat, line_ok, parse_digits, push_digits, seq_models, wf_frame, DataType,
    FrameModel,
};
use crate::store::{store_lookup, store_model_wf, store_set_model, EntryModel, Store};
use crate::text::{append_bytes, append_slice, copy_bytes, eq_slice, lower_bytes, to_lower};

verus! {

/// Text of the name of the liveness command: `'ping'`.
pub open spec fn cmd_ping() -> Seq<u8> {
    seq!['p' as u8, 'i' as u8, 'n' as u8, 'g' as u8]
}

/// Text of the name of the echo command: `'echo'`.
pub open spec fn cmd_echo() -> Seq<u8> {
    seq!['e' as u8, 'c' as u8, 'h' as u8, 'o' as u8]
}

/// Text of the name of the store-write command: `'set'`.
pub open spec fn cmd_set() -> Seq<u8> {
    seq!['s' as u8, 'e' as u8, 't' as u8]
}

/// Text of the name of the store-read command: `'get'`.
pub open spec fn cmd_get() -> Seq<u8> {
    seq!['g' as u8, 'e' as u8, 't' as u8]
}

/// Text of the name of the server-information command: `'info'`.
pub open spec fn cmd_info() -> Seq<u8> {
    seq!['i' as u8, 'n' as u8, 'f' as u8, 'o' as u8]
}

/// Text of the name of the replication-configuration command: `'replconf'`.
pub open spec fn cmd_replconf() -> Seq<u8> {
    seq!['r' as u8, 'e' as u8, 'p' as u8, 'l' as u8, 'c' as u8, 'o' as u8, 'n' as u8, 'f' as u8]
}

/// Text of the name of the resynchronization command: `'psync'`.
pub open spec fn cmd_psync() -> Seq<u8> {
    seq!['p' as u8, 's' as u8, 'y' as u8, 'n' as u8, 'c' as u8]
}

/// Text of the millisecond-expiry option of SET: `'px'`.
pub open spec fn opt_px() -> Seq<u8> {
    seq!['p' as u8, 'x' as u8]
}

/// Text of the one INFO section this core implements: `'replication'`.
pub open spec fn sec_replication() -> Seq<u8> {
    seq!['r' as u8, 'e' as u8, 'p' as u8, 'l' as u8, 'i' as u8, 'c' as u8, 'a' as u8, 't' as u8, 'i' as u8, 'o' as u8, 'n' as u8]
}

/// Text of the PONG status text: `'PONG'`.
pub open spec fn txt_pong() -> Seq<u8> {
    seq!['P' as u8, 'O' as u8, 'N' as u8, 'G' as u8]
}

/// Text of the OK status text: `'OK'`.
pub open spec fn txt_ok() -> Seq<u8> {
    seq!['O' as u8, 'K' as u8]
}

/// Text of the role line label of the INFO replication section: `'role:'`.
pub open spec fn txt_role() -> Seq<u8> {
    seq!['r' as u8, 'o' as u8, 'l' as u8, 'e' as u8, ':' as u8]
}

/// Text of the role name of a primary: `'master'`.
pub open spec fn txt_master() -> Seq<u8> {
    seq!['m' as u8, 'a' as u8, 's' as u8, 't' as u8, 'e' as u8, 'r' as u8]
}

/// Text of the role name of a replica: `'slave'`.
pub open spec fn txt_slave() -> Seq<u8> {
    seq!['s' as u8, 'l' as u8, 'a' as u8, 'v' as u8, 'e' as u8]
}

/// Text of the replication-id line label: `'\r\nmaster_replid:'`.
pub open spec fn txt_replid_label() -> Seq<u8> {
    seq!['\r' as u8, '\n' as u8, 'm' as u8, 'a' as u8, 's' as u8, 't' as u8, 'e' as u8, 'r' as u8, '_' as u8, 'r' as u8, 'e' as u8, 'p' as u8, 'l' as u8, 'i' as u8, 'd' as u8, ':' as u8]
}

/// Text of the replication-offset line label: `'\r\nmaster_repl_offset:'`.
pub open spec fn txt_offset_label() -> Seq<u8> {
    seq!['\r' as u8, '\n' as u8, 'm' as u8, 'a' as u8, 's' as u8, 't' as u8, 'e' as u8, 'r' as u8, '_' as u8, 'r' as u8, 'e' as u8, 'p' as u8, 'l' as u8, '_' as u8, 'o' as u8, 'f' as u8, 'f' as u8, 's' as u8, 'e' as u8, 't' as u8, ':' as u8]
}

/// Text of the full-resynchronization status prefix: `'FULLRESYNC '`.
pub open spec fn txt_fullresync() -> Seq<u8> {
    seq!['F' as u8, 'U' as u8, 'L' as u8, 'L' as u8, 'R' as u8, 'E' as u8, 'S' as u8, 'Y' as u8, 'N' as u8, 'C' as u8, ' ' as u8]
}

/// Text of the reply to a request that is no command array: `'ERR malformed request'`.
pub open spec fn err_malformed() -> Seq<u8> {
    seq!['E' as u8, 'R' as u8, 'R' as u8, ' ' as u8, 'm' as u8, 'a' as u8, 'l' as u8, 'f' as u8, 'o' as u8, 'r' as u8, 'm' as u8, 'e' as u8, 'd' as u8, ' ' as u8, 'r' as u8, 'e' as u8, 'q' as u8, 'u' as u8, 'e' as u8, 's' as u8, 't' as u8]
}

/// Text of the reply to a missing or mistyped argument: `'ERR wrong number of arguments'`.
pub open spec fn err_args() -> Seq<u8> {
    seq!['E' as u8, 'R' as u8, 'R' as u8, ' ' as u8, 'w' as u8, 'r' as u8, 'o' as u8, 'n' as u8, 'g' as u8, ' ' as u8, 'n' as u8, 'u' as u8, 'm' as u8, 'b' as u8, 'e' as u8, 'r' as u8, ' ' as u8, 'o' as u8, 'f' as u8, ' ' as u8, 'a' as u8, 'r' as u8, 'g' as u8, 'u' as u8, 'm' as u8, 'e' as u8, 'n' as u8, 't' as u8, 's' as u8]
}

/// Text of the reply to a non-numeric expiry value: `'ERR invalid expiry'`.
pub open spec fn err_expiry() -> Seq<u8> {
    seq!['E' as u8, 'R' as u8, 'R' as u8, ' ' as u8, 'i' as u8, 'n' as u8, 'v' as u8, 'a' as u8, 'l' as u8, 'i' as u8, 'd' as u8, ' ' as u8, 'e' as u8, 'x' as u8, 'p' as u8, 'i' as u8, 'r' as u8, 'y' as u8]
}

/// Text of the reply to an unrecognized command name: `'ERR unknown command'`.
pub open spec fn err_unknown() -> Seq<u8> {
    seq!['E' as u8, 'R' as u8, 'R' as u8, ' ' as u8, 'u' as u8, 'n' as u8, 'k' as u8, 'n' as u8, 'o' as u8, 'w' as u8, 'n' as u8, ' ' as u8, 'c' as u8, 'o' as u8, 'm' as u8, 'm' as u8, 'a' as u8, 'n' as u8, 'd' as u8]
}

/// Text of the reply to an unimplemented INFO section: `'ERR unknown INFO section'`.
pub open spec fn err_section() -> Seq<u8> {
    seq!['E' as u8, 'R' as u8, 'R' as u8, ' ' as u8, 'u' as u8, 'n' as u8, 'k' as u8, 'n' as u8, 'o' as u8, 'w' as u8, 'n' as u8, ' ' as u8, 'I' as u8, 'N' as u8, 'F' as u8, 'O' as u8, ' ' as u8, 's' as u8, 'e' as u8, 'c' as u8, 't' as u8, 'i' as u8, 'o' as u8, 'n' as u8]
}

/// Appends the PONG status text to `out`.
fn push_txt_pong(out: &mut Vec<u8>)
    ensures
        final(out)@ == old(out)@ + txt_pong(),
{
    let t: [u8; 4] = ['P' as u8, 'O' as u8, 'N' as u8, 'G' as u8];
    append_slice(out, t.as_slice());
    assert(out@ =~= old(out)@ + txt_pong());
}

/// Appends the OK status text to `out`.
fn push_txt_ok(out: &mut Vec<u8>)
    ensures
        final(out)@ == old(out)@ + txt_ok(),
{
    let t: [u8; 2] = ['O' as u8, 'K' as u8];
    append_slice(out, t.as_slice());
    assert(out@ =~= old(out)@ + txt_ok());
}

/// Appends the role line label of the INFO replication section to `out`.
fn push_txt_role(out: &mut Vec<u8>)
    ensures
        final(out)@ == old(out)@ + txt_role(),
{
    let t: [u8; 5] = ['r' as u8, 'o' as u8, 'l' as u8, 'e' as u8, ':' as u8];
    append_slice(out, t.as_slice());
    assert(out@ =~= old(out)@ + txt_role());
}

/// Appends the role name of a primary to `out`.
fn push_txt_master(out: &mut Vec<u8>)
    ensures
        final(out)@ == old(out)@ + txt_master(),
{
    let t: [u8; 6] = ['m' as u8, 'a' as u8, 's' as u8, 't' as u8, 'e' as u8, 'r' as u8];
    append_slice(out, t.as_slice());
    assert(out@ =~= old(out)@ + txt_master());
}

/// Appends the role name of a replica to `out`.
fn push_txt_slave(out: &mut Vec<u8>)
    ensures
        final(out)@ == old(out)@ + txt_slave(),
{
    let t: [u8; 5] = ['s' as u8, 'l' as u8, 'a' as u8, 'v' as u8, 'e' as u8];
    append_slice(out, t.as_slice());
    assert(out@ =~= old(out)@ + txt_slave());
}

/// Appends the replication-id line label to `out`.
fn push_txt_replid_label(out: &mut Vec<u8>)
    ensures
        final(out)@ == old(out)@ + txt_replid_label(),
{
    let t: [u8; 16] = ['\r' as u8, '\n' as u8, 'm' as u8, 'a' as u8, 's' as u8, 't' as u8, 'e' as u8, 'r' as u8, '_' as u8, 'r' as u8, 'e' as u8, 'p' as u8, 'l' as u8, 'i' as u8, 'd' as u8, ':' as u8];
    append_slice(out, t.as_slice());
    assert(out@ =~= old(out)@ + txt_replid_label());
}

/// Appends the replication-offset line label to `out`.
fn push_txt_offset_label(out: &mut Vec<u8>)
    ensures
        final(out)@ == old(out)@ + txt_offset_label(),
{
    let t: [u8; 21] = ['\r' as u8, '\n' as u8, 'm' as u8, 'a' as u8, 's' as u8, 't' as u8, 'e' as u8, 'r' as u8, '_' as u8, 'r' as u8, 'e' as u8, 'p' as u8, 'l' as u8, '_' as u8, 'o' as u8, 'f' as u8, 'f' as u8, 's' as u8, 'e' as u8, 't' as u8, ':' as u8];
    append_slice(out, t.as_slice());
    assert(out@ =~= old(out)@ + txt_offset_label());
}

/// Appends the full-resynchronization status prefix to `out`.
fn push_txt_fullresync(out: &mut Vec<u8>)
    ensures
        final(out)@ == old(out)@ + txt_fullresync(),
{
    let t: [u8; 11] = ['F' as u8, 'U' as u8, 'L' as u8, 'L' as u8, 'R' as u8, 'E' as u8, 'S' as u8, 'Y' as u8, 'N' as u8, 'C' as u8, ' ' as u8];
    append_slice(out, t.as_slice());
    assert(out@ =~= old(out)@ + txt_fullresync());
}

/// Appends the reply to a request that is no command array to `out`.
fn push_err_malformed(out: &mut Vec<u8>)
    ensures
        final(out)@ == old(out)@ + err_malformed(),
{
    let t: [u8; 21] = ['E' as u8, 'R' as u8, 'R' as u8, ' ' as u8, 'm' as u8, 'a' as u8, 'l' as u8, 'f' as u8, 'o' as u8, 'r' as u8, 'm' as u8, 'e' as u8, 'd' as u8, ' ' as u8, 'r' as u8, 'e' as u8, 'q' as u8, 'u' as u8, 'e' as u8, 's' as u8, 't' as u8];
    append_slice(out, t.as_slice());
    assert(out@ =~= old(out)@ + err_malformed());
}

/// Appends the reply to a missing or mistyped argument to `out`.
fn push_err_args(out: &mut Vec<u8>)
    ensures
        final(out)@ == old(out)@ + err_args(),
{
    let t: [u8; 29] = ['E' as u8, 'R' as u8, 'R' as u8, ' ' as u8, 'w' as u8, 'r' as u8, 'o' as u8, 'n' as u8, 'g' as u8, ' ' as u8, 'n' as u8, 'u' as u8, 'm' as u8, 'b' as u8, 'e' as u8, 'r' as u8, ' ' as u8, 'o' as u8, 'f' as u8, ' ' as u8, 'a' as u8, 'r' as u8, 'g' as u8, 'u' as u8, 'm' as u8, 'e' as u8, 'n' as u8, 't' as u8, 's' as u8];
    append_slice(out, t.as_slice());
    assert(out@ =~= old(out)@ + err_args());
}

/// Appends the reply to a non-numeric expiry value to `out`.
fn push_err_expiry(out: &mut Vec<u8>)
    ensures
        final(out)@ == old(out)@ + err_expiry(),
{
    let t: [u8; 18] = ['E' as u8, 'R' as u8, 'R' as u8, ' ' as u8, 'i' as u8, 'n' as u8, 'v' as u8, 'a' as u8, 'l' as u8, 'i' as u8, 'd' as u8, ' ' as u8, 'e' as u8, 'x' as u8, 'p' as u8, 'i' as u8, 'r' as u8, 'y' as u8];
    append_slice(out, t.as_slice());
    assert(out@ =~= old(out)@ + err_expiry());
}

/// Appends the reply to an unrecognized command name to `out`.
fn push_err_unknown(out: &mut Vec<u8>)
    ensures
        final(out)@ == old(out)@ + err_unknown(),
{
    let t: [u8; 19] = ['E' as u8, 'R' as u8, 'R' as u8, ' ' as u8, 'u' as u8, 'n' as u8, 'k' as u8, 'n' as u8, 'o' as u8, 'w' as u8, 'n' as u8, ' ' as u8, 'c' as u8, 'o' as u8, 'm' as u8, 'm' as u8, 'a' as u8, 'n' as u8, 'd' as u8];
    append_slice(out, t.as_slice());
    assert(out@ =~= old(out)@ + err_unknown());
}

/// Appends the reply to an unimplemented INFO section to `out`.
fn push_err_section(out: &mut Vec<u8>)
    ensures
        final(out)@ == old(out)@ + err_section(),
{
    let t: [u8; 24] = ['E' as u8, 'R' as u8, 'R' as u8, ' ' as u8, 'u' as u8, 'n' as u8, 'k' as u8, 'n' as u8, 'o' as u8, 'w' as u8, 'n' as u8, ' ' as u8, 'I' as u8, 'N' as u8, 'F' as u8, 'O' as u8, ' ' as u8, 's' as u8, 'e' as u8, 'c' as u8, 't' as u8, 'i' as u8, 'o' as u8, 'n' as u8];
    append_slice(out, t.as_slice());
    assert(out@ =~= old(out)@ + err_section());
}

/// The canned empty-snapshot payload a primary sends after the FULLRESYNC
/// status: a structurally valid snapshot of an empty store.
pub open spec fn rdb_payload() -> Seq<u8> {
    seq![
        82u8, 69u8, 68u8, 73u8, 83u8, 48u8, 48u8, 49u8, 49u8, 250u8, 9u8, 114u8, 101u8, 100u8,
        105u8, 115u8, 45u8, 118u8, 101u8, 114u8, 5u8, 55u8, 46u8, 50u8, 46u8, 48u8, 250u8,
        10u8, 114u8, 101u8, 100u8, 105u8, 115u8, 45u8, 98u8, 105u8, 116u8, 115u8, 192u8, 64u8,
        250u8, 5u8, 99u8, 116u8, 105u8, 109u8, 101u8, 194u8, 109u8, 8u8, 188u8, 101u8, 250u8,
        8u8, 117u8, 115u8, 101u8, 100u8, 45u8, 109u8, 101u8, 109u8, 194u8, 176u8, 196u8, 16u8,
        0u8, 250u8, 8u8, 97u8, 111u8, 102u8, 45u8, 98u8, 97u8, 115u8, 101u8, 192u8, 0u8, 255u8,
        240u8, 110u8, 59u8, 254u8, 192u8, 255u8, 90u8, 162u8
    ]
}

/// The bytes of the empty-snapshot payload.
fn rdb_bytes() -> (r: Vec<u8>)
    ensures
        r@ == rdb_payload(),
{
    let t: [u8; 88] = [
        82, 69, 68, 73, 83, 48, 48, 49, 49, 250, 9, 114, 101, 100, 105, 115, 45, 118, 101, 114,
        5, 55, 46, 50, 46, 48, 250, 10, 114, 101, 100, 105, 115, 45, 98, 105, 116, 115, 192,
        64, 250, 5, 99, 116, 105, 109, 101, 194, 109, 8, 188, 101, 250, 8, 117, 115, 101, 100,
        45, 109, 101, 109, 194, 176, 196, 16, 0, 250, 8, 97, 111, 102, 45, 98, 97, 115, 101,
        192, 0, 255, 240, 110, 59, 254, 192, 255, 90, 162
    ];
    let mut r: Vec<u8> = Vec::new();
    append_slice(&mut r, t.as_slice());
    assert(r@ =~= rdb_payload());
    r
}

// ---------------------------------------------------------------------------
// Replication configuration
// ---------------------------------------------------------------------------

/// The process's replication identity: its role, its opaque replication id,
/// and its reported replication offset. Immutable after startup.
pub struct ReplicationConfig {
    pub is_replica: bool,
    pub replication_id: Vec<u8>,
    pub replication_offset: u64,
}

/// The model of a replication configuration.
pub struct ConfigModel {
    pub is_replica: bool,
    pub replication_id: Seq<u8>,
    pub replication_offset: u64,
}

impl View for ReplicationConfig {
    type V = ConfigModel;

    open spec fn view(&self) -> ConfigModel {
        ConfigModel {
            is_replica: self.is_replica,
            replication_id: self.replication_id@,
            replication_offset: self.replication_offset,
        }
    }
}

// ---------------------------------------------------------------------------
// Replies
// ---------------------------------------------------------------------------

/// A reply to one request: an ordinary frame or, for PSYNC, a status frame
/// followed by a raw length-prefixed payload without trailing terminator.
#[derive(Debug)]
pub enum Reply {
    Normal(DataType),
    FullResync(DataType, Vec<u8>),
}

/// The model of a reply.
pub enum ReplyModel {
    Normal(FrameModel),
    FullResync(FrameModel, Seq<u8>),
}

impl View for Reply {
    type V = ReplyModel;

    open spec fn view(&self) -> ReplyModel {
        match self {
            Reply::Normal(f) => ReplyModel::Normal(f@),
            Reply::FullResync(f, p) => ReplyModel::FullResync(f@, p@),
        }
    }
}

/// The exact wire bytes of a reply. A full-resync reply appends the payload
/// with a bulk-string-style length header but no trailing terminator.
pub open spec fn encode_reply_model(r: ReplyModel) -> Seq<u8> {
    match r {
        ReplyModel::Normal(f) => encode_frame(f),
        ReplyModel::FullResync(f, p) => encode_frame(f) + seq![36u8] + dec_digits(p.len())
            + crlf() + p,
    }
}

/// Writes a reply out as wire bytes.
pub fn encode_reply(r: &Reply) -> (out: Vec<u8>)
    ensures
        out@ == encode_reply_model(r@),
{
    match r {
        Reply::Normal(f) => encode(f),
        Reply::FullResync(f, p) => {
            let mut out = encode(f);
            out.push(36);
            push_digits(&mut out, p.len() as u64);
            out.push(13);
            out.push(10);
            append_bytes(&mut out, p);
            assert(out@ =~= encode_reply_model(r@));
            out
        },
    }
}

/// An error reply carrying `text`.
pub open spec fn reply_err(text: Seq<u8>) -> ReplyModel {
    ReplyModel::Normal(FrameModel::SimpleError(text))
}

/// A status reply carrying `text`.
pub open spec fn reply_status(text: Seq<u8>) -> ReplyModel {
    ReplyModel::Normal(FrameModel::SimpleString(text))
}

// ---------------------------------------------------------------------------
// What each command does, as a specification
// ---------------------------------------------------------------------------

/// Argument `i` of a request, if it is a bulk string.
pub open spec fn bulk_arg(elems: Seq<FrameModel>, i: int) -> Option<Seq<u8>> {
    if 0 <= i < elems.len() && elems[i] is BulkString {
        Some(elems[i]->BulkString_0)
    } else {
        None
    }
}

/// ECHO returns its bulk-string argument unchanged.
pub open spec fn echo_model(elems: Seq<FrameModel>) -> ReplyModel {
    match bulk_arg(elems, 1) {
        Some(a) => ReplyModel::Normal(FrameModel::BulkString(a)),
        None => reply_err(err_args()),
    }
}

/// GET looks the key up at `now`, honouring expiry; an absent or expired key
/// gives the null bulk string.
pub open spec fn get_model(
    elems: Seq<FrameModel>,
    m: Map<Seq<u8>, EntryModel>,
    now: u64,
) -> ReplyModel {
    match bulk_arg(elems, 1) {
        Some(k) => match store_lookup(m, k, now) {
            Some(v) => ReplyModel::Normal(FrameModel::BulkString(v)),
            None => ReplyModel::Normal(FrameModel::NullBulkString),
        },
        None => reply_err(err_args()),
    }
}

/// SET stores key and value; a `px` option adds a relative expiry in
/// milliseconds, which must be decimal digits. Any other third argument is
/// ignored, as is everything after the option.
pub open spec fn set_model(elems: Seq<FrameModel>, m: Map<Seq<u8>, EntryModel>, now: u64) -> (
    ReplyModel,
    Map<Seq<u8>, EntryModel>,
) {
    match (bulk_arg(elems, 1), bulk_arg(elems, 2)) {
        (Some(k), Some(v)) => {
            if elems.len() >= 4 && elems[3] is BulkString && elems[3]->BulkString_0 == opt_px() {
                match bulk_arg(elems, 4) {
                    Some(ms) => {
                        if ms.len() > 0 && all_digits(ms) && digits_val(ms) <= u64::MAX {
                            (
                                reply_status(txt_ok()),
                                store_set_model(m, k, v, Some(digits_val(ms) as u64), now),
                            )
                        } else {
                            (reply_err(err_expiry()), m)
                        }
                    },
                    None => (reply_err(err_expiry()), m),
                }
            } else {
                (reply_status(txt_ok()), store_set_model(m, k, v, None, now))
            }
        },
        _ => (reply_err(err_args()), m),
    }
}

/// The text of the INFO replication section.
pub open spec fn info_text(cfg: ConfigModel) -> Seq<u8> {
    txt_role() + (if cfg.is_replica {
        txt_slave()
    } else {
        txt_master()
    }) + txt_replid_label() + cfg.replication_id + txt_offset_label() + dec_digits(
        cfg.replication_offset as nat,
    )
}

/// INFO knows the replication section alone.
pub open spec fn info_model(elems: Seq<FrameModel>, cfg: ConfigModel) -> ReplyModel {
    match bulk_arg(elems, 1) {
        Some(sec) => {
            if sec == sec_replication() {
                ReplyModel::Normal(FrameModel::BulkString(info_text(cfg)))
            } else {
                reply_err(err_section())
            }
        },
        None => reply_err(err_args()),
    }
}

/// The FULLRESYNC status line: prefix, replication id, space, offset.
pub open spec fn fullresync_text(cfg: ConfigModel) -> Seq<u8> {
    txt_fullresync() + cfg.replication_id + seq![' ' as u8] + dec_digits(
        cfg.replication_offset as nat,
    )
}

/// PSYNC starts a full resynchronization, whatever its arguments.
pub open spec fn psync_model(cfg: ConfigModel) -> ReplyModel {
    ReplyModel::FullResync(FrameModel::SimpleString(fullresync_text(cfg)), rdb_payload())
}

/// One dispatch step: what reply a request gets and what it does to the
/// store. The command name is matched case-insensitively; a request that is
/// no array of at least one bulk string, and every recognized command with
/// bad arguments, draws an error reply and leaves the store alone.
pub open spec fn dispatch_model(
    req: FrameModel,
    m: Map<Seq<u8>, EntryModel>,
    cfg: ConfigModel,
    now: u64,
) -> (ReplyModel, Map<Seq<u8>, EntryModel>) {
    match req {
        FrameModel::Array(elems) => {
            if elems.len() >= 1 && elems[0] is BulkString {
                let cmd = lower_bytes(elems[0]->BulkString_0);
                if cmd == cmd_ping() {
                    (reply_status(txt_pong()), m)
                } else if cmd == cmd_echo() {
                    (echo_model(elems), m)
                } else if cmd == cmd_set() {
                    set_model(elems, m, now)
                } else if cmd == cmd_get() {
                    (get_model(elems, m, now), m)
                } else if cmd == cmd_info() {
                    (info_model(elems, cfg), m)
                } else if cmd == cmd_replconf() {
                    (reply_status(txt_ok()), m)
                } else if cmd == cmd_psync() {
                    (psync_model(cfg), m)
                } else {
                    (reply_err(err_unknown()), m)
                }
            } else {
                (reply_err(err_malformed()), m)
            }
        },
        _ => (reply_err(err_malformed()), m),
    }
}

// ---------------------------------------------------------------------------
// Replies are well-formed frames
// ---------------------------------------------------------------------------

/// A configuration whose identity can be framed: the replication id avoids
/// the terminator bytes, and leaves room in a reply for the labels and the
/// offset digits.
pub open spec fn config_model_wf(cfg: ConfigModel) -> bool {
    line_ok(cfg.replication_id) && cfg.replication_id.len() + 68 <= usize::MAX
}

/// Every reply the dispatcher produces is a well-formed frame, so by the
/// codec's round trip the client decodes exactly the reply that was sent.
pub proof fn lemma_dispatch_reply_wf(
    req: FrameModel,
    m: Map<Seq<u8>, EntryModel>,
    cfg: ConfigModel,
    now: u64,
)
    requires
        wf_frame(req),
        store_model_wf(m),
        config_model_wf(cfg),
    ensures
        match dispatch_model(req, m, cfg, now).0 {
            ReplyModel::Normal(f) => wf_frame(f),
            ReplyModel::FullResync(f, p) => wf_frame(f) && p.len() <= usize::MAX,
        },
{
    lemma_dec_digits_len_u64(cfg.replication_offset);
    lemma_dec_digits_shape(cfg.replication_offset as nat);
    lemma_digits_line_ok(dec_digits(cfg.replication_offset as nat));
    match req {
        FrameModel::Array(elems) => {
            if elems.len() >= 1 && elems[0] is BulkString {
                let cmd = lower_bytes(elems[0]->BulkString_0);
                if cmd == cmd_echo() {
                    if bulk_arg(elems, 1) is Some {
                        assert(wf_frame(elems[1]));
                    }
                } else if cmd == cmd_psync() {
                    lemma_line_ok_concat(txt_fullresync(), cfg.replication_id);
                    lemma_line_ok_concat(txt_fullresync() + cfg.replication_id, seq![' ' as u8]);
                    lemma_line_ok_concat(
                        txt_fullresync() + cfg.replication_id + seq![' ' as u8],
                        dec_digits(cfg.replication_offset as nat),
                    );
                    assert(fullresync_text(cfg) == (txt_fullresync() + cfg.replication_id + seq![
                        ' ' as u8,
                    ]) + dec_digits(cfg.replication_offset as nat));
                }
            }
        },
        _ => {},
    }
}

// ---------------------------------------------------------------------------
// Executable dispatch
// ---------------------------------------------------------------------------

/// Argument `i` of the request, if it is a bulk string.
fn bulk_of(elems: &Vec<DataType>, i: usize) -> (r: Option<&Vec<u8>>)
    ensures
        match r {
            Some(a) => bulk_arg(seq_models(elems@), i as int) == Some(a@),
            None => bulk_arg(seq_models(elems@), i as int) is None,
        },
{
    if i >= elems.len() {
        return None;
    }
    match &elems[i] {
        DataType::BulkString(a) => Some(a),
        DataType::SimpleString(_) => None,
        DataType::SimpleError(_) => None,
        DataType::Integer(_) => None,
        DataType::NullBulkString => None,
        DataType::Array(_) => None,
    }
}

/// The PONG status reply.
fn reply_pong() -> (r: Reply)
    ensures
        r@ == reply_status(txt_pong()),
{
    let mut v: Vec<u8> = Vec::new();
    push_txt_pong(&mut v);
    Reply::Normal(DataType::SimpleString(v))
}

/// The OK status reply.
fn reply_ok() -> (r: Reply)
    ensures
        r@ == reply_status(txt_ok()),
{
    let mut v: Vec<u8> = Vec::new();
    push_txt_ok(&mut v);
    Reply::Normal(DataType::SimpleString(v))
}

/// The wrong-number-of-arguments error reply.
fn reply_err_args() -> (r: Reply)
    ensures
        r@ == reply_err(err_args()),
{
    let mut v: Vec<u8> = Vec::new();
    push_err_args(&mut v);
    Reply::Normal(DataType::SimpleError(v))
}

/// The malformed-request error reply.
fn reply_err_malformed() -> (r: Reply)
    ensures
        r@ == reply_err(err_malformed()),
{
    let mut v: Vec<u8> = Vec::new();
    push_err_malformed(&mut v);
    Reply::Normal(DataType::SimpleError(v))
}

/// The invalid-expiry error reply.
fn reply_err_expiry() -> (r: Reply)
    ensures
        r@ == reply_err(err_expiry()),
{
    let mut v: Vec<u8> = Vec::new();
    push_err_expiry(&mut v);
    Reply::Normal(DataType::SimpleError(v))
}

/// Replies to ECHO: the bulk-string argument, echoed.
pub fn invoke_echo(elems: &Vec<DataType>) -> (r: Reply)
    ensures
        r@ == echo_model(seq_models(elems@)),
{
    match bulk_of(elems, 1) {
        Some(a) => Reply::Normal(DataType::BulkString(copy_bytes(a))),
        None => reply_err_args(),
    }
}

/// Replies to SET: stores the value, with an expiry when a numeric `px`
/// option follows, and acknowledges with OK.
pub fn invoke_set(elems: &Vec<DataType>, store: &mut Store, now: u64) -> (r: Reply)
    requires
        old(store).wf(),
    ensures
        final(store).wf(),
        r@ == set_model(seq_models(elems@), old(store)@, now).0,
        final(store)@ == set_model(seq_models(elems@), old(store)@, now).1,
{
    let k = match bulk_of(elems, 1) {
        Some(k) => k,
        None => {
            return reply_err_args();
        },
    };
    let v = match bulk_of(elems, 2) {
        Some(v) => v,
        None => {
            return reply_err_args();
        },
    };
    let has_px = match bulk_of(elems, 3) {
        Some(o) => {
            let t: [u8; 2] = ['p' as u8, 'x' as u8];
            let r = eq_slice(o, t.as_slice());
            proof {
                assert(t@ =~= opt_px());
            }
            r
        },
        None => false,
    };
    if has_px {
        match bulk_of(elems, 4) {
            Some(ms) => {
                match parse_digits(ms, 0, ms.len()) {
                    Some(d) => {
                        proof {
                            assert(ms@.subrange(0, ms@.len() as int) =~= ms@);
                        }
                        store.set(copy_bytes(k), copy_bytes(v), Some(d), now);
                        reply_ok()
                    },
                    None => {
                        proof {
                            assert(ms@.subrange(0, ms@.len() as int) =~= ms@);
                        }
                        reply_err_expiry()
                    },
                }
            },
            None => reply_err_expiry(),
        }
    } else {
        store.set(copy_bytes(k), copy_bytes(v), None, now);
        reply_ok()
    }
}

/// Replies to GET: the stored value, or the null bulk string when the key is
/// absent or its entry expired.
pub fn invoke_get(elems: &Vec<DataType>, store: &Store, now: u64) -> (r: Reply)
    requires
        store.wf(),
    ensures
        r@ == get_model(seq_models(elems@), store@, now),
{
    match bulk_of(elems, 1) {
        Some(k) => match store.get(k, now) {
            Some(v) => Reply::Normal(DataType::BulkString(v)),
            None => Reply::Normal(DataType::NullBulkString),
        },
        None => reply_err_args(),
    }
}

/// Replies to INFO: the replication section as a bulk string.
pub fn invoke_info(elems: &Vec<DataType>, config: &ReplicationConfig) -> (r: Reply)
    ensures
        r@ == info_model(seq_models(elems@), config@),
{
    match bulk_of(elems, 1) {
        Some(sec) => {
            let t: [u8; 11] = [
                'r' as u8,
                'e' as u8,
                'p' as u8,
                'l' as u8,
                'i' as u8,
                'c' as u8,
                'a' as u8,
                't' as u8,
                'i' as u8,
                'o' as u8,
                'n' as u8,
            ];
            proof {
                assert(t@ =~= sec_replication());
            }
            if eq_slice(sec, t.as_slice()) {
                let mut text: Vec<u8> = Vec::new();
                push_txt_role(&mut text);
                if config.is_replica {
                    push_txt_slave(&mut text);
                } else {
                    push_txt_master(&mut text);
                }
                push_txt_replid_label(&mut text);
                append_bytes(&mut text, &config.replication_id);
                push_txt_offset_label(&mut text);
                push_digits(&mut text, config.replication_offset);
                assert(text@ =~= info_text(config@));
                Reply::Normal(DataType::BulkString(text))
            } else {
                let mut v: Vec<u8> = Vec::new();
                push_err_section(&mut v);
                Reply::Normal(DataType::SimpleError(v))
            }
        },
        None => reply_err_args(),
    }
}

/// Replies to PSYNC: the FULLRESYNC status and the empty-snapshot payload.
pub fn invoke_psync(config: &ReplicationConfig) -> (r: Reply)
    ensures
        r@ == psync_model(config@),
{
    let mut text: Vec<u8> = Vec::new();
    push_txt_fullresync(&mut text);
    append_bytes(&mut text, &config.replication_id);
    text.push(' ' as u8);
    push_digits(&mut text, config.replication_offset);
    assert(text@ =~= fullresync_text(config@));
    Reply::FullResync(DataType::SimpleString(text), rdb_bytes())
}

/// Dispatches one request frame: runs the command against the store and the
/// configuration and returns the reply that goes back on the wire.
pub fn dispatch(req: &DataType, store: &mut Store, config: &ReplicationConfig, now: u64) -> (r:
    Reply)
    requires
        old(store).wf(),
    ensures
        final(store).wf(),
        r@ == dispatch_model(req@, old(store)@, config@, now).0,
        final(store)@ == dispatch_model(req@, old(store)@, config@, now).1,
{
    match req {
        DataType::Array(elems) => {
            proof {
                lemma_array_model(*elems);
            }
            match bulk_of(elems, 0) {
                Some(name) => {
                    let cmd = to_lower(name);
                    let t_ping: [u8; 4] = ['p' as u8, 'i' as u8, 'n' as u8, 'g' as u8];
                    let t_echo: [u8; 4] = ['e' as u8, 'c' as u8, 'h' as u8, 'o' as u8];
                    let t_set: [u8; 3] = ['s' as u8, 'e' as u8, 't' as u8];
                    let t_get: [u8; 3] = ['g' as u8, 'e' as u8, 't' as u8];
                    let t_info: [u8; 4] = ['i' as u8, 'n' as u8, 'f' as u8, 'o' as u8];
                    let t_replconf: [u8; 8] = [
                        'r' as u8,
                        'e' as u8,
                        'p' as u8,
                        'l' as u8,
                        'c' as u8,
                        'o' as u8,
                        'n' as u8,
                        'f' as u8,
                    ];
                    let t_psync: [u8; 5] = [
                        'p' as u8,
                        's' as u8,
                        'y' as u8,
                        'n' as u8,
                        'c' as u8,
                    ];
                    proof {
                        assert(t_ping@ =~= cmd_ping());
                        assert(t_echo@ =~= cmd_echo());
                        assert(t_set@ =~= cmd_set());
                        assert(t_get@ =~= cmd_get());
                        assert(t_info@ =~= cmd_info());
                        assert(t_replconf@ =~= cmd_replconf());
                        assert(t_psync@ =~= cmd_psync());
                    }
                    if eq_slice(&cmd, t_ping.as_slice()) {
                        reply_pong()
                    } else if eq_slice(&cmd, t_echo.as_slice()) {
                        invoke_echo(elems)
                    } else if eq_slice(&cmd, t_set.as_slice()) {
                        invoke_set(elems, store, now)
                    } else if eq_slice(&cmd, t_get.as_slice()) {
                        invoke_get(elems, store, now)
                    } else if eq_slice(&cmd, t_info.as_slice()) {
                        invoke_info(elems, config)
                    } else if eq_slice(&cmd, t_replconf.as_slice()) {
                        reply_ok()
                    } else if eq_slice(&cmd, t_psync.as_slice()) {
                        invoke_psync(config)
                    } else {
                        let mut v: Vec<u8> = Vec::new();
                        push_err_unknown(&mut v);
                        Reply::Normal(DataType::SimpleError(v))
                    }
                },
                None => reply_err_malformed(),
            }
        },
        DataType::SimpleString(_) => reply_err_malformed(),
        DataType::SimpleError(_) => reply_err_malformed(),
        DataType::Integer(_) => reply_err_malformed(),
        DataType::NullBulkString => reply_err_malformed(),
        DataType::BulkString(_) => reply_err_malformed(),
    }
}

} // verus!
