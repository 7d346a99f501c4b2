//! The replica-side handshake: the fixed request/reply sequence a fresh
//! replica drives against its primary before it starts serving clients.

use vstd::prelude::*;

use crate::commands::{txt_fullresync, txt_ok, txt_pong};
use crate::protocol::{dec_digits, lemma_array_model, push_digits, seq_models, DataType, FrameModel};
use crate::text::{append_slice, eq_slice, starts_with_slice};

verus! {

/// Text of the liveness request name: `'PING'`.
pub open spec fn hs_ping() -> Seq<u8> {
    seq!['P' as u8, 'I' as u8, 'N' as u8, 'G' as u8]
}

/// A fresh byte string holding the liveness request name.
fn bytes_hs_ping() -> (r: Vec<u8>)
    ensures
        r@ == hs_ping(),
{
    let t: [u8; 4] = ['P' as u8, 'I' as u8, 'N' as u8, 'G' as u8];
    let mut r: Vec<u8> = Vec::new();
    append_slice(&mut r, t.as_slice());
    assert(r@ =~= hs_ping());
    r
}

/// Text of the replication-configuration request name: `'REPLCONF'`.
pub open spec fn hs_replconf() -> Seq<u8> {
    seq!['R' as u8, 'E' as u8, 'P' as u8, 'L' as u8, 'C' as u8, 'O' as u8, 'N' as u8, 'F' as u8]
}

/// A fresh byte string holding the replication-configuration request name.
fn bytes_hs_replconf() -> (r: Vec<u8>)
    ensures
        r@ == hs_replconf(),
{
    let t: [u8; 8] = ['R' as u8, 'E' as u8, 'P' as u8, 'L' as u8, 'C' as u8, 'O' as u8, 'N' as u8, 'F' as u8];
    let mut r: Vec<u8> = Vec::new();
    append_slice(&mut r, t.as_slice());
    assert(r@ =~= hs_replconf());
    r
}

/// Text of the option naming the replica's own port: `'listening-port'`.
pub open spec fn hs_listening_port() -> Seq<u8> {
    seq!['l' as u8, 'i' as u8, 's' as u8, 't' as u8, 'e' as u8, 'n' as u8, 'i' as u8, 'n' as u8, 'g' as u8, '-' as u8, 'p' as u8, 'o' as u8, 'r' as u8, 't' as u8]
}

/// A fresh byte string holding the option naming the replica's own port.
fn bytes_hs_listening_port() -> (r: Vec<u8>)
    ensures
        r@ == hs_listening_port(),
{
    let t: [u8; 14] = ['l' as u8, 'i' as u8, 's' as u8, 't' as u8, 'e' as u8, 'n' as u8, 'i' as u8, 'n' as u8, 'g' as u8, '-' as u8, 'p' as u8, 'o' as u8, 'r' as u8, 't' as u8];
    let mut r: Vec<u8> = Vec::new();
    append_slice(&mut r, t.as_slice());
    assert(r@ =~= hs_listening_port());
    r
}

/// Text of the capability option: `'capa'`.
pub open spec fn hs_capa() -> Seq<u8> {
    seq!['c' as u8, 'a' as u8, 'p' as u8, 'a' as u8]
}

/// A fresh byte string holding the capability option.
fn bytes_hs_capa() -> (r: Vec<u8>)
    ensures
        r@ == hs_capa(),
{
    let t: [u8; 4] = ['c' as u8, 'a' as u8, 'p' as u8, 'a' as u8];
    let mut r: Vec<u8> = Vec::new();
    append_slice(&mut r, t.as_slice());
    assert(r@ =~= hs_capa());
    r
}

/// Text of the capability this replica announces: `'psync2'`.
pub open spec fn hs_psync2() -> Seq<u8> {
    seq!['p' as u8, 's' as u8, 'y' as u8, 'n' as u8, 'c' as u8, '2' as u8]
}

/// A fresh byte string holding the capability this replica announces.
fn bytes_hs_psync2() -> (r: Vec<u8>)
    ensures
        r@ == hs_psync2(),
{
    let t: [u8; 6] = ['p' as u8, 's' as u8, 'y' as u8, 'n' as u8, 'c' as u8, '2' as u8];
    let mut r: Vec<u8> = Vec::new();
    append_slice(&mut r, t.as_slice());
    assert(r@ =~= hs_psync2());
    r
}

/// Text of the resynchronization request name: `'PSYNC'`.
pub open spec fn hs_psync() -> Seq<u8> {
    seq!['P' as u8, 'S' as u8, 'Y' as u8, 'N' as u8, 'C' as u8]
}

/// A fresh byte string holding the resynchronization request name.
fn bytes_hs_psync() -> (r: Vec<u8>)
    ensures
        r@ == hs_psync(),
{
    let t: [u8; 5] = ['P' as u8, 'S' as u8, 'Y' as u8, 'N' as u8, 'C' as u8];
    let mut r: Vec<u8> = Vec::new();
    append_slice(&mut r, t.as_slice());
    assert(r@ =~= hs_psync());
    r
}

/// Text of the unknown-replication-id placeholder: `'?'`.
pub open spec fn hs_question() -> Seq<u8> {
    seq!['?' as u8]
}

/// A fresh byte string holding the unknown-replication-id placeholder.
fn bytes_hs_question() -> (r: Vec<u8>)
    ensures
        r@ == hs_question(),
{
    let t: [u8; 1] = ['?' as u8];
    let mut r: Vec<u8> = Vec::new();
    append_slice(&mut r, t.as_slice());
    assert(r@ =~= hs_question());
    r
}

/// Text of the no-offset placeholder: `'-1'`.
pub open spec fn hs_neg_one() -> Seq<u8> {
    seq!['-' as u8, '1' as u8]
}

/// A fresh byte string holding the no-offset placeholder.
fn bytes_hs_neg_one() -> (r: Vec<u8>)
    ensures
        r@ == hs_neg_one(),
{
    let t: [u8; 2] = ['-' as u8, '1' as u8];
    let mut r: Vec<u8> = Vec::new();
    append_slice(&mut r, t.as_slice());
    assert(r@ =~= hs_neg_one());
    r
}

// ---------------------------------------------------------------------------
// The state machine
// ---------------------------------------------------------------------------

/// Where the handshake stands: each state names the reply it waits for. The
/// four steps run strictly in this order; `Done` means the primary accepted
/// the resynchronization request.
#[derive(Clone, Copy, Debug, PartialEq, Eq, Structural)]
pub enum HandshakeState {
    AwaitPong,
    AwaitOkPort,
    AwaitOkCapa,
    AwaitFullResync,
    Done,
}

/// The request the replica sends on entering state `s`: `None` once done.
pub open spec fn request_model(s: HandshakeState, port: u16) -> Option<FrameModel> {
    match s {
        HandshakeState::AwaitPong => Some(
            FrameModel::Array(seq![FrameModel::BulkString(hs_ping())]),
        ),
        HandshakeState::AwaitOkPort => Some(
            FrameModel::Array(
                seq![
                    FrameModel::BulkString(hs_replconf()),
                    FrameModel::BulkString(hs_listening_port()),
                    FrameModel::BulkString(dec_digits(port as nat)),
                ],
            ),
        ),
        HandshakeState::AwaitOkCapa => Some(
            FrameModel::Array(
                seq![
                    FrameModel::BulkString(hs_replconf()),
                    FrameModel::BulkString(hs_capa()),
                    FrameModel::BulkString(hs_psync2()),
                ],
            ),
        ),
        HandshakeState::AwaitFullResync => Some(
            FrameModel::Array(
                seq![
                    FrameModel::BulkString(hs_psync()),
                    FrameModel::BulkString(hs_question()),
                    FrameModel::BulkString(hs_neg_one()),
                ],
            ),
        ),
        HandshakeState::Done => None,
    }
}

/// A simple string beginning with the FULLRESYNC prefix.
pub open spec fn is_fullresync_reply(resp: FrameModel) -> bool {
    &&& resp is SimpleString
    &&& resp->SimpleString_0.len() >= txt_fullresync().len()
    &&& resp->SimpleString_0.subrange(0, txt_fullresync().len() as int) == txt_fullresync()
}

/// Does `resp` satisfy the expectation of state `s`?
pub open spec fn step_ok(s: HandshakeState, resp: FrameModel) -> bool {
    match s {
        HandshakeState::AwaitPong => resp == FrameModel::SimpleString(txt_pong()),
        HandshakeState::AwaitOkPort => resp == FrameModel::SimpleString(txt_ok()),
        HandshakeState::AwaitOkCapa => resp == FrameModel::SimpleString(txt_ok()),
        HandshakeState::AwaitFullResync => is_fullresync_reply(resp),
        HandshakeState::Done => false,
    }
}

/// The state after a satisfied step.
pub open spec fn next_state(s: HandshakeState) -> HandshakeState {
    match s {
        HandshakeState::AwaitPong => HandshakeState::AwaitOkPort,
        HandshakeState::AwaitOkPort => HandshakeState::AwaitOkCapa,
        HandshakeState::AwaitOkCapa => HandshakeState::AwaitFullResync,
        HandshakeState::AwaitFullResync => HandshakeState::Done,
        HandshakeState::Done => HandshakeState::Done,
    }
}

/// One step of the handshake: the next state on the expected reply, and
/// nothing on any other — the handshake aborts.
pub open spec fn step_model(s: HandshakeState, resp: FrameModel) -> Option<HandshakeState> {
    if step_ok(s, resp) {
        Some(next_state(s))
    } else {
        None
    }
}

// ---------------------------------------------------------------------------
// Executable steps
// ---------------------------------------------------------------------------

/// The payload of a simple-string frame, if it is one.
fn as_simple(resp: &DataType) -> (r: Option<&Vec<u8>>)
    ensures
        match r {
            Some(t) => resp@ == FrameModel::SimpleString(t@),
            None => !(resp@ is SimpleString),
        },
{
    match resp {
        DataType::SimpleString(t) => Some(t),
        DataType::SimpleError(_) => None,
        DataType::Integer(_) => None,
        DataType::BulkString(_) => None,
        DataType::NullBulkString => None,
        DataType::Array(_) => None,
    }
}

/// The request to send on entering state `s`, with the replica's own
/// listening port; `None` once the handshake is done.
pub fn handshake_request(s: &HandshakeState, port: u16) -> (r: Option<DataType>)
    ensures
        match r {
            Some(f) => request_model(*s, port) == Some(f@),
            None => request_model(*s, port) is None,
        },
{
    match s {
        HandshakeState::AwaitPong => {
            let mut elems: Vec<DataType> = Vec::new();
            elems.push(DataType::BulkString(bytes_hs_ping()));
            proof {
                lemma_array_model(elems);
                assert(seq_models(elems@) =~= seq![FrameModel::BulkString(hs_ping())]);
            }
            Some(DataType::Array(elems))
        },
        HandshakeState::AwaitOkPort => {
            let mut port_digits: Vec<u8> = Vec::new();
            push_digits(&mut port_digits, port as u64);
            let mut elems: Vec<DataType> = Vec::new();
            elems.push(DataType::BulkString(bytes_hs_replconf()));
            elems.push(DataType::BulkString(bytes_hs_listening_port()));
            elems.push(DataType::BulkString(port_digits));
            proof {
                lemma_array_model(elems);
                assert(seq_models(elems@) =~= seq![
                    FrameModel::BulkString(hs_replconf()),
                    FrameModel::BulkString(hs_listening_port()),
                    FrameModel::BulkString(dec_digits(port as nat)),
                ]);
            }
            Some(DataType::Array(elems))
        },
        HandshakeState::AwaitOkCapa => {
            let mut elems: Vec<DataType> = Vec::new();
            elems.push(DataType::BulkString(bytes_hs_replconf()));
            elems.push(DataType::BulkString(bytes_hs_capa()));
            elems.push(DataType::BulkString(bytes_hs_psync2()));
            proof {
                lemma_array_model(elems);
                assert(seq_models(elems@) =~= seq![
                    FrameModel::BulkString(hs_replconf()),
                    FrameModel::BulkString(hs_capa()),
                    FrameModel::BulkString(hs_psync2()),
                ]);
            }
            Some(DataType::Array(elems))
        },
        HandshakeState::AwaitFullResync => {
            let mut elems: Vec<DataType> = Vec::new();
            elems.push(DataType::BulkString(bytes_hs_psync()));
            elems.push(DataType::BulkString(bytes_hs_question()));
            elems.push(DataType::BulkString(bytes_hs_neg_one()));
            proof {
                lemma_array_model(elems);
                assert(seq_models(elems@) =~= seq![
                    FrameModel::BulkString(hs_psync()),
                    FrameModel::BulkString(hs_question()),
                    FrameModel::BulkString(hs_neg_one()),
                ]);
            }
            Some(DataType::Array(elems))
        },
        HandshakeState::Done => None,
    }
}

/// Holds the reply against the current step: the next state if it is the
/// expected one, `None` — abort — on any other.
pub fn handshake_step(s: &HandshakeState, resp: &DataType) -> (r: Option<HandshakeState>)
    ensures
        r == step_model(*s, resp@),
{
    match s {
        HandshakeState::AwaitPong => {
            match as_simple(resp) {
                Some(t) => {
                    let e: [u8; 4] = ['P' as u8, 'O' as u8, 'N' as u8, 'G' as u8];
                    proof {
                        assert(e@ =~= txt_pong());
                    }
                    if eq_slice(t, e.as_slice()) {
                        Some(HandshakeState::AwaitOkPort)
                    } else {
                        None
                    }
                },
                None => None,
            }
        },
        HandshakeState::AwaitOkPort => {
            match as_simple(resp) {
                Some(t) => {
                    let e: [u8; 2] = ['O' as u8, 'K' as u8];
                    proof {
                        assert(e@ =~= txt_ok());
                    }
                    if eq_slice(t, e.as_slice()) {
                        Some(HandshakeState::AwaitOkCapa)
                    } else {
                        None
                    }
                },
                None => None,
            }
        },
        HandshakeState::AwaitOkCapa => {
            match as_simple(resp) {
                Some(t) => {
                    let e: [u8; 2] = ['O' as u8, 'K' as u8];
                    proof {
                        assert(e@ =~= txt_ok());
                    }
                    if eq_slice(t, e.as_slice()) {
                        Some(HandshakeState::AwaitFullResync)
                    } else {
                        None
                    }
                },
                None => None,
            }
        },
        HandshakeState::AwaitFullResync => {
            match as_simple(resp) {
                Some(t) => {
                    let e: [u8; 11] = [
                        'F' as u8,
                        'U' as u8,
                        'L' as u8,
                        'L' as u8,
                        'R' as u8,
                        'E' as u8,
                        'S' as u8,
                        'Y' as u8,
                        'N' as u8,
                        'C' as u8,
                        ' ' as u8,
                    ];
                    proof {
                        assert(e@ =~= txt_fullresync());
                    }
                    if starts_with_slice(t, e.as_slice()) {
                        Some(HandshakeState::Done)
                    } else {
                        None
                    }
                },
                None => None,
            }
        },
        HandshakeState::Done => None,
    }
}

// ---------------------------------------------------------------------------
// The whole run, and its ordering law
// ---------------------------------------------------------------------------

/// How many steps still stand before state `s`'s handshake is done.
pub open spec fn state_rank(s: HandshakeState) -> nat {
    match s {
        HandshakeState::AwaitPong => 4,
        HandshakeState::AwaitOkPort => 3,
        HandshakeState::AwaitOkCapa => 2,
        HandshakeState::AwaitFullResync => 1,
        HandshakeState::Done => 0,
    }
}

/// A whole run from state `s` against the replies `responses`, in order: the
/// requests that get sent, and whether the handshake completed. Each request
/// is sent before its reply is read; a wrong or missing reply stops the run
/// with nothing further sent.
pub open spec fn run_from(s: HandshakeState, port: u16, responses: Seq<FrameModel>) -> (
    Seq<FrameModel>,
    bool,
)
    decreases state_rank(s),
{
    if s is Done {
        (Seq::empty(), true)
    } else {
        let req = request_model(s, port)->Some_0;
        if responses.len() == 0 {
            (seq![req], false)
        } else {
            match step_model(s, responses[0]) {
                Some(s2) => {
                    let rec = run_from(s2, port, responses.drop_first());
                    (seq![req] + rec.0, rec.1)
                },
                None => (seq![req], false),
            }
        }
    }
}

/// The state that waits for reply number `j` (counting from zero).
pub open spec fn state_at(j: int) -> HandshakeState {
    if j == 0 {
        HandshakeState::AwaitPong
    } else if j == 1 {
        HandshakeState::AwaitOkPort
    } else if j == 2 {
        HandshakeState::AwaitOkCapa
    } else if j == 3 {
        HandshakeState::AwaitFullResync
    } else {
        HandshakeState::Done
    }
}

/// The four requests of a complete handshake, in protocol order.
pub open spec fn handshake_requests(port: u16) -> Seq<FrameModel> {
    seq![
        request_model(HandshakeState::AwaitPong, port)->Some_0,
        request_model(HandshakeState::AwaitOkPort, port)->Some_0,
        request_model(HandshakeState::AwaitOkCapa, port)->Some_0,
        request_model(HandshakeState::AwaitFullResync, port)->Some_0,
    ]
}

/// Handshake ordering, the happy path: a primary that replies PONG, OK, OK
/// and a FULLRESYNC status sees exactly the four requests, in order, and the
/// handshake completes.
pub proof fn lemma_handshake_ordering(port: u16, responses: Seq<FrameModel>)
    requires
        responses.len() == 4,
        step_ok(HandshakeState::AwaitPong, responses[0]),
        step_ok(HandshakeState::AwaitOkPort, responses[1]),
        step_ok(HandshakeState::AwaitOkCapa, responses[2]),
        step_ok(HandshakeState::AwaitFullResync, responses[3]),
    ensures
        run_from(HandshakeState::AwaitPong, port, responses).0 == handshake_requests(port),
        run_from(HandshakeState::AwaitPong, port, responses).1,
{
    let q1 = request_model(HandshakeState::AwaitPong, port)->Some_0;
    let q2 = request_model(HandshakeState::AwaitOkPort, port)->Some_0;
    let q3 = request_model(HandshakeState::AwaitOkCapa, port)->Some_0;
    let q4 = request_model(HandshakeState::AwaitFullResync, port)->Some_0;
    let r1 = responses.drop_first();
    let r2 = r1.drop_first();
    let r3 = r2.drop_first();
    let r4 = r3.drop_first();
    assert(r1[0] == responses[1]);
    assert(r2[0] == responses[2]);
    assert(r3[0] == responses[3]);
    assert(r4.len() == 0);
    let run5 = run_from(HandshakeState::Done, port, r4);
    assert(run5 == (Seq::<FrameModel>::empty(), true));
    let run4 = run_from(HandshakeState::AwaitFullResync, port, r3);
    assert(run4 == (seq![q4] + run5.0, run5.1));
    assert(run4.0 =~= seq![q4]);
    let run3 = run_from(HandshakeState::AwaitOkCapa, port, r2);
    assert(run3 == (seq![q3] + run4.0, run4.1));
    assert(run3.0 =~= seq![q3, q4]);
    let run2 = run_from(HandshakeState::AwaitOkPort, port, r1);
    assert(run2 == (seq![q2] + run3.0, run3.1));
    assert(run2.0 =~= seq![q2, q3, q4]);
    let run1 = run_from(HandshakeState::AwaitPong, port, responses);
    assert(run1 == (seq![q1] + run2.0, run2.1));
    assert(run1.0 =~= handshake_requests(port));
}

/// Handshake ordering, the abort path: if the first `i` replies are the
/// expected ones and reply `i` is not, exactly the first `i + 1` requests
/// have been sent — none after the failing step — and the run reports
/// failure.
pub proof fn lemma_handshake_aborts(port: u16, responses: Seq<FrameModel>, i: int)
    requires
        0 <= i < 4,
        i < responses.len(),
        forall|j: int| 0 <= j < i ==> step_ok(state_at(j), #[trigger] responses[j]),
        !step_ok(state_at(i), responses[i]),
    ensures
        run_from(HandshakeState::AwaitPong, port, responses).0 == handshake_requests(port).take(
            i + 1,
        ),
        !run_from(HandshakeState::AwaitPong, port, responses).1,
{
    let q1 = request_model(HandshakeState::AwaitPong, port)->Some_0;
    let q2 = request_model(HandshakeState::AwaitOkPort, port)->Some_0;
    let q3 = request_model(HandshakeState::AwaitOkCapa, port)->Some_0;
    let q4 = request_model(HandshakeState::AwaitFullResync, port)->Some_0;
    let r1 = responses.drop_first();
    let r2 = r1.drop_first();
    let r3 = r2.drop_first();
    let run1 = run_from(HandshakeState::AwaitPong, port, responses);
    if i == 0 {
        assert(run1 == (seq![q1], false));
        assert(run1.0 =~= handshake_requests(port).take(1));
    } else {
        assert(step_ok(state_at(0), responses[0]));
        assert(r1[0] == responses[1]);
        let run2 = run_from(HandshakeState::AwaitOkPort, port, r1);
        assert(run1 == (seq![q1] + run2.0, run2.1));
        if i == 1 {
            assert(run2 == (seq![q2], false));
            assert(run1.0 =~= handshake_requests(port).take(2));
        } else {
            assert(step_ok(state_at(1), responses[1]));
            assert(r2[0] == responses[2]);
            let run3 = run_from(HandshakeState::AwaitOkCapa, port, r2);
            assert(run2 == (seq![q2] + run3.0, run3.1));
            if i == 2 {
                assert(run3 == (seq![q3], false));
                assert(run1.0 =~= handshake_requests(port).take(3));
            } else {
                assert(step_ok(state_at(2), responses[2]));
                assert(r3[0] == responses[3]);
                let run4 = run_from(HandshakeState::AwaitFullResync, port, r3);
                assert(run3 == (seq![q3] + run4.0, run4.1));
                assert(run4 == (seq![q4], false));
                assert(run1.0 =~= handshake_requests(port).take(4));
            }
        }
    }
}

} // verus!
