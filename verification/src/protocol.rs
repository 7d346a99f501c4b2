//! The RESP frame codec: typed frames, their exact wire encoding, and a
//! decoder that consumes exactly one frame from a byte buffer.

use vstd::prelude::*;

use crate::text::append_bytes;

verus! {

/// One RESP value as plain data. A bulk string is binary safe; the dedicated
/// null variant is distinct from the empty bulk string.
#[derive(Debug)]
pub enum DataType {
    SimpleString(Vec<u8>),
    SimpleError(Vec<u8>),
    Integer(i64),
    BulkString(Vec<u8>),
    NullBulkString,
    Array(Vec<DataType>),
}

/// The mathematical model of a frame: what contracts speak about.
pub enum FrameModel {
    SimpleString(Seq<u8>),
    SimpleError(Seq<u8>),
    Integer(int),
    BulkString(Seq<u8>),
    NullBulkString,
    Array(Seq<FrameModel>),
}

/// Model of a frame, recursively through arrays. The range guard in the
/// array case only serves the termination argument: `Seq::new` never applies
/// its closure out of range.
pub open spec fn frame_model(f: DataType) -> FrameModel
    decreases f,
    via frame_model_decreases
{
    match f {
        DataType::SimpleString(s) => FrameModel::SimpleString(s@),
        DataType::SimpleError(s) => FrameModel::SimpleError(s@),
        DataType::Integer(v) => FrameModel::Integer(v as int),
        DataType::BulkString(s) => FrameModel::BulkString(s@),
        DataType::NullBulkString => FrameModel::NullBulkString,
        DataType::Array(elems) => FrameModel::Array(
            Seq::new(
                elems@.len(),
                |i: int|
                    if 0 <= i < elems@.len() {
                        frame_model(elems@[i])
                    } else {
                        FrameModel::NullBulkString
                    },
            ),
        ),
    }
}

#[via_fn]
proof fn frame_model_decreases(f: DataType) {
    broadcast use vstd::std_specs::vec::group_vec_axioms;

    match f {
        DataType::Array(elems) => {
            assert forall|i: int| 0 <= i < elems@.len() implies decreases_to!(f => elems@[i]) by {
                assert(decreases_to!(f => elems));
                assert(decreases_to!(elems => elems[i]));
            }
        },
        _ => {},
    }
}

impl View for DataType {
    type V = FrameModel;

    open spec fn view(&self) -> FrameModel {
        frame_model(*self)
    }
}

/// The models of a sequence of frames, elementwise.
pub open spec fn seq_models(s: Seq<DataType>) -> Seq<FrameModel> {
    Seq::new(s.len(), |i: int| s[i]@)
}

/// The model of an array frame is the array of the element models.
pub proof fn lemma_array_model(elems: Vec<DataType>)
    ensures
        frame_model(DataType::Array(elems)) == FrameModel::Array(seq_models(elems@)),
{
    assert(frame_model(DataType::Array(elems))->Array_0 =~= seq_models(elems@));
}

// ---------------------------------------------------------------------------
// Decimal text
// ---------------------------------------------------------------------------

/// Is `b` the code of an ASCII decimal digit?
pub open spec fn is_digit(b: u8) -> bool {
    48 <= b <= 57
}

/// Every byte of `s` is a decimal digit.
pub open spec fn all_digits(s: Seq<u8>) -> bool {
    forall|i: int| 0 <= i < s.len() ==> is_digit(#[trigger] s[i])
}

/// The decimal digits of `n`, most significant first, without sign or
/// leading zeroes (a single `0` for zero).
pub open spec fn dec_digits(n: nat) -> Seq<u8>
    decreases n,
{
    if n < 10 {
        seq![(48 + n) as u8]
    } else {
        dec_digits(n / 10).push((48 + n % 10) as u8)
    }
}

/// The decimal digits of a signed value: a leading `-` for a negative one.
pub open spec fn int_digits(v: int) -> Seq<u8> {
    if v < 0 {
        seq![45u8] + dec_digits((-v) as nat)
    } else {
        dec_digits(v as nat)
    }
}

/// The numeric value of a digit string (most significant first).
pub open spec fn digits_val(s: Seq<u8>) -> int
    decreases s.len(),
{
    if s.len() == 0 {
        0
    } else {
        digits_val(s.drop_last()) * 10 + (s.last() - 48)
    }
}

/// The header text accepted for a signed 64-bit integer frame: an optional
/// leading `-`, then at least one digit, and the value must fit in `i64`.
pub open spec fn parse_i64_text(s: Seq<u8>) -> Option<i64> {
    if s.len() >= 1 && s[0] == 45 {
        let d = s.subrange(1, s.len() as int);
        if d.len() > 0 && all_digits(d) && digits_val(d) <= 0x8000_0000_0000_0000 {
            Some((-digits_val(d)) as i64)
        } else {
            None
        }
    } else if s.len() > 0 && all_digits(s) && digits_val(s) <= i64::MAX {
        Some(digits_val(s) as i64)
    } else {
        None
    }
}

/// `dec_digits` emits digits only, at least one of them.
pub proof fn lemma_dec_digits_shape(n: nat)
    ensures
        dec_digits(n).len() >= 1,
        all_digits(dec_digits(n)),
    decreases n,
{
    if n >= 10 {
        lemma_dec_digits_shape(n / 10);
        assert(dec_digits(n).last() == (48 + n % 10) as u8);
        assert forall|i: int| 0 <= i < dec_digits(n).len() implies is_digit(
            #[trigger] dec_digits(n)[i],
        ) by {
            if i < dec_digits(n).len() - 1 {
                assert(dec_digits(n)[i] == dec_digits(n / 10)[i]);
            }
        }
    }
}

/// Reading back the decimal digits of `n` gives `n`.
pub proof fn lemma_dec_digits_val(n: nat)
    ensures
        digits_val(dec_digits(n)) == n,
    decreases n,
{
    if n < 10 {
        assert(dec_digits(n).drop_last() =~= Seq::<u8>::empty());
        assert(digits_val(Seq::<u8>::empty()) == 0);
        assert(dec_digits(n).last() == (48 + n) as u8);
    } else {
        lemma_dec_digits_val(n / 10);
        assert(dec_digits(n).drop_last() =~= dec_digits(n / 10));
        assert(dec_digits(n).last() == (48 + n % 10) as u8);
        assert(n == (n / 10) * 10 + n % 10) by (nonlinear_arith);
    }
}

/// Ten to the `k`.
pub open spec fn pow10(k: nat) -> nat
    decreases k,
{
    if k == 0 {
        1
    } else {
        10 * pow10((k - 1) as nat)
    }
}

/// A value below ten to the `k` has at most `k` decimal digits.
pub proof fn lemma_dec_digits_len(n: nat, k: nat)
    requires
        k >= 1,
        n < pow10(k),
    ensures
        dec_digits(n).len() <= k,
    decreases n,
{
    if n >= 10 {
        assert(pow10(1) == 10) by {
            reveal_with_fuel(pow10, 2);
        }
        assert(k >= 2);
        assert(pow10(k) == 10 * pow10((k - 1) as nat));
        assert(n / 10 < pow10((k - 1) as nat)) by (nonlinear_arith)
            requires
                n < 10 * pow10((k - 1) as nat),
        ;
        lemma_dec_digits_len(n / 10, (k - 1) as nat);
    }
}

/// Any 64-bit value has at most twenty decimal digits.
pub proof fn lemma_dec_digits_len_u64(n: u64)
    ensures
        dec_digits(n as nat).len() <= 20,
{
    assert((n as nat) < pow10(20)) by {
        reveal_with_fuel(pow10, 21);
    }
    lemma_dec_digits_len(n as nat, 20);
}

// ---------------------------------------------------------------------------
// Encoding
// ---------------------------------------------------------------------------

/// The two-byte line terminator.
pub open spec fn crlf() -> Seq<u8> {
    seq![13u8, 10u8]
}

/// A header or simple-string payload must not contain either terminator byte.
pub open spec fn line_ok(s: Seq<u8>) -> bool {
    forall|i: int| 0 <= i < s.len() ==> #[trigger] s[i] != 13 && s[i] != 10
}

/// Two clean lines concatenate to a clean line.
pub proof fn lemma_line_ok_concat(a: Seq<u8>, b: Seq<u8>)
    requires
        line_ok(a),
        line_ok(b),
    ensures
        line_ok(a + b),
{
    assert forall|i: int| 0 <= i < (a + b).len() implies (a + b)[i] != 13 && (a + b)[i] != 10 by {
        if i < a.len() {
            assert((a + b)[i] == a[i]);
        } else {
            assert((a + b)[i] == b[i - a.len()]);
        }
    }
}

/// Digits contain neither terminator byte.
pub proof fn lemma_digits_line_ok(s: Seq<u8>)
    requires
        all_digits(s),
    ensures
        line_ok(s),
{
}

/// A frame the codec can represent on the wire: simple strings and errors
/// keep clear of the terminator bytes, integers fit in 64 bits, and lengths
/// fit in `usize`.
pub open spec fn wf_frame(f: FrameModel) -> bool
    decreases f,
{
    match f {
        FrameModel::SimpleString(s) => line_ok(s),
        FrameModel::SimpleError(s) => line_ok(s),
        FrameModel::Integer(v) => i64::MIN <= v <= i64::MAX,
        FrameModel::BulkString(p) => p.len() <= usize::MAX,
        FrameModel::NullBulkString => true,
        FrameModel::Array(elems) => elems.len() <= usize::MAX && (forall|i: int|
            0 <= i < elems.len() ==> wf_frame(#[trigger] elems[i])),
    }
}

/// The exact wire bytes of a frame.
pub open spec fn encode_frame(f: FrameModel) -> Seq<u8>
    decreases f, 0int,
{
    match f {
        FrameModel::SimpleString(s) => seq![43u8] + s + crlf(),
        FrameModel::SimpleError(s) => seq![45u8] + s + crlf(),
        FrameModel::Integer(v) => seq![58u8] + int_digits(v) + crlf(),
        FrameModel::BulkString(p) => seq![36u8] + dec_digits(p.len()) + crlf() + p + crlf(),
        FrameModel::NullBulkString => seq![36u8, 45u8, 49u8, 13u8, 10u8],
        FrameModel::Array(elems) => seq![42u8] + dec_digits(elems.len()) + crlf() + encode_elems(
            elems,
        ),
    }
}

/// The wire bytes of the elements of an array, concatenated in order.
pub open spec fn encode_elems(elems: Seq<FrameModel>) -> Seq<u8>
    decreases elems, 1int,
{
    if elems.len() == 0 {
        Seq::empty()
    } else {
        encode_frame(elems[0]) + encode_elems(elems.subrange(1, elems.len() as int))
    }
}

/// Appending an element to an array appends its encoding.
pub proof fn lemma_encode_elems_push(elems: Seq<FrameModel>, f: FrameModel)
    ensures
        encode_elems(elems.push(f)) == encode_elems(elems) + encode_frame(f),
    decreases elems.len(),
{
    if elems.len() == 0 {
        assert(elems.push(f).subrange(1, elems.push(f).len() as int) =~= Seq::<
            FrameModel,
        >::empty());
        assert(encode_elems(Seq::<FrameModel>::empty()) == Seq::<u8>::empty());
        assert(encode_elems(elems.push(f)) =~= encode_elems(elems) + encode_frame(f));
    } else {
        let s2 = elems.push(f);
        let rest = elems.subrange(1, elems.len() as int);
        lemma_encode_elems_push(rest, f);
        assert(s2.subrange(1, s2.len() as int) =~= rest.push(f));
        assert(s2[0] == elems[0]);
        assert(encode_elems(s2) == encode_frame(elems[0]) + encode_elems(rest.push(f)));
        assert(encode_elems(s2) == encode_frame(elems[0]) + (encode_elems(rest) + encode_frame(f)));
        assert(encode_frame(elems[0]) + (encode_elems(rest) + encode_frame(f)) =~= (encode_frame(
            elems[0],
        ) + encode_elems(rest)) + encode_frame(f));
    }
}

/// Every encoding starts with its marker byte and ends after at least three bytes.
pub proof fn lemma_encode_frame_len(f: FrameModel)
    ensures
        encode_frame(f).len() >= 3,
{
}

// ---------------------------------------------------------------------------
// Decoding, as a specification
// ---------------------------------------------------------------------------

/// The outcome of reading one frame at a position of a byte buffer: the frame
/// and the position just past it, or the need for more bytes, or a protocol
/// error.
pub enum ParseResult {
    Parsed(FrameModel, int),
    Incomplete,
    Malformed,
}

/// The position of the first carriage return at or after `pos`.
pub open spec fn find_cr(s: Seq<u8>, pos: int) -> Option<int>
    decreases s.len() - pos,
{
    if pos < 0 || pos >= s.len() {
        None
    } else if s[pos] == 13 {
        Some(pos)
    } else {
        find_cr(s, pos + 1)
    }
}

/// A found carriage return lies between `pos` and the end, and nothing before
/// it is one.
pub proof fn lemma_find_cr_bounds(s: Seq<u8>, pos: int)
    ensures
        find_cr(s, pos) matches Some(cr) ==> pos <= cr < s.len() && s[cr] == 13 && (forall|j: int|
            pos <= j < cr ==> s[j] != 13),
    decreases s.len() - pos,
{
    if 0 <= pos < s.len() && s[pos] != 13 {
        lemma_find_cr_bounds(s, pos + 1);
    }
}

/// The five frame markers.
pub open spec fn valid_marker(b: u8) -> bool {
    b == 43 || b == 45 || b == 58 || b == 36 || b == 42
}

/// Reads exactly one frame at `pos`. A buffer that ends before the frame does
/// is incomplete, never an error; anything that cannot extend to a frame is
/// malformed.
pub open spec fn parse_frame(s: Seq<u8>, pos: int) -> ParseResult
    decreases s.len() - pos, 0int, 0int,
    via parse_frame_decreases
{
    if pos < 0 || pos >= s.len() {
        ParseResult::Incomplete
    } else if !valid_marker(s[pos]) {
        ParseResult::Malformed
    } else {
        match find_cr(s, pos + 1) {
            Option::None => ParseResult::Incomplete,
            Option::Some(cr) => {
                if cr + 1 >= s.len() {
                    ParseResult::Incomplete
                } else if s[cr + 1] != 10 {
                    ParseResult::Malformed
                } else {
                    let line = s.subrange(pos + 1, cr);
                    let body = cr + 2;
                    let marker = s[pos];
                    if marker == 43 {
                        ParseResult::Parsed(FrameModel::SimpleString(line), body)
                    } else if marker == 45 {
                        ParseResult::Parsed(FrameModel::SimpleError(line), body)
                    } else if marker == 58 {
                        match parse_i64_text(line) {
                            Option::Some(v) => ParseResult::Parsed(
                                FrameModel::Integer(v as int),
                                body,
                            ),
                            Option::None => ParseResult::Malformed,
                        }
                    } else if marker == 36 {
                        if line == seq![45u8, 49u8] {
                            ParseResult::Parsed(FrameModel::NullBulkString, body)
                        } else if line.len() > 0 && all_digits(line) && digits_val(line)
                            <= usize::MAX {
                            let n = digits_val(line);
                            if body + n + 2 > s.len() {
                                ParseResult::Incomplete
                            } else if s[body + n] == 13 && s[body + n + 1] == 10 {
                                ParseResult::Parsed(
                                    FrameModel::BulkString(s.subrange(body, body + n)),
                                    body + n + 2,
                                )
                            } else {
                                ParseResult::Malformed
                            }
                        } else {
                            ParseResult::Malformed
                        }
                    } else {
                        if line.len() > 0 && all_digits(line) && digits_val(line) <= usize::MAX {
                            parse_elems(s, body, digits_val(line) as nat, Seq::empty())
                        } else {
                            ParseResult::Malformed
                        }
                    }
                }
            },
        }
    }
}

#[via_fn]
proof fn parse_frame_decreases(s: Seq<u8>, pos: int) {
    lemma_find_cr_bounds(s, pos + 1);
}

/// Reads `count` frames one after the other, collecting them after `acc`.
pub open spec fn parse_elems(s: Seq<u8>, pos: int, count: nat, acc: Seq<FrameModel>) -> ParseResult
    decreases s.len() - pos, 1int, count,
{
    if count == 0 {
        ParseResult::Parsed(FrameModel::Array(acc), pos)
    } else {
        match parse_frame(s, pos) {
            ParseResult::Parsed(f, next) => {
                if pos < next <= s.len() {
                    parse_elems(s, next, (count - 1) as nat, acc.push(f))
                } else {
                    ParseResult::Malformed
                }
            },
            r => r,
        }
    }
}

// ---------------------------------------------------------------------------
// Executable encoder
// ---------------------------------------------------------------------------

/// Appends the decimal digits of `n` to `out`.
pub(crate) fn push_digits(out: &mut Vec<u8>, n: u64)
    ensures
        final(out)@ == old(out)@ + dec_digits(n as nat),
    decreases n,
{
    if n < 10 {
        out.push(48 + n as u8);
        assert(out@ =~= old(out)@ + dec_digits(n as nat));
    } else {
        push_digits(out, n / 10);
        out.push(48 + (n % 10) as u8);
        assert(out@ =~= old(out)@ + dec_digits(n as nat));
    }
}

/// Appends the two terminator bytes to `out`.
fn push_crlf(out: &mut Vec<u8>)
    ensures
        final(out)@ == old(out)@ + crlf(),
{
    out.push(13);
    out.push(10);
    assert(out@ =~= old(out)@ + crlf());
}

/// Appends the digits of a signed value, with a leading `-` if negative.
fn push_int_digits(out: &mut Vec<u8>, v: i64)
    ensures
        final(out)@ == old(out)@ + int_digits(v as int),
{
    if v < 0 {
        out.push(45);
        let magnitude: u64 = if v == i64::MIN {
            9223372036854775808u64
        } else {
            (-v) as u64
        };
        push_digits(out, magnitude);
        assert(out@ =~= old(out)@ + int_digits(v as int));
    } else {
        push_digits(out, v as u64);
    }
}

/// Appends the wire encoding of `f` to `out`.
pub fn encode_into(f: &DataType, out: &mut Vec<u8>)
    ensures
        final(out)@ == old(out)@ + encode_frame(f@),
    decreases f,
{
    match f {
        DataType::SimpleString(s) => {
            out.push(43);
            append_bytes(out, s);
            push_crlf(out);
            assert(out@ =~= old(out)@ + encode_frame(f@));
        },
        DataType::SimpleError(s) => {
            out.push(45);
            append_bytes(out, s);
            push_crlf(out);
            assert(out@ =~= old(out)@ + encode_frame(f@));
        },
        DataType::Integer(v) => {
            out.push(58);
            push_int_digits(out, *v);
            push_crlf(out);
            assert(out@ =~= old(out)@ + encode_frame(f@));
        },
        DataType::BulkString(p) => {
            out.push(36);
            push_digits(out, p.len() as u64);
            push_crlf(out);
            append_bytes(out, p);
            push_crlf(out);
            assert(out@ =~= old(out)@ + encode_frame(f@));
        },
        DataType::NullBulkString => {
            out.push(36);
            out.push(45);
            out.push(49);
            push_crlf(out);
            assert(out@ =~= old(out)@ + encode_frame(f@));
        },
        DataType::Array(elems) => {
            out.push(42);
            push_digits(out, elems.len() as u64);
            push_crlf(out);
            let ghost header_done = out@;
            let n = elems.len();
            let mut i: usize = 0;
            while i < n
                invariant
                    i <= n,
                    n == elems@.len(),
                    *f == DataType::Array(*elems),
                    out@ == header_done + encode_elems(seq_models(elems@).subrange(0, i as int)),
                decreases n - i,
            {
                proof {
                    broadcast use vstd::std_specs::vec::group_vec_axioms;

                    assert(decreases_to!(*f => (*f)->Array_0));
                    assert((*f)->Array_0 == *elems);
                    assert(decreases_to!(*elems => elems[i as int]));
                }
                encode_into(&elems[i], out);
                proof {
                    let done = seq_models(elems@).subrange(0, i as int);
                    lemma_encode_elems_push(done, elems@[i as int]@);
                    assert(done.push(elems@[i as int]@) =~= seq_models(elems@).subrange(
                        0,
                        i as int + 1,
                    ));
                }
                i += 1;
            }
            proof {
                assert(seq_models(elems@).subrange(0, n as int) =~= seq_models(elems@));
                lemma_array_model(*elems);
                assert(out@ =~= old(out)@ + encode_frame(f@));
            }
        },
    }
}

/// The wire encoding of one frame.
pub fn encode(f: &DataType) -> (r: Vec<u8>)
    ensures
        r@ == encode_frame(f@),
{
    let mut out: Vec<u8> = Vec::new();
    encode_into(f, &mut out);
    out
}

// ---------------------------------------------------------------------------
// Executable decoder
// ---------------------------------------------------------------------------

/// Why a buffer failed to decode: it holds only part of a frame so far, or it
/// can never extend to one.
#[derive(Clone, Copy, Debug, PartialEq, Eq, Structural)]
pub enum DecodeError {
    Incomplete,
    Malformed,
}

/// The position of the first carriage return at or after `from`, if any.
fn find_cr_exec(buf: &Vec<u8>, from: usize) -> (r: Option<usize>)
    requires
        from <= buf@.len(),
    ensures
        match r {
            Some(cr) => find_cr(buf@, from as int) == Some(cr as int) && from <= cr < buf@.len(),
            None => find_cr(buf@, from as int) is None,
        },
{
    let mut i = from;
    while i < buf.len()
        invariant
            from <= i <= buf@.len(),
            find_cr(buf@, from as int) == find_cr(buf@, i as int),
        decreases buf@.len() - i,
    {
        if buf[i] == 13 {
            return Some(i);
        }
        i += 1;
    }
    None
}

/// A copy of `buf[lo..hi]`.
fn copy_range(buf: &Vec<u8>, lo: usize, hi: usize) -> (r: Vec<u8>)
    requires
        lo <= hi <= buf@.len(),
    ensures
        r@ == buf@.subrange(lo as int, hi as int),
{
    let mut r: Vec<u8> = Vec::new();
    let mut i = lo;
    while i < hi
        invariant
            lo <= i <= hi <= buf@.len(),
            r@ == buf@.subrange(lo as int, i as int),
        decreases hi - i,
    {
        r.push(buf[i]);
        assert(r@ =~= buf@.subrange(lo as int, i as int + 1));
        i += 1;
    }
    r
}

/// `digits_val` never decreases when digits are appended on the right.
proof fn lemma_digits_val_nonneg(s: Seq<u8>)
    requires
        all_digits(s),
    ensures
        digits_val(s) >= 0,
    decreases s.len(),
{
    if s.len() > 0 {
        assert(all_digits(s.drop_last())) by {
            assert(forall|i: int|
                0 <= i < s.len() - 1 ==> #[trigger] s.drop_last()[i] == s[i]);
        }
        lemma_digits_val_nonneg(s.drop_last());
    }
}

/// Extending a digit prefix by one digit multiplies its value by ten.
proof fn lemma_digits_val_extend(s: Seq<u8>, i: int)
    requires
        0 <= i < s.len(),
    ensures
        digits_val(s.subrange(0, i + 1)) == digits_val(s.subrange(0, i)) * 10 + (s[i] - 48),
{
    assert(s.subrange(0, i + 1).drop_last() =~= s.subrange(0, i));
    assert(s.subrange(0, i + 1).last() == s[i]);
}

/// A digit string is worth at least any of its prefixes.
proof fn lemma_digits_val_prefix_le(s: Seq<u8>, i: int)
    requires
        0 <= i <= s.len(),
        all_digits(s),
    ensures
        digits_val(s.subrange(0, i)) <= digits_val(s),
    decreases s.len() - i,
{
    if i == s.len() {
        assert(s.subrange(0, i) =~= s);
    } else {
        lemma_digits_val_extend(s, i);
        assert(all_digits(s.subrange(0, i)));
        lemma_digits_val_nonneg(s.subrange(0, i));
        assert(digits_val(s.subrange(0, i)) * 10 >= digits_val(s.subrange(0, i))) by (
        nonlinear_arith)
            requires
                digits_val(s.subrange(0, i)) >= 0,
        ;
        lemma_digits_val_prefix_le(s, i + 1);
    }
}

/// Reads `buf[lo..hi]` as an unsigned decimal number: at least one digit,
/// nothing but digits, and a value that fits in 64 bits.
pub(crate) fn parse_digits(buf: &Vec<u8>, lo: usize, hi: usize) -> (r: Option<u64>)
    requires
        lo <= hi <= buf@.len(),
    ensures
        ({
            let text = buf@.subrange(lo as int, hi as int);
            match r {
                Some(v) => text.len() > 0 && all_digits(text) && digits_val(text) == v,
                None => !(text.len() > 0 && all_digits(text) && digits_val(text) <= u64::MAX),
            }
        }),
{
    let ghost text = buf@.subrange(lo as int, hi as int);
    if lo == hi {
        return None;
    }
    let mut val: u64 = 0;
    let mut i = lo;
    while i < hi
        invariant
            lo <= i <= hi <= buf@.len(),
            text == buf@.subrange(lo as int, hi as int),
            all_digits(text.subrange(0, i - lo)),
            val == digits_val(text.subrange(0, i - lo)),
        decreases hi - i,
    {
        let b = buf[i];
        if b < 48 || b > 57 {
            proof {
                assert(text[i - lo] == b);
                assert(!all_digits(text));
            }
            return None;
        }
        let d: u64 = (b - 48) as u64;
        proof {
            lemma_digits_val_extend(text, i - lo);
        }
        if val > (u64::MAX - d) / 10 {
            proof {
                assert(val * 10 + d > u64::MAX) by (nonlinear_arith)
                    requires
                        val > (u64::MAX - d) / 10,
                        d <= 9,
                ;
                if all_digits(text) {
                    lemma_digits_val_prefix_le(text, i - lo + 1);
                }
            }
            return None;
        }
        proof {
            assert(val * 10 + d <= u64::MAX) by (nonlinear_arith)
                requires
                    val <= (u64::MAX - d) / 10,
                    d <= 9,
            ;
        }
        val = val * 10 + d;
        proof {
            assert(all_digits(text.subrange(0, i - lo + 1)));
        }
        i += 1;
    }
    proof {
        assert(text.subrange(0, hi - lo) =~= text);
    }
    Some(val)
}

/// Reads `buf[lo..hi]` as the text of a signed 64-bit integer.
fn parse_i64_bytes(buf: &Vec<u8>, lo: usize, hi: usize) -> (r: Option<i64>)
    requires
        lo <= hi <= buf@.len(),
    ensures
        r == parse_i64_text(buf@.subrange(lo as int, hi as int)),
{
    let ghost text = buf@.subrange(lo as int, hi as int);
    if lo < hi && buf[lo] == 45 {
        proof {
            assert(buf@.subrange(lo as int + 1, hi as int) =~= text.subrange(
                1,
                text.len() as int,
            ));
        }
        match parse_digits(buf, lo + 1, hi) {
            Some(mag) => {
                if mag <= 0x8000_0000_0000_0000u64 {
                    if mag == 0x8000_0000_0000_0000u64 {
                        Some(i64::MIN)
                    } else {
                        Some(-(mag as i64))
                    }
                } else {
                    None
                }
            },
            None => None,
        }
    } else {
        match parse_digits(buf, lo, hi) {
            Some(v) => {
                if v <= i64::MAX as u64 {
                    Some(v as i64)
                } else {
                    None
                }
            },
            None => None,
        }
    }
}

/// Decodes exactly one frame at `pos`, returning it with the position just
/// past its last byte. `Incomplete` asks the caller for more bytes; a
/// `Malformed` buffer can never extend to a frame at `pos`.
pub fn parse_data_type(buf: &Vec<u8>, pos: usize) -> (r: Result<(DataType, usize), DecodeError>)
    requires
        pos <= buf@.len(),
    ensures
        match r {
            Ok(p) => parse_frame(buf@, pos as int) == ParseResult::Parsed(p.0@, p.1 as int) && pos
                < p.1 <= buf@.len(),
            Err(DecodeError::Incomplete) => parse_frame(buf@, pos as int)
                == ParseResult::Incomplete,
            Err(DecodeError::Malformed) => parse_frame(buf@, pos as int) == ParseResult::Malformed,
        },
    decreases buf@.len() - pos,
{
    if pos == buf.len() {
        return Err(DecodeError::Incomplete);
    }
    let marker = buf[pos];
    if !(marker == 43 || marker == 45 || marker == 58 || marker == 36 || marker == 42) {
        return Err(DecodeError::Malformed);
    }
    let cr = match find_cr_exec(buf, pos + 1) {
        Some(c) => c,
        None => {
            return Err(DecodeError::Incomplete);
        },
    };
    if cr + 1 == buf.len() {
        return Err(DecodeError::Incomplete);
    }
    if buf[cr + 1] != 10 {
        return Err(DecodeError::Malformed);
    }
    let ghost line = buf@.subrange(pos as int + 1, cr as int);
    let body = cr + 2;
    if marker == 43 {
        let payload = copy_range(buf, pos + 1, cr);
        Ok((DataType::SimpleString(payload), body))
    } else if marker == 45 {
        let payload = copy_range(buf, pos + 1, cr);
        Ok((DataType::SimpleError(payload), body))
    } else if marker == 58 {
        match parse_i64_bytes(buf, pos + 1, cr) {
            Some(v) => Ok((DataType::Integer(v), body)),
            None => Err(DecodeError::Malformed),
        }
    } else if marker == 36 {
        if cr == pos + 3 && buf[pos + 1] == 45 && buf[pos + 2] == 49 {
            proof {
                assert(line =~= seq![45u8, 49u8]);
            }
            Ok((DataType::NullBulkString, body))
        } else {
            proof {
                if line == seq![45u8, 49u8] {
                    assert(line.len() == 2);
                    assert(line[0] == buf@[pos as int + 1]);
                    assert(line[1] == buf@[pos as int + 2]);
                    assert(false);
                }
            }
            match parse_digits(buf, pos + 1, cr) {
                Some(n64) => {
                    if n64 > usize::MAX as u64 {
                        return Err(DecodeError::Malformed);
                    }
                    let n = n64 as usize;
                    if buf.len() - body < n {
                        return Err(DecodeError::Incomplete);
                    }
                    if buf.len() - body - n < 2 {
                        return Err(DecodeError::Incomplete);
                    }
                    if buf[body + n] == 13 && buf[body + n + 1] == 10 {
                        let payload = copy_range(buf, body, body + n);
                        Ok((DataType::BulkString(payload), body + n + 2))
                    } else {
                        Err(DecodeError::Malformed)
                    }
                },
                None => Err(DecodeError::Malformed),
            }
        }
    } else {
        match parse_digits(buf, pos + 1, cr) {
            Some(n64) => {
                if n64 > usize::MAX as u64 {
                    return Err(DecodeError::Malformed);
                }
                let n = n64 as usize;
                assert(parse_frame(buf@, pos as int) == parse_elems(
                    buf@,
                    body as int,
                    n as nat,
                    Seq::empty(),
                ));
                let mut elems: Vec<DataType> = Vec::new();
                let mut cur = body;
                let mut i: usize = 0;
                proof {
                    assert(seq_models(elems@) =~= Seq::<FrameModel>::empty());
                }
                while i < n
                    invariant
                        pos < body <= cur <= buf@.len(),
                        i <= n,
                        parse_frame(buf@, pos as int) == parse_elems(
                            buf@,
                            body as int,
                            n as nat,
                            Seq::empty(),
                        ),
                        parse_elems(buf@, body as int, n as nat, Seq::empty()) == parse_elems(
                            buf@,
                            cur as int,
                            (n - i) as nat,
                            seq_models(elems@),
                        ),
                    decreases n - i,
                {
                    match parse_data_type(buf, cur) {
                        Ok((f, next)) => {
                            proof {
                                assert(seq_models(elems@).push(f@) =~= seq_models(
                                    elems@.push(f),
                                ));
                            }
                            elems.push(f);
                            cur = next;
                        },
                        Err(e) => {
                            return Err(e);
                        },
                    }
                    i += 1;
                }
                proof {
                    lemma_array_model(elems);
                }
                Ok((DataType::Array(elems), cur))
            },
            None => Err(DecodeError::Malformed),
        }
    }
}

// ---------------------------------------------------------------------------
// Round trip: decoding an encoding gives the frame back
// ---------------------------------------------------------------------------

/// If the first carriage return at or after `from` stands at `j`, `find_cr`
/// reports it.
proof fn lemma_find_cr_at(s: Seq<u8>, from: int, j: int)
    requires
        0 <= from <= j < s.len(),
        s[j] == 13,
        forall|k: int| from <= k < j ==> s[k] != 13,
    ensures
        find_cr(s, from) == Some(j),
    decreases j - from,
{
    if from < j {
        lemma_find_cr_at(s, from + 1, j);
    }
}

/// Spells a subrange equality out byte by byte.
proof fn lemma_bytes_at(s: Seq<u8>, pos: int, enc: Seq<u8>)
    requires
        0 <= pos,
        pos + enc.len() <= s.len(),
        s.subrange(pos, pos + enc.len() as int) == enc,
    ensures
        forall|k: int| pos <= k < pos + enc.len() ==> #[trigger] s[k] == enc[k - pos],
{
    assert forall|k: int| pos <= k < pos + enc.len() implies #[trigger] s[k] == enc[k - pos] by {
        assert(s.subrange(pos, pos + enc.len() as int)[k - pos] == enc[k - pos]);
    }
}

/// The digits of a signed value contain neither terminator byte.
proof fn lemma_int_digits_clean(v: int)
    ensures
        line_ok(int_digits(v)),
        int_digits(v).len() >= 1,
{
    if v < 0 {
        lemma_dec_digits_shape((-v) as nat);
    } else {
        lemma_dec_digits_shape(v as nat);
    }
}

/// Reading back the decimal text of a 64-bit value gives the value.
proof fn lemma_parse_int_digits(v: int)
    requires
        i64::MIN <= v <= i64::MAX,
    ensures
        parse_i64_text(int_digits(v)) == Some(v as i64),
{
    if v < 0 {
        let d = dec_digits((-v) as nat);
        lemma_dec_digits_shape((-v) as nat);
        lemma_dec_digits_val((-v) as nat);
        let s = int_digits(v);
        assert(s[0] == 45);
        assert(s.subrange(1, s.len() as int) =~= d);
        assert(digits_val(d) == -v);
        assert(parse_i64_text(s) == Some((-digits_val(d)) as i64));
        assert((-digits_val(d)) as i64 == v as i64);
    } else {
        let s = dec_digits(v as nat);
        lemma_dec_digits_shape(v as nat);
        lemma_dec_digits_val(v as nat);
        assert(is_digit(s[0]));
        assert(s[0] != 45);
        assert(parse_i64_text(s) == Some(digits_val(s) as i64));
    }
}

/// Decoding an encoded well-formed frame inside any larger buffer yields that
/// frame and consumes exactly its bytes.
#[verifier::rlimit(100)]
pub proof fn lemma_parse_of_encoding(f: FrameModel, s: Seq<u8>, pos: int)
    requires
        wf_frame(f),
        0 <= pos,
        pos + encode_frame(f).len() <= s.len(),
        s.subrange(pos, pos + encode_frame(f).len() as int) == encode_frame(f),
    ensures
        parse_frame(s, pos) == ParseResult::Parsed(f, pos + encode_frame(f).len()),
    decreases f, 0int,
{
    let enc = encode_frame(f);
    let ln = enc.len() as int;
    lemma_bytes_at(s, pos, enc);
    match f {
        FrameModel::SimpleString(p) => {
            let j = pos + 1 + p.len() as int;
            assert(s[j] == enc[j - pos]);
            lemma_find_cr_at(s, pos + 1, j);
            assert(s[j + 1] == 10);
            assert(s.subrange(pos + 1, j) =~= p);
        },
        FrameModel::SimpleError(p) => {
            let j = pos + 1 + p.len() as int;
            assert(s[j] == enc[j - pos]);
            lemma_find_cr_at(s, pos + 1, j);
            assert(s[j + 1] == 10);
            assert(s.subrange(pos + 1, j) =~= p);
        },
        FrameModel::Integer(v) => {
            lemma_int_digits_clean(v);
            let d = int_digits(v);
            let j = pos + 1 + d.len() as int;
            lemma_find_cr_at(s, pos + 1, j);
            assert(s[j + 1] == 10);
            assert(s.subrange(pos + 1, j) =~= d);
            lemma_parse_int_digits(v);
            assert((parse_i64_text(d)->Some_0) as int == v);
        },
        FrameModel::NullBulkString => {
            lemma_find_cr_at(s, pos + 1, pos + 3);
            assert(s[pos + 4] == 10);
            assert(s.subrange(pos + 1, pos + 3) =~= seq![45u8, 49u8]);
        },
        FrameModel::BulkString(p) => {
            let d = dec_digits(p.len());
            lemma_dec_digits_shape(p.len());
            lemma_dec_digits_val(p.len());
            let j = pos + 1 + d.len() as int;
            lemma_find_cr_at(s, pos + 1, j);
            assert(s[j + 1] == 10);
            let line = s.subrange(pos + 1, j);
            assert(line =~= d);
            assert(is_digit(line[0]));
            assert(line != seq![45u8, 49u8]);
            let body = j + 2;
            assert(s[body + p.len()] == enc[body + p.len() - pos]);
            assert(enc[body + p.len() - pos] == 13);
            assert(s[body + p.len() + 1] == 10);
            assert(s.subrange(body, body + p.len() as int) =~= p);
            assert(body + p.len() + 2 == pos + ln);
        },
        FrameModel::Array(elems) => {
            let d = dec_digits(elems.len());
            lemma_dec_digits_shape(elems.len());
            lemma_dec_digits_val(elems.len());
            let j = pos + 1 + d.len() as int;
            lemma_find_cr_at(s, pos + 1, j);
            assert(s[j + 1] == 10);
            let line = s.subrange(pos + 1, j);
            assert(line =~= d);
            let body = j + 2;
            let tail = encode_elems(elems);
            assert(s.subrange(body, body + tail.len() as int) =~= tail) by {
                assert forall|k: int| 0 <= k < tail.len() implies s.subrange(
                    body,
                    body + tail.len() as int,
                )[k] == tail[k] by {
                    assert(s[body + k] == enc[body + k - pos]);
                    assert(enc[body + k - pos] == tail[k]);
                }
            }
            lemma_parse_elems_of_encoding(elems, s, body, Seq::empty());
            assert(Seq::empty() + elems =~= elems);
            assert(body + tail.len() == pos + ln);
        },
    }
}

/// Decoding the concatenated encodings of `count` well-formed frames collects
/// exactly those frames after `acc`.
pub proof fn lemma_parse_elems_of_encoding(
    elems: Seq<FrameModel>,
    s: Seq<u8>,
    pos: int,
    acc: Seq<FrameModel>,
)
    requires
        forall|i: int| 0 <= i < elems.len() ==> wf_frame(#[trigger] elems[i]),
        0 <= pos,
        pos + encode_elems(elems).len() <= s.len(),
        s.subrange(pos, pos + encode_elems(elems).len() as int) == encode_elems(elems),
    ensures
        parse_elems(s, pos, elems.len(), acc) == ParseResult::Parsed(
            FrameModel::Array(acc + elems),
            pos + encode_elems(elems).len(),
        ),
    decreases elems, 1int,
{
    if elems.len() == 0 {
        assert(acc + elems =~= acc);
    } else {
        let e0 = elems[0];
        let rest = elems.subrange(1, elems.len() as int);
        let enc = encode_elems(elems);
        let enc0 = encode_frame(e0);
        let encr = encode_elems(rest);
        assert(enc == enc0 + encr);
        lemma_bytes_at(s, pos, enc);
        assert(s.subrange(pos, pos + enc0.len() as int) =~= enc0) by {
            assert forall|k: int| 0 <= k < enc0.len() implies s.subrange(
                pos,
                pos + enc0.len() as int,
            )[k] == enc0[k] by {
                assert(s[pos + k] == enc[k]);
            }
        }
        lemma_parse_of_encoding(e0, s, pos);
        lemma_encode_frame_len(e0);
        let mid = pos + enc0.len() as int;
        assert(s.subrange(mid, mid + encr.len() as int) =~= encr) by {
            assert forall|k: int| 0 <= k < encr.len() implies s.subrange(
                mid,
                mid + encr.len() as int,
            )[k] == encr[k] by {
                assert(s[mid + k] == enc[enc0.len() + k]);
            }
        }
        lemma_parse_elems_of_encoding(rest, s, mid, acc.push(e0));
        assert(acc.push(e0) + rest =~= acc + elems);
    }
}

/// Round trip: the encoding of any well-formed frame, followed by anything at
/// all, decodes to that frame, consuming exactly the encoding.
pub proof fn lemma_encode_decode_round_trip(f: FrameModel, rest: Seq<u8>)
    requires
        wf_frame(f),
    ensures
        parse_frame(encode_frame(f) + rest, 0) == ParseResult::Parsed(
            f,
            encode_frame(f).len() as int,
        ),
{
    let s = encode_frame(f) + rest;
    assert(s.subrange(0, encode_frame(f).len() as int) =~= encode_frame(f));
    lemma_parse_of_encoding(f, s, 0);
}

/// Length fidelity: a bulk string whose declared length differs from the
/// length of the payload that follows never decodes successfully — neither
/// truncated nor padded.
pub proof fn lemma_bulk_length_fidelity(n: nat, p: Seq<u8>)
    requires
        line_ok(p),
        n != p.len(),
    ensures
        !(parse_frame(seq![36u8] + dec_digits(n) + crlf() + p + crlf(), 0) is Parsed),
{
    let d = dec_digits(n);
    lemma_dec_digits_shape(n);
    lemma_dec_digits_val(n);
    let s = seq![36u8] + d + crlf() + p + crlf();
    let j = 1 + d.len() as int;
    lemma_find_cr_at(s, 1, j);
    assert(s[j + 1] == 10);
    let line = s.subrange(1, j);
    assert(line =~= d);
    assert(is_digit(line[0]));
    assert(line != seq![45u8, 49u8]);
    let body = j + 2;
    if n <= usize::MAX {
        if body + n + 2 <= s.len() {
            assert(n < p.len());
            assert(s[body + n] == p[n as int]);
            assert(s[body + n] != 13);
        }
    }
}

} // verus!
