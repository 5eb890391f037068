//! The versioned byte schema of op requests and responses.
//!
//! A control buffer carries one request: a version byte, the op id, the
//! request id, a sync/async flag, and a list of 32-bit little-endian
//! argument words. A response buffer carries the version byte, the request
//! id, a status byte (zero for success, an error code otherwise) and an
//! optional raw payload. Exactly one response buffer is produced per request.

use vstd::prelude::*;
use crate::errors::DispatchError;

verus! {

/// Status byte of a successful response.
pub const STATUS_OK: u8 = 0;
/// No handler is registered under the op id.
pub const ERR_UNKNOWN_OP: u8 = 1;
/// The control buffer (or an argument list) is structurally invalid.
pub const ERR_MALFORMED: u8 = 2;
/// The resource id was never allocated.
pub const ERR_NOT_FOUND: u8 = 3;
/// The resource id was allocated once but is no longer open.
pub const ERR_ALREADY_CLOSED: u8 = 4;
/// The op's resource was closed while its work was in flight.
pub const ERR_CANCELLED: u8 = 5;

/// Schema version of both control and response buffers.
pub const WIRE_VERSION: u8 = 1;
/// Fixed prefix of a control buffer, before the argument words.
pub const CONTROL_HEADER_LEN: usize = 14;

/// The 32-bit word encoded little-endian by four bytes.
pub open spec fn le32(b0: u8, b1: u8, b2: u8, b3: u8) -> u32 {
    (b0 as u32) | ((b1 as u32) << 8) | ((b2 as u32) << 16) | ((b3 as u32) << 24)
}

/// The byte of `x` that starts at bit `s` (one of 0, 8, 16, 24).
pub open spec fn byte_of(x: u32, s: u32) -> u8 {
    ((x >> s) & 0xff) as u8
}

/// The four-byte little-endian encoding of `x`.
pub open spec fn le32_bytes(x: u32) -> Seq<u8> {
    seq![byte_of(x, 0), byte_of(x, 8), byte_of(x, 16), byte_of(x, 24)]
}

pub proof fn lemma_le32_roundtrip(x: u32)
    ensures
        le32(byte_of(x, 0), byte_of(x, 8), byte_of(x, 16), byte_of(x, 24)) == x,
{
    assert((((x >> 0) & 0xff) as u8 as u32) | ((((x >> 8) & 0xff) as u8 as u32) << 8)
        | ((((x >> 16) & 0xff) as u8 as u32) << 16) | ((((x >> 24) & 0xff) as u8 as u32) << 24)
        == x) by (bit_vector);
}

/// One parsed op request, as the dispatcher sees it.
#[derive(Clone, PartialEq, Eq, Debug)]
pub struct ControlRequest {
    pub op_id: u32,
    pub request_id: u32,
    pub is_async: bool,
    pub args: Vec<u32>,
}

/// The mathematical model of a parsed request.
pub ghost struct ControlView {
    pub op_id: u32,
    pub request_id: u32,
    pub is_async: bool,
    pub args: Seq<u32>,
}

impl View for ControlRequest {
    type V = ControlView;

    open spec fn view(&self) -> ControlView {
        ControlView {
            op_id: self.op_id,
            request_id: self.request_id,
            is_async: self.is_async,
            args: self.args@,
        }
    }
}

/// What a control buffer means: `Some` request, or `None` when the buffer
/// is structurally invalid (wrong version, bad flag, or a length that does
/// not match the declared argument count).
pub open spec fn parse_control(b: Seq<u8>) -> Option<ControlView> {
    if b.len() < CONTROL_HEADER_LEN {
        None
    } else if b[0] != WIRE_VERSION {
        None
    } else if b[9] != 0u8 && b[9] != 1u8 {
        None
    } else {
        let argc = le32(b[10], b[11], b[12], b[13]);
        if b.len() != CONTROL_HEADER_LEN + 4 * (argc as int) {
            None
        } else {
            Some(ControlView {
                op_id: le32(b[1], b[2], b[3], b[4]),
                request_id: le32(b[5], b[6], b[7], b[8]),
                is_async: b[9] == 1u8,
                args: Seq::new(argc as nat, |i: int|
                    le32(b[14 + 4 * i], b[15 + 4 * i], b[16 + 4 * i], b[17 + 4 * i])),
            })
        }
    }
}

/// A response buffer: version, request id, status byte, payload.
pub open spec fn response_bytes(request_id: u32, status: u8, payload: Seq<u8>) -> Seq<u8> {
    seq![WIRE_VERSION] + le32_bytes(request_id) + seq![status] + payload
}

/// The single success response of a request.
pub open spec fn ok_response(request_id: u32, payload: Seq<u8>) -> Seq<u8> {
    response_bytes(request_id, STATUS_OK, payload)
}

/// An error response carries a code and no payload.
pub open spec fn err_response(request_id: u32, code: u8) -> Seq<u8> {
    response_bytes(request_id, code, Seq::empty())
}

/// An error response is never a success response: the status byte differs.
pub proof fn lemma_err_response_is_not_ok(request_id: u32, code: u8, payload: Seq<u8>)
    requires
        code != STATUS_OK,
    ensures
        err_response(request_id, code) != ok_response(request_id, payload),
{
    assert(err_response(request_id, code)[5] == code);
    assert(ok_response(request_id, payload)[5] == STATUS_OK);
}

/// Reads the word at `off` from a little-endian buffer.
pub fn decode_u32_le(b: &Vec<u8>, off: usize) -> (r: u32)
    requires
        off + 4 <= b@.len(),
    ensures
        r == le32(b@[off as int], b@[off as int + 1], b@[off as int + 2], b@[off as int + 3]),
{
    let n = b.len();
    assert(off + 4 <= n);
    (b[off] as u32) | ((b[off + 1] as u32) << 8) | ((b[off + 2] as u32) << 16)
        | ((b[off + 3] as u32) << 24)
}

proof fn lemma_byte_of_fits(x: u32, s: u32)
    ensures
        (x >> s) & 0xff < 256,
{
    assert((x >> s) & 0xff < 256) by (bit_vector);
}

/// Appends the four-byte little-endian encoding of `x`.
pub fn push_u32_le(out: &mut Vec<u8>, x: u32)
    ensures
        final(out)@ == old(out)@ + le32_bytes(x),
{
    proof {
        lemma_byte_of_fits(x, 0);
        lemma_byte_of_fits(x, 8);
        lemma_byte_of_fits(x, 16);
        lemma_byte_of_fits(x, 24);
        assert(x >> 0 == x) by (bit_vector);
    }
    out.push((x & 0xff) as u8);
    out.push(((x >> 8) & 0xff) as u8);
    out.push(((x >> 16) & 0xff) as u8);
    out.push(((x >> 24) & 0xff) as u8);
    assert(final(out)@ =~= old(out)@ + le32_bytes(x));
}

/// Builds the response buffer for `request_id` with the given status and
/// payload.
pub fn encode_response(request_id: u32, status: u8, payload: &Vec<u8>) -> (r: Vec<u8>)
    ensures
        r@ == response_bytes(request_id, status, payload@),
{
    let mut out: Vec<u8> = Vec::new();
    out.push(WIRE_VERSION);
    push_u32_le(&mut out, request_id);
    out.push(status);
    let mut i: usize = 0;
    while i < payload.len()
        invariant
            i <= payload@.len(),
            out@ == seq![WIRE_VERSION] + le32_bytes(request_id) + seq![status]
                + payload@.subrange(0, i as int),
        decreases payload@.len() - i,
    {
        out.push(payload[i]);
        i += 1;
        assert(out@ =~= seq![WIRE_VERSION] + le32_bytes(request_id) + seq![status]
            + payload@.subrange(0, i as int));
    }
    assert(out@ =~= response_bytes(request_id, status, payload@));
    out
}

/// Parses a control buffer, or reports it malformed. A malformed buffer is
/// rejected here; the responsible handler is never invoked for it.
pub fn decode_control(b: &Vec<u8>) -> (r: Result<ControlRequest, DispatchError>)
    ensures
        match r {
            Ok(q) => parse_control(b@) == Some(q@),
            Err(e) => e == DispatchError::MalformedRequest && parse_control(b@) is None,
        },
{
    if b.len() < CONTROL_HEADER_LEN {
        return Err(DispatchError::MalformedRequest);
    }
    if b[0] != WIRE_VERSION {
        return Err(DispatchError::MalformedRequest);
    }
    if b[9] != 0u8 && b[9] != 1u8 {
        return Err(DispatchError::MalformedRequest);
    }
    let argc = decode_u32_le(b, 10);
    let body_len: usize = b.len() - CONTROL_HEADER_LEN;
    if (argc as u64) * 4 != (body_len as u64) {
        assert(b@.len() != CONTROL_HEADER_LEN + 4 * (argc as int));
        return Err(DispatchError::MalformedRequest);
    }
    assert(b@.len() == CONTROL_HEADER_LEN + 4 * (argc as int));
    let op_id = decode_u32_le(b, 1);
    let request_id = decode_u32_le(b, 5);
    let is_async = b[9] == 1u8;
    let ghost model = parse_control(b@)->Some_0;
    let n: usize = b.len();
    let mut args: Vec<u32> = Vec::new();
    let mut i: usize = 0;
    while i < (argc as usize)
        invariant
            i <= argc as usize,
            n == b@.len(),
            b@.len() == CONTROL_HEADER_LEN + 4 * (argc as int),
            args@.len() == i,
            forall|j: int| 0 <= j < i ==> args@[j]
                == le32(b@[14 + 4 * j], b@[15 + 4 * j], b@[16 + 4 * j], b@[17 + 4 * j]),
        decreases argc as int - i,
    {
        assert(CONTROL_HEADER_LEN + 4 * (i as int) + 4 <= n as int);
        let off: usize = CONTROL_HEADER_LEN + 4 * i;
        args.push(decode_u32_le(b, off));
        i += 1;
    }
    assert(args@ =~= model.args);
    Ok(ControlRequest { op_id, request_id, is_async, args })
}

/// Builds the control buffer of a request. The buffer parses back to
/// exactly the request it was built from: encoding loses nothing.
pub fn encode_control(q: &ControlRequest) -> (r: Vec<u8>)
    requires
        q.args@.len() < 0x1_0000_0000,
        CONTROL_HEADER_LEN + 4 * q.args@.len() <= usize::MAX,
    ensures
        parse_control(r@) == Some(q@),
{
    let mut out: Vec<u8> = Vec::new();
    out.push(WIRE_VERSION);
    push_u32_le(&mut out, q.op_id);
    let ghost g1 = out@;
    assert(g1[0] == WIRE_VERSION);
    assert(g1[1] == byte_of(q.op_id, 0) && g1[2] == byte_of(q.op_id, 8)
        && g1[3] == byte_of(q.op_id, 16) && g1[4] == byte_of(q.op_id, 24));
    push_u32_le(&mut out, q.request_id);
    let ghost g2 = out@;
    assert(forall|i: int| 0 <= i < 5 ==> g2[i] == g1[i]);
    assert(g2[5] == byte_of(q.request_id, 0) && g2[6] == byte_of(q.request_id, 8)
        && g2[7] == byte_of(q.request_id, 16) && g2[8] == byte_of(q.request_id, 24));
    out.push(if q.is_async { 1u8 } else { 0u8 });
    let ghost g3 = out@;
    assert(forall|i: int| 0 <= i < 9 ==> g3[i] == g2[i]);
    assert(g3[9] == (if q.is_async { 1u8 } else { 0u8 }));
    let argc: u32 = q.args.len() as u32;
    push_u32_le(&mut out, argc);
    assert(out@.len() == CONTROL_HEADER_LEN);
    let ghost header = out@;
    assert(forall|i: int| 0 <= i < 10 ==> header[i] == g3[i]);
    assert(header[10] == byte_of(argc, 0) && header[11] == byte_of(argc, 8)
        && header[12] == byte_of(argc, 16) && header[13] == byte_of(argc, 24));
    assert(header + flat_args(q.args@.subrange(0, 0)) =~= header);
    let mut i: usize = 0;
    while i < q.args.len()
        invariant
            i <= q.args@.len(),
            out@ == header + flat_args(q.args@.subrange(0, i as int)),
            out@.len() == CONTROL_HEADER_LEN + 4 * i,
        decreases q.args@.len() - i,
    {
        push_u32_le(&mut out, q.args[i]);
        i += 1;
        proof {
            lemma_flat_args_snoc(q.args@, i as int);
            assert(out@ =~= header + flat_args(q.args@.subrange(0, i as int)));
        }
    }
    proof {
        assert(q.args@.subrange(0, q.args@.len() as int) =~= q.args@);
        lemma_encode_parses(out@, q@, header);
    }
    out
}

/// The concatenated little-endian encodings of the argument words.
pub open spec fn flat_args(args: Seq<u32>) -> Seq<u8>
    decreases args.len(),
{
    if args.len() == 0 {
        Seq::empty()
    } else {
        flat_args(args.drop_last()) + le32_bytes(args.last())
    }
}

proof fn lemma_flat_args_len(args: Seq<u32>)
    ensures
        flat_args(args).len() == 4 * args.len(),
    decreases args.len(),
{
    if args.len() > 0 {
        lemma_flat_args_len(args.drop_last());
    }
}

proof fn lemma_flat_args_snoc(args: Seq<u32>, i: int)
    requires
        1 <= i <= args.len(),
    ensures
        flat_args(args.subrange(0, i)) == flat_args(args.subrange(0, i - 1))
            + le32_bytes(args[i - 1]),
{
    let s = args.subrange(0, i);
    assert(s.drop_last() =~= args.subrange(0, i - 1));
    assert(s.last() == args[i - 1]);
}

proof fn lemma_flat_args_index(args: Seq<u32>, j: int, k: int)
    requires
        0 <= j < args.len(),
        0 <= k < 4,
    ensures
        flat_args(args)[4 * j + k] == le32_bytes(args[j])[k],
    decreases args.len(),
{
    lemma_flat_args_len(args);
    if j == args.len() - 1 {
        lemma_flat_args_len(args.drop_last());
    } else {
        lemma_flat_args_len(args.drop_last());
        lemma_flat_args_index(args.drop_last(), j, k);
        assert(args.drop_last()[j] == args[j]);
    }
}

proof fn lemma_encode_parses(b: Seq<u8>, q: ControlView, header: Seq<u8>)
    requires
        q.args.len() < 0x1_0000_0000,
        header.len() == CONTROL_HEADER_LEN,
        header[0] == WIRE_VERSION,
        header[1] == byte_of(q.op_id, 0),
        header[2] == byte_of(q.op_id, 8),
        header[3] == byte_of(q.op_id, 16),
        header[4] == byte_of(q.op_id, 24),
        header[5] == byte_of(q.request_id, 0),
        header[6] == byte_of(q.request_id, 8),
        header[7] == byte_of(q.request_id, 16),
        header[8] == byte_of(q.request_id, 24),
        header[9] == (if q.is_async { 1u8 } else { 0u8 }),
        header[10] == byte_of((q.args.len() as u32), 0),
        header[11] == byte_of((q.args.len() as u32), 8),
        header[12] == byte_of((q.args.len() as u32), 16),
        header[13] == byte_of((q.args.len() as u32), 24),
        b == header + flat_args(q.args),
    ensures
        parse_control(b) == Some(q),
{
    lemma_flat_args_len(q.args);
    assert(header.len() == CONTROL_HEADER_LEN);
    assert(b.len() == CONTROL_HEADER_LEN + 4 * q.args.len());
    assert(forall|i: int| 0 <= i < CONTROL_HEADER_LEN ==> b[i] == header[i]);
    assert(b[0] == WIRE_VERSION);
    lemma_le32_roundtrip(q.op_id);
    lemma_le32_roundtrip(q.request_id);
    lemma_le32_roundtrip(q.args.len() as u32);
    assert(le32(b[1], b[2], b[3], b[4]) == q.op_id);
    assert(le32(b[5], b[6], b[7], b[8]) == q.request_id);
    let argc = le32(b[10], b[11], b[12], b[13]);
    assert(argc == q.args.len() as u32);
    assert(b[9] == (if q.is_async { 1u8 } else { 0u8 }));
    let parsed_args = Seq::new(argc as nat, |i: int|
        le32(b[14 + 4 * i], b[15 + 4 * i], b[16 + 4 * i], b[17 + 4 * i]));
    assert forall|i: int| 0 <= i < q.args.len() implies parsed_args[i] == q.args[i] by {
        lemma_flat_args_index(q.args, i, 0);
        lemma_flat_args_index(q.args, i, 1);
        lemma_flat_args_index(q.args, i, 2);
        lemma_flat_args_index(q.args, i, 3);
        assert(b[14 + 4 * i] == flat_args(q.args)[4 * i]);
        assert(b[15 + 4 * i] == flat_args(q.args)[4 * i + 1]);
        assert(b[16 + 4 * i] == flat_args(q.args)[4 * i + 2]);
        assert(b[17 + 4 * i] == flat_args(q.args)[4 * i + 3]);
        lemma_le32_roundtrip(q.args[i]);
    }
    assert(parsed_args =~= q.args);
    assert(parse_control(b) == Some(q));
}

} // verus!
