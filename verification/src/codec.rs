//! Binary codec for the oracle proof packet schema.
//!
//! The wire format is length-prefixed, big-endian and tag-free: strings and
//! byte buffers carry a 4-byte big-endian length prefix followed by their raw
//! bytes, unsigned integers are fixed-width big-endian, and struct fields are
//! concatenated in declaration order with no padding or separators.
//! Decoding reads fields strictly in that order, fails with
//! [`DecodeError::Truncated`] on any underflow, and tolerates trailing bytes.

use vstd::prelude::*;
use vstd::slice::{slice_subrange, slice_to_vec};
use vstd::std_specs::cmp::PartialEqSpec;

verus! {

/// One oracle data request. `client_id` holds the raw bytes of the
/// caller-supplied label; the codec does not validate them as UTF-8.
#[derive(Clone, Debug)]
pub struct Req {
    pub client_id: Vec<u8>,
    pub oracle_script_id: u64,
    pub calldata: Vec<u8>,
    pub ans_count: u64,
    pub min_count: u64,
}

/// The oracle network's resolved answer for a request. `result` is an opaque
/// payload; the codec only handles its length and bytes.
#[derive(Clone, Debug)]
pub struct Res {
    pub client_id: Vec<u8>,
    pub request_id: u64,
    pub ans_count: u64,
    pub request_time: u64,
    pub resolve_time: u64,
    pub resolve_status: u8,
    pub result: Vec<u8>,
}

/// The unit of storage: one request paired with one response.
#[derive(Clone, Debug)]
pub struct MyPacket {
    pub req: Req,
    pub res: Res,
}

/// Mathematical model of a [`Req`].
pub struct ReqV {
    pub client_id: Seq<u8>,
    pub oracle_script_id: u64,
    pub calldata: Seq<u8>,
    pub ans_count: u64,
    pub min_count: u64,
}

/// Mathematical model of a [`Res`].
pub struct ResV {
    pub client_id: Seq<u8>,
    pub request_id: u64,
    pub ans_count: u64,
    pub request_time: u64,
    pub resolve_time: u64,
    pub resolve_status: u8,
    pub result: Seq<u8>,
}

/// Mathematical model of a [`MyPacket`].
pub struct PacketV {
    pub req: ReqV,
    pub res: ResV,
}

impl View for Req {
    type V = ReqV;

    open spec fn view(&self) -> ReqV {
        ReqV {
            client_id: self.client_id@,
            oracle_script_id: self.oracle_script_id,
            calldata: self.calldata@,
            ans_count: self.ans_count,
            min_count: self.min_count,
        }
    }
}

impl View for Res {
    type V = ResV;

    open spec fn view(&self) -> ResV {
        ResV {
            client_id: self.client_id@,
            request_id: self.request_id,
            ans_count: self.ans_count,
            request_time: self.request_time,
            resolve_time: self.resolve_time,
            resolve_status: self.resolve_status,
            result: self.result@,
        }
    }
}

impl View for MyPacket {
    type V = PacketV;

    open spec fn view(&self) -> PacketV {
        PacketV { req: self.req@, res: self.res@ }
    }
}

impl ReqV {
    /// A request is encodable when its variable-length fields fit a 4-byte
    /// length prefix.
    pub open spec fn wf(self) -> bool {
        self.client_id.len() <= u32::MAX && self.calldata.len() <= u32::MAX
    }
}

impl ResV {
    /// A response is encodable when its variable-length fields fit a 4-byte
    /// length prefix.
    pub open spec fn wf(self) -> bool {
        self.client_id.len() <= u32::MAX && self.result.len() <= u32::MAX
    }
}

impl PacketV {
    pub open spec fn wf(self) -> bool {
        self.req.wf() && self.res.wf()
    }
}

/// The decode failures of the codec. A buffer too short for the declared
/// schema is the only way decoding can fail.
#[derive(Clone, Copy, Debug, PartialEq, Eq, Structural)]
pub enum DecodeError {
    Truncated,
}

// ---------------------------------------------------------------------------
// Canonical encoding, as a specification
// ---------------------------------------------------------------------------

/// The 4 bytes of `n` in big-endian order.
pub open spec fn be_bytes_u32(n: u32) -> Seq<u8> {
    seq![
        ((n >> 24) & 0xff) as u8,
        ((n >> 16) & 0xff) as u8,
        ((n >> 8) & 0xff) as u8,
        (n & 0xff) as u8,
    ]
}

/// The 8 bytes of `n` in big-endian order.
pub open spec fn be_bytes_u64(n: u64) -> Seq<u8> {
    seq![
        ((n >> 56) & 0xff) as u8,
        ((n >> 48) & 0xff) as u8,
        ((n >> 40) & 0xff) as u8,
        ((n >> 32) & 0xff) as u8,
        ((n >> 24) & 0xff) as u8,
        ((n >> 16) & 0xff) as u8,
        ((n >> 8) & 0xff) as u8,
        (n & 0xff) as u8,
    ]
}

/// A variable-length field: 4-byte big-endian length prefix, then the bytes.
/// Meaningful when `b.len()` fits in a `u32`.
pub open spec fn len_prefixed(b: Seq<u8>) -> Seq<u8> {
    be_bytes_u32(b.len() as u32) + b
}

/// Canonical encoding of a request: fields in declaration order.
pub open spec fn spec_encode_req(r: ReqV) -> Seq<u8> {
    len_prefixed(r.client_id) + be_bytes_u64(r.oracle_script_id) + len_prefixed(r.calldata)
        + be_bytes_u64(r.ans_count) + be_bytes_u64(r.min_count)
}

/// Canonical encoding of a response: fields in declaration order.
pub open spec fn spec_encode_res(r: ResV) -> Seq<u8> {
    len_prefixed(r.client_id) + be_bytes_u64(r.request_id) + be_bytes_u64(r.ans_count)
        + be_bytes_u64(r.request_time) + be_bytes_u64(r.resolve_time) + seq![r.resolve_status]
        + len_prefixed(r.result)
}

/// Canonical encoding of a packet: the request's fields, then the response's.
pub open spec fn spec_encode_packet(p: PacketV) -> Seq<u8> {
    spec_encode_req(p.req) + spec_encode_res(p.res)
}

/// Byte-buffer equality, stated over the views.
fn bytes_eq(a: &Vec<u8>, b: &Vec<u8>) -> (r: bool)
    ensures
        r == (a@ == b@),
{
    let r = a == b;
    proof {
        if a.eq_spec(b) {
            assert(a@ =~= b@);
        } else {
            if a@ == b@ {
                assert(a.eq_spec(b));
            }
        }
    }
    r
}

impl PartialEq for Req {
    /// Field-for-field equality.
    fn eq(&self, other: &Req) -> bool {
        bytes_eq(&self.client_id, &other.client_id) && self.oracle_script_id
            == other.oracle_script_id && bytes_eq(&self.calldata, &other.calldata)
            && self.ans_count == other.ans_count && self.min_count == other.min_count
    }
}

impl vstd::std_specs::cmp::PartialEqSpecImpl for Req {
    open spec fn obeys_eq_spec() -> bool {
        true
    }

    open spec fn eq_spec(&self, other: &Req) -> bool {
        self@ == other@
    }
}

impl PartialEq for Res {
    /// Field-for-field equality.
    fn eq(&self, other: &Res) -> bool {
        bytes_eq(&self.client_id, &other.client_id) && self.request_id == other.request_id
            && self.ans_count == other.ans_count && self.request_time == other.request_time
            && self.resolve_time == other.resolve_time && self.resolve_status
            == other.resolve_status && bytes_eq(&self.result, &other.result)
    }
}

impl vstd::std_specs::cmp::PartialEqSpecImpl for Res {
    open spec fn obeys_eq_spec() -> bool {
        true
    }

    open spec fn eq_spec(&self, other: &Res) -> bool {
        self@ == other@
    }
}

impl PartialEq for MyPacket {
    /// Field-for-field equality.
    fn eq(&self, other: &MyPacket) -> bool {
        self.req == other.req && self.res == other.res
    }
}

impl vstd::std_specs::cmp::PartialEqSpecImpl for MyPacket {
    open spec fn obeys_eq_spec() -> bool {
        true
    }

    open spec fn eq_spec(&self, other: &MyPacket) -> bool {
        self@ == other@
    }
}

// ---------------------------------------------------------------------------
// Decoding, as a specification
// ---------------------------------------------------------------------------

/// The `u32` read big-endian from a 4-byte sequence.
pub open spec fn u32_from_be(b: Seq<u8>) -> u32
    recommends
        b.len() == 4,
{
    (((b[0] as u32) << 24) | ((b[1] as u32) << 16) | ((b[2] as u32) << 8) | (b[3] as u32)) as u32
}

/// The `u64` read big-endian from an 8-byte sequence.
pub open spec fn u64_from_be(b: Seq<u8>) -> u64
    recommends
        b.len() == 8,
{
    (((b[0] as u64) << 56) | ((b[1] as u64) << 48) | ((b[2] as u64) << 40) | ((b[3] as u64) << 32)
        | ((b[4] as u64) << 24) | ((b[5] as u64) << 16) | ((b[6] as u64) << 8) | (b[7] as u64)) as u64
}

/// Reads one byte at offset `i`; yields the value and the next offset.
pub open spec fn rd_u8(b: Seq<u8>, i: int) -> Option<(u8, int)> {
    if 0 <= i && i + 1 <= b.len() {
        Some((b[i], i + 1))
    } else {
        None
    }
}

/// Reads a big-endian `u32` at offset `i`.
pub open spec fn rd_u32(b: Seq<u8>, i: int) -> Option<(u32, int)> {
    if 0 <= i && i + 4 <= b.len() {
        Some((u32_from_be(b.subrange(i, i + 4)), i + 4))
    } else {
        None
    }
}

/// Reads a big-endian `u64` at offset `i`.
pub open spec fn rd_u64(b: Seq<u8>, i: int) -> Option<(u64, int)> {
    if 0 <= i && i + 8 <= b.len() {
        Some((u64_from_be(b.subrange(i, i + 8)), i + 8))
    } else {
        None
    }
}

/// Reads a length-prefixed variable-length field at offset `i`. Fails when
/// the length prefix claims more bytes than remain.
pub open spec fn rd_bytes(b: Seq<u8>, i: int) -> Option<(Seq<u8>, int)> {
    match rd_u32(b, i) {
        Some(ln) => {
            let n = ln.0 as int;
            let j = ln.1;
            if j + n <= b.len() {
                Some((b.subrange(j, j + n), j + n))
            } else {
                None
            }
        },
        None => None,
    }
}

/// Reads the five request fields in declaration order at offset `i`.
pub open spec fn rd_req(b: Seq<u8>, i: int) -> Option<(ReqV, int)> {
    match rd_bytes(b, i) {
        None => None,
        Some(f0) => match rd_u64(b, f0.1) {
            None => None,
            Some(f1) => match rd_bytes(b, f1.1) {
                None => None,
                Some(f2) => match rd_u64(b, f2.1) {
                    None => None,
                    Some(f3) => match rd_u64(b, f3.1) {
                        None => None,
                        Some(f4) => Some(
                            (
                                ReqV {
                                    client_id: f0.0,
                                    oracle_script_id: f1.0,
                                    calldata: f2.0,
                                    ans_count: f3.0,
                                    min_count: f4.0,
                                },
                                f4.1,
                            ),
                        ),
                    },
                },
            },
        },
    }
}

/// Reads the seven response fields in declaration order at offset `i`.
pub open spec fn rd_res(b: Seq<u8>, i: int) -> Option<(ResV, int)> {
    match rd_bytes(b, i) {
        None => None,
        Some(f0) => match rd_u64(b, f0.1) {
            None => None,
            Some(f1) => match rd_u64(b, f1.1) {
                None => None,
                Some(f2) => match rd_u64(b, f2.1) {
                    None => None,
                    Some(f3) => match rd_u64(b, f3.1) {
                        None => None,
                        Some(f4) => match rd_u8(b, f4.1) {
                            None => None,
                            Some(f5) => match rd_bytes(b, f5.1) {
                                None => None,
                                Some(f6) => Some(
                                    (
                                        ResV {
                                            client_id: f0.0,
                                            request_id: f1.0,
                                            ans_count: f2.0,
                                            request_time: f3.0,
                                            resolve_time: f4.0,
                                            resolve_status: f5.0,
                                            result: f6.0,
                                        },
                                        f6.1,
                                    ),
                                ),
                            },
                        },
                    },
                },
            },
        },
    }
}

/// Reads a whole packet at offset `i`: request, then response.
pub open spec fn rd_packet(b: Seq<u8>, i: int) -> Option<(PacketV, int)> {
    match rd_req(b, i) {
        None => None,
        Some(r) => match rd_res(b, r.1) {
            None => None,
            Some(s) => Some((PacketV { req: r.0, res: s.0 }, s.1)),
        },
    }
}

/// What decoding a buffer yields. Trailing bytes after the packet are not an
/// error.
pub open spec fn spec_decode(b: Seq<u8>) -> Option<PacketV> {
    match rd_packet(b, 0) {
        Some(p) => Some(p.0),
        None => None,
    }
}

// ---------------------------------------------------------------------------
// Decoder
// ---------------------------------------------------------------------------

/// Reads one byte, advancing the cursor; the cursor is left in place on
/// failure.
fn read_u8(b: &[u8], pos: &mut usize) -> (r: Result<u8, DecodeError>)
    requires
        *old(pos) <= b@.len(),
    ensures
        *final(pos) <= b@.len(),
        match rd_u8(b@, *old(pos) as int) {
            Some(v) => r == Ok::<u8, DecodeError>(v.0) && *final(pos) == v.1,
            None => r == Err::<u8, DecodeError>(DecodeError::Truncated) && *final(pos) == *old(
                pos,
            ),
        },
{
    if *pos < b.len() {
        let v = b[*pos];
        *pos = *pos + 1;
        Ok(v)
    } else {
        Err(DecodeError::Truncated)
    }
}

/// Reads a big-endian `u32`, advancing the cursor; the cursor is left in
/// place on failure.
fn read_u32(b: &[u8], pos: &mut usize) -> (r: Result<u32, DecodeError>)
    requires
        *old(pos) <= b@.len(),
    ensures
        *final(pos) <= b@.len(),
        match rd_u32(b@, *old(pos) as int) {
            Some(v) => r == Ok::<u32, DecodeError>(v.0) && *final(pos) == v.1,
            None => r == Err::<u32, DecodeError>(DecodeError::Truncated) && *final(pos) == *old(
                pos,
            ),
        },
{
    if b.len() - *pos >= 4 {
        let b0 = b[*pos];
        let b1 = b[*pos + 1];
        let b2 = b[*pos + 2];
        let b3 = b[*pos + 3];
        let v = ((b0 as u32) << 24) | ((b1 as u32) << 16) | ((b2 as u32) << 8) | (b3 as u32);
        proof {
            let s = b@.subrange(*pos as int, *pos + 4 as int);
            assert(s[0] == b0 && s[1] == b1 && s[2] == b2 && s[3] == b3);
        }
        *pos = *pos + 4;
        Ok(v)
    } else {
        Err(DecodeError::Truncated)
    }
}

/// Reads a big-endian `u64`, advancing the cursor; the cursor is left in
/// place on failure.
fn read_u64(b: &[u8], pos: &mut usize) -> (r: Result<u64, DecodeError>)
    requires
        *old(pos) <= b@.len(),
    ensures
        *final(pos) <= b@.len(),
        match rd_u64(b@, *old(pos) as int) {
            Some(v) => r == Ok::<u64, DecodeError>(v.0) && *final(pos) == v.1,
            None => r == Err::<u64, DecodeError>(DecodeError::Truncated) && *final(pos) == *old(
                pos,
            ),
        },
{
    if b.len() - *pos >= 8 {
        let b0 = b[*pos];
        let b1 = b[*pos + 1];
        let b2 = b[*pos + 2];
        let b3 = b[*pos + 3];
        let b4 = b[*pos + 4];
        let b5 = b[*pos + 5];
        let b6 = b[*pos + 6];
        let b7 = b[*pos + 7];
        let v = ((b0 as u64) << 56) | ((b1 as u64) << 48) | ((b2 as u64) << 40) | ((b3 as u64)
            << 32) | ((b4 as u64) << 24) | ((b5 as u64) << 16) | ((b6 as u64) << 8) | (b7 as u64);
        proof {
            let s = b@.subrange(*pos as int, *pos + 8 as int);
            assert(s[0] == b0 && s[1] == b1 && s[2] == b2 && s[3] == b3 && s[4] == b4 && s[5] == b5
                && s[6] == b6 && s[7] == b7);
        }
        *pos = *pos + 8;
        Ok(v)
    } else {
        Err(DecodeError::Truncated)
    }
}

/// Reads a length-prefixed variable-length field, advancing the cursor; the
/// cursor is left in place on failure.
fn read_bytes(b: &[u8], pos: &mut usize) -> (r: Result<Vec<u8>, DecodeError>)
    requires
        *old(pos) <= b@.len(),
    ensures
        *final(pos) <= b@.len(),
        match rd_bytes(b@, *old(pos) as int) {
            Some(v) => r matches Ok(out) && out@ == v.0 && *final(pos) == v.1,
            None => r == Err::<Vec<u8>, DecodeError>(DecodeError::Truncated) && *final(pos) == *old(
                pos,
            ),
        },
{
    let start = *pos;
    let n = match read_u32(b, pos) {
        Ok(n) => n,
        Err(e) => {
            return Err(e);
        },
    };
    let n_us = n as usize;
    if b.len() - *pos >= n_us {
        let out = slice_to_vec(slice_subrange(b, *pos, *pos + n_us));
        *pos = *pos + n_us;
        Ok(out)
    } else {
        *pos = start;
        Err(DecodeError::Truncated)
    }
}

/// Reads the five request fields, advancing the cursor; the cursor is left in
/// place on failure.
fn read_req(b: &[u8], pos: &mut usize) -> (r: Result<Req, DecodeError>)
    requires
        *old(pos) <= b@.len(),
    ensures
        *final(pos) <= b@.len(),
        match rd_req(b@, *old(pos) as int) {
            Some(v) => r matches Ok(req) && req@ == v.0 && v.0.wf() && *final(pos) == v.1,
            None => r == Err::<Req, DecodeError>(DecodeError::Truncated) && *final(pos) == *old(
                pos,
            ),
        },
{
    let start = *pos;
    let client_id = match read_bytes(b, pos) {
        Ok(v) => v,
        Err(e) => {
            *pos = start;
            return Err(e);
        },
    };
    let oracle_script_id = match read_u64(b, pos) {
        Ok(v) => v,
        Err(e) => {
            *pos = start;
            return Err(e);
        },
    };
    let calldata = match read_bytes(b, pos) {
        Ok(v) => v,
        Err(e) => {
            *pos = start;
            return Err(e);
        },
    };
    let ans_count = match read_u64(b, pos) {
        Ok(v) => v,
        Err(e) => {
            *pos = start;
            return Err(e);
        },
    };
    let min_count = match read_u64(b, pos) {
        Ok(v) => v,
        Err(e) => {
            *pos = start;
            return Err(e);
        },
    };
    Ok(Req { client_id, oracle_script_id, calldata, ans_count, min_count })
}

/// Reads the seven response fields, advancing the cursor; the cursor is left
/// in place on failure.
fn read_res(b: &[u8], pos: &mut usize) -> (r: Result<Res, DecodeError>)
    requires
        *old(pos) <= b@.len(),
    ensures
        *final(pos) <= b@.len(),
        match rd_res(b@, *old(pos) as int) {
            Some(v) => r matches Ok(res) && res@ == v.0 && v.0.wf() && *final(pos) == v.1,
            None => r == Err::<Res, DecodeError>(DecodeError::Truncated) && *final(pos) == *old(
                pos,
            ),
        },
{
    let start = *pos;
    let client_id = match read_bytes(b, pos) {
        Ok(v) => v,
        Err(e) => {
            *pos = start;
            return Err(e);
        },
    };
    let request_id = match read_u64(b, pos) {
        Ok(v) => v,
        Err(e) => {
            *pos = start;
            return Err(e);
        },
    };
    let ans_count = match read_u64(b, pos) {
        Ok(v) => v,
        Err(e) => {
            *pos = start;
            return Err(e);
        },
    };
    let request_time = match read_u64(b, pos) {
        Ok(v) => v,
        Err(e) => {
            *pos = start;
            return Err(e);
        },
    };
    let resolve_time = match read_u64(b, pos) {
        Ok(v) => v,
        Err(e) => {
            *pos = start;
            return Err(e);
        },
    };
    let resolve_status = match read_u8(b, pos) {
        Ok(v) => v,
        Err(e) => {
            *pos = start;
            return Err(e);
        },
    };
    let result = match read_bytes(b, pos) {
        Ok(v) => v,
        Err(e) => {
            *pos = start;
            return Err(e);
        },
    };
    Ok(
        Res {
            client_id,
            request_id,
            ans_count,
            request_time,
            resolve_time,
            resolve_status,
            result,
        },
    )
}

impl MyPacket {
    /// Decodes a packet from the front of `bytes`. Any underflow fails with
    /// [`DecodeError::Truncated`]; trailing bytes are not an error.
    pub fn decode(bytes: &[u8]) -> (r: Result<MyPacket, DecodeError>)
        ensures
            match spec_decode(bytes@) {
                Some(p) => r matches Ok(pk) && pk@ == p && p.wf(),
                None => r == Err::<MyPacket, DecodeError>(DecodeError::Truncated),
            },
    {
        let mut pos: usize = 0;
        let req = match read_req(bytes, &mut pos) {
            Ok(v) => v,
            Err(e) => {
                return Err(e);
            },
        };
        let res = match read_res(bytes, &mut pos) {
            Ok(v) => v,
            Err(e) => {
                return Err(e);
            },
        };
        Ok(MyPacket { req, res })
    }
}

// ---------------------------------------------------------------------------
// Encoder
// ---------------------------------------------------------------------------

/// Appends the 4 big-endian bytes of `n`.
fn push_u32_be(out: &mut Vec<u8>, n: u32)
    ensures
        final(out)@ == old(out)@ + be_bytes_u32(n),
{
    out.push(((n >> 24) & 0xff) as u8);
    out.push(((n >> 16) & 0xff) as u8);
    out.push(((n >> 8) & 0xff) as u8);
    out.push((n & 0xff) as u8);
    proof {
        assert(out@ =~= old(out)@ + be_bytes_u32(n));
    }
}

/// Appends the 8 big-endian bytes of `n`.
fn push_u64_be(out: &mut Vec<u8>, n: u64)
    ensures
        final(out)@ == old(out)@ + be_bytes_u64(n),
{
    out.push(((n >> 56) & 0xff) as u8);
    out.push(((n >> 48) & 0xff) as u8);
    out.push(((n >> 40) & 0xff) as u8);
    out.push(((n >> 32) & 0xff) as u8);
    out.push(((n >> 24) & 0xff) as u8);
    out.push(((n >> 16) & 0xff) as u8);
    out.push(((n >> 8) & 0xff) as u8);
    out.push((n & 0xff) as u8);
    proof {
        assert(out@ =~= old(out)@ + be_bytes_u64(n));
    }
}

/// Appends a length-prefixed variable-length field.
fn push_len_prefixed(out: &mut Vec<u8>, b: &Vec<u8>)
    requires
        b@.len() <= u32::MAX,
    ensures
        final(out)@ == old(out)@ + len_prefixed(b@),
{
    push_u32_be(out, b.len() as u32);
    out.extend_from_slice(b.as_slice());
    proof {
        assert(out@ =~= old(out)@ + len_prefixed(b@));
    }
}

impl Req {
    /// Canonical encoding of this request.
    pub fn encode(&self) -> (r: Vec<u8>)
        requires
            self@.wf(),
        ensures
            r@ == spec_encode_req(self@),
    {
        let mut out: Vec<u8> = Vec::new();
        push_len_prefixed(&mut out, &self.client_id);
        push_u64_be(&mut out, self.oracle_script_id);
        push_len_prefixed(&mut out, &self.calldata);
        push_u64_be(&mut out, self.ans_count);
        push_u64_be(&mut out, self.min_count);
        proof {
            assert(out@ =~= spec_encode_req(self@));
        }
        out
    }
}

impl Res {
    /// Canonical encoding of this response.
    pub fn encode(&self) -> (r: Vec<u8>)
        requires
            self@.wf(),
        ensures
            r@ == spec_encode_res(self@),
    {
        let mut out: Vec<u8> = Vec::new();
        push_len_prefixed(&mut out, &self.client_id);
        push_u64_be(&mut out, self.request_id);
        push_u64_be(&mut out, self.ans_count);
        push_u64_be(&mut out, self.request_time);
        push_u64_be(&mut out, self.resolve_time);
        out.push(self.resolve_status);
        push_len_prefixed(&mut out, &self.result);
        proof {
            assert(out@ =~= spec_encode_res(self@));
        }
        out
    }
}

impl MyPacket {
    /// Canonical encoding of this packet: request fields, then response
    /// fields, flat.
    pub fn encode(&self) -> (r: Vec<u8>)
        requires
            self@.wf(),
        ensures
            r@ == spec_encode_packet(self@),
    {
        let mut out = self.req.encode();
        let res_bytes = self.res.encode();
        out.extend_from_slice(res_bytes.as_slice());
        proof {
            assert(out@ =~= spec_encode_packet(self@));
        }
        out
    }
}

// ---------------------------------------------------------------------------
// Reading back what was encoded
// ---------------------------------------------------------------------------

proof fn lemma_u32_be_round(n: u32)
    ensures
        u32_from_be(be_bytes_u32(n)) == n,
{
    let b = be_bytes_u32(n);
    assert(b[0] == ((n >> 24) & 0xff) as u8);
    assert(b[1] == ((n >> 16) & 0xff) as u8);
    assert(b[2] == ((n >> 8) & 0xff) as u8);
    assert(b[3] == (n & 0xff) as u8);
    assert((((((n >> 24) & 0xff) as u8) as u32) << 24) | (((((n >> 16) & 0xff) as u8) as u32)
        << 16) | (((((n >> 8) & 0xff) as u8) as u32) << 8) | (((n & 0xff) as u8) as u32) == n)
        by (bit_vector);
}

proof fn lemma_u64_be_round(n: u64)
    ensures
        u64_from_be(be_bytes_u64(n)) == n,
{
    let b = be_bytes_u64(n);
    assert(b[0] == ((n >> 56) & 0xff) as u8);
    assert(b[1] == ((n >> 48) & 0xff) as u8);
    assert(b[2] == ((n >> 40) & 0xff) as u8);
    assert(b[3] == ((n >> 32) & 0xff) as u8);
    assert(b[4] == ((n >> 24) & 0xff) as u8);
    assert(b[5] == ((n >> 16) & 0xff) as u8);
    assert(b[6] == ((n >> 8) & 0xff) as u8);
    assert(b[7] == (n & 0xff) as u8);
    assert((((((n >> 56) & 0xff) as u8) as u64) << 56) | (((((n >> 48) & 0xff) as u8) as u64)
        << 48) | (((((n >> 40) & 0xff) as u8) as u64) << 40) | (((((n >> 32) & 0xff) as u8) as u64)
        << 32) | (((((n >> 24) & 0xff) as u8) as u64) << 24) | (((((n >> 16) & 0xff) as u8) as u64)
        << 16) | (((((n >> 8) & 0xff) as u8) as u64) << 8) | (((n & 0xff) as u8) as u64) == n)
        by (bit_vector);
}

proof fn lemma_rd_u8_at(b: Seq<u8>, i: int, v: u8)
    requires
        0 <= i,
        i + 1 <= b.len(),
        b.subrange(i, i + 1) == seq![v],
    ensures
        rd_u8(b, i) == Some((v, i + 1)),
{
    assert(b[i] == b.subrange(i, i + 1)[0]);
}

proof fn lemma_rd_u32_at(b: Seq<u8>, i: int, n: u32)
    requires
        0 <= i,
        i + 4 <= b.len(),
        b.subrange(i, i + 4) == be_bytes_u32(n),
    ensures
        rd_u32(b, i) == Some((n, i + 4)),
{
    lemma_u32_be_round(n);
}

proof fn lemma_rd_u64_at(b: Seq<u8>, i: int, n: u64)
    requires
        0 <= i,
        i + 8 <= b.len(),
        b.subrange(i, i + 8) == be_bytes_u64(n),
    ensures
        rd_u64(b, i) == Some((n, i + 8)),
{
    lemma_u64_be_round(n);
}

proof fn lemma_rd_bytes_at(b: Seq<u8>, i: int, data: Seq<u8>)
    requires
        0 <= i,
        data.len() <= u32::MAX,
        i + 4 + data.len() <= b.len(),
        b.subrange(i, i + 4 + data.len()) == len_prefixed(data),
    ensures
        rd_bytes(b, i) == Some((data, i + 4 + data.len())),
{
    let w = b.subrange(i, i + 4 + data.len());
    let n = data.len() as u32;
    assert(b.subrange(i, i + 4) =~= be_bytes_u32(n)) by {
        assert(forall|k: int| 0 <= k < 4 ==> b.subrange(i, i + 4)[k] == w[k]);
    }
    lemma_rd_u32_at(b, i, n);
    assert(b.subrange(i + 4, i + 4 + data.len()) =~= data) by {
        assert(forall|k: int|
            0 <= k < data.len() ==> #[trigger] b.subrange(i + 4, i + 4 + data.len())[k] == w[k
                + 4]);
    }
}

/// A window of `b` that holds `x + y` splits into a window holding `x` and a
/// window holding `y`.
proof fn lemma_split_window(b: Seq<u8>, i: int, x: Seq<u8>, y: Seq<u8>)
    requires
        0 <= i,
        i + x.len() + y.len() <= b.len(),
        b.subrange(i, i + x.len() + y.len()) == x + y,
    ensures
        b.subrange(i, i + x.len()) == x,
        b.subrange(i + x.len(), i + x.len() + y.len()) == y,
{
    let w = x + y;
    assert(b.subrange(i, i + x.len()) =~= x) by {
        assert(forall|k: int|
            0 <= k < x.len() ==> #[trigger] b.subrange(i, i + x.len())[k] == b.subrange(
                i,
                i + w.len(),
            )[k]);
    }
    assert(b.subrange(i + x.len(), i + x.len() + y.len()) =~= y) by {
        assert(forall|k: int|
            0 <= k < y.len() ==> #[trigger] b.subrange(i + x.len(), i + x.len() + y.len())[k]
                == b.subrange(i, i + w.len())[x.len() + k]);
    }
}

proof fn lemma_rd_req_at(b: Seq<u8>, i: int, r: ReqV)
    requires
        r.wf(),
        0 <= i,
        i + spec_encode_req(r).len() <= b.len(),
        b.subrange(i, i + spec_encode_req(r).len()) == spec_encode_req(r),
    ensures
        rd_req(b, i) == Some((r, i + spec_encode_req(r).len())),
{
    let e0 = len_prefixed(r.client_id);
    let e1 = be_bytes_u64(r.oracle_script_id);
    let e2 = len_prefixed(r.calldata);
    let e3 = be_bytes_u64(r.ans_count);
    let e4 = be_bytes_u64(r.min_count);
    let o0 = i;
    let o1 = o0 + e0.len();
    let o2 = o1 + e1.len();
    let o3 = o2 + e2.len();
    let o4 = o3 + e3.len();
    let o5 = o4 + e4.len();
    lemma_split_window(b, i, e0 + e1 + e2 + e3, e4);
    lemma_split_window(b, i, e0 + e1 + e2, e3);
    lemma_split_window(b, i, e0 + e1, e2);
    lemma_split_window(b, i, e0, e1);
    lemma_rd_bytes_at(b, o0, r.client_id);
    lemma_rd_u64_at(b, o1, r.oracle_script_id);
    lemma_rd_bytes_at(b, o2, r.calldata);
    lemma_rd_u64_at(b, o3, r.ans_count);
    lemma_rd_u64_at(b, o4, r.min_count);
    assert(rd_req(b, i) == Some((r, o5)));
}

proof fn lemma_rd_res_at(b: Seq<u8>, i: int, r: ResV)
    requires
        r.wf(),
        0 <= i,
        i + spec_encode_res(r).len() <= b.len(),
        b.subrange(i, i + spec_encode_res(r).len()) == spec_encode_res(r),
    ensures
        rd_res(b, i) == Some((r, i + spec_encode_res(r).len())),
{
    let e0 = len_prefixed(r.client_id);
    let e1 = be_bytes_u64(r.request_id);
    let e2 = be_bytes_u64(r.ans_count);
    let e3 = be_bytes_u64(r.request_time);
    let e4 = be_bytes_u64(r.resolve_time);
    let e5 = seq![r.resolve_status];
    let e6 = len_prefixed(r.result);
    let o0 = i;
    let o1 = o0 + e0.len();
    let o2 = o1 + e1.len();
    let o3 = o2 + e2.len();
    let o4 = o3 + e3.len();
    let o5 = o4 + e4.len();
    let o6 = o5 + e5.len();
    let o7 = o6 + e6.len();
    lemma_split_window(b, i, e0 + e1 + e2 + e3 + e4 + e5, e6);
    lemma_split_window(b, i, e0 + e1 + e2 + e3 + e4, e5);
    lemma_split_window(b, i, e0 + e1 + e2 + e3, e4);
    lemma_split_window(b, i, e0 + e1 + e2, e3);
    lemma_split_window(b, i, e0 + e1, e2);
    lemma_split_window(b, i, e0, e1);
    lemma_rd_bytes_at(b, o0, r.client_id);
    lemma_rd_u64_at(b, o1, r.request_id);
    lemma_rd_u64_at(b, o2, r.ans_count);
    lemma_rd_u64_at(b, o3, r.request_time);
    lemma_rd_u64_at(b, o4, r.resolve_time);
    lemma_rd_u8_at(b, o5, r.resolve_status);
    lemma_rd_bytes_at(b, o6, r.result);
    assert(rd_res(b, i) == Some((r, o7)));
}

proof fn lemma_rd_packet_at(b: Seq<u8>, i: int, p: PacketV)
    requires
        p.wf(),
        0 <= i,
        i + spec_encode_packet(p).len() <= b.len(),
        b.subrange(i, i + spec_encode_packet(p).len()) == spec_encode_packet(p),
    ensures
        rd_packet(b, i) == Some((p, i + spec_encode_packet(p).len())),
{
    let er = spec_encode_req(p.req);
    let es = spec_encode_res(p.res);
    lemma_split_window(b, i, er, es);
    lemma_rd_req_at(b, i, p.req);
    lemma_rd_res_at(b, i + er.len(), p.res);
}

/// Round-trip with a permissive tail: decoding a canonical encoding followed
/// by any trailing bytes yields the original packet.
pub proof fn lemma_decode_encode_with_tail(p: PacketV, extra: Seq<u8>)
    requires
        p.wf(),
    ensures
        spec_decode(spec_encode_packet(p) + extra) == Some(p),
{
    let enc = spec_encode_packet(p);
    let b = enc + extra;
    assert(b.subrange(0, enc.len() as int) =~= enc);
    lemma_rd_packet_at(b, 0, p);
}

/// Round-trip: decoding a canonical encoding yields the original packet,
/// field for field.
pub proof fn lemma_round_trip(p: PacketV)
    requires
        p.wf(),
    ensures
        spec_decode(spec_encode_packet(p)) == Some(p),
{
    let enc = spec_encode_packet(p);
    lemma_decode_encode_with_tail(p, Seq::empty());
    assert(enc + Seq::<u8>::empty() =~= enc);
}

// ---------------------------------------------------------------------------
// Truncation
// ---------------------------------------------------------------------------

proof fn lemma_rd_u8_take(b: Seq<u8>, i: int, m: int)
    requires
        0 <= i <= m <= b.len(),
    ensures
        match rd_u8(b, i) {
            Some(v) => (v.1 <= m ==> rd_u8(b.take(m), i) == rd_u8(b, i)) && (m < v.1 ==> rd_u8(
                b.take(m),
                i,
            ) == None::<(u8, int)>),
            None => rd_u8(b.take(m), i) == None::<(u8, int)>,
        },
{
}

proof fn lemma_rd_u32_take(b: Seq<u8>, i: int, m: int)
    requires
        0 <= i <= m <= b.len(),
    ensures
        match rd_u32(b, i) {
            Some(v) => (v.1 <= m ==> rd_u32(b.take(m), i) == rd_u32(b, i)) && (m < v.1
                ==> rd_u32(b.take(m), i) == None::<(u32, int)>),
            None => rd_u32(b.take(m), i) == None::<(u32, int)>,
        },
{
    if i + 4 <= m {
        assert(b.take(m).subrange(i, i + 4) =~= b.subrange(i, i + 4));
    }
}

proof fn lemma_rd_u64_take(b: Seq<u8>, i: int, m: int)
    requires
        0 <= i <= m <= b.len(),
    ensures
        match rd_u64(b, i) {
            Some(v) => (v.1 <= m ==> rd_u64(b.take(m), i) == rd_u64(b, i)) && (m < v.1
                ==> rd_u64(b.take(m), i) == None::<(u64, int)>),
            None => rd_u64(b.take(m), i) == None::<(u64, int)>,
        },
{
    if i + 8 <= m {
        assert(b.take(m).subrange(i, i + 8) =~= b.subrange(i, i + 8));
    }
}

proof fn lemma_rd_bytes_take(b: Seq<u8>, i: int, m: int)
    requires
        0 <= i <= m <= b.len(),
    ensures
        match rd_bytes(b, i) {
            Some(v) => (v.1 <= m ==> rd_bytes(b.take(m), i) == rd_bytes(b, i)) && (m < v.1
                ==> rd_bytes(b.take(m), i) == None::<(Seq<u8>, int)>),
            None => rd_bytes(b.take(m), i) == None::<(Seq<u8>, int)>,
        },
{
    lemma_rd_u32_take(b, i, m);
    match rd_u32(b, i) {
        Some(ln) => {
            let n = ln.0 as int;
            let j = ln.1;
            if j + n <= m {
                assert(b.take(m).subrange(j, j + n) =~= b.subrange(j, j + n));
            }
        },
        None => {},
    }
}

proof fn lemma_rd_req_take(b: Seq<u8>, i: int, m: int)
    requires
        0 <= i <= m <= b.len(),
    ensures
        match rd_req(b, i) {
            Some(v) => (v.1 <= m ==> rd_req(b.take(m), i) == rd_req(b, i)) && (m < v.1
                ==> rd_req(b.take(m), i) == None::<(ReqV, int)>),
            None => rd_req(b.take(m), i) == None::<(ReqV, int)>,
        },
{
    lemma_rd_bytes_take(b, i, m);
    match rd_bytes(b, i) {
        None => {},
        Some(f0) => {
            if f0.1 <= m {
                lemma_rd_u64_take(b, f0.1, m);
                match rd_u64(b, f0.1) {
                    None => {},
                    Some(f1) => {
                        if f1.1 <= m {
                            lemma_rd_bytes_take(b, f1.1, m);
                            match rd_bytes(b, f1.1) {
                                None => {},
                                Some(f2) => {
                                    if f2.1 <= m {
                                        lemma_rd_u64_take(b, f2.1, m);
                                        match rd_u64(b, f2.1) {
                                            None => {},
                                            Some(f3) => {
                                                if f3.1 <= m {
                                                    lemma_rd_u64_take(b, f3.1, m);
                                                }
                                            },
                                        }
                                    }
                                },
                            }
                        }
                    },
                }
            }
        },
    }
}

proof fn lemma_rd_res_take(b: Seq<u8>, i: int, m: int)
    requires
        0 <= i <= m <= b.len(),
    ensures
        match rd_res(b, i) {
            Some(v) => (v.1 <= m ==> rd_res(b.take(m), i) == rd_res(b, i)) && (m < v.1
                ==> rd_res(b.take(m), i) == None::<(ResV, int)>),
            None => rd_res(b.take(m), i) == None::<(ResV, int)>,
        },
{
    lemma_rd_bytes_take(b, i, m);
    match rd_bytes(b, i) {
        None => {},
        Some(f0) => {
            if f0.1 <= m {
                lemma_rd_u64_take(b, f0.1, m);
                match rd_u64(b, f0.1) {
                    None => {},
                    Some(f1) => {
                        if f1.1 <= m {
                            lemma_rd_u64_take(b, f1.1, m);
                            match rd_u64(b, f1.1) {
                                None => {},
                                Some(f2) => {
                                    if f2.1 <= m {
                                        lemma_rd_u64_take(b, f2.1, m);
                                        match rd_u64(b, f2.1) {
                                            None => {},
                                            Some(f3) => {
                                                if f3.1 <= m {
                                                    lemma_rd_u64_take(b, f3.1, m);
                                                    match rd_u64(b, f3.1) {
                                                        None => {},
                                                        Some(f4) => {
                                                            if f4.1 <= m {
                                                                lemma_rd_u8_take(b, f4.1, m);
                                                                match rd_u8(b, f4.1) {
                                                                    None => {},
                                                                    Some(f5) => {
                                                                        if f5.1 <= m {
                                                                            lemma_rd_bytes_take(
                                                                                b,
                                                                                f5.1,
                                                                                m,
                                                                            );
                                                                        }
                                                                    },
                                                                }
                                                            }
                                                        },
                                                    }
                                                }
                                            },
                                        }
                                    }
                                },
                            }
                        }
                    },
                }
            }
        },
    }
}

proof fn lemma_rd_packet_take(b: Seq<u8>, i: int, m: int)
    requires
        0 <= i <= m <= b.len(),
    ensures
        match rd_packet(b, i) {
            Some(v) => (v.1 <= m ==> rd_packet(b.take(m), i) == rd_packet(b, i)) && (m < v.1
                ==> rd_packet(b.take(m), i) == None::<(PacketV, int)>),
            None => rd_packet(b.take(m), i) == None::<(PacketV, int)>,
        },
{
    lemma_rd_req_take(b, i, m);
    match rd_req(b, i) {
        None => {},
        Some(r) => {
            if r.1 <= m {
                lemma_rd_res_take(b, r.1, m);
            }
        },
    }
}

/// Truncation safety: a canonical encoding cut short anywhere before its end
/// no longer decodes; the loss is always detected.
pub proof fn lemma_truncation_rejected(p: PacketV, m: int)
    requires
        p.wf(),
        0 <= m < spec_encode_packet(p).len(),
    ensures
        spec_decode(spec_encode_packet(p).take(m)) == None::<PacketV>,
{
    let enc = spec_encode_packet(p);
    assert(enc.subrange(0, enc.len() as int) =~= enc);
    lemma_rd_packet_at(enc, 0, p);
    lemma_rd_packet_take(enc, 0, m);
}

/// The canonical encoding is injective on encodable requests: the content
/// address is keyed by request identity.
pub proof fn lemma_encode_req_injective(a: ReqV, b: ReqV)
    requires
        a.wf(),
        b.wf(),
        spec_encode_req(a) == spec_encode_req(b),
    ensures
        a == b,
{
    let enc = spec_encode_req(a);
    assert(enc.subrange(0, enc.len() as int) =~= enc);
    lemma_rd_req_at(enc, 0, a);
    lemma_rd_req_at(enc, 0, b);
}

} // verus!
