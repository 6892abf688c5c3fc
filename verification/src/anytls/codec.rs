//! Frames and their wire form: a command byte, the stream ID in four bytes,
//! the payload's length in two bytes, and the payload.
use crate::octets::{be16, be16_bytes};
use bytes::{Buf, BufMut, BytesMut};
use vstd::prelude::*;

verus! {

/// Bytes before the payload of a frame.
pub const HEADER_OVERHEAD_SIZE: usize = 7;

/// The command of a frame, by its byte on the wire.
#[derive(Clone, Copy, Debug, PartialEq, Eq, Structural)]
pub struct Command(pub u8);

/// One frame.
#[derive(Debug)]
pub struct Frame {
    pub cmd: Command,
    pub stream_id: u32,
    pub data: Vec<u8>,
}

/// The model of a [`Frame`].
#[verifier::ext_equal]
pub struct FrameModel {
    pub cmd: u8,
    pub stream_id: u32,
    pub data: Seq<u8>,
}

impl View for Frame {
    type V = FrameModel;

    open spec fn view(&self) -> FrameModel {
        FrameModel { cmd: self.cmd.0, stream_id: self.stream_id, data: self.data@ }
    }
}

impl Frame {
    /// A frame without a payload.
    pub fn control(cmd: Command, stream_id: u32) -> (f: Self)
        ensures
            f@ == (FrameModel { cmd: cmd.0, stream_id, data: Seq::empty() }),
    {
        let f = Frame { cmd, stream_id, data: Vec::new() };
        assert(f@ =~= (FrameModel { cmd: cmd.0, stream_id, data: Seq::empty() }));
        f
    }
}

// ---------------------------------------------------------------------------
// The `bytes` crate
// ---------------------------------------------------------------------------

/// `bytes::BytesMut`, opaque here.
#[verifier::external_type_specification]
#[verifier::external_body]
pub struct ExBytesMut(bytes::BytesMut);

/// The bytes that a buffer holds.
pub uninterp spec fn buffered(buf: BytesMut) -> Seq<u8>;

/// `BytesMut::len` counts the bytes.
#[verifier::external_body]
fn buf_len(buf: &BytesMut) -> (n: usize)
    ensures
        n == buffered(*buf).len(),
{
    buf.len()
}

/// Indexing a `BytesMut` gives the byte at that place.
#[verifier::external_body]
fn buf_at(buf: &BytesMut, i: usize) -> (b: u8)
    requires
        i < buffered(*buf).len(),
    ensures
        b == buffered(*buf)[i as int],
{
    buf[i]
}

/// `BytesMut::reserve` keeps the bytes. It panics where the capacity would
/// overflow.
#[verifier::external_body]
fn buf_reserve(buf: &mut BytesMut, additional: usize)
    requires
        buffered(*old(buf)).len() + additional <= isize::MAX,
    ensures
        buffered(*final(buf)) == buffered(*old(buf)),
{
    buf.reserve(additional);
}

/// `Buf::advance` drops bytes at the front.
#[verifier::external_body]
fn buf_advance(buf: &mut BytesMut, n: usize)
    requires
        n <= buffered(*old(buf)).len(),
    ensures
        buffered(*final(buf)) == buffered(*old(buf)).skip(n as int),
{
    buf.advance(n);
}

/// `BytesMut::split_to` takes bytes off the front.
#[verifier::external_body]
fn buf_split_to(buf: &mut BytesMut, n: usize) -> (front: Vec<u8>)
    requires
        n <= buffered(*old(buf)).len(),
    ensures
        front@ == buffered(*old(buf)).take(n as int),
        buffered(*final(buf)) == buffered(*old(buf)).skip(n as int),
{
    buf.split_to(n).to_vec()
}

/// `BytesMut::extend_from_slice` appends bytes. It panics where the capacity
/// would overflow.
#[verifier::external_body]
fn buf_extend(buf: &mut BytesMut, bytes: &[u8])
    requires
        buffered(*old(buf)).len() + bytes@.len() <= isize::MAX,
    ensures
        buffered(*final(buf)) == buffered(*old(buf)) + bytes@,
{
    buf.extend_from_slice(bytes);
}

/// `BufMut::put_u8` appends one byte. It panics where the capacity would
/// overflow.
#[verifier::external_body]
fn buf_put_u8(buf: &mut BytesMut, n: u8)
    requires
        buffered(*old(buf)).len() + 1 <= isize::MAX,
    ensures
        buffered(*final(buf)) == buffered(*old(buf)).push(n),
{
    buf.put_u8(n);
}

/// `BufMut::put_u16` appends a number in two bytes, most significant first. It
/// panics where the capacity would overflow.
#[verifier::external_body]
fn buf_put_u16(buf: &mut BytesMut, n: u16)
    requires
        buffered(*old(buf)).len() + 2 <= isize::MAX,
    ensures
        buffered(*final(buf)) == buffered(*old(buf)) + be16_bytes(n),
{
    buf.put_u16(n);
}

/// `BufMut::put_u32` appends a number in four bytes, most significant first. It
/// panics where the capacity would overflow.
#[verifier::external_body]
fn buf_put_u32(buf: &mut BytesMut, n: u32)
    requires
        buffered(*old(buf)).len() + 4 <= isize::MAX,
    ensures
        buffered(*final(buf)) == buffered(*old(buf)) + be32_bytes(n),
{
    buf.put_u32(n);
}

// ---------------------------------------------------------------------------
// The codec
// ---------------------------------------------------------------------------

/// The four bytes of a number, most significant first.
pub open spec fn be32_bytes(n: u32) -> Seq<u8> {
    seq![
        (n / 0x100_0000) as u8,
        (n / 0x1_0000 % 0x100) as u8,
        (n / 0x100 % 0x100) as u8,
        (n % 0x100) as u8,
    ]
}

/// The number that four bytes write, most significant first.
pub open spec fn be32(a: u8, b: u8, c: u8, d: u8) -> u32 {
    (a * 0x100_0000 + b * 0x1_0000 + c * 0x100 + d) as u32
}

/// The wire form of a frame. The length field counts modulo 65536.
pub open spec fn encoded(f: FrameModel) -> Seq<u8> {
    seq![f.cmd] + be32_bytes(f.stream_id) + be16_bytes((f.data.len() % 0x1_0000) as u16) + f.data
}

/// The frame at the start of some bytes; nothing while part of it is missing.
pub open spec fn decoded(b: Seq<u8>) -> Option<FrameModel> {
    if b.len() < HEADER_OVERHEAD_SIZE {
        None
    } else {
        let len = be16(b[5], b[6]) as int;
        if b.len() < HEADER_OVERHEAD_SIZE + len {
            None
        } else {
            Some(
                FrameModel {
                    cmd: b[0],
                    stream_id: be32(b[1], b[2], b[3], b[4]),
                    data: b.subrange(7, 7 + len),
                },
            )
        }
    }
}

/// Encodes and decodes frames.
pub struct FrameCodec;

impl FrameCodec {
    /// Takes the frame at the start of the buffer out of it. While part of the
    /// frame is missing, nothing is taken.
    pub fn decode(&mut self, src: &mut BytesMut) -> (out: Option<Frame>)
        ensures
            match decoded(buffered(*old(src))) {
                None => out is None && buffered(*final(src)) == buffered(*old(src)),
                Some(f) => out matches Some(g) && g@ == f && buffered(*final(src)) == buffered(
                    *old(src),
                ).skip(HEADER_OVERHEAD_SIZE + f.data.len()),
            },
    {
        let ghost before = buffered(*src);
        let have: usize = buf_len(src);
        if have < HEADER_OVERHEAD_SIZE {
            return None;
        }
        let cmd = Command(buf_at(src, 0));
        let stream_id: u32 = buf_at(src, 1) as u32 * 0x100_0000 + buf_at(src, 2) as u32 * 0x1_0000
            + buf_at(src, 3) as u32 * 0x100 + buf_at(src, 4) as u32;
        let data_len: usize = crate::octets::read_be16(buf_at(src, 5), buf_at(src, 6)) as usize;
        let total_needed: usize = HEADER_OVERHEAD_SIZE + data_len;
        if have < total_needed {
            buf_reserve(src, total_needed - have);
            return None;
        }
        buf_advance(src, HEADER_OVERHEAD_SIZE);
        let data = buf_split_to(src, data_len);
        proof {
            assert(data@ =~= before.subrange(7, 7 + data_len));
            assert(buffered(*src) =~= before.skip(total_needed as int));
        }
        Some(Frame { cmd, stream_id, data })
    }

    /// Appends the wire form of a frame.
    pub fn encode(&mut self, item: Frame, dst: &mut BytesMut)
        requires
            buffered(*old(dst)).len() + HEADER_OVERHEAD_SIZE + item.data@.len() <= isize::MAX,
        ensures
            buffered(*final(dst)) == buffered(*old(dst)) + encoded(item@),
    {
        let ghost before = buffered(*dst);
        let data_len: usize = item.data.len();
        buf_reserve(dst, HEADER_OVERHEAD_SIZE + data_len);
        buf_put_u8(dst, item.cmd.0);
        buf_put_u32(dst, item.stream_id);
        buf_put_u16(dst, (data_len % 0x1_0000) as u16);
        buf_extend(dst, item.data.as_slice());
        assert(buffered(*dst) =~= before + encoded(item@));
    }

    /// Appends the wire form of a frame where the buffer can hold it; else
    /// nothing is appended.
    pub fn encode_if_fits(&mut self, item: Frame, dst: &mut BytesMut) -> (fits: bool)
        ensures
            fits == (buffered(*old(dst)).len() + HEADER_OVERHEAD_SIZE + item.data@.len()
                <= isize::MAX),
            buffered(*final(dst)) == if fits {
                buffered(*old(dst)) + encoded(item@)
            } else {
                buffered(*old(dst))
            },
    {
        let most: usize = isize::MAX as usize;
        let have: usize = buf_len(dst);
        let len: usize = item.data.len();
        if most < HEADER_OVERHEAD_SIZE || have > most - HEADER_OVERHEAD_SIZE || len > most
            - HEADER_OVERHEAD_SIZE - have {
            return false;
        }
        self.encode(item, dst);
        true
    }
}

/// A frame whose payload the length field can count is decoded from its wire
/// form, whatever follows it, and leaves exactly what follows.
pub proof fn law_decode_encoded(f: FrameModel, rest: Seq<u8>)
    requires
        f.data.len() <= 0xffff,
    ensures
        decoded(encoded(f) + rest) == Some(f),
        (encoded(f) + rest).skip(HEADER_OVERHEAD_SIZE + f.data.len()) == rest,
{
    let b = encoded(f) + rest;
    let n = f.data.len() as u16;
    let id = f.stream_id;
    assert(b[0] == f.cmd);
    assert(b[1] == (id / 0x100_0000) as u8);
    assert(b[2] == (id / 0x1_0000 % 0x100) as u8);
    assert(b[3] == (id / 0x100 % 0x100) as u8);
    assert(b[4] == (id % 0x100) as u8);
    assert(be32(b[1], b[2], b[3], b[4]) == id);
    assert(b[5] == (n / 256) as u8 && b[6] == (n % 256) as u8);
    assert(be16(b[5], b[6]) == n);
    assert(b.subrange(7, 7 + n as int) =~= f.data);
    assert(b.skip(HEADER_OVERHEAD_SIZE + f.data.len()) =~= rest);
}

/// Bytes that arrive later never change a frame that is already complete.
pub proof fn law_decode_prefix(b: Seq<u8>, more: Seq<u8>)
    requires
        decoded(b) is Some,
    ensures
        decoded(b + more) == decoded(b),
{
    let len = be16(b[5], b[6]) as int;
    assert((b + more).subrange(7, 7 + len) =~= b.subrange(7, 7 + len));
}

} // verus!
