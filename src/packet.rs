//! Frame codec: encoding one frame, decoding one (possibly fragmented) message.
use vstd::prelude::*;
use vstd::utf8::{decode_utf8, valid_utf8};

verus! {

/// The frame kinds of the wire protocol.
#[derive(Clone, Copy, PartialEq, Eq, Structural, Debug)]
pub enum Opcode {
    Continuation,
    Text,
    Binary,
    Close,
    Ping,
    Pong,
}

/// The 4-bit wire value of an opcode.
pub open spec fn opcode_value(opcode: Opcode) -> u8 {
    match opcode {
        Opcode::Continuation => 0,
        Opcode::Text => 1,
        Opcode::Binary => 2,
        Opcode::Close => 8,
        Opcode::Ping => 9,
        Opcode::Pong => 10,
    }
}

/// The opcode that a 4-bit wire value names, if any (the others are reserved).
pub open spec fn opcode_of(v: u8) -> Option<Opcode> {
    if v == 0 {
        Some(Opcode::Continuation)
    } else if v == 1 {
        Some(Opcode::Text)
    } else if v == 2 {
        Some(Opcode::Binary)
    } else if v == 8 {
        Some(Opcode::Close)
    } else if v == 9 {
        Some(Opcode::Ping)
    } else if v == 10 {
        Some(Opcode::Pong)
    } else {
        None
    }
}

impl From<Opcode> for u8 {
    fn from(opcode: Opcode) -> (r: u8)
        ensures
            r == opcode_value(opcode),
    {
        match opcode {
            Opcode::Continuation => 0,
            Opcode::Text => 1,
            Opcode::Binary => 2,
            Opcode::Close => 8,
            Opcode::Ping => 9,
            Opcode::Pong => 10,
        }
    }
}

impl vstd::std_specs::convert::FromSpecImpl<Opcode> for u8 {
    open spec fn obeys_from_spec() -> bool {
        true
    }

    open spec fn from_spec(opcode: Opcode) -> u8 {
        opcode_value(opcode)
    }
}

impl Opcode {
    /// The opcode named by a 4-bit wire value; `None` for a reserved value.
    pub fn from_value(v: u8) -> (r: Option<Opcode>)
        ensures
            r == opcode_of(v),
    {
        if v == 0 {
            Some(Opcode::Continuation)
        } else if v == 1 {
            Some(Opcode::Text)
        } else if v == 2 {
            Some(Opcode::Binary)
        } else if v == 8 {
            Some(Opcode::Close)
        } else if v == 9 {
            Some(Opcode::Ping)
        } else if v == 10 {
            Some(Opcode::Pong)
        } else {
            None
        }
    }
}

/// 256 to the power `k`.
pub open spec fn pow256(k: nat) -> nat
    decreases k,
{
    if k == 0 {
        1
    } else {
        256 * pow256((k - 1) as nat)
    }
}

/// The low `k` bytes of `n`, most significant first.
pub open spec fn be_bytes(n: nat, k: nat) -> Seq<u8>
    decreases k,
{
    if k == 0 {
        seq![]
    } else {
        be_bytes(n / 256, (k - 1) as nat).push((n % 256) as u8)
    }
}

/// The number that big-endian bytes stand for.
pub open spec fn be_value(b: Seq<u8>) -> nat
    decreases b.len(),
{
    if b.len() == 0 {
        0
    } else {
        (be_value(b.drop_last()) * 256 + b.last()) as nat
    }
}

/// The largest payload length that a frame can carry.
pub const MAX_PAYLOAD_LEN: u64 = 0x7FFF_FFFF_FFFF_FFFF;

/// The mask bit of the second header byte.
pub open spec fn mask_bit(masked: bool) -> nat {
    if masked {
        128
    } else {
        0
    }
}

/// The length field of a frame: 7 bits, or the escape 126 and 2 bytes, or the
/// escape 127 and 8 bytes; the mask bit rides on its first byte.
pub open spec fn length_field(masked: bool, len: nat) -> Seq<u8> {
    if len < 126 {
        seq![(mask_bit(masked) + len) as u8]
    } else if len < 65536 {
        seq![(mask_bit(masked) + 126) as u8] + be_bytes(len, 2)
    } else {
        seq![(mask_bit(masked) + 127) as u8] + be_bytes(len, 8)
    }
}

/// Byte `i` of the payload XORed with byte `i mod 4` of the key.
pub open spec fn apply_mask(payload: Seq<u8>, key: Seq<u8>) -> Seq<u8> {
    Seq::new(payload.len(), |i: int| payload[i] ^ key[i % 4])
}

/// The wire bytes of one frame.
pub open spec fn frame_bytes(fin: bool, opcode: Opcode, mask: Option<Seq<u8>>, payload: Seq<u8>) -> Seq<u8> {
    seq![((if fin { 128nat } else { 0nat }) + opcode_value(opcode)) as u8]
        + length_field(mask is Some, payload.len())
        + match mask {
            Some(key) => key + apply_mask(payload, key),
            None => payload,
        }
}

pub(crate) fn push_be(out: &mut Vec<u8>, n: u64, k: usize)
    requires
        k <= 8,
    ensures
        final(out)@ == old(out)@ + be_bytes(n as nat, k as nat),
    decreases k,
{
    if k > 0 {
        push_be(out, n / 256, k - 1);
        out.push((n % 256) as u8);
        proof {
            let prev = be_bytes((n / 256) as nat, (k - 1) as nat);
            assert(be_bytes(n as nat, k as nat) == prev.push((n % 256) as u8));
            assert(final(out)@ =~= old(out)@ + be_bytes(n as nat, k as nat));
        }
    } else {
        assert(final(out)@ =~= old(out)@ + be_bytes(n as nat, k as nat));
    }
}

/// Encodes one unfragmented frame (fin set): header, length in the shortest
/// of the three forms, then the mask key and the masked payload when a key is
/// given, else the payload as it is.
pub fn serialize(opcode: Opcode, mask: Option<[u8; 4]>, payload: &[u8]) -> (r: Vec<u8>)
    requires
        payload@.len() <= MAX_PAYLOAD_LEN,
        payload@.len() + 14 <= usize::MAX,
    ensures
        r@ == frame_bytes(true, opcode, match mask { Some(k) => Some(k@), None => None }, payload@),
{
    let len = payload.len();
    let mut buffer: Vec<u8> = Vec::with_capacity(14 + len);
    let first: u8 = 128u8 + u8::from(opcode);
    buffer.push(first);
    let bit: u8 = if mask.is_some() { 128 } else { 0 };
    if len < 126 {
        buffer.push(bit + len as u8);
    } else if len < 65536 {
        buffer.push(bit + 126);
        push_be(&mut buffer, len as u64, 2);
    } else {
        buffer.push(bit + 127);
        push_be(&mut buffer, len as u64, 8);
    }
    let ghost head = buffer@;
    assert(head =~= seq![first] + length_field(mask is Some, len as nat));
    match mask {
        Some(key) => {
            buffer.push(key[0]);
            buffer.push(key[1]);
            buffer.push(key[2]);
            buffer.push(key[3]);
            let ghost keyed = buffer@;
            assert(keyed =~= head + key@);
            let mut i: usize = 0;
            while i < len
                invariant
                    i <= len,
                    len == payload@.len(),
                    buffer@ =~= keyed + apply_mask(payload@, key@).subrange(0, i as int),
                decreases len - i,
            {
                buffer.push(payload[i] ^ key[i % 4]);
                i += 1;
                assert(buffer@ =~= keyed + apply_mask(payload@, key@).subrange(0, i as int));
            }
            assert(apply_mask(payload@, key@).subrange(0, len as int) =~= apply_mask(payload@, key@));
        },
        None => {
            let mut i: usize = 0;
            while i < len
                invariant
                    i <= len,
                    len == payload@.len(),
                    buffer@ =~= head + payload@.subrange(0, i as int),
                decreases len - i,
            {
                buffer.push(payload[i]);
                i += 1;
                assert(buffer@ =~= head + payload@.subrange(0, i as int));
            }
            assert(payload@.subrange(0, len as int) =~= payload@);
        },
    }
    buffer
}

/// Why decoding failed.
#[derive(Clone, Copy, PartialEq, Eq, Structural, Debug)]
pub enum Error {
    /// The input ended before the message did.
    UnexpectedEof,
    /// A payload length does not fit in memory.
    Int,
    /// A Close payload shorter than its 2-byte status code.
    Slice,
    /// A reserved header bit is set.
    ReservedBits,
    /// A 64-bit length with its top bit set.
    Length,
    /// A reserved opcode, a non-continuation frame inside a fragmented
    /// message, or a message that starts with a continuation frame.
    Opcode,
    /// A Text payload that is not valid UTF-8.
    Utf8,
    /// Binary, Ping and Pong messages are not handled.
    Unsupported,
}

/// A decoded message.
#[derive(Debug, PartialEq)]
pub enum Packet {
    Text(String),
    Close(u16, Option<String>),
}

/// What a `Packet` holds, as mathematical values.
pub enum PacketView {
    Text(Seq<char>),
    Close(u16, Option<Seq<char>>),
}

impl View for Packet {
    type V = PacketView;

    open spec fn view(&self) -> PacketView {
        match self {
            Packet::Text(s) => PacketView::Text(s@),
            Packet::Close(code, reason) => PacketView::Close(
                *code,
                match reason {
                    Some(r) => Some(r@),
                    None => None,
                },
            ),
        }
    }
}

/// The view of a decoding result.
pub open spec fn result_view<T: View>(r: Result<T, Error>) -> Result<T::V, Error> {
    match r {
        Ok(v) => Ok(v@),
        Err(e) => Err(e),
    }
}

/// The header of one frame, up to and not including the mask key.
#[derive(Clone, Copy)]
pub struct Metadata {
    pub fin: bool,
    pub opcode: Opcode,
    pub masked: bool,
    pub len: u64,
    /// Bytes taken by the two fixed bytes and the extended length.
    pub size: usize,
}

/// Decodes the header at the start of `input`.
pub open spec fn parse_metadata(input: Seq<u8>) -> Result<Metadata, Error> {
    if input.len() < 2 {
        Err(Error::UnexpectedEof)
    } else if (input[0] / 16) % 8 != 0 {
        Err(Error::ReservedBits)
    } else if opcode_of(input[0] % 16) is None {
        Err(Error::Opcode)
    } else {
        let base = input[1] % 128;
        let ext: nat = if base == 126 {
            2
        } else if base == 127 {
            8
        } else {
            0
        };
        if input.len() < 2 + ext {
            Err(Error::UnexpectedEof)
        } else {
            let len = if ext == 0 {
                base as nat
            } else {
                be_value(input.subrange(2, 2 + ext as int))
            };
            if len > MAX_PAYLOAD_LEN {
                Err(Error::Length)
            } else {
                Ok(
                    Metadata {
                        fin: input[0] >= 128,
                        opcode: opcode_of(input[0] % 16)->Some_0,
                        masked: input[1] >= 128,
                        len: len as u64,
                        size: (2 + ext) as usize,
                    },
                )
            }
        }
    }
}

/// Bytes before the payload: the header and the mask key, if any.
pub open spec fn payload_start(m: Metadata) -> int {
    m.size + if m.masked {
        4int
    } else {
        0int
    }
}

/// Decodes the frame at the start of `input`: its header, its unmasked
/// payload, and the number of bytes it takes.
pub open spec fn parse_frame(input: Seq<u8>) -> Result<(Metadata, Seq<u8>, int), Error> {
    match parse_metadata(input) {
        Err(e) => Err(e),
        Ok(m) => if m.len > usize::MAX {
            Err(Error::Int)
        } else if input.len() < payload_start(m) + m.len {
            Err(Error::UnexpectedEof)
        } else {
            let start = payload_start(m);
            let raw = input.subrange(start, start + m.len);
            let payload = if m.masked {
                apply_mask(raw, input.subrange(m.size as int, start))
            } else {
                raw
            };
            Ok((m, payload, start + m.len))
        },
    }
}

/// Decodes the continuation frames from `pos` on, up to and including the
/// final one, appending their payloads to `acc`; gives the whole payload and
/// the position after the last frame.
pub open spec fn parse_continuations(input: Seq<u8>, pos: int, acc: Seq<u8>) -> Result<
    (Seq<u8>, int),
    Error,
>
    decreases input.len() - pos,
{
    if pos < 0 || pos > input.len() {
        Err(Error::UnexpectedEof)
    } else {
        let rest = input.subrange(pos, input.len() as int);
        if parse_metadata(rest) is Ok && parse_metadata(rest)->Ok_0.opcode != Opcode::Continuation {
            Err(Error::Opcode)
        } else {
            match parse_frame(rest) {
            Err(e) => Err(e),
            Ok((m, payload, n)) => if m.fin {
                Ok((acc + payload, pos + n))
            } else {
                parse_continuations(input, pos + n, acc + payload)
            },
            }
        }
    }
}

/// Decodes the frames of one message at the start of `input`: the first
/// frame's opcode, the joined payload, and the number of bytes taken.
pub open spec fn parse_frames(input: Seq<u8>) -> Result<(Opcode, Seq<u8>, int), Error> {
    match parse_frame(input) {
        Err(e) => Err(e),
        Ok((m, payload, n)) => if m.fin {
            Ok((m.opcode, payload, n))
        } else {
            match parse_continuations(input, n, payload) {
                Err(e) => Err(e),
                Ok((all, end)) => Ok((m.opcode, all, end)),
            }
        },
    }
}

/// The reason of a Close payload: present when the bytes after the status
/// code are non-empty valid UTF-8.
pub open spec fn close_reason(rest: Seq<u8>) -> Option<Seq<char>> {
    if rest.len() > 0 && valid_utf8(rest) {
        Some(decode_utf8(rest))
    } else {
        None
    }
}

/// The message that a joined payload stands for under the first frame's opcode.
pub open spec fn interpret(opcode: Opcode, payload: Seq<u8>) -> Result<PacketView, Error> {
    match opcode {
        Opcode::Text => if valid_utf8(payload) {
            Ok(PacketView::Text(decode_utf8(payload)))
        } else {
            Err(Error::Utf8)
        },
        Opcode::Close => if payload.len() < 2 {
            Err(Error::Slice)
        } else {
            Ok(
                PacketView::Close(
                    (payload[0] * 256 + payload[1]) as u16,
                    close_reason(payload.subrange(2, payload.len() as int)),
                ),
            )
        },
        Opcode::Continuation => Err(Error::Opcode),
        _ => Err(Error::Unsupported),
    }
}

/// The message at the start of `input` and the number of bytes it takes.
pub open spec fn decode_message(input: Seq<u8>) -> Result<(PacketView, int), Error> {
    match parse_frames(input) {
        Err(e) => Err(e),
        Ok((opcode, payload, n)) => match interpret(opcode, payload) {
            Err(e) => Err(e),
            Ok(p) => Ok((p, n)),
        },
    }
}

/// The message at the start of `input`.
pub open spec fn decode(input: Seq<u8>) -> Result<PacketView, Error> {
    match decode_message(input) {
        Err(e) => Err(e),
        Ok((p, _)) => Ok(p),
    }
}

proof fn lemma_pow256_le(i: nat, j: nat)
    requires
        i <= j,
    ensures
        pow256(i) <= pow256(j),
    decreases j,
{
    if i < j {
        lemma_pow256_le(i, (j - 1) as nat);
    }
}

proof fn lemma_be_value_bound(b: Seq<u8>)
    ensures
        be_value(b) < pow256(b.len()),
    decreases b.len(),
{
    if b.len() > 0 {
        let d = b.drop_last();
        lemma_be_value_bound(d);
        let v = be_value(d);
        let p = pow256(d.len());
        let l = b.last();
        assert(v * 256 + l < p * 256) by (nonlinear_arith)
            requires
                v < p,
                l < 256,
        ;
    }
}

/// Reads `k` big-endian bytes at `start`.
fn read_be(input: &[u8], start: usize, k: usize) -> (r: u64)
    requires
        k <= 8,
        start + k <= input@.len(),
    ensures
        r == be_value(input@.subrange(start as int, start + k)),
{
    let n = input.len();
    let mut v: u64 = 0;
    let mut i: usize = 0;
    while i < k
        invariant
            n == input@.len(),
            i <= k <= 8,
            start + k <= input@.len(),
            v == be_value(input@.subrange(start as int, start + i)),
            v < pow256(i as nat),
        decreases k - i,
    {
        let ghost prefix = input@.subrange(start as int, start + i);
        let ghost next = input@.subrange(start as int, start + i + 1);
        assert(next.drop_last() =~= prefix);
        proof {
            lemma_pow256_le(i as nat, 7);
            reveal_with_fuel(pow256, 8);
        }
        let b = input[start + i];
        assert(v * 256 + b <= u64::MAX) by (nonlinear_arith)
            requires
                v < 0x100000000000000,
                b < 256,
        ;
        v = v * 256 + b as u64;
        i += 1;
        proof {
            lemma_be_value_bound(next);
        }
    }
    v
}

proof fn lemma_header_bits(b0: u8, b1: u8)
    ensures
        (b0 & 0x70 != 0) == ((b0 / 16) % 8 != 0),
        b0 & 0x0f == b0 % 16,
        (b0 & 0x80 != 0) == (b0 >= 128),
        (b1 & 0x80 != 0) == (b1 >= 128),
        b1 & 0x7f == b1 % 128,
{
    assert((b0 & 0x70 != 0) == ((b0 / 16) % 8 != 0)) by (bit_vector);
    assert(b0 & 0x0f == b0 % 16) by (bit_vector);
    assert((b0 & 0x80 != 0) == (b0 >= 128)) by (bit_vector);
    assert((b1 & 0x80 != 0) == (b1 >= 128)) by (bit_vector);
    assert(b1 & 0x7f == b1 % 128) by (bit_vector);
}

/// Reads the header of the frame that starts at `pos`.
pub fn read_metadata(input: &[u8], pos: usize) -> (r: Result<Metadata, Error>)
    requires
        pos <= input@.len(),
    ensures
        r == parse_metadata(input@.subrange(pos as int, input@.len() as int)),
{
    let ghost rest = input@.subrange(pos as int, input@.len() as int);
    let avail = input.len() - pos;
    if avail < 2 {
        return Err(Error::UnexpectedEof);
    }
    let b0 = input[pos];
    let b1 = input[pos + 1];
    proof {
        lemma_header_bits(b0, b1);
    }
    if (b0 & 0x70) != 0 {
        return Err(Error::ReservedBits);
    }
    let opcode = match Opcode::from_value(b0 & 0x0f) {
        Some(op) => op,
        None => {
            return Err(Error::Opcode);
        },
    };
    let fin = (b0 & 0x80) != 0;
    let masked = (b1 & 0x80) != 0;
    let base = b1 & 0x7f;
    let ext: usize = if base == 126 {
        2
    } else if base == 127 {
        8
    } else {
        0
    };
    if avail < 2 + ext {
        return Err(Error::UnexpectedEof);
    }
    let len: u64 = if ext == 0 {
        base as u64
    } else {
        let v = read_be(input, pos + 2, ext);
        assert(input@.subrange(pos + 2, pos + 2 + ext) =~= rest.subrange(2, 2 + ext as int));
        v
    };
    if len > MAX_PAYLOAD_LEN {
        return Err(Error::Length);
    }
    Ok(Metadata { fin, opcode, masked, len, size: 2 + ext })
}

/// Reads the mask key, if any, and the payload of the frame that starts at
/// `pos` and whose header is `metadata`; gives the payload unmasked.
pub fn read_payload(input: &[u8], pos: usize, metadata: Metadata) -> (r: Result<Vec<u8>, Error>)
    requires
        pos <= input@.len(),
        parse_metadata(input@.subrange(pos as int, input@.len() as int)) == Ok::<Metadata, Error>(metadata),
    ensures
        result_view(r) == match parse_frame(input@.subrange(pos as int, input@.len() as int)) {
            Ok((_, payload, _)) => Ok(payload),
            Err(e) => Err(e),
        },
{
    let ghost rest = input@.subrange(pos as int, input@.len() as int);
    if metadata.len > usize::MAX as u64 {
        return Err(Error::Int);
    }
    let len = metadata.len as usize;
    let avail = input.len() - pos;
    let key_len: usize = if metadata.masked {
        4
    } else {
        0
    };
    let head = metadata.size + key_len;
    if avail < head || avail - head < len {
        return Err(Error::UnexpectedEof);
    }
    let start = pos + head;
    let ghost raw = rest.subrange(head as int, head + len);
    let mut buffer: Vec<u8> = Vec::with_capacity(len);
    if metadata.masked {
        let k = pos + metadata.size;
        let ghost key = rest.subrange(metadata.size as int, head as int);
        let mut i: usize = 0;
        while i < len
            invariant
                i <= len,
                input@.len() <= usize::MAX,
                start + len <= input@.len(),
                k + 4 == start,
                raw == input@.subrange(start as int, start + len),
                key == input@.subrange(k as int, k + 4),
                buffer@ =~= apply_mask(raw, key).subrange(0, i as int),
            decreases len - i,
        {
            buffer.push(input[start + i] ^ input[k + i % 4]);
            i += 1;
            assert(buffer@ =~= apply_mask(raw, key).subrange(0, i as int));
        }
        assert(apply_mask(raw, key).subrange(0, len as int) =~= apply_mask(raw, key));
    } else {
        let mut i: usize = 0;
        while i < len
            invariant
                i <= len,
                input@.len() <= usize::MAX,
                start + len <= input@.len(),
                raw == input@.subrange(start as int, start + len),
                buffer@ =~= raw.subrange(0, i as int),
            decreases len - i,
        {
            buffer.push(input[start + i]);
            i += 1;
            assert(buffer@ =~= raw.subrange(0, i as int));
        }
        assert(raw.subrange(0, len as int) =~= raw);
    }
    Ok(buffer)
}

/// Relies on `String::from_utf8`: it succeeds exactly on valid UTF-8, and the
/// string then holds the characters that the bytes encode.
#[verifier::external_body]
fn utf8_string(bytes: Vec<u8>) -> (r: Option<String>)
    ensures
        r is Some <==> valid_utf8(bytes@),
        r is Some ==> r->Some_0@ == decode_utf8(bytes@),
{
    String::from_utf8(bytes).ok()
}

/// Turns the joined payload of a message into the message that the first
/// frame's opcode calls for.
pub fn interpret_payload(opcode: Opcode, payload: Vec<u8>) -> (r: Result<Packet, Error>)
    ensures
        result_view(r) == interpret(opcode, payload@),
{
    match opcode {
        Opcode::Text => match utf8_string(payload) {
            Some(text) => Ok(Packet::Text(text)),
            None => Err(Error::Utf8),
        },
        Opcode::Close => {
            if payload.len() < 2 {
                return Err(Error::Slice);
            }
            let status_code: u16 = payload[0] as u16 * 256 + payload[1] as u16;
            let ghost old_payload = payload;
            let mut payload = payload;
            let rest = payload.split_off(2);
            let reason = if rest.len() > 0 {
                utf8_string(rest)
            } else {
                None
            };
            let r = Ok(Packet::Close(status_code, reason));
            assert(result_view(r) == interpret(opcode, old_payload@)) by {
                assert(rest@ == old_payload@.subrange(2, old_payload@.len() as int));
            };
            r
        },
        Opcode::Continuation => Err(Error::Opcode),
        _ => Err(Error::Unsupported),
    }
}

/// Decodes the message at the start of `input`, joining its fragments, and
/// gives it with the number of bytes that its frames take.
pub fn read_message(input: &[u8]) -> (r: Result<(Packet, usize), Error>)
    ensures
        match r {
            Ok((p, n)) => decode_message(input@) == Ok::<(PacketView, int), Error>((p@, n as int)),
            Err(e) => decode_message(input@) == Err::<(PacketView, int), Error>(e),
        },
{
    let total = input.len();
    assert(input@.subrange(0, input@.len() as int) =~= input@);
    let first = match read_metadata(input, 0) {
        Ok(m) => m,
        Err(e) => {
            return Err(e);
        },
    };
    let mut payload = match read_payload(input, 0, first) {
        Ok(p) => p,
        Err(e) => {
            return Err(e);
        },
    };
    let mut pos: usize = first.size + if first.masked {
        4
    } else {
        0
    } + payload.len();
    if !first.fin {
        let ghost target = parse_continuations(input@, pos as int, payload@);
        let mut done = false;
        while !done
            invariant
                pos <= input@.len(),
                total == input@.len(),
                parse_frames(input@) == match target {
                    Ok((all, end)) => Ok::<(Opcode, Seq<u8>, int), Error>((first.opcode, all, end)),
                    Err(e) => Err(e),
                },
                done ==> target == Ok::<(Seq<u8>, int), Error>((payload@, pos as int)),
                !done ==> parse_continuations(input@, pos as int, payload@) == target,
            decreases input@.len() - pos + if done { 0int } else { 1int },
        {
            let ghost rest = input@.subrange(pos as int, input@.len() as int);
            let m = match read_metadata(input, pos) {
                Ok(m) => m,
                Err(e) => {
                    return Err(e);
                },
            };
            if m.opcode != Opcode::Continuation {
                return Err(Error::Opcode);
            }
            let mut more = match read_payload(input, pos, m) {
                Ok(p) => p,
                Err(e) => {
                    return Err(e);
                },
            };
            pos = pos + m.size + if m.masked {
                4
            } else {
                0
            } + more.len();
            payload.append(&mut more);
            if m.fin {
                done = true;
            }
        }
    }
    match interpret_payload(first.opcode, payload) {
        Ok(p) => Ok((p, pos)),
        Err(e) => Err(e),
    }
}

/// Decodes the message at the start of `input`, joining its fragments.
pub fn read(input: &[u8]) -> (r: Result<Packet, Error>)
    ensures
        result_view(r) == decode(input@),
{
    match read_message(input) {
        Ok((p, _)) => Ok(p),
        Err(e) => Err(e),
    }
}

} // verus!
