//! Laws of the frame codec: what decoding gives back for frames that the
//! encoder writes, masked or not, whole or in fragments, and which headers
//! are refused.
use vstd::prelude::*;
use vstd::utf8::{encode_utf8, encode_utf8_decode_utf8, encode_utf8_valid_utf8};
use crate::packet::{
    apply_mask, be_bytes, be_value, decode, decode_message, frame_bytes, interpret, length_field,
    mask_bit, opcode_value, parse_continuations, parse_frame, parse_frames, parse_metadata,
    payload_start, pow256, Error, Metadata, Opcode, PacketView, MAX_PAYLOAD_LEN,
};

verus! {

/// A payload of this length can stand in one frame.
pub open spec fn payload_fits(p: Seq<u8>) -> bool {
    p.len() <= MAX_PAYLOAD_LEN && p.len() <= usize::MAX
}

/// A mask key, if given, has four bytes.
pub open spec fn key_ok(mask: Option<Seq<u8>>) -> bool {
    match mask {
        Some(k) => k.len() == 4,
        None => true,
    }
}

/// The header that the encoder writes for a payload of length `len`.
pub open spec fn header_of(fin: bool, opcode: Opcode, masked: bool, len: nat) -> Metadata {
    Metadata {
        fin,
        opcode,
        masked,
        len: len as u64,
        size: (if len < 126 {
            2int
        } else if len < 65536 {
            4int
        } else {
            10int
        }) as usize,
    }
}

proof fn lemma_be_round_trip(n: nat, k: nat)
    requires
        n < pow256(k),
    ensures
        be_bytes(n, k).len() == k,
        be_value(be_bytes(n, k)) == n,
    decreases k,
{
    if k > 0 {
        let p = pow256((k - 1) as nat);
        assert(n / 256 < p) by (nonlinear_arith)
            requires
                n < 256 * p,
        ;
        lemma_be_round_trip(n / 256, (k - 1) as nat);
        let b = be_bytes(n, k);
        assert(b.drop_last() =~= be_bytes(n / 256, (k - 1) as nat));
    } else {
        assert(be_bytes(n, k) =~= Seq::<u8>::empty());
    }
}

/// Masking twice with the same key gives back the payload.
pub proof fn lemma_mask_involution(payload: Seq<u8>, key: Seq<u8>)
    requires
        key.len() == 4,
    ensures
        apply_mask(apply_mask(payload, key), key) == payload,
{
    let once = apply_mask(payload, key);
    assert forall|i: int| 0 <= i < payload.len() implies #[trigger] apply_mask(once, key)[i]
        == payload[i] by {
        let x = payload[i];
        let y = key[i % 4];
        assert((x ^ y) ^ y == x) by (bit_vector);
    }
    assert(apply_mask(once, key) =~= payload);
}

/// The decoder reads back the header, the payload and the length of every
/// frame that the encoder writes, whatever follows it.
pub proof fn lemma_parse_frame_bytes(
    fin: bool,
    opcode: Opcode,
    mask: Option<Seq<u8>>,
    payload: Seq<u8>,
    suffix: Seq<u8>,
)
    requires
        payload_fits(payload),
        key_ok(mask),
    ensures
        parse_metadata(frame_bytes(fin, opcode, mask, payload) + suffix) == Ok::<Metadata, Error>(
            header_of(fin, opcode, mask is Some, payload.len()),
        ),
        parse_frame(frame_bytes(fin, opcode, mask, payload) + suffix) == Ok::<
            (Metadata, Seq<u8>, int),
            Error,
        >(
            (
                header_of(fin, opcode, mask is Some, payload.len()),
                payload,
                frame_bytes(fin, opcode, mask, payload).len() as int,
            ),
        ),
{
    let masked = mask is Some;
    let len = payload.len();
    let f = frame_bytes(fin, opcode, mask, payload);
    let input = f + suffix;
    let b0: int = (if fin { 128nat } else { 0nat }) + opcode_value(opcode);
    let lf = length_field(masked, len);
    let body = match mask {
        Some(key) => key + apply_mask(payload, key),
        None => payload,
    };
    assert(f == seq![b0 as u8] + lf + body);
    let m = header_of(fin, opcode, masked, len);
    let ext: int = m.size - 2;
    if len < 126 {
        assert(lf =~= seq![(mask_bit(masked) + len) as u8]);
    } else if len < 65536 {
        reveal_with_fuel(pow256, 3);
        lemma_be_round_trip(len, 2);
        assert(input.subrange(2, 4) =~= be_bytes(len, 2));
    } else {
        reveal_with_fuel(pow256, 9);
        lemma_be_round_trip(len, 8);
        assert(input.subrange(2, 10) =~= be_bytes(len, 8));
    }
    assert(lf.len() == 1 + ext);
    assert(input[0] == b0 as u8);
    assert(input[1] == lf[0]);
    assert(parse_metadata(input) == Ok::<Metadata, Error>(m));
    let start = payload_start(m);
    assert(input.subrange(start, start + len) =~= match mask {
        Some(key) => apply_mask(payload, key),
        None => payload,
    });
    match mask {
        Some(key) => {
            assert(input.subrange(m.size as int, start) =~= key);
            lemma_mask_involution(payload, key);
        },
        None => {},
    }
}

/// The whole-message decoder on one final frame: the message that its
/// payload stands for, and the frame's length.
pub proof fn lemma_decode_single_frame(opcode: Opcode, mask: Option<Seq<u8>>, payload: Seq<u8>)
    requires
        payload_fits(payload),
        key_ok(mask),
    ensures
        decode_message(frame_bytes(true, opcode, mask, payload)) == match interpret(
            opcode,
            payload,
        ) {
            Ok(p) => Ok::<(PacketView, int), Error>(
                (p, frame_bytes(true, opcode, mask, payload).len() as int),
            ),
            Err(e) => Err(e),
        },
{
    let f = frame_bytes(true, opcode, mask, payload);
    assert(f + Seq::<u8>::empty() =~= f);
    lemma_parse_frame_bytes(true, opcode, mask, payload, Seq::empty());
}

/// Encoding a string as one unmasked Text frame and decoding the frame gives
/// back the string.
pub proof fn lemma_text_round_trip(s: Seq<char>)
    requires
        payload_fits(encode_utf8(s)),
    ensures
        decode(frame_bytes(true, Opcode::Text, None, encode_utf8(s))) == Ok::<PacketView, Error>(
            PacketView::Text(s),
        ),
{
    encode_utf8_valid_utf8(s);
    encode_utf8_decode_utf8(s);
    lemma_decode_single_frame(Opcode::Text, None, encode_utf8(s));
}

/// A masked frame decodes to the same message as the unmasked frame of the
/// same payload.
pub proof fn lemma_masked_decodes_alike(opcode: Opcode, key: Seq<u8>, payload: Seq<u8>)
    requires
        payload_fits(payload),
        key.len() == 4,
    ensures
        decode(frame_bytes(true, opcode, Some(key), payload)) == decode(
            frame_bytes(true, opcode, None, payload),
        ),
{
    lemma_decode_single_frame(opcode, Some(key), payload);
    lemma_decode_single_frame(opcode, None, payload);
}

/// Continuation frames carrying the chunks in order, the last one final.
pub open spec fn continuation_frames(chunks: Seq<Seq<u8>>) -> Seq<u8>
    decreases chunks.len(),
{
    if chunks.len() == 0 {
        Seq::empty()
    } else if chunks.len() == 1 {
        frame_bytes(true, Opcode::Continuation, None, chunks[0])
    } else {
        frame_bytes(false, Opcode::Continuation, None, chunks[0]) + continuation_frames(
            chunks.drop_first(),
        )
    }
}

/// A message sent in fragments: a first frame with the message's opcode and
/// the first chunk, then a continuation frame for each further chunk; only
/// the last frame is final.
pub open spec fn fragmented(opcode: Opcode, first: Seq<u8>, rest: Seq<Seq<u8>>) -> Seq<u8> {
    if rest.len() == 0 {
        frame_bytes(true, opcode, None, first)
    } else {
        frame_bytes(false, opcode, None, first) + continuation_frames(rest)
    }
}

proof fn lemma_parse_continuations(prefix: Seq<u8>, chunks: Seq<Seq<u8>>, acc: Seq<u8>)
    requires
        chunks.len() > 0,
        forall|i: int| 0 <= i < chunks.len() ==> payload_fits(#[trigger] chunks[i]),
    ensures
        parse_continuations(prefix + continuation_frames(chunks), prefix.len() as int, acc) == Ok::<
            (Seq<u8>, int),
            Error,
        >((acc + chunks.flatten(), (prefix + continuation_frames(chunks)).len() as int)),
    decreases chunks.len(),
{
    let input = prefix + continuation_frames(chunks);
    let pos = prefix.len() as int;
    let c0 = chunks[0];
    let rest = input.subrange(pos, input.len() as int);
    assert(chunks.flatten() == c0 + chunks.drop_first().flatten());
    if chunks.len() == 1 {
        let f = frame_bytes(true, Opcode::Continuation, None, c0);
        assert(rest =~= f + Seq::<u8>::empty());
        lemma_parse_frame_bytes(true, Opcode::Continuation, None, c0, Seq::empty());
        assert(chunks.drop_first().flatten() =~= Seq::<u8>::empty());
        assert(acc + chunks.flatten() =~= acc + c0);
    } else {
        let f = frame_bytes(false, Opcode::Continuation, None, c0);
        let tail = chunks.drop_first();
        assert(rest =~= f + continuation_frames(tail));
        lemma_parse_frame_bytes(false, Opcode::Continuation, None, c0, continuation_frames(tail));
        let prefix2 = prefix + f;
        assert(input =~= prefix2 + continuation_frames(tail));
        assert forall|i: int| 0 <= i < tail.len() implies payload_fits(#[trigger] tail[i]) by {
            assert(tail[i] == chunks[i + 1]);
        }
        lemma_parse_continuations(prefix2, tail, acc + c0);
        assert(acc + c0 + tail.flatten() =~= acc + chunks.flatten());
    }
}

/// A message split into fragments decodes to the same message as its whole
/// payload sent in one final frame.
pub proof fn lemma_fragmented_decodes_alike(opcode: Opcode, first: Seq<u8>, rest: Seq<Seq<u8>>)
    requires
        payload_fits(first),
        forall|i: int| 0 <= i < rest.len() ==> payload_fits(#[trigger] rest[i]),
        payload_fits(first + rest.flatten()),
    ensures
        decode(fragmented(opcode, first, rest)) == decode(
            frame_bytes(true, opcode, None, first + rest.flatten()),
        ),
{
    lemma_decode_single_frame(opcode, None, first + rest.flatten());
    if rest.len() == 0 {
        assert(first + rest.flatten() =~= first);
    } else {
        let f = frame_bytes(false, opcode, None, first);
        lemma_parse_frame_bytes(false, opcode, None, first, continuation_frames(rest));
        lemma_parse_continuations(f, rest, first);
        assert(parse_frames(fragmented(opcode, first, rest)) is Ok);
    }
}

proof fn lemma_be_value_lower(b: Seq<u8>)
    requires
        b.len() > 0,
    ensures
        be_value(b) >= b[0] * pow256((b.len() - 1) as nat),
    decreases b.len(),
{
    if b.len() > 1 {
        let d = b.drop_last();
        lemma_be_value_lower(d);
        let v = be_value(d);
        let p = pow256((d.len() - 1) as nat);
        let x = b[0] as int;
        assert(d[0] == b[0]);
        assert(v * 256 + b.last() >= x * (256 * p)) by (nonlinear_arith)
            requires
                v >= x * p,
                b.last() >= 0,
        ;
        assert(pow256((b.len() - 1) as nat) == 256 * p);
        assert(be_value(b) == v * 256 + b.last());
        assert(b[0] * pow256((b.len() - 1) as nat) == x * (256 * p));
    } else {
        assert(b.drop_last().len() == 0);
        assert(be_value(b.drop_last()) == 0);
        assert(pow256(0) == 1);
        assert(b.last() == b[0]);
        assert(be_value(b) == b[0]);
        assert(b[0] * pow256(0) == b[0]);
    }
}

/// A frame with a reserved header bit set is refused.
pub proof fn lemma_reserved_bits_rejected(input: Seq<u8>)
    requires
        input.len() >= 2,
        input[0] & 0x70 != 0,
    ensures
        decode(input) == Err::<PacketView, Error>(Error::ReservedBits),
{
    let b0 = input[0];
    assert((b0 & 0x70 != 0) == ((b0 / 16) % 8 != 0)) by (bit_vector);
}

/// A frame whose 64-bit length has its top bit set is refused, not cut short.
pub proof fn lemma_oversized_length_rejected(input: Seq<u8>)
    requires
        input.len() >= 10,
        input[0] & 0x70 == 0,
        input[0] & 0x0f == 0 || input[0] & 0x0f == 1 || input[0] & 0x0f == 2 || input[0] & 0x0f
            == 8 || input[0] & 0x0f == 9 || input[0] & 0x0f == 10,
        input[1] & 0x7f == 127,
        input[2] & 0x80 != 0,
    ensures
        decode(input) == Err::<PacketView, Error>(Error::Length),
{
    let b0 = input[0];
    let b1 = input[1];
    let b2 = input[2];
    assert((b0 & 0x70 != 0) == ((b0 / 16) % 8 != 0)) by (bit_vector);
    assert(b0 & 0x0f == b0 % 16) by (bit_vector);
    assert(b1 & 0x7f == b1 % 128) by (bit_vector);
    assert((b2 & 0x80 != 0) == (b2 >= 128)) by (bit_vector);
    let ext = input.subrange(2, 10);
    lemma_be_value_lower(ext);
    reveal_with_fuel(pow256, 8);
    assert(ext[0] == b2);
    let top_weight = pow256(7);
    assert(top_weight == 0x100000000000000);
    assert(b2 * top_weight > MAX_PAYLOAD_LEN) by (nonlinear_arith)
        requires
            b2 >= 128,
            top_weight == 0x100000000000000,
    ;
    assert(be_value(ext) > MAX_PAYLOAD_LEN);
}

} // verus!
