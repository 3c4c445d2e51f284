//! The binary input format: a sequence of frames, each a four-byte
//! little-endian length followed by that many bytes of UTF-8 text.
use vstd::prelude::*;
use vstd::slice::slice_subrange;
use vstd::string::StringSliceAdditionalSpecFns;
use vstd::utf8::valid_utf8;
use crate::text::utf8_str;

verus! {

/// The number that four bytes give in little-endian order.
pub open spec fn le_u32(b0: u8, b1: u8, b2: u8, b3: u8) -> int {
    b0 + 256 * b1 + 65536 * b2 + 16777216 * b3
}

/// The length field at the start of `bytes` (which has at least four bytes).
pub open spec fn frame_len(bytes: Seq<u8>) -> int {
    le_u32(bytes[0], bytes[1], bytes[2], bytes[3])
}

/// The texts of the frames at the start of `bytes`, in order. Reading stops
/// where fewer than four bytes are left or a frame's length runs past the
/// end; a frame whose bytes are not valid UTF-8 is skipped.
pub open spec fn raw_texts(bytes: Seq<u8>) -> Seq<Seq<u8>>
    decreases bytes.len(),
{
    if bytes.len() < 4 {
        Seq::empty()
    } else {
        let n = frame_len(bytes);
        if n > bytes.len() - 4 {
            Seq::empty()
        } else {
            let payload = bytes.subrange(4, 4 + n);
            let rest = raw_texts(bytes.subrange(4 + n, bytes.len() as int));
            if valid_utf8(payload) {
                seq![payload] + rest
            } else {
                rest
            }
        }
    }
}

/// Reads the texts of the binary input format.
pub fn parse_raw_input<'a>(input: &'a [u8]) -> (texts: Vec<&'a str>)
    ensures
        texts@.len() == raw_texts(input@).len(),
        forall|i: int|
            0 <= i < texts@.len() ==> (#[trigger] texts@[i]).spec_bytes() == raw_texts(input@)[i],
{
    let len = input.len();
    let ghost bytes = input@;
    let ghost mut done: Seq<Seq<u8>> = Seq::empty();
    let mut texts: Vec<&'a str> = Vec::new();
    let mut pos: usize = 0;
    assert(bytes.subrange(0, len as int) =~= bytes);
    while pos < len
        invariant_except_break
            pos <= len,
            raw_texts(bytes) == done + raw_texts(bytes.subrange(pos as int, len as int)),
        invariant
            len == bytes.len(),
            bytes == input@,
            done.len() == texts@.len(),
            forall|i: int| 0 <= i < texts@.len() ==> (#[trigger] texts@[i]).spec_bytes() == done[i],
        ensures
            raw_texts(bytes) == done,
        decreases len - pos,
    {
        let ghost rest = bytes.subrange(pos as int, len as int);
        if len - pos < 4 {
            assert(raw_texts(rest) == Seq::<Seq<u8>>::empty());
            assert(done + Seq::<Seq<u8>>::empty() =~= done);
            break;
        }
        let b0 = input[pos];
        let b1 = input[pos + 1];
        let b2 = input[pos + 2];
        let b3 = input[pos + 3];
        let text_len: usize = (b0 as usize) + (b1 as usize) * 256 + (b2 as usize) * 65536 + (b3
            as usize) * 16777216;
        assert(text_len == frame_len(rest));
        pos = pos + 4;
        if text_len > len - pos {
            assert(raw_texts(rest) == Seq::<Seq<u8>>::empty());
            assert(done + Seq::<Seq<u8>>::empty() =~= done);
            break;
        }
        let piece = slice_subrange(input, pos, pos + text_len);
        assert(piece@ =~= rest.subrange(4, 4 + text_len));
        assert(bytes.subrange((pos + text_len) as int, len as int) =~= rest.subrange(
            4 + text_len,
            rest.len() as int,
        ));
        match utf8_str(piece) {
            Some(s) => {
                texts.push(s);
                proof {
                    done = done.push(piece@);
                    assert(seq![piece@] + raw_texts(
                        bytes.subrange((pos + text_len) as int, len as int),
                    ) == raw_texts(rest));
                    assert(done.drop_last() + raw_texts(rest) =~= done + raw_texts(
                        bytes.subrange((pos + text_len) as int, len as int),
                    ));
                }
            },
            None => {},
        }
        pos = pos + text_len;
    }
    texts
}

/// A length written as four little-endian bytes.
pub open spec fn le_bytes(n: nat) -> Seq<u8> {
    seq![(n % 256) as u8, ((n / 256) % 256) as u8, ((n / 65536) % 256) as u8, ((n / 16777216) % 256) as u8]
}

/// Texts written in the binary input format, one frame each.
pub open spec fn encode_frames(payloads: Seq<Seq<u8>>) -> Seq<u8>
    decreases payloads.len(),
{
    if payloads.len() == 0 {
        Seq::empty()
    } else {
        le_bytes(payloads[0].len()) + payloads[0] + encode_frames(payloads.drop_first())
    }
}

proof fn lemma_le_bytes_roundtrip(n: nat)
    requires
        n <= 0xffff_ffff,
    ensures
        le_bytes(n).len() == 4,
        le_u32(le_bytes(n)[0], le_bytes(n)[1], le_bytes(n)[2], le_bytes(n)[3]) == n,
{
    let x = n as u32;
    assert(x % 256 + 256 * ((x / 256) % 256) + 65536 * ((x / 65536) % 256) + 16777216 * ((x
        / 16777216) % 256) == x) by (bit_vector);
}

/// Reading what was written in the binary input format gives back the same
/// texts: for byte strings of valid UTF-8, each no longer than a four-byte
/// length can say.
pub proof fn lemma_raw_input_roundtrip(payloads: Seq<Seq<u8>>)
    requires
        forall|i: int| 0 <= i < payloads.len() ==> (#[trigger] payloads[i]).len() <= 0xffff_ffff,
        forall|i: int| 0 <= i < payloads.len() ==> valid_utf8(#[trigger] payloads[i]),
    ensures
        raw_texts(encode_frames(payloads)) == payloads,
    decreases payloads.len(),
{
    if payloads.len() == 0 {
        assert(encode_frames(payloads).len() == 0);
        assert(raw_texts(encode_frames(payloads)) =~= payloads);
    } else {
        let p = payloads[0];
        let rest = payloads.drop_first();
        assert forall|i: int| 0 <= i < rest.len() implies (#[trigger] rest[i]).len() <= 0xffff_ffff
            && valid_utf8(rest[i]) by {
            assert(rest[i] == payloads[i + 1]);
        }
        lemma_raw_input_roundtrip(rest);
        lemma_le_bytes_roundtrip(p.len());
        let bytes = encode_frames(payloads);
        let head = le_bytes(p.len());
        assert(bytes == head + p + encode_frames(rest));
        assert(bytes[0] == head[0] && bytes[1] == head[1] && bytes[2] == head[2] && bytes[3]
            == head[3]);
        assert(frame_len(bytes) == p.len());
        assert(bytes.subrange(4, 4 + p.len() as int) =~= p);
        assert(bytes.subrange(4 + p.len() as int, bytes.len() as int) =~= encode_frames(rest));
        assert(seq![p] + rest =~= payloads);
    }
}

} // verus!
