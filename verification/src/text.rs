//! Text helpers: string comparison, slicing at character boundaries,
//! UTF-8 checking of byte slices, and splitting a text into its lines.
use vstd::prelude::*;
use vstd::string::StringSliceAdditionalSpecFns;
use vstd::utf8::*;

verus! {

/// A byte that ends a line: `'\n'` or `'\r'`.
pub open spec fn is_eol_byte(b: u8) -> bool {
    b == 10 || b == 13
}

/// The pieces of `bytes` between end-of-line bytes, in order, empty pieces
/// included (what `split` on `'\n'` or `'\r'` yields).
pub open spec fn eol_segments(bytes: Seq<u8>) -> Seq<Seq<u8>>
    decreases bytes.len(),
{
    if bytes.len() == 0 {
        seq![Seq::<u8>::empty()]
    } else {
        let prev = eol_segments(bytes.drop_last());
        if is_eol_byte(bytes.last()) {
            prev.push(Seq::<u8>::empty())
        } else {
            prev.update(prev.len() - 1, prev.last().push(bytes.last()))
        }
    }
}

/// Keeps the non-empty pieces.
pub open spec fn nonempty_piece() -> spec_fn(Seq<u8>) -> bool {
    |s: Seq<u8>| s.len() > 0
}

/// The lines of a text given by its bytes: the non-empty pieces between
/// end-of-line bytes.
pub open spec fn text_lines(bytes: Seq<u8>) -> Seq<Seq<u8>> {
    eol_segments(bytes).filter(nonempty_piece())
}

pub proof fn lemma_eol_segments_nonempty(bytes: Seq<u8>)
    ensures
        eol_segments(bytes).len() >= 1,
    decreases bytes.len(),
{
    if bytes.len() > 0 {
        lemma_eol_segments_nonempty(bytes.drop_last());
    }
}

/// Compares two string slices.
pub fn str_eq(a: &str, b: &str) -> (res: bool)
    ensures
        res == (a@ == b@),
{
    let x = a.as_bytes();
    let y = b.as_bytes();
    proof {
        encode_utf8_decode_utf8(a@);
        encode_utf8_decode_utf8(b@);
    }
    if x.len() != y.len() {
        return false;
    }
    let n = x.len();
    let mut i: usize = 0;
    while i < n
        invariant
            n == x@.len(),
            n == y@.len(),
            x@ == a.spec_bytes(),
            y@ == b.spec_bytes(),
            i <= n,
            forall|k: int| 0 <= k < i ==> x@[k] == y@[k],
        decreases n - i,
    {
        if x[i] != y[i] {
            return false;
        }
        i += 1;
    }
    assert(x@ =~= y@);
    true
}

/// After a one-byte character of a valid UTF-8 sequence a new character starts.
pub proof fn lemma_boundary_after_ascii(bytes: Seq<u8>, k: int)
    requires
        valid_utf8(bytes),
        0 <= k < bytes.len(),
        is_leading_byte_width_1(bytes[k]),
    ensures
        is_char_boundary(bytes, k + 1),
{
    reveal_with_fuel(valid_utf8, 3);
    is_char_boundary_iff_is_leading_byte(bytes, k);
    valid_utf8_split(bytes, k);
    let s = bytes.subrange(k, bytes.len() as int);
    assert(s[0] == bytes[k]);
    assert(valid_first_scalar(s));
    assert(length_of_first_scalar(s) == 1);
    let rest = pop_first_scalar(s);
    assert(rest =~= bytes.subrange(k + 1, bytes.len() as int));
    if k + 1 < bytes.len() {
        assert(valid_first_scalar(rest));
        assert(rest[0] == bytes[k + 1]);
        is_char_boundary_iff_is_leading_byte(bytes, k + 1);
    } else {
        is_char_boundary_start_end_of_seq(bytes);
    }
}

/// A character boundary of a valid UTF-8 sequence stays one in every suffix
/// that starts at a character boundary before it.
pub proof fn lemma_boundary_in_suffix(bytes: Seq<u8>, lo: int, hi: int)
    requires
        valid_utf8(bytes),
        0 <= lo <= hi <= bytes.len(),
        is_char_boundary(bytes, lo),
        is_char_boundary(bytes, hi),
    ensures
        valid_utf8(bytes.subrange(lo, bytes.len() as int)),
        is_char_boundary(bytes.subrange(lo, bytes.len() as int), hi - lo),
{
    valid_utf8_split(bytes, lo);
    let s = bytes.subrange(lo, bytes.len() as int);
    if hi < bytes.len() {
        is_char_boundary_iff_not_is_continuation_byte(bytes, hi);
        assert(s[hi - lo] == bytes[hi]);
        is_char_boundary_iff_not_is_continuation_byte(s, hi - lo);
    } else {
        is_char_boundary_start_end_of_seq(s);
    }
}

/// The part of `s` between two character boundaries, given as byte offsets.
pub fn substr<'a>(s: &'a str, lo: usize, hi: usize) -> (res: &'a str)
    requires
        lo <= hi <= s.spec_bytes().len(),
        is_char_boundary(s.spec_bytes(), lo as int),
        is_char_boundary(s.spec_bytes(), hi as int),
    ensures
        res.spec_bytes() == s.spec_bytes().subrange(lo as int, hi as int),
{
    let ghost bytes = s.spec_bytes();
    proof {
        encode_utf8_valid_utf8(s@);
        lemma_boundary_in_suffix(bytes, lo as int, hi as int);
    }
    let (_, rest) = s.split_at(lo);
    assert(rest.spec_bytes() =~= bytes.subrange(lo as int, bytes.len() as int));
    let (mid, _) = rest.split_at(hi - lo);
    assert(mid.spec_bytes() =~= bytes.subrange(lo as int, hi as int));
    mid
}

/// Checks whether `bytes` is valid UTF-8, with `std::str::from_utf8`.
/// The contract claims that the result is `Some` exactly when the bytes are
/// valid UTF-8 (as vstd's `valid_utf8` defines it), and that the string then
/// has exactly these bytes.
#[verifier::external_body]
pub(crate) fn utf8_str<'a>(bytes: &'a [u8]) -> (res: Option<&'a str>)
    ensures
        res is Some <==> valid_utf8(bytes@),
        res matches Some(s) ==> s.spec_bytes() == bytes@,
{
    std::str::from_utf8(bytes).ok()
}

/// Splits a text into its lines: the non-empty pieces between `'\n'` and
/// `'\r'` characters, in order.
pub fn split_lines<'a>(text: &'a str) -> (lines: Vec<&'a str>)
    ensures
        lines@.len() == text_lines(text.spec_bytes()).len(),
        forall|i: int|
            0 <= i < lines@.len() ==> (#[trigger] lines@[i]).spec_bytes() == text_lines(
                text.spec_bytes(),
            )[i],
        forall|i: int| 0 <= i < lines@.len() ==> (#[trigger] lines@[i]).spec_bytes().len() > 0,
        forall|i: int, j: int|
            0 <= i < lines@.len() && 0 <= j < lines@[i].spec_bytes().len() ==> !is_eol_byte(
                #[trigger] lines@[i].spec_bytes()[j],
            ),
{
    let bytes = text.as_bytes();
    let n = bytes.len();
    let ghost b = bytes@;
    let ghost pred = nonempty_piece();
    proof {
        encode_utf8_valid_utf8(text@);
        is_char_boundary_start_end_of_seq(b);
    }
    let mut lines: Vec<&'a str> = Vec::new();
    let mut start: usize = 0;
    let mut i: usize = 0;
    while i < n
        invariant
            n == b.len(),
            b == text.spec_bytes(),
            b == bytes@,
            pred == nonempty_piece(),
            valid_utf8(b),
            start <= i <= n,
            is_char_boundary(b, start as int),
            eol_segments(b.take(i as int)).len() >= 1,
            eol_segments(b.take(i as int)).last() == b.subrange(start as int, i as int),
            lines@.len() == eol_segments(b.take(i as int)).drop_last().filter(pred).len(),
            forall|k: int|
                0 <= k < lines@.len() ==> (#[trigger] lines@[k]).spec_bytes() == eol_segments(
                    b.take(i as int),
                ).drop_last().filter(pred)[k],
            forall|k: int| start <= k < i ==> !is_eol_byte(#[trigger] b[k]),
            forall|k: int| 0 <= k < lines@.len() ==> (#[trigger] lines@[k]).spec_bytes().len() > 0,
            forall|k: int, j: int|
                0 <= k < lines@.len() && 0 <= j < lines@[k].spec_bytes().len() ==> !is_eol_byte(
                    #[trigger] lines@[k].spec_bytes()[j],
                ),
        decreases n - i,
    {
        let ghost segs = eol_segments(b.take(i as int));
        assert(b.take(i + 1).drop_last() =~= b.take(i as int));
        if bytes[i] == 10 || bytes[i] == 13 {
            let ghost segs2 = eol_segments(b.take(i + 1));
            assert(segs2 == segs.push(Seq::<u8>::empty()));
            assert(segs2.drop_last() =~= segs);
            assert(segs.drop_last().push(segs.last()) =~= segs);
            proof {
                reveal(Seq::filter);
                is_char_boundary_iff_is_leading_byte(b, i as int);
                lemma_boundary_after_ascii(b, i as int);
            }
            if i > start {
                let line = substr(text, start, i);
                lines.push(line);
                assert(segs.filter(pred) == segs.drop_last().filter(pred).push(segs.last())) by {
                    reveal(Seq::filter);
                }
            } else {
                assert(segs.filter(pred) == segs.drop_last().filter(pred)) by {
                    reveal(Seq::filter);
                }
            }
            start = i + 1;
            proof {
                lemma_eol_segments_nonempty(b.take(i + 1));
                assert(b.subrange(start as int, i + 1) =~= Seq::<u8>::empty());
            }
        } else {
            let ghost segs2 = eol_segments(b.take(i + 1));
            proof {
                assert(b.take(i + 1).last() == b[i as int]);
                assert(segs2 == segs.update(segs.len() - 1, segs.last().push(b[i as int])));
                assert(segs2.drop_last() =~= segs.drop_last());
                assert(b.subrange(start as int, i + 1) =~= b.subrange(start as int, i as int).push(
                    b[i as int],
                ));
            }
        }
        i += 1;
    }
    let ghost segs = eol_segments(b.take(n as int));
    assert(b.take(n as int) =~= b);
    assert(segs.drop_last().push(segs.last()) =~= segs);
    proof {
        reveal(Seq::filter);
    }
    if n > start {
        let line = substr(text, start, n);
        lines.push(line);
        assert(segs.filter(pred) == segs.drop_last().filter(pred).push(segs.last()));
    } else {
        assert(segs.filter(pred) == segs.drop_last().filter(pred));
    }
    lines
}

} // verus!
