//! Byte sequences as the output is built from them: concatenations,
//! separator-joined and terminator-ended lists, and the writer operations
//! used throughout.
use vstd::prelude::*;
use vstd::string::StringSliceAdditionalSpecFns;

verus! {

pub const COMMA: u8 = 0x2C;

pub const NEWLINE: u8 = 0x0A;

pub const TAB: u8 = 0x09;

pub const SPACE: u8 = 0x20;

pub const OPEN_BRACKET: u8 = 0x5B;

pub const CLOSE_BRACKET: u8 = 0x5D;

/// All the pieces, one after another.
pub open spec fn concat_all(parts: Seq<Seq<u8>>) -> Seq<u8>
    decreases parts.len(),
{
    if parts.len() == 0 {
        Seq::empty()
    } else {
        concat_all(parts.drop_last()) + parts.last()
    }
}

/// Each piece followed by the terminator `t`.
pub open spec fn terminated(parts: Seq<Seq<u8>>, t: Seq<u8>) -> Seq<u8>
    decreases parts.len(),
{
    if parts.len() == 0 {
        Seq::empty()
    } else {
        terminated(parts.drop_last(), t) + parts.last() + t
    }
}

/// The pieces with the separator `sep` between each two of them.
pub open spec fn joined(parts: Seq<Seq<u8>>, sep: Seq<u8>) -> Seq<u8>
    decreases parts.len(),
{
    if parts.len() == 0 {
        Seq::empty()
    } else if parts.len() == 1 {
        parts[0]
    } else {
        joined(parts.drop_last(), sep) + sep + parts.last()
    }
}

/// Removes one trailing comma, if the sequence ends with one.
pub open spec fn pop_comma(w: Seq<u8>) -> Seq<u8> {
    if w.len() > 0 && w.last() == COMMA {
        w.drop_last()
    } else {
        w
    }
}

/// A non-empty list ended by terminators is the joined list plus one
/// terminator.
pub proof fn lemma_terminated_is_joined(parts: Seq<Seq<u8>>, t: Seq<u8>)
    requires
        parts.len() > 0,
    ensures
        terminated(parts, t) == joined(parts, t) + t,
    decreases parts.len(),
{
    if parts.len() == 1 {
        assert(parts.drop_last().len() == 0);
        assert(terminated(parts.drop_last(), t) == Seq::<u8>::empty());
        assert(parts.last() == parts[0]);
        assert(Seq::<u8>::empty() + parts[0] =~= parts[0]);
    } else {
        lemma_terminated_is_joined(parts.drop_last(), t);
        assert(terminated(parts, t) =~= joined(parts.drop_last(), t) + t + parts.last() + t);
    }
}

/// Adding a piece to a non-empty joined list adds the separator and the piece.
pub proof fn lemma_joined_push(parts: Seq<Seq<u8>>, sep: Seq<u8>, p: Seq<u8>)
    requires
        parts.len() > 0,
    ensures
        joined(parts.push(p), sep) == joined(parts, sep) + sep + p,
{
    assert(parts.push(p).drop_last() =~= parts);
}

/// Joining two non-empty lists puts the separator between their joins.
pub proof fn lemma_joined_append(a: Seq<Seq<u8>>, b: Seq<Seq<u8>>, sep: Seq<u8>)
    requires
        a.len() > 0,
        b.len() > 0,
    ensures
        joined(a + b, sep) == joined(a, sep) + sep + joined(b, sep),
    decreases b.len(),
{
    if b.len() == 1 {
        assert(a + b =~= a.push(b[0]));
        lemma_joined_push(a, sep, b[0]);
    } else {
        lemma_joined_append(a, b.drop_last(), sep);
        assert(a + b =~= (a + b.drop_last()).push(b.last()));
        lemma_joined_push(a + b.drop_last(), sep, b.last());
        lemma_joined_push(b.drop_last(), sep, b.last());
        assert(b.drop_last().push(b.last()) =~= b);
        assert(joined(a + b, sep) =~= joined(a, sep) + sep + joined(b, sep));
    }
}

/// Adding the pieces `b` to a joined list `a`: the separator goes between
/// the two only when both are non-empty.
pub proof fn lemma_joined_extend(w: Seq<u8>, a: Seq<Seq<u8>>, b: Seq<Seq<u8>>, sep: Seq<u8>)
    ensures
        b.len() == 0 ==> w + joined(a + b, sep) == w + joined(a, sep),
        a.len() == 0 ==> w + joined(a + b, sep) == w + joined(b, sep),
        a.len() > 0 && b.len() > 0 ==> w + joined(a + b, sep) == w + joined(a, sep) + sep
            + joined(b, sep),
{
    if b.len() == 0 {
        assert(a + b =~= a);
    }
    if a.len() == 0 {
        assert(a + b =~= b);
    }
    if a.len() > 0 && b.len() > 0 {
        lemma_joined_append(a, b, sep);
        assert(w + (joined(a, sep) + sep + joined(b, sep)) =~= w + joined(a, sep) + sep + joined(
            b,
            sep,
        ));
    }
}

/// All lists, one after another.
pub open spec fn flatten_items(groups: Seq<Seq<Seq<u8>>>) -> Seq<Seq<u8>>
    decreases groups.len(),
{
    if groups.len() == 0 {
        Seq::empty()
    } else {
        flatten_items(groups.drop_last()) + groups.last()
    }
}

/// Concatenation of two lists of pieces.
pub proof fn lemma_concat_all_append(a: Seq<Seq<u8>>, b: Seq<Seq<u8>>)
    ensures
        concat_all(a + b) == concat_all(a) + concat_all(b),
    decreases b.len(),
{
    if b.len() == 0 {
        assert(a + b =~= a);
        assert(concat_all(a) + Seq::<u8>::empty() =~= concat_all(a));
    } else {
        lemma_concat_all_append(a, b.drop_last());
        assert((a + b).drop_last() =~= a + b.drop_last());
        assert((a + b).last() == b.last());
        assert(concat_all(a + b) =~= concat_all(a) + concat_all(b.drop_last()) + b.last());
    }
}

/// Appends the bytes of `s` to `w`.
pub fn push_str(w: &mut Vec<u8>, s: &str)
    ensures
        final(w)@ == old(w)@ + s.spec_bytes(),
{
    let b = s.as_bytes();
    let n = b.len();
    let mut i: usize = 0;
    while i < n
        invariant
            n == b@.len(),
            b@ == s.spec_bytes(),
            i <= n,
            w@ == old(w)@ + b@.take(i as int),
        decreases n - i,
    {
        w.push(b[i]);
        assert(b@.take(i + 1) == b@.take(i as int).push(b@[i as int]));
        i += 1;
    }
    assert(b@.take(n as int) == b@);
}

/// Removes one trailing comma from `w`, if it ends with one.
pub fn pop_trailing_comma(w: &mut Vec<u8>)
    ensures
        final(w)@ == pop_comma(old(w)@),
{
    let n = w.len();
    if n > 0 && w[n - 1] == COMMA {
        w.pop();
    }
}

} // verus!
