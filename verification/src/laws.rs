//! Properties of the rendering as a whole: results written into one buffer
//! equal the texts' blocks rendered one by one and joined; plain-text output
//! of a batch of texts is the concatenation of its parts; JSON output is an
//! array with one array of values per text; the output rests on the analyses
//! and three settings alone; and the lines of a text do not depend on blank
//! lines or on the style of its line ends.
use vstd::prelude::*;
use crate::analysis::{
    join_spec, json_array, render_all, render_line, render_lines, render_one, text_block,
    text_items, texts_into, write_morphemes, write_sentence_lines, write_token_sentences,
    LineView, RenderConfig,
};
use crate::bytes::{
    concat_all, joined, lemma_concat_all_append, lemma_terminated_is_joined, pop_comma,
    terminated, COMMA, NEWLINE,
};
use crate::framing::start_spec;
use crate::config::{OutputMethod, SudachiLib};
use crate::output::MorphemeInfo;
use crate::text::{eol_segments, is_eol_byte, lemma_eol_segments_nonempty, nonempty_piece, text_lines};

verus! {

proof fn lemma_append_assoc(w: Seq<u8>, s: Seq<u8>, d: Seq<u8>)
    ensures
        (w + s) + d == w + (s + d),
{
    assert((w + s) + d =~= w + (s + d));
}

proof fn lemma_morphemes_append(rc: RenderConfig, w: Seq<u8>, s: Seq<u8>, ms: Seq<MorphemeInfo>)
    requires
        !rc.is_json,
    ensures
        write_morphemes(rc, w + s, ms) == w + write_morphemes(rc, s, ms),
{
    let d = write_morphemes(rc, Seq::empty(), ms);
    assert(s + d =~= s + (Seq::<u8>::empty() + d));
    lemma_append_assoc(w, s, d);
    assert(Seq::<u8>::empty() + d =~= d);
    assert(write_morphemes(rc, w + s, ms) =~= (w + s) + (write_morphemes(rc, Seq::empty(), ms)));
    assert(write_morphemes(rc, s, ms) =~= s + (write_morphemes(rc, Seq::empty(), ms)));
}

proof fn lemma_token_sentences_append(
    rc: RenderConfig,
    w: Seq<u8>,
    s: Seq<u8>,
    ts: Seq<Seq<MorphemeInfo>>,
)
    requires
        !rc.is_json,
    ensures
        write_token_sentences(rc, w + s, ts) == w + write_token_sentences(rc, s, ts),
    decreases ts.len(),
{
    if ts.len() > 0 {
        lemma_token_sentences_append(rc, w, s, ts.drop_last());
        lemma_morphemes_append(rc, w, write_token_sentences(rc, s, ts.drop_last()), ts.last());
    }
}

proof fn lemma_line_append(rc: RenderConfig, w: Seq<u8>, s: Seq<u8>, l: LineView)
    requires
        !rc.is_json,
    ensures
        render_line(rc, w + s, l) == w + render_line(rc, s, l),
{
    match l {
        LineView::Sentences(ss) => {
            lemma_append_assoc(w, s, terminated(crate::analysis::plain_sentences(ss), seq![NEWLINE]));
        },
        LineView::Tokens(ts) => lemma_token_sentences_append(rc, w, s, ts),
    }
}

proof fn lemma_lines_append(rc: RenderConfig, w: Seq<u8>, s: Seq<u8>, ls: Seq<LineView>)
    requires
        !rc.is_json,
    ensures
        render_lines(rc, w + s, ls) == w + render_lines(rc, s, ls),
    decreases ls.len(),
{
    if ls.len() > 0 {
        lemma_lines_append(rc, w, s, ls.drop_last());
        lemma_line_append(rc, w, render_lines(rc, s, ls.drop_last()), ls.last());
    }
}

/// A text's block does not depend on what was written before it.
pub proof fn lemma_text_block_appends(rc: RenderConfig, w: Seq<u8>, ls: Seq<LineView>)
    ensures
        text_block(rc, w, ls) == w + render_one(rc, ls),
{
    let e = Seq::<u8>::empty();
    assert(w + e =~= w);
    if rc.is_json {
        assert(w + json_array(text_items(rc, ls)) + seq![COMMA] =~= w + (e + json_array(
            text_items(rc, ls),
        ) + seq![COMMA]));
    } else {
        lemma_lines_append(rc, w, e, ls);
        assert(render_lines(rc, w, ls).push(NEWLINE) =~= w + render_lines(rc, e, ls).push(NEWLINE));
    }
}

/// The blocks of each text, rendered on their own.
pub open spec fn blocks_of(rc: RenderConfig, ts: Seq<Seq<LineView>>) -> Seq<Seq<u8>> {
    Seq::new(ts.len(), |i: int| render_one(rc, ts[i]))
}

proof fn lemma_texts_into_concat(rc: RenderConfig, w: Seq<u8>, ts: Seq<Seq<LineView>>)
    ensures
        texts_into(rc, w, ts) == w + concat_all(blocks_of(rc, ts)),
    decreases ts.len(),
{
    if ts.len() == 0 {
        assert(w + concat_all(blocks_of(rc, ts)) =~= w);
    } else {
        lemma_texts_into_concat(rc, w, ts.drop_last());
        lemma_text_block_appends(rc, texts_into(rc, w, ts.drop_last()), ts.last());
        assert(blocks_of(rc, ts).drop_last() =~= blocks_of(rc, ts.drop_last()));
        assert(blocks_of(rc, ts).last() == render_one(rc, ts.last()));
        assert(texts_into(rc, w, ts) =~= w + concat_all(blocks_of(rc, ts)));
    }
}

/// Writing all texts into one buffer gives the same output as rendering
/// each text's block on its own and joining the blocks (the single-threaded
/// and the multi-threaded paths agree).
pub proof fn lemma_render_all_is_joined_blocks(rc: RenderConfig, ts: Seq<Seq<LineView>>)
    ensures
        render_all(rc, ts) == join_spec(rc.is_json, blocks_of(rc, ts)),
{
    lemma_texts_into_concat(rc, start_spec(rc.is_json, Seq::empty()), ts);
}

/// The texts of a list of batches, one batch after another.
pub open spec fn batches_texts(batches: Seq<Seq<Seq<LineView>>>) -> Seq<Seq<LineView>>
    decreases batches.len(),
{
    if batches.len() == 0 {
        Seq::empty()
    } else {
        batches_texts(batches.drop_last()) + batches.last()
    }
}

/// The plain-text output of each batch.
pub open spec fn batch_outputs(rc: RenderConfig, batches: Seq<Seq<Seq<LineView>>>) -> Seq<Seq<u8>> {
    Seq::new(batches.len(), |i: int| render_all(rc, batches[i]))
}

/// In plain text, the output of two lists of texts is the output of the
/// first followed by the output of the second.
pub proof fn lemma_raw_output_concatenates(
    rc: RenderConfig,
    ts1: Seq<Seq<LineView>>,
    ts2: Seq<Seq<LineView>>,
)
    requires
        !rc.is_json,
    ensures
        render_all(rc, ts1 + ts2) == render_all(rc, ts1) + render_all(rc, ts2),
{
    let e = Seq::<u8>::empty();
    lemma_texts_into_concat(rc, e, ts1 + ts2);
    lemma_texts_into_concat(rc, e, ts1);
    lemma_texts_into_concat(rc, e, ts2);
    assert(blocks_of(rc, ts1 + ts2) =~= blocks_of(rc, ts1) + blocks_of(rc, ts2));
    lemma_concat_all_append(blocks_of(rc, ts1), blocks_of(rc, ts2));
    assert(e + concat_all(blocks_of(rc, ts1 + ts2)) =~= concat_all(blocks_of(rc, ts1 + ts2)));
    assert(e + concat_all(blocks_of(rc, ts1)) =~= concat_all(blocks_of(rc, ts1)));
    assert(e + concat_all(blocks_of(rc, ts2)) =~= concat_all(blocks_of(rc, ts2)));
}

/// In plain text, rendering texts batch by batch and concatenating the
/// batches' outputs gives the output of rendering all texts at once (what the
/// callback receives, batch by batch, is what the one-shot call returns).
pub proof fn lemma_raw_batches_concatenate(rc: RenderConfig, batches: Seq<Seq<Seq<LineView>>>)
    requires
        !rc.is_json,
    ensures
        render_all(rc, batches_texts(batches)) == concat_all(batch_outputs(rc, batches)),
    decreases batches.len(),
{
    if batches.len() == 0 {
        lemma_texts_into_concat(rc, Seq::empty(), Seq::empty());
        assert(concat_all(blocks_of(rc, Seq::<Seq<LineView>>::empty())) =~= Seq::<u8>::empty());
    } else {
        lemma_raw_batches_concatenate(rc, batches.drop_last());
        lemma_raw_output_concatenates(rc, batches_texts(batches.drop_last()), batches.last());
        assert(batch_outputs(rc, batches).drop_last() =~= batch_outputs(rc, batches.drop_last()));
    }
}

/// The array of each text's values.
pub open spec fn text_arrays(rc: RenderConfig, ts: Seq<Seq<LineView>>) -> Seq<Seq<u8>> {
    Seq::new(ts.len(), |i: int| json_array(text_items(rc, ts[i])))
}

/// The JSON output as an array holding, for each text, the array of its
/// values.
pub open spec fn nested_json(rc: RenderConfig, ts: Seq<Seq<LineView>>) -> Seq<u8> {
    json_array(text_arrays(rc, ts))
}

proof fn lemma_json_blocks_terminated(rc: RenderConfig, ts: Seq<Seq<LineView>>)
    requires
        rc.is_json,
    ensures
        concat_all(blocks_of(rc, ts)) == terminated(text_arrays(rc, ts), seq![COMMA]),
    decreases ts.len(),
{
    if ts.len() > 0 {
        lemma_json_blocks_terminated(rc, ts.drop_last());
        assert(blocks_of(rc, ts).drop_last() =~= blocks_of(rc, ts.drop_last()));
        assert(text_arrays(rc, ts).drop_last() =~= text_arrays(rc, ts.drop_last()));
        assert(blocks_of(rc, ts).last() =~= text_arrays(rc, ts).last() + seq![COMMA]);
        assert(concat_all(blocks_of(rc, ts)) =~= terminated(text_arrays(rc, ts), seq![COMMA]));
    }
}

/// JSON output is an array holding, for each text, the array of the values
/// written for it: its sentences as strings (when only splitting), or one
/// value per kept morpheme of all its lines, in order. A text without
/// values gives an empty array.
pub proof fn lemma_json_output_is_nested_array(rc: RenderConfig, ts: Seq<Seq<LineView>>)
    requires
        rc.is_json,
    ensures
        render_all(rc, ts) == nested_json(rc, ts),
{
    let st = start_spec(rc.is_json, Seq::<u8>::empty());
    lemma_texts_into_concat(rc, st, ts);
    lemma_json_blocks_terminated(rc, ts);
    let ta = text_arrays(rc, ts);
    let body = st + terminated(ta, seq![COMMA]);
    if ts.len() > 0 {
        lemma_terminated_is_joined(ta, seq![COMMA]);
        assert(body =~= (st + joined(ta, seq![COMMA])).push(COMMA));
        assert(pop_comma(body) =~= st + joined(ta, seq![COMMA]));
    } else {
        assert(body =~= st);
        assert(joined(ta, seq![COMMA]).len() == 0);
    }
    assert(render_all(rc, ts) =~= nested_json(rc, ts));
}


/// Rendering depends on the analyses and on three settings only: whether
/// only surfaces are written, whether all fields are written, and the
/// exclusion list. Two analyzers that agree on these write the same bytes
/// for the same analyses, all at once or text by text, whatever their
/// analysis mode, split mode or thread setting; in particular rendering the
/// same analyses twice gives the same bytes, and a text's block is the same
/// whichever thread renders it.
pub proof fn lemma_rendering_depends_on_output_settings(
    a: SudachiLib,
    b: SudachiLib,
    method: OutputMethod,
    ts: Seq<Seq<LineView>>,
)
    requires
        a.wakati == b.wakati,
        a.print_all == b.print_all,
        a.exclude_pos.deep_view() == b.exclude_pos.deep_view(),
    ensures
        render_all(a.render_config(method), ts) == render_all(b.render_config(method), ts),
        forall|i: int|
            0 <= i < ts.len() ==> render_one(a.render_config(method), #[trigger] ts[i]) == render_one(
                b.render_config(method),
                ts[i],
            ),
        blocks_of(a.render_config(method), ts) == blocks_of(b.render_config(method), ts),
{
    assert(a.render_config(method) == b.render_config(method));
}

proof fn lemma_segments_split_at_eol(x: Seq<u8>, e: u8, y: Seq<u8>)
    requires
        is_eol_byte(e),
    ensures
        eol_segments(x + seq![e] + y) == eol_segments(x) + eol_segments(y),
    decreases y.len(),
{
    let z = x + seq![e] + y;
    if y.len() == 0 {
        assert(z.drop_last() =~= x);
        assert(eol_segments(x) + eol_segments(y) =~= eol_segments(x).push(Seq::<u8>::empty()));
    } else {
        lemma_segments_split_at_eol(x, e, y.drop_last());
        assert(z.drop_last() =~= x + seq![e] + y.drop_last());
        assert(z.last() == y.last());
        let a = eol_segments(x);
        let p = eol_segments(y.drop_last());
        lemma_eol_segments_nonempty(y.drop_last());
        if is_eol_byte(y.last()) {
            assert((a + p).push(Seq::<u8>::empty()) =~= a + p.push(Seq::<u8>::empty()));
        } else {
            assert((a + p).update((a + p).len() - 1, (a + p).last().push(y.last())) =~= a + p.update(
                p.len() - 1,
                p.last().push(y.last()),
            ));
        }
    }
}

/// At a line end the lines part: the lines of `x`, a line-end byte, then
/// `y` are the lines of `x` followed by the lines of `y`.
pub proof fn lemma_lines_split_at_line_end(x: Seq<u8>, e: u8, y: Seq<u8>)
    requires
        is_eol_byte(e),
    ensures
        text_lines(x + seq![e] + y) == text_lines(x) + text_lines(y),
{
    lemma_segments_split_at_eol(x, e, y);
    Seq::filter_distributes_over_add(eol_segments(x), eol_segments(y), nonempty_piece());
}

/// Line ends at the end of a text add no line.
proof fn lemma_trailing_line_ends(x: Seq<u8>, c: Seq<u8>)
    requires
        forall|k: int| 0 <= k < c.len() ==> is_eol_byte(#[trigger] c[k]),
    ensures
        text_lines(x + c) == text_lines(x),
    decreases c.len(),
{
    if c.len() > 0 {
        let d = c.drop_last();
        lemma_trailing_line_ends(x, d);
        lemma_lines_split_at_line_end(x + d, c.last(), Seq::empty());
        assert(x + d + seq![c.last()] + Seq::<u8>::empty() =~= x + c);
        reveal(Seq::filter);
        let segs = eol_segments(Seq::<u8>::empty());
        assert(segs == seq![Seq::<u8>::empty()]);
        assert(segs.drop_last() =~= Seq::<Seq<u8>>::empty());
        assert(Seq::<Seq<u8>>::empty().filter(nonempty_piece()) =~= Seq::<Seq<u8>>::empty());
        assert(!(nonempty_piece())(segs.last()));
        assert(text_lines(Seq::<u8>::empty()) =~= Seq::<Seq<u8>>::empty());
        assert(text_lines(x + d) + text_lines(Seq::<u8>::empty()) =~= text_lines(x + d));
    }
}

/// Blank lines and the style of line ends never change the lines of a
/// text: between `x` and `y`, any non-empty run of `'\n'` and `'\r'` bytes,
/// however long and however mixed, gives the lines of `x` followed by the
/// lines of `y`. So `"a\r\n\r\nb\n"` and `"a\nb"` have the same lines.
pub proof fn lemma_lines_around_line_ends(x: Seq<u8>, c: Seq<u8>, y: Seq<u8>)
    requires
        c.len() > 0,
        forall|k: int| 0 <= k < c.len() ==> is_eol_byte(#[trigger] c[k]),
    ensures
        text_lines(x + c + y) == text_lines(x) + text_lines(y),
{
    let d = c.drop_last();
    assert(is_eol_byte(c[c.len() - 1]));
    lemma_lines_split_at_line_end(x + d, c.last(), y);
    assert(x + d + seq![c.last()] + y =~= x + c + y);
    assert forall|k: int| 0 <= k < d.len() implies is_eol_byte(#[trigger] d[k]) by {
        assert(d[k] == c[k]);
    }
    lemma_trailing_line_ends(x, d);
}

/// Lines are cut only at `'\n'` and `'\r'`: a non-empty text that holds
/// neither byte is one line, the whole text, whatever spaces, tabs or other
/// bytes it holds.
pub proof fn lemma_text_without_line_ends_is_one_line(x: Seq<u8>)
    requires
        x.len() > 0,
        forall|k: int| 0 <= k < x.len() ==> #[trigger] x[k] != 10 && x[k] != 13,
    ensures
        text_lines(x) == seq![x],
{
    lemma_segments_without_line_ends(x);
    reveal(Seq::filter);
    let segs = seq![x];
    assert(segs.drop_last() =~= Seq::<Seq<u8>>::empty());
    assert(Seq::<Seq<u8>>::empty().filter(nonempty_piece()) =~= Seq::<Seq<u8>>::empty());
    assert((nonempty_piece())(x));
    assert(segs.filter(nonempty_piece()) =~= seq![x]);
}

proof fn lemma_segments_without_line_ends(x: Seq<u8>)
    requires
        forall|k: int| 0 <= k < x.len() ==> #[trigger] x[k] != 10 && x[k] != 13,
    ensures
        eol_segments(x) == seq![x],
    decreases x.len(),
{
    if x.len() > 0 {
        let d = x.drop_last();
        assert forall|k: int| 0 <= k < d.len() implies #[trigger] d[k] != 10 && d[k] != 13 by {
            assert(d[k] == x[k]);
        }
        lemma_segments_without_line_ends(d);
        assert(x.last() == x[x.len() - 1]);
        assert(d.push(x.last()) =~= x);
        assert(seq![d].update(0, d.push(x.last())) =~= seq![x]);
    } else {
        assert(x =~= Seq::<u8>::empty());
    }
}

/// Both `'\n'` and `'\r'` end a line: a text with either byte between `x`
/// and `y` has the lines of `x` followed by the lines of `y`.
pub proof fn lemma_newline_and_return_end_lines(x: Seq<u8>, y: Seq<u8>)
    ensures
        text_lines(x + seq![10u8] + y) == text_lines(x) + text_lines(y),
        text_lines(x + seq![13u8] + y) == text_lines(x) + text_lines(y),
{
    lemma_lines_split_at_line_end(x, 10u8, y);
    lemma_lines_split_at_line_end(x, 13u8, y);
}

} // verus!
