//! Rendering the analysis of texts. Each text is split into lines; each line
//! is analyzed into its sentences (only split, or split and tokenized, or
//! tokenized whole as one sentence). These functions take those analyses and
//! write them out as the chosen output method and settings say.
use vstd::prelude::*;
use vstd::utf8::encode_utf8;
use crate::bytes::{
    concat_all, flatten_items, joined, lemma_joined_extend, push_str, terminated, CLOSE_BRACKET,
    COMMA, NEWLINE, OPEN_BRACKET,
};
use crate::config::{line_kind_of, LineKind, OutputMethod, SudachiLib};
use crate::framing::{end_spec, start_spec, OutputHelper};
use crate::json::{json_string, write_json_string};
use crate::output::{
    all_well_formed, keeps_any, kept_values, simple_json_value, simple_json_write,
    simple_raw_write, wakachi_json_value, wakachi_json_write, wakachi_raw_write, MorphemeInfo,
    SimpleJSON, SimpleRaw, SudachiOutput, WakachiJSON, WakachiRaw,
};

verus! {

/// The analysis of one line.
pub enum LineAnalysis {
    /// The sentences of the line, when texts are only split into sentences.
    Sentences(Vec<String>),
    /// The morphemes of each sentence of the line.
    Tokens(Vec<Vec<MorphemeInfo>>),
}

/// What a line's analysis holds.
pub enum LineView {
    Sentences(Seq<Seq<char>>),
    Tokens(Seq<Seq<MorphemeInfo>>),
}

pub open spec fn sentences_view(ts: Seq<Vec<MorphemeInfo>>) -> Seq<Seq<MorphemeInfo>> {
    Seq::new(ts.len(), |i: int| ts[i]@)
}

impl DeepView for LineAnalysis {
    type V = LineView;

    open spec fn deep_view(&self) -> LineView {
        match self {
            LineAnalysis::Sentences(ss) => LineView::Sentences(ss.deep_view()),
            LineAnalysis::Tokens(ts) => LineView::Tokens(sentences_view(ts@)),
        }
    }
}

/// Every morpheme of a line has a part-of-speech tag.
pub open spec fn line_well_formed(l: LineAnalysis) -> bool {
    l is Tokens ==> forall|k: int|
        0 <= k < l->Tokens_0@.len() ==> all_well_formed(#[trigger] l->Tokens_0@[k]@)
}

pub open spec fn lines_well_formed(ls: Seq<LineAnalysis>) -> bool {
    forall|i: int| 0 <= i < ls.len() ==> line_well_formed(#[trigger] ls[i])
}

pub open spec fn texts_well_formed(ts: Seq<Vec<LineAnalysis>>) -> bool {
    forall|i: int| 0 <= i < ts.len() ==> lines_well_formed(#[trigger] ts[i]@)
}

/// A line's analysis is of the kind asked for: sentences, or the morphemes
/// of its sentences, or the morphemes of the whole line as one sentence.
pub open spec fn line_fits(kind: LineKind, l: LineView) -> bool {
    match kind {
        LineKind::Sentences => l is Sentences,
        LineKind::SentenceTokens => l is Tokens,
        LineKind::LineTokens => l is Tokens && l->Tokens_0.len() == 1,
    }
}

pub open spec fn lines_fit(kind: LineKind, ls: Seq<LineView>) -> bool {
    forall|j: int| 0 <= j < ls.len() ==> line_fits(kind, #[trigger] ls[j])
}

pub open spec fn texts_fit(kind: LineKind, ts: Seq<Seq<LineView>>) -> bool {
    forall|i: int| 0 <= i < ts.len() ==> lines_fit(kind, #[trigger] ts[i])
}

/// Whether a line's analysis is of the kind asked for.
pub fn line_fits_kind(kind: LineKind, l: &LineAnalysis) -> (res: bool)
    ensures
        res == line_fits(kind, l.deep_view()),
{
    match (kind, l) {
        (LineKind::Sentences, LineAnalysis::Sentences(_)) => true,
        (LineKind::SentenceTokens, LineAnalysis::Tokens(_)) => true,
        (LineKind::LineTokens, LineAnalysis::Tokens(ts)) => ts.len() == 1,
        _ => false,
    }
}

/// The settings the rendering depends on.
pub struct RenderConfig {
    pub is_json: bool,
    pub wakati: bool,
    pub print_all: bool,
    pub excl: Seq<Seq<char>>,
}

/// The morphemes of one sentence, as the method and settings say.
pub open spec fn write_morphemes(rc: RenderConfig, w: Seq<u8>, ms: Seq<MorphemeInfo>) -> Seq<u8> {
    if rc.is_json {
        if rc.wakati {
            wakachi_json_write(rc.excl, w, ms)
        } else {
            simple_json_write(rc.print_all, rc.excl, w, ms)
        }
    } else {
        if rc.wakati {
            wakachi_raw_write(rc.excl, w, ms)
        } else {
            simple_raw_write(rc.print_all, rc.excl, w, ms)
        }
    }
}

pub open spec fn json_sentences(ss: Seq<Seq<char>>) -> Seq<Seq<u8>> {
    Seq::new(ss.len(), |i: int| json_string(ss[i]))
}

pub open spec fn plain_sentences(ss: Seq<Seq<char>>) -> Seq<Seq<u8>> {
    Seq::new(ss.len(), |i: int| encode_utf8(ss[i]))
}

/// A JSON array of the given values.
pub open spec fn json_array(items: Seq<Seq<u8>>) -> Seq<u8> {
    seq![OPEN_BRACKET] + joined(items, seq![COMMA]) + seq![CLOSE_BRACKET]
}

/// How a kept morpheme is written in JSON.
pub open spec fn morpheme_value(rc: RenderConfig) -> spec_fn(MorphemeInfo) -> Seq<u8> {
    if rc.wakati {
        wakachi_json_value()
    } else {
        simple_json_value(rc.print_all)
    }
}

/// The JSON values written for one sentence: one per kept morpheme.
pub open spec fn sentence_items(rc: RenderConfig, ms: Seq<MorphemeInfo>) -> Seq<Seq<u8>> {
    kept_values(rc.excl, ms, morpheme_value(rc))
}

pub open spec fn sentences_items(rc: RenderConfig, ts: Seq<Seq<MorphemeInfo>>) -> Seq<Seq<Seq<u8>>> {
    Seq::new(ts.len(), |i: int| sentence_items(rc, ts[i]))
}

/// The JSON values written for one line: its sentences as strings, or the
/// values of the kept morphemes of all its sentences.
pub open spec fn line_items(rc: RenderConfig, l: LineView) -> Seq<Seq<u8>> {
    match l {
        LineView::Sentences(ss) => json_sentences(ss),
        LineView::Tokens(ts) => flatten_items(sentences_items(rc, ts)),
    }
}

pub open spec fn lines_items(rc: RenderConfig, ls: Seq<LineView>) -> Seq<Seq<Seq<u8>>> {
    Seq::new(ls.len(), |j: int| line_items(rc, ls[j]))
}

/// The JSON values written for one text, all its lines together.
pub open spec fn text_items(rc: RenderConfig, ls: Seq<LineView>) -> Seq<Seq<u8>> {
    flatten_items(lines_items(rc, ls))
}

/// Plain text: the sentences of a line, one per line.
pub open spec fn write_sentence_lines(w: Seq<u8>, ss: Seq<Seq<char>>) -> Seq<u8> {
    w + terminated(plain_sentences(ss), seq![NEWLINE])
}

/// Plain text: the morphemes of each sentence of a line, one sentence after
/// another.
pub open spec fn write_token_sentences(rc: RenderConfig, w: Seq<u8>, ts: Seq<Seq<MorphemeInfo>>) -> Seq<
    u8,
>
    decreases ts.len(),
{
    if ts.len() == 0 {
        w
    } else {
        write_morphemes(rc, write_token_sentences(rc, w, ts.drop_last()), ts.last())
    }
}

/// Plain text: the results of one line.
pub open spec fn render_line(rc: RenderConfig, w: Seq<u8>, l: LineView) -> Seq<u8> {
    match l {
        LineView::Sentences(ss) => write_sentence_lines(w, ss),
        LineView::Tokens(ts) => write_token_sentences(rc, w, ts),
    }
}

/// Plain text: the results of the lines, one after another.
pub open spec fn render_lines(rc: RenderConfig, w: Seq<u8>, ls: Seq<LineView>) -> Seq<u8>
    decreases ls.len(),
{
    if ls.len() == 0 {
        w
    } else {
        render_line(rc, render_lines(rc, w, ls.drop_last()), ls.last())
    }
}

/// The results of one text: in JSON the array of the values written for it
/// and a comma; in plain text its lines' results and a newline.
pub open spec fn text_block(rc: RenderConfig, w: Seq<u8>, ls: Seq<LineView>) -> Seq<u8> {
    if rc.is_json {
        w + json_array(text_items(rc, ls)) + seq![COMMA]
    } else {
        render_lines(rc, w, ls).push(NEWLINE)
    }
}

/// The results of the texts, one block after another.
pub open spec fn texts_into(rc: RenderConfig, w: Seq<u8>, ts: Seq<Seq<LineView>>) -> Seq<u8>
    decreases ts.len(),
{
    if ts.len() == 0 {
        w
    } else {
        text_block(rc, texts_into(rc, w, ts.drop_last()), ts.last())
    }
}

/// The results of all texts written into one buffer: in JSON an array of
/// the texts' arrays.
pub open spec fn render_all(rc: RenderConfig, ts: Seq<Seq<LineView>>) -> Seq<u8> {
    end_spec(rc.is_json, texts_into(rc, start_spec(rc.is_json, Seq::empty()), ts))
}

/// The results of one text on their own.
pub open spec fn render_one(rc: RenderConfig, ls: Seq<LineView>) -> Seq<u8> {
    text_block(rc, Seq::empty(), ls)
}

/// Blocks rendered one by one, put together: in JSON inside one array.
pub open spec fn join_spec(is_json: bool, blocks: Seq<Seq<u8>>) -> Seq<u8> {
    end_spec(is_json, start_spec(is_json, Seq::empty()) + concat_all(blocks))
}

/// One of the four sentence writers.
enum Formatter {
    WakachiJson(WakachiJSON),
    SimpleJson(SimpleJSON),
    WakachiRaw(WakachiRaw),
    SimpleRaw(SimpleRaw),
}

impl Formatter {
    spec fn matches(&self, rc: RenderConfig) -> bool {
        match self {
            Formatter::WakachiJson(f) => rc.is_json && rc.wakati && f.exclude_pos.deep_view()
                == rc.excl,
            Formatter::SimpleJson(f) => rc.is_json && !rc.wakati && f.print_all == rc.print_all
                && f.exclude_pos.deep_view() == rc.excl,
            Formatter::WakachiRaw(f) => !rc.is_json && rc.wakati && f.exclude_pos.deep_view()
                == rc.excl,
            Formatter::SimpleRaw(f) => !rc.is_json && !rc.wakati && f.print_all == rc.print_all
                && f.exclude_pos.deep_view() == rc.excl,
        }
    }

    /// JSON: whether the sentence writes any value.
    fn keeps_any(&self, ms: &Vec<MorphemeInfo>, Ghost(rc): Ghost<RenderConfig>) -> (res: bool)
        requires
            self.matches(rc),
            rc.is_json,
            all_well_formed(ms@),
        ensures
            res == (sentence_items(rc, ms@).len() > 0),
    {
        match self {
            Formatter::WakachiJson(f) => keeps_any(&f.exclude_pos, ms, Ghost(wakachi_json_value())),
            Formatter::SimpleJson(f) => keeps_any(
                &f.exclude_pos,
                ms,
                Ghost(simple_json_value(f.print_all)),
            ),
            Formatter::WakachiRaw(_) => false,
            Formatter::SimpleRaw(_) => false,
        }
    }

    fn write(&self, w: &mut Vec<u8>, ms: &Vec<MorphemeInfo>, Ghost(rc): Ghost<RenderConfig>)
        requires
            self.matches(rc),
            all_well_formed(ms@),
        ensures
            final(w)@ == write_morphemes(rc, old(w)@, ms@),
    {
        match self {
            Formatter::WakachiJson(f) => f.write(w, ms),
            Formatter::SimpleJson(f) => f.write(w, ms),
            Formatter::WakachiRaw(f) => f.write(w, ms),
            Formatter::SimpleRaw(f) => f.write(w, ms),
        }
    }
}

/// Writes analyses as one output method and one set of settings say.
pub struct Renderer {
    helper: OutputHelper,
    formatter: Formatter,
    rc: Ghost<RenderConfig>,
}

impl Renderer {
    pub closed spec fn config(&self) -> RenderConfig {
        self.rc@
    }

    pub closed spec fn wf(&self) -> bool {
        &&& self.formatter.matches(self.rc@)
        &&& self.helper.is_json == self.rc@.is_json
    }

    /// Plain text: writes the sentences of a line, one per line.
    fn write_sentences_raw(&self, w: &mut Vec<u8>, ss: &Vec<String>)
        ensures
            final(w)@ == write_sentence_lines(old(w)@, ss.deep_view()),
    {
        let ghost view = ss.deep_view();
        let ghost w0 = w@;
        let n = ss.len();
        let mut i: usize = 0;
        while i < n
            invariant
                n == ss@.len(),
                view == ss.deep_view(),
                i <= n,
                w@ == w0 + terminated(plain_sentences(view.take(i as int)), seq![NEWLINE]),
            decreases n - i,
        {
            assert(plain_sentences(view.take(i + 1)) =~= plain_sentences(view.take(i as int)).push(
                encode_utf8(ss@[i as int]@),
            ));
            push_str(w, ss[i].as_str());
            w.push(NEWLINE);
            assert(plain_sentences(view.take(i + 1)).drop_last() =~= plain_sentences(
                view.take(i as int),
            ));
            assert(w@ =~= w0 + terminated(plain_sentences(view.take(i + 1)), seq![NEWLINE]));
            i += 1;
        }
        assert(view.take(n as int) =~= view);
    }

    /// Plain text: writes the morphemes of each sentence of a line.
    fn write_tokens_raw(&self, w: &mut Vec<u8>, ts: &Vec<Vec<MorphemeInfo>>)
        requires
            self.wf(),
            forall|k: int| 0 <= k < ts@.len() ==> all_well_formed(#[trigger] ts@[k]@),
        ensures
            final(w)@ == write_token_sentences(self.config(), old(w)@, sentences_view(ts@)),
    {
        let ghost view = sentences_view(ts@);
        let ghost w0 = w@;
        let n = ts.len();
        let mut i: usize = 0;
        while i < n
            invariant
                self.wf(),
                n == ts@.len(),
                view == sentences_view(ts@),
                forall|k: int| 0 <= k < ts@.len() ==> all_well_formed(#[trigger] ts@[k]@),
                i <= n,
                w@ == write_token_sentences(self.config(), w0, view.take(i as int)),
            decreases n - i,
        {
            assert(view.take(i + 1).drop_last() =~= view.take(i as int));
            assert(view.take(i + 1).last() == ts@[i as int]@);
            assert(all_well_formed(ts@[i as int]@));
            self.formatter.write(w, &ts[i], Ghost(self.rc@));
            i += 1;
        }
        assert(view.take(n as int) =~= view);
    }

    /// Plain text: writes the results of one line.
    fn write_line_raw(&self, w: &mut Vec<u8>, l: &LineAnalysis)
        requires
            self.wf(),
            line_well_formed(*l),
        ensures
            final(w)@ == render_line(self.config(), old(w)@, l.deep_view()),
    {
        match l {
            LineAnalysis::Sentences(ss) => self.write_sentences_raw(w, ss),
            LineAnalysis::Tokens(ts) => self.write_tokens_raw(w, ts),
        }
    }

    /// Plain text: writes the block of one text.
    fn write_text_raw(&self, w: &mut Vec<u8>, ls: &Vec<LineAnalysis>)
        requires
            self.wf(),
            !self.config().is_json,
            lines_well_formed(ls@),
        ensures
            final(w)@ == text_block(self.config(), old(w)@, ls.deep_view()),
    {
        let ghost view = ls.deep_view();
        let ghost w0 = w@;
        let n = ls.len();
        let mut i: usize = 0;
        while i < n
            invariant
                self.wf(),
                n == ls@.len(),
                view == ls.deep_view(),
                lines_well_formed(ls@),
                i <= n,
                w@ == render_lines(self.config(), w0, view.take(i as int)),
            decreases n - i,
        {
            assert(view.take(i + 1).drop_last() =~= view.take(i as int));
            assert(view.take(i + 1).last() == ls@[i as int].deep_view());
            assert(line_well_formed(ls@[i as int]));
            self.write_line_raw(w, &ls[i]);
            i += 1;
        }
        assert(view.take(n as int) =~= view);
        self.helper.write_chunk_separator(w);
    }

    /// JSON: adds the sentences of a line as strings to the values written
    /// so far (`acc`, written after `base`); `has` tells whether there are any.
    fn append_sentences_json(
        &self,
        w: &mut Vec<u8>,
        has: &mut bool,
        ss: &Vec<String>,
        Ghost(base): Ghost<Seq<u8>>,
        Ghost(acc): Ghost<Seq<Seq<u8>>>,
    )
        requires
            self.wf(),
            self.config().is_json,
            old(w)@ == base + joined(acc, seq![COMMA]),
            *old(has) == (acc.len() > 0),
        ensures
            final(w)@ == base + joined(acc + json_sentences(ss.deep_view()), seq![COMMA]),
            *final(has) == ((acc + json_sentences(ss.deep_view())).len() > 0),
    {
        let ghost view = ss.deep_view();
        let n = ss.len();
        let mut i: usize = 0;
        while i < n
            invariant
                self.wf(),
                self.config().is_json,
                n == ss@.len(),
                view == ss.deep_view(),
                i <= n,
                w@ == base + joined(acc + json_sentences(view.take(i as int)), seq![COMMA]),
                *has == ((acc + json_sentences(view.take(i as int))).len() > 0),
            decreases n - i,
        {
            let ghost before = acc + json_sentences(view.take(i as int));
            let ghost item = json_string(ss@[i as int]@);
            assert(acc + json_sentences(view.take(i + 1)) =~= before + seq![item]);
            proof {
                lemma_joined_extend(base, before, seq![item], seq![COMMA]);
                assert(joined(seq![item], seq![COMMA]) == item);
            }
            if *has {
                self.helper.write_separator(w);
            }
            write_json_string(w, ss[i].as_str());
            assert(w@ =~= base + joined(acc + json_sentences(view.take(i + 1)), seq![COMMA]));
            *has = true;
            i += 1;
        }
        assert(view.take(n as int) =~= view);
    }

    /// JSON: adds the values of the kept morphemes of each sentence of a
    /// line to the values written so far. A sentence that keeps no morpheme
    /// is passed over: the writer, which removes a trailing comma when it
    /// keeps nothing, is only handed sentences that have values.
    fn append_tokens_json(
        &self,
        w: &mut Vec<u8>,
        has: &mut bool,
        ts: &Vec<Vec<MorphemeInfo>>,
        Ghost(base): Ghost<Seq<u8>>,
        Ghost(acc): Ghost<Seq<Seq<u8>>>,
    )
        requires
            self.wf(),
            self.config().is_json,
            forall|k: int| 0 <= k < ts@.len() ==> all_well_formed(#[trigger] ts@[k]@),
            old(w)@ == base + joined(acc, seq![COMMA]),
            *old(has) == (acc.len() > 0),
        ensures
            final(w)@ == base + joined(
                acc + flatten_items(sentences_items(self.config(), sentences_view(ts@))),
                seq![COMMA],
            ),
            *final(has) == ((acc + flatten_items(
                sentences_items(self.config(), sentences_view(ts@)),
            )).len() > 0),
    {
        let ghost rc = self.config();
        let ghost view = sentences_view(ts@);
        let n = ts.len();
        let mut i: usize = 0;
        while i < n
            invariant
                self.wf(),
                rc == self.config(),
                rc.is_json,
                n == ts@.len(),
                view == sentences_view(ts@),
                forall|k: int| 0 <= k < ts@.len() ==> all_well_formed(#[trigger] ts@[k]@),
                i <= n,
                w@ == base + joined(
                    acc + flatten_items(sentences_items(rc, view.take(i as int))),
                    seq![COMMA],
                ),
                *has == ((acc + flatten_items(sentences_items(rc, view.take(i as int)))).len()
                    > 0),
            decreases n - i,
        {
            let ghost before = acc + flatten_items(sentences_items(rc, view.take(i as int)));
            let ghost items = sentence_items(rc, ts@[i as int]@);
            assert(sentences_items(rc, view.take(i + 1)).drop_last() =~= sentences_items(
                rc,
                view.take(i as int),
            ));
            assert(sentences_items(rc, view.take(i + 1)).last() == items);
            assert(acc + flatten_items(sentences_items(rc, view.take(i + 1))) =~= before + items);
            assert(all_well_formed(ts@[i as int]@));
            proof {
                lemma_joined_extend(base, before, items, seq![COMMA]);
            }
            if self.formatter.keeps_any(&ts[i], Ghost(rc)) {
                if *has {
                    self.helper.write_separator(w);
                }
                self.formatter.write(w, &ts[i], Ghost(rc));
                assert(w@ =~= base + joined(before + items, seq![COMMA]));
                *has = true;
            }
            i += 1;
        }
        assert(view.take(n as int) =~= view);
    }

    /// JSON: adds the values of one line to the values written so far.
    fn append_line_json(
        &self,
        w: &mut Vec<u8>,
        has: &mut bool,
        l: &LineAnalysis,
        Ghost(base): Ghost<Seq<u8>>,
        Ghost(acc): Ghost<Seq<Seq<u8>>>,
    )
        requires
            self.wf(),
            self.config().is_json,
            line_well_formed(*l),
            old(w)@ == base + joined(acc, seq![COMMA]),
            *old(has) == (acc.len() > 0),
        ensures
            final(w)@ == base + joined(acc + line_items(self.config(), l.deep_view()), seq![COMMA]),
            *final(has) == ((acc + line_items(self.config(), l.deep_view())).len() > 0),
    {
        match l {
            LineAnalysis::Sentences(ss) => self.append_sentences_json(
                w,
                has,
                ss,
                Ghost(base),
                Ghost(acc),
            ),
            LineAnalysis::Tokens(ts) => self.append_tokens_json(w, has, ts, Ghost(base), Ghost(acc)),
        }
    }

    /// JSON: writes the array of one text's values and a comma.
    fn write_text_json(&self, w: &mut Vec<u8>, ls: &Vec<LineAnalysis>)
        requires
            self.wf(),
            self.config().is_json,
            lines_well_formed(ls@),
        ensures
            final(w)@ == text_block(self.config(), old(w)@, ls.deep_view()),
    {
        let ghost rc = self.config();
        let ghost view = ls.deep_view();
        let ghost w0 = w@;
        self.helper.write_start(w);
        let ghost base = w@;
        assert(base + joined(flatten_items(lines_items(rc, view.take(0))), seq![COMMA]) =~= base);
        let mut has = false;
        let n = ls.len();
        let mut i: usize = 0;
        while i < n
            invariant
                self.wf(),
                rc == self.config(),
                rc.is_json,
                n == ls@.len(),
                view == ls.deep_view(),
                lines_well_formed(ls@),
                i <= n,
                w@ == base + joined(flatten_items(lines_items(rc, view.take(i as int))), seq![COMMA]),
                has == (flatten_items(lines_items(rc, view.take(i as int))).len() > 0),
            decreases n - i,
        {
            let ghost acc = flatten_items(lines_items(rc, view.take(i as int)));
            assert(lines_items(rc, view.take(i + 1)).drop_last() =~= lines_items(
                rc,
                view.take(i as int),
            ));
            assert(lines_items(rc, view.take(i + 1)).last() == line_items(rc, ls@[i as int].deep_view()));
            assert(line_well_formed(ls@[i as int]));
            self.append_line_json(w, &mut has, &ls[i], Ghost(base), Ghost(acc));
            i += 1;
        }
        assert(view.take(n as int) =~= view);
        w.push(CLOSE_BRACKET);
        self.helper.write_chunk_separator(w);
        assert(w@ =~= w0 + json_array(text_items(rc, view)) + seq![COMMA]);
    }

    /// Writes the block of one text.
    fn write_text(&self, w: &mut Vec<u8>, ls: &Vec<LineAnalysis>)
        requires
            self.wf(),
            lines_well_formed(ls@),
        ensures
            final(w)@ == text_block(self.config(), old(w)@, ls.deep_view()),
    {
        if self.helper.is_json {
            self.write_text_json(w, ls);
        } else {
            self.write_text_raw(w, ls);
        }
    }
}

/// Appends `b` to `w`.
fn push_all(w: &mut Vec<u8>, b: &Vec<u8>)
    ensures
        final(w)@ == old(w)@ + b@,
{
    let n = b.len();
    let mut i: usize = 0;
    while i < n
        invariant
            n == b@.len(),
            i <= n,
            w@ == old(w)@ + b@.take(i as int),
        decreases n - i,
    {
        w.push(b[i]);
        assert(b@.take(i + 1) =~= b@.take(i as int).push(b@[i as int]));
        i += 1;
    }
    assert(b@.take(n as int) =~= b@);
}

impl SudachiLib {
    /// The settings the rendering in `method` depends on.
    pub open spec fn render_config(&self, method: OutputMethod) -> RenderConfig {
        RenderConfig {
            is_json: method == OutputMethod::Json,
            wakati: self.wakati,
            print_all: self.print_all,
            excl: self.exclude_pos.deep_view(),
        }
    }

    fn renderer(&self, method: OutputMethod) -> (r: Renderer)
        ensures
            r.wf(),
            r.config() == self.render_config(method),
    {
        let helper = OutputHelper::new(method);
        let exclude_pos = self.exclude_pos.clone();
        proof {
            assert(exclude_pos.deep_view() =~= self.exclude_pos.deep_view()) by {
                assert forall|i: int| 0 <= i < exclude_pos@.len() implies exclude_pos@[i]@
                    == self.exclude_pos@[i]@ by {
                    assert(cloned::<String>(self.exclude_pos@[i], exclude_pos@[i]));
                }
            }
        }
        let formatter = match method {
            OutputMethod::Json => if self.wakati {
                Formatter::WakachiJson(WakachiJSON::new(exclude_pos))
            } else {
                Formatter::SimpleJson(SimpleJSON::new(self.print_all, exclude_pos))
            },
            OutputMethod::Raw => if self.wakati {
                Formatter::WakachiRaw(WakachiRaw::new(exclude_pos))
            } else {
                Formatter::SimpleRaw(SimpleRaw::new(self.print_all, exclude_pos))
            },
        };
        Renderer { helper, formatter, rc: Ghost(self.render_config(method)) }
    }

    /// Whether the analyses of a text's lines are of the kind that the split
    /// mode asks for, as `render_one` and `render_all` require.
    pub fn lines_fit_split_mode(&self, lines: &Vec<LineAnalysis>) -> (res: bool)
        ensures
            res == lines_fit(line_kind_of(self.split_sentences), lines.deep_view()),
    {
        let kind = self.split_sentences.line_kind();
        let ghost view = lines.deep_view();
        let n = lines.len();
        let mut i: usize = 0;
        while i < n
            invariant
                n == lines@.len(),
                view == lines.deep_view(),
                kind == line_kind_of(self.split_sentences),
                i <= n,
                forall|j: int| 0 <= j < i ==> line_fits(kind, #[trigger] view[j]),
            decreases n - i,
        {
            assert(view[i as int] == lines@[i as int].deep_view());
            if !line_fits_kind(kind, &lines[i]) {
                return false;
            }
            i += 1;
        }
        true
    }

    /// Room to reserve for the output of `input_len` bytes of input.
    fn capacity_for(&self, input_len: usize, method: OutputMethod) -> (res: usize)
        ensures
            input_len <= usize::MAX / 75 ==> res == self.spec_estimate_len(input_len as int, method),
            input_len > usize::MAX / 75 ==> res == 0,
    {
        if input_len <= usize::MAX / 75 {
            self.estimate_len(input_len, method)
        } else {
            0
        }
    }

    /// Writes the results of all texts into one buffer. `analyses[i][j]` is
    /// the analysis of line `j` of text `i`; `input_len`, the total length of
    /// the texts, only sizes the buffer.
    pub fn render_all(
        &self,
        method: OutputMethod,
        analyses: &Vec<Vec<LineAnalysis>>,
        input_len: usize,
    ) -> (out: Vec<u8>)
        requires
            texts_well_formed(analyses@),
            texts_fit(line_kind_of(self.split_sentences), analyses.deep_view()),
        ensures
            out@ == render_all(self.render_config(method), analyses.deep_view()),
    {
        let r = self.renderer(method);
        let ghost rc = self.render_config(method);
        let ghost view = analyses.deep_view();
        let mut w: Vec<u8> = Vec::with_capacity(self.capacity_for(input_len, method));
        r.helper.write_start(&mut w);
        let ghost w0 = w@;
        assert(w0 == start_spec(rc.is_json, Seq::<u8>::empty()));
        let n = analyses.len();
        let mut i: usize = 0;
        while i < n
            invariant
                r.wf(),
                r.config() == rc,
                n == analyses@.len(),
                view == analyses.deep_view(),
                texts_well_formed(analyses@),
                i <= n,
                w@ == texts_into(rc, w0, view.take(i as int)),
            decreases n - i,
        {
            assert(view.take(i + 1).drop_last() =~= view.take(i as int));
            assert(view.take(i + 1).last() == analyses@[i as int].deep_view());
            assert(lines_well_formed(analyses@[i as int]@));
            r.write_text(&mut w, &analyses[i]);
            i += 1;
        }
        assert(view.take(n as int) =~= view);
        r.helper.write_end(&mut w);
        w
    }

    /// Writes the results of one text on their own, as a block that
    /// `join_blocks` puts together with the others.
    pub fn render_one(&self, method: OutputMethod, lines: &Vec<LineAnalysis>, input_len: usize) -> (out:
        Vec<u8>)
        requires
            lines_well_formed(lines@),
            lines_fit(line_kind_of(self.split_sentences), lines.deep_view()),
        ensures
            out@ == render_one(self.render_config(method), lines.deep_view()),
    {
        let r = self.renderer(method);
        let mut w: Vec<u8> = Vec::with_capacity(self.capacity_for(input_len, method));
        assert(w@ =~= Seq::<u8>::empty());
        r.write_text(&mut w, lines);
        w
    }

    /// Puts the blocks of several texts together: in JSON inside one array.
    pub fn join_blocks(&self, method: OutputMethod, blocks: &Vec<Vec<u8>>, input_len: usize) -> (out:
        Vec<u8>)
        ensures
            out@ == join_spec(method == OutputMethod::Json, blocks.deep_view()),
    {
        let helper = OutputHelper::new(method);
        let mut w: Vec<u8> = Vec::with_capacity(self.capacity_for(input_len, method));
        helper.write_start(&mut w);
        let ghost w0 = w@;
        let ghost view = blocks.deep_view();
        let n = blocks.len();
        let mut i: usize = 0;
        while i < n
            invariant
                n == blocks@.len(),
                view == blocks.deep_view(),
                i <= n,
                w@ == w0 + concat_all(view.take(i as int)),
            decreases n - i,
        {
            assert(view.take(i + 1).drop_last() =~= view.take(i as int));
            assert(view.take(i + 1).last() == blocks@[i as int]@);
            push_all(&mut w, &blocks[i]);
            assert(w@ =~= w0 + concat_all(view.take(i + 1)));
            i += 1;
        }
        assert(view.take(n as int) =~= view);
        helper.write_end(&mut w);
        w
    }
}

/// Ends plain-text output: appends `EOS` and a newline.
pub fn append_eos(out: &mut Vec<u8>)
    ensures
        final(out)@ == old(out)@ + eos(),
{
    out.push(0x45);
    out.push(0x4F);
    out.push(0x53);
    out.push(NEWLINE);
    assert(out@ =~= old(out)@ + eos());
}

/// The bytes of `EOS` and a newline.
pub open spec fn eos() -> Seq<u8> {
    seq![0x45u8, 0x4Fu8, 0x53u8, NEWLINE]
}

} // verus!
