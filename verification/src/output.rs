//! Writing the morphemes of one sentence: as JSON (surfaces only, or one
//! object per morpheme) or as plain text (surfaces separated by spaces, or
//! one tab-separated line per morpheme). Morphemes whose first
//! part-of-speech tag is in the exclusion list are left out.
use vstd::prelude::*;
use vstd::string::StringSliceAdditionalSpecFns;
use vstd::utf8::encode_utf8;
use crate::bytes::{
    joined, lemma_joined_push, pop_comma, pop_trailing_comma, push_str, terminated,
    CLOSE_BRACKET, COMMA, NEWLINE, OPEN_BRACKET, SPACE, TAB,
};
use crate::json::{json_string, write_json_string};

verus! {

/// What the output reads of a morpheme.
pub struct MorphemeInfo {
    pub surface: String,
    pub part_of_speech: Vec<String>,
    pub normalized_form: String,
    pub dictionary_form: String,
    pub reading_form: String,
    pub is_oov: bool,
    pub dictionary_id: i32,
    pub synonym_group_ids: Vec<u32>,
}

impl MorphemeInfo {
    /// A morpheme has at least one part-of-speech tag.
    pub open spec fn well_formed(&self) -> bool {
        self.part_of_speech@.len() > 0
    }
}

pub open spec fn all_well_formed(ms: Seq<MorphemeInfo>) -> bool {
    forall|i: int| 0 <= i < ms.len() ==> (#[trigger] ms[i]).well_formed()
}

/// A morpheme is kept unless its first part-of-speech tag is excluded.
pub open spec fn is_kept(excl: Seq<Seq<char>>, m: MorphemeInfo) -> bool {
    !excl.contains(m.part_of_speech@[0]@)
}

/// The rendering `f` of each kept morpheme, in order.
pub open spec fn kept_values(
    excl: Seq<Seq<char>>,
    ms: Seq<MorphemeInfo>,
    f: spec_fn(MorphemeInfo) -> Seq<u8>,
) -> Seq<Seq<u8>>
    decreases ms.len(),
{
    if ms.len() == 0 {
        Seq::empty()
    } else if is_kept(excl, ms.last()) {
        kept_values(excl, ms.drop_last(), f).push(f(ms.last()))
    } else {
        kept_values(excl, ms.drop_last(), f)
    }
}

/// The bytes of a string.
pub open spec fn utf8_of(s: String) -> Seq<u8> {
    encode_utf8(s@)
}

/// Each tag written as a JSON string.
pub open spec fn json_strings(items: Seq<String>) -> Seq<Seq<u8>> {
    Seq::new(items.len(), |i: int| json_string(items[i]@))
}

/// Each tag's bytes.
pub open spec fn plain_strings(items: Seq<String>) -> Seq<Seq<u8>> {
    Seq::new(items.len(), |i: int| utf8_of(items[i]))
}

/// The decimal digits of `n`.
pub open spec fn decimal(n: nat) -> Seq<u8>
    decreases n,
{
    if n < 10 {
        seq![(0x30 + n) as u8]
    } else {
        decimal(n / 10).push((0x30 + n % 10) as u8)
    }
}

/// `x` in decimal, with a leading `-` when negative.
pub open spec fn signed_decimal(x: int) -> Seq<u8> {
    if x < 0 {
        seq![0x2Du8] + decimal((-x) as nat)
    } else {
        decimal(x as nat)
    }
}

/// Each number in decimal.
pub open spec fn decimals(items: Seq<u32>) -> Seq<Seq<u8>> {
    Seq::new(items.len(), |i: int| decimal(items[i] as nat))
}

/// A morpheme as a JSON string of its surface.
pub open spec fn wakachi_json_value() -> spec_fn(MorphemeInfo) -> Seq<u8> {
    |m: MorphemeInfo| json_string(m.surface@)
}

/// A morpheme as a JSON object: `surface`, `poses` and `normalized_form`,
/// then, with `print_all`, `dictionary_form` and `reading_form`, and
/// `"is_oov":true` for a morpheme not in the dictionary.
pub open spec fn simple_json_object(print_all: bool, m: MorphemeInfo) -> Seq<u8> {
    simple_json_head(m) + simple_json_details(print_all, m) + "}".spec_bytes()
}

/// The fields every object has, from its opening brace on.
pub open spec fn simple_json_head(m: MorphemeInfo) -> Seq<u8> {
    "{\"surface\":".spec_bytes() + json_string(m.surface@) + ",\"poses\":[".spec_bytes()
        + joined(json_strings(m.part_of_speech@), seq![COMMA])
        + "],\"normalized_form\":".spec_bytes() + json_string(m.normalized_form@)
}

/// The fields that `print_all` adds to an object.
pub open spec fn simple_json_details(print_all: bool, m: MorphemeInfo) -> Seq<u8> {
    (if print_all {
        ",\"dictionary_form\":".spec_bytes() + json_string(m.dictionary_form@)
            + ",\"reading_form\":".spec_bytes() + json_string(m.reading_form@)
    } else {
        Seq::empty()
    }) + (if print_all && m.is_oov {
        ",\"is_oov\":true".spec_bytes()
    } else {
        Seq::empty()
    })
}

pub open spec fn simple_json_value(print_all: bool) -> spec_fn(MorphemeInfo) -> Seq<u8> {
    |m: MorphemeInfo| simple_json_object(print_all, m)
}

/// A morpheme as its surface bytes.
pub open spec fn wakachi_raw_value() -> spec_fn(MorphemeInfo) -> Seq<u8> {
    |m: MorphemeInfo| utf8_of(m.surface)
}

/// A morpheme as one tab-separated line (without its line end): surface,
/// tags joined by commas, normalized form, then, with `print_all`,
/// dictionary form, reading form, dictionary id, the synonym group ids as
/// `[a, b]`, and `(OOV)` for a morpheme not in the dictionary.
pub open spec fn simple_raw_line(print_all: bool, m: MorphemeInfo) -> Seq<u8> {
    utf8_of(m.surface) + seq![TAB] + joined(plain_strings(m.part_of_speech@), seq![COMMA])
        + seq![TAB] + utf8_of(m.normalized_form) + (if print_all {
        simple_raw_details(m)
    } else {
        Seq::empty()
    })
}

/// The fields that `print_all` adds to a plain-text line.
pub open spec fn simple_raw_details(m: MorphemeInfo) -> Seq<u8> {
    seq![TAB] + utf8_of(m.dictionary_form) + seq![TAB] + utf8_of(m.reading_form) + seq![TAB]
        + signed_decimal(m.dictionary_id as int) + seq![TAB, OPEN_BRACKET] + joined(
        decimals(m.synonym_group_ids@),
        seq![COMMA, SPACE],
    ) + seq![CLOSE_BRACKET] + (if m.is_oov {
        seq![TAB] + "(OOV)".spec_bytes()
    } else {
        Seq::empty()
    })
}

pub open spec fn simple_raw_value(print_all: bool) -> spec_fn(MorphemeInfo) -> Seq<u8> {
    |m: MorphemeInfo| simple_raw_line(print_all, m)
}

/// Surfaces of the kept morphemes as JSON strings, separated by commas.
/// When the sentence has morphemes but none is kept, nothing is written and
/// a comma that ends what was written before is removed; an empty sentence
/// leaves the buffer as it is.
pub open spec fn wakachi_json_write(excl: Seq<Seq<char>>, w: Seq<u8>, ms: Seq<MorphemeInfo>) -> Seq<
    u8,
> {
    let kept = kept_values(excl, ms, wakachi_json_value());
    if kept.len() > 0 {
        w + joined(kept, seq![COMMA])
    } else if ms.len() > 0 {
        pop_comma(w)
    } else {
        w
    }
}

/// The kept morphemes as JSON objects, separated by commas. When no
/// morpheme is kept (the sentence being empty or not), nothing is written
/// and a comma that ends what was written before is removed.
pub open spec fn simple_json_write(
    print_all: bool,
    excl: Seq<Seq<char>>,
    w: Seq<u8>,
    ms: Seq<MorphemeInfo>,
) -> Seq<u8> {
    let kept = kept_values(excl, ms, simple_json_value(print_all));
    if kept.len() > 0 {
        w + joined(kept, seq![COMMA])
    } else {
        pop_comma(w)
    }
}

/// Surfaces separated by single spaces.
pub open spec fn wakachi_raw_write(excl: Seq<Seq<char>>, w: Seq<u8>, ms: Seq<MorphemeInfo>) -> Seq<
    u8,
> {
    w + joined(kept_values(excl, ms, wakachi_raw_value()), seq![SPACE])
}

/// One line per morpheme.
pub open spec fn simple_raw_write(
    print_all: bool,
    excl: Seq<Seq<char>>,
    w: Seq<u8>,
    ms: Seq<MorphemeInfo>,
) -> Seq<u8> {
    w + terminated(kept_values(excl, ms, simple_raw_value(print_all)), seq![NEWLINE])
}

/// A writer of one sentence's morphemes.
pub trait SudachiOutput {
    spec fn spec_write(&self, w: Seq<u8>, ms: Seq<MorphemeInfo>) -> Seq<u8>;

    fn write(&self, writer: &mut Vec<u8>, morphemes: &Vec<MorphemeInfo>)
        requires
            all_well_formed(morphemes@),
        ensures
            final(writer)@ == self.spec_write(old(writer)@, morphemes@),
    ;
}

/// Whether `pos` is in the list `excl`.
pub fn is_excluded(excl: &Vec<String>, pos: &String) -> (res: bool)
    ensures
        res == excl.deep_view().contains(pos@),
{
    let n = excl.len();
    let mut i: usize = 0;
    while i < n
        invariant
            n == excl@.len(),
            i <= n,
            forall|k: int| 0 <= k < i ==> excl@[k]@ != pos@,
        decreases n - i,
    {
        if excl[i].eq(pos) {
            assert(excl.deep_view()[i as int] == pos@);
            return true;
        }
        i += 1;
    }
    assert forall|k: int| 0 <= k < excl.deep_view().len() implies excl.deep_view()[k] != pos@ by {
        assert(excl.deep_view()[k] == excl@[k]@);
    }
    false
}

/// Whether a morpheme is written.
fn keeps(excl: &Vec<String>, m: &MorphemeInfo) -> (res: bool)
    requires
        m.well_formed(),
    ensures
        res == is_kept(excl.deep_view(), *m),
{
    !is_excluded(excl, &m.part_of_speech[0])
}

/// Whether any morpheme of a sentence is kept.
pub(crate) fn keeps_any(
    excl: &Vec<String>,
    ms: &Vec<MorphemeInfo>,
    Ghost(f): Ghost<spec_fn(MorphemeInfo) -> Seq<u8>>,
) -> (res: bool)
    requires
        all_well_formed(ms@),
    ensures
        res == (kept_values(excl.deep_view(), ms@, f).len() > 0),
{
    let n = ms.len();
    let mut i: usize = 0;
    while i < n
        invariant
            n == ms@.len(),
            all_well_formed(ms@),
            i <= n,
            kept_values(excl.deep_view(), ms@.take(i as int), f).len() == 0,
        decreases n - i,
    {
        proof {
            lemma_kept_values_step(excl.deep_view(), ms@, i as int, f);
            assert(ms@[i as int].well_formed());
        }
        if keeps(excl, &ms[i]) {
            assert(ms@.take(i + 1).take(i + 1) =~= ms@.take(i + 1));
            proof {
                lemma_kept_values_prefix(excl.deep_view(), ms@, i + 1, f);
            }
            return true;
        }
        i += 1;
    }
    assert(ms@.take(n as int) =~= ms@);
    false
}

/// A prefix keeps no more than the whole.
proof fn lemma_kept_values_prefix(
    excl: Seq<Seq<char>>,
    ms: Seq<MorphemeInfo>,
    i: int,
    f: spec_fn(MorphemeInfo) -> Seq<u8>,
)
    requires
        0 <= i <= ms.len(),
    ensures
        kept_values(excl, ms.take(i), f).len() <= kept_values(excl, ms, f).len(),
    decreases ms.len() - i,
{
    if i < ms.len() {
        lemma_kept_values_step(excl, ms, i, f);
        lemma_kept_values_prefix(excl, ms, i + 1, f);
    } else {
        assert(ms.take(i) =~= ms);
    }
}

proof fn lemma_kept_values_step(
    excl: Seq<Seq<char>>,
    ms: Seq<MorphemeInfo>,
    i: int,
    f: spec_fn(MorphemeInfo) -> Seq<u8>,
)
    requires
        0 <= i < ms.len(),
    ensures
        kept_values(excl, ms.take(i + 1), f) == if is_kept(excl, ms[i]) {
            kept_values(excl, ms.take(i), f).push(f(ms[i]))
        } else {
            kept_values(excl, ms.take(i), f)
        },
{
    assert(ms.take(i + 1).drop_last() =~= ms.take(i));
    assert(ms.take(i + 1).last() == ms[i]);
}

proof fn lemma_terminated_push(parts: Seq<Seq<u8>>, t: Seq<u8>, p: Seq<u8>)
    ensures
        terminated(parts.push(p), t) == terminated(parts, t) + p + t,
{
    assert(parts.push(p).drop_last() =~= parts);
}

/// Appends the tags, each as a JSON string, separated by commas.
fn write_json_strings(w: &mut Vec<u8>, items: &Vec<String>)
    ensures
        final(w)@ == old(w)@ + joined(json_strings(items@), seq![COMMA]),
{
    let n = items.len();
    let ghost w0 = w@;
    let mut i: usize = 0;
    while i < n
        invariant
            n == items@.len(),
            i <= n,
            w@ == w0 + joined(json_strings(items@.take(i as int)), seq![COMMA]),
        decreases n - i,
    {
        proof {
            assert(json_strings(items@.take(i + 1)) =~= json_strings(items@.take(i as int)).push(
                json_string(items@[i as int]@),
            ));
            if i > 0 {
                lemma_joined_push(
                    json_strings(items@.take(i as int)),
                    seq![COMMA],
                    json_string(items@[i as int]@),
                );
            } else {
                assert(json_strings(items@.take(1)).len() == 1);
            }
        }
        if i > 0 {
            w.push(COMMA);
        }
        write_json_string(w, items[i].as_str());
        i += 1;
    }
    assert(items@.take(n as int) =~= items@);
}

/// Appends the tags' bytes, separated by commas.
fn write_plain_strings(w: &mut Vec<u8>, items: &Vec<String>)
    ensures
        final(w)@ == old(w)@ + joined(plain_strings(items@), seq![COMMA]),
{
    let n = items.len();
    let ghost w0 = w@;
    let mut i: usize = 0;
    while i < n
        invariant
            n == items@.len(),
            i <= n,
            w@ == w0 + joined(plain_strings(items@.take(i as int)), seq![COMMA]),
        decreases n - i,
    {
        proof {
            assert(plain_strings(items@.take(i + 1)) =~= plain_strings(items@.take(i as int)).push(
                utf8_of(items@[i as int]),
            ));
            if i > 0 {
                lemma_joined_push(
                    plain_strings(items@.take(i as int)),
                    seq![COMMA],
                    utf8_of(items@[i as int]),
                );
            } else {
                assert(plain_strings(items@.take(1)).len() == 1);
            }
        }
        if i > 0 {
            w.push(COMMA);
        }
        push_str(w, items[i].as_str());
        i += 1;
    }
    assert(items@.take(n as int) =~= items@);
}

/// Appends `n` in decimal.
pub fn push_decimal(w: &mut Vec<u8>, n: u64)
    ensures
        final(w)@ == old(w)@ + decimal(n as nat),
    decreases n,
{
    if n >= 10 {
        push_decimal(w, n / 10);
    }
    let d: u64 = n % 10;
    w.push((0x30 + d) as u8);
    assert(w@ =~= old(w)@ + decimal(n as nat));
}

/// Appends `x` in decimal, with a leading `-` when negative.
pub fn push_signed_decimal(w: &mut Vec<u8>, x: i32)
    ensures
        final(w)@ == old(w)@ + signed_decimal(x as int),
{
    if x < 0 {
        w.push(0x2D);
        let v: i64 = x as i64;
        push_decimal(w, (-v) as u64);
        assert(w@ =~= old(w)@ + signed_decimal(x as int));
    } else {
        push_decimal(w, x as u64);
    }
}

/// Appends the numbers in decimal, separated by `", "`.
fn write_decimals(w: &mut Vec<u8>, items: &Vec<u32>)
    ensures
        final(w)@ == old(w)@ + joined(decimals(items@), seq![COMMA, SPACE]),
{
    let n = items.len();
    let ghost w0 = w@;
    let mut i: usize = 0;
    while i < n
        invariant
            n == items@.len(),
            i <= n,
            w@ == w0 + joined(decimals(items@.take(i as int)), seq![COMMA, SPACE]),
        decreases n - i,
    {
        proof {
            assert(decimals(items@.take(i + 1)) =~= decimals(items@.take(i as int)).push(
                decimal(items@[i as int] as nat),
            ));
            if i > 0 {
                lemma_joined_push(
                    decimals(items@.take(i as int)),
                    seq![COMMA, SPACE],
                    decimal(items@[i as int] as nat),
                );
            } else {
                assert(decimals(items@.take(1)).len() == 1);
            }
        }
        if i > 0 {
            w.push(COMMA);
            w.push(SPACE);
        }
        push_decimal(w, items[i] as u64);
        i += 1;
    }
    assert(items@.take(n as int) =~= items@);
}

/// Writes the surfaces of a sentence as JSON strings separated by commas.
pub struct WakachiJSON {
    pub exclude_pos: Vec<String>,
}

impl WakachiJSON {
    pub fn new(exclude_pos: Vec<String>) -> (res: WakachiJSON)
        ensures
            res.exclude_pos == exclude_pos,
    {
        WakachiJSON { exclude_pos }
    }
}

impl SudachiOutput for WakachiJSON {
    open spec fn spec_write(&self, w: Seq<u8>, ms: Seq<MorphemeInfo>) -> Seq<u8> {
        wakachi_json_write(self.exclude_pos.deep_view(), w, ms)
    }

    fn write(&self, writer: &mut Vec<u8>, morphemes: &Vec<MorphemeInfo>) {
        let ghost excl = self.exclude_pos.deep_view();
        let ghost ms = morphemes@;
        let ghost f = wakachi_json_value();
        let ghost w0 = writer@;
        let n = morphemes.len();
        let mut first = true;
        let mut i: usize = 0;
        while i < n
            invariant
                n == ms.len(),
                ms == morphemes@,
                excl == self.exclude_pos.deep_view(),
                f == wakachi_json_value(),
                all_well_formed(ms),
                i <= n,
                first == (kept_values(excl, ms.take(i as int), f).len() == 0),
                writer@ == w0 + joined(kept_values(excl, ms.take(i as int), f), seq![COMMA]),
            decreases n - i,
        {
            let m = &morphemes[i];
            proof {
                lemma_kept_values_step(excl, ms, i as int, f);
                assert(ms[i as int].well_formed());
            }
            if keeps(&self.exclude_pos, m) {
                proof {
                    let prev = kept_values(excl, ms.take(i as int), f);
                    if prev.len() > 0 {
                        lemma_joined_push(prev, seq![COMMA], f(ms[i as int]));
                    } else {
                        assert(prev.push(f(ms[i as int])).len() == 1);
                    }
                }
                if !first {
                    writer.push(COMMA);
                }
                write_json_string(writer, m.surface.as_str());
                first = false;
            }
            i += 1;
        }
        assert(ms.take(n as int) =~= ms);
        if first && n > 0 {
            pop_trailing_comma(writer);
        }
    }
}

/// Writes each morpheme of a sentence as a JSON object, separated by commas.
pub struct SimpleJSON {
    pub print_all: bool,
    pub exclude_pos: Vec<String>,
}

impl SimpleJSON {
    pub fn new(print_all: bool, exclude_pos: Vec<String>) -> (res: SimpleJSON)
        ensures
            res.print_all == print_all,
            res.exclude_pos == exclude_pos,
    {
        SimpleJSON { print_all, exclude_pos }
    }

    fn write_object(&self, w: &mut Vec<u8>, m: &MorphemeInfo)
        ensures
            final(w)@ == old(w)@ + simple_json_object(self.print_all, *m),
    {
        write_json_head(w, m);
        write_json_details(w, self.print_all, m);
        push_str(w, "}");
        assert(w@ =~= old(w)@ + simple_json_object(self.print_all, *m));
    }
}

fn write_json_head(w: &mut Vec<u8>, m: &MorphemeInfo)
    ensures
        final(w)@ == old(w)@ + simple_json_head(*m),
{
    push_str(w, "{\"surface\":");
    write_json_string(w, m.surface.as_str());
    push_str(w, ",\"poses\":[");
    write_json_strings(w, &m.part_of_speech);
    push_str(w, "],\"normalized_form\":");
    write_json_string(w, m.normalized_form.as_str());
    assert(w@ =~= old(w)@ + simple_json_head(*m));
}

fn write_json_details(w: &mut Vec<u8>, print_all: bool, m: &MorphemeInfo)
    ensures
        final(w)@ == old(w)@ + simple_json_details(print_all, *m),
{
    if print_all {
        push_str(w, ",\"dictionary_form\":");
        write_json_string(w, m.dictionary_form.as_str());
        push_str(w, ",\"reading_form\":");
        write_json_string(w, m.reading_form.as_str());
    }
    if print_all && m.is_oov {
        push_str(w, ",\"is_oov\":true");
    }
    assert(w@ =~= old(w)@ + simple_json_details(print_all, *m));
}

impl SudachiOutput for SimpleJSON {
    open spec fn spec_write(&self, w: Seq<u8>, ms: Seq<MorphemeInfo>) -> Seq<u8> {
        simple_json_write(self.print_all, self.exclude_pos.deep_view(), w, ms)
    }

    fn write(&self, writer: &mut Vec<u8>, morphemes: &Vec<MorphemeInfo>) {
        let ghost excl = self.exclude_pos.deep_view();
        let ghost ms = morphemes@;
        let ghost f = simple_json_value(self.print_all);
        let ghost w0 = writer@;
        let n = morphemes.len();
        let mut first = true;
        let mut i: usize = 0;
        while i < n
            invariant
                n == ms.len(),
                ms == morphemes@,
                excl == self.exclude_pos.deep_view(),
                f == simple_json_value(self.print_all),
                all_well_formed(ms),
                i <= n,
                first == (kept_values(excl, ms.take(i as int), f).len() == 0),
                writer@ == w0 + joined(kept_values(excl, ms.take(i as int), f), seq![COMMA]),
            decreases n - i,
        {
            let m = &morphemes[i];
            proof {
                lemma_kept_values_step(excl, ms, i as int, f);
                assert(ms[i as int].well_formed());
            }
            if keeps(&self.exclude_pos, m) {
                proof {
                    let prev = kept_values(excl, ms.take(i as int), f);
                    if prev.len() > 0 {
                        lemma_joined_push(prev, seq![COMMA], f(ms[i as int]));
                    } else {
                        assert(prev.push(f(ms[i as int])).len() == 1);
                    }
                }
                if !first {
                    writer.push(COMMA);
                }
                self.write_object(writer, m);
                first = false;
            }
            i += 1;
        }
        assert(ms.take(n as int) =~= ms);
        if first {
            pop_trailing_comma(writer);
        }
    }
}

/// Writes the surfaces of a sentence separated by single spaces.
pub struct WakachiRaw {
    pub exclude_pos: Vec<String>,
}

impl WakachiRaw {
    pub fn new(exclude_pos: Vec<String>) -> (res: WakachiRaw)
        ensures
            res.exclude_pos == exclude_pos,
    {
        WakachiRaw { exclude_pos }
    }
}

impl SudachiOutput for WakachiRaw {
    open spec fn spec_write(&self, w: Seq<u8>, ms: Seq<MorphemeInfo>) -> Seq<u8> {
        wakachi_raw_write(self.exclude_pos.deep_view(), w, ms)
    }

    fn write(&self, writer: &mut Vec<u8>, morphemes: &Vec<MorphemeInfo>) {
        let ghost excl = self.exclude_pos.deep_view();
        let ghost ms = morphemes@;
        let ghost f = wakachi_raw_value();
        let ghost w0 = writer@;
        let n = morphemes.len();
        let mut first = true;
        let mut i: usize = 0;
        while i < n
            invariant
                n == ms.len(),
                ms == morphemes@,
                excl == self.exclude_pos.deep_view(),
                f == wakachi_raw_value(),
                all_well_formed(ms),
                i <= n,
                first == (kept_values(excl, ms.take(i as int), f).len() == 0),
                writer@ == w0 + joined(kept_values(excl, ms.take(i as int), f), seq![SPACE]),
            decreases n - i,
        {
            let m = &morphemes[i];
            proof {
                lemma_kept_values_step(excl, ms, i as int, f);
                assert(ms[i as int].well_formed());
            }
            if keeps(&self.exclude_pos, m) {
                proof {
                    let prev = kept_values(excl, ms.take(i as int), f);
                    if prev.len() > 0 {
                        lemma_joined_push(prev, seq![SPACE], utf8_of(m.surface));
                    } else {
                        assert(prev.push(utf8_of(m.surface)).len() == 1);
                    }
                }
                if !first {
                    writer.push(SPACE);
                }
                push_str(writer, m.surface.as_str());
                first = false;
            }
            i += 1;
        }
        assert(ms.take(n as int) =~= ms);
    }
}

/// Writes one tab-separated line per morpheme of a sentence.
pub struct SimpleRaw {
    pub print_all: bool,
    pub exclude_pos: Vec<String>,
}

impl SimpleRaw {
    pub fn new(print_all: bool, exclude_pos: Vec<String>) -> (res: SimpleRaw)
        ensures
            res.print_all == print_all,
            res.exclude_pos == exclude_pos,
    {
        SimpleRaw { print_all, exclude_pos }
    }

    fn write_line(&self, w: &mut Vec<u8>, m: &MorphemeInfo)
        ensures
            final(w)@ == old(w)@ + simple_raw_line(self.print_all, *m),
    {
        push_str(w, m.surface.as_str());
        w.push(TAB);
        write_plain_strings(w, &m.part_of_speech);
        w.push(TAB);
        push_str(w, m.normalized_form.as_str());
        if self.print_all {
            write_raw_details(w, m);
        }
        assert(w@ =~= old(w)@ + simple_raw_line(self.print_all, *m));
    }
}

fn write_raw_details(w: &mut Vec<u8>, m: &MorphemeInfo)
    ensures
        final(w)@ == old(w)@ + simple_raw_details(*m),
{
    w.push(TAB);
    push_str(w, m.dictionary_form.as_str());
    w.push(TAB);
    push_str(w, m.reading_form.as_str());
    w.push(TAB);
    push_signed_decimal(w, m.dictionary_id);
    w.push(TAB);
    w.push(OPEN_BRACKET);
    write_decimals(w, &m.synonym_group_ids);
    w.push(CLOSE_BRACKET);
    if m.is_oov {
        w.push(TAB);
        push_str(w, "(OOV)");
    }
    assert(w@ =~= old(w)@ + simple_raw_details(*m));
}

impl SudachiOutput for SimpleRaw {
    open spec fn spec_write(&self, w: Seq<u8>, ms: Seq<MorphemeInfo>) -> Seq<u8> {
        simple_raw_write(self.print_all, self.exclude_pos.deep_view(), w, ms)
    }

    fn write(&self, writer: &mut Vec<u8>, morphemes: &Vec<MorphemeInfo>) {
        let ghost excl = self.exclude_pos.deep_view();
        let ghost ms = morphemes@;
        let ghost f = simple_raw_value(self.print_all);
        let ghost w0 = writer@;
        let n = morphemes.len();
        let mut i: usize = 0;
        while i < n
            invariant
                n == ms.len(),
                ms == morphemes@,
                excl == self.exclude_pos.deep_view(),
                f == simple_raw_value(self.print_all),
                all_well_formed(ms),
                i <= n,
                writer@ == w0 + terminated(kept_values(excl, ms.take(i as int), f), seq![NEWLINE]),
            decreases n - i,
        {
            let m = &morphemes[i];
            proof {
                lemma_kept_values_step(excl, ms, i as int, f);
                assert(ms[i as int].well_formed());
            }
            if keeps(&self.exclude_pos, m) {
                self.write_line(writer, m);
                writer.push(NEWLINE);
                proof {
                    lemma_terminated_push(
                        kept_values(excl, ms.take(i as int), f),
                        seq![NEWLINE],
                        f(ms[i as int]),
                    );
                }
                assert(writer@ =~= w0 + terminated(
                    kept_values(excl, ms.take(i + 1), f),
                    seq![NEWLINE],
                ));
            }
            i += 1;
        }
        assert(ms.take(n as int) =~= ms);
    }
}

} // verus!
