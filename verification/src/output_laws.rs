//! Properties of the sentence writers: which morphemes are written, and
//! which of a morpheme's fields stand where in its JSON object and in its
//! plain-text line.
use vstd::prelude::*;
use vstd::string::StringSliceAdditionalSpecFns;
use vstd::utf8::{encode_utf8, encode_utf8_decode_utf8};
use crate::bytes::{joined, terminated, COMMA, NEWLINE, SPACE, TAB};
use crate::json::{json_string, lemma_json_string_injective};
use crate::output::{
    is_kept, kept_values, plain_strings, simple_json_object, simple_json_write, simple_raw_line,
    simple_raw_write, utf8_of, wakachi_json_write, wakachi_raw_write, MorphemeInfo,
};

verus! {

/// The morphemes of a sentence that are written under an exclusion list:
/// those whose first part-of-speech tag is not in the list, in order.
pub open spec fn kept_morphemes(excl: Seq<Seq<char>>, ms: Seq<MorphemeInfo>) -> Seq<MorphemeInfo> {
    ms.filter(|m: MorphemeInfo| is_kept(excl, m))
}

/// `s` begins with `t`.
pub open spec fn starts_with(s: Seq<u8>, t: Seq<u8>) -> bool {
    t.len() <= s.len() && s.subrange(0, t.len() as int) == t
}

/// `s` ends with `t`.
pub open spec fn ends_with(s: Seq<u8>, t: Seq<u8>) -> bool {
    t.len() <= s.len() && s.subrange(s.len() - t.len(), s.len() as int) == t
}

/// Two morphemes that agree in every field but, perhaps, the reading form.
pub open spec fn differ_at_most_in_reading(a: MorphemeInfo, b: MorphemeInfo) -> bool {
    &&& a.surface@ == b.surface@
    &&& a.part_of_speech@ == b.part_of_speech@
    &&& a.normalized_form@ == b.normalized_form@
    &&& a.dictionary_form@ == b.dictionary_form@
    &&& a.is_oov == b.is_oov
    &&& a.dictionary_id == b.dictionary_id
    &&& a.synonym_group_ids@ == b.synonym_group_ids@
}

/// Two morphemes that agree in every field but, perhaps, the normalized form.
pub open spec fn differ_at_most_in_normalized(a: MorphemeInfo, b: MorphemeInfo) -> bool {
    &&& a.surface@ == b.surface@
    &&& a.part_of_speech@ == b.part_of_speech@
    &&& a.reading_form@ == b.reading_form@
    &&& a.dictionary_form@ == b.dictionary_form@
    &&& a.is_oov == b.is_oov
    &&& a.dictionary_id == b.dictionary_id
    &&& a.synonym_group_ids@ == b.synonym_group_ids@
}

/// `a + x + b` determines `x`.
proof fn lemma_middle_determined(a: Seq<u8>, x: Seq<u8>, y: Seq<u8>, b: Seq<u8>)
    requires
        a + x + b == a + y + b,
    ensures
        x == y,
{
    let s = a + x + b;
    let t = a + y + b;
    assert(s.len() == a.len() + x.len() + b.len());
    assert(t.len() == a.len() + y.len() + b.len());
    assert(s.len() == t.len());
    assert(x.len() == y.len());
    assert(s.subrange(a.len() as int, (a.len() + x.len()) as int) =~= x);
    assert((a + y + b).subrange(a.len() as int, (a.len() + y.len()) as int) =~= y);
}

/// Different strings have different UTF-8 bytes.
proof fn lemma_utf8_injective(a: Seq<char>, b: Seq<char>)
    ensures
        encode_utf8(a) == encode_utf8(b) <==> a == b,
{
    encode_utf8_decode_utf8(a);
    encode_utf8_decode_utf8(b);
}

proof fn lemma_kept_values_of_kept(
    excl: Seq<Seq<char>>,
    ms: Seq<MorphemeInfo>,
    f: spec_fn(MorphemeInfo) -> Seq<u8>,
)
    ensures
        kept_values(excl, ms, f) == kept_values(Seq::empty(), kept_morphemes(excl, ms), f),
    decreases ms.len(),
{
    reveal(Seq::filter);
    if ms.len() > 0 {
        lemma_kept_values_of_kept(excl, ms.drop_last(), f);
        let k = kept_morphemes(excl, ms.drop_last());
        assert(!Seq::<Seq<char>>::empty().contains(ms.last().part_of_speech@[0]@));
        if is_kept(excl, ms.last()) {
            assert(kept_morphemes(excl, ms) == k.push(ms.last()));
            assert(k.push(ms.last()).drop_last() =~= k);
        } else {
            assert(kept_morphemes(excl, ms) == k);
        }
    }
}

proof fn lemma_kept_values_nothing_excluded(ms: Seq<MorphemeInfo>, f: spec_fn(MorphemeInfo) -> Seq<u8>)
    ensures
        kept_values(Seq::empty(), ms, f) == Seq::new(ms.len(), |i: int| f(ms[i])),
    decreases ms.len(),
{
    if ms.len() > 0 {
        lemma_kept_values_nothing_excluded(ms.drop_last(), f);
        assert(!Seq::<Seq<char>>::empty().contains(ms.last().part_of_speech@[0]@));
        assert(kept_values(Seq::empty(), ms, f) =~= Seq::new(ms.len(), |i: int| f(ms[i])));
    }
}

/// Part-of-speech filtering: a morpheme whose first tag is in the exclusion
/// list adds no bytes. Every writer writes a sentence exactly as it writes
/// the sentence's kept morphemes alone with nothing excluded (the surface
/// JSON writer as long as some morpheme is kept; when none is, it writes no
/// value either way).
pub proof fn lemma_excluded_morphemes_write_nothing(
    excl: Seq<Seq<char>>,
    print_all: bool,
    w: Seq<u8>,
    ms: Seq<MorphemeInfo>,
)
    ensures
        simple_raw_write(print_all, excl, w, ms) == simple_raw_write(
            print_all,
            Seq::empty(),
            w,
            kept_morphemes(excl, ms),
        ),
        wakachi_raw_write(excl, w, ms) == wakachi_raw_write(
            Seq::empty(),
            w,
            kept_morphemes(excl, ms),
        ),
        simple_json_write(print_all, excl, w, ms) == simple_json_write(
            print_all,
            Seq::empty(),
            w,
            kept_morphemes(excl, ms),
        ),
        kept_morphemes(excl, ms).len() > 0 ==> wakachi_json_write(excl, w, ms)
            == wakachi_json_write(Seq::empty(), w, kept_morphemes(excl, ms)),
{
    lemma_kept_values_of_kept(excl, ms, crate::output::simple_raw_value(print_all));
    lemma_kept_values_of_kept(excl, ms, crate::output::wakachi_raw_value());
    lemma_kept_values_of_kept(excl, ms, crate::output::simple_json_value(print_all));
    lemma_kept_values_of_kept(excl, ms, crate::output::wakachi_json_value());
}

/// Every morpheme that is written has a first tag outside the exclusion
/// list, and every morpheme of the sentence with such a tag is written.
pub proof fn lemma_kept_morphemes_are_the_unexcluded(excl: Seq<Seq<char>>, ms: Seq<MorphemeInfo>)
    ensures
        forall|i: int|
            0 <= i < kept_morphemes(excl, ms).len() ==> !excl.contains(
                (#[trigger] kept_morphemes(excl, ms)[i]).part_of_speech@[0]@,
            ),
        forall|i: int|
            0 <= i < ms.len() && !excl.contains((#[trigger] ms[i]).part_of_speech@[0]@)
                ==> kept_morphemes(excl, ms).contains(ms[i]),
{
    let p = |m: MorphemeInfo| is_kept(excl, m);
    assert forall|i: int| 0 <= i < kept_morphemes(excl, ms).len() implies !excl.contains(
        (#[trigger] kept_morphemes(excl, ms)[i]).part_of_speech@[0]@,
    ) by {
        ms.lemma_filter_pred(p, i);
    }
    assert forall|i: int|
        0 <= i < ms.len() && !excl.contains((#[trigger] ms[i]).part_of_speech@[0]@) implies kept_morphemes(
        excl,
        ms,
    ).contains(ms[i]) by {
        assert(p(ms[i]));
        ms.lemma_filter_contains(p, i);
    }
}

/// Word tokenization output: with nothing excluded, a non-empty sentence is
/// written in JSON as the JSON strings of its morphemes' surfaces, in order
/// and separated by commas, and in plain text as their surfaces separated by
/// single spaces.
pub proof fn lemma_wakati_writes_surfaces(w: Seq<u8>, ms: Seq<MorphemeInfo>)
    requires
        ms.len() > 0,
    ensures
        wakachi_json_write(Seq::empty(), w, ms) == w + joined(
            Seq::new(ms.len(), |i: int| json_string(ms[i].surface@)),
            seq![COMMA],
        ),
        wakachi_raw_write(Seq::empty(), w, ms) == w + joined(
            Seq::new(ms.len(), |i: int| encode_utf8(ms[i].surface@)),
            seq![SPACE],
        ),
{
    let fj = crate::output::wakachi_json_value();
    let fr = crate::output::wakachi_raw_value();
    lemma_kept_values_nothing_excluded(ms, fj);
    lemma_kept_values_nothing_excluded(ms, fr);
    assert(Seq::new(ms.len(), |i: int| fj(ms[i])) =~= Seq::new(
        ms.len(),
        |i: int| json_string(ms[i].surface@),
    ));
    assert(Seq::new(ms.len(), |i: int| fr(ms[i])) =~= Seq::new(
        ms.len(),
        |i: int| encode_utf8(ms[i].surface@),
    ));
}

/// In word tokenization JSON output a sentence's values depend on its
/// morphemes' surfaces and first tags only: sentences whose morphemes agree
/// in these are written alike, whatever their other fields.
pub proof fn lemma_wakati_json_reads_only_surfaces(
    excl: Seq<Seq<char>>,
    w: Seq<u8>,
    ms1: Seq<MorphemeInfo>,
    ms2: Seq<MorphemeInfo>,
)
    requires
        ms1.len() == ms2.len(),
        forall|i: int|
            0 <= i < ms1.len() ==> (#[trigger] ms1[i]).surface@ == ms2[i].surface@
                && ms1[i].part_of_speech@[0]@ == ms2[i].part_of_speech@[0]@,
    ensures
        wakachi_json_write(excl, w, ms1) == wakachi_json_write(excl, w, ms2),
{
    lemma_same_surfaces_same_values(excl, ms1, ms2);
}

proof fn lemma_same_surfaces_same_values(
    excl: Seq<Seq<char>>,
    ms1: Seq<MorphemeInfo>,
    ms2: Seq<MorphemeInfo>,
)
    requires
        ms1.len() == ms2.len(),
        forall|i: int|
            0 <= i < ms1.len() ==> (#[trigger] ms1[i]).surface@ == ms2[i].surface@
                && ms1[i].part_of_speech@[0]@ == ms2[i].part_of_speech@[0]@,
    ensures
        kept_values(excl, ms1, crate::output::wakachi_json_value()) == kept_values(
            excl,
            ms2,
            crate::output::wakachi_json_value(),
        ),
    decreases ms1.len(),
{
    if ms1.len() > 0 {
        let n = ms1.len() - 1;
        assert(ms1[n as int].surface@ == ms2[n as int].surface@);
        lemma_same_surfaces_same_values(excl, ms1.drop_last(), ms2.drop_last());
    }
}

/// With all fields written, a morpheme's JSON object ends with its reading
/// form: `"reading_form":` and the reading form as a JSON string, then
/// `"is_oov":true` for a morpheme not in the dictionary, then the closing
/// brace.
pub proof fn lemma_json_object_ends_with_reading_form(m: MorphemeInfo)
    ensures
        ends_with(
            simple_json_object(true, m),
            ",\"reading_form\":".spec_bytes() + json_string(m.reading_form@) + (if m.is_oov {
                ",\"is_oov\":true".spec_bytes()
            } else {
                Seq::empty()
            }) + "}".spec_bytes(),
        ),
{
    let o = simple_json_object(true, m);
    let t = ",\"reading_form\":".spec_bytes() + json_string(m.reading_form@) + (if m.is_oov {
        ",\"is_oov\":true".spec_bytes()
    } else {
        Seq::empty()
    }) + "}".spec_bytes();
    let p = crate::output::simple_json_head(m) + ",\"dictionary_form\":".spec_bytes() + json_string(
        m.dictionary_form@,
    );
    assert(o =~= p + t);
    assert(o.subrange(o.len() - t.len(), o.len() as int) =~= t);
}

/// A morpheme's JSON object holds its own reading form: with all fields
/// written, two morphemes that differ at most in their reading forms have
/// the same object exactly when their reading forms are equal; without
/// `print_all` the reading form is not written.
pub proof fn lemma_json_object_reading_form_matters(m1: MorphemeInfo, m2: MorphemeInfo)
    requires
        differ_at_most_in_reading(m1, m2),
    ensures
        simple_json_object(true, m1) == simple_json_object(true, m2) <==> m1.reading_form@
            == m2.reading_form@,
        simple_json_object(false, m1) == simple_json_object(false, m2),
{
    let oov = if m1.is_oov {
        ",\"is_oov\":true".spec_bytes()
    } else {
        Seq::empty()
    };
    let a = crate::output::simple_json_head(m1) + ",\"dictionary_form\":".spec_bytes()
        + json_string(m1.dictionary_form@) + ",\"reading_form\":".spec_bytes();
    let b = oov + "}".spec_bytes();
    assert(crate::output::simple_json_head(m1) == crate::output::simple_json_head(m2));
    assert(simple_json_object(true, m1) =~= a + json_string(m1.reading_form@) + b);
    assert(simple_json_object(true, m2) =~= a + json_string(m2.reading_form@) + b);
    lemma_json_string_injective(m1.reading_form@, m2.reading_form@);
    if simple_json_object(true, m1) == simple_json_object(true, m2) {
        lemma_middle_determined(a, json_string(m1.reading_form@), json_string(m2.reading_form@), b);
    }
}

/// A morpheme's JSON object holds its own normalized form, with or without
/// `print_all`: two morphemes that differ at most in their normalized forms
/// have the same object exactly when their normalized forms are equal.
pub proof fn lemma_json_object_normalized_form_matters(
    print_all: bool,
    m1: MorphemeInfo,
    m2: MorphemeInfo,
)
    requires
        differ_at_most_in_normalized(m1, m2),
    ensures
        simple_json_object(print_all, m1) == simple_json_object(print_all, m2)
            <==> m1.normalized_form@ == m2.normalized_form@,
{
    let a = "{\"surface\":".spec_bytes() + json_string(m1.surface@) + ",\"poses\":[".spec_bytes()
        + joined(crate::output::json_strings(m1.part_of_speech@), seq![COMMA])
        + "],\"normalized_form\":".spec_bytes();
    let b = crate::output::simple_json_details(print_all, m1) + "}".spec_bytes();
    assert(crate::output::simple_json_details(print_all, m1)
        == crate::output::simple_json_details(print_all, m2));
    assert(simple_json_object(print_all, m1) =~= a + json_string(m1.normalized_form@) + b);
    assert(simple_json_object(print_all, m2) =~= a + json_string(m2.normalized_form@) + b);
    lemma_json_string_injective(m1.normalized_form@, m2.normalized_form@);
    if simple_json_object(print_all, m1) == simple_json_object(print_all, m2) {
        lemma_middle_determined(
            a,
            json_string(m1.normalized_form@),
            json_string(m2.normalized_form@),
            b,
        );
    }
}

/// A plain-text line begins with the morpheme's surface, a tab, its tags
/// joined by commas, a tab and its normalized form: the normalized form is
/// the third tab-separated field. Without `print_all` that is the whole
/// line; with it, a tab and the further fields follow.
pub proof fn lemma_raw_line_third_field_is_normalized(print_all: bool, m: MorphemeInfo)
    ensures
        starts_with(
            simple_raw_line(print_all, m),
            encode_utf8(m.surface@) + seq![TAB] + joined(plain_strings(m.part_of_speech@), seq![COMMA])
                + seq![TAB] + encode_utf8(m.normalized_form@),
        ),
        !print_all ==> simple_raw_line(print_all, m) == encode_utf8(m.surface@) + seq![TAB]
            + joined(plain_strings(m.part_of_speech@), seq![COMMA]) + seq![TAB] + encode_utf8(
            m.normalized_form@,
        ),
        print_all ==> simple_raw_line(print_all, m)[(encode_utf8(m.surface@) + seq![TAB] + joined(
            plain_strings(m.part_of_speech@),
            seq![COMMA],
        ) + seq![TAB] + encode_utf8(m.normalized_form@)).len() as int] == TAB,
{
    let p = encode_utf8(m.surface@) + seq![TAB] + joined(plain_strings(m.part_of_speech@), seq![COMMA])
        + seq![TAB] + encode_utf8(m.normalized_form@);
    let l = simple_raw_line(print_all, m);
    let rest = if print_all {
        crate::output::simple_raw_details(m)
    } else {
        Seq::empty()
    };
    assert(l =~= p + rest);
    assert(l.subrange(0, p.len() as int) =~= p);
}

/// A plain-text line holds the morpheme's own normalized form, with or
/// without `print_all`: two morphemes that differ at most in their
/// normalized forms have the same line exactly when those are equal.
pub proof fn lemma_raw_line_normalized_form_matters(print_all: bool, m1: MorphemeInfo, m2: MorphemeInfo)
    requires
        differ_at_most_in_normalized(m1, m2),
    ensures
        simple_raw_line(print_all, m1) == simple_raw_line(print_all, m2) <==> m1.normalized_form@
            == m2.normalized_form@,
{
    let a = utf8_of(m1.surface) + seq![TAB] + joined(plain_strings(m1.part_of_speech@), seq![COMMA])
        + seq![TAB];
    let b = if print_all {
        crate::output::simple_raw_details(m1)
    } else {
        Seq::empty()
    };
    assert(crate::output::simple_raw_details(m1) == crate::output::simple_raw_details(m2));
    assert(plain_strings(m1.part_of_speech@) == plain_strings(m2.part_of_speech@));
    assert(simple_raw_line(print_all, m1) =~= a + encode_utf8(m1.normalized_form@) + b);
    assert(simple_raw_line(print_all, m2) =~= a + encode_utf8(m2.normalized_form@) + b);
    lemma_utf8_injective(m1.normalized_form@, m2.normalized_form@);
    if simple_raw_line(print_all, m1) == simple_raw_line(print_all, m2) {
        lemma_middle_determined(a, encode_utf8(m1.normalized_form@), encode_utf8(m2.normalized_form@), b);
    }
}

/// With `print_all`, a plain-text line holds the morpheme's own reading
/// form: two morphemes that differ at most in their reading forms have the
/// same line exactly when those are equal; without `print_all` the reading
/// form is not written.
pub proof fn lemma_raw_line_reading_form_matters(m1: MorphemeInfo, m2: MorphemeInfo)
    requires
        differ_at_most_in_reading(m1, m2),
    ensures
        simple_raw_line(true, m1) == simple_raw_line(true, m2) <==> m1.reading_form@
            == m2.reading_form@,
        simple_raw_line(false, m1) == simple_raw_line(false, m2),
{
    let a = utf8_of(m1.surface) + seq![TAB] + joined(plain_strings(m1.part_of_speech@), seq![COMMA])
        + seq![TAB] + utf8_of(m1.normalized_form) + seq![TAB] + utf8_of(m1.dictionary_form) + seq![
        TAB,
    ];
    let b = seq![TAB] + crate::output::signed_decimal(m1.dictionary_id as int) + seq![
        TAB,
        crate::bytes::OPEN_BRACKET,
    ] + joined(crate::output::decimals(m1.synonym_group_ids@), seq![COMMA, SPACE]) + seq![
        crate::bytes::CLOSE_BRACKET,
    ] + (if m1.is_oov {
        seq![TAB] + "(OOV)".spec_bytes()
    } else {
        Seq::empty()
    });
    assert(plain_strings(m1.part_of_speech@) == plain_strings(m2.part_of_speech@));
    assert(simple_raw_line(true, m1) =~= a + encode_utf8(m1.reading_form@) + b);
    assert(simple_raw_line(true, m2) =~= a + encode_utf8(m2.reading_form@) + b);
    lemma_utf8_injective(m1.reading_form@, m2.reading_form@);
    if simple_raw_line(true, m1) == simple_raw_line(true, m2) {
        lemma_middle_determined(a, encode_utf8(m1.reading_form@), encode_utf8(m2.reading_form@), b);
    }
}

/// The fields of a morpheme's JSON object, in order: `surface`, `poses`
/// (its tags as an array of strings) and `normalized_form`; with
/// `print_all` also `dictionary_form` and `reading_form`, and
/// `"is_oov":true` for a morpheme not in the dictionary. Each field holds
/// the morpheme's own value as a JSON string.
pub proof fn lemma_json_object_fields(print_all: bool, m: MorphemeInfo)
    ensures
        simple_json_object(print_all, m) == "{\"surface\":".spec_bytes() + json_string(m.surface@)
            + ",\"poses\":[".spec_bytes() + joined(
            Seq::new(m.part_of_speech@.len(), |i: int| json_string(m.part_of_speech@[i]@)),
            seq![COMMA],
        ) + "],\"normalized_form\":".spec_bytes() + json_string(m.normalized_form@) + (if print_all {
            ",\"dictionary_form\":".spec_bytes() + json_string(m.dictionary_form@)
                + ",\"reading_form\":".spec_bytes() + json_string(m.reading_form@)
        } else {
            Seq::empty()
        }) + (if print_all && m.is_oov {
            ",\"is_oov\":true".spec_bytes()
        } else {
            Seq::empty()
        }) + "}".spec_bytes(),
{
    assert(crate::output::json_strings(m.part_of_speech@) =~= Seq::new(
        m.part_of_speech@.len(),
        |i: int| json_string(m.part_of_speech@[i]@),
    ));
    assert(simple_json_object(print_all, m) =~= "{\"surface\":".spec_bytes() + json_string(
        m.surface@,
    ) + ",\"poses\":[".spec_bytes() + joined(
        Seq::new(m.part_of_speech@.len(), |i: int| json_string(m.part_of_speech@[i]@)),
        seq![COMMA],
    ) + "],\"normalized_form\":".spec_bytes() + json_string(m.normalized_form@) + (if print_all {
        ",\"dictionary_form\":".spec_bytes() + json_string(m.dictionary_form@)
            + ",\"reading_form\":".spec_bytes() + json_string(m.reading_form@)
    } else {
        Seq::empty()
    }) + (if print_all && m.is_oov {
        ",\"is_oov\":true".spec_bytes()
    } else {
        Seq::empty()
    }) + "}".spec_bytes());
}

/// The tab-separated fields of a morpheme's plain-text line, in order:
/// surface, tags joined by commas, normalized form; with `print_all` also
/// dictionary form, reading form, dictionary id in decimal, the synonym
/// group ids as `[a, b]`, and `(OOV)` for a morpheme not in the dictionary.
/// Each field holds the morpheme's own value.
pub proof fn lemma_raw_line_fields(print_all: bool, m: MorphemeInfo)
    ensures
        simple_raw_line(print_all, m) == encode_utf8(m.surface@) + seq![TAB] + joined(
            Seq::new(m.part_of_speech@.len(), |i: int| encode_utf8(m.part_of_speech@[i]@)),
            seq![COMMA],
        ) + seq![TAB] + encode_utf8(m.normalized_form@) + (if print_all {
            seq![TAB] + encode_utf8(m.dictionary_form@) + seq![TAB] + encode_utf8(m.reading_form@)
                + seq![TAB] + crate::output::signed_decimal(m.dictionary_id as int) + seq![
                TAB,
                crate::bytes::OPEN_BRACKET,
            ] + joined(
                Seq::new(
                    m.synonym_group_ids@.len(),
                    |i: int| crate::output::decimal(m.synonym_group_ids@[i] as nat),
                ),
                seq![COMMA, SPACE],
            ) + seq![crate::bytes::CLOSE_BRACKET] + (if m.is_oov {
                seq![TAB] + "(OOV)".spec_bytes()
            } else {
                Seq::empty()
            })
        } else {
            Seq::empty()
        }),
{
    assert(plain_strings(m.part_of_speech@) =~= Seq::new(
        m.part_of_speech@.len(),
        |i: int| encode_utf8(m.part_of_speech@[i]@),
    ));
    assert(crate::output::decimals(m.synonym_group_ids@) =~= Seq::new(
        m.synonym_group_ids@.len(),
        |i: int| crate::output::decimal(m.synonym_group_ids@[i] as nat),
    ));
}

/// The number that a sequence of decimal digits stands for.
pub open spec fn digits_value(s: Seq<u8>) -> int
    decreases s.len(),
{
    if s.len() == 0 {
        0
    } else {
        digits_value(s.drop_last()) * 10 + (s.last() - 0x30)
    }
}

/// Numbers are written in decimal: the digits of `decimal(n)` are ASCII
/// digits that stand for `n`, with no leading zero.
pub proof fn lemma_decimal_reads_back(n: nat)
    ensures
        crate::output::decimal(n).len() > 0,
        forall|k: int|
            0 <= k < crate::output::decimal(n).len() ==> 0x30 <= #[trigger] crate::output::decimal(
                n,
            )[k] <= 0x39,
        digits_value(crate::output::decimal(n)) == n,
        n > 0 ==> crate::output::decimal(n)[0] != 0x30,
    decreases n,
{
    let d = crate::output::decimal(n);
    if n >= 10 {
        lemma_decimal_reads_back(n / 10);
        let p = crate::output::decimal(n / 10);
        assert(d == p.push((0x30 + n % 10) as u8));
        assert(d.drop_last() =~= p);
        assert forall|k: int| 0 <= k < d.len() implies 0x30 <= #[trigger] d[k] <= 0x39 by {
            if k < p.len() {
                assert(d[k] == p[k]);
            }
        }
        assert(d[0] == p[0]);
        assert(digits_value(d) == digits_value(p) * 10 + n % 10);
        assert(n == (n / 10) * 10 + n % 10);
    } else {
        assert(d.drop_last() =~= Seq::<u8>::empty());
        assert(digits_value(d.drop_last()) == 0);
        assert(d.last() == (0x30 + n) as u8);
    }
}

/// With nothing excluded, every morpheme of a sentence is written, in
/// order: in plain text one line per morpheme, each ended by a newline; in
/// JSON (for a non-empty sentence) one object per morpheme, separated by
/// commas.
pub proof fn lemma_every_morpheme_written_in_order(print_all: bool, w: Seq<u8>, ms: Seq<MorphemeInfo>)
    ensures
        simple_raw_write(print_all, Seq::empty(), w, ms) == w + terminated(
            Seq::new(ms.len(), |i: int| simple_raw_line(print_all, ms[i])),
            seq![NEWLINE],
        ),
        ms.len() > 0 ==> simple_json_write(print_all, Seq::empty(), w, ms) == w + joined(
            Seq::new(ms.len(), |i: int| simple_json_object(print_all, ms[i])),
            seq![COMMA],
        ),
{
    let fr = crate::output::simple_raw_value(print_all);
    let fj = crate::output::simple_json_value(print_all);
    lemma_kept_values_nothing_excluded(ms, fr);
    lemma_kept_values_nothing_excluded(ms, fj);
    assert(Seq::new(ms.len(), |i: int| fr(ms[i])) =~= Seq::new(
        ms.len(),
        |i: int| simple_raw_line(print_all, ms[i]),
    ));
    assert(Seq::new(ms.len(), |i: int| fj(ms[i])) =~= Seq::new(
        ms.len(),
        |i: int| simple_json_object(print_all, ms[i]),
    ));
}

} // verus!
