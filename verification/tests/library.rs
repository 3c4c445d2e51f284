use sudachi_ffi::analysis::{append_eos, LineAnalysis};
use sudachi_ffi::config::{AnalysisMode, LineKind, OutputMethod, SentenceSplitMode, SudachiLib};
use sudachi_ffi::framing::OutputHelper;
use sudachi_ffi::json::{read_json_input, InputError};
use sudachi_ffi::output::{
    push_decimal, push_signed_decimal, MorphemeInfo, SimpleJSON, SimpleRaw, SudachiOutput,
    WakachiJSON, WakachiRaw,
};
use sudachi_ffi::raw_input::parse_raw_input;
use sudachi_ffi::text::{split_lines, str_eq};

fn morpheme(surface: &str, pos: &[&str]) -> MorphemeInfo {
    MorphemeInfo {
        surface: surface.to_string(),
        part_of_speech: pos.iter().map(|p| p.to_string()).collect(),
        normalized_form: surface.to_string(),
        dictionary_form: surface.to_string(),
        reading_form: surface.to_string(),
        is_oov: false,
        dictionary_id: 7,
        synonym_group_ids: vec![],
    }
}

fn strings(items: &[&str]) -> Vec<String> {
    items.iter().map(|s| s.to_string()).collect()
}

fn frames(texts: &[&[u8]]) -> Vec<u8> {
    let mut out = Vec::new();
    for t in texts {
        out.extend_from_slice(&(t.len() as u32).to_le_bytes());
        out.extend_from_slice(t);
    }
    out
}

#[test]
fn split_mode_names() {
    assert_eq!("yes".parse::<SentenceSplitMode>(), Ok(SentenceSplitMode::Default));
    assert_eq!("default".parse::<SentenceSplitMode>(), Ok(SentenceSplitMode::Default));
    assert_eq!("no".parse::<SentenceSplitMode>(), Ok(SentenceSplitMode::NoSplit));
    assert_eq!("none".parse::<SentenceSplitMode>(), Ok(SentenceSplitMode::NoSplit));
    assert_eq!("only".parse::<SentenceSplitMode>(), Ok(SentenceSplitMode::Only));
    assert_eq!(
        SentenceSplitMode::parse("Yes"),
        Err("invalid sentence split mode: allowed values - yes, default, no, none, only")
    );
    assert_eq!(SentenceSplitMode::default(), SentenceSplitMode::Default);
}

#[test]
fn codes_decode() {
    assert_eq!(SentenceSplitMode::from_code(0), SentenceSplitMode::Default);
    assert_eq!(SentenceSplitMode::from_code(1), SentenceSplitMode::Only);
    assert_eq!(SentenceSplitMode::from_code(2), SentenceSplitMode::NoSplit);
    assert_eq!(SentenceSplitMode::from_code(-3), SentenceSplitMode::Default);
    assert_eq!(AnalysisMode::from_code(0), AnalysisMode::A);
    assert_eq!(AnalysisMode::from_code(1), AnalysisMode::B);
    assert_eq!(AnalysisMode::from_code(2), AnalysisMode::C);
    assert_eq!(AnalysisMode::from_code(-1), AnalysisMode::C);
    let lib = SudachiLib::from_codes(1, 3, 0, 2, strings(&["記号"]), -1);
    assert_eq!(lib.mode, AnalysisMode::B);
    assert!(lib.wakati);
    assert!(!lib.print_all);
    assert_eq!(lib.split_sentences, SentenceSplitMode::NoSplit);
    assert_eq!(lib.exclude_pos, strings(&["記号"]));
    assert!(lib.multi_thread);
}

#[test]
fn exclusion_list_from_json() {
    let lib = SudachiLib::from_codes_json(0, 0, 1, 1, Some(r#"["記号", "助詞"]"#), 0).unwrap();
    assert_eq!(lib.exclude_pos, strings(&["記号", "助詞"]));
    assert_eq!(lib.mode, AnalysisMode::A);
    assert!(lib.print_all);
    assert_eq!(lib.split_sentences, SentenceSplitMode::Only);
    let none = SudachiLib::from_codes_json(0, 0, 0, 0, None, 0).unwrap();
    assert!(none.exclude_pos.is_empty());
    assert!(SudachiLib::from_codes_json(0, 0, 0, 0, Some("記号"), 0).is_none());
    assert!(SudachiLib::from_codes_json(0, 0, 0, 0, Some("[1, 2]"), 0).is_none());
}

#[test]
fn json_input() {
    assert_eq!(read_json_input(b""), Ok(None));
    assert_eq!(
        read_json_input("[\"a\\nb\", \"記念日\"]".as_bytes()),
        Ok(Some(strings(&["a\nb", "記念日"])))
    );
    assert_eq!(read_json_input(b"{}"), Err(InputError::NotAStringArray));
    assert_eq!(read_json_input(b"[\"a\"] x"), Err(InputError::NotAStringArray));
}

#[test]
fn estimated_output_length() {
    let wakati = SudachiLib::from_codes(2, 1, 1, 0, vec![], 0);
    let detail = SudachiLib::from_codes(2, 0, 1, 0, vec![], 0);
    let simple = SudachiLib::from_codes(2, 0, 0, 0, vec![], 0);
    assert_eq!(wakati.estimate_len(10, OutputMethod::Json), 40);
    assert_eq!(detail.estimate_len(10, OutputMethod::Json), 750);
    assert_eq!(simple.estimate_len(10, OutputMethod::Json), 600);
    assert_eq!(wakati.estimate_len(10, OutputMethod::Raw), 40);
    assert_eq!(detail.estimate_len(10, OutputMethod::Raw), 350);
    assert_eq!(simple.estimate_len(10, OutputMethod::Raw), 300);
}

#[test]
fn lines_of_texts() {
    let text = "今日は\n\r\n明日\r晴れ\n";
    let lines = split_lines(text);
    assert_eq!(lines, vec!["今日は", "明日", "晴れ"]);
    assert!(split_lines("").is_empty());
    assert!(split_lines("\n\r\n").is_empty());
    assert_eq!(split_lines("一行"), vec!["一行"]);
    assert!(str_eq("記念日", "記念日"));
    assert!(!str_eq("記念日", "記念"));
}

#[test]
fn binary_input() {
    let input = frames(&["今日".as_bytes(), b"", "明日".as_bytes()]);
    assert_eq!(parse_raw_input(&input), vec!["今日", "", "明日"]);
    // A frame of invalid UTF-8 is skipped.
    let input = frames(&[b"ab", &[0xff, 0xfe], b"cd"]);
    assert_eq!(parse_raw_input(&input), vec!["ab", "cd"]);
    // Reading stops at a frame that runs past the end.
    let mut input = frames(&[b"ab"]);
    input.extend_from_slice(&10u32.to_le_bytes());
    input.extend_from_slice(b"xyz");
    assert_eq!(parse_raw_input(&input), vec!["ab"]);
    // And where fewer than four bytes are left.
    let mut input = frames(&[b"ab"]);
    input.extend_from_slice(&[1, 0]);
    assert_eq!(parse_raw_input(&input), vec!["ab"]);
    assert!(parse_raw_input(&[]).is_empty());
}

#[test]
fn json_strings_are_escaped() {
    let f = WakachiJSON::new(vec![]);
    let mut w = Vec::new();
    f.write(&mut w, &vec![morpheme("a\"b\\c\n\t\u{1}\u{1f}", &["名詞"]), morpheme("記", &["名詞"])]);
    assert_eq!(String::from_utf8(w).unwrap(), "\"a\\\"b\\\\c\\n\\t\\u0001\\u001f\",\"記\"");
}

#[test]
fn json_writers_drop_a_trailing_comma_when_nothing_is_kept() {
    let f = WakachiJSON::new(strings(&["助詞"]));
    // Morphemes, all excluded: nothing is written and the comma before goes.
    let mut w = b"[\"x\",".to_vec();
    f.write(&mut w, &vec![morpheme("が", &["助詞"])]);
    assert_eq!(w, b"[\"x\"".to_vec());
    // An empty sentence leaves the buffer as it is.
    let mut w = b"[\"x\",".to_vec();
    f.write(&mut w, &vec![]);
    assert_eq!(w, b"[\"x\",".to_vec());
    // Only a comma is removed.
    let mut w = b"[\"x\"".to_vec();
    f.write(&mut w, &vec![morpheme("が", &["助詞"])]);
    assert_eq!(w, b"[\"x\"".to_vec());
    // Kept values are separated by commas, excluded ones leave no trace.
    let mut w = Vec::new();
    f.write(&mut w, &vec![morpheme("が", &["助詞"]), morpheme("君", &["代名詞"]), morpheme("を", &["助詞"]), morpheme("見", &["動詞"])]);
    assert_eq!(String::from_utf8(w).unwrap(), "\"君\",\"見\"");
    // The object writer drops the comma also for an empty sentence.
    let s = SimpleJSON::new(false, strings(&["助詞"]));
    let mut w = b"[1,".to_vec();
    s.write(&mut w, &vec![]);
    assert_eq!(w, b"[1".to_vec());
    let mut w = b"[1,".to_vec();
    s.write(&mut w, &vec![morpheme("が", &["助詞"])]);
    assert_eq!(w, b"[1".to_vec());
    let mut w = b"[1,".to_vec();
    s.write(&mut w, &vec![morpheme("君", &["代名詞"])]);
    assert_eq!(String::from_utf8(w).unwrap(), "[1,{\"surface\":\"君\",\"poses\":[\"代名詞\"],\"normalized_form\":\"君\"}");
}

#[test]
fn json_output_skips_lines_that_keep_nothing() {
    let lib = SudachiLib::from_codes(2, 1, 0, 0, strings(&["助詞"]), 0);
    let texts = vec![vec![
        LineAnalysis::Tokens(vec![vec![morpheme("が", &["助詞"])]]),
        LineAnalysis::Tokens(vec![vec![], vec![morpheme("君", &["代名詞"])], vec![]]),
        LineAnalysis::Tokens(vec![]),
        LineAnalysis::Tokens(vec![vec![morpheme("を", &["助詞"])], vec![morpheme("見る", &["動詞"])]]),
    ]];
    let out = lib.render_all(OutputMethod::Json, &texts, 0);
    assert_eq!(String::from_utf8(out).unwrap(), "[[\"君\",\"見る\"]]");
    let only_excluded = vec![vec![LineAnalysis::Tokens(vec![vec![morpheme("が", &["助詞"])]])], vec![]];
    let out = lib.render_all(OutputMethod::Json, &only_excluded, 0);
    assert_eq!(String::from_utf8(out).unwrap(), "[[],[]]");
    let simple = SudachiLib::from_codes(2, 0, 0, 0, strings(&["助詞"]), 0);
    let out = simple.render_one(OutputMethod::Json, &texts[0], 0);
    assert_eq!(
        String::from_utf8(out).unwrap(),
        "[{\"surface\":\"君\",\"poses\":[\"代名詞\"],\"normalized_form\":\"君\"},{\"surface\":\"見る\",\"poses\":[\"動詞\"],\"normalized_form\":\"見る\"}],"
    );
}

#[test]
fn simple_json_objects() {
    let mut m = morpheme("ｶﾗｵｹ", &["名詞", "普通名詞"]);
    m.normalized_form = "カラオケ".to_string();
    m.reading_form = "カラオケ".to_string();
    m.is_oov = true;
    let s = SimpleJSON::new(true, vec![]);
    let mut w = Vec::new();
    s.write(&mut w, &vec![m]);
    assert_eq!(
        String::from_utf8(w).unwrap(),
        "{\"surface\":\"ｶﾗｵｹ\",\"poses\":[\"名詞\",\"普通名詞\"],\"normalized_form\":\"カラオケ\",\"dictionary_form\":\"ｶﾗｵｹ\",\"reading_form\":\"カラオケ\",\"is_oov\":true}"
    );
    let s = SimpleJSON::new(false, vec![]);
    let mut w = Vec::new();
    s.write(&mut w, &vec![morpheme("a", &["名詞"]), morpheme("b", &["動詞"])]);
    assert_eq!(
        String::from_utf8(w).unwrap(),
        "{\"surface\":\"a\",\"poses\":[\"名詞\"],\"normalized_form\":\"a\"},{\"surface\":\"b\",\"poses\":[\"動詞\"],\"normalized_form\":\"b\"}"
    );
}

#[test]
fn plain_text_lines() {
    let mut m = morpheme("ｶﾗｵｹ", &["名詞", "普通名詞"]);
    m.dictionary_id = -1;
    m.synonym_group_ids = vec![1, 230];
    m.is_oov = true;
    let s = SimpleRaw::new(true, vec![]);
    let mut w = Vec::new();
    s.write(&mut w, &vec![m]);
    assert_eq!(
        String::from_utf8(w).unwrap(),
        "ｶﾗｵｹ\t名詞,普通名詞\tｶﾗｵｹ\tｶﾗｵｹ\tｶﾗｵｹ\t-1\t[1, 230]\t(OOV)\n"
    );
    let r = WakachiRaw::new(strings(&["助詞"]));
    let mut w = Vec::new();
    r.write(&mut w, &vec![morpheme("が", &["助詞"]), morpheme("君", &["代名詞"]), morpheme("行く", &["動詞"])]);
    assert_eq!(String::from_utf8(w).unwrap(), "君 行く");
}

#[test]
fn decimal_numbers() {
    let mut w = Vec::new();
    push_decimal(&mut w, 0);
    w.push(b' ');
    push_decimal(&mut w, 1234567890123);
    w.push(b' ');
    push_signed_decimal(&mut w, i32::MIN);
    assert_eq!(String::from_utf8(w).unwrap(), "0 1234567890123 -2147483648");
}

#[test]
fn framing_helper() {
    let json = OutputHelper::new(OutputMethod::Json);
    let raw = OutputHelper::new(OutputMethod::Raw);
    let mut w = Vec::new();
    json.write_start(&mut w);
    json.write_end(&mut w);
    json.write_chunk_separator(&mut w);
    json.write_separator(&mut w);
    json.write_end(&mut w);
    assert_eq!(w, b"[],]".to_vec());
    let mut w = Vec::new();
    raw.write_start(&mut w);
    raw.write_separator(&mut w);
    raw.write_chunk_separator(&mut w);
    raw.write_end(&mut w);
    assert_eq!(w, b"\n".to_vec());
}

fn sample_texts() -> Vec<Vec<LineAnalysis>> {
    vec![
        vec![
            LineAnalysis::Tokens(vec![
                vec![morpheme("今日", &["名詞"]), morpheme("は", &["助詞"])],
                vec![morpheme("雨", &["名詞"])],
            ]),
            LineAnalysis::Tokens(vec![vec![morpheme("晴れ", &["名詞"])]]),
        ],
        vec![],
        vec![LineAnalysis::Tokens(vec![
            vec![morpheme("え", &["感動詞"])],
            vec![morpheme("はい", &["感動詞"])],
        ])],
    ]
}

fn sentence_texts() -> Vec<Vec<LineAnalysis>> {
    vec![
        vec![
            LineAnalysis::Sentences(strings(&["え？", "はい。"])),
            LineAnalysis::Sentences(strings(&["雨"])),
        ],
        vec![],
    ]
}

#[test]
fn json_output_nests_texts() {
    let lib = SudachiLib::from_codes(2, 1, 0, 0, strings(&["助詞"]), 0);
    let out = lib.render_all(OutputMethod::Json, &sample_texts(), 100);
    assert_eq!(
        String::from_utf8(out).unwrap(),
        "[[\"今日\",\"雨\",\"晴れ\"],[],[\"え\",\"はい\"]]"
    );
    let only = SudachiLib::from_codes(2, 1, 0, 1, vec![], 0);
    let out = only.render_all(OutputMethod::Json, &sentence_texts(), 0);
    assert_eq!(String::from_utf8(out).unwrap(), "[[\"え？\",\"はい。\",\"雨\"],[]]");
    let out = only.render_all(OutputMethod::Raw, &sentence_texts(), 0);
    assert_eq!(String::from_utf8(out).unwrap(), "え？\nはい。\n雨\n\n\n");
    let none = SudachiLib::from_codes(2, 1, 0, 0, vec![], 0);
    assert_eq!(none.render_all(OutputMethod::Json, &vec![], 0), b"[]".to_vec());
}

#[test]
fn line_kinds_follow_the_split_mode() {
    assert_eq!(SentenceSplitMode::Only.line_kind(), LineKind::Sentences);
    assert_eq!(SentenceSplitMode::Default.line_kind(), LineKind::SentenceTokens);
    assert_eq!(SentenceSplitMode::NoSplit.line_kind(), LineKind::LineTokens);
    let only = SudachiLib::from_codes(2, 1, 0, 1, vec![], 0);
    let split = SudachiLib::from_codes(2, 1, 0, 0, vec![], 0);
    let whole = SudachiLib::from_codes(2, 1, 0, 2, vec![], 0);
    let sentences = &sentence_texts()[0];
    let tokens = &sample_texts()[0];
    let mut first_text = sample_texts().remove(0);
    let one_each = &first_text.split_off(1);
    assert!(only.lines_fit_split_mode(sentences));
    assert!(!only.lines_fit_split_mode(tokens));
    assert!(split.lines_fit_split_mode(tokens));
    assert!(!split.lines_fit_split_mode(sentences));
    assert!(!whole.lines_fit_split_mode(tokens));
    assert!(whole.lines_fit_split_mode(one_each));
    assert!(whole.lines_fit_split_mode(&vec![]));
    assert!(!whole.lines_fit_split_mode(&vec![LineAnalysis::Tokens(vec![])]));
}

#[test]
fn line_ends_and_blank_lines_do_not_change_lines() {
    assert_eq!(split_lines("a\r\n\r\nb\n"), split_lines("a\nb"));
    assert_eq!(split_lines("\r\rx\n\ny\r"), vec!["x", "y"]);
    assert_eq!(split_lines("\n\r\n"), Vec::<&str>::new());
}

#[test]
fn one_buffer_equals_joined_blocks() {
    for wakati in [0, 1] {
        for print_all in [0, 1] {
            for (split, texts) in [(0, sample_texts()), (1, sentence_texts())] {
                let lib = SudachiLib::from_codes(2, wakati, print_all, split, strings(&["助詞"]), 0);
                for method in [OutputMethod::Json, OutputMethod::Raw] {
                    let whole = lib.render_all(method, &texts, 0);
                    let blocks: Vec<Vec<u8>> = texts.iter().map(|t| lib.render_one(method, t, 0)).collect();
                    assert_eq!(whole, lib.join_blocks(method, &blocks, 0));
                }
            }
        }
    }
}

#[test]
fn plain_output_batches_concatenate() {
    let lib = SudachiLib::from_codes(2, 0, 1, 0, vec![], 0);
    let texts = sample_texts();
    let whole = lib.render_all(OutputMethod::Raw, &texts, 0);
    let mut batched = Vec::new();
    let mut rest = sample_texts();
    let tail = rest.split_off(1);
    batched.extend(lib.render_all(OutputMethod::Raw, &rest, 0));
    batched.extend(lib.render_all(OutputMethod::Raw, &tail, 0));
    assert_eq!(whole, batched);
    assert_eq!(
        String::from_utf8(whole).unwrap(),
        "今日\t名詞\t今日\t今日\t今日\t7\t[]\nは\t助詞\tは\tは\tは\t7\t[]\n雨\t名詞\t雨\t雨\t雨\t7\t[]\n晴れ\t名詞\t晴れ\t晴れ\t晴れ\t7\t[]\n\n\nえ\t感動詞\tえ\tえ\tえ\t7\t[]\nはい\t感動詞\tはい\tはい\tはい\t7\t[]\n\n"
    );
}

#[test]
fn encoded_texts_read_back() {
    let texts = ["記念日", "", "a\nb", "🍣"];
    let bytes: Vec<&[u8]> = texts.iter().map(|t| t.as_bytes()).collect();
    assert_eq!(parse_raw_input(&frames(&bytes)), texts.to_vec());
}

#[test]
fn end_of_stream_marker() {
    let mut out = b"x\n".to_vec();
    append_eos(&mut out);
    assert_eq!(out, b"x\nEOS\n".to_vec());
}
