// Each scenario feeds the rendering the analysis of the sample texts: the
// sentences and surfaces the tokenizer gives for them in mode C, with the
// part-of-speech tags the expected outputs show (others simplified).
use sudachi_ffi::analysis::{append_eos, LineAnalysis};
use sudachi_ffi::config::{OutputMethod, SudachiLib};
use sudachi_ffi::json::read_json_input;
use sudachi_ffi::output::MorphemeInfo;
use sudachi_ffi::raw_input::parse_raw_input;
use sudachi_ffi::text::split_lines;

fn morpheme(surface: &str, pos: &[&str]) -> MorphemeInfo {
    MorphemeInfo {
        surface: surface.to_string(),
        part_of_speech: pos.iter().map(|p| p.to_string()).collect(),
        normalized_form: surface.to_string(),
        dictionary_form: surface.to_string(),
        reading_form: surface.to_string(),
        is_oov: false,
        dictionary_id: 0,
        synonym_group_ids: vec![],
    }
}

fn noun(surface: &str) -> MorphemeInfo {
    morpheme(surface, &["名詞", "普通名詞", "一般", "*", "*", "*"])
}

fn sentences(ss: &[&str]) -> LineAnalysis {
    LineAnalysis::Sentences(ss.iter().map(|s| s.to_string()).collect())
}

fn tokens(ms: Vec<MorphemeInfo>) -> LineAnalysis {
    LineAnalysis::Tokens(vec![ms])
}

fn salad_day() -> LineAnalysis {
    let surfaces = [
        "「", "この", "味", "が", "いい", "ね", "」", "と", "君", "が", "言っ", "た", "から", "七",
        "月", "六", "日", "は", "サラダ", "記念日", "（", "俵", "万智", "『", "サラダ", "記念日",
        "』", "より",
    ];
    tokens(surfaces.iter().map(|s| noun(s)).collect())
}

fn kinenbi() -> LineAnalysis {
    let mut m = noun("記念日");
    m.reading_form = "キネンビ".to_string();
    tokens(vec![m])
}

fn kimi_ga_itta() -> LineAnalysis {
    tokens(vec![
        morpheme("君", &["代名詞", "*", "*", "*", "*", "*"]),
        morpheme("が", &["助詞", "格助詞", "*", "*", "*", "*"]),
        morpheme("言っ", &["動詞", "一般", "*", "*", "五段-ワア行", "連用形-促音便"]),
        morpheme("た", &["助動詞", "*", "*", "*", "助動詞-タ", "終止形-一般"]),
    ])
}

fn split_only_texts() -> Vec<Vec<LineAnalysis>> {
    vec![
        vec![sentences(&["今日はいい天気。明日は雨？", "明後日は地震雷火事親父！"])],
        vec![sentences(&["え？", "明々後日・・・"])],
    ]
}

fn three_texts() -> Vec<Vec<LineAnalysis>> {
    vec![
        vec![tokens(vec![noun("リンゴ"), noun("を"), noun("食べ"), noun("ます")])],
        vec![tokens(vec![noun("明日"), noun("は"), noun("晴れ"), noun("です")])],
        vec![tokens(vec![noun("東京"), noun("に"), noun("行き"), noun("ます")])],
    ]
}

fn inquiry(text: &str) -> Vec<LineAnalysis> {
    let lines = split_lines(text);
    assert_eq!(lines.len(), 1);
    vec![tokens(vec![
        noun("プロジェクト"),
        noun("に"),
        noun("関する"),
        noun("お"),
        noun("問い合わせ"),
        noun("。"),
    ])]
}

fn exclude_lib(is_wakati: i8) -> SudachiLib {
    SudachiLib::from_codes_json(2, is_wakati, 0, 0, Some(r#"["助詞", "助動詞"]"#), 0).unwrap()
}

fn check_fit(lib: &SudachiLib, analyses: &Vec<Vec<LineAnalysis>>) {
    for a in analyses.iter() {
        assert!(lib.lines_fit_split_mode(a));
    }
}

fn json_all(lib: &SudachiLib, analyses: &Vec<Vec<LineAnalysis>>) -> String {
    check_fit(lib, analyses);
    String::from_utf8(lib.render_all(OutputMethod::Json, analyses, 0)).unwrap()
}

fn raw_all(lib: &SudachiLib, analyses: &Vec<Vec<LineAnalysis>>) -> String {
    check_fit(lib, analyses);
    let mut out = lib.render_all(OutputMethod::Raw, analyses, 0);
    append_eos(&mut out);
    String::from_utf8(out).unwrap()
}

fn multi(lib: &SudachiLib, method: OutputMethod, analyses: &Vec<Vec<LineAnalysis>>) -> Vec<u8> {
    check_fit(lib, analyses);
    let blocks: Vec<Vec<u8>> = analyses.iter().map(|a| lib.render_one(method, a, 0)).collect();
    lib.join_blocks(method, &blocks, 0)
}

fn encode_frames(texts: &[&str]) -> Vec<u8> {
    let mut input_data = Vec::new();
    for text in texts {
        let bytes = text.as_bytes();
        input_data.extend_from_slice(&(bytes.len() as u32).to_le_bytes());
        input_data.extend_from_slice(bytes);
    }
    input_data
}

#[test]
fn test_all_patterns() {
    let lib_only = SudachiLib::from_codes(2, 0, 0, 1, vec![], 0);
    let res1 = json_all(&lib_only, &split_only_texts());
    assert!(
        serde_json::from_str::<Vec<Vec<String>>>(&res1).unwrap()
            == [["今日はいい天気。明日は雨？", "明後日は地震雷火事親父！"], ["え？", "明々後日・・・"]]
    );

    let lib_wakati = SudachiLib::from_codes(2, 1, 0, 0, vec![], 0);
    let res2 = json_all(&lib_wakati, &vec![vec![salad_day()]]);
    assert!(
        serde_json::from_str::<Vec<Vec<String>>>(&res2).unwrap()
            == [[
                "「", "この", "味", "が", "いい", "ね", "」", "と", "君", "が", "言っ", "た",
                "から", "七", "月", "六", "日", "は", "サラダ", "記念日", "（", "俵", "万智",
                "『", "サラダ", "記念日", "』", "より"
            ]]
    );

    let lib_simple = SudachiLib::from_codes(2, 0, 0, 0, vec![], 0);
    let res3 = json_all(&lib_simple, &vec![vec![kinenbi()]]);
    assert!(res3.contains("記念日"));
    assert!(res3.contains("名詞"));
    assert!(res3.contains("surface"));
    assert!(res3.contains("poses"));
    assert!(res3.contains("normalized_form"));
    assert!(!res3.contains("dictionary_form"));
    assert!(!res3.contains("reading_form"));

    let lib_detail = SudachiLib::from_codes(2, 0, 1, 0, vec![], 0);
    let res4 = json_all(&lib_detail, &vec![vec![kinenbi()]]);
    assert!(res4.contains("記念日"));
    assert!(res4.contains("名詞"));
    assert!(res4.contains("surface"));
    assert!(res4.contains("poses"));
    assert!(res4.contains("normalized_form"));
    assert!(res4.contains("dictionary_form"));
    assert!(res4.contains("reading_form"));

    let lib_exclude = exclude_lib(1);
    let res5 = json_all(&lib_exclude, &vec![vec![kimi_ga_itta()]]);
    assert!(serde_json::from_str::<Vec<Vec<String>>>(&res5).unwrap() == [["君", "言っ"]]);
}

#[test]
fn test_multi_thread() {
    let lib_multi = SudachiLib::from_codes(2, 1, 0, 0, vec![], 1);
    let input = r#"["リンゴを食べます", "明日は晴れです", "東京に行きます"]"#;
    let texts = read_json_input(input.as_bytes()).unwrap().unwrap();
    assert_eq!(texts.len(), 3);
    let result = String::from_utf8(multi(&lib_multi, OutputMethod::Json, &three_texts())).unwrap();
    let parsed: Vec<Vec<String>> =
        serde_json::from_str(&result).expect("Failed to parse multi-thread JSON");
    assert_eq!(parsed.len(), 3);
    assert!(parsed[0][0] == "リンゴ");
    assert!(parsed[1][0] == "明日");
    assert!(parsed[2][0] == "東京");
}

#[test]
fn test_raw_all_patterns() {
    let lib_only = SudachiLib::from_codes(2, 0, 0, 1, vec![], 0);
    let input = encode_frames(&["今日はいい天気。明日は雨？明後日は地震雷火事親父！", "え？明々後日・・・"]);
    assert_eq!(parse_raw_input(&input).len(), 2);
    let res1 = raw_all(&lib_only, &split_only_texts());
    assert!(&res1 == "今日はいい天気。明日は雨？\n明後日は地震雷火事親父！\n\nえ？\n明々後日・・・\n\nEOS\n");

    let lib_wakati = SudachiLib::from_codes(2, 1, 0, 0, vec![], 0);
    let res2 = raw_all(&lib_wakati, &vec![vec![salad_day()]]);
    assert!(&res2 == "「 この 味 が いい ね 」 と 君 が 言っ た から 七 月 六 日 は サラダ 記念日 （ 俵 万智 『 サラダ 記念日 』 より\nEOS\n");

    let lib_simple = SudachiLib::from_codes(2, 0, 0, 0, vec![], 0);
    let res3 = raw_all(&lib_simple, &vec![vec![kinenbi()]]);
    assert!(res3 == "記念日\t名詞,普通名詞,一般,*,*,*\t記念日\n\nEOS\n");

    let lib_detail = SudachiLib::from_codes(2, 0, 1, 0, vec![], 0);
    let res4 = raw_all(&lib_detail, &vec![vec![kinenbi()]]);
    assert!(res4 == "記念日\t名詞,普通名詞,一般,*,*,*\t記念日\t記念日\tキネンビ\t0\t[]\n\nEOS\n");

    let lib_exclude = exclude_lib(1);
    let res5 = raw_all(&lib_exclude, &vec![vec![kimi_ga_itta()]]);
    assert!(&res5 == "君 言っ\nEOS\n");
}

#[test]
fn test_raw_multi_thread() {
    let lib_multi = SudachiLib::from_codes(2, 1, 0, 0, vec![], 1);
    let input = encode_frames(&["リンゴを食べます", "明日は晴れです", "東京に行きます"]);
    assert_eq!(parse_raw_input(&input).len(), 3);
    let mut out = multi(&lib_multi, OutputMethod::Raw, &three_texts());
    append_eos(&mut out);
    let result = String::from_utf8(out).unwrap();
    assert!(result == "リンゴ を 食べ ます\n明日 は 晴れ です\n東京 に 行き ます\nEOS\n");
}

#[test]
fn test_full_lifecycle() {
    for is_multi in [0, 1] {
        let lib = SudachiLib::from_codes_json(2, 1, 0, 0, None, is_multi).unwrap();
        let input = r#"["プロジェクトに関するお問い合わせ。"]"#;
        let texts = read_json_input(input.as_bytes()).unwrap().unwrap();
        let analyses: Vec<Vec<LineAnalysis>> = texts.iter().map(|t| inquiry(t)).collect();
        let out = if lib.multi_thread {
            multi(&lib, OutputMethod::Json, &analyses)
        } else {
            lib.render_all(OutputMethod::Json, &analyses, 0)
        };
        assert!(!out.is_empty());
        let result_str = String::from_utf8(out).unwrap();
        assert!(
            serde_json::from_str::<Vec<Vec<String>>>(&result_str).unwrap()
                == [["プロジェクト", "に", "関する", "お", "問い合わせ", "。"]]
        );
    }
}

#[test]
fn test_raw_full_lifecycle() {
    for is_multi in [0, 1] {
        let lib = SudachiLib::from_codes_json(2, 1, 0, 0, None, is_multi).unwrap();
        let input_data = encode_frames(&["プロジェクトに関するお問い合わせ。"]);
        let texts = parse_raw_input(&input_data);
        assert_eq!(texts.len(), 1);
        let analyses: Vec<Vec<LineAnalysis>> = texts.iter().map(|t| inquiry(t)).collect();
        let mut out = if lib.multi_thread {
            multi(&lib, OutputMethod::Raw, &analyses)
        } else {
            lib.render_all(OutputMethod::Raw, &analyses, 0)
        };
        append_eos(&mut out);
        let result_str = String::from_utf8(out).unwrap();
        assert!(result_str == "プロジェクト に 関する お 問い合わせ 。\nEOS\n");
    }
}

#[test]
fn test_callback_full_lifecycle() {
    for is_multi in [0, 1] {
        let lib = SudachiLib::from_codes_json(2, 1, 0, 0, None, is_multi).unwrap();
        let input_data = encode_frames(&["プロジェクトに関するお問い合わせ。"]);
        let texts = parse_raw_input(&input_data);
        let mut output: Vec<u8> = Vec::new();
        for chunk in texts.chunks(1) {
            let analyses: Vec<Vec<LineAnalysis>> = chunk.iter().map(|t| inquiry(t)).collect();
            let results = if lib.multi_thread {
                multi(&lib, OutputMethod::Raw, &analyses)
            } else {
                lib.render_all(OutputMethod::Raw, &analyses, 0)
            };
            if !results.is_empty() {
                output.extend_from_slice(&results);
            }
        }
        let mut eos = Vec::new();
        append_eos(&mut eos);
        output.extend_from_slice(&eos);
        let result_str = String::from_utf8(output).unwrap();
        assert!(result_str == "プロジェクト に 関する お 問い合わせ 。\nEOS\n");
    }
}
