//! The analyzer's settings: how they are decoded from the numeric codes and
//! the exclusion list of the C interface, and the sentence split mode names.
use vstd::prelude::*;
use crate::json::{json_string_array_of_str, parse_string_array_str};
use crate::text::str_eq;

verus! {

/// Whether texts are split into sentences before they are analyzed.
#[derive(Clone, Copy, Debug, PartialEq, Eq, Structural)]
pub enum SentenceSplitMode {
    /// Split into sentences, then analyze each sentence.
    Default,
    /// Only split into sentences.
    Only,
    /// Analyze each line whole.
    NoSplit,
}

/// The message given for an unknown split mode name.
pub open spec fn split_mode_error() -> Seq<char> {
    "invalid sentence split mode: allowed values - yes, default, no, none, only"@
}

/// What reading the split mode name `name` gives: `yes` or `default` is
/// the default mode, `no` or `none` does not split, `only` only splits, and
/// any other name is refused with `split_mode_error()`.
pub open spec fn reads_split_mode(name: Seq<char>, res: Result<SentenceSplitMode, &'static str>) -> bool {
    &&& (name == "yes"@ || name == "default"@) ==> res == Ok::<SentenceSplitMode, &'static str>(
        SentenceSplitMode::Default,
    )
    &&& (name == "no"@ || name == "none"@) ==> res == Ok::<SentenceSplitMode, &'static str>(
        SentenceSplitMode::NoSplit,
    )
    &&& name == "only"@ ==> res == Ok::<SentenceSplitMode, &'static str>(SentenceSplitMode::Only)
    &&& !(name == "yes"@ || name == "default"@ || name == "no"@ || name == "none"@ || name
        == "only"@) ==> (res matches Err(msg) && msg@ == split_mode_error())
}

impl SentenceSplitMode {
    /// Reads a split mode name: `yes` or `default`, `no` or `none`, `only`.
    pub fn parse(s: &str) -> (res: Result<SentenceSplitMode, &'static str>)
        ensures
            reads_split_mode(s@, res),
    {
        proof {
            reveal_strlit("yes");
            reveal_strlit("default");
            reveal_strlit("no");
            reveal_strlit("none");
            reveal_strlit("only");
            assert("yes"@.len() == 3 && "default"@.len() == 7 && "no"@.len() == 2);
            assert("none"@.len() == 4 && "only"@.len() == 4);
            assert("none"@[0] != "only"@[0]);
        }
        if str_eq(s, "yes") || str_eq(s, "default") {
            Ok(SentenceSplitMode::Default)
        } else if str_eq(s, "no") || str_eq(s, "none") {
            Ok(SentenceSplitMode::NoSplit)
        } else if str_eq(s, "only") {
            Ok(SentenceSplitMode::Only)
        } else {
            Err("invalid sentence split mode: allowed values - yes, default, no, none, only")
        }
    }

    /// The split mode of a numeric code: 1 only splits, 2 does not split,
    /// any other code splits and analyzes.
    pub fn from_code(code: i8) -> (res: SentenceSplitMode)
        ensures
            res == split_mode_of_code(code),
    {
        if code == 1 {
            SentenceSplitMode::Only
        } else if code == 2 {
            SentenceSplitMode::NoSplit
        } else {
            SentenceSplitMode::Default
        }
    }
}

/// What the analysis of a line holds under a sentence split mode.
#[derive(Clone, Copy, Debug, PartialEq, Eq, Structural)]
pub enum LineKind {
    /// The sentences of the line, not tokenized.
    Sentences,
    /// The morphemes of each sentence of the line.
    SentenceTokens,
    /// The morphemes of the whole line, taken as one sentence.
    LineTokens,
}

/// The kind of line analysis a split mode asks for: only splitting gives the
/// sentences, the default mode the morphemes of each sentence, and not
/// splitting the morphemes of the whole line.
pub open spec fn line_kind_of(mode: SentenceSplitMode) -> LineKind {
    match mode {
        SentenceSplitMode::Only => LineKind::Sentences,
        SentenceSplitMode::Default => LineKind::SentenceTokens,
        SentenceSplitMode::NoSplit => LineKind::LineTokens,
    }
}

impl SentenceSplitMode {
    /// The kind of analysis each line gets under this mode.
    pub fn line_kind(&self) -> (kind: LineKind)
        ensures
            kind == line_kind_of(*self),
    {
        match self {
            SentenceSplitMode::Only => LineKind::Sentences,
            SentenceSplitMode::Default => LineKind::SentenceTokens,
            SentenceSplitMode::NoSplit => LineKind::LineTokens,
        }
    }
}

pub open spec fn split_mode_of_code(code: i8) -> SentenceSplitMode {
    if code == 1 {
        SentenceSplitMode::Only
    } else if code == 2 {
        SentenceSplitMode::NoSplit
    } else {
        SentenceSplitMode::Default
    }
}

impl Default for SentenceSplitMode {
    fn default() -> (res: SentenceSplitMode)
        ensures
            res == SentenceSplitMode::Default,
    {
        SentenceSplitMode::Default
    }
}

impl std::str::FromStr for SentenceSplitMode {
    type Err = &'static str;

    fn from_str(s: &str) -> (res: Result<SentenceSplitMode, &'static str>)
        ensures
            reads_split_mode(s@, res),
    {
        SentenceSplitMode::parse(s)
    }
}

/// The granularity of the tokenizer's units: short (A), middle (B), or
/// named-entity (C).
#[derive(Clone, Copy, Debug, PartialEq, Eq, Structural)]
pub enum AnalysisMode {
    A,
    B,
    C,
}

pub open spec fn analysis_mode_of_code(code: i8) -> AnalysisMode {
    if code == 0 {
        AnalysisMode::A
    } else if code == 1 {
        AnalysisMode::B
    } else {
        AnalysisMode::C
    }
}

impl AnalysisMode {
    /// The mode of a numeric code: 0 is A, 1 is B, any other code is C.
    pub fn from_code(code: i8) -> (res: AnalysisMode)
        ensures
            res == analysis_mode_of_code(code),
    {
        if code == 0 {
            AnalysisMode::A
        } else if code == 1 {
            AnalysisMode::B
        } else {
            AnalysisMode::C
        }
    }
}

/// The form the results are given in.
#[derive(Clone, Copy, Debug, PartialEq, Eq, Structural)]
pub enum OutputMethod {
    /// A JSON array with one array per input text.
    Json,
    /// Plain text.
    Raw,
}

/// The settings an analyzer was created with.
pub struct SudachiLib {
    pub mode: AnalysisMode,
    pub wakati: bool,
    pub print_all: bool,
    pub split_sentences: SentenceSplitMode,
    pub exclude_pos: Vec<String>,
    pub multi_thread: bool,
}

impl SudachiLib {
    /// The settings other than the exclusion list follow the codes: a
    /// non-zero flag is on.
    pub open spec fn follows_codes(
        &self,
        mode_val: i8,
        is_wakati: i8,
        is_print_all: i8,
        split_sentences_val: i8,
        is_multi: i8,
    ) -> bool {
        &&& self.mode == analysis_mode_of_code(mode_val)
        &&& self.wakati == (is_wakati != 0)
        &&& self.print_all == (is_print_all != 0)
        &&& self.split_sentences == split_mode_of_code(split_sentences_val)
        &&& self.multi_thread == (is_multi != 0)
    }

    /// Settings from the numeric codes and an exclusion list.
    pub fn from_codes(
        mode_val: i8,
        is_wakati: i8,
        is_print_all: i8,
        split_sentences_val: i8,
        exclude_pos: Vec<String>,
        is_multi: i8,
    ) -> (lib: SudachiLib)
        ensures
            lib.follows_codes(mode_val, is_wakati, is_print_all, split_sentences_val, is_multi),
            lib.exclude_pos == exclude_pos,
    {
        SudachiLib {
            mode: AnalysisMode::from_code(mode_val),
            wakati: is_wakati != 0,
            print_all: is_print_all != 0,
            split_sentences: SentenceSplitMode::from_code(split_sentences_val),
            exclude_pos,
            multi_thread: is_multi != 0,
        }
    }

    /// Settings from the numeric codes and an exclusion list given as a
    /// JSON array of strings (none given: nothing is excluded). `None` when
    /// the exclusion list is not a JSON array of strings.
    pub fn from_codes_json(
        mode_val: i8,
        is_wakati: i8,
        is_print_all: i8,
        split_sentences_val: i8,
        exclude_pos_json: Option<&str>,
        is_multi: i8,
    ) -> (res: Option<SudachiLib>)
        ensures
            match exclude_pos_json {
                None => res matches Some(lib) && lib.follows_codes(
                    mode_val,
                    is_wakati,
                    is_print_all,
                    split_sentences_val,
                    is_multi,
                ) && lib.exclude_pos@.len() == 0,
                Some(json) => match json_string_array_of_str(json@) {
                    None => res is None,
                    Some(list) => res matches Some(lib) && lib.follows_codes(
                        mode_val,
                        is_wakati,
                        is_print_all,
                        split_sentences_val,
                        is_multi,
                    ) && lib.exclude_pos.deep_view() == list,
                },
            },
    {
        let exclude_pos = match exclude_pos_json {
            None => Vec::new(),
            Some(json) => match parse_string_array_str(json) {
                None => {
                    return None;
                },
                Some(list) => list,
            },
        };
        Some(
            SudachiLib::from_codes(
                mode_val,
                is_wakati,
                is_print_all,
                split_sentences_val,
                exclude_pos,
                is_multi,
            ),
        )
    }

    /// The expected size of the output for `input_len` bytes of input, used
    /// to reserve room for it.
    pub open spec fn spec_estimate_len(&self, input_len: int, method: OutputMethod) -> int {
        let factor = match method {
            OutputMethod::Json => if self.wakati {
                4int
            } else if self.print_all {
                75int
            } else {
                60int
            },
            OutputMethod::Raw => if self.wakati {
                4int
            } else if self.print_all {
                35int
            } else {
                30int
            },
        };
        input_len * factor
    }

    pub fn estimate_len(&self, input_len: usize, method: OutputMethod) -> (res: usize)
        requires
            self.spec_estimate_len(input_len as int, method) <= usize::MAX,
        ensures
            res == self.spec_estimate_len(input_len as int, method),
    {
        match method {
            OutputMethod::Json => {
                if self.wakati {
                    input_len * 4
                } else if self.print_all {
                    input_len * 75
                } else {
                    input_len * 60
                }
            },
            OutputMethod::Raw => {
                if self.wakati {
                    input_len * 4
                } else if self.print_all {
                    input_len * 35
                } else {
                    input_len * 30
                }
            },
        }
    }
}

} // verus!
