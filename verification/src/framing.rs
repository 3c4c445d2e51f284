//! The framing around the results: in JSON the results of each text form an
//! array, and all texts form an outer array; in plain text each text's
//! results end with a newline.
use vstd::prelude::*;
use crate::bytes::{pop_comma, pop_trailing_comma, CLOSE_BRACKET, COMMA, NEWLINE, OPEN_BRACKET};
use crate::config::OutputMethod;

verus! {

pub open spec fn start_spec(is_json: bool, w: Seq<u8>) -> Seq<u8> {
    if is_json {
        w.push(OPEN_BRACKET)
    } else {
        w
    }
}

pub open spec fn end_spec(is_json: bool, w: Seq<u8>) -> Seq<u8> {
    if is_json {
        pop_comma(w).push(CLOSE_BRACKET)
    } else {
        w
    }
}

pub open spec fn separator_spec(is_json: bool, w: Seq<u8>) -> Seq<u8> {
    if is_json {
        w.push(COMMA)
    } else {
        w
    }
}

pub open spec fn chunk_separator_spec(is_json: bool, w: Seq<u8>) -> Seq<u8> {
    if is_json {
        w.push(COMMA)
    } else {
        w.push(NEWLINE)
    }
}

/// Writes the brackets and separators of the chosen output method.
pub struct OutputHelper {
    pub is_json: bool,
}

impl OutputHelper {
    pub fn new(method: OutputMethod) -> (res: OutputHelper)
        ensures
            res.is_json == (method == OutputMethod::Json),
    {
        OutputHelper { is_json: method == OutputMethod::Json }
    }

    /// Opens an array.
    pub fn write_start(&self, w: &mut Vec<u8>)
        ensures
            final(w)@ == start_spec(self.is_json, old(w)@),
    {
        if self.is_json {
            w.push(OPEN_BRACKET);
        }
    }

    /// Closes an array, dropping a comma left before the bracket.
    pub fn write_end(&self, w: &mut Vec<u8>)
        ensures
            final(w)@ == end_spec(self.is_json, old(w)@),
    {
        if self.is_json {
            pop_trailing_comma(w);
            w.push(CLOSE_BRACKET);
        }
    }

    /// Separates the results of two lines.
    pub fn write_separator(&self, w: &mut Vec<u8>)
        ensures
            final(w)@ == separator_spec(self.is_json, old(w)@),
    {
        if self.is_json {
            w.push(COMMA);
        }
    }

    /// Ends the results of a text.
    pub fn write_chunk_separator(&self, w: &mut Vec<u8>)
        ensures
            final(w)@ == chunk_separator_spec(self.is_json, old(w)@),
    {
        if self.is_json {
            w.push(COMMA);
        } else {
            w.push(NEWLINE);
        }
    }
}

} // verus!
