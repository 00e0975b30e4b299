//! A side-by-side diff report engine: it splits two texts into lines, aligns
//! them with an edit script, and describes every row of the report, with
//! inline highlights for replaced lines.

pub mod text;
pub mod spans;
pub mod script;
pub mod tokens;
pub mod options;
pub mod inline;
pub mod report;
pub mod laws;

use vstd::prelude::*;
use vstd::utf8::valid_utf8;
use vstd::utf8::decode_utf8;
use crate::text::LineInput;
use crate::text::decode_text;
use crate::text::split_lines_spec;
use crate::text::lemma_decode_len;
use crate::text::lemma_split_lines_len;
use crate::script::diff_ops;
use crate::options::Options;
use crate::options::RawOptions;
use crate::options::parsed_options_spec;
use crate::report::DiffReport;
use crate::report::ReportModel;
use crate::report::build_report;
use crate::report::report_from_script;
use crate::report::same_report_outcome;
use crate::report::rows_show_lines;
use crate::laws::equal_rows_match;
use crate::laws::law_equal_rows_match;
use crate::report::line_keys;
use crate::report::line_ops;

verus! {

/// The report on two texts: built from the line-level script that `similar`
/// computes over their lines, or over the lines' whitespace-insensitive keys.
pub open spec fn report_spec(old_text: Seq<char>, new_text: Seq<char>, options: Options) -> Result<
    ReportModel,
    Seq<char>,
> {
    report_from_script(
        old_text,
        new_text,
        options,
        diff_ops(
            options.algorithm,
            line_keys(split_lines_spec(old_text), options.ignore_whitespace),
            line_keys(split_lines_spec(new_text), options.ignore_whitespace),
        ),
    )
}

/// What `diff` gives: the old file is checked first, then the new file, then
/// the options, then the report is built.
pub open spec fn diff_spec(old: Seq<u8>, new: Seq<u8>, options: &Result<RawOptions, String>) -> Result<
    ReportModel,
    Seq<char>,
> {
    if !valid_utf8(old) {
        Err("old file is not valid UTF-8"@)
    } else if !valid_utf8(new) {
        Err("new file is not valid UTF-8"@)
    } else {
        match parsed_options_spec(options) {
            Err(e) => Err(e),
            Ok(o) => report_spec(decode_utf8(old), decode_utf8(new), o),
        }
    }
}

/// Builds the side-by-side report of two files. `options` is the outcome of
/// reading the caller's options text: the options, or the reader's error.
/// The spans of every row show that row's lines, whitespace drawn as markers
/// at most, and every unchanged row pairs equal lines, or lines with equal
/// keys when whitespace is ignored. Two valid UTF-8 files with valid options
/// always give a report.
pub fn diff(old: &[u8], new: &[u8], options: &Result<RawOptions, String>) -> (report: Result<DiffReport, String>)
    requires
        old@.len() <= isize::MAX,
        new@.len() <= isize::MAX,
    ensures
        same_report_outcome(report, diff_spec(old@, new@, options)),
        report matches Ok(r) ==> rows_show_lines(r@.rows),
        report matches Ok(r) ==> options matches Ok(o) && equal_rows_match(r@.rows, o.ignore_whitespace),
        valid_utf8(old@) && valid_utf8(new@) && parsed_options_spec(options) is Ok ==> report is Ok,
{
    diff_impl(old, new, options)
}

fn diff_impl(old: &[u8], new: &[u8], options: &Result<RawOptions, String>) -> (report: Result<DiffReport, String>)
    requires
        old@.len() <= isize::MAX,
        new@.len() <= isize::MAX,
    ensures
        same_report_outcome(report, diff_spec(old@, new@, options)),
        report matches Ok(r) ==> rows_show_lines(r@.rows),
        report matches Ok(r) ==> options matches Ok(o) && equal_rows_match(r@.rows, o.ignore_whitespace),
        valid_utf8(old@) && valid_utf8(new@) && parsed_options_spec(options) is Ok ==> report is Ok,
{
    let old_text = match decode_text(old) {
        Some(t) => t,
        None => {
            return Err(String::from_str("old file is not valid UTF-8"));
        },
    };
    let new_text = match decode_text(new) {
        Some(t) => t,
        None => {
            return Err(String::from_str("new file is not valid UTF-8"));
        },
    };
    let opts = match Options::from_parsed(options) {
        Ok(o) => o,
        Err(e) => {
            return Err(e);
        },
    };
    let old_input = LineInput::new(old_text);
    let new_input = LineInput::new(new_text);
    proof {
        lemma_decode_len(old@);
        lemma_decode_len(new@);
        lemma_split_lines_len(old_input.text@);
        lemma_split_lines_len(new_input.text@);
    }
    let raw = line_ops(opts.algorithm, opts.ignore_whitespace, &old_input.lines, &new_input.lines);
    proof {
        law_equal_rows_match(old_input.text@, new_input.text@, opts, raw@);
    }
    build_report(&old_input, &new_input, opts, &raw)
}

} // verus!
