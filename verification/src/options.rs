//! Report options: the plain values read from the caller, and their
//! validation into the options the engine runs with.

use vstd::prelude::*;
use crate::script::DiffAlgorithm;

verus! {

/// How replaced lines are highlighted inside: by characters, by words, or not
/// at all.
#[derive(Clone, Copy, Debug, PartialEq, Eq, Structural)]
pub enum InlineMode {
    Chars,
    Words,
    Disabled,
}

impl InlineMode {
    pub open spec fn name_spec(self) -> Seq<char> {
        match self {
            InlineMode::Chars => "chars"@,
            InlineMode::Words => "words"@,
            InlineMode::Disabled => "none"@,
        }
    }

    /// The option value that selects this mode.
    pub fn name(self) -> (name: &'static str)
        ensures
            name@ == self.name_spec(),
    {
        match self {
            InlineMode::Chars => "chars",
            InlineMode::Words => "words",
            InlineMode::Disabled => "none",
        }
    }
}

/// The options as the caller wrote them, before validation; absent fields
/// take the defaults below.
pub struct RawOptions {
    pub ignore_whitespace: bool,
    pub show_whitespace: bool,
    pub algorithm: String,
    pub inline: String,
    pub unicode: bool,
    pub semantic_cleanup: bool,
}

impl Default for RawOptions {
    /// The options of an empty options object: whitespace neither ignored nor
    /// shown, the default algorithm and inline mode, Unicode tokens and
    /// semantic cleanup on.
    fn default() -> (raw: RawOptions)
        ensures
            !raw.ignore_whitespace,
            !raw.show_whitespace,
            raw.algorithm@ == "histogram"@,
            raw.inline@ == "words"@,
            raw.unicode,
            raw.semantic_cleanup,
    {
        RawOptions {
            ignore_whitespace: false,
            show_whitespace: false,
            algorithm: default_algorithm().to_owned(),
            inline: default_inline().to_owned(),
            unicode: default_unicode(),
            semantic_cleanup: default_true(),
        }
    }
}

/// Validated options.
#[derive(Clone, Copy, Debug, PartialEq, Eq, Structural)]
pub struct Options {
    pub ignore_whitespace: bool,
    pub show_whitespace: bool,
    pub algorithm: DiffAlgorithm,
    pub inline: InlineMode,
    pub unicode: bool,
    pub semantic_cleanup: bool,
}

/// The algorithm used when none is given.
pub fn default_algorithm() -> (name: &'static str)
    ensures
        name@ == "histogram"@,
{
    "histogram"
}

/// The inline mode used when none is given.
pub fn default_inline() -> (name: &'static str)
    ensures
        name@ == "words"@,
{
    "words"
}

/// Unicode-aware tokens are used unless turned off.
pub fn default_unicode() -> (on: bool)
    ensures
        on,
{
    true
}

/// The default of options that are on unless turned off.
pub fn default_true() -> (on: bool)
    ensures
        on,
{
    true
}

/// How `{:?}` writes a string: quoted, with escapes.
pub uninterp spec fn debug_quoted(s: Seq<char>) -> Seq<char>;

/// Formats a string with `format!("{:?}")` (the `Debug` impl of `str`). The
/// result is a function of the string alone, named `debug_quoted`.
#[verifier::external_body]
fn debug_str(value: &str) -> (quoted: String)
    ensures
        quoted@ == debug_quoted(value@),
{
    format!("{value:?}")
}

pub open spec fn parse_algorithm_spec(value: Seq<char>) -> Option<DiffAlgorithm> {
    if value == "myers"@ {
        Some(DiffAlgorithm::Myers)
    } else if value == "patience"@ {
        Some(DiffAlgorithm::Patience)
    } else if value == "lcs"@ {
        Some(DiffAlgorithm::Lcs)
    } else if value == "hunt"@ {
        Some(DiffAlgorithm::Hunt)
    } else if value == "histogram"@ {
        Some(DiffAlgorithm::Histogram)
    } else {
        None
    }
}

pub open spec fn algorithm_error_spec(value: Seq<char>) -> Seq<char> {
    "algorithm must be one of: myers, patience, lcs, hunt, histogram; got "@ + debug_quoted(value)
}

pub open spec fn algorithm_name_spec(algorithm: DiffAlgorithm) -> Seq<char> {
    match algorithm {
        DiffAlgorithm::Myers => "myers"@,
        DiffAlgorithm::Patience => "patience"@,
        DiffAlgorithm::Lcs => "lcs"@,
        DiffAlgorithm::Hunt => "hunt"@,
        DiffAlgorithm::Histogram => "histogram"@,
    }
}

pub open spec fn parse_inline_mode_spec(value: Seq<char>) -> Option<InlineMode> {
    if value == "chars"@ {
        Some(InlineMode::Chars)
    } else if value == "words"@ {
        Some(InlineMode::Words)
    } else if value == "none"@ {
        Some(InlineMode::Disabled)
    } else {
        None
    }
}

pub open spec fn inline_error_spec(value: Seq<char>) -> Seq<char> {
    "inline must be one of: chars, words, none; got "@ + debug_quoted(value)
}

/// The message that refuses an algorithm, given the refused value as `{:?}`
/// writes it.
pub fn algorithm_refusal(quoted: &str) -> (message: String)
    ensures
        message@ == "algorithm must be one of: myers, patience, lcs, hunt, histogram; got "@ + quoted@,
{
    let mut message = String::from_str("algorithm must be one of: myers, patience, lcs, hunt, histogram; got ");
    message.append(quoted);
    message
}

/// The message that refuses an inline mode, given the refused value as `{:?}`
/// writes it.
pub fn inline_refusal(quoted: &str) -> (message: String)
    ensures
        message@ == "inline must be one of: chars, words, none; got "@ + quoted@,
{
    let mut message = String::from_str("inline must be one of: chars, words, none; got ");
    message.append(quoted);
    message
}

fn same_text(value: &str, expected: &str) -> (same: bool)
    ensures
        same == (value@ == expected@),
{
    value.to_owned() == expected.to_owned()
}

/// Reads an algorithm name; any other value is refused with a message that
/// lists the accepted names.
pub fn parse_algorithm(value: &str) -> (algorithm: Result<DiffAlgorithm, String>)
    ensures
        algorithm matches Ok(a) ==> parse_algorithm_spec(value@) == Some(a),
        algorithm matches Err(e) ==> parse_algorithm_spec(value@) is None && e@ == algorithm_error_spec(value@),
{
    if same_text(value, "myers") {
        Ok(DiffAlgorithm::Myers)
    } else if same_text(value, "patience") {
        Ok(DiffAlgorithm::Patience)
    } else if same_text(value, "lcs") {
        Ok(DiffAlgorithm::Lcs)
    } else if same_text(value, "hunt") {
        Ok(DiffAlgorithm::Hunt)
    } else if same_text(value, "histogram") {
        Ok(DiffAlgorithm::Histogram)
    } else {
        Err(algorithm_refusal(debug_str(value).as_str()))
    }
}

/// The option value that selects an algorithm.
pub fn algorithm_name(algorithm: DiffAlgorithm) -> (name: &'static str)
    ensures
        name@ == algorithm_name_spec(algorithm),
{
    match algorithm {
        DiffAlgorithm::Myers => "myers",
        DiffAlgorithm::Patience => "patience",
        DiffAlgorithm::Lcs => "lcs",
        DiffAlgorithm::Hunt => "hunt",
        DiffAlgorithm::Histogram => "histogram",
    }
}

/// Reads an inline mode; any other value is refused with a message that lists
/// the accepted values.
pub fn parse_inline_mode(value: &str) -> (mode: Result<InlineMode, String>)
    ensures
        mode matches Ok(m) ==> parse_inline_mode_spec(value@) == Some(m),
        mode matches Err(e) ==> parse_inline_mode_spec(value@) is None && e@ == inline_error_spec(value@),
{
    if same_text(value, "chars") {
        Ok(InlineMode::Chars)
    } else if same_text(value, "words") {
        Ok(InlineMode::Words)
    } else if same_text(value, "none") {
        Ok(InlineMode::Disabled)
    } else {
        Err(inline_refusal(debug_str(value).as_str()))
    }
}

/// What validating raw options gives: the options, or the message of the
/// first field refused (the algorithm is checked before the inline mode).
pub open spec fn options_spec(raw: &RawOptions) -> Result<Options, Seq<char>> {
    match parse_algorithm_spec(raw.algorithm@) {
        None => Err(algorithm_error_spec(raw.algorithm@)),
        Some(algorithm) => match parse_inline_mode_spec(raw.inline@) {
            None => Err(inline_error_spec(raw.inline@)),
            Some(inline) => Ok(
                Options {
                    ignore_whitespace: raw.ignore_whitespace,
                    show_whitespace: raw.show_whitespace,
                    algorithm,
                    inline,
                    unicode: raw.unicode,
                    semantic_cleanup: raw.semantic_cleanup,
                },
            ),
        },
    }
}

/// What reading the options gives when the caller's options text may not have
/// parsed: its error is reported as invalid options JSON.
pub open spec fn parsed_options_spec(parsed: &Result<RawOptions, String>) -> Result<Options, Seq<char>> {
    match parsed {
        Err(e) => Err("invalid options JSON: "@ + e@),
        Ok(raw) => options_spec(raw),
    }
}

/// Agreement of an executable outcome with a specified one.
pub open spec fn same_outcome<T>(r: Result<T, String>, s: Result<T, Seq<char>>) -> bool {
    match (r, s) {
        (Ok(a), Ok(b)) => a == b,
        (Err(e), Err(f)) => e@ == f,
        _ => false,
    }
}

impl Options {
    /// Validates raw options.
    pub fn from_raw(raw: &RawOptions) -> (options: Result<Options, String>)
        ensures
            same_outcome(options, options_spec(raw)),
    {
        let algorithm = match parse_algorithm(raw.algorithm.as_str()) {
            Ok(a) => a,
            Err(e) => return Err(e),
        };
        let inline = match parse_inline_mode(raw.inline.as_str()) {
            Ok(m) => m,
            Err(e) => return Err(e),
        };
        Ok(
            Options {
                ignore_whitespace: raw.ignore_whitespace,
                show_whitespace: raw.show_whitespace,
                algorithm,
                inline,
                unicode: raw.unicode,
                semantic_cleanup: raw.semantic_cleanup,
            },
        )
    }

    /// Validates the outcome of reading the options text: a reading error is
    /// reported as invalid options JSON.
    pub fn from_parsed(parsed: &Result<RawOptions, String>) -> (options: Result<Options, String>)
        ensures
            same_outcome(options, parsed_options_spec(parsed)),
    {
        match parsed {
            Err(e) => {
                let mut message = String::from_str("invalid options JSON: ");
                message.append(e.as_str());
                Err(message)
            },
            Ok(raw) => Options::from_raw(raw),
        }
    }
}

/// The name of every algorithm reads back as that algorithm.
pub proof fn law_algorithm_names_round_trip(algorithm: DiffAlgorithm)
    ensures
        parse_algorithm_spec(algorithm_name_spec(algorithm)) == Some(algorithm),
{
    reveal_strlit("myers");
    reveal_strlit("patience");
    reveal_strlit("lcs");
    reveal_strlit("hunt");
    reveal_strlit("histogram");
    assert("myers"@[0] == 'm');
    assert("patience"@[0] == 'p');
    assert("lcs"@[0] == 'l');
    assert("hunt"@[0] == 'h' && "hunt"@[1] == 'u');
    assert("histogram"@[0] == 'h' && "histogram"@[1] == 'i');
}

/// The name of every inline mode reads back as that mode.
pub proof fn law_inline_names_round_trip(mode: InlineMode)
    ensures
        parse_inline_mode_spec(mode.name_spec()) == Some(mode),
{
    reveal_strlit("chars");
    reveal_strlit("words");
    reveal_strlit("none");
    assert("chars"@[0] == 'c');
    assert("words"@[0] == 'w');
    assert("none"@[0] == 'n');
}

/// Each algorithm name selects the algorithm of that name, and each algorithm
/// is reported under its own name.
pub proof fn law_algorithm_names(algorithm: DiffAlgorithm)
    ensures
        parse_algorithm_spec("myers"@) == Some(DiffAlgorithm::Myers),
        parse_algorithm_spec("patience"@) == Some(DiffAlgorithm::Patience),
        parse_algorithm_spec("lcs"@) == Some(DiffAlgorithm::Lcs),
        parse_algorithm_spec("hunt"@) == Some(DiffAlgorithm::Hunt),
        parse_algorithm_spec("histogram"@) == Some(DiffAlgorithm::Histogram),
        algorithm == DiffAlgorithm::Myers ==> algorithm_name_spec(algorithm) == "myers"@,
        algorithm == DiffAlgorithm::Patience ==> algorithm_name_spec(algorithm) == "patience"@,
        algorithm == DiffAlgorithm::Lcs ==> algorithm_name_spec(algorithm) == "lcs"@,
        algorithm == DiffAlgorithm::Hunt ==> algorithm_name_spec(algorithm) == "hunt"@,
        algorithm == DiffAlgorithm::Histogram ==> algorithm_name_spec(algorithm) == "histogram"@,
        forall|s: Seq<char>| #[trigger] parse_algorithm_spec(s) == Some(algorithm) ==> s == algorithm_name_spec(algorithm),
{
    reveal_strlit("myers");
    reveal_strlit("patience");
    reveal_strlit("lcs");
    reveal_strlit("hunt");
    reveal_strlit("histogram");
    assert("myers"@[0] == 'm');
    assert("patience"@[0] == 'p');
    assert("lcs"@[0] == 'l');
    assert("hunt"@[0] == 'h' && "hunt"@[1] == 'u');
    assert("histogram"@[0] == 'h' && "histogram"@[1] == 'i');
}

/// Each inline mode name selects the mode of that name, and each mode is
/// reported under its own name.
pub proof fn law_inline_names(mode: InlineMode)
    ensures
        parse_inline_mode_spec("chars"@) == Some(InlineMode::Chars),
        parse_inline_mode_spec("words"@) == Some(InlineMode::Words),
        parse_inline_mode_spec("none"@) == Some(InlineMode::Disabled),
        mode == InlineMode::Chars ==> mode.name_spec() == "chars"@,
        mode == InlineMode::Words ==> mode.name_spec() == "words"@,
        mode == InlineMode::Disabled ==> mode.name_spec() == "none"@,
        forall|s: Seq<char>| #[trigger] parse_inline_mode_spec(s) == Some(mode) ==> s == mode.name_spec(),
{
    reveal_strlit("chars");
    reveal_strlit("words");
    reveal_strlit("none");
    assert("chars"@[0] == 'c');
    assert("words"@[0] == 'w');
    assert("none"@[0] == 'n');
}

} // verus!
