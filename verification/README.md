# diffst

The engine behind a side-by-side diff report: it decodes two texts, splits
them into lines, aligns the lines with an edit script from the `similar`
crate, and describes every row of the report, with inline highlights of
replaced lines and optional whitespace markers.

The library is written in Verus. Its contracts state what each function
returns over mathematical models of texts (`Seq<char>`), lines, spans, rows and
reports; the results of `similar` and of Unicode segmentation are named. Of
`similar`'s scripts the library takes on trust what the crate documents: an
equal op relates equal elements, and the ops form contiguous ranges over both
sequences. The engine still checks that every script it receives tiles both
sequences before it uses it, so that a report can be built from any script;
on two valid UTF-8 files with valid options `diff` always succeeds.

Layout:

- `src/text.rs`: decoding, line splitting, line-ending detection, whitespace
  keys of lines (two lines share a key exactly when they hold the same words;
  a text without carriage returns is rebuilt from its lines).
- `src/spans.rs`: inline spans and whitespace markers (the marker kinds hold
  only whitespace drawn as markers).
- `src/script.rs`: edit scripts, the calls into `similar`, and the tiling check.
- `src/tokens.rs`: character, word and Unicode tokens of a line.
- `src/options.rs`: raw and validated options.
- `src/inline.rs`: inline highlights of replaced lines (each side keeps to
  its kinds, and both sides hold the same unchanged text).
- `src/report.rs`: the report, its builder, and its specification.
- `src/laws.rs`: properties of every report (each line shown once, counts add
  up, ops cover the rows and label them with their kind, spans merged by kind,
  row sides match row kinds, unchanged rows pair matching lines). `diff`
  itself states that the spans of every row show that row's lines, with
  whitespace drawn as markers at most, and that every unchanged row pairs
  equal lines, or lines with equal keys when whitespace is ignored.
- `src/lib.rs`: `diff`, from the two files' bytes and the read options to the
  report.
- `app/lib.rs`: the Typst plugin: options JSON in, report JSON out, and the
  similarity ratio, a float, computed from the report's counts.
