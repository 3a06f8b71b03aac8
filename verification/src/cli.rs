//! Helpers for a command-line front end.

use vstd::prelude::*;
use vstd::string::StringExecFns;
use crate::models::{format_named, format_of, ExportFormat};
use crate::text::{chars_of, string_from_range, truncated};

verus! {

/// `value` if it has at most `max_len` characters, and otherwise its first
/// `max_len` characters followed by an ellipsis.
pub fn truncate(value: &str, max_len: usize) -> (out: String)
    ensures
        out@ == truncated(value@, max_len as nat, seq!['\u{2026}']),
{
    let v = chars_of(value);
    if v.len() <= max_len {
        return value.to_owned();
    }
    let mut out = string_from_range(&v, 0, max_len);
    out.push('\u{2026}');
    assert(out@ =~= v@.take(max_len as int) + seq!['\u{2026}']);
    out
}

/// The format of an export: the one that `format` names, and otherwise the
/// one of the output file, if its path has the given extension. Where
/// neither names a format, the refusal quotes `format`.
pub open spec fn chosen_format(format: Seq<char>, extension: Option<Seq<char>>) -> Result<
    ExportFormat,
    Seq<char>,
> {
    match format_named(format) {
        Some(named) => Ok(named),
        None => match format_of(extension) {
            Some(by_path) => Ok(by_path),
            None => Err("unsupported export format: "@ + format),
        },
    }
}

/// The mathematical form of a chosen format.
pub open spec fn choice_view(choice: Result<ExportFormat, String>) -> Result<
    ExportFormat,
    Seq<char>,
> {
    match choice {
        Ok(format) => Ok(format),
        Err(message) => Err(message@),
    }
}

/// The format of an export to `output_path`: the one that `format` names,
/// and otherwise the one that the extension of the path names.
pub fn parse_format(format: &str, output_path: &str) -> (choice: Result<ExportFormat, String>)
    ensures
        exists|extension: Option<Seq<char>>|
            choice_view(choice) == #[trigger] chosen_format(format@, extension),
        format_named(format@) matches Some(named) ==> choice == Ok::<ExportFormat, String>(named),
{
    match ExportFormat::parse(format) {
        Ok(named) => {
            assert(choice_view(Ok(named)) == chosen_format(format@, None));
            return Ok(named);
        },
        Err(_) => {},
    }
    let by_path = ExportFormat::from_path(output_path);
    let ghost extension = choose|extension: Option<Seq<char>>|
        by_path == #[trigger] format_of(extension);
    match by_path {
        Some(by_path) => {
            assert(choice_view(Ok(by_path)) == chosen_format(format@, extension));
            Ok(by_path)
        },
        None => {
            let mut message = "unsupported export format: ".to_owned();
            message.append(format);
            assert(choice_view(Err(message)) == chosen_format(format@, extension));
            Err(message)
        },
    }
}

} // verus!
