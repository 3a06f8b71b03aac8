//! Which files the pipeline can read.

use vstd::prelude::*;
use std::path::Path;
use crate::text::{ascii_lowercase, lowercase_text, same_text};

verus! {

/// The kinds of file whose text can be loaded.
#[derive(Debug, Clone, Copy, PartialEq, Eq, Structural)]
pub enum SupportedFileType {
    Txt,
    Markdown,
    Html,
    Epub,
}

/// The extension of the path written as `path`, as `std::path::Path::new`
/// and `Path::extension` find it, made text by `OsStr::to_string_lossy`.
/// Nothing is claimed of the result: what counts as a file name depends on
/// the platform's separators.
#[verifier::external_body]
pub(crate) fn extension_of(path: &str) -> (extension: Option<String>) {
    match Path::new(path).extension() {
        Some(extension) => Some(extension.to_string_lossy().into_owned()),
        None => None,
    }
}

/// The kind of file that an extension stands for, whatever its letter case.
pub open spec fn kind_of_extension(extension: Seq<char>) -> Option<SupportedFileType> {
    let lower = ascii_lowercase(extension);
    if lower == "txt"@ {
        Some(SupportedFileType::Txt)
    } else if lower == "md"@ || lower == "markdown"@ {
        Some(SupportedFileType::Markdown)
    } else if lower == "html"@ || lower == "htm"@ {
        Some(SupportedFileType::Html)
    } else if lower == "epub"@ {
        Some(SupportedFileType::Epub)
    } else {
        None
    }
}

/// The kind of a file whose path has the given extension, if it has one.
pub open spec fn kind_of(extension: Option<Seq<char>>) -> Option<SupportedFileType> {
    match extension {
        Some(extension) => kind_of_extension(extension),
        None => None,
    }
}

impl SupportedFileType {
    /// The kind of file that an extension stands for, whatever its letter
    /// case.
    pub fn from_extension(extension: &str) -> (kind: Option<Self>)
        ensures
            kind == kind_of_extension(extension@),
    {
        let lower = lowercase_text(extension);
        if same_text(lower.as_str(), "txt") {
            Some(SupportedFileType::Txt)
        } else if same_text(lower.as_str(), "md") || same_text(lower.as_str(), "markdown") {
            Some(SupportedFileType::Markdown)
        } else if same_text(lower.as_str(), "html") || same_text(lower.as_str(), "htm") {
            Some(SupportedFileType::Html)
        } else if same_text(lower.as_str(), "epub") {
            Some(SupportedFileType::Epub)
        } else {
            None
        }
    }

    /// The kind of the file at `path`, judged by the extension that the
    /// platform finds in the path.
    pub fn detect(path: &str) -> (kind: Option<Self>)
        ensures
            exists|extension: Option<Seq<char>>| kind == #[trigger] kind_of(extension),
    {
        match extension_of(path) {
            Some(extension) => {
                let kind = SupportedFileType::from_extension(extension.as_str());
                assert(kind == kind_of(Some(extension@)));
                kind
            },
            None => {
                assert(kind_of(None) == None::<SupportedFileType>);
                None
            },
        }
    }

    /// The extensions of the files that can be loaded.
    pub fn supported_extensions() -> (extensions: &'static [&'static str])
        ensures
            extensions@.len() == 5,
            extensions@[0]@ == "txt"@,
            extensions@[1]@ == "md"@,
            extensions@[2]@ == "html"@,
            extensions@[3]@ == "htm"@,
            extensions@[4]@ == "epub"@,
    {
        &["txt", "md", "html", "htm", "epub"]
    }
}

} // verus!
