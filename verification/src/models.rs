//! The records that the pipeline hands to its callers.

use vstd::prelude::*;
use vstd::string::StringExecFns;
use crate::clock::current_time_millis;
use crate::file_service::extension_of;
use crate::text::{ascii_lowercase, same_text, trim, trimmed_lowercase};

verus! {

/// The name under which the one supported provider is stored and logged.
pub const GOOGLE_UNOFFICIAL_PROVIDER: &'static str = "google_unofficial";

/// A translation backend.
#[derive(Debug, Clone, Copy, PartialEq, Eq, Structural)]
pub enum ProviderId {
    GoogleUnofficial,
}

impl ProviderId {
    /// The provider's stored name.
    pub open spec fn name(self) -> Seq<char> {
        "google_unofficial"@
    }

    /// The provider's stored name.
    pub fn as_str(self) -> (name: &'static str)
        ensures
            name@ == self.name(),
    {
        match self {
            ProviderId::GoogleUnofficial => GOOGLE_UNOFFICIAL_PROVIDER,
        }
    }

    /// The provider's name as shown to a user.
    pub fn display_name(self) -> (name: &'static str)
        ensures
            name@ == "Google Translate (Unofficial / Free)"@,
    {
        match self {
            ProviderId::GoogleUnofficial => "Google Translate (Unofficial / Free)",
        }
    }

    /// The provider that a stored or typed name stands for. Every name, known
    /// or not, stands for the one provider there is.
    pub fn normalize(value: &str) -> (provider: Self)
        ensures
            provider == ProviderId::GoogleUnofficial,
    {
        ProviderId::GoogleUnofficial
    }
}

/// The formats a result can be written in.
#[derive(Debug, Clone, Copy, PartialEq, Eq, Structural)]
pub enum ExportFormat {
    Txt,
    Markdown,
    Html,
    Json,
    Csv,
    Xml,
    Pdf,
    Docx,
}

/// The format that a name stands for, once trimmed and whatever its letter
/// case.
pub open spec fn format_named(name: Seq<char>) -> Option<ExportFormat> {
    let lower = ascii_lowercase(trim(name));
    if lower == "txt"@ || lower == "text"@ {
        Some(ExportFormat::Txt)
    } else if lower == "md"@ || lower == "markdown"@ {
        Some(ExportFormat::Markdown)
    } else if lower == "html"@ || lower == "htm"@ {
        Some(ExportFormat::Html)
    } else if lower == "json"@ {
        Some(ExportFormat::Json)
    } else if lower == "csv"@ {
        Some(ExportFormat::Csv)
    } else if lower == "xml"@ {
        Some(ExportFormat::Xml)
    } else if lower == "pdf"@ {
        Some(ExportFormat::Pdf)
    } else if lower == "docx"@ || lower == "doc"@ {
        Some(ExportFormat::Docx)
    } else {
        None
    }
}

/// The format of a file whose path has the given extension, if it has one.
pub open spec fn format_of(extension: Option<Seq<char>>) -> Option<ExportFormat> {
    match extension {
        Some(extension) => format_named(ascii_lowercase(extension)),
        None => None,
    }
}

impl ExportFormat {
    /// The extension of a file in this format.
    pub open spec fn spec_extension(self) -> Seq<char> {
        match self {
            ExportFormat::Txt => "txt"@,
            ExportFormat::Markdown => "md"@,
            ExportFormat::Html => "html"@,
            ExportFormat::Json => "json"@,
            ExportFormat::Csv => "csv"@,
            ExportFormat::Xml => "xml"@,
            ExportFormat::Pdf => "pdf"@,
            ExportFormat::Docx => "docx"@,
        }
    }

    /// The extension of a file in this format.
    pub fn extension(self) -> (extension: &'static str)
        ensures
            extension@ == self.spec_extension(),
    {
        match self {
            ExportFormat::Txt => "txt",
            ExportFormat::Markdown => "md",
            ExportFormat::Html => "html",
            ExportFormat::Json => "json",
            ExportFormat::Csv => "csv",
            ExportFormat::Xml => "xml",
            ExportFormat::Pdf => "pdf",
            ExportFormat::Docx => "docx",
        }
    }

    /// The format's name as shown to a user.
    pub fn display_name(self) -> (name: &'static str)
        ensures
            name@ == match self {
                ExportFormat::Txt => "Plain Text (.txt)"@,
                ExportFormat::Markdown => "Markdown (.md)"@,
                ExportFormat::Html => "HTML (.html)"@,
                ExportFormat::Json => "JSON (.json)"@,
                ExportFormat::Csv => "CSV (.csv)"@,
                ExportFormat::Xml => "XML (.xml)"@,
                ExportFormat::Pdf => "PDF (.pdf)"@,
                ExportFormat::Docx => "DOCX (.docx)"@,
            },
    {
        match self {
            ExportFormat::Txt => "Plain Text (.txt)",
            ExportFormat::Markdown => "Markdown (.md)",
            ExportFormat::Html => "HTML (.html)",
            ExportFormat::Json => "JSON (.json)",
            ExportFormat::Csv => "CSV (.csv)",
            ExportFormat::Xml => "XML (.xml)",
            ExportFormat::Pdf => "PDF (.pdf)",
            ExportFormat::Docx => "DOCX (.docx)",
        }
    }

    /// The format that a name stands for; a name that stands for none is
    /// refused with a message that quotes it.
    pub fn parse(name: &str) -> (format: Result<Self, String>)
        ensures
            match format {
                Ok(format) => format_named(name@) == Some(format),
                Err(message) => format_named(name@) is None && message@ == "unsupported format: "@
                    + name@,
            },
    {
        let lower = trimmed_lowercase(name);
        let lower = lower.as_str();
        if same_text(lower, "txt") || same_text(lower, "text") {
            Ok(ExportFormat::Txt)
        } else if same_text(lower, "md") || same_text(lower, "markdown") {
            Ok(ExportFormat::Markdown)
        } else if same_text(lower, "html") || same_text(lower, "htm") {
            Ok(ExportFormat::Html)
        } else if same_text(lower, "json") {
            Ok(ExportFormat::Json)
        } else if same_text(lower, "csv") {
            Ok(ExportFormat::Csv)
        } else if same_text(lower, "xml") {
            Ok(ExportFormat::Xml)
        } else if same_text(lower, "pdf") {
            Ok(ExportFormat::Pdf)
        } else if same_text(lower, "docx") || same_text(lower, "doc") {
            Ok(ExportFormat::Docx)
        } else {
            let mut message = "unsupported format: ".to_owned();
            message.append(name);
            Err(message)
        }
    }

    /// The format of the file at `path`, judged by the extension that the
    /// platform finds in the path.
    pub fn from_path(path: &str) -> (format: Option<Self>)
        ensures
            exists|extension: Option<Seq<char>>| format == #[trigger] format_of(extension),
    {
        match extension_of(path) {
            Some(extension) => {
                let lower = crate::text::lowercase_text(extension.as_str());
                let format = match ExportFormat::parse(lower.as_str()) {
                    Ok(format) => Some(format),
                    Err(_) => None,
                };
                assert(format == format_of(Some(extension@)));
                format
            },
            None => {
                assert(format_of(None) == None::<ExportFormat>);
                None
            },
        }
    }

    /// Every format, in the order in which they are offered.
    pub fn all() -> (formats: [Self; 8])
        ensures
            formats@ == seq![
                ExportFormat::Txt,
                ExportFormat::Markdown,
                ExportFormat::Html,
                ExportFormat::Json,
                ExportFormat::Csv,
                ExportFormat::Xml,
                ExportFormat::Pdf,
                ExportFormat::Docx,
            ],
    {
        let formats = [
            ExportFormat::Txt,
            ExportFormat::Markdown,
            ExportFormat::Html,
            ExportFormat::Json,
            ExportFormat::Csv,
            ExportFormat::Xml,
            ExportFormat::Pdf,
            ExportFormat::Docx,
        ];
        assert(formats@ =~= seq![
            ExportFormat::Txt,
            ExportFormat::Markdown,
            ExportFormat::Html,
            ExportFormat::Json,
            ExportFormat::Csv,
            ExportFormat::Xml,
            ExportFormat::Pdf,
            ExportFormat::Docx,
        ]);
        formats
    }
}

impl core::str::FromStr for ExportFormat {
    type Err = String;

    fn from_str(s: &str) -> (format: Result<Self, String>)
        ensures
            match format {
                Ok(format) => format_named(s@) == Some(format),
                Err(message) => format_named(s@) is None && message@ == "unsupported format: "@
                    + s@,
            },
    {
        ExportFormat::parse(s)
    }
}

/// A fresh identifier from `uuid::Uuid::new_v4`, read through
/// `Uuid::as_u128`. Nothing is claimed of the value: it is random.
#[verifier::external_body]
fn fresh_id() -> u128 {
    uuid::Uuid::new_v4().as_u128()
}

/// A text, its translation into an intermediate language, and the
/// translation of that back into the language of the text.
#[derive(Debug, PartialEq, Eq)]
pub struct BackTranslationResult {
    /// A random identifier.
    pub id: u128,
    pub original_text: String,
    pub intermediate_text: String,
    pub back_translated_text: String,
    pub source_language: String,
    pub intermediate_language: String,
    pub provider_id: String,
    /// When the result was made, in milliseconds since the epoch.
    pub created_at: i64,
    /// How long both translations took together.
    pub duration_ms: u128,
}

/// The mathematical form of a [`BackTranslationResult`].
pub ghost struct BackTranslationView {
    pub id: u128,
    pub original_text: Seq<char>,
    pub intermediate_text: Seq<char>,
    pub back_translated_text: Seq<char>,
    pub source_language: Seq<char>,
    pub intermediate_language: Seq<char>,
    pub provider_id: Seq<char>,
    pub created_at: i64,
    pub duration_ms: u128,
}

impl View for BackTranslationResult {
    type V = BackTranslationView;

    open spec fn view(&self) -> BackTranslationView {
        BackTranslationView {
            id: self.id,
            original_text: self.original_text@,
            intermediate_text: self.intermediate_text@,
            back_translated_text: self.back_translated_text@,
            source_language: self.source_language@,
            intermediate_language: self.intermediate_language@,
            provider_id: self.provider_id@,
            created_at: self.created_at,
            duration_ms: self.duration_ms,
        }
    }
}

impl BackTranslationResult {
    /// The result with the given identifier and time of creation.
    pub fn with_identity(
        id: u128,
        created_at: i64,
        original_text: String,
        intermediate_text: String,
        back_translated_text: String,
        source_language: String,
        intermediate_language: String,
        provider_id: ProviderId,
        duration_ms: u128,
    ) -> (result: Self)
        ensures
            result@ == (BackTranslationView {
                id,
                original_text: original_text@,
                intermediate_text: intermediate_text@,
                back_translated_text: back_translated_text@,
                source_language: source_language@,
                intermediate_language: intermediate_language@,
                provider_id: provider_id.name(),
                created_at,
                duration_ms,
            }),
    {
        BackTranslationResult {
            id,
            original_text,
            intermediate_text,
            back_translated_text,
            source_language,
            intermediate_language,
            provider_id: provider_id.as_str().to_owned(),
            created_at,
            duration_ms,
        }
    }

    /// The result with a fresh random identifier, made now.
    pub fn new(
        original_text: String,
        intermediate_text: String,
        back_translated_text: String,
        source_language: String,
        intermediate_language: String,
        provider_id: ProviderId,
        duration_ms: u128,
    ) -> (result: Self)
        ensures
            result@ == (BackTranslationView {
                id: result.id,
                original_text: original_text@,
                intermediate_text: intermediate_text@,
                back_translated_text: back_translated_text@,
                source_language: source_language@,
                intermediate_language: intermediate_language@,
                provider_id: provider_id.name(),
                created_at: result.created_at,
                duration_ms,
            }),
    {
        BackTranslationResult::with_identity(
            fresh_id(),
            current_time_millis(),
            original_text,
            intermediate_text,
            back_translated_text,
            source_language,
            intermediate_language,
            provider_id,
            duration_ms,
        )
    }
}

/// What became of one file of a batch.
#[derive(Debug, PartialEq, Eq)]
pub struct BatchItemResult {
    pub file_path: String,
    pub success: bool,
    pub intermediate_text: String,
    pub back_translated_text: String,
    /// Why the file failed; present exactly when `success` is false.
    pub error: Option<String>,
    pub duration_ms: u128,
}

/// The mathematical form of a [`BatchItemResult`].
pub ghost struct BatchItemView {
    pub file_path: Seq<char>,
    pub success: bool,
    pub intermediate_text: Seq<char>,
    pub back_translated_text: Seq<char>,
    pub error: Option<Seq<char>>,
    pub duration_ms: u128,
}

impl View for BatchItemResult {
    type V = BatchItemView;

    open spec fn view(&self) -> BatchItemView {
        BatchItemView {
            file_path: self.file_path@,
            success: self.success,
            intermediate_text: self.intermediate_text@,
            back_translated_text: self.back_translated_text@,
            error: match self.error {
                Some(reason) => Some(reason@),
                None => None,
            },
            duration_ms: self.duration_ms,
        }
    }
}

impl Clone for BatchItemResult {
    fn clone(&self) -> (out: Self)
        ensures
            out@ == self@,
    {
        BatchItemResult {
            file_path: self.file_path.clone(),
            success: self.success,
            intermediate_text: self.intermediate_text.clone(),
            back_translated_text: self.back_translated_text.clone(),
            error: match &self.error {
                Some(reason) => Some(reason.clone()),
                None => None,
            },
            duration_ms: self.duration_ms,
        }
    }
}

/// One chapter of a book.
#[derive(Debug)]
pub struct EpubChapter {
    pub title: String,
    pub path: String,
    pub content: String,
    pub order: usize,
}

/// A book: its title, its author if known, and its chapters.
#[derive(Debug)]
pub struct EpubBook {
    pub title: String,
    pub author: Option<String>,
    pub chapters: Vec<EpubChapter>,
}

/// One cached translation.
#[derive(Debug, PartialEq, Eq)]
pub struct MemoryEntry {
    pub source_text: String,
    pub translated_text: String,
    pub source_language: String,
    pub target_language: String,
    pub provider_id: String,
    /// How often the entry was stored or found; at least 1.
    pub access_count: u64,
    /// When the entry was first stored, in milliseconds since the epoch.
    pub created_at: i64,
    /// When the entry was last stored or found, in milliseconds since the epoch.
    pub last_accessed: i64,
}

/// What identifies a cached translation: provider, both languages and the
/// exact source text.
pub ghost struct CacheKey {
    pub provider_id: Seq<char>,
    pub source_language: Seq<char>,
    pub target_language: Seq<char>,
    pub source_text: Seq<char>,
}

/// The mathematical form of a [`MemoryEntry`].
pub ghost struct EntryView {
    pub source_text: Seq<char>,
    pub translated_text: Seq<char>,
    pub source_language: Seq<char>,
    pub target_language: Seq<char>,
    pub provider_id: Seq<char>,
    pub access_count: u64,
    pub created_at: i64,
    pub last_accessed: i64,
}

impl EntryView {
    pub open spec fn key(self) -> CacheKey {
        CacheKey {
            provider_id: self.provider_id,
            source_language: self.source_language,
            target_language: self.target_language,
            source_text: self.source_text,
        }
    }
}

impl View for MemoryEntry {
    type V = EntryView;

    open spec fn view(&self) -> EntryView {
        EntryView {
            source_text: self.source_text@,
            translated_text: self.translated_text@,
            source_language: self.source_language@,
            target_language: self.target_language@,
            provider_id: self.provider_id@,
            access_count: self.access_count,
            created_at: self.created_at,
            last_accessed: self.last_accessed,
        }
    }
}

impl Clone for MemoryEntry {
    fn clone(&self) -> (out: Self)
        ensures
            out@ == self@,
    {
        MemoryEntry {
            source_text: self.source_text.clone(),
            translated_text: self.translated_text.clone(),
            source_language: self.source_language.clone(),
            target_language: self.target_language.clone(),
            provider_id: self.provider_id.clone(),
            access_count: self.access_count,
            created_at: self.created_at,
            last_accessed: self.last_accessed,
        }
    }
}

/// What the cache holds and how its lookups went.
#[derive(Debug, Clone, Copy, PartialEq, Eq, Structural)]
pub struct MemoryStats {
    pub total_entries: usize,
    pub max_entries: usize,
    pub total_hits: u64,
    pub total_misses: u64,
    pub total_lookups: u64,
    /// The time all counted lookups took together, in microseconds.
    pub total_lookup_micros: u64,
    /// The share of lookups that were hits, in parts per million, rounded
    /// down; 0 where nothing was looked up.
    pub hit_rate_ppm: u64,
    /// The mean time of a lookup in microseconds, rounded down; 0 where
    /// nothing was looked up.
    pub avg_lookup_micros: u64,
}

impl MemoryEntry {
    /// Whether the entry is the one stored under the given key.
    pub fn has_key(
        &self,
        source_text: &String,
        source_language: &String,
        target_language: &String,
        provider_id: &String,
    ) -> (r: bool)
        ensures
            r == (self@.key() == CacheKey {
                provider_id: provider_id@,
                source_language: source_language@,
                target_language: target_language@,
                source_text: source_text@,
            }),
    {
        self.provider_id == *provider_id && self.source_language == *source_language
            && self.target_language == *target_language && self.source_text == *source_text
    }
}

} // verus!
