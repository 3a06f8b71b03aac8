use std::str::FromStr;

use translation_fiesta_rust::batch::BatchOptions;
use translation_fiesta_rust::models::{
    BackTranslationResult, ExportFormat, ProviderId, GOOGLE_UNOFFICIAL_PROVIDER,
};

#[test]
fn provider_normalization_handles_aliases() {
    assert_eq!(
        ProviderId::normalize("google_unofficial"),
        ProviderId::GoogleUnofficial
    );
    assert_eq!(
        ProviderId::normalize("unofficial"),
        ProviderId::GoogleUnofficial
    );
    assert_eq!(
        ProviderId::normalize("unknown"),
        ProviderId::GoogleUnofficial
    );
}

#[test]
fn export_format_from_str_supports_expected_values() {
    assert_eq!(ExportFormat::from_str("txt").unwrap(), ExportFormat::Txt);
    assert_eq!(
        ExportFormat::from_str("md").unwrap(),
        ExportFormat::Markdown
    );
    assert_eq!(ExportFormat::from_str("docx").unwrap(), ExportFormat::Docx);
    assert!(ExportFormat::from_str("yaml").is_err());
}

#[test]
fn default_batch_options_use_google_unofficial() {
    let options = BatchOptions::default();
    assert_eq!(options.provider_id, ProviderId::GoogleUnofficial);
    assert_eq!(options.intermediate_language, "ja");
}

#[test]
fn default_batch_options_translate_from_english() {
    let options = BatchOptions::default();
    assert_eq!(options.source_language.as_deref(), Some("en"));
}

#[test]
fn provider_names() {
    assert_eq!(ProviderId::GoogleUnofficial.as_str(), "google_unofficial");
    assert_eq!(GOOGLE_UNOFFICIAL_PROVIDER, "google_unofficial");
    assert_eq!(
        ProviderId::GoogleUnofficial.display_name(),
        "Google Translate (Unofficial / Free)"
    );
}

#[test]
fn export_format_parse_accepts_aliases_in_any_case() {
    assert_eq!(ExportFormat::parse(" Text "), Ok(ExportFormat::Txt));
    assert_eq!(ExportFormat::parse("MARKDOWN"), Ok(ExportFormat::Markdown));
    assert_eq!(ExportFormat::parse("htm"), Ok(ExportFormat::Html));
    assert_eq!(ExportFormat::parse("json"), Ok(ExportFormat::Json));
    assert_eq!(ExportFormat::parse("csv"), Ok(ExportFormat::Csv));
    assert_eq!(ExportFormat::parse("xml"), Ok(ExportFormat::Xml));
    assert_eq!(ExportFormat::parse("pdf"), Ok(ExportFormat::Pdf));
    assert_eq!(ExportFormat::parse("doc"), Ok(ExportFormat::Docx));
}

#[test]
fn export_format_parse_quotes_what_it_refuses() {
    assert_eq!(
        ExportFormat::parse(" Yaml"),
        Err("unsupported format:  Yaml".to_string())
    );
}

#[test]
fn export_format_extensions_and_names() {
    let formats = ExportFormat::all();
    let extensions: Vec<&str> = formats.iter().map(|format| format.extension()).collect();
    assert_eq!(
        extensions,
        vec!["txt", "md", "html", "json", "csv", "xml", "pdf", "docx"]
    );
    assert_eq!(ExportFormat::Txt.display_name(), "Plain Text (.txt)");
    assert_eq!(ExportFormat::Docx.display_name(), "DOCX (.docx)");
}

#[test]
fn export_format_from_path_reads_the_extension() {
    assert_eq!(ExportFormat::from_path("out/report.HTML"), Some(ExportFormat::Html));
    assert_eq!(ExportFormat::from_path("report.md"), Some(ExportFormat::Markdown));
    assert_eq!(ExportFormat::from_path("report"), None);
    assert_eq!(ExportFormat::from_path("report.yaml"), None);
}

#[test]
fn every_extension_parses_back_to_its_format() {
    for format in ExportFormat::all() {
        assert_eq!(ExportFormat::parse(format.extension()), Ok(format));
    }
}

#[test]
fn back_translation_result_keeps_what_it_is_given() {
    let result = BackTranslationResult::with_identity(
        7,
        1_700_000_000_000,
        "Hello world".to_string(),
        "\u{3053}\u{3093}\u{306b}\u{3061}\u{306f}".to_string(),
        "Hello world".to_string(),
        "en".to_string(),
        "ja".to_string(),
        ProviderId::GoogleUnofficial,
        420,
    );
    assert_eq!(result.id, 7);
    assert_eq!(result.created_at, 1_700_000_000_000);
    assert_eq!(result.original_text, "Hello world");
    assert_eq!(result.intermediate_text, "\u{3053}\u{3093}\u{306b}\u{3061}\u{306f}");
    assert_eq!(result.back_translated_text, "Hello world");
    assert_eq!(result.source_language, "en");
    assert_eq!(result.intermediate_language, "ja");
    assert_eq!(result.provider_id, "google_unofficial");
    assert_eq!(result.duration_ms, 420);
}

#[test]
fn new_back_translation_results_get_distinct_identifiers() {
    let make = || {
        BackTranslationResult::new(
            "a".to_string(),
            "b".to_string(),
            "c".to_string(),
            "en".to_string(),
            "ja".to_string(),
            ProviderId::GoogleUnofficial,
            1,
        )
    };
    let first = make();
    let second = make();
    assert_ne!(first.id, second.id);
    assert_eq!(first.provider_id, "google_unofficial");
    assert_eq!(first.duration_ms, 1);
    assert!(first.created_at > 0);
}
