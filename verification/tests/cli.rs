use translation_fiesta_rust::cli::{parse_format, truncate};
use translation_fiesta_rust::models::ExportFormat;

#[test]
fn truncate_keeps_short_values() {
    assert_eq!(truncate("hello", 5), "hello");
    assert_eq!(truncate("", 0), "");
    assert_eq!(truncate("\u{3053}\u{3093}", 2), "\u{3053}\u{3093}");
}

#[test]
fn truncate_cuts_long_values_by_characters() {
    assert_eq!(truncate("hello world", 5), "hello\u{2026}");
    assert_eq!(truncate("\u{3053}\u{3093}\u{306b}", 2), "\u{3053}\u{3093}\u{2026}");
    assert_eq!(truncate("abc", 0), "\u{2026}");
}

#[test]
fn the_named_format_wins_over_the_path() {
    assert_eq!(parse_format("json", "out.html"), Ok(ExportFormat::Json));
    assert_eq!(parse_format(" PDF ", "out"), Ok(ExportFormat::Pdf));
}

#[test]
fn the_path_decides_where_the_name_does_not() {
    assert_eq!(parse_format("yaml", "out.Md"), Ok(ExportFormat::Markdown));
    assert_eq!(parse_format("", "dir/out.docx"), Ok(ExportFormat::Docx));
}

#[test]
fn refuses_when_neither_names_a_format() {
    assert_eq!(
        parse_format("yaml", "out.bin"),
        Err("unsupported export format: yaml".to_string())
    );
    assert_eq!(
        parse_format("yaml", "out"),
        Err("unsupported export format: yaml".to_string())
    );
}
