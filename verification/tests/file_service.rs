use translation_fiesta_rust::file_service::SupportedFileType;

#[test]
fn detects_supported_extensions() {
    assert_eq!(
        SupportedFileType::detect("note.md"),
        Some(SupportedFileType::Markdown)
    );
    assert!(SupportedFileType::detect("image.png").is_none());
}

#[test]
fn detects_every_supported_kind_in_any_case() {
    assert_eq!(SupportedFileType::detect("a.txt"), Some(SupportedFileType::Txt));
    assert_eq!(SupportedFileType::detect("a.MARKDOWN"), Some(SupportedFileType::Markdown));
    assert_eq!(SupportedFileType::detect("dir/a.Html"), Some(SupportedFileType::Html));
    assert_eq!(SupportedFileType::detect("a.htm"), Some(SupportedFileType::Html));
    assert_eq!(SupportedFileType::detect("book.epub"), Some(SupportedFileType::Epub));
    assert_eq!(SupportedFileType::detect("no_extension"), None);
    assert_eq!(SupportedFileType::detect(".txt"), None);
}

#[test]
fn kinds_by_extension() {
    assert_eq!(SupportedFileType::from_extension("TXT"), Some(SupportedFileType::Txt));
    assert_eq!(SupportedFileType::from_extension("md"), Some(SupportedFileType::Markdown));
    assert_eq!(SupportedFileType::from_extension("epub"), Some(SupportedFileType::Epub));
    assert_eq!(SupportedFileType::from_extension(""), None);
    assert_eq!(SupportedFileType::from_extension("text"), None);
}

#[test]
fn lists_supported_extensions() {
    assert_eq!(
        SupportedFileType::supported_extensions(),
        &["txt", "md", "html", "htm", "epub"]
    );
}
