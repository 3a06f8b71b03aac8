use translation_fiesta_rust::epub::{
    extract_text, entry_kind, infer_title_from_path, opf_metadata, parse_html_title,
    parse_opf_metadata, title_from_stem, EntryKind, EpubDraft, XmlEvent,
};
use translation_fiesta_rust::models::{EpubBook, EpubChapter};

#[test]
fn parses_basic_opf_metadata() {
    let xml = r#"
            <package>
              <metadata>
                <dc:title>Book Title</dc:title>
                <dc:creator>Author Name</dc:creator>
              </metadata>
            </package>
        "#;

    let (title, author) = parse_opf_metadata(xml);
    assert_eq!(title.as_deref(), Some("Book Title"));
    assert_eq!(author.as_deref(), Some("Author Name"));
}

#[test]
fn the_first_title_and_author_win() {
    let xml = "<m><DC:Title> First </DC:Title><dc:title>Second</dc:title>\
               <opf:creator>Ann</opf:creator><dc:creator>Bob</dc:creator></m>";
    let (title, author) = parse_opf_metadata(xml);
    assert_eq!(title.as_deref(), Some("First"));
    assert_eq!(author.as_deref(), Some("Ann"));
}

#[test]
fn a_document_without_metadata_names_nothing() {
    assert_eq!(parse_opf_metadata(""), (None, None));
    assert_eq!(parse_opf_metadata("<package><title>plain</title></package>"), (None, None));
    assert_eq!(
        parse_opf_metadata("<package><dc:title>  </dc:title></package>"),
        (None, None)
    );
}

#[test]
fn metadata_is_read_from_events() {
    let events = vec![
        XmlEvent::Text("stray".to_string()),
        XmlEvent::Start("x:TITLE".to_string()),
        XmlEvent::Text("   ".to_string()),
        XmlEvent::Text(" A Title ".to_string()),
        XmlEvent::Text("ignored".to_string()),
        XmlEvent::Start("dc:creator".to_string()),
        XmlEvent::Start("other".to_string()),
        XmlEvent::Text("not an author".to_string()),
        XmlEvent::Start(":creator".to_string()),
        XmlEvent::Text("Author".to_string()),
    ];
    assert_eq!(
        opf_metadata(&events),
        (Some("A Title".to_string()), Some("Author".to_string()))
    );
    assert_eq!(opf_metadata(&Vec::new()), (None, None));
}

#[test]
fn entries_are_told_apart_by_their_names() {
    assert_eq!(entry_kind("OEBPS/content.opf"), EntryKind::Metadata);
    assert_eq!(entry_kind("content.OPF"), EntryKind::Metadata);
    assert_eq!(entry_kind("text/ch1.xhtml"), EntryKind::Chapter);
    assert_eq!(entry_kind("text/ch1.HTML"), EntryKind::Chapter);
    assert_eq!(entry_kind("ch1.htm"), EntryKind::Chapter);
    assert_eq!(entry_kind("images/cover.png"), EntryKind::Other);
    assert_eq!(entry_kind("mimetype"), EntryKind::Other);
    assert_eq!(entry_kind("htm"), EntryKind::Other);
    assert_eq!(entry_kind(""), EntryKind::Other);
}

#[test]
fn finds_the_title_of_a_document() {
    assert_eq!(
        parse_html_title("<html><head><TITLE> Chapter\n One\t</TITLE></head></html>"),
        Some("Chapter  One".to_string())
    );
    assert_eq!(
        parse_html_title("<title>a</title><title>b</title>"),
        Some("a".to_string())
    );
    assert_eq!(parse_html_title("<title></title>"), None);
    assert_eq!(parse_html_title("<title> \r\n </title>"), None);
    assert_eq!(parse_html_title("<title>open only"), None);
    assert_eq!(parse_html_title("</title><p>no opening</p>"), None);
    assert_eq!(parse_html_title("<title lang=\"en\">attr</title>"), None);
    assert_eq!(parse_html_title(""), None);
    assert_eq!(
        parse_html_title("\u{e9}<title>\u{3053}\u{3093}</title>"),
        Some("\u{3053}\u{3093}".to_string())
    );
}

#[test]
fn titles_a_chapter_after_its_file() {
    assert_eq!(title_from_stem(Some("chapter_one-final".to_string())), "chapter one final");
    assert_eq!(title_from_stem(Some("__-".to_string())), "Untitled Chapter");
    assert_eq!(title_from_stem(Some(String::new())), "Untitled Chapter");
    assert_eq!(title_from_stem(None), "Untitled Chapter");
    assert_eq!(infer_title_from_path("text/part_1.xhtml"), "part 1");
    assert_eq!(infer_title_from_path(""), "Untitled Chapter");
}

#[test]
fn joins_the_chapters_of_a_book() {
    let chapter = |order: usize, content: &str| EpubChapter {
        title: format!("Chapter {}", order),
        path: format!("ch{}.xhtml", order),
        content: content.to_string(),
        order,
    };
    let mut book = EpubBook { title: "T".to_string(), author: None, chapters: Vec::new() };
    assert_eq!(extract_text(&book), "");
    book.chapters.push(chapter(0, "one"));
    assert_eq!(extract_text(&book), "one");
    book.chapters.push(chapter(1, "two"));
    book.chapters.push(chapter(2, "three"));
    assert_eq!(extract_text(&book), "one\n\ntwo\n\nthree");
}

#[test]
fn a_draft_collects_metadata_and_chapters() {
    let mut draft = EpubDraft::new();
    draft.add_chapter("text/ch_1.xhtml", "<html><body><p>First chapter</p></body></html>");
    draft.add_metadata("<m><dc:title>The Book</dc:title></m>");
    draft.add_chapter("text/empty.xhtml", "<html><body><script>x</script></body></html>");
    draft.add_metadata("<m><dc:title>Other</dc:title><dc:creator>Ann</dc:creator></m>");
    draft.add_chapter(
        "text/ch2.xhtml",
        "<html><head><title>Second</title></head><body>More   text</body></html>",
    );
    let book = draft.finish(Some("archive".to_string()));
    assert_eq!(book.title, "The Book");
    assert_eq!(book.author.as_deref(), Some("Ann"));
    assert_eq!(book.chapters.len(), 2);
    assert_eq!(book.chapters[0].title, "ch 1");
    assert_eq!(book.chapters[0].path, "text/ch_1.xhtml");
    assert_eq!(book.chapters[0].content, "First chapter");
    assert_eq!(book.chapters[0].order, 0);
    assert_eq!(book.chapters[1].title, "Second");
    assert_eq!(book.chapters[1].content, "Second More text");
    assert_eq!(book.chapters[1].order, 1);
    assert_eq!(extract_text(&book), "First chapter\n\nSecond More text");
}

#[test]
fn a_book_without_a_title_is_named_after_its_archive() {
    assert_eq!(EpubDraft::new().finish(Some("my book".to_string())).title, "my book");
    assert_eq!(EpubDraft::new().finish(None).title, "Untitled EPUB");
    assert_eq!(EpubDraft::new().finish(None).author, None);
}
