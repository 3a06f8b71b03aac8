//! What is decided while an EPUB archive is read: which entries matter, what
//! the package document says about the book, and how a chapter is titled.
//! Opening the archive and reading its entries is left to the caller.

use vstd::prelude::*;
use vstd::string::StringExecFns;
use std::path::Path;
use quick_xml::events::Event;
use crate::html::{document_text, extract_text_from_html};
use crate::models::{EpubBook, EpubChapter};
use crate::text::{
    ascii_lowercase, chars_of, ends_with, ends_with_chars, find_chars, first_match, is_blank,
    owned_view, same_text, string_from_chars, string_from_range,
    to_ascii_lowercase, trim, trim_bounds,
};

verus! {

/// What an archive entry is, judged by its name.
#[derive(Debug, Clone, Copy, PartialEq, Eq, Structural)]
pub enum EntryKind {
    /// The package document, which names title and author.
    Metadata,
    /// A chapter.
    Chapter,
    /// Anything else.
    Other,
}

/// What an archive entry is, judged by its name in any letter case: `.opf`
/// marks the package document, and `.xhtml`, `.html` and `.htm` mark a
/// chapter.
pub open spec fn entry_kind_of(name: Seq<char>) -> EntryKind {
    let lower = ascii_lowercase(name);
    if ends_with(lower, ".opf"@) {
        EntryKind::Metadata
    } else if ends_with(lower, ".xhtml"@) || ends_with(lower, ".html"@) || ends_with(
        lower,
        ".htm"@,
    ) {
        EntryKind::Chapter
    } else {
        EntryKind::Other
    }
}

/// What an archive entry is, judged by its name.
pub fn entry_kind(name: &str) -> (kind: EntryKind)
    ensures
        kind == entry_kind_of(name@),
{
    let lower = to_ascii_lowercase(&chars_of(name));
    if ends_with_chars(&lower, ".opf") {
        EntryKind::Metadata
    } else if ends_with_chars(&lower, ".xhtml") || ends_with_chars(&lower, ".html")
        || ends_with_chars(&lower, ".htm") {
        EntryKind::Chapter
    } else {
        EntryKind::Other
    }
}

/// What an XML reader reports that matters here.
#[derive(Debug, PartialEq, Eq)]
pub enum XmlEvent {
    /// An element opens; the text is its name as written.
    Start(String),
    /// Text between tags, as written.
    Text(String),
}

/// The mathematical form of an [`XmlEvent`].
pub ghost enum XmlEventView {
    Start(Seq<char>),
    Text(Seq<char>),
}

impl View for XmlEvent {
    type V = XmlEventView;

    open spec fn view(&self) -> XmlEventView {
        match self {
            XmlEvent::Start(name) => XmlEventView::Start(name@),
            XmlEvent::Text(text) => XmlEventView::Text(text@),
        }
    }
}

/// The views of the events, in order.
pub open spec fn event_views(events: Seq<XmlEvent>) -> Seq<XmlEventView> {
    events.map_values(|event: XmlEvent| event@)
}

/// The start and text events that a `quick_xml::Reader` with `trim_text`
/// switched on reports for `xml`, in order, up to the end of the document or
/// the reader's first error.
pub uninterp spec fn xml_events(xml: Seq<char>) -> Seq<XmlEventView>;

/// Reads `xml` with `quick_xml::Reader::from_str`, with `trim_text` switched
/// on, and keeps of what `Reader::read_event` reports the name of every
/// start tag and the content of every text, until the document ends or the
/// reader fails. The contract only claims that the outcome is a function of
/// the document.
#[verifier::external_body]
fn read_xml_events(xml: &str) -> (events: Vec<XmlEvent>)
    ensures
        event_views(events@) == xml_events(xml@),
{
    let mut reader = quick_xml::Reader::from_str(xml);
    reader.config_mut().trim_text(true);
    let mut events = Vec::new();
    loop {
        match reader.read_event() {
            Ok(Event::Start(tag)) => events.push(XmlEvent::Start(tag.name().into_inner().to_owned())),
            Ok(Event::Text(text)) => events.push(XmlEvent::Text(text.into_inner().into_owned())),
            Ok(Event::Eof) | Err(_) => break,
            Ok(_) => {},
        }
    }
    events
}

/// What is known of a book while its package document is read.
pub ghost struct MetadataScan {
    /// The name of the element that opened last, in lower case.
    pub current_tag: Seq<char>,
    pub title: Option<Seq<char>>,
    pub author: Option<Seq<char>>,
}

/// Whether an element of this name holds the book's title.
pub open spec fn names_title(tag: Seq<char>) -> bool {
    tag == "dc:title"@ || ends_with(tag, ":title"@)
}

/// Whether an element of this name holds the book's author.
pub open spec fn names_author(tag: Seq<char>) -> bool {
    tag == "dc:creator"@ || ends_with(tag, ":creator"@)
}

/// What is known after one more event. A start tag is remembered. A text
/// that is not blank becomes the title if none is known and the last start
/// tag names a title, and the author likewise.
pub open spec fn scan_step(scan: MetadataScan, event: XmlEventView) -> MetadataScan {
    match event {
        XmlEventView::Start(name) => MetadataScan { current_tag: ascii_lowercase(name), ..scan },
        XmlEventView::Text(text) => {
            let value = trim(text);
            if value.len() == 0 {
                scan
            } else {
                MetadataScan {
                    title: if scan.title is None && names_title(scan.current_tag) {
                        Some(value)
                    } else {
                        scan.title
                    },
                    author: if scan.author is None && names_author(scan.current_tag) {
                        Some(value)
                    } else {
                        scan.author
                    },
                    ..scan
                }
            }
        },
    }
}

/// What is known after all the events.
pub open spec fn scan_events(events: Seq<XmlEventView>) -> MetadataScan
    decreases events.len(),
{
    if events.len() == 0 {
        MetadataScan { current_tag: Seq::empty(), title: None, author: None }
    } else {
        scan_step(scan_events(events.drop_last()), events.last())
    }
}

/// The title and the author that the events of a package document name.
pub fn opf_metadata(events: &Vec<XmlEvent>) -> (found: (Option<String>, Option<String>))
    ensures
        owned_view(found.0) == scan_events(event_views(events@)).title,
        owned_view(found.1) == scan_events(event_views(events@)).author,
{
    let ghost views = event_views(events@);
    let mut current_tag: Vec<char> = Vec::new();
    let mut title: Option<String> = None;
    let mut author: Option<String> = None;
    let mut i: usize = 0;
    assert(views.take(0) =~= Seq::<XmlEventView>::empty());
    while i < events.len()
        invariant
            i <= events.len(),
            views == event_views(events@),
            scan_events(views.take(i as int)) == (MetadataScan {
                current_tag: current_tag@,
                title: owned_view(title),
                author: owned_view(author),
            }),
        decreases events.len() - i,
    {
        proof {
            assert(views.take(i + 1).drop_last() =~= views.take(i as int));
            assert(views.take(i + 1).last() == events@[i as int]@);
        }
        match &events[i] {
            XmlEvent::Start(name) => {
                current_tag = to_ascii_lowercase(&chars_of(name.as_str()));
            },
            XmlEvent::Text(text) => {
                let v = chars_of(text.as_str());
                let (lo, hi) = trim_bounds(&v);
                if lo < hi {
                    let tag = string_from_chars(&current_tag);
                    if title.is_none() && (same_text(tag.as_str(), "dc:title") || ends_with_chars(
                        &current_tag,
                        ":title",
                    )) {
                        title = Some(string_from_range(&v, lo, hi));
                    }
                    if author.is_none() && (same_text(tag.as_str(), "dc:creator")
                        || ends_with_chars(&current_tag, ":creator")) {
                        author = Some(string_from_range(&v, lo, hi));
                    }
                }
            },
        }
        i += 1;
    }
    assert(views.take(i as int) =~= views);
    (title, author)
}

/// The title and the author that a package document names.
pub fn parse_opf_metadata(opf_xml: &str) -> (found: (Option<String>, Option<String>))
    ensures
        owned_view(found.0) == scan_events(xml_events(opf_xml@)).title,
        owned_view(found.1) == scan_events(xml_events(opf_xml@)).author,
{
    let events = read_xml_events(opf_xml);
    opf_metadata(&events)
}

/// `c`, or a space in place of a line feed, a carriage return or a tab.
pub open spec fn without_break(c: char) -> char {
    if c == '\n' || c == '\r' || c == '\t' {
        ' '
    } else {
        c
    }
}

/// The title of an HTML document: what stands between the first `<title>`
/// and the first `</title>` after it, in any letter case, with line breaks
/// and tabs turned into spaces and trimmed. `None` where a tag is missing or
/// nothing is left.
pub open spec fn html_title(html: Seq<char>) -> Option<Seq<char>> {
    let lower = ascii_lowercase(html);
    match first_match(lower, "<title>"@) {
        None => None,
        Some(open) => {
            let start = open + 7;
            match first_match(lower.skip(start), "</title>"@) {
                None => None,
                Some(length) => {
                    let raw = html.subrange(start, start + length);
                    let value = trim(raw.map_values(|c: char| without_break(c)));
                    if value.len() == 0 {
                        None
                    } else {
                        Some(value)
                    }
                },
            }
        },
    }
}

/// The title of an HTML document, if it has one.
pub fn parse_html_title(html: &str) -> (title: Option<String>)
    ensures
        owned_view(title) == html_title(html@),
{
    let v = chars_of(html);
    let lower = to_ascii_lowercase(&v);
    let open_tag = chars_of("<title>");
    let close_tag = chars_of("</title>");
    proof {
        reveal_strlit("<title>");
        assert(lower@.skip(0) =~= lower@);
    }
    let open = match find_chars(&lower, 0, &open_tag) {
        None => {
            return None;
        },
        Some(open) => open,
    };
    let start = open + 7;
    let length = match find_chars(&lower, start, &close_tag) {
        None => {
            return None;
        },
        Some(length) => length,
    };
    let mut value: Vec<char> = Vec::new();
    let mut i: usize = start;
    let ghost raw = v@.subrange(start as int, start + length);
    while i < start + length
        invariant
            start <= i <= start + length <= v.len(),
            raw == v@.subrange(start as int, start + length),
            value@.len() == i - start,
            forall|k: int| 0 <= k < i - start ==> value@[k] == without_break(#[trigger] raw[k]),
        decreases start + length - i,
    {
        let c = v[i];
        assert(raw[i - start] == c);
        if c == '\n' || c == '\r' || c == '\t' {
            value.push(' ');
        } else {
            value.push(c);
        }
        i += 1;
    }
    assert(value@ =~= raw.map_values(|c: char| without_break(c)));
    let (lo, hi) = trim_bounds(&value);
    if lo < hi {
        Some(string_from_range(&value, lo, hi))
    } else {
        None
    }
}

/// The file stem of the path written as `path`, as `std::path::Path::new`
/// and `Path::file_stem` find it, made text by `OsStr::to_string_lossy`.
/// Nothing is claimed of the result: what counts as a file name depends on
/// the platform's separators.
#[verifier::external_body]
fn file_stem_of(path: &str) -> (stem: Option<String>) {
    match Path::new(path).file_stem() {
        Some(stem) => Some(stem.to_string_lossy().into_owned()),
        None => None,
    }
}

/// `c`, or a space in place of an underscore or a hyphen.
pub open spec fn without_joiner(c: char) -> char {
    if c == '_' || c == '-' {
        ' '
    } else {
        c
    }
}

/// The title of a chapter that names none: its file stem with underscores
/// and hyphens turned into spaces, and a fixed title where there is no stem
/// or nothing but white space is left of it.
pub open spec fn title_of_stem(stem: Option<Seq<char>>) -> Seq<char> {
    match stem {
        Some(stem) => {
            let spaced = stem.map_values(|c: char| without_joiner(c));
            if trim(spaced).len() == 0 {
                "Untitled Chapter"@
            } else {
                spaced
            }
        },
        None => "Untitled Chapter"@,
    }
}

/// The title of a chapter that names none, given its file stem.
pub fn title_from_stem(stem: Option<String>) -> (title: String)
    ensures
        title@ == title_of_stem(owned_view(stem)),
{
    match stem {
        Some(stem) => {
            let v = chars_of(stem.as_str());
            let mut spaced: Vec<char> = Vec::new();
            let mut i: usize = 0;
            while i < v.len()
                invariant
                    i <= v.len(),
                    spaced@.len() == i,
                    forall|k: int| 0 <= k < i ==> spaced@[k] == without_joiner(#[trigger] v@[k]),
                decreases v.len() - i,
            {
                let c = v[i];
                if c == '_' || c == '-' {
                    spaced.push(' ');
                } else {
                    spaced.push(c);
                }
                i += 1;
            }
            assert(spaced@ =~= v@.map_values(|c: char| without_joiner(c)));
            let (lo, hi) = trim_bounds(&spaced);
            if lo < hi {
                string_from_chars(&spaced)
            } else {
                "Untitled Chapter".to_owned()
            }
        },
        None => "Untitled Chapter".to_owned(),
    }
}

/// The title of a chapter that names none, judged by the path of its entry.
pub fn infer_title_from_path(path: &str) -> (title: String)
    ensures
        exists|stem: Option<Seq<char>>| title@ == #[trigger] title_of_stem(stem),
{
    let stem = file_stem_of(path);
    let ghost given = owned_view(stem);
    let title = title_from_stem(stem);
    assert(title@ == title_of_stem(given));
    title
}

/// The title of a chapter: the one its document names, and otherwise the one
/// made of its file stem.
pub open spec fn chapter_title_of(raw_html: Seq<char>, stem: Option<Seq<char>>) -> Seq<char> {
    match html_title(raw_html) {
        Some(title) => title,
        None => title_of_stem(stem),
    }
}

/// The title of a book: the one its package document names, then the file
/// stem of the archive, then a fixed title.
pub open spec fn book_title_of(named: Option<Seq<char>>, stem: Option<Seq<char>>) -> Seq<char> {
    match named {
        Some(title) => title,
        None => match stem {
            Some(stem) => stem,
            None => "Untitled EPUB"@,
        },
    }
}

/// The mathematical form of an [`EpubChapter`].
pub ghost struct ChapterView {
    pub title: Seq<char>,
    pub path: Seq<char>,
    pub content: Seq<char>,
    pub order: usize,
}

/// The mathematical form of a chapter.
pub open spec fn chapter_view(chapter: EpubChapter) -> ChapterView {
    ChapterView {
        title: chapter.title@,
        path: chapter.path@,
        content: chapter.content@,
        order: chapter.order,
    }
}

/// The views of the chapters, in order.
pub open spec fn chapter_views(chapters: Seq<EpubChapter>) -> Seq<ChapterView> {
    chapters.map_values(|chapter: EpubChapter| chapter_view(chapter))
}

/// The contents of the chapters, each separated from the next by an empty
/// line.
pub open spec fn joined_contents(chapters: Seq<ChapterView>) -> Seq<char>
    decreases chapters.len(),
{
    if chapters.len() == 0 {
        Seq::empty()
    } else if chapters.len() == 1 {
        chapters[0].content
    } else {
        joined_contents(chapters.drop_last()) + "\n\n"@ + chapters.last().content
    }
}

/// The text of a book: the contents of its chapters, each separated from the
/// next by an empty line.
pub fn extract_text(book: &EpubBook) -> (text: String)
    ensures
        text@ == joined_contents(chapter_views(book.chapters@)),
{
    let ghost views = chapter_views(book.chapters@);
    let mut text = String::new();
    let mut i: usize = 0;
    assert(views.take(0) =~= Seq::<ChapterView>::empty());
    while i < book.chapters.len()
        invariant
            i <= book.chapters.len(),
            views == chapter_views(book.chapters@),
            text@ == joined_contents(views.take(i as int)),
        decreases book.chapters.len() - i,
    {
        proof {
            assert(views.take(i + 1).drop_last() =~= views.take(i as int));
            assert(views.take(i + 1).last().content == book.chapters@[i as int].content@);
            if i == 1 {
                assert(views.take(1)[0] == views[0]);
            }
            if i > 0 {
                assert(views.take(i as int).len() == i);
            }
        }
        if i > 0 {
            text.append("\n\n");
        }
        text.append(book.chapters[i].content.as_str());
        proof {
            if i == 0 {
                assert(views.take(1)[0].content == book.chapters@[0].content@);
                assert(text@ =~= book.chapters@[0].content@);
            }
        }
        i += 1;
    }
    assert(views.take(i as int) =~= views);
    text
}

/// A book that is being put together from the entries of its archive.
#[derive(Debug)]
pub struct EpubDraft {
    title: Option<String>,
    author: Option<String>,
    chapters: Vec<EpubChapter>,
}

/// The mathematical form of an [`EpubDraft`].
pub ghost struct DraftView {
    pub title: Option<Seq<char>>,
    pub author: Option<Seq<char>>,
    pub chapters: Seq<ChapterView>,
}

impl DraftView {
    /// What holds of every draft: each chapter knows its place.
    pub open spec fn well_formed(self) -> bool {
        forall|i: int| 0 <= i < self.chapters.len() ==> (#[trigger] self.chapters[i]).order == i
    }

    /// The draft after a package document that names `title` and `author`
    /// was read: what was known before stays.
    pub open spec fn with_metadata(
        self,
        title: Option<Seq<char>>,
        author: Option<Seq<char>>,
    ) -> DraftView {
        DraftView {
            title: if self.title is None {
                title
            } else {
                self.title
            },
            author: if self.author is None {
                author
            } else {
                self.author
            },
            ..self
        }
    }

    /// The draft after a chapter document was read whose readable text is
    /// `content`: a chapter without text is left out, and any other is added
    /// behind the chapters there are.
    pub open spec fn with_chapter(
        self,
        path: Seq<char>,
        raw_html: Seq<char>,
        content: Seq<char>,
        stem: Option<Seq<char>>,
    ) -> DraftView {
        if trim(content).len() == 0 {
            self
        } else {
            DraftView {
                chapters: self.chapters.push(
                    ChapterView {
                        title: chapter_title_of(raw_html, stem),
                        path,
                        content,
                        order: self.chapters.len() as usize,
                    },
                ),
                ..self
            }
        }
    }
}

impl View for EpubDraft {
    type V = DraftView;

    closed spec fn view(&self) -> DraftView {
        DraftView {
            title: owned_view(self.title),
            author: owned_view(self.author),
            chapters: chapter_views(self.chapters@),
        }
    }
}

impl EpubDraft {
    #[verifier::type_invariant]
    closed spec fn is_consistent(&self) -> bool {
        self@.well_formed()
    }

    /// A draft of which nothing is known yet.
    pub fn new() -> (draft: Self)
        ensures
            draft@ == (DraftView { title: None, author: None, chapters: Seq::empty() }),
    {
        let draft = EpubDraft { title: None, author: None, chapters: Vec::new() };
        assert(draft@.chapters =~= Seq::empty());
        draft
    }

    /// Takes title and author from a package document, as far as they are
    /// not known yet.
    pub fn add_metadata(&mut self, opf_xml: &str)
        ensures
            final(self)@ == old(self)@.with_metadata(
                scan_events(xml_events(opf_xml@)).title,
                scan_events(xml_events(opf_xml@)).author,
            ),
    {
        proof {
            use_type_invariant(&*self);
        }
        let (title, author) = parse_opf_metadata(opf_xml);
        if self.title.is_none() {
            self.title = title;
        }
        if self.author.is_none() {
            self.author = author;
        }
    }

    /// Adds the chapter whose entry is named `path` and holds `raw_html`,
    /// unless the document has no readable text.
    pub fn add_chapter(&mut self, path: &str, raw_html: &str)
        ensures
            exists|stem: Option<Seq<char>>|
                final(self)@ == #[trigger] old(self)@.with_chapter(
                    path@,
                    raw_html@,
                    document_text(raw_html@),
                    stem,
                ),
    {
        proof {
            use_type_invariant(&*self);
        }
        let ghost before = self@;
        let content = extract_text_from_html(raw_html);
        if is_blank(content.as_str()) {
            assert(self@ == before.with_chapter(path@, raw_html@, content@, None));
            return ;
        }
        let ghost mut stem: Option<Seq<char>> = None;
        let title = match parse_html_title(raw_html) {
            Some(title) => title,
            None => {
                let title = infer_title_from_path(path);
                proof {
                    stem = choose|stem: Option<Seq<char>>|
                        title@ == #[trigger] title_of_stem(stem);
                }
                title
            },
        };
        let mut chapters: Vec<EpubChapter> = Vec::new();
        core::mem::swap(&mut self.chapters, &mut chapters);
        let order = chapters.len();
        let chapter = EpubChapter { title, path: path.to_owned(), content, order };
        chapters.push(chapter);
        proof {
            assert(chapter_views(chapters@) =~= before.chapters.push(
                ChapterView {
                    title: chapter_title_of(raw_html@, stem),
                    path: path@,
                    content: content@,
                    order,
                },
            ));
            assert forall|i: int| 0 <= i < chapters@.len() implies (#[trigger] chapter_views(
                chapters@,
            )[i]).order == i by {
                if i < order {
                    assert(chapter_views(chapters@)[i] == before.chapters[i]);
                }
            }
        }
        self.chapters = chapters;
        assert(self@ == before.with_chapter(path@, raw_html@, content@, stem));
    }

    /// The book, titled as its package document says or else after the file
    /// stem of its archive.
    pub fn finish(self, archive_stem: Option<String>) -> (book: EpubBook)
        ensures
            book.title@ == book_title_of(self@.title, owned_view(archive_stem)),
            owned_view(book.author) == self@.author,
            chapter_views(book.chapters@) == self@.chapters,
            self@.well_formed(),
    {
        proof {
            use_type_invariant(&self);
        }
        let title = match self.title {
            Some(title) => title,
            None => match archive_stem {
                Some(stem) => stem,
                None => "Untitled EPUB".to_owned(),
            },
        };
        EpubBook { title, author: self.author, chapters: self.chapters }
    }
}

} // verus!
