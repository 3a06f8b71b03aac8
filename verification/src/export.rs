//! The fixed parts of a word-processor document, the markup of its body, and
//! the style sheet of an HTML report. Writing them out is left to the caller.

use vstd::prelude::*;
use vstd::string::StringExecFns;
use crate::html::{xml_escape, xml_escaped};
use crate::language::{first_index_of, lemma_first_index_of};
use crate::text::{chars_of, string_from_range};

verus! {

/// The part that lists the content types of a document's archive.
pub const CONTENT_TYPES_XML: &'static str = r#"<?xml version="1.0" encoding="UTF-8"?>
<Types xmlns="http://schemas.openxmlformats.org/package/2006/content-types">
  <Default Extension="rels" ContentType="application/vnd.openxmlformats-package.relationships+xml"/>
  <Default Extension="xml" ContentType="application/xml"/>
  <Override PartName="/word/document.xml" ContentType="application/vnd.openxmlformats-officedocument.wordprocessingml.document.main+xml"/>
</Types>"#;

/// The part that points from the archive to the document.
pub const ROOT_RELATIONSHIPS_XML: &'static str = r#"<?xml version="1.0" encoding="UTF-8"?>
<Relationships xmlns="http://schemas.openxmlformats.org/package/2006/relationships">
  <Relationship Id="rId1" Type="http://schemas.openxmlformats.org/officeDocument/2006/relationships/officeDocument" Target="word/document.xml"/>
</Relationships>"#;

/// The part that lists what the document points to: nothing.
pub const DOCUMENT_RELATIONSHIPS_XML: &'static str = r#"<?xml version="1.0" encoding="UTF-8"?>
<Relationships xmlns="http://schemas.openxmlformats.org/package/2006/relationships"/>"#;

/// The style sheet of an HTML report.
pub const BASE_HTML_STYLE: &'static str = r#"
      :root {
        color-scheme: light dark;
      }
      body {
        font-family: "SF Pro Display", "Avenir Next", "Segoe UI", sans-serif;
        margin: 0;
        padding: 24px;
        background: linear-gradient(180deg, #0f141c 0%, #101823 40%, #0a1119 100%);
        color: #e8edf4;
      }
      .container {
        max-width: 980px;
        margin: 0 auto;
        background: rgba(22, 31, 45, 0.85);
        border: 1px solid rgba(110, 151, 193, 0.24);
        border-radius: 18px;
        padding: 24px;
        box-shadow: 0 24px 60px rgba(0, 0, 0, 0.32);
      }
      h1, h2, h3, h4 {
        margin-top: 0;
      }
      .block {
        background: rgba(6, 10, 16, 0.6);
        border: 1px solid rgba(153, 187, 222, 0.17);
        border-radius: 12px;
        padding: 14px;
        white-space: pre-wrap;
        line-height: 1.5;
      }
      .metadata table {
        width: 100%;
        border-collapse: collapse;
      }
      .metadata th,
      .metadata td {
        text-align: left;
        padding: 8px;
        border-bottom: 1px solid rgba(144, 177, 205, 0.22);
      }
      .item {
        border-top: 1px solid rgba(132, 168, 198, 0.22);
        padding-top: 16px;
        margin-top: 16px;
      }
    "#;

/// The part that lists the content types of a document's archive.
pub fn content_types_xml() -> (part: &'static str)
    ensures
        part@ == CONTENT_TYPES_XML@,
{
    CONTENT_TYPES_XML
}

/// The part that points from the archive to the document.
pub fn root_relationships_xml() -> (part: &'static str)
    ensures
        part@ == ROOT_RELATIONSHIPS_XML@,
{
    ROOT_RELATIONSHIPS_XML
}

/// The part that lists what the document points to: nothing.
pub fn document_relationships_xml() -> (part: &'static str)
    ensures
        part@ == DOCUMENT_RELATIONSHIPS_XML@,
{
    DOCUMENT_RELATIONSHIPS_XML
}

/// The style sheet of an HTML report.
pub fn base_html_style() -> (part: &'static str)
    ensures
        part@ == BASE_HTML_STYLE@,
{
    BASE_HTML_STYLE
}

/// `line` without the carriage return at its end, if it has one there.
pub open spec fn without_carriage_return(line: Seq<char>) -> Seq<char> {
    if line.len() > 0 && line.last() == '\r' {
        line.drop_last()
    } else {
        line
    }
}

/// The lines of `text`. A line ends with a line feed, or with a carriage
/// return and a line feed; neither belongs to the line. What follows the
/// last line feed is a line too, unless it is empty.
pub open spec fn lines_of(text: Seq<char>) -> Seq<Seq<char>>
    decreases text.len(),
{
    if text.len() == 0 {
        Seq::empty()
    } else {
        let i = first_index_of(text, '\n');
        if 0 <= i < text.len() {
            seq![without_carriage_return(text.take(i))] + lines_of(text.skip(i + 1))
        } else {
            seq![text]
        }
    }
}

/// One line as a paragraph of a document.
pub open spec fn paragraph_of(line: Seq<char>) -> Seq<char> {
    "<w:p><w:r><w:t xml:space=\"preserve\">"@ + xml_escaped(line) + "</w:t></w:r></w:p>"@
}

/// The lines as paragraphs, one after the other.
pub open spec fn paragraphs_of(lines: Seq<Seq<char>>) -> Seq<char>
    decreases lines.len(),
{
    if lines.len() == 0 {
        Seq::empty()
    } else {
        paragraph_of(lines[0]) + paragraphs_of(lines.drop_first())
    }
}

/// The document part for `text`: one paragraph for each line.
pub open spec fn document_xml_of(text: Seq<char>) -> Seq<char> {
    "<?xml version=\"1.0\" encoding=\"UTF-8\"?><w:document xmlns:w=\"http://schemas.openxmlformats.org/wordprocessingml/2006/main\"><w:body>"@
        + paragraphs_of(lines_of(text)) + "<w:sectPr/></w:body></w:document>"@
}

/// Appends `line` to `out` as a paragraph.
fn push_paragraph(out: &mut String, line: &str)
    ensures
        final(out)@ == old(out)@ + paragraph_of(line@),
{
    out.append("<w:p><w:r><w:t xml:space=\"preserve\">");
    out.append(xml_escape(line).as_str());
    out.append("</w:t></w:r></w:p>");
    assert(out@ =~= old(out)@ + paragraph_of(line@));
}

/// The document part for `text`: one paragraph for each line.
pub fn document_xml(text: &str) -> (xml: String)
    ensures
        xml@ == document_xml_of(text@),
{
    let v = chars_of(text);
    let mut body = String::new();
    let mut start: usize = 0;
    let mut i: usize = 0;
    assert(v@.skip(0) =~= v@);
    while i < v.len()
        invariant
            start <= i <= v.len(),
            forall|k: int| start <= k < i ==> v@[k] != '\n',
            paragraphs_of(lines_of(v@)) == body@ + paragraphs_of(lines_of(v@.skip(start as int))),
        decreases v.len() - i,
    {
        if v[i] == '\n' {
            let ghost rest = v@.skip(start as int);
            let end: usize = if i > start && v[i - 1] == '\r' {
                i - 1
            } else {
                i
            };
            let line = string_from_range(&v, start, end);
            proof {
                assert forall|k: int| 0 <= k < i - start implies rest[k] != '\n' by {
                    assert(rest[k] == v@[start + k]);
                }
                lemma_first_index_of(rest, '\n', i - start);
                assert(rest.take(i - start) =~= v@.subrange(start as int, i as int));
                assert(line@ =~= without_carriage_return(rest.take(i - start)));
                assert(rest.skip(i - start + 1) =~= v@.skip(i + 1));
                let later = lines_of(v@.skip(i + 1));
                assert(lines_of(rest) == seq![line@] + later);
                assert((seq![line@] + later).drop_first() =~= later);
            }
            let ghost before = body@;
            push_paragraph(&mut body, line.as_str());
            proof {
                assert(before + (paragraph_of(line@) + paragraphs_of(lines_of(v@.skip(i + 1))))
                    =~= body@ + paragraphs_of(lines_of(v@.skip(i + 1))));
            }
            start = i + 1;
        }
        i += 1;
    }
    let ghost rest = v@.skip(start as int);
    if start < v.len() {
        let line = string_from_range(&v, start, v.len());
        proof {
            assert forall|k: int| 0 <= k < rest.len() implies rest[k] != '\n' by {
                assert(rest[k] == v@[start + k]);
            }
            lemma_first_index_of(rest, '\n', rest.len() as int);
            assert(line@ =~= rest);
            assert(lines_of(rest) == seq![rest]);
            assert(seq![rest].drop_first() =~= Seq::<Seq<char>>::empty());
            assert(paragraphs_of(seq![rest].drop_first()) =~= Seq::<char>::empty());
            assert(seq![rest][0] == rest);
            assert(paragraphs_of(seq![rest]) =~= paragraph_of(rest));
        }
        push_paragraph(&mut body, line.as_str());
    } else {
        assert(paragraphs_of(lines_of(rest)) =~= Seq::<char>::empty());
    }
    assert(body@ =~= paragraphs_of(lines_of(text@)));
    let mut xml =
        "<?xml version=\"1.0\" encoding=\"UTF-8\"?><w:document xmlns:w=\"http://schemas.openxmlformats.org/wordprocessingml/2006/main\"><w:body>".to_owned();
    xml.append(body.as_str());
    xml.append("<w:sectPr/></w:body></w:document>");
    xml
}

} // verus!
