//! Text helpers for markup: escaping and white-space normalisation.

use vstd::prelude::*;
use vstd::string::StringExecFns;
use crate::text::{
    char_is_whitespace, chars_of, is_blank, is_whitespace, string_from_range, trim, trim_bounds,
};

verus! {

/// What stands for `c` in HTML text: an entity for `&`, `<`, `>`, `"` and
/// `'`, and the character itself otherwise.
pub open spec fn html_escaped_char(c: char) -> Seq<char> {
    if c == '&' {
        "&amp;"@
    } else if c == '<' {
        "&lt;"@
    } else if c == '>' {
        "&gt;"@
    } else if c == '"' {
        "&quot;"@
    } else if c == '\'' {
        "&#39;"@
    } else {
        seq![c]
    }
}

/// What stands for `c` in XML text: as in HTML, but for the apostrophe.
pub open spec fn xml_escaped_char(c: char) -> Seq<char> {
    if c == '\'' {
        "&apos;"@
    } else {
        html_escaped_char(c)
    }
}

/// `s` with every character replaced by what stands for it in HTML text.
pub open spec fn html_escaped(s: Seq<char>) -> Seq<char>
    decreases s.len(),
{
    if s.len() == 0 {
        Seq::empty()
    } else {
        html_escaped(s.drop_last()) + html_escaped_char(s.last())
    }
}

/// `s` with every character replaced by what stands for it in XML text.
pub open spec fn xml_escaped(s: Seq<char>) -> Seq<char>
    decreases s.len(),
{
    if s.len() == 0 {
        Seq::empty()
    } else {
        xml_escaped(s.drop_last()) + xml_escaped_char(s.last())
    }
}

/// The words of `s`, each separated from the next by one space: runs of
/// white space inside `s` become a single space, and those at its ends
/// disappear.
pub open spec fn whitespace_normalized(s: Seq<char>) -> Seq<char>
    decreases s.len(),
{
    if s.len() == 0 {
        Seq::empty()
    } else if is_whitespace(s.last()) {
        whitespace_normalized(s.drop_last())
    } else {
        let front = s.drop_last();
        let words = whitespace_normalized(front);
        if front.len() > 0 && is_whitespace(front.last()) && words.len() > 0 {
            words + seq![' ', s.last()]
        } else {
            words.push(s.last())
        }
    }
}

/// The views of the tag names, in order.
pub open spec fn name_views(names: Seq<&'static str>) -> Seq<Seq<char>> {
    names.map_values(|name: &'static str| name@)
}

/// The views of the pieces of text, in order.
pub open spec fn chunk_views(chunks: Seq<String>) -> Seq<Seq<char>> {
    chunks.map_values(|chunk: String| chunk@)
}

/// The text nodes, in document order, of the document that
/// `scraper::Html::parse_document` makes of `html`, once every element that
/// a selector parsed from one of `tags` selects was detached from the tree.
pub uninterp spec fn html_text_nodes(html: Seq<char>, tags: Seq<Seq<char>>) -> Seq<Seq<char>>;

/// Parses `html` with `scraper::Html::parse_document`, detaches every
/// element that `Html::select` finds for a selector that `Selector::parse`
/// makes of one of `tags`, and collects what `ElementRef::text` yields for
/// the root element. The contract only claims that the outcome is a function
/// of the document and the tags. Only the tags of [`skipped_tag_names`] are
/// admitted: none of them selects the root element, which `root_element`
/// must find.
#[verifier::external_body]
fn text_nodes_outside(html: &str, tags: &[&'static str]) -> (chunks: Vec<String>)
    requires
        name_views(tags@) == skipped_tag_names(),
    ensures
        chunk_views(chunks@) == html_text_nodes(html@, name_views(tags@)),
{
    let mut document = scraper::Html::parse_document(html);
    for tag in tags {
        if let Ok(selector) = scraper::Selector::parse(tag) {
            let ids: Vec<_> = document.select(&selector).map(|element| element.id()).collect();
            for id in ids {
                if let Some(mut node) = document.tree.get_mut(id) {
                    node.detach();
                }
            }
        }
    }
    document.root_element().text().map(|chunk| chunk.to_owned()).collect()
}

/// The pieces of text, each trimmed, the blank ones left out, the others
/// separated by single spaces.
pub open spec fn joined_trimmed(chunks: Seq<Seq<char>>) -> Seq<char>
    decreases chunks.len(),
{
    if chunks.len() == 0 {
        Seq::empty()
    } else {
        let front = joined_trimmed(chunks.drop_last());
        let piece = trim(chunks.last());
        if piece.len() == 0 {
            front
        } else if front.len() == 0 {
            piece
        } else {
            front + seq![' '] + piece
        }
    }
}

/// The readable text of a document, given its text nodes.
pub open spec fn readable_text(html: Seq<char>, text_nodes: Seq<Seq<char>>) -> Seq<char> {
    if trim(html).len() == 0 {
        Seq::empty()
    } else {
        whitespace_normalized(joined_trimmed(text_nodes))
    }
}

/// The names of the elements whose text is not for reading.
pub open spec fn skipped_tag_names() -> Seq<Seq<char>> {
    seq!["script"@, "style"@, "code"@, "pre"@, "noscript"@, "iframe"@]
}

/// The readable text of the document `html`, given what the HTML parser
/// finds in it.
pub open spec fn document_text(html: Seq<char>) -> Seq<char> {
    readable_text(html, html_text_nodes(html, skipped_tag_names()))
}

/// The elements whose text is not for reading.
pub fn skipped_tags() -> (tags: &'static [&'static str])
    ensures
        name_views(tags@) == skipped_tag_names(),
{
    let tags: &'static [&'static str] = &["script", "style", "code", "pre", "noscript", "iframe"];
    assert(name_views(tags@) =~= skipped_tag_names());
    tags
}

/// The pieces of text, each trimmed, the blank ones left out, the others
/// separated by single spaces.
pub fn join_trimmed(chunks: &Vec<String>) -> (out: String)
    ensures
        out@ == joined_trimmed(chunk_views(chunks@)),
{
    let ghost views = chunk_views(chunks@);
    let mut out = String::new();
    let mut empty = true;
    let mut i: usize = 0;
    assert(views.take(0) =~= Seq::<Seq<char>>::empty());
    while i < chunks.len()
        invariant
            i <= chunks.len(),
            views == chunk_views(chunks@),
            out@ == joined_trimmed(views.take(i as int)),
            empty == (out@.len() == 0),
        decreases chunks.len() - i,
    {
        let ghost before = out@;
        proof {
            assert(views.take(i + 1).drop_last() =~= views.take(i as int));
            assert(views.take(i + 1).last() == chunks@[i as int]@);
        }
        let v = chars_of(chunks[i].as_str());
        let (lo, hi) = trim_bounds(&v);
        if lo < hi {
            let piece = string_from_range(&v, lo, hi);
            if !empty {
                out.push(' ');
            }
            out.append(piece.as_str());
            empty = false;
            assert(out@ =~= if before.len() == 0 {
                piece@
            } else {
                before + seq![' '] + piece@
            });
        }
        i += 1;
    }
    assert(views.take(i as int) =~= views);
    out
}

/// The readable text of an HTML document: the text outside scripts, styles,
/// code and frames, with white space normalised. A blank document has none.
pub fn extract_text_from_html(html_content: &str) -> (out: String)
    ensures
        out@ == document_text(html_content@),
{
    if is_blank(html_content) {
        return String::new();
    }
    let chunks = text_nodes_outside(html_content, skipped_tags());
    let text = join_trimmed(&chunks);
    normalize_whitespace(text.as_str())
}

/// Appends to `out` what stands for `c` in HTML text.
fn push_html_escaped(out: &mut String, c: char)
    ensures
        final(out)@ == old(out)@ + html_escaped_char(c),
{
    if c == '&' {
        out.append("&amp;");
    } else if c == '<' {
        out.append("&lt;");
    } else if c == '>' {
        out.append("&gt;");
    } else if c == '"' {
        out.append("&quot;");
    } else if c == '\'' {
        out.append("&#39;");
    } else {
        out.push(c);
        assert(out@ =~= old(out)@ + seq![c]);
    }
}

/// `value` made safe for HTML text.
pub fn escape_html(value: &str) -> (out: String)
    ensures
        out@ == html_escaped(value@),
{
    let v = chars_of(value);
    let mut out = String::new();
    let mut i: usize = 0;
    assert(v@.take(0) =~= Seq::<char>::empty());
    while i < v.len()
        invariant
            i <= v.len(),
            out@ == html_escaped(v@.take(i as int)),
        decreases v.len() - i,
    {
        assert(v@.take(i + 1).drop_last() =~= v@.take(i as int));
        push_html_escaped(&mut out, v[i]);
        i += 1;
    }
    assert(v@.take(i as int) =~= v@);
    out
}

/// `value` made safe for XML text.
pub fn xml_escape(value: &str) -> (out: String)
    ensures
        out@ == xml_escaped(value@),
{
    let v = chars_of(value);
    let mut out = String::new();
    let mut i: usize = 0;
    assert(v@.take(0) =~= Seq::<char>::empty());
    while i < v.len()
        invariant
            i <= v.len(),
            out@ == xml_escaped(v@.take(i as int)),
        decreases v.len() - i,
    {
        assert(v@.take(i + 1).drop_last() =~= v@.take(i as int));
        if v[i] == '\'' {
            out.append("&apos;");
        } else {
            push_html_escaped(&mut out, v[i]);
        }
        i += 1;
    }
    assert(v@.take(i as int) =~= v@);
    out
}

/// The words of `value`, separated by single spaces.
pub fn normalize_whitespace(value: &str) -> (out: String)
    ensures
        out@ == whitespace_normalized(value@),
{
    let v = chars_of(value);
    let mut out = String::new();
    let mut empty = true;
    let mut i: usize = 0;
    assert(v@.take(0) =~= Seq::<char>::empty());
    while i < v.len()
        invariant
            i <= v.len(),
            out@ == whitespace_normalized(v@.take(i as int)),
            empty == (out@.len() == 0),
        decreases v.len() - i,
    {
        let ghost before = out@;
        assert(v@.take(i + 1).drop_last() =~= v@.take(i as int));
        let c = v[i];
        if !char_is_whitespace(c) {
            if i > 0 && char_is_whitespace(v[i - 1]) && !empty {
                out.push(' ');
                out.push(c);
                assert(out@ =~= before + seq![' ', c]);
            } else {
                out.push(c);
            }
            empty = false;
        }
        i += 1;
    }
    assert(v@.take(i as int) =~= v@);
    out
}

} // verus!
