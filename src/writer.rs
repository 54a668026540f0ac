//! Minimal container contents for plain text: the entries of each zip container, in order.
use vstd::prelude::*;
use crate::text::{escape, push_char, push_escaped};

verus! {

/// `s` cut at every newline: one more segment than it has newlines.
pub open spec fn segments(s: Seq<char>) -> Seq<Seq<char>>
    decreases s.len(),
{
    if s.len() == 0 {
        seq![Seq::empty()]
    } else {
        let p = segments(s.drop_last());
        if s.last() == '\n' {
            p.push(Seq::empty())
        } else {
            p.update(p.len() - 1, p.last().push(s.last()))
        }
    }
}

proof fn lemma_segments_nonempty(s: Seq<char>)
    ensures
        segments(s).len() >= 1,
    decreases s.len(),
{
    if s.len() > 0 {
        lemma_segments_nonempty(s.drop_last());
    }
}

/// The lines of `s`: its segments, without a last one that is empty.
pub open spec fn lines(s: Seq<char>) -> Seq<Seq<char>> {
    let p = segments(s);
    if p.len() > 0 && p.last().len() == 0 { p.drop_last() } else { p }
}

/// Splits `text` into its lines.
pub fn split_lines(text: &str) -> (r: Vec<String>)
    ensures
        r@.map_values(|l: String| l@) == lines(text@),
{
    broadcast use vstd::string::group_string_axioms;
    let mut done: Vec<String> = Vec::new();
    let mut cur = String::new();
    for c in it: text.chars()
        invariant
            it.seq() == text@,
            done@.map_values(|l: String| l@).push(cur@) == segments(text@.take(it.index() as int)),
    {
        let ghost i = it.index();
        proof {
            assert(text@.take(i + 1).drop_last() =~= text@.take(i as int));
            assert(c == text@[i as int]);
            lemma_segments_nonempty(text@.take(i as int));
        }
        let ghost before = done@;
        if c == '\n' {
            let mut line = String::new();
            std::mem::swap(&mut cur, &mut line);
            done.push(line);
            proof {
                assert(done@.map_values(|l: String| l@).push(cur@) =~= before.map_values(|l: String| l@).push(line@).push(Seq::empty()));
            }
        } else {
            push_char(&mut cur, c);
            proof {
                assert(done@.map_values(|l: String| l@).push(cur@) =~= segments(text@.take(i + 1)));
            }
        }
    }
    proof {
        assert(text@.take(text@.len() as int) =~= text@);
    }
    if cur.unicode_len() > 0 {
        done.push(cur);
    }
    proof {
        let p = segments(text@);
        assert(done@.map_values(|l: String| l@) =~= lines(text@));
    }
    done
}

/// One entry of a zip container: its path, its text, and whether it is stored uncompressed.
#[derive(Debug, Clone)]
pub struct ZipEntry {
    pub name: String,
    pub data: String,
    pub stored: bool,
}

/// The open-document body: one paragraph per line, its text escaped.
pub open spec fn odt_paragraphs(ls: Seq<Seq<char>>) -> Seq<char>
    decreases ls.len(),
{
    if ls.len() == 0 {
        Seq::empty()
    } else {
        odt_paragraphs(ls.drop_last()) + "<text:p>"@ + escape(ls.last()) + "</text:p>"@
    }
}

/// The word-processor body: a self-closing paragraph for an empty line, else a
/// paragraph holding one run holding the escaped text.
pub open spec fn docx_paragraph(l: Seq<char>) -> Seq<char> {
    if l.len() == 0 {
        "<w:p/>"@
    } else {
        "<w:p><w:r><w:t>"@ + escape(l) + "</w:t></w:r></w:p>"@
    }
}

pub open spec fn docx_paragraphs(ls: Seq<Seq<char>>) -> Seq<char>
    decreases ls.len(),
{
    if ls.len() == 0 {
        Seq::empty()
    } else {
        docx_paragraphs(ls.drop_last()) + docx_paragraph(ls.last())
    }
}

pub const ODT_MIMETYPE: &'static str = "application/vnd.oasis.opendocument.text";

pub const ODT_CONTENT_HEAD: &'static str = "<?xml version=\"1.0\" encoding=\"UTF-8\"?><office:document-content xmlns:office=\"urn:oasis:names:tc:opendocument:xmlns:office:1.0\" xmlns:text=\"urn:oasis:names:tc:opendocument:xmlns:text:1.0\"><office:body><office:text>";

pub const ODT_CONTENT_TAIL: &'static str = "</office:text></office:body></office:document-content>";

pub const ODT_MANIFEST: &'static str = "<?xml version=\"1.0\" encoding=\"UTF-8\"?>\n<manifest:manifest xmlns:manifest=\"urn:oasis:names:tc:opendocument:xmlns:manifest:1.0\">\n  <manifest:file-entry manifest:media-type=\"application/vnd.oasis.opendocument.text\" manifest:full-path=\"/\"/>\n  <manifest:file-entry manifest:media-type=\"text/xml\" manifest:full-path=\"content.xml\"/>\n</manifest:manifest>";

pub const DOCX_CONTENT_TYPES: &'static str = "<?xml version=\"1.0\" encoding=\"UTF-8\" standalone=\"yes\"?>\n<Types xmlns=\"http://schemas.openxmlformats.org/package/2006/content-types\">\n  <Default Extension=\"rels\" ContentType=\"application/vnd.openxmlformats-package.relationships+xml\"/>\n  <Default Extension=\"xml\" ContentType=\"application/xml\"/>\n  <Override PartName=\"/word/document.xml\" ContentType=\"application/vnd.openxmlformats-officedocument.wordprocessingml.document.main+xml\"/>\n</Types>";

pub const DOCX_RELS: &'static str = "<?xml version=\"1.0\" encoding=\"UTF-8\" standalone=\"yes\"?>\n<Relationships xmlns=\"http://schemas.openxmlformats.org/package/2006/relationships\">\n  <Relationship Id=\"rId1\" Type=\"http://schemas.openxmlformats.org/officeDocument/2006/relationships/officeDocument\" Target=\"word/document.xml\"/>\n</Relationships>";

pub const DOCX_DOCUMENT_HEAD: &'static str = "<?xml version=\"1.0\" encoding=\"UTF-8\" standalone=\"yes\"?><w:document xmlns:w=\"http://schemas.openxmlformats.org/wordprocessingml/2006/main\"><w:body>";

pub const DOCX_DOCUMENT_TAIL: &'static str = "</w:body></w:document>";

/// The content document of an open-document container holding `text`.
pub open spec fn odt_content(text: Seq<char>) -> Seq<char> {
    ODT_CONTENT_HEAD@ + odt_paragraphs(lines(text)) + ODT_CONTENT_TAIL@
}

/// The body document of a word-processor container holding `text`.
pub open spec fn docx_document(text: Seq<char>) -> Seq<char> {
    DOCX_DOCUMENT_HEAD@ + docx_paragraphs(lines(text)) + DOCX_DOCUMENT_TAIL@
}

pub fn odt_content_xml(text: &str) -> (r: String)
    ensures
        r@ == odt_content(text@),
{
    let ls = split_lines(text);
    let ghost v = ls@.map_values(|l: String| l@);
    let mut out = String::from_str(ODT_CONTENT_HEAD);
    let mut i: usize = 0;
    while i < ls.len()
        invariant
            v == ls@.map_values(|l: String| l@),
            i <= ls.len(),
            out@ == ODT_CONTENT_HEAD@ + odt_paragraphs(v.take(i as int)),
        decreases ls.len() - i,
    {
        out.append("<text:p>");
        push_escaped(&mut out, ls[i].as_str());
        out.append("</text:p>");
        proof {
            assert(v.take(i + 1).drop_last() =~= v.take(i as int));
            assert(out@ =~= ODT_CONTENT_HEAD@ + odt_paragraphs(v.take(i + 1)));
        }
        i = i + 1;
    }
    proof {
        assert(v.take(ls.len() as int) =~= v);
    }
    out.append(ODT_CONTENT_TAIL);
    out
}

pub fn docx_document_xml(text: &str) -> (r: String)
    ensures
        r@ == docx_document(text@),
{
    let ls = split_lines(text);
    let ghost v = ls@.map_values(|l: String| l@);
    let mut out = String::from_str(DOCX_DOCUMENT_HEAD);
    let mut i: usize = 0;
    while i < ls.len()
        invariant
            v == ls@.map_values(|l: String| l@),
            i <= ls.len(),
            out@ == DOCX_DOCUMENT_HEAD@ + docx_paragraphs(v.take(i as int)),
        decreases ls.len() - i,
    {
        let line = ls[i].as_str();
        if line.unicode_len() == 0 {
            out.append("<w:p/>");
        } else {
            out.append("<w:p><w:r><w:t>");
            push_escaped(&mut out, line);
            out.append("</w:t></w:r></w:p>");
        }
        proof {
            assert(v.take(i + 1).drop_last() =~= v.take(i as int));
            assert(out@ =~= DOCX_DOCUMENT_HEAD@ + docx_paragraphs(v.take(i + 1)));
        }
        i = i + 1;
    }
    proof {
        assert(v.take(ls.len() as int) =~= v);
    }
    out.append(DOCX_DOCUMENT_TAIL);
    out
}

/// The open-document entries for `text`: the media type first and stored, then
/// the compressed content and manifest.
pub open spec fn odt_entries_ok(r: Seq<ZipEntry>, text: Seq<char>) -> bool {
    &&& r.len() == 3
    &&& r[0].name@ == "mimetype"@ && r[0].data@ == ODT_MIMETYPE@ && r[0].stored
    &&& r[1].name@ == "content.xml"@ && r[1].data@ == odt_content(text) && !r[1].stored
    &&& r[2].name@ == "META-INF/manifest.xml"@ && r[2].data@ == ODT_MANIFEST@ && !r[2].stored
}

/// The word-processor entries for `text`, all compressed.
pub open spec fn docx_entries_ok(r: Seq<ZipEntry>, text: Seq<char>) -> bool {
    &&& r.len() == 3
    &&& r[0].name@ == "[Content_Types].xml"@ && r[0].data@ == DOCX_CONTENT_TYPES@ && !r[0].stored
    &&& r[1].name@ == "_rels/.rels"@ && r[1].data@ == DOCX_RELS@ && !r[1].stored
    &&& r[2].name@ == "word/document.xml"@ && r[2].data@ == docx_document(text) && !r[2].stored
}

/// The entries of an open-document container holding `text`: the media type
/// first and stored, then the compressed content and manifest.
pub fn odt_entries(text: &str) -> (r: Vec<ZipEntry>)
    ensures
        odt_entries_ok(r@, text@),
{
    let mut r: Vec<ZipEntry> = Vec::new();
    r.push(ZipEntry { name: String::from_str("mimetype"), data: String::from_str(ODT_MIMETYPE), stored: true });
    r.push(ZipEntry { name: String::from_str("content.xml"), data: odt_content_xml(text), stored: false });
    r.push(ZipEntry {
        name: String::from_str("META-INF/manifest.xml"),
        data: String::from_str(ODT_MANIFEST),
        stored: false,
    });
    r
}

/// The entries of a word-processor container holding `text`, all compressed.
pub fn docx_entries(text: &str) -> (r: Vec<ZipEntry>)
    ensures
        docx_entries_ok(r@, text@),
{
    let mut r: Vec<ZipEntry> = Vec::new();
    r.push(ZipEntry {
        name: String::from_str("[Content_Types].xml"),
        data: String::from_str(DOCX_CONTENT_TYPES),
        stored: false,
    });
    r.push(ZipEntry { name: String::from_str("_rels/.rels"), data: String::from_str(DOCX_RELS), stored: false });
    r.push(ZipEntry { name: String::from_str("word/document.xml"), data: docx_document_xml(text), stored: false });
    r
}

} // verus!
