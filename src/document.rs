//! The document facade: a plain-text buffer and, optionally, the structured
//! document it was rendered from.
use vstd::prelude::*;
use crate::model::{StructuredDocument, elements_view};
use crate::reader::{ReadError, odt_outcome, opt_str_view, read_odt_structured_xml, styles_catalog};
use crate::render::{elements_html, elements_text};
use crate::text::push_char;
use crate::writer::{ZipEntry, docx_entries, docx_entries_ok, odt_entries, odt_entries_ok};

verus! {

/// The reason an edit was refused.
#[derive(Debug, Clone, Copy, PartialEq, Eq)]
pub enum EditError {
    /// The offset lies past the end of the text.
    OutOfBounds,
}

/// A file format, as its extension selects it.
#[derive(Debug, Clone, Copy, PartialEq, Eq)]
pub enum FileFormat {
    Docx,
    Odt,
    Raw,
}

/// What the file name `path` ends with after its last dot, as `Path::extension` finds it.
pub uninterp spec fn extension_of(path: Seq<char>) -> Option<Seq<char>>;

/// Relies on `std::path::Path::extension`: the extension of the file name, if it has
/// one that is valid text; the result depends on the path alone.
#[verifier::external_body]
fn path_extension(path: &str) -> (r: Option<String>)
    ensures
        match r {
            Some(e) => extension_of(path@) == Some(e@),
            None => extension_of(path@) is None,
        },
{
    std::path::Path::new(path).extension().and_then(|s| s.to_str()).map(|s| s.to_string())
}

pub open spec fn ascii_lower_char(c: char) -> char {
    if 'A' <= c && c <= 'Z' { ((c as u8) + 32) as char } else { c }
}

pub open spec fn ascii_lower(s: Seq<char>) -> Seq<char> {
    s.map_values(|c: char| ascii_lower_char(c))
}

fn lower_char(c: char) -> (r: char)
    ensures
        r == ascii_lower_char(c),
{
    if 'A' <= c && c <= 'Z' { ((c as u8) + 32) as char } else { c }
}

/// The extension of `path` in lower case, or the empty text when it has none.
pub open spec fn ext_lower_spec(path: Seq<char>) -> Seq<char> {
    match extension_of(path) {
        Some(e) => ascii_lower(e),
        None => Seq::empty(),
    }
}

pub fn ext_lower(path: &str) -> (r: String)
    ensures
        r@ == ext_lower_spec(path@),
{
    let mut r = String::new();
    match path_extension(path) {
        Some(e) => {
            let s = e.as_str();
            let n = s.unicode_len();
            let mut i: usize = 0;
            while i < n
                invariant
                    n == s@.len(),
                    i <= n,
                    r@ == ascii_lower(s@.take(i as int)),
                decreases n - i,
            {
                push_char(&mut r, lower_char(s.get_char(i)));
                proof {
                    assert(r@ =~= ascii_lower(s@.take(i + 1)));
                }
                i = i + 1;
            }
            proof {
                assert(s@.take(n as int) =~= s@);
            }
        },
        None => {
            proof {
                assert(r@ =~= ext_lower_spec(path@));
            }
        },
    }
    r
}

pub open spec fn format_of_ext(ext: Seq<char>) -> FileFormat {
    if ext == "docx"@ {
        FileFormat::Docx
    } else if ext == "odt"@ {
        FileFormat::Odt
    } else {
        FileFormat::Raw
    }
}

/// The format that the extension of `path`, in any case, selects.
pub fn format_of_path(path: &str) -> (r: FileFormat)
    ensures
        r == format_of_ext(ext_lower_spec(path@)),
{
    let ext = ext_lower(path);
    if crate::text::str_is(&ext, "docx") {
        FileFormat::Docx
    } else if crate::text::str_is(&ext, "odt") {
        FileFormat::Odt
    } else {
        FileFormat::Raw
    }
}

/// What saving writes: the entries of a zip container, or the text as it is.
#[derive(Debug, Clone)]
pub enum SavePlan {
    Zip { entries: Vec<ZipEntry> },
    Raw { text: String },
}

/// The text with each newline replaced by a `<br/>` tag; nothing else is changed.
pub open spec fn with_breaks(s: Seq<char>) -> Seq<char>
    decreases s.len(),
{
    if s.len() == 0 {
        Seq::empty()
    } else {
        with_breaks(s.drop_last()) + if s.last() == '\n' { "<br/>"@ } else { seq![s.last()] }
    }
}

/// The HTML of a plain-text buffer: nothing for no text, else one paragraph with line breaks.
pub open spec fn text_html(s: Seq<char>) -> Seq<char> {
    if s.len() == 0 {
        Seq::empty()
    } else {
        "<p>"@ + with_breaks(s) + "</p>"@
    }
}

/// A text buffer and the structured document it was last loaded from, if any.
pub struct Document {
    text: String,
    structured: Option<StructuredDocument>,
}

impl Document {
    pub closed spec fn text_view(&self) -> Seq<char> {
        self.text@
    }

    pub closed spec fn structured_view(&self) -> Option<StructuredDocument> {
        self.structured
    }

    /// The text agrees with the structured document whenever there is one.
    pub open spec fn wf(&self) -> bool {
        match self.structured_view() {
            Some(d) => self.text_view() == elements_text(elements_view(d.elements@)),
            None => true,
        }
    }

    /// An empty document without structure.
    pub fn new() -> (r: Document)
        ensures
            r.text_view() == Seq::<char>::empty(),
            r.structured_view() is None,
            r.wf(),
    {
        Document { text: String::new(), structured: None }
    }

    /// Replaces the text; the structure is dropped.
    pub fn set_text(&mut self, text: String)
        ensures
            final(self).text_view() == text@,
            final(self).structured_view() is None,
            final(self).wf(),
    {
        self.text = text;
        self.structured = None;
    }

    /// Inserts `text` before the character at `offset` (a character offset, so that
    /// no insertion can split a character); the edited text no longer matches the
    /// structure, which is dropped. An offset past the end is refused and changes nothing.
    pub fn insert_text(&mut self, offset: usize, text: String) -> (r: Result<(), EditError>)
        ensures
            offset > old(self).text_view().len() ==> r == Err::<(), EditError>(EditError::OutOfBounds)
                && final(self).text_view() == old(self).text_view()
                && final(self).structured_view() == old(self).structured_view(),
            offset <= old(self).text_view().len() ==> r is Ok && final(self).text_view()
                == old(self).text_view().take(offset as int) + text@ + old(self).text_view().skip(
                offset as int,
            ) && final(self).structured_view() is None,
            old(self).wf() ==> final(self).wf(),
    {
        let s = self.text.as_str();
        let n = s.unicode_len();
        if offset > n {
            return Err(EditError::OutOfBounds);
        }
        let mut out = String::from_str(s.substring_char(0, offset));
        out.append(text.as_str());
        out.append(s.substring_char(offset, n));
        proof {
            assert(self.text@.subrange(offset as int, n as int) =~= self.text@.skip(offset as int));
            assert(self.text@.subrange(0, offset as int) =~= self.text@.take(offset as int));
        }
        self.text = out;
        self.structured = None;
        Ok(())
    }

    /// A copy of the text.
    pub fn get_text(&self) -> (r: String)
        ensures
            r@ == self.text_view(),
    {
        self.text.clone()
    }

    /// Empties the text; the structure is dropped.
    pub fn clear(&mut self)
        ensures
            final(self).text_view() == Seq::<char>::empty(),
            final(self).structured_view() is None,
            final(self).wf(),
    {
        self.text = String::new();
        self.structured = None;
    }

    /// Takes a structured document: the text becomes its plain-text rendering.
    pub fn set_structured(&mut self, doc: StructuredDocument)
        ensures
            final(self).structured_view() == Some(doc),
            final(self).text_view() == elements_text(elements_view(doc.elements@)),
            final(self).wf(),
    {
        self.text = doc.to_plain_text();
        self.structured = Some(doc);
    }

    /// Loads the content and style documents of an open-document container; on a
    /// read error the document is left as it was.
    pub fn load_odt_structured(&mut self, content_xml: &str, styles_xml: Option<&str>) -> (r: Result<(), ReadError>)
        ensures
            ({
                let cat = styles_catalog(opt_str_view(styles_xml));
                let b = odt_outcome(content_xml@, cat);
                &&& r is Ok <==> !b.failed
                &&& r is Err ==> final(self).text_view() == old(self).text_view()
                    && final(self).structured_view() == old(self).structured_view()
                &&& r is Ok ==> final(self).structured_view() is Some
                    && elements_view(final(self).structured_view()->Some_0.elements@) == b.elements
                    && final(self).structured_view()->Some_0.styles@ == cat
                    && final(self).text_view() == elements_text(b.elements)
            }),
    {
        match read_odt_structured_xml(content_xml, styles_xml) {
            Ok(doc) => {
                self.set_structured(doc);
                Ok(())
            },
            Err(e) => Err(e),
        }
    }

    /// HTML from the structured document if there is one, else from the text.
    pub fn get_html(&self) -> (r: String)
        ensures
            match self.structured_view() {
                Some(d) => r@ == elements_html(elements_view(d.elements@)),
                None => r@ == text_html(self.text_view()),
            },
    {
        broadcast use vstd::string::group_string_axioms;
        match &self.structured {
            Some(d) => d.to_html(),
            None => {
                let s = self.text.as_str();
                let n = s.unicode_len();
                if n == 0 {
                    return String::new();
                }
                let mut out = String::from_str("<p>");
                for c in it: s.chars()
                    invariant
                        it.seq() == s@,
                        out@ == "<p>"@ + with_breaks(s@.take(it.index() as int)),
                {
                    let ghost i = it.index();
                    proof {
                        assert(c == s@[i as int]);
                    }
                    if c == '\n' {
                        out.append("<br/>");
                    } else {
                        push_char(&mut out, c);
                    }
                    proof {
                        assert(s@.take(i + 1).drop_last() =~= s@.take(i as int));
                        assert(out@ =~= "<p>"@ + with_breaks(s@.take(i + 1)));
                    }
                }
                proof {
                    assert(s@.take(s@.len() as int) =~= s@);
                }
                out.append("</p>");
                out
            },
        }
    }

    pub fn has_structured_content(&self) -> (r: bool)
        ensures
            r == self.structured_view() is Some,
    {
        self.structured.is_some()
    }

    /// What saving to `path` writes: always the text, never the structure, in the
    /// container that the extension selects, or as it is for another extension.
    pub fn save_plan(&self, path: &str) -> (r: SavePlan)
        ensures
            match format_of_ext(ext_lower_spec(path@)) {
                FileFormat::Odt => r is Zip && odt_entries_ok(r->Zip_entries@, self.text_view()),
                FileFormat::Docx => r is Zip && docx_entries_ok(r->Zip_entries@, self.text_view()),
                FileFormat::Raw => r is Raw && r->Raw_text@ == self.text_view(),
            },
    {
        match format_of_path(path) {
            FileFormat::Docx => SavePlan::Zip { entries: docx_entries(self.text.as_str()) },
            FileFormat::Odt => SavePlan::Zip { entries: odt_entries(self.text.as_str()) },
            FileFormat::Raw => SavePlan::Raw { text: self.text.clone() },
        }
    }
}

/// Inserting at offset zero into an empty text leaves exactly the inserted text.
pub proof fn lemma_insert_into_empty(before: Seq<char>, inserted: Seq<char>)
    requires
        before.len() == 0,
    ensures
        before.take(0) + inserted + before.skip(0) == inserted,
{
    assert(before.take(0) + inserted + before.skip(0) =~= inserted);
}

} // verus!
