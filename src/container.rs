//! Zip containers in memory: packing entries into bytes and reading documents out of them.
use vstd::prelude::*;
use std::io::{Cursor, Read, Write};
use zip::write::FileOptions;
use zip::{CompressionMethod, ZipArchive, ZipWriter};
use crate::model::{StructuredDocument, StyleCatalog, StyleView, elements_view};
use crate::reader::{
    ReadError, build, read_docx_text_events, read_structured_events, text_scan,
};
use crate::render::elements_text;
use crate::styles::{catalog_of_events, parse_odt_styles};
use crate::writer::{
    DOCX_CONTENT_TYPES, DOCX_RELS, ODT_MANIFEST, ODT_MIMETYPE, ZipEntry, docx_document,
    docx_entries, odt_content, odt_entries,
};
use crate::xml::{markup_events, xml_events};

verus! {

/// Why a container could not be written or read.
#[derive(Debug, Clone)]
pub enum ContainerError {
    /// The zip layer failed: a bad archive, a missing entry, an unreadable entry.
    Archive { message: String },
    /// The markup reader failed on an entry.
    Markup { message: String },
}

/// An entry as the zip layer takes it: its path, its text, and whether it is stored
/// uncompressed.
pub type EntryModel = (Seq<char>, Seq<char>, bool);

/// The bytes of the archive that `zip::ZipWriter` writes into an empty buffer when
/// handed these entries in order, or `None` when the writer fails at some step.
pub uninterp spec fn zip_bytes(entries: Seq<EntryModel>) -> Option<Seq<u8>>;

/// The entries handed so far to an archive writer, in order.
pub uninterp spec fn handed(w: ArchiveWriter) -> Seq<EntryModel>;

/// Whether `zip::ZipArchive::new` accepts `bytes` as an archive.
pub uninterp spec fn zip_is_archive(bytes: Seq<u8>) -> bool;

/// Whether `zip::ZipArchive::by_name` finds an entry of that name in the archive.
pub uninterp spec fn zip_has_entry(bytes: Seq<u8>, name: Seq<char>) -> bool;

/// The text that `Read::read_to_string` reads from that entry, or `None` when its
/// contents cannot be read or are not UTF-8.
pub uninterp spec fn zip_entry_text(bytes: Seq<u8>, name: Seq<char>) -> Option<Seq<char>>;

/// A zip archive being written into memory.
#[verifier::external_body]
pub struct ArchiveWriter {
    inner: ZipWriter<Cursor<Vec<u8>>>,
}

/// Relies on `zip::ZipWriter::new`: a writer of a new archive into an empty buffer.
#[verifier::external_body]
fn new_zip_writer() -> (r: ArchiveWriter)
    ensures
        handed(r) == Seq::<EntryModel>::empty(),
{
    ArchiveWriter { inner: ZipWriter::new(Cursor::new(Vec::new())) }
}

/// Relies on `zip::ZipWriter::start_file` and its `Write::write_all`: one entry named
/// `name` holding `data`, stored as it is or deflated; on failure, the error's
/// description, and then no archive that goes on from there can be completed.
#[verifier::external_body]
fn add_entry(z: &mut ArchiveWriter, name: &str, data: &str, stored: bool) -> (r: Result<(), String>)
    ensures
        r is Ok ==> handed(*final(z)) == handed(*old(z)).push((name@, data@, stored)),
        r is Err ==> forall|rest: Seq<EntryModel>|
            #[trigger] zip_bytes(handed(*old(z)).push((name@, data@, stored)) + rest) is None,
{
    let method = if stored { CompressionMethod::Stored } else { CompressionMethod::Deflated };
    z.inner.start_file(name, FileOptions::default().compression_method(method)).map_err(|e| e.to_string())?;
    z.inner.write_all(data.as_bytes()).map_err(|e| e.to_string())
}

/// Relies on `zip::ZipWriter::finish`: closes the archive and hands back its bytes.
#[verifier::external_body]
fn finish_zip(z: &mut ArchiveWriter) -> (r: Result<Vec<u8>, String>)
    ensures
        match r {
            Ok(b) => zip_bytes(handed(*old(z))) == Some(b@),
            Err(_) => zip_bytes(handed(*old(z))) is None,
        },
{
    z.inner.finish().map(|c| c.into_inner()).map_err(|e| e.to_string())
}

/// The outcome of reading one entry of an archive as text.
pub enum EntryText {
    NotArchive { message: String },
    Missing { message: String },
    Unreadable { message: String },
    Text { text: String },
}

/// Relies on `zip::ZipArchive::new`, `ZipArchive::by_name` and `Read::read_to_string`:
/// the text of the entry named `name` of the archive in `bytes`.
#[verifier::external_body]
fn entry_text(bytes: &[u8], name: &str) -> (r: EntryText)
    ensures
        match r {
            EntryText::NotArchive { .. } => !zip_is_archive(bytes@),
            EntryText::Missing { .. } => zip_is_archive(bytes@) && !zip_has_entry(bytes@, name@),
            EntryText::Unreadable { .. } => zip_is_archive(bytes@) && zip_has_entry(bytes@, name@)
                && zip_entry_text(bytes@, name@) is None,
            EntryText::Text { text } => zip_is_archive(bytes@) && zip_has_entry(bytes@, name@)
                && zip_entry_text(bytes@, name@) == Some(text@),
        },
{
    let mut a = match ZipArchive::new(Cursor::new(bytes)) {
        Ok(a) => a,
        Err(e) => return EntryText::NotArchive { message: e.to_string() },
    };
    let mut f = match a.by_name(name) {
        Ok(f) => f,
        Err(e) => return EntryText::Missing { message: e.to_string() },
    };
    let mut text = String::new();
    match f.read_to_string(&mut text) {
        Ok(_) => EntryText::Text { text },
        Err(e) => EntryText::Unreadable { message: e.to_string() },
    }
}

pub open spec fn entry_models(v: Seq<ZipEntry>) -> Seq<EntryModel> {
    v.map_values(|e: ZipEntry| (e.name@, e.data@, e.stored))
}

/// The outcome of packing: the archive's bytes, or an archive error exactly when
/// the zip writer fails.
pub open spec fn packed_as(r: Result<Vec<u8>, ContainerError>, es: Seq<EntryModel>) -> bool {
    match r {
        Ok(b) => zip_bytes(es) == Some(b@),
        Err(e) => zip_bytes(es) is None && e is Archive,
    }
}

/// Packs the entries, in their order, into the bytes of one zip archive.
pub fn pack_entries(entries: &Vec<ZipEntry>) -> (r: Result<Vec<u8>, ContainerError>)
    ensures
        packed_as(r, entry_models(entries@)),
{
    let ghost es = entry_models(entries@);
    let mut z = new_zip_writer();
    let mut i: usize = 0;
    while i < entries.len()
        invariant
            es == entry_models(entries@),
            i <= entries.len(),
            handed(z) == es.take(i as int),
        decreases entries.len() - i,
    {
        let e = &entries[i];
        match add_entry(&mut z, e.name.as_str(), e.data.as_str(), e.stored) {
            Ok(()) => {},
            Err(message) => {
                proof {
                    assert(es =~= es.take(i as int).push(es[i as int]) + es.skip(i + 1));
                    assert(zip_bytes(es.take(i as int).push(es[i as int]) + es.skip(i + 1)) is None);
                }
                return Err(ContainerError::Archive { message });
            },
        }
        proof {
            assert(es.take(i + 1) =~= es.take(i as int).push(es[i as int]));
        }
        i = i + 1;
    }
    proof {
        assert(es.take(entries.len() as int) =~= es);
    }
    match finish_zip(&mut z) {
        Ok(bytes) => Ok(bytes),
        Err(message) => Err(ContainerError::Archive { message }),
    }
}

/// The open-document entries for `text`: the media type first and stored, then the
/// compressed content and manifest.
pub open spec fn odt_entry_models(text: Seq<char>) -> Seq<EntryModel> {
    seq![
        ("mimetype"@, ODT_MIMETYPE@, true),
        ("content.xml"@, odt_content(text), false),
        ("META-INF/manifest.xml"@, ODT_MANIFEST@, false),
    ]
}

/// The word-processor entries for `text`, all compressed.
pub open spec fn docx_entry_models(text: Seq<char>) -> Seq<EntryModel> {
    seq![
        ("[Content_Types].xml"@, DOCX_CONTENT_TYPES@, false),
        ("_rels/.rels"@, DOCX_RELS@, false),
        ("word/document.xml"@, docx_document(text), false),
    ]
}

/// The open-document container of `text`.
pub fn write_odt_text(text: &str) -> (r: Result<Vec<u8>, ContainerError>)
    ensures
        packed_as(r, odt_entry_models(text@)),
{
    let entries = odt_entries(text);
    proof {
        assert(entry_models(entries@) =~= odt_entry_models(text@));
    }
    pack_entries(&entries)
}

/// The word-processor container of `text`.
pub fn write_docx_text(text: &str) -> (r: Result<Vec<u8>, ContainerError>)
    ensures
        packed_as(r, docx_entry_models(text@)),
{
    let entries = docx_entries(text);
    proof {
        assert(entry_models(entries@) =~= docx_entry_models(text@));
    }
    pack_entries(&entries)
}

fn markup_error(e: ReadError) -> (r: ContainerError)
    ensures
        r is Markup,
{
    ContainerError::Markup { message: e.message }
}

/// The style document of an open-document archive: `Some(None)` when it has none,
/// `None` when it has one that cannot be read.
pub open spec fn odt_styles_entry(b: Seq<u8>) -> Option<Option<Seq<char>>> {
    if !zip_has_entry(b, "styles.xml"@) {
        Some(None)
    } else {
        match zip_entry_text(b, "styles.xml"@) {
            Some(t) => Some(Some(t)),
            None => None,
        }
    }
}

/// Whether the zip layer yields what an open-document read needs: an archive with a
/// readable content entry and a style entry that is absent or readable.
pub open spec fn odt_readable(b: Seq<u8>) -> bool {
    &&& zip_is_archive(b)
    &&& odt_styles_entry(b) is Some
    &&& zip_has_entry(b, "content.xml"@)
    &&& zip_entry_text(b, "content.xml"@) is Some
}

/// The catalog of an open-document archive that `odt_readable` admits.
pub open spec fn odt_catalog(b: Seq<u8>) -> Seq<(Seq<char>, StyleView)> {
    match odt_styles_entry(b)->Some_0 {
        Some(t) => catalog_of_events(markup_events(t)),
        None => Seq::empty(),
    }
}

/// The read of the content entry of an open-document archive that `odt_readable` admits.
pub open spec fn odt_build(b: Seq<u8>) -> crate::reader::BuildState {
    build(markup_events(zip_entry_text(b, "content.xml"@)->Some_0), odt_catalog(b))
}

/// Reads the structured document of an open-document container: its content entry,
/// with the catalog of its style entry where there is one. A bad archive, a missing
/// or unreadable content entry or an unreadable style entry is an archive error; a
/// markup error in the content is a markup error.
pub fn read_odt_structured(bytes: Vec<u8>) -> (r: Result<StructuredDocument, ContainerError>)
    ensures
        !odt_readable(bytes@) ==> r is Err && r->Err_0 is Archive,
        odt_readable(bytes@) ==> match r {
            Ok(d) => !odt_build(bytes@).failed && elements_view(d.elements@) == odt_build(bytes@).elements
                && d.styles@ == odt_catalog(bytes@),
            Err(e) => odt_build(bytes@).failed && e is Markup,
        },
{
    let styles = match entry_text(bytes.as_slice(), "styles.xml") {
        EntryText::Text { text } => parse_odt_styles(text.as_str()),
        EntryText::Missing { .. } => StyleCatalog::new(),
        EntryText::NotArchive { message } => {
            return Err(ContainerError::Archive { message });
        },
        EntryText::Unreadable { message } => {
            return Err(ContainerError::Archive { message });
        },
    };
    let content = match entry_text(bytes.as_slice(), "content.xml") {
        EntryText::Text { text } => text,
        EntryText::NotArchive { message } => {
            return Err(ContainerError::Archive { message });
        },
        EntryText::Missing { message } => {
            return Err(ContainerError::Archive { message });
        },
        EntryText::Unreadable { message } => {
            return Err(ContainerError::Archive { message });
        },
    };
    let events = xml_events(content.as_str());
    match read_structured_events(&events, styles) {
        Ok(d) => Ok(d),
        Err(e) => Err(markup_error(e)),
    }
}

/// Reads an open-document container as plain text: the text of its structured read.
pub fn read_odt_text(bytes: Vec<u8>) -> (r: Result<String, ContainerError>)
    ensures
        !odt_readable(bytes@) ==> r is Err && r->Err_0 is Archive,
        odt_readable(bytes@) ==> match r {
            Ok(t) => !odt_build(bytes@).failed && t@ == elements_text(odt_build(bytes@).elements),
            Err(e) => odt_build(bytes@).failed && e is Markup,
        },
{
    match read_odt_structured(bytes) {
        Ok(d) => Ok(d.to_plain_text()),
        Err(e) => Err(e),
    }
}

/// Reads the body entry of a word-processor container as raw text, one line per paragraph.
pub fn read_docx_text(bytes: Vec<u8>) -> (r: Result<String, ContainerError>)
    ensures
        ({
            let b = bytes@;
            let n = "word/document.xml"@;
            if !(zip_is_archive(b) && zip_has_entry(b, n) && zip_entry_text(b, n) is Some) {
                r is Err && r->Err_0 is Archive
            } else {
                let s = text_scan(markup_events(zip_entry_text(b, n)->Some_0));
                match r {
                    Ok(t) => !s.failed && t@ == s.text,
                    Err(e) => s.failed && e is Markup,
                }
            }
        }),
{
    let xml = match entry_text(bytes.as_slice(), "word/document.xml") {
        EntryText::Text { text } => text,
        EntryText::NotArchive { message } => {
            return Err(ContainerError::Archive { message });
        },
        EntryText::Missing { message } => {
            return Err(ContainerError::Archive { message });
        },
        EntryText::Unreadable { message } => {
            return Err(ContainerError::Archive { message });
        },
    };
    let events = xml_events(xml.as_str());
    match read_docx_text_events(&events) {
        Ok(t) => Ok(t),
        Err(e) => Err(markup_error(e)),
    }
}

} // verus!
