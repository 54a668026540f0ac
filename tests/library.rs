use std::io::{Cursor, Read, Write};

use word_core::container::{read_docx_text, read_odt_structured, read_odt_text, write_docx_text, write_odt_text, ContainerError};
use word_core::document::{Document, EditError, FileFormat, SavePlan, format_of_path};
use word_core::model::{DocumentElement, StructuredDocument, TextRun, TextStyle};
use word_core::reader::{read_docx_text_xml, read_odt_structured_xml, read_odt_text_xml, read_structured_events};
use word_core::styles::parse_odt_styles;
use word_core::text::{local_name, xml_escape};
use word_core::writer::{docx_document_xml, docx_entries, odt_content_xml, odt_entries, split_lines};
use word_core::xml::{attributes_of, xml_events, XmlEvent};

fn run(text: &str, bold: bool, italic: bool, underline: bool) -> TextRun {
    let mut style = TextStyle::default();
    style.bold = bold;
    style.italic = italic;
    style.underline = underline;
    TextRun { text: text.to_string(), style }
}

fn doc_of(elements: Vec<DocumentElement>) -> StructuredDocument {
    StructuredDocument { elements, styles: word_core::model::StyleCatalog::new() }
}

fn content(body: &str) -> String {
    format!(
        "<office:document-content xmlns:office=\"o\" xmlns:text=\"t\"><office:body><office:text>{}</office:text></office:body></office:document-content>",
        body
    )
}

fn elements_of(body: &str) -> Vec<DocumentElement> {
    read_odt_structured_xml(&content(body), None).unwrap().elements
}

fn runs_of(e: &DocumentElement) -> Vec<(String, bool, bool, bool)> {
    match e {
        DocumentElement::Paragraph { runs } | DocumentElement::Heading { runs, .. } => runs
            .iter()
            .map(|r| (r.text.clone(), r.style.bold, r.style.italic, r.style.underline))
            .collect(),
        _ => panic!("not a paragraph"),
    }
}

#[test]
fn default_style_has_no_formatting() {
    let s = TextStyle::default();
    assert!(!s.bold && !s.italic && !s.underline);
    assert!(s.font_size.is_none() && s.font_family.is_none() && s.color.is_none());
}

#[test]
fn unstyled_paragraphs_keep_their_text() {
    let d = doc_of(vec![
        DocumentElement::Paragraph { runs: vec![run("a < b", false, false, false), run(" & c", false, false, false)] },
        DocumentElement::Paragraph { runs: vec![run("second", false, false, false)] },
    ]);
    assert_eq!(d.to_plain_text(), "a < b & c\nsecond\n");
    assert_eq!(d.to_html(), "<p>a &lt; b &amp; c</p>\n<p>second</p>\n");
}

#[test]
fn insert_into_empty_document() {
    let mut d = Document::new();
    assert_eq!(d.insert_text(0, "hello".to_string()), Ok(()));
    assert_eq!(d.get_text(), "hello");
}

#[test]
fn insert_past_end_is_refused() {
    let mut d = Document::new();
    d.set_text("abc".to_string());
    assert_eq!(d.insert_text(4, "x".to_string()), Err(EditError::OutOfBounds));
    assert_eq!(d.get_text(), "abc");
    assert_eq!(d.insert_text(3, "d".to_string()), Ok(()));
    assert_eq!(d.insert_text(1, "-".to_string()), Ok(()));
    assert_eq!(d.get_text(), "a-bcd");
}

#[test]
fn insert_counts_characters() {
    let mut d = Document::new();
    d.set_text("héllo".to_string());
    assert_eq!(d.insert_text(2, "X".to_string()), Ok(()));
    assert_eq!(d.get_text(), "héXllo");
}

#[test]
fn paragraph_count_and_empty_paragraph_dropped() {
    let es = elements_of("<text:p>one</text:p><text:p></text:p><text:p>two</text:p><text:p/><text:p>three</text:p>");
    assert_eq!(es.len(), 3);
    assert_eq!(runs_of(&es[0])[0].0, "one");
    assert_eq!(runs_of(&es[2])[0].0, "three");
}

#[test]
fn all_flags_render_nested() {
    let d = doc_of(vec![]);
    assert_eq!(d.run_to_html(&run("x & y", true, true, true)), "<u><i><b>x &amp; y</b></i></u>");
    assert_eq!(d.run_to_html(&run("q", false, true, false)), "<i>q</i>");
    assert_eq!(d.run_to_html(&run("\"", true, false, true)), "<u><b>&quot;</b></u>");
}

#[test]
fn odt_write_then_read_keeps_lines() {
    let text = "alpha\nbeta & gamma\n<delta>";
    let xml = odt_content_xml(text);
    assert_eq!(read_odt_text_xml(&xml, None).unwrap(), "alpha\nbeta & gamma\n<delta>\n");
}

#[test]
fn odt_entries_example() {
    let entries = odt_entries("Hello & welcome\n\nLine three");
    assert_eq!(entries.len(), 3);
    assert_eq!(entries[0].name, "mimetype");
    assert!(entries[0].stored);
    assert_eq!(entries[0].data, "application/vnd.oasis.opendocument.text");
    assert_eq!(entries[1].name, "content.xml");
    assert!(!entries[1].stored);
    assert!(entries[1].data.contains(
        "<office:body><office:text><text:p>Hello &amp; welcome</text:p><text:p></text:p><text:p>Line three</text:p></office:text></office:body>"
    ));
    assert_eq!(entries[2].name, "META-INF/manifest.xml");
    assert!(!entries[2].stored);

    let bytes = write_odt_text("Hello & welcome\n\nLine three").unwrap();
    let mut za = zip::ZipArchive::new(Cursor::new(bytes)).unwrap();
    {
        let mut content = za.by_name("content.xml").unwrap();
        assert_eq!(content.compression(), zip::CompressionMethod::Deflated);
        let mut c = String::new();
        content.read_to_string(&mut c).unwrap();
        assert!(c.contains("<text:p>Hello &amp; welcome</text:p><text:p></text:p><text:p>Line three</text:p>"));
    }
    let mut first = za.by_index(0).unwrap();
    assert_eq!(first.name(), "mimetype");
    assert_eq!(first.compression(), zip::CompressionMethod::Stored);
    let mut s = String::new();
    first.read_to_string(&mut s).unwrap();
    assert_eq!(s, "application/vnd.oasis.opendocument.text");
}

#[test]
fn empty_style_stream_has_builtin_entries() {
    let c = parse_odt_styles("");
    assert_eq!(c.len(), 3);
    let names: Vec<&str> = c.entries.iter().map(|e| e.name.as_str()).collect();
    assert_eq!(names, vec!["Bold", "Italic", "Underline"]);
    let b = c.get(&"Bold".to_string()).unwrap();
    assert!(b.bold && !b.italic && !b.underline && b.font_size.is_none());
    let i = c.get(&"Italic".to_string()).unwrap();
    assert!(!i.bold && i.italic && !i.underline);
    let u = c.get(&"Underline".to_string()).unwrap();
    assert!(!u.bold && !u.italic && u.underline && u.color.is_none());
}

#[test]
fn style_catalog_reads_properties() {
    let xml = "<office:document-styles><office:styles>\
<style:style style:name=\"T1\"><style:text-properties fo:font-weight=\"700\" fo:font-style=\"italic\" style:text-underline-style=\"solid\" fo:font-size=\"12pt\" fo:font-family=\"Serif\" fo:color=\"#ff0000\"/></style:style>\
<style:style style:name=\"T2\"><style:text-properties fo:font-weight=\"normal\" style:text-underline-style=\"none\"/></style:style>\
<style:style style:name=\"Bold\"><style:text-properties fo:font-style=\"italic\"/></style:style>\
</office:styles></office:document-styles>";
    let c = parse_odt_styles(xml);
    assert_eq!(c.len(), 5);
    let t1 = c.get(&"T1".to_string()).unwrap();
    assert!(t1.bold && t1.italic && t1.underline);
    assert_eq!(t1.font_size.as_deref(), Some("12pt"));
    assert_eq!(t1.font_family.as_deref(), Some("Serif"));
    assert_eq!(t1.color.as_deref(), Some("#ff0000"));
    let t2 = c.get(&"T2".to_string()).unwrap();
    assert!(!t2.bold && !t2.underline);
    let b = c.get(&"Bold".to_string()).unwrap();
    assert!(b.bold && !b.italic);
    assert!(c.get(&"Missing".to_string()).is_none());
}

#[test]
fn malformed_styles_keep_what_was_read() {
    let c = parse_odt_styles("<s><style:style style:name=\"A\"><style:text-properties fo:font-weight=\"bold\"/></style:style></t>");
    assert_eq!(c.len(), 4);
    assert!(c.get(&"A".to_string()).unwrap().bold);
}

#[test]
fn span_styles_resolve_through_catalog() {
    let styles = "<office:document-styles><style:style style:name=\"Em\"><style:text-properties fo:font-style=\"italic\"/></style:style></office:document-styles>";
    let body = "<text:p>plain <text:span text:style-name=\"Em\">em</text:span><text:span text:style-name=\"Bold\">b</text:span><text:span text:style-name=\"Nope\">n</text:span></text:p>";
    let d = read_odt_structured_xml(&content(body), Some(styles)).unwrap();
    let runs = runs_of(&d.elements[0]);
    assert_eq!(
        runs,
        vec![
            ("plainem".to_string(), false, true, false),
            ("b".to_string(), true, false, false),
            ("n".to_string(), false, false, false),
        ]
    );
    assert_eq!(d.to_html(), "<p><i>plainem</i><b>b</b>n</p>\n");
    assert_eq!(d.styles.len(), 4);
}

#[test]
fn headings_lists_tables_and_breaks() {
    let body = "<text:h text:outline-level=\"2\">Title</text:h>\
<text:list><text:list-item><text:p>one</text:p></text:list-item><text:list-item><text:p>two</text:p></text:list-item></text:list>\
<table:table><table:table-row><table:table-cell><text:p>a</text:p></table:table-cell><table:table-cell><text:p>b</text:p></table:table-cell></table:table-row></table:table>\
<text:line-break></text:line-break>";
    let d = read_odt_structured_xml(&content(body), None).unwrap();
    assert!(matches!(d.elements[0], DocumentElement::Heading { level: 1, .. }));
    assert_eq!(
        d.to_html(),
        "<h1>Title</h1>\n<p>one</p>\n<p>two</p>\n<ul><li></li><li></li></ul><p>a</p>\n<p>b</p>\n<table><tr><td></td><td></td></tr></table><br/>\n"
    );
    let list = doc_of(vec![DocumentElement::List {
        items: vec![vec![run("x", false, false, false)], vec![run("y", true, false, false)]],
        ordered: false,
    }]);
    assert_eq!(list.to_html(), "<ul><li>x</li><li><b>y</b></li></ul>");
    assert_eq!(list.to_plain_text(), "x\ny\n");
    let ordered = doc_of(vec![DocumentElement::List { items: vec![vec![run("z", false, false, false)]], ordered: true }]);
    assert_eq!(ordered.to_html(), "<ol><li>z</li></ol>");
    let table = doc_of(vec![DocumentElement::Table {
        rows: vec![vec![vec![run("a", false, false, false)], vec![run("b", false, false, false)]]],
    }]);
    assert_eq!(table.to_html(), "<table><tr><td>a</td><td>b</td></tr></table>");
    assert_eq!(table.to_plain_text(), "a\tb\t\n");
    let h = doc_of(vec![DocumentElement::Heading { level: 12, runs: vec![run("H", false, false, false)] }, DocumentElement::LineBreak]);
    assert_eq!(h.to_html(), "<h12>H</h12>\n<br/>\n");
    assert_eq!(h.to_plain_text(), "H\n\n");
    let h3 = doc_of(vec![DocumentElement::Heading { level: 255, runs: vec![] }]);
    assert_eq!(h3.to_html(), "<h255></h255>\n");
}

#[test]
fn list_items_collected_without_paragraphs() {
    let es = elements_of("<text:list><text:list-item>one</text:list-item><text:list-item>two</text:list-item></text:list>");
    assert_eq!(es.len(), 1);
    match &es[0] {
        DocumentElement::List { items, ordered } => {
            assert!(!ordered);
            assert_eq!(items.len(), 2);
            assert_eq!(items[1][0].text, "two");
        }
        _ => panic!("expected a list"),
    }
}

#[test]
fn table_cells_collected() {
    let es = elements_of("<table:table><table:table-row><table:table-cell>a</table:table-cell><table:table-cell>b</table:table-cell></table:table-row></table:table>");
    let d = doc_of(es);
    assert_eq!(d.to_plain_text(), "a\tb\t\n");
    assert_eq!(d.to_html(), "<table><tr><td>a</td><td>b</td></tr></table>");
}

#[test]
fn text_outside_body_is_ignored() {
    let xml = "<office:document-content><text:p>before</text:p><office:body><text:p>inside</text:p></office:body></office:document-content>";
    let d = read_odt_structured_xml(xml, None).unwrap();
    assert_eq!(d.to_plain_text(), "inside\n");
}

#[test]
fn mismatched_tags_are_a_read_error() {
    let r = read_odt_structured_xml("<office:body><text:p>x</text:q></office:body>", None);
    assert!(r.is_err());
    let mut d = Document::new();
    d.set_text("keep".to_string());
    assert!(d.load_odt_structured("<office:body><text:p>x</text:q>", None).is_err());
    assert_eq!(d.get_text(), "keep");
    assert!(!d.has_structured_content());
}

#[test]
fn entities_and_cdata_are_decoded() {
    let es = elements_of("<text:p>a &lt;b&gt; &amp; <![CDATA[<raw>]]></text:p>");
    assert_eq!(runs_of(&es[0])[0].0, "a <b> &<raw>");
}

#[test]
fn undecodable_text_falls_back_to_raw_bytes() {
    let events = vec![
        XmlEvent::Start { name: b"office:body".to_vec(), content: b"office:body".to_vec() },
        XmlEvent::Start { name: b"text:p".to_vec(), content: b"text:p".to_vec() },
        XmlEvent::Text { raw: vec![b'a', 0xff] },
        XmlEvent::CData { raw: b"z".to_vec() },
        XmlEvent::End { name: b"text:p".to_vec() },
        XmlEvent::Eof,
        XmlEvent::Start { name: b"text:p".to_vec(), content: b"text:p".to_vec() },
    ];
    let d = read_structured_events(&events, word_core::model::StyleCatalog::new()).unwrap();
    assert_eq!(d.to_plain_text(), "a\u{FFFD}z\n");
}

#[test]
fn failure_event_is_an_error() {
    let events = vec![
        XmlEvent::Start { name: b"office:body".to_vec(), content: b"office:body".to_vec() },
        XmlEvent::Fail { message: "broken".to_string() },
    ];
    let r = read_structured_events(&events, word_core::model::StyleCatalog::new());
    assert_eq!(r.unwrap_err().message, "broken");
}

#[test]
fn event_stream_ends_once() {
    let ev = xml_events("<a x=\"1\">t<b/></a>");
    assert!(matches!(ev.last(), Some(XmlEvent::Eof)));
    assert!(matches!(&ev[0], XmlEvent::Start { name, content } if name == b"a" && attributes_of(name, content).len() == 1));
    assert!(matches!(&ev[2], XmlEvent::Empty { name, .. } if name == b"b"));
    let bad = xml_events("<a></b>");
    assert!(matches!(bad.last(), Some(XmlEvent::Fail { .. })));
    assert!(matches!(xml_events("").as_slice(), [XmlEvent::Eof]));
}

#[test]
fn docx_text_one_line_per_paragraph() {
    let xml = "<w:document xmlns:w=\"w\"><w:body><w:p><w:r><w:t>Hi &amp; bye</w:t></w:r></w:p><w:p/><w:p><w:r><w:t>end</w:t></w:r></w:p></w:body></w:document>";
    assert_eq!(read_docx_text_xml(xml).unwrap(), "Hi & bye\n\nend\n");
    assert!(read_docx_text_xml("<w:p></w:q>").is_err());
}

#[test]
fn docx_writer_body() {
    let xml = docx_document_xml("a<b\n\nc\n");
    assert_eq!(
        xml,
        "<?xml version=\"1.0\" encoding=\"UTF-8\" standalone=\"yes\"?><w:document xmlns:w=\"http://schemas.openxmlformats.org/wordprocessingml/2006/main\"><w:body><w:p><w:r><w:t>a&lt;b</w:t></w:r></w:p><w:p/><w:p><w:r><w:t>c</w:t></w:r></w:p></w:body></w:document>"
    );
    assert_eq!(read_docx_text_xml(&xml).unwrap(), "a<b\n\nc\n");
    let entries = docx_entries("x");
    let names: Vec<&str> = entries.iter().map(|e| e.name.as_str()).collect();
    assert_eq!(names, vec!["[Content_Types].xml", "_rels/.rels", "word/document.xml"]);
    assert!(entries.iter().all(|e| !e.stored));
}

#[test]
fn lines_drop_one_trailing_empty_segment() {
    assert_eq!(split_lines(""), Vec::<String>::new());
    assert_eq!(split_lines("a\n\nb\n"), vec!["a", "", "b"]);
    assert_eq!(split_lines("a\n\n"), vec!["a", ""]);
    assert_eq!(split_lines("\n"), vec![""]);
}

#[test]
fn escape_and_local_names() {
    assert_eq!(xml_escape("<a href=\"x\">&</a>"), "&lt;a href=&quot;x&quot;&gt;&amp;&lt;/a&gt;");
    assert_eq!(local_name(b"text:p"), b"p".to_vec());
    assert_eq!(local_name(b"p"), b"p".to_vec());
    assert_eq!(local_name(b"a:b:c"), b"b:c".to_vec());
}

#[test]
fn formats_by_extension() {
    assert_eq!(format_of_path("notes.DOCX"), FileFormat::Docx);
    assert_eq!(format_of_path("dir.x/notes.Odt"), FileFormat::Odt);
    assert_eq!(format_of_path("notes.txt"), FileFormat::Raw);
    assert_eq!(format_of_path("odt"), FileFormat::Raw);
}

#[test]
fn facade_html_and_structure() {
    let mut d = Document::new();
    assert_eq!(d.get_html(), "");
    d.set_text("a <b>\nc".to_string());
    assert_eq!(d.get_html(), "<p>a <b><br/>c</p>");
    assert!(d.load_odt_structured(&content("<text:p>x &amp; y</text:p>"), None).is_ok());
    assert!(d.has_structured_content());
    assert_eq!(d.get_text(), "x & y\n");
    assert_eq!(d.get_html(), "<p>x &amp; y</p>\n");
    match d.save_plan("out.odt") {
        SavePlan::Zip { entries } => assert!(entries[1].data.contains("<text:p>x &amp; y</text:p>")),
        SavePlan::Raw { .. } => panic!("expected a container"),
    }
    match d.save_plan("out.txt") {
        SavePlan::Raw { text } => assert_eq!(text, "x & y\n"),
        SavePlan::Zip { .. } => panic!("expected raw text"),
    }
    d.clear();
    assert!(!d.has_structured_content());
    assert_eq!(d.get_text(), "");
}

#[test]
fn self_closing_elements_act_as_start_and_end() {
    let es = elements_of("<text:p>a</text:p><text:line-break/><text:p/><text:p>b</text:p>");
    assert_eq!(doc_of(es).to_html(), "<p>a</p>\n<br/>\n<p>b</p>\n");
    let c = parse_odt_styles("<style:style style:name=\"E\"/>");
    assert_eq!(c.len(), 4);
    assert!(!c.get(&"E".to_string()).unwrap().bold);
}

#[test]
fn odt_container_round_trip() {
    let bytes = write_odt_text("first line\nsecond & <third>\nlast").unwrap();
    assert_eq!(read_odt_text(bytes.clone()).unwrap(), "first line\nsecond & <third>\nlast\n");
    let d = read_odt_structured(bytes).unwrap();
    assert_eq!(d.elements.len(), 3);
    assert_eq!(d.styles.len(), 0);
}

#[test]
fn docx_container_round_trip() {
    let bytes = write_docx_text("one\n\nthree & four\n").unwrap();
    assert_eq!(read_docx_text(bytes).unwrap(), "one\n\nthree & four\n");
}

#[test]
fn bad_containers_are_errors() {
    assert!(matches!(read_odt_text(vec![1, 2, 3]), Err(ContainerError::Archive { .. })));
    let docx = write_docx_text("x").unwrap();
    assert!(matches!(read_odt_text(docx), Err(ContainerError::Archive { .. })));
    let odt = write_odt_text("x").unwrap();
    assert!(matches!(read_docx_text(odt), Err(ContainerError::Archive { .. })));
}

#[test]
fn container_styles_entry_is_used() {
    let mut zw = zip::ZipWriter::new(Cursor::new(Vec::new()));
    let opts = zip::write::FileOptions::default();
    zw.start_file("styles.xml", opts).unwrap();
    zw.write_all(b"<office:document-styles><style:style style:name=\"B1\"><style:text-properties fo:font-weight=\"bold\" fo:color=\"#00ff00\"/></style:style></office:document-styles>").unwrap();
    zw.start_file("content.xml", opts).unwrap();
    zw.write_all(content("<text:p><text:span text:style-name=\"B1\">strong</text:span></text:p>").as_bytes()).unwrap();
    let bytes = zw.finish().unwrap().into_inner();
    let d = read_odt_structured(bytes).unwrap();
    assert_eq!(d.styles.len(), 4);
    match &d.elements[0] {
        DocumentElement::Paragraph { runs } => {
            assert!(runs[0].style.bold);
            assert_eq!(runs[0].style.color.as_deref(), Some("#00ff00"));
        }
        _ => panic!("expected a paragraph"),
    }
    assert_eq!(d.to_html(), "<p><b>strong</b></p>\n");
}
