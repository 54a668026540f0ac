//! Readers that turn content event streams into a structured document or into plain text.
use vstd::prelude::*;
use crate::model::{
    DocumentElement, ElementView, RunView, StructuredDocument, StyleCatalog, StyleView, TextRun,
    TextStyle, catalog_get, elements_view, items_view, plain_style, rows_view, runs_view,
};
use crate::render::{element_text, elements_text, joined_lines, runs_text};
use crate::styles::{catalog_of_events, parse_odt_styles};
use crate::text::{local_name_text, local_text, lossy_chars, lossy_string, push_char, str_is};
use crate::xml::{
    XmlAttr, XmlEvent, attributes_of, attrs_of, event_text, markup_events, text_chars, xml_events,
};

verus! {

/// A hard error of the markup reader, with its description.
#[derive(Debug, Clone)]
pub struct ReadError {
    pub message: String,
}

/// The state of a structured read.
pub struct BuildState {
    pub in_body: bool,
    pub elements: Seq<ElementView>,
    pub runs: Seq<RunView>,
    pub style: StyleView,
    pub pending: Seq<char>,
    pub rows: Seq<Seq<Seq<RunView>>>,
    pub row: Seq<Seq<RunView>>,
    pub items: Seq<Seq<RunView>>,
    pub done: bool,
    pub failed: bool,
}

pub open spec fn initial_build() -> BuildState {
    BuildState {
        in_body: false,
        elements: Seq::empty(),
        runs: Seq::empty(),
        style: plain_style(),
        pending: Seq::empty(),
        rows: Seq::empty(),
        row: Seq::empty(),
        items: Seq::empty(),
        done: false,
        failed: false,
    }
}

/// Pending text, if any, becomes a run in the active style.
pub open spec fn flush(s: BuildState) -> BuildState {
    if s.pending.len() > 0 {
        BuildState { runs: s.runs.push(RunView { text: s.pending, style: s.style }), pending: Seq::empty(), ..s }
    } else {
        s
    }
}

/// A span's start tag: each readable `text:style-name` attribute whose name the
/// catalog defines makes that style the active one.
pub open spec fn span_attrs(s: BuildState, attrs: Seq<Option<XmlAttr>>, cat: Seq<(Seq<char>, StyleView)>) -> BuildState
    decreases attrs.len(),
{
    if attrs.len() == 0 {
        s
    } else {
        let s0 = span_attrs(s, attrs.drop_last(), cat);
        match attrs.last() {
            Some(a) => if lossy_chars(a.key@) == "text:style-name"@ {
                match catalog_get(cat, lossy_chars(a.value@)) {
                    Some(st) => BuildState { style: st, ..s0 },
                    None => s0,
                }
            } else {
                s0
            },
            None => s0,
        }
    }
}

pub open spec fn start_step(s: BuildState, ln: Seq<char>, attrs: Seq<Option<XmlAttr>>, cat: Seq<(Seq<char>, StyleView)>) -> BuildState {
    if ln == "body"@ {
        BuildState { in_body: true, ..s }
    } else if ln == "p"@ || ln == "h"@ {
        BuildState { runs: Seq::empty(), style: plain_style(), pending: Seq::empty(), ..s }
    } else if ln == "span"@ {
        span_attrs(s, attrs, cat)
    } else if ln == "list"@ {
        BuildState { items: Seq::empty(), ..s }
    } else if ln == "list-item"@ || ln == "table-cell"@ {
        BuildState { runs: Seq::empty(), ..s }
    } else if ln == "table"@ {
        BuildState { rows: Seq::empty(), ..s }
    } else if ln == "table-row"@ {
        BuildState { row: Seq::empty(), ..s }
    } else {
        s
    }
}

/// A closed paragraph or heading: its runs become an element unless there are none.
pub open spec fn close_block(s: BuildState, heading: bool) -> BuildState {
    let f = flush(s);
    let e = if heading {
        ElementView::Heading { level: 1, runs: f.runs }
    } else {
        ElementView::Paragraph { runs: f.runs }
    };
    BuildState {
        elements: if f.runs.len() > 0 { f.elements.push(e) } else { f.elements },
        runs: Seq::empty(),
        ..f
    }
}

pub open spec fn end_step(s: BuildState, ln: Seq<char>) -> BuildState {
    if ln == "p"@ {
        close_block(s, false)
    } else if ln == "h"@ {
        close_block(s, true)
    } else if ln == "span"@ {
        BuildState { style: plain_style(), ..flush(s) }
    } else if ln == "list-item"@ {
        let f = flush(s);
        BuildState { items: f.items.push(f.runs), runs: Seq::empty(), ..f }
    } else if ln == "list"@ {
        BuildState {
            elements: if s.items.len() > 0 {
                s.elements.push(ElementView::List { items: s.items, ordered: false })
            } else {
                s.elements
            },
            items: Seq::empty(),
            ..s
        }
    } else if ln == "table-cell"@ {
        let f = flush(s);
        BuildState { row: f.row.push(f.runs), runs: Seq::empty(), ..f }
    } else if ln == "table-row"@ {
        BuildState { rows: s.rows.push(s.row), row: Seq::empty(), ..s }
    } else if ln == "table"@ {
        BuildState {
            elements: if s.rows.len() > 0 {
                s.elements.push(ElementView::Table { rows: s.rows })
            } else {
                s.elements
            },
            rows: Seq::empty(),
            ..s
        }
    } else if ln == "line-break"@ {
        BuildState { elements: s.elements.push(ElementView::LineBreak), ..s }
    } else {
        s
    }
}

/// One event of a content stream.
pub open spec fn build_step(s: BuildState, e: XmlEvent, cat: Seq<(Seq<char>, StyleView)>) -> BuildState {
    match e {
        XmlEvent::Start { name, content } => start_step(s, local_text(name@), attrs_of(name@, content@), cat),
        XmlEvent::Empty { name, content } => {
            let s1 = start_step(s, local_text(name@), attrs_of(name@, content@), cat);
            if s1.in_body { end_step(s1, local_text(name@)) } else { s1 }
        },
        XmlEvent::End { name } => if s.in_body { end_step(s, local_text(name@)) } else { s },
        XmlEvent::Text { raw } => if s.in_body {
            BuildState { pending: s.pending + text_chars(raw@), ..s }
        } else {
            s
        },
        XmlEvent::CData { raw } => if s.in_body {
            BuildState { pending: s.pending + lossy_chars(raw@), ..s }
        } else {
            s
        },
        XmlEvent::Eof => BuildState { done: true, ..s },
        XmlEvent::Fail { .. } => BuildState { done: true, failed: true, ..s },
        _ => s,
    }
}

/// The read after a sequence of events; nothing after the end of the stream counts.
pub open spec fn build(events: Seq<XmlEvent>, cat: Seq<(Seq<char>, StyleView)>) -> BuildState
    decreases events.len(),
{
    if events.len() == 0 {
        initial_build()
    } else {
        let s = build(events.drop_last(), cat);
        if s.done { s } else { build_step(s, events.last(), cat) }
    }
}

/// What a structured read returns for these events: the document, or an error
/// exactly when the markup reader failed.
pub open spec fn structured_matches(
    r: Result<StructuredDocument, ReadError>,
    events: Seq<XmlEvent>,
    cat: Seq<(Seq<char>, StyleView)>,
) -> bool {
    let b = build(events, cat);
    match r {
        Ok(d) => !b.failed && elements_view(d.elements@) == b.elements && d.styles@ == cat,
        Err(_) => b.failed,
    }
}

struct Builder {
    in_body: bool,
    elements: Vec<DocumentElement>,
    runs: Vec<TextRun>,
    style: TextStyle,
    pending: String,
    rows: Vec<Vec<Vec<TextRun>>>,
    row: Vec<Vec<TextRun>>,
    items: Vec<Vec<TextRun>>,
    done: bool,
    failed: bool,
    message: String,
}

impl Builder {
    spec fn model(&self) -> BuildState {
        BuildState {
            in_body: self.in_body,
            elements: elements_view(self.elements@),
            runs: runs_view(self.runs@),
            style: self.style@,
            pending: self.pending@,
            rows: rows_view(self.rows@),
            row: items_view(self.row@),
            items: items_view(self.items@),
            done: self.done,
            failed: self.failed,
        }
    }

    fn new() -> (r: Builder)
        ensures
            r.model() == initial_build(),
    {
        let r = Builder {
            in_body: false,
            elements: Vec::new(),
            runs: Vec::new(),
            style: TextStyle::default(),
            pending: String::new(),
            rows: Vec::new(),
            row: Vec::new(),
            items: Vec::new(),
            done: false,
            failed: false,
            message: String::new(),
        };
        proof {
            assert(r.model().elements =~= Seq::<ElementView>::empty());
            assert(r.model().runs =~= Seq::<RunView>::empty());
            assert(r.model().rows =~= Seq::<Seq<Seq<RunView>>>::empty());
            assert(r.model().row =~= Seq::<Seq<RunView>>::empty());
            assert(r.model().items =~= Seq::<Seq<RunView>>::empty());
        }
        r
    }

    fn take_runs(&mut self) -> (r: Vec<TextRun>)
        ensures
            runs_view(r@) == old(self).model().runs,
            final(self).model() == (BuildState { runs: Seq::empty(), ..old(self).model() }),
    {
        let mut r: Vec<TextRun> = Vec::new();
        std::mem::swap(&mut self.runs, &mut r);
        proof {
            assert(runs_view(self.runs@) =~= Seq::<RunView>::empty());
        }
        r
    }

    fn flush(&mut self)
        ensures
            final(self).model() == flush(old(self).model()),
    {
        if self.pending.unicode_len() > 0 {
            let mut text = String::new();
            std::mem::swap(&mut self.pending, &mut text);
            let ghost before = self.runs@;
            self.runs.push(TextRun { text, style: self.style.copy() });
            proof {
                assert(runs_view(self.runs@) =~= runs_view(before).push(RunView { text: text@, style: self.style@ }));
            }
        }
    }

    fn span_attrs(&mut self, attrs: &Vec<Option<XmlAttr>>, cat: &StyleCatalog)
        ensures
            final(self).model() == span_attrs(old(self).model(), attrs@, cat@),
    {
        let mut i: usize = 0;
        while i < attrs.len()
            invariant
                i <= attrs.len(),
                self.model() == span_attrs(old(self).model(), attrs@.take(i as int), cat@),
            decreases attrs.len() - i,
        {
            proof {
                assert(attrs@.take(i + 1).drop_last() =~= attrs@.take(i as int));
            }
            match &attrs[i] {
                Some(a) => {
                    let key = lossy_string(a.key.as_slice());
                    if str_is(&key, "text:style-name") {
                        let name = lossy_string(a.value.as_slice());
                        match cat.get(&name) {
                            Some(st) => {
                                self.style = st;
                            },
                            None => {},
                        }
                    }
                },
                None => {},
            }
            i = i + 1;
        }
        proof {
            assert(attrs@.take(attrs.len() as int) =~= attrs@);
        }
    }

    fn start(&mut self, ln: &String, attrs: &Vec<Option<XmlAttr>>, cat: &StyleCatalog)
        ensures
            final(self).model() == start_step(old(self).model(), ln@, attrs@, cat@),
    {
        if str_is(ln, "body") {
            self.in_body = true;
        } else if str_is(ln, "p") || str_is(ln, "h") {
            self.take_runs();
            self.style = TextStyle::default();
            self.pending = String::new();
        } else if str_is(ln, "span") {
            self.span_attrs(attrs, cat);
        } else if str_is(ln, "list") {
            self.items = Vec::new();
            proof {
                assert(items_view(self.items@) =~= Seq::<Seq<RunView>>::empty());
            }
        } else if str_is(ln, "list-item") || str_is(ln, "table-cell") {
            self.take_runs();
        } else if str_is(ln, "table") {
            self.rows = Vec::new();
            proof {
                assert(rows_view(self.rows@) =~= Seq::<Seq<Seq<RunView>>>::empty());
            }
        } else if str_is(ln, "table-row") {
            self.row = Vec::new();
            proof {
                assert(items_view(self.row@) =~= Seq::<Seq<RunView>>::empty());
            }
        }
    }

    fn close_block(&mut self, heading: bool)
        ensures
            final(self).model() == close_block(old(self).model(), heading),
    {
        self.flush();
        let runs = self.take_runs();
        if runs.len() > 0 {
            let ghost before = self.elements@;
            let e = if heading {
                DocumentElement::Heading { level: 1, runs }
            } else {
                DocumentElement::Paragraph { runs }
            };
            self.elements.push(e);
            proof {
                assert(elements_view(self.elements@) =~= elements_view(before).push(e@));
            }
        }
    }

    fn end(&mut self, ln: &String)
        ensures
            final(self).model() == end_step(old(self).model(), ln@),
    {
        if str_is(ln, "p") {
            self.close_block(false);
        } else if str_is(ln, "h") {
            self.close_block(true);
        } else if str_is(ln, "span") {
            self.flush();
            self.style = TextStyle::default();
        } else if str_is(ln, "list-item") {
            self.flush();
            let runs = self.take_runs();
            let ghost before = self.items@;
            self.items.push(runs);
            proof {
                assert(items_view(self.items@) =~= items_view(before).push(runs_view(runs@)));
            }
        } else if str_is(ln, "list") {
            let mut items: Vec<Vec<TextRun>> = Vec::new();
            std::mem::swap(&mut self.items, &mut items);
            proof {
                assert(items_view(self.items@) =~= Seq::<Seq<RunView>>::empty());
            }
            if items.len() > 0 {
                let ghost before = self.elements@;
                let e = DocumentElement::List { items, ordered: false };
                self.elements.push(e);
                proof {
                    assert(elements_view(self.elements@) =~= elements_view(before).push(e@));
                }
            }
        } else if str_is(ln, "table-cell") {
            self.flush();
            let runs = self.take_runs();
            let ghost before = self.row@;
            self.row.push(runs);
            proof {
                assert(items_view(self.row@) =~= items_view(before).push(runs_view(runs@)));
            }
        } else if str_is(ln, "table-row") {
            let mut row: Vec<Vec<TextRun>> = Vec::new();
            std::mem::swap(&mut self.row, &mut row);
            let ghost before = self.rows@;
            self.rows.push(row);
            proof {
                assert(items_view(self.row@) =~= Seq::<Seq<RunView>>::empty());
                assert(rows_view(self.rows@) =~= rows_view(before).push(items_view(row@)));
            }
        } else if str_is(ln, "table") {
            let mut rows: Vec<Vec<Vec<TextRun>>> = Vec::new();
            std::mem::swap(&mut self.rows, &mut rows);
            proof {
                assert(rows_view(self.rows@) =~= Seq::<Seq<Seq<RunView>>>::empty());
            }
            if rows.len() > 0 {
                let ghost before = self.elements@;
                let e = DocumentElement::Table { rows };
                self.elements.push(e);
                proof {
                    assert(elements_view(self.elements@) =~= elements_view(before).push(e@));
                }
            }
        } else if str_is(ln, "line-break") {
            let ghost before = self.elements@;
            self.elements.push(DocumentElement::LineBreak);
            proof {
                assert(elements_view(self.elements@) =~= elements_view(before).push(ElementView::LineBreak));
            }
        }
    }

    fn step(&mut self, e: &XmlEvent, cat: &StyleCatalog)
        ensures
            final(self).model() == build_step(old(self).model(), *e, cat@),
    {
        match e {
            XmlEvent::Start { name, content } => {
                let ln = local_name_text(name.as_slice());
                let attrs = attributes_of(name, content);
                self.start(&ln, &attrs, cat);
            },
            XmlEvent::Empty { name, content } => {
                let ln = local_name_text(name.as_slice());
                let attrs = attributes_of(name, content);
                self.start(&ln, &attrs, cat);
                if self.in_body {
                    self.end(&ln);
                }
            },
            XmlEvent::End { name } => {
                if self.in_body {
                    let ln = local_name_text(name.as_slice());
                    self.end(&ln);
                }
            },
            XmlEvent::Text { raw } => {
                if self.in_body {
                    let t = event_text(raw);
                    self.pending.append(t.as_str());
                }
            },
            XmlEvent::CData { raw } => {
                if self.in_body {
                    let t = lossy_string(raw.as_slice());
                    self.pending.append(t.as_str());
                }
            },
            XmlEvent::Eof => {
                self.done = true;
            },
            XmlEvent::Fail { message } => {
                self.done = true;
                self.failed = true;
                self.message = message.clone();
            },
            _ => {},
        }
    }
}

/// Once a read is done, later events leave it as it is.
proof fn lemma_build_done_stays(events: Seq<XmlEvent>, cat: Seq<(Seq<char>, StyleView)>, i: int)
    requires
        0 <= i <= events.len(),
        i == events.len() || build(events.take(i), cat).done,
    ensures
        build(events, cat) == build(events.take(i), cat),
    decreases events.len() - i,
{
    if i == events.len() {
        assert(events.take(i) =~= events);
    } else {
        assert(events.take(i + 1).drop_last() =~= events.take(i));
        lemma_build_done_stays(events, cat, i + 1);
    }
}

/// Builds the structured document of a content event stream, resolving span styles in `styles`.
pub fn read_structured_events(events: &Vec<XmlEvent>, styles: StyleCatalog) -> (r: Result<StructuredDocument, ReadError>)
    ensures
        structured_matches(r, events@, styles@),
{
    let mut b = Builder::new();
    let mut i: usize = 0;
    while i < events.len() && !b.done
        invariant
            i <= events.len(),
            b.model() == build(events@.take(i as int), styles@),
        decreases events.len() - i,
    {
        proof {
            assert(events@.take(i + 1).drop_last() =~= events@.take(i as int));
        }
        b.step(&events[i], &styles);
        i = i + 1;
    }
    proof {
        lemma_build_done_stays(events@, styles@, i as int);
    }
    if b.failed {
        Err(ReadError { message: b.message })
    } else {
        Ok(StructuredDocument { elements: b.elements, styles })
    }
}

/// The catalog that an optional style-definition document yields: none without one.
pub open spec fn styles_catalog(styles_xml: Option<Seq<char>>) -> Seq<(Seq<char>, StyleView)> {
    match styles_xml {
        None => Seq::empty(),
        Some(x) => catalog_of_events(markup_events(x)),
    }
}

pub open spec fn opt_str_view(o: Option<&str>) -> Option<Seq<char>> {
    match o {
        Some(s) => Some(s@),
        None => None,
    }
}

/// What reading a content document with a catalog gives: the document's elements,
/// or an error exactly when the markup reader failed.
pub open spec fn odt_outcome(content_xml: Seq<char>, cat: Seq<(Seq<char>, StyleView)>) -> BuildState {
    build(markup_events(content_xml), cat)
}

/// Reads the content document `content_xml` of an open-document container, with
/// the container's style-definition document if it has one.
pub fn read_odt_structured_xml(content_xml: &str, styles_xml: Option<&str>) -> (r: Result<StructuredDocument, ReadError>)
    ensures
        structured_matches(r, markup_events(content_xml@), styles_catalog(opt_str_view(styles_xml))),
{
    let styles = match styles_xml {
        Some(x) => parse_odt_styles(x),
        None => StyleCatalog::new(),
    };
    let events = xml_events(content_xml);
    read_structured_events(&events, styles)
}

/// Reads the content of an open-document container as plain text: the text of its structured form.
pub fn read_odt_text_xml(content_xml: &str, styles_xml: Option<&str>) -> (r: Result<String, ReadError>)
    ensures
        ({
            let b = odt_outcome(content_xml@, styles_catalog(opt_str_view(styles_xml)));
            match r {
                Ok(t) => !b.failed && t@ == elements_text(b.elements),
                Err(_) => b.failed,
            }
        }),
{
    match read_odt_structured_xml(content_xml, styles_xml) {
        Ok(d) => Ok(d.to_plain_text()),
        Err(e) => Err(e),
    }
}

/// The state of a plain-text read of a word-processor body.
pub struct TextScan {
    pub text: Seq<char>,
    pub done: bool,
    pub failed: bool,
}

/// One event of a word-processor body: each paragraph, closed or self-closing, ends a line.
pub open spec fn text_step(s: TextScan, e: XmlEvent) -> TextScan {
    match e {
        XmlEvent::Empty { name, .. } => if local_text(name@) == "p"@ {
            TextScan { text: s.text.push('\n'), ..s }
        } else {
            s
        },
        XmlEvent::End { name } => if local_text(name@) == "p"@ {
            TextScan { text: s.text.push('\n'), ..s }
        } else {
            s
        },
        XmlEvent::Text { raw } => TextScan { text: s.text + text_chars(raw@), ..s },
        XmlEvent::CData { raw } => TextScan { text: s.text + lossy_chars(raw@), ..s },
        XmlEvent::Eof => TextScan { done: true, ..s },
        XmlEvent::Fail { .. } => TextScan { done: true, failed: true, ..s },
        _ => s,
    }
}

pub open spec fn text_scan(events: Seq<XmlEvent>) -> TextScan
    decreases events.len(),
{
    if events.len() == 0 {
        TextScan { text: Seq::empty(), done: false, failed: false }
    } else {
        let s = text_scan(events.drop_last());
        if s.done { s } else { text_step(s, events.last()) }
    }
}

proof fn lemma_text_done_stays(events: Seq<XmlEvent>, i: int)
    requires
        0 <= i <= events.len(),
        i == events.len() || text_scan(events.take(i)).done,
    ensures
        text_scan(events) == text_scan(events.take(i)),
    decreases events.len() - i,
{
    if i == events.len() {
        assert(events.take(i) =~= events);
    } else {
        assert(events.take(i + 1).drop_last() =~= events.take(i));
        lemma_text_done_stays(events, i + 1);
    }
}

/// The raw text of a word-processor body event stream, one line per paragraph.
pub fn read_docx_text_events(events: &Vec<XmlEvent>) -> (r: Result<String, ReadError>)
    ensures
        match r {
            Ok(t) => !text_scan(events@).failed && t@ == text_scan(events@).text,
            Err(_) => text_scan(events@).failed,
        },
{
    let mut out = String::new();
    let mut done = false;
    let mut failed = false;
    let mut message = String::new();
    let mut i: usize = 0;
    while i < events.len() && !done
        invariant
            i <= events.len(),
            (TextScan { text: out@, done, failed }) == text_scan(events@.take(i as int)),
        decreases events.len() - i,
    {
        proof {
            assert(events@.take(i + 1).drop_last() =~= events@.take(i as int));
        }
        match &events[i] {
            XmlEvent::Empty { name, .. } => {
                if str_is(&local_name_text(name.as_slice()), "p") {
                    push_char(&mut out, '\n');
                }
            },
            XmlEvent::End { name } => {
                if str_is(&local_name_text(name.as_slice()), "p") {
                    push_char(&mut out, '\n');
                }
            },
            XmlEvent::Text { raw } => {
                let t = event_text(raw);
                out.append(t.as_str());
            },
            XmlEvent::CData { raw } => {
                let t = lossy_string(raw.as_slice());
                out.append(t.as_str());
            },
            XmlEvent::Eof => {
                done = true;
            },
            XmlEvent::Fail { message: m } => {
                done = true;
                failed = true;
                message = m.clone();
            },
            _ => {},
        }
        i = i + 1;
    }
    proof {
        lemma_text_done_stays(events@, i as int);
    }
    if failed {
        Err(ReadError { message })
    } else {
        Ok(out)
    }
}

/// Reads the body document of a word-processor container as raw text.
pub fn read_docx_text_xml(document_xml: &str) -> (r: Result<String, ReadError>)
    ensures
        match r {
            Ok(t) => !text_scan(markup_events(document_xml@)).failed && t@ == text_scan(
                markup_events(document_xml@),
            ).text,
            Err(_) => text_scan(markup_events(document_xml@)).failed,
        },
{
    let events = xml_events(document_xml);
    read_docx_text_events(&events)
}

/// The read of `events` continued from state `s`.
pub open spec fn build_from(s: BuildState, events: Seq<XmlEvent>, cat: Seq<(Seq<char>, StyleView)>) -> BuildState
    decreases events.len(),
{
    if events.len() == 0 {
        s
    } else {
        let t = build_from(s, events.drop_last(), cat);
        if t.done { t } else { build_step(t, events.last(), cat) }
    }
}

proof fn lemma_build_append(a: Seq<XmlEvent>, b: Seq<XmlEvent>, cat: Seq<(Seq<char>, StyleView)>)
    ensures
        build(a + b, cat) == build_from(build(a, cat), b, cat),
    decreases b.len(),
{
    if b.len() == 0 {
        assert(a + b =~= a);
    } else {
        assert((a + b).drop_last() =~= a + b.drop_last());
        lemma_build_append(a, b.drop_last(), cat);
    }
}

/// The events of one paragraph holding text: its start tag, one text event that
/// decodes to at least one character, and its end tag.
pub open spec fn filled_paragraph(g: Seq<XmlEvent>) -> bool {
    &&& g.len() == 3
    &&& g[0] is Start && local_text(g[0]->Start_name@) == "p"@
    &&& g[1] is Text && text_chars(g[1]->Text_raw@).len() > 0
    &&& g[2] is End && local_text(g[2]->End_name@) == "p"@
}

/// The characters of a paragraph's text event.
pub open spec fn paragraph_chars(g: Seq<XmlEvent>) -> Seq<char> {
    text_chars(g[1]->Text_raw@)
}

/// The events of one paragraph with nothing in it: its start tag and its end tag.
pub open spec fn empty_paragraph(g: Seq<XmlEvent>) -> bool {
    &&& g.len() == 2
    &&& g[0] is Start && local_text(g[0]->Start_name@) == "p"@
    &&& g[1] is End && local_text(g[1]->End_name@) == "p"@
}

pub open spec fn concat_groups(gs: Seq<Seq<XmlEvent>>) -> Seq<XmlEvent>
    decreases gs.len(),
{
    if gs.len() == 0 { Seq::empty() } else { concat_groups(gs.drop_last()) + gs.last() }
}

/// How many of the groups hold text.
pub open spec fn filled_count(gs: Seq<Seq<XmlEvent>>) -> nat
    decreases gs.len(),
{
    if gs.len() == 0 {
        0
    } else {
        filled_count(gs.drop_last()) + if filled_paragraph(gs.last()) { 1nat } else { 0nat }
    }
}

proof fn lemma_one_paragraph(s: BuildState, g: Seq<XmlEvent>, cat: Seq<(Seq<char>, StyleView)>)
    requires
        s.in_body,
        !s.done,
        filled_paragraph(g) || empty_paragraph(g),
    ensures
        build_from(s, g, cat).in_body,
        !build_from(s, g, cat).done,
        build_from(s, g, cat).elements.len() == s.elements.len() + if filled_paragraph(g) { 1int } else { 0int },
        build_from(s, g, cat).elements.take(s.elements.len() as int) == s.elements,
        filled_paragraph(g) ==> build_from(s, g, cat).elements == s.elements.push(
            ElementView::Paragraph { runs: seq![RunView { text: paragraph_chars(g), style: plain_style() }] },
        ),
{
    reveal_strlit("p");
    reveal_strlit("h");
    reveal_strlit("body");
    let ln = "p"@;
    assert("p"@.len() == 1 && "h"@.len() == 1 && "body"@.len() == 4);
    assert(ln != "body"@);
    let s1 = start_step(s, ln, attrs_of(g[0]->Start_name@, g[0]->Start_content@), cat);
    assert(s1.runs.len() == 0 && s1.pending.len() == 0 && s1.elements == s.elements);
    if filled_paragraph(g) {
        let g1 = g.drop_last().drop_last();
        assert(g1.drop_last() =~= Seq::<XmlEvent>::empty());
        assert(g1.last() == g[0]);
        assert(build_from(s, g1.drop_last(), cat) == s);
        assert(build_step(s, g[0], cat) == s1);
        assert(build_from(s, g1, cat) == s1);
        assert(g.drop_last().last() == g[1]);
        assert(g.drop_last().drop_last() == g1);
        let s2 = build_from(s, g.drop_last(), cat);
        assert(s2.pending.len() > 0 && s2.runs.len() == 0 && s2.elements == s.elements);
        let s3 = build_from(s, g, cat);
        assert(s3 == end_step(s2, ln));
        assert(flush(s2).runs =~= seq![RunView { text: paragraph_chars(g), style: plain_style() }]);
        assert(s3.elements == s.elements.push(ElementView::Paragraph { runs: flush(s2).runs }));
        assert(s3.elements.take(s.elements.len() as int) =~= s.elements);
    } else {
        let g1 = g.drop_last();
        assert(g1.drop_last() =~= Seq::<XmlEvent>::empty());
        assert(g1.last() == g[0]);
        assert(build_from(s, g1.drop_last(), cat) == s);
        assert(build_step(s, g[0], cat) == s1);
        assert(build_from(s, g1, cat) == s1);
        let s3 = build_from(s, g, cat);
        assert(s3 == end_step(s1, ln));
        assert(s3.elements == s.elements);
        assert(s3.elements.take(s.elements.len() as int) =~= s.elements);
    }
}

/// Within the body, a sequence of paragraphs adds one element for each paragraph
/// that holds text and none for an empty one, after the elements already read.
pub proof fn lemma_paragraph_count(head: Seq<XmlEvent>, gs: Seq<Seq<XmlEvent>>, cat: Seq<(Seq<char>, StyleView)>)
    requires
        build(head, cat).in_body,
        !build(head, cat).done,
        forall|i: int| 0 <= i < gs.len() ==> filled_paragraph(#[trigger] gs[i]) || empty_paragraph(gs[i]),
    ensures
        build(head + concat_groups(gs), cat).elements.len() == build(head, cat).elements.len() + filled_count(gs),
        build(head + concat_groups(gs), cat).elements.take(build(head, cat).elements.len() as int)
            == build(head, cat).elements,
        build(head + concat_groups(gs), cat).in_body,
        !build(head + concat_groups(gs), cat).done,
    decreases gs.len(),
{
    if gs.len() == 0 {
        assert(head + concat_groups(gs) =~= head);
        assert(build(head, cat).elements.take(build(head, cat).elements.len() as int) =~= build(head, cat).elements);
    } else {
        let init = gs.drop_last();
        assert forall|i: int| 0 <= i < init.len() implies filled_paragraph(#[trigger] init[i]) || empty_paragraph(init[i]) by {
            assert(init[i] == gs[i]);
        }
        lemma_paragraph_count(head, init, cat);
        let a = head + concat_groups(init);
        assert(head + concat_groups(gs) =~= a + gs.last());
        lemma_build_append(a, gs.last(), cat);
        assert(gs.last() == gs[gs.len() - 1]);
        lemma_one_paragraph(build(a, cat), gs.last(), cat);
        let before = build(head, cat).elements;
        let mid = build(a, cat).elements;
        let fin = build(head + concat_groups(gs), cat).elements;
        assert(fin.take(before.len() as int) =~= fin.take(mid.len() as int).take(before.len() as int));
    }
}

/// The text of each paragraph group.
pub open spec fn group_texts(gs: Seq<Seq<XmlEvent>>) -> Seq<Seq<char>> {
    gs.map_values(|g: Seq<XmlEvent>| paragraph_chars(g))
}

/// Within the body, paragraphs each holding one text event read back as those
/// texts: the plain text gains each one, followed by a newline, in order.
pub proof fn lemma_paragraph_lines(head: Seq<XmlEvent>, gs: Seq<Seq<XmlEvent>>, cat: Seq<(Seq<char>, StyleView)>)
    requires
        build(head, cat).in_body,
        !build(head, cat).done,
        forall|i: int| 0 <= i < gs.len() ==> filled_paragraph(#[trigger] gs[i]),
    ensures
        elements_text(build(head + concat_groups(gs), cat).elements) == elements_text(build(head, cat).elements)
            + joined_lines(group_texts(gs)),
        build(head + concat_groups(gs), cat).in_body,
        !build(head + concat_groups(gs), cat).done,
    decreases gs.len(),
{
    if gs.len() == 0 {
        assert(head + concat_groups(gs) =~= head);
        assert(elements_text(build(head, cat).elements) + joined_lines(group_texts(gs)) =~= elements_text(build(head, cat).elements));
    } else {
        let init = gs.drop_last();
        assert forall|i: int| 0 <= i < init.len() implies filled_paragraph(#[trigger] init[i]) by {
            assert(init[i] == gs[i]);
        }
        lemma_paragraph_lines(head, init, cat);
        let a = head + concat_groups(init);
        assert(head + concat_groups(gs) =~= a + gs.last());
        lemma_build_append(a, gs.last(), cat);
        assert(gs.last() == gs[gs.len() - 1]);
        lemma_one_paragraph(build(a, cat), gs.last(), cat);
        let mid = build(a, cat).elements;
        let r = RunView { text: paragraph_chars(gs.last()), style: plain_style() };
        let e = ElementView::Paragraph { runs: seq![r] };
        assert(mid.push(e).drop_last() =~= mid);
        assert(seq![r].drop_last() =~= Seq::<RunView>::empty());
        assert(runs_text(seq![r].drop_last()) == Seq::<char>::empty());
        assert(seq![r].last() == r);
        assert(runs_text(seq![r]) =~= r.text);
        assert(element_text(e) =~= paragraph_chars(gs.last()).push('\n'));
        assert(group_texts(gs).drop_last() =~= group_texts(init));
        assert(elements_text(build(head, cat).elements) + joined_lines(group_texts(gs)) =~= elements_text(build(head, cat).elements) + joined_lines(group_texts(init)) + paragraph_chars(gs.last()).push('\n'));
    }
}

} // verus!
