//! Rendering a structured document to HTML and to plain text.
use vstd::prelude::*;
use crate::model::{
    plain_style,
    DocumentElement, ElementView, RunView, StructuredDocument, TextRun, elements_view, items_view,
    rows_view, runs_view,
};
use crate::text::{decimal, escape, push_char, push_decimal, push_escaped};

verus! {

/// A run as HTML: its escaped text wrapped in `<b>`, then `<i>`, then `<u>` as its flags say.
pub open spec fn run_html(r: RunView) -> Seq<char> {
    let t = escape(r.text);
    let t1 = if r.style.bold { "<b>"@ + t + "</b>"@ } else { t };
    let t2 = if r.style.italic { "<i>"@ + t1 + "</i>"@ } else { t1 };
    if r.style.underline { "<u>"@ + t2 + "</u>"@ } else { t2 }
}

pub open spec fn runs_html(s: Seq<RunView>) -> Seq<char>
    decreases s.len(),
{
    if s.len() == 0 { Seq::empty() } else { runs_html(s.drop_last()) + run_html(s.last()) }
}

pub open spec fn items_html(s: Seq<Seq<RunView>>) -> Seq<char>
    decreases s.len(),
{
    if s.len() == 0 {
        Seq::empty()
    } else {
        items_html(s.drop_last()) + "<li>"@ + runs_html(s.last()) + "</li>"@
    }
}

pub open spec fn cells_html(s: Seq<Seq<RunView>>) -> Seq<char>
    decreases s.len(),
{
    if s.len() == 0 {
        Seq::empty()
    } else {
        cells_html(s.drop_last()) + "<td>"@ + runs_html(s.last()) + "</td>"@
    }
}

pub open spec fn rows_html(s: Seq<Seq<Seq<RunView>>>) -> Seq<char>
    decreases s.len(),
{
    if s.len() == 0 {
        Seq::empty()
    } else {
        rows_html(s.drop_last()) + "<tr>"@ + cells_html(s.last()) + "</tr>"@
    }
}

pub open spec fn element_html(e: ElementView) -> Seq<char> {
    match e {
        ElementView::Paragraph { runs } => "<p>"@ + runs_html(runs) + "</p>\n"@,
        ElementView::Heading { level, runs } => "<h"@ + decimal(level as nat) + ">"@ + runs_html(runs)
            + "</h"@ + decimal(level as nat) + ">\n"@,
        ElementView::List { items, ordered } => if ordered {
            "<ol>"@ + items_html(items) + "</ol>"@
        } else {
            "<ul>"@ + items_html(items) + "</ul>"@
        },
        ElementView::Table { rows } => "<table>"@ + rows_html(rows) + "</table>"@,
        ElementView::LineBreak => "<br/>\n"@,
    }
}

pub open spec fn elements_html(s: Seq<ElementView>) -> Seq<char>
    decreases s.len(),
{
    if s.len() == 0 { Seq::empty() } else { elements_html(s.drop_last()) + element_html(s.last()) }
}

pub open spec fn runs_text(s: Seq<RunView>) -> Seq<char>
    decreases s.len(),
{
    if s.len() == 0 { Seq::empty() } else { runs_text(s.drop_last()) + s.last().text }
}

/// Each list item's text followed by a newline.
pub open spec fn items_text(s: Seq<Seq<RunView>>) -> Seq<char>
    decreases s.len(),
{
    if s.len() == 0 { Seq::empty() } else { items_text(s.drop_last()) + runs_text(s.last()).push('\n') }
}

/// Each cell's text followed by a tab.
pub open spec fn cells_text(s: Seq<Seq<RunView>>) -> Seq<char>
    decreases s.len(),
{
    if s.len() == 0 { Seq::empty() } else { cells_text(s.drop_last()) + runs_text(s.last()).push('\t') }
}

/// Each row's cells followed by a newline.
pub open spec fn rows_text(s: Seq<Seq<Seq<RunView>>>) -> Seq<char>
    decreases s.len(),
{
    if s.len() == 0 { Seq::empty() } else { rows_text(s.drop_last()) + cells_text(s.last()).push('\n') }
}

pub open spec fn element_text(e: ElementView) -> Seq<char> {
    match e {
        ElementView::Paragraph { runs } => runs_text(runs).push('\n'),
        ElementView::Heading { runs, .. } => runs_text(runs).push('\n'),
        ElementView::List { items, .. } => items_text(items),
        ElementView::Table { rows } => rows_text(rows),
        ElementView::LineBreak => seq!['\n'],
    }
}

pub open spec fn elements_text(s: Seq<ElementView>) -> Seq<char>
    decreases s.len(),
{
    if s.len() == 0 { Seq::empty() } else { elements_text(s.drop_last()) + element_text(s.last()) }
}

fn push_run_html(out: &mut String, run: &TextRun)
    ensures
        final(out)@ == old(out)@ + run_html(run@),
{
    let st = &run.style;
    if st.underline {
        out.append("<u>");
    }
    if st.italic {
        out.append("<i>");
    }
    if st.bold {
        out.append("<b>");
    }
    push_escaped(out, run.text.as_str());
    if st.bold {
        out.append("</b>");
    }
    if st.italic {
        out.append("</i>");
    }
    if st.underline {
        out.append("</u>");
    }
    proof {
        assert(final(out)@ =~= old(out)@ + run_html(run@));
    }
}

fn push_runs_html(out: &mut String, runs: &Vec<TextRun>)
    ensures
        final(out)@ == old(out)@ + runs_html(runs_view(runs@)),
{
    let ghost v = runs_view(runs@);
    let mut i: usize = 0;
    while i < runs.len()
        invariant
            v == runs_view(runs@),
            i <= runs.len(),
            out@ == old(out)@ + runs_html(v.take(i as int)),
        decreases runs.len() - i,
    {
        push_run_html(out, &runs[i]);
        proof {
            assert(v.take(i + 1).drop_last() =~= v.take(i as int));
            assert(out@ =~= old(out)@ + runs_html(v.take(i + 1)));
        }
        i = i + 1;
    }
    proof {
        assert(v.take(runs.len() as int) =~= v);
    }
}

fn push_items_html(out: &mut String, items: &Vec<Vec<TextRun>>)
    ensures
        final(out)@ == old(out)@ + items_html(items_view(items@)),
{
    let ghost v = items_view(items@);
    let mut i: usize = 0;
    while i < items.len()
        invariant
            v == items_view(items@),
            i <= items.len(),
            out@ == old(out)@ + items_html(v.take(i as int)),
        decreases items.len() - i,
    {
        out.append("<li>");
        push_runs_html(out, &items[i]);
        out.append("</li>");
        proof {
            assert(v.take(i + 1).drop_last() =~= v.take(i as int));
            assert(out@ =~= old(out)@ + items_html(v.take(i + 1)));
        }
        i = i + 1;
    }
    proof {
        assert(v.take(items.len() as int) =~= v);
    }
}

fn push_cells_html(out: &mut String, cells: &Vec<Vec<TextRun>>)
    ensures
        final(out)@ == old(out)@ + cells_html(items_view(cells@)),
{
    let ghost v = items_view(cells@);
    let mut i: usize = 0;
    while i < cells.len()
        invariant
            v == items_view(cells@),
            i <= cells.len(),
            out@ == old(out)@ + cells_html(v.take(i as int)),
        decreases cells.len() - i,
    {
        out.append("<td>");
        push_runs_html(out, &cells[i]);
        out.append("</td>");
        proof {
            assert(v.take(i + 1).drop_last() =~= v.take(i as int));
            assert(out@ =~= old(out)@ + cells_html(v.take(i + 1)));
        }
        i = i + 1;
    }
    proof {
        assert(v.take(cells.len() as int) =~= v);
    }
}

fn push_rows_html(out: &mut String, rows: &Vec<Vec<Vec<TextRun>>>)
    ensures
        final(out)@ == old(out)@ + rows_html(rows_view(rows@)),
{
    let ghost v = rows_view(rows@);
    let mut i: usize = 0;
    while i < rows.len()
        invariant
            v == rows_view(rows@),
            i <= rows.len(),
            out@ == old(out)@ + rows_html(v.take(i as int)),
        decreases rows.len() - i,
    {
        out.append("<tr>");
        push_cells_html(out, &rows[i]);
        out.append("</tr>");
        proof {
            assert(v.take(i + 1).drop_last() =~= v.take(i as int));
            assert(out@ =~= old(out)@ + rows_html(v.take(i + 1)));
        }
        i = i + 1;
    }
    proof {
        assert(v.take(rows.len() as int) =~= v);
    }
}

fn push_element_html(out: &mut String, e: &DocumentElement)
    ensures
        final(out)@ == old(out)@ + element_html(e@),
{
    match e {
        DocumentElement::Paragraph { runs } => {
            out.append("<p>");
            push_runs_html(out, runs);
            out.append("</p>\n");
        },
        DocumentElement::Heading { level, runs } => {
            out.append("<h");
            push_decimal(out, *level);
            out.append(">");
            push_runs_html(out, runs);
            out.append("</h");
            push_decimal(out, *level);
            out.append(">\n");
        },
        DocumentElement::List { items, ordered } => {
            if *ordered {
                out.append("<ol>");
            } else {
                out.append("<ul>");
            }
            push_items_html(out, items);
            if *ordered {
                out.append("</ol>");
            } else {
                out.append("</ul>");
            }
        },
        DocumentElement::Table { rows } => {
            out.append("<table>");
            push_rows_html(out, rows);
            out.append("</table>");
        },
        DocumentElement::LineBreak => {
            out.append("<br/>\n");
        },
    }
    proof {
        assert(final(out)@ =~= old(out)@ + element_html(e@));
    }
}

fn push_runs_text(out: &mut String, runs: &Vec<TextRun>)
    ensures
        final(out)@ == old(out)@ + runs_text(runs_view(runs@)),
{
    let ghost v = runs_view(runs@);
    let mut i: usize = 0;
    while i < runs.len()
        invariant
            v == runs_view(runs@),
            i <= runs.len(),
            out@ == old(out)@ + runs_text(v.take(i as int)),
        decreases runs.len() - i,
    {
        out.append(runs[i].text.as_str());
        proof {
            assert(v.take(i + 1).drop_last() =~= v.take(i as int));
            assert(out@ =~= old(out)@ + runs_text(v.take(i + 1)));
        }
        i = i + 1;
    }
    proof {
        assert(v.take(runs.len() as int) =~= v);
    }
}

fn push_items_text(out: &mut String, items: &Vec<Vec<TextRun>>, sep: char)
    ensures
        sep == '\n' ==> final(out)@ == old(out)@ + items_text(items_view(items@)),
        sep == '\t' ==> final(out)@ == old(out)@ + cells_text(items_view(items@)),
{
    let ghost v = items_view(items@);
    let mut i: usize = 0;
    while i < items.len()
        invariant
            v == items_view(items@),
            i <= items.len(),
            sep == '\n' ==> out@ == old(out)@ + items_text(v.take(i as int)),
            sep == '\t' ==> out@ == old(out)@ + cells_text(v.take(i as int)),
        decreases items.len() - i,
    {
        push_runs_text(out, &items[i]);
        push_char(out, sep);
        proof {
            assert(v.take(i + 1).drop_last() =~= v.take(i as int));
            if sep == '\n' {
                assert(out@ =~= old(out)@ + items_text(v.take(i + 1)));
            }
            if sep == '\t' {
                assert(out@ =~= old(out)@ + cells_text(v.take(i + 1)));
            }
        }
        i = i + 1;
    }
    proof {
        assert(v.take(items.len() as int) =~= v);
    }
}

fn push_rows_text(out: &mut String, rows: &Vec<Vec<Vec<TextRun>>>)
    ensures
        final(out)@ == old(out)@ + rows_text(rows_view(rows@)),
{
    let ghost v = rows_view(rows@);
    let mut i: usize = 0;
    while i < rows.len()
        invariant
            v == rows_view(rows@),
            i <= rows.len(),
            out@ == old(out)@ + rows_text(v.take(i as int)),
        decreases rows.len() - i,
    {
        push_items_text(out, &rows[i], '\t');
        push_char(out, '\n');
        proof {
            assert(v.take(i + 1).drop_last() =~= v.take(i as int));
            assert(out@ =~= old(out)@ + rows_text(v.take(i + 1)));
        }
        i = i + 1;
    }
    proof {
        assert(v.take(rows.len() as int) =~= v);
    }
}

fn push_element_text(out: &mut String, e: &DocumentElement)
    ensures
        final(out)@ == old(out)@ + element_text(e@),
{
    match e {
        DocumentElement::Paragraph { runs } => {
            push_runs_text(out, runs);
            push_char(out, '\n');
        },
        DocumentElement::Heading { runs, .. } => {
            push_runs_text(out, runs);
            push_char(out, '\n');
        },
        DocumentElement::List { items, .. } => {
            push_items_text(out, items, '\n');
        },
        DocumentElement::Table { rows } => {
            push_rows_text(out, rows);
        },
        DocumentElement::LineBreak => {
            push_char(out, '\n');
        },
    }
    proof {
        assert(final(out)@ =~= old(out)@ + element_text(e@));
    }
}

impl StructuredDocument {
    /// The document as HTML, element by element.
    pub fn to_html(&self) -> (r: String)
        ensures
            r@ == elements_html(elements_view(self.elements@)),
    {
        let ghost v = elements_view(self.elements@);
        let mut html = String::new();
        let mut i: usize = 0;
        while i < self.elements.len()
            invariant
                v == elements_view(self.elements@),
                i <= self.elements.len(),
                html@ == elements_html(v.take(i as int)),
            decreases self.elements.len() - i,
        {
            push_element_html(&mut html, &self.elements[i]);
            proof {
                assert(v.take(i + 1).drop_last() =~= v.take(i as int));
            }
            i = i + 1;
        }
        proof {
            assert(v.take(self.elements.len() as int) =~= v);
        }
        html
    }

    /// One run as HTML.
    pub fn run_to_html(&self, run: &TextRun) -> (r: String)
        ensures
            r@ == run_html(run@),
    {
        let mut r = String::new();
        push_run_html(&mut r, run);
        proof {
            assert(r@ =~= run_html(run@));
        }
        r
    }

    /// The text of the document, element by element.
    pub fn to_plain_text(&self) -> (r: String)
        ensures
            r@ == elements_text(elements_view(self.elements@)),
    {
        let ghost v = elements_view(self.elements@);
        let mut text = String::new();
        let mut i: usize = 0;
        while i < self.elements.len()
            invariant
                v == elements_view(self.elements@),
                i <= self.elements.len(),
                text@ == elements_text(v.take(i as int)),
            decreases self.elements.len() - i,
        {
            push_element_text(&mut text, &self.elements[i]);
            proof {
                assert(v.take(i + 1).drop_last() =~= v.take(i as int));
            }
            i = i + 1;
        }
        proof {
            assert(v.take(self.elements.len() as int) =~= v);
        }
        text
    }
}

/// Every element is a paragraph whose runs carry no formatting.
pub open spec fn unstyled_paragraphs(es: Seq<ElementView>) -> bool {
    forall|i: int| 0 <= i < es.len() ==> {
        &&& (#[trigger] es[i]) is Paragraph
        &&& forall|j: int| 0 <= j < es[i]->Paragraph_runs.len() ==> (#[trigger] es[i]->Paragraph_runs[j]).style == plain_style()
    }
}

/// The text of each paragraph, one per element.
pub open spec fn paragraph_texts(es: Seq<ElementView>) -> Seq<Seq<char>> {
    es.map_values(|e: ElementView| runs_text(e->Paragraph_runs))
}

/// Lines joined, each ended by a newline.
pub open spec fn joined_lines(ls: Seq<Seq<char>>) -> Seq<char>
    decreases ls.len(),
{
    if ls.len() == 0 { Seq::empty() } else { joined_lines(ls.drop_last()) + ls.last().push('\n') }
}

/// Lines as HTML paragraphs, each escaped.
pub open spec fn html_paragraphs(ls: Seq<Seq<char>>) -> Seq<char>
    decreases ls.len(),
{
    if ls.len() == 0 {
        Seq::empty()
    } else {
        html_paragraphs(ls.drop_last()) + "<p>"@ + escape(ls.last()) + "</p>\n"@
    }
}

/// Escaping works character by character, so it distributes over concatenation.
pub proof fn lemma_escape_concat(a: Seq<char>, b: Seq<char>)
    ensures
        escape(a + b) == escape(a) + escape(b),
    decreases b.len(),
{
    if b.len() == 0 {
        assert(a + b =~= a);
        assert(escape(a) + escape(b) =~= escape(a));
    } else {
        assert((a + b).drop_last() =~= a + b.drop_last());
        lemma_escape_concat(a, b.drop_last());
        assert(escape(a + b) =~= escape(a) + escape(b));
    }
}

proof fn lemma_unstyled_runs_html(rs: Seq<RunView>)
    requires
        forall|j: int| 0 <= j < rs.len() ==> (#[trigger] rs[j]).style == plain_style(),
    ensures
        runs_html(rs) == escape(runs_text(rs)),
    decreases rs.len(),
{
    if rs.len() > 0 {
        lemma_unstyled_runs_html(rs.drop_last());
        lemma_escape_concat(runs_text(rs.drop_last()), rs.last().text);
    }
}

/// For a document of unstyled paragraphs, the plain text holds each paragraph's
/// characters unchanged, one line each, and the HTML holds the same characters,
/// escaped, one paragraph each: neither rendering loses or adds text.
pub proof fn lemma_unstyled_paragraphs_round_trip(es: Seq<ElementView>)
    requires
        unstyled_paragraphs(es),
    ensures
        elements_text(es) == joined_lines(paragraph_texts(es)),
        elements_html(es) == html_paragraphs(paragraph_texts(es)),
    decreases es.len(),
{
    if es.len() > 0 {
        let init = es.drop_last();
        assert(unstyled_paragraphs(init)) by {
            assert forall|i: int| 0 <= i < init.len() implies {
                &&& (#[trigger] init[i]) is Paragraph
                &&& forall|j: int| 0 <= j < init[i]->Paragraph_runs.len() ==> (#[trigger] init[i]->Paragraph_runs[j]).style == plain_style()
            } by {
                assert(init[i] == es[i]);
            }
        }
        lemma_unstyled_paragraphs_round_trip(init);
        assert(paragraph_texts(es).drop_last() =~= paragraph_texts(init));
        let last = es.last();
        assert(last == es[es.len() - 1]);
        assert(last is Paragraph);
        let rs = last->Paragraph_runs;
        assert forall|j: int| 0 <= j < rs.len() implies (#[trigger] rs[j]).style == plain_style() by {
            assert(es[es.len() - 1]->Paragraph_runs[j] == rs[j]);
        }
        lemma_unstyled_runs_html(rs);
        assert(paragraph_texts(es).last() == runs_text(rs));
    }
}

/// A run with all three flags set renders as its escaped text inside `<b>`, then
/// `<i>`, then `<u>`.
pub proof fn lemma_all_flags_html(r: RunView)
    requires
        r.style.bold,
        r.style.italic,
        r.style.underline,
    ensures
        run_html(r) == "<u><i><b>"@ + escape(r.text) + "</b></i></u>"@,
{
    reveal_strlit("<u><i><b>");
    reveal_strlit("</b></i></u>");
    reveal_strlit("<u>");
    reveal_strlit("<i>");
    reveal_strlit("<b>");
    reveal_strlit("</u>");
    reveal_strlit("</i>");
    reveal_strlit("</b>");
    assert(run_html(r) =~= "<u><i><b>"@ + escape(r.text) + "</b></i></u>"@);
}

} // verus!
