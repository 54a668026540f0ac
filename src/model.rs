//! The structured document model and its mathematical views.
use vstd::prelude::*;

verus! {

/// Formatting attributes of a run of text.
#[derive(Debug, Clone)]
pub struct TextStyle {
    pub bold: bool,
    pub italic: bool,
    pub underline: bool,
    pub font_size: Option<String>,
    pub font_family: Option<String>,
    pub color: Option<String>,
}

/// The view of a `TextStyle`: its flags and the characters of its optional fields.
pub struct StyleView {
    pub bold: bool,
    pub italic: bool,
    pub underline: bool,
    pub font_size: Option<Seq<char>>,
    pub font_family: Option<Seq<char>>,
    pub color: Option<Seq<char>>,
}

pub open spec fn opt_view(o: Option<String>) -> Option<Seq<char>> {
    match o {
        Some(s) => Some(s@),
        None => None,
    }
}

/// The style with every flag off and no optional attribute.
pub open spec fn plain_style() -> StyleView {
    StyleView {
        bold: false,
        italic: false,
        underline: false,
        font_size: None,
        font_family: None,
        color: None,
    }
}

impl View for TextStyle {
    type V = StyleView;

    open spec fn view(&self) -> StyleView {
        StyleView {
            bold: self.bold,
            italic: self.italic,
            underline: self.underline,
            font_size: opt_view(self.font_size),
            font_family: opt_view(self.font_family),
            color: opt_view(self.color),
        }
    }
}

impl Default for TextStyle {
    fn default() -> (r: TextStyle)
        ensures
            r@ == plain_style(),
    {
        TextStyle {
            bold: false,
            italic: false,
            underline: false,
            font_size: None,
            font_family: None,
            color: None,
        }
    }
}

pub fn copy_opt(o: &Option<String>) -> (r: Option<String>)
    ensures
        r == *o,
{
    match o {
        Some(s) => Some(s.clone()),
        None => None,
    }
}

impl TextStyle {
    /// A field-by-field copy of this style.
    pub fn copy(&self) -> (r: TextStyle)
        ensures
            r == *self,
            r@ == self@,
    {
        TextStyle {
            bold: self.bold,
            italic: self.italic,
            underline: self.underline,
            font_size: copy_opt(&self.font_size),
            font_family: copy_opt(&self.font_family),
            color: copy_opt(&self.color),
        }
    }
}

/// A contiguous span of text sharing one style.
#[derive(Debug, Clone)]
pub struct TextRun {
    pub text: String,
    pub style: TextStyle,
}

pub struct RunView {
    pub text: Seq<char>,
    pub style: StyleView,
}

impl View for TextRun {
    type V = RunView;

    open spec fn view(&self) -> RunView {
        RunView { text: self.text@, style: self.style@ }
    }
}

impl TextRun {
    pub fn copy(&self) -> (r: TextRun)
        ensures
            r@ == self@,
    {
        TextRun { text: self.text.clone(), style: self.style.copy() }
    }
}

/// One block of a structured document.
#[derive(Debug, Clone)]
pub enum DocumentElement {
    Paragraph { runs: Vec<TextRun> },
    Heading { level: u8, runs: Vec<TextRun> },
    List { items: Vec<Vec<TextRun>>, ordered: bool },
    Table { rows: Vec<Vec<Vec<TextRun>>> },
    LineBreak,
}

pub enum ElementView {
    Paragraph { runs: Seq<RunView> },
    Heading { level: u8, runs: Seq<RunView> },
    List { items: Seq<Seq<RunView>>, ordered: bool },
    Table { rows: Seq<Seq<Seq<RunView>>> },
    LineBreak,
}

pub open spec fn runs_view(v: Seq<TextRun>) -> Seq<RunView> {
    v.map_values(|r: TextRun| r@)
}

pub open spec fn items_view(v: Seq<Vec<TextRun>>) -> Seq<Seq<RunView>> {
    v.map_values(|it: Vec<TextRun>| runs_view(it@))
}

pub open spec fn rows_view(v: Seq<Vec<Vec<TextRun>>>) -> Seq<Seq<Seq<RunView>>> {
    v.map_values(|row: Vec<Vec<TextRun>>| items_view(row@))
}

impl View for DocumentElement {
    type V = ElementView;

    open spec fn view(&self) -> ElementView {
        match self {
            DocumentElement::Paragraph { runs } => ElementView::Paragraph { runs: runs_view(runs@) },
            DocumentElement::Heading { level, runs } => ElementView::Heading {
                level: *level,
                runs: runs_view(runs@),
            },
            DocumentElement::List { items, ordered } => ElementView::List {
                items: items_view(items@),
                ordered: *ordered,
            },
            DocumentElement::Table { rows } => ElementView::Table { rows: rows_view(rows@) },
            DocumentElement::LineBreak => ElementView::LineBreak,
        }
    }
}

pub open spec fn elements_view(v: Seq<DocumentElement>) -> Seq<ElementView> {
    v.map_values(|e: DocumentElement| e@)
}

/// A named style of a catalog.
#[derive(Debug, Clone)]
pub struct StyleEntry {
    pub name: String,
    pub style: TextStyle,
}

/// A mapping from style names to formatting attributes. Filled through `insert`,
/// it holds each name once, in the order in which the names were last defined;
/// a lookup finds the last entry of a name.
#[derive(Debug, Clone)]
pub struct StyleCatalog {
    pub entries: Vec<StyleEntry>,
}

pub open spec fn entries_view(v: Seq<StyleEntry>) -> Seq<(Seq<char>, StyleView)> {
    v.map_values(|e: StyleEntry| (e.name@, e.style@))
}

impl View for StyleCatalog {
    type V = Seq<(Seq<char>, StyleView)>;

    open spec fn view(&self) -> Seq<(Seq<char>, StyleView)> {
        entries_view(self.entries@)
    }
}

/// The entries of `s` whose name is not `k`, in order.
pub open spec fn without_name(s: Seq<(Seq<char>, StyleView)>, k: Seq<char>) -> Seq<(Seq<char>, StyleView)>
    decreases s.len(),
{
    if s.len() == 0 {
        s
    } else {
        let r = without_name(s.drop_last(), k);
        if s.last().0 == k {
            r
        } else {
            r.push(s.last())
        }
    }
}

/// Defining `k` as `v`: any earlier definition of `k` is dropped and the new one goes last.
pub open spec fn catalog_insert(s: Seq<(Seq<char>, StyleView)>, k: Seq<char>, v: StyleView) -> Seq<(Seq<char>, StyleView)> {
    without_name(s, k).push((k, v))
}

/// Each name occurs at most once.
pub open spec fn unique_names(s: Seq<(Seq<char>, StyleView)>) -> bool {
    forall|i: int, j: int| 0 <= i < j < s.len() ==> (#[trigger] s[i]).0 != (#[trigger] s[j]).0
}

impl StyleCatalog {
    /// The catalog holds each name once.
    pub open spec fn wf(&self) -> bool {
        unique_names(self@)
    }
}

/// Removing a name keeps the other entries, in order, and leaves none of that name.
pub proof fn lemma_without_name(s: Seq<(Seq<char>, StyleView)>, k: Seq<char>)
    ensures
        forall|i: int| 0 <= i < without_name(s, k).len() ==> (#[trigger] without_name(s, k)[i]).0 != k,
        unique_names(s) ==> unique_names(without_name(s, k)),
        forall|i: int| 0 <= i < without_name(s, k).len() ==> s.contains(#[trigger] without_name(s, k)[i]),
    decreases s.len(),
{
    if s.len() > 0 {
        let init = s.drop_last();
        lemma_without_name(init, k);
        let r = without_name(init, k);
        assert forall|i: int| 0 <= i < r.len() implies s.contains(#[trigger] r[i]) by {
            let j = choose|j: int| 0 <= j < init.len() && init[j] == r[i];
            assert(s[j] == r[i]);
        }
        if unique_names(s) {
            assert(unique_names(init)) by {
                assert forall|i: int, j: int| 0 <= i < j < init.len() implies (#[trigger] init[i]).0 != (#[trigger] init[j]).0 by {
                    assert(init[i] == s[i] && init[j] == s[j]);
                }
            }
            if s.last().0 != k {
                let t = r.push(s.last());
                assert forall|i: int, j: int| 0 <= i < j < t.len() implies (#[trigger] t[i]).0 != (#[trigger] t[j]).0 by {
                    if j == t.len() - 1 {
                        let m = choose|m: int| 0 <= m < init.len() && init[m] == r[i];
                        assert(s[m] == t[i]);
                        assert(s[s.len() - 1] == t[j]);
                    }
                }
            }
        }
    }
}

/// Defining a name keeps each name once.
pub proof fn lemma_insert_unique(s: Seq<(Seq<char>, StyleView)>, k: Seq<char>, v: StyleView)
    requires
        unique_names(s),
    ensures
        unique_names(catalog_insert(s, k, v)),
{
    lemma_without_name(s, k);
    let r = without_name(s, k);
    let t = r.push((k, v));
    assert forall|i: int, j: int| 0 <= i < j < t.len() implies (#[trigger] t[i]).0 != (#[trigger] t[j]).0 by {
        if j == t.len() - 1 {
            assert(t[i] == r[i]);
        } else {
            assert(t[i] == r[i] && t[j] == r[j]);
        }
    }
}

/// The style defined last under name `k`, if any.
pub open spec fn catalog_get(s: Seq<(Seq<char>, StyleView)>, k: Seq<char>) -> Option<StyleView>
    decreases s.len(),
{
    if s.len() == 0 {
        None
    } else if s.last().0 == k {
        Some(s.last().1)
    } else {
        catalog_get(s.drop_last(), k)
    }
}

/// A parsed document: its blocks in document order and the style catalog it used.
#[derive(Debug, Clone)]
pub struct StructuredDocument {
    pub elements: Vec<DocumentElement>,
    pub styles: StyleCatalog,
}

impl StructuredDocument {
    /// A document with no elements and an empty catalog.
    pub fn new() -> (r: StructuredDocument)
        ensures
            r.elements@.len() == 0,
            r.styles@.len() == 0,
    {
        StructuredDocument { elements: Vec::new(), styles: StyleCatalog { entries: Vec::new() } }
    }
}

} // verus!
