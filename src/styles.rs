//! The style catalog and the parser that fills it from a style-definition stream.
use vstd::prelude::*;
use crate::model::{
    lemma_insert_unique,
    StyleCatalog, StyleEntry, StyleView, TextStyle, catalog_get, catalog_insert, entries_view,
    plain_style, without_name,
};
use crate::text::{local_name_text, local_text, lossy_chars, lossy_string, str_is};
use crate::xml::{XmlAttr, XmlEvent, attributes_of, attrs_of, markup_events};

verus! {

pub open spec fn opt_style_view(o: Option<TextStyle>) -> Option<StyleView> {
    match o {
        Some(s) => Some(s@),
        None => None,
    }
}

impl StyleCatalog {
    /// A catalog with no entries.
    pub fn new() -> (r: StyleCatalog)
        ensures
            r@ == Seq::<(Seq<char>, StyleView)>::empty(),
            r.wf(),
    {
        let r = StyleCatalog { entries: Vec::new() };
        proof {
            assert(r@ =~= Seq::<(Seq<char>, StyleView)>::empty());
        }
        r
    }

    /// The number of names defined.
    pub fn len(&self) -> (r: usize)
        ensures
            r == self@.len(),
    {
        self.entries.len()
    }

    /// Defines `name` as `style`, replacing an earlier definition of it.
    pub fn insert(&mut self, name: String, style: TextStyle)
        ensures
            final(self)@ == catalog_insert(old(self)@, name@, style@),
            old(self).wf() ==> final(self).wf(),
    {
        proof {
            if old(self).wf() {
                lemma_insert_unique(old(self)@, name@, style@);
            }
        }
        let ghost v = old(self)@;
        let mut kept: Vec<StyleEntry> = Vec::new();
        let mut i: usize = 0;
        while i < self.entries.len()
            invariant
                v == self@,
                i <= self.entries.len(),
                entries_view(kept@) == without_name(v.take(i as int), name@),
            decreases self.entries.len() - i,
        {
            let e = &self.entries[i];
            proof {
                assert(v.take(i + 1).drop_last() =~= v.take(i as int));
                assert(v.take(i + 1).last() == v[i as int]);
            }
            if !e.name.eq(&name) {
                let ghost before = kept@;
                kept.push(StyleEntry { name: e.name.clone(), style: e.style.copy() });
                proof {
                    assert(entries_view(kept@) =~= entries_view(before).push(v[i as int]));
                }
            }
            i = i + 1;
        }
        proof {
            assert(v.take(self.entries.len() as int) =~= v);
        }
        let ghost before = kept@;
        kept.push(StyleEntry { name, style });
        proof {
            assert(entries_view(kept@) =~= entries_view(before).push((name@, style@)));
        }
        self.entries = kept;
    }

    /// A copy of the style last defined under `name`, if any.
    pub fn get(&self, name: &String) -> (r: Option<TextStyle>)
        ensures
            opt_style_view(r) == catalog_get(self@, name@),
    {
        let ghost v = self@;
        let mut i: usize = self.entries.len();
        proof {
            assert(v.take(i as int) =~= v);
        }
        while i > 0
            invariant
                v == self@,
                i <= self.entries.len(),
                catalog_get(v, name@) == catalog_get(v.take(i as int), name@),
            decreases i,
        {
            proof {
                assert(v.take(i as int).drop_last() =~= v.take(i - 1));
                assert(v.take(i as int).last() == v[i - 1]);
            }
            if self.entries[i - 1].name.eq(name) {
                return Some(self.entries[i - 1].style.copy());
            }
            i = i - 1;
        }
        None
    }
}

/// The state of a scan of style definitions.
pub struct StyleScan {
    pub name: Seq<char>,
    pub style: StyleView,
    pub in_style: bool,
    pub catalog: Seq<(Seq<char>, StyleView)>,
    pub done: bool,
}

pub open spec fn initial_style_scan() -> StyleScan {
    StyleScan {
        name: Seq::empty(),
        style: plain_style(),
        in_style: false,
        catalog: Seq::empty(),
        done: false,
    }
}

/// A style-definition start tag: each readable `style:name` attribute opens a new definition.
pub open spec fn style_name_attrs(s: StyleScan, attrs: Seq<Option<XmlAttr>>) -> StyleScan
    decreases attrs.len(),
{
    if attrs.len() == 0 {
        s
    } else {
        let s0 = style_name_attrs(s, attrs.drop_last());
        match attrs.last() {
            Some(a) => if lossy_chars(a.key@) == "style:name"@ {
                StyleScan { name: lossy_chars(a.value@), style: plain_style(), in_style: true, ..s0 }
            } else {
                s0
            },
            None => s0,
        }
    }
}

/// The effect of one text-property attribute on a style.
pub open spec fn apply_property(st: StyleView, key: Seq<char>, v: Seq<char>) -> StyleView {
    if key == "fo:font-weight"@ {
        StyleView { bold: v == "bold"@ || v == "700"@, ..st }
    } else if key == "fo:font-style"@ {
        StyleView { italic: v == "italic"@, ..st }
    } else if key == "style:text-underline-style"@ {
        StyleView { underline: v != "none"@ && v.len() > 0, ..st }
    } else if key == "fo:font-size"@ {
        StyleView { font_size: Some(v), ..st }
    } else if key == "fo:font-family"@ {
        StyleView { font_family: Some(v), ..st }
    } else if key == "fo:color"@ {
        StyleView { color: Some(v), ..st }
    } else {
        st
    }
}

pub open spec fn property_attrs(st: StyleView, attrs: Seq<Option<XmlAttr>>) -> StyleView
    decreases attrs.len(),
{
    if attrs.len() == 0 {
        st
    } else {
        let s0 = property_attrs(st, attrs.drop_last());
        match attrs.last() {
            Some(a) => apply_property(s0, lossy_chars(a.key@), lossy_chars(a.value@)),
            None => s0,
        }
    }
}

pub open spec fn style_start(s: StyleScan, ln: Seq<char>, attrs: Seq<Option<XmlAttr>>) -> StyleScan {
    if ln == "style"@ {
        style_name_attrs(s, attrs)
    } else if ln == "text-properties"@ && s.in_style {
        StyleScan { style: property_attrs(s.style, attrs), ..s }
    } else {
        s
    }
}

/// The end of a style definition files its style under its name.
pub open spec fn style_end(s: StyleScan, ln: Seq<char>) -> StyleScan {
    if ln == "style"@ && s.in_style {
        StyleScan { catalog: catalog_insert(s.catalog, s.name, s.style), in_style: false, name: Seq::empty(), ..s }
    } else {
        s
    }
}

/// One event of a style-definition stream.
pub open spec fn style_step(s: StyleScan, e: XmlEvent) -> StyleScan {
    match e {
        XmlEvent::Start { name, content } => style_start(s, local_text(name@), attrs_of(name@, content@)),
        XmlEvent::Empty { name, content } => style_end(
            style_start(s, local_text(name@), attrs_of(name@, content@)),
            local_text(name@),
        ),
        XmlEvent::End { name } => style_end(s, local_text(name@)),
        XmlEvent::Eof => StyleScan { done: true, ..s },
        XmlEvent::Fail { .. } => StyleScan { done: true, ..s },
        _ => s,
    }
}

/// The scan after a sequence of events; nothing after the end of the stream counts.
pub open spec fn style_scan(events: Seq<XmlEvent>) -> StyleScan
    decreases events.len(),
{
    if events.len() == 0 {
        initial_style_scan()
    } else {
        let s = style_scan(events.drop_last());
        if s.done { s } else { style_step(s, events.last()) }
    }
}

pub open spec fn flag_style(bold: bool, italic: bool, underline: bool) -> StyleView {
    StyleView { bold, italic, underline, ..plain_style() }
}

/// The catalog with the three built-in entries defined last.
pub open spec fn with_builtin_styles(c: Seq<(Seq<char>, StyleView)>) -> Seq<(Seq<char>, StyleView)> {
    catalog_insert(
        catalog_insert(
            catalog_insert(c, "Bold"@, flag_style(true, false, false)),
            "Italic"@,
            flag_style(false, true, false),
        ),
        "Underline"@,
        flag_style(false, false, true),
    )
}

/// The catalog that a style-definition stream yields.
pub open spec fn catalog_of_events(events: Seq<XmlEvent>) -> Seq<(Seq<char>, StyleView)> {
    with_builtin_styles(style_scan(events).catalog)
}

struct StyleScanner {
    name: String,
    style: TextStyle,
    in_style: bool,
    catalog: StyleCatalog,
    done: bool,
}

impl StyleScanner {
    spec fn model(&self) -> StyleScan {
        StyleScan {
            name: self.name@,
            style: self.style@,
            in_style: self.in_style,
            catalog: self.catalog@,
            done: self.done,
        }
    }
}

fn scan_name_attrs(sc: &mut StyleScanner, attrs: &Vec<Option<XmlAttr>>)
    ensures
        final(sc).model() == style_name_attrs(old(sc).model(), attrs@),
        final(sc).catalog@ == old(sc).catalog@,
{
    let mut i: usize = 0;
    while i < attrs.len()
        invariant
            i <= attrs.len(),
            sc.catalog@ == old(sc).catalog@,
            sc.model() == style_name_attrs(old(sc).model(), attrs@.take(i as int)),
        decreases attrs.len() - i,
    {
        proof {
            assert(attrs@.take(i + 1).drop_last() =~= attrs@.take(i as int));
        }
        match &attrs[i] {
            Some(a) => {
                let key = lossy_string(a.key.as_slice());
                if str_is(&key, "style:name") {
                    sc.name = lossy_string(a.value.as_slice());
                    sc.style = TextStyle::default();
                    sc.in_style = true;
                }
            },
            None => {},
        }
        i = i + 1;
    }
    proof {
        assert(attrs@.take(attrs.len() as int) =~= attrs@);
    }
}

fn apply_property_attr(st: &mut TextStyle, key: &String, value: &Vec<u8>)
    ensures
        final(st)@ == apply_property(old(st)@, key@, lossy_chars(value@)),
{
    let v = lossy_string(value.as_slice());
    if str_is(key, "fo:font-weight") {
        st.bold = str_is(&v, "bold") || str_is(&v, "700");
    } else if str_is(key, "fo:font-style") {
        st.italic = str_is(&v, "italic");
    } else if str_is(key, "style:text-underline-style") {
        st.underline = !str_is(&v, "none") && v.unicode_len() > 0;
    } else if str_is(key, "fo:font-size") {
        st.font_size = Some(v);
    } else if str_is(key, "fo:font-family") {
        st.font_family = Some(v);
    } else if str_is(key, "fo:color") {
        st.color = Some(v);
    }
}

fn scan_property_attrs(st: &mut TextStyle, attrs: &Vec<Option<XmlAttr>>)
    ensures
        final(st)@ == property_attrs(old(st)@, attrs@),
{
    let mut i: usize = 0;
    while i < attrs.len()
        invariant
            i <= attrs.len(),
            st@ == property_attrs(old(st)@, attrs@.take(i as int)),
        decreases attrs.len() - i,
    {
        proof {
            assert(attrs@.take(i + 1).drop_last() =~= attrs@.take(i as int));
        }
        match &attrs[i] {
            Some(a) => {
                let key = lossy_string(a.key.as_slice());
                apply_property_attr(st, &key, &a.value);
            },
            None => {},
        }
        i = i + 1;
    }
    proof {
        assert(attrs@.take(attrs.len() as int) =~= attrs@);
    }
}

fn scan_style_start(sc: &mut StyleScanner, ln: &String, attrs: &Vec<Option<XmlAttr>>)
    ensures
        final(sc).model() == style_start(old(sc).model(), ln@, attrs@),
        final(sc).catalog@ == old(sc).catalog@,
{
    if str_is(ln, "style") {
        scan_name_attrs(sc, attrs);
    } else if str_is(ln, "text-properties") && sc.in_style {
        scan_property_attrs(&mut sc.style, attrs);
    }
}

fn scan_style_end(sc: &mut StyleScanner, ln: &String)
    ensures
        final(sc).model() == style_end(old(sc).model(), ln@),
        old(sc).catalog.wf() ==> final(sc).catalog.wf(),
{
    if str_is(ln, "style") && sc.in_style {
        sc.catalog.insert(sc.name.clone(), sc.style.copy());
        sc.in_style = false;
        sc.name = String::new();
    }
}

fn scan_style_event(sc: &mut StyleScanner, e: &XmlEvent)
    ensures
        final(sc).model() == style_step(old(sc).model(), *e),
        old(sc).catalog.wf() ==> final(sc).catalog.wf(),
{
    match e {
        XmlEvent::Start { name, content } => {
            let ln = local_name_text(name.as_slice());
            let attrs = attributes_of(name, content);
            scan_style_start(sc, &ln, &attrs);
        },
        XmlEvent::Empty { name, content } => {
            let ln = local_name_text(name.as_slice());
            let attrs = attributes_of(name, content);
            scan_style_start(sc, &ln, &attrs);
            scan_style_end(sc, &ln);
        },
        XmlEvent::End { name } => {
            let ln = local_name_text(name.as_slice());
            scan_style_end(sc, &ln);
        },
        XmlEvent::Eof => {
            sc.done = true;
        },
        XmlEvent::Fail { .. } => {
            sc.done = true;
        },
        _ => {},
    }
}

/// Adds the three built-in entries: "Bold", "Italic" and "Underline", each with only its flag set.
pub fn add_builtin_styles(c: &mut StyleCatalog)
    ensures
        final(c)@ == with_builtin_styles(old(c)@),
        old(c).wf() ==> final(c).wf(),
{
    let mut b = TextStyle::default();
    b.bold = true;
    c.insert(String::from_str("Bold"), b);
    let mut i = TextStyle::default();
    i.italic = true;
    c.insert(String::from_str("Italic"), i);
    let mut u = TextStyle::default();
    u.underline = true;
    c.insert(String::from_str("Underline"), u);
}

/// The catalog defined by a style-definition event stream, followed by the built-in entries.
pub fn parse_styles_events(events: &Vec<XmlEvent>) -> (r: StyleCatalog)
    ensures
        r@ == catalog_of_events(events@),
        r.wf(),
{
    let mut sc = StyleScanner {
        name: String::new(),
        style: TextStyle::default(),
        in_style: false,
        catalog: StyleCatalog::new(),
        done: false,
    };
    let mut i: usize = 0;
    while i < events.len() && !sc.done
        invariant
            i <= events.len(),
            sc.model() == style_scan(events@.take(i as int)),
            sc.catalog.wf(),
        decreases events.len() - i,
    {
        proof {
            assert(events@.take(i + 1).drop_last() =~= events@.take(i as int));
        }
        scan_style_event(&mut sc, &events[i]);
        i = i + 1;
    }
    proof {
        lemma_scan_done_stays(events@, i as int);
    }
    let mut c = sc.catalog;
    add_builtin_styles(&mut c);
    c
}

/// Once a scan is done, later events leave it as it is.
proof fn lemma_scan_done_stays(events: Seq<XmlEvent>, i: int)
    requires
        0 <= i <= events.len(),
        i == events.len() || style_scan(events.take(i)).done,
    ensures
        style_scan(events) == style_scan(events.take(i)),
    decreases events.len() - i,
{
    if i == events.len() {
        assert(events.take(i) =~= events);
    } else {
        assert(events.take(i + 1).drop_last() =~= events.take(i));
        lemma_scan_done_stays(events, i + 1);
    }
}

/// Each built-in name is found in a catalog that has the built-in entries.
pub proof fn lemma_builtin_styles_found(c: Seq<(Seq<char>, StyleView)>)
    ensures
        catalog_get(with_builtin_styles(c), "Bold"@) == Some(flag_style(true, false, false)),
        catalog_get(with_builtin_styles(c), "Italic"@) == Some(flag_style(false, true, false)),
        catalog_get(with_builtin_styles(c), "Underline"@) == Some(flag_style(false, false, true)),
{
    reveal_strlit("Bold");
    reveal_strlit("Italic");
    reveal_strlit("Underline");
    assert("Bold"@.len() == 4 && "Italic"@.len() == 6 && "Underline"@.len() == 9);
    assert("Bold"@ != "Underline"@ && "Italic"@ != "Underline"@ && "Bold"@ != "Italic"@);
    let c1 = catalog_insert(c, "Bold"@, flag_style(true, false, false));
    let c2 = catalog_insert(c1, "Italic"@, flag_style(false, true, false));
    let c3 = catalog_insert(c2, "Underline"@, flag_style(false, false, true));
    lemma_get_after_insert(c2, "Underline"@, flag_style(false, false, true), "Italic"@);
    lemma_get_after_insert(c2, "Underline"@, flag_style(false, false, true), "Bold"@);
    lemma_get_after_insert(c1, "Italic"@, flag_style(false, true, false), "Bold"@);
    assert(c3.last() == ("Underline"@, flag_style(false, false, true)));
    assert(c2.last() == ("Italic"@, flag_style(false, true, false)));
    assert(c1.last() == ("Bold"@, flag_style(true, false, false)));
}

/// Removing one name leaves the lookup of every other name as it was.
proof fn lemma_get_without(s: Seq<(Seq<char>, StyleView)>, k: Seq<char>, q: Seq<char>)
    requires
        q != k,
    ensures
        catalog_get(without_name(s, k), q) == catalog_get(s, q),
    decreases s.len(),
{
    if s.len() > 0 {
        lemma_get_without(s.drop_last(), k, q);
        if s.last().0 != k {
            assert(without_name(s, k).drop_last() =~= without_name(s.drop_last(), k));
        }
    }
}

/// After defining `k`, looking up `k` finds the new style and other names are unaffected.
pub proof fn lemma_get_after_insert(s: Seq<(Seq<char>, StyleView)>, k: Seq<char>, v: StyleView, q: Seq<char>)
    ensures
        catalog_get(catalog_insert(s, k, v), q) == if q == k { Some(v) } else { catalog_get(s, q) },
{
    let t = catalog_insert(s, k, v);
    assert(t.last() == (k, v));
    assert(t.drop_last() =~= without_name(s, k));
    if q != k {
        lemma_get_without(s, k, q);
    }
}

/// The catalog defined by the style-definition document `styles_xml`, followed by
/// the built-in entries. Malformed markup ends the scan early; it is no error.
pub fn parse_odt_styles(styles_xml: &str) -> (r: StyleCatalog)
    ensures
        r@ == catalog_of_events(markup_events(styles_xml@)),
        r.wf(),
        catalog_get(r@, "Bold"@) == Some(flag_style(true, false, false)),
        catalog_get(r@, "Italic"@) == Some(flag_style(false, true, false)),
        catalog_get(r@, "Underline"@) == Some(flag_style(false, false, true)),
{
    let events = crate::xml::xml_events(styles_xml);
    let r = parse_styles_events(&events);
    proof {
        lemma_builtin_styles_found(style_scan(events@).catalog);
    }
    r
}

/// A stream that ends at once yields exactly the three built-in entries, in order,
/// each with only its own flag set.
pub proof fn lemma_empty_stream_catalog()
    ensures
        catalog_of_events(seq![XmlEvent::Eof]) == seq![
            ("Bold"@, flag_style(true, false, false)),
            ("Italic"@, flag_style(false, true, false)),
            ("Underline"@, flag_style(false, false, true)),
        ],
{
    reveal_strlit("Bold");
    reveal_strlit("Italic");
    reveal_strlit("Underline");
    assert("Bold"@.len() == 4 && "Italic"@.len() == 6 && "Underline"@.len() == 9);
    let evs = seq![XmlEvent::Eof];
    assert(evs.drop_last() =~= Seq::<XmlEvent>::empty());
    assert(style_scan(evs.drop_last()) == initial_style_scan());
    assert(evs.last() == XmlEvent::Eof);
    assert(style_scan(evs).catalog == Seq::<(Seq<char>, StyleView)>::empty());
    let e = Seq::<(Seq<char>, StyleView)>::empty();
    assert(without_name(e, "Bold"@) == e);
    let c1 = catalog_insert(e, "Bold"@, flag_style(true, false, false));
    assert(c1 =~= seq![("Bold"@, flag_style(true, false, false))]);
    assert(c1.drop_last() =~= e);
    assert(without_name(c1.drop_last(), "Italic"@) == e);
    assert(without_name(c1, "Italic"@) =~= c1);
    let c2 = catalog_insert(c1, "Italic"@, flag_style(false, true, false));
    assert(c2.drop_last() =~= c1);
    assert(without_name(c1.drop_last(), "Underline"@) == e);
    assert(without_name(c1, "Underline"@) =~= c1);
    assert(without_name(c2, "Underline"@) =~= c2);
    assert(with_builtin_styles(e) =~= seq![
        ("Bold"@, flag_style(true, false, false)),
        ("Italic"@, flag_style(false, true, false)),
        ("Underline"@, flag_style(false, false, true)),
    ]);
}

} // verus!
