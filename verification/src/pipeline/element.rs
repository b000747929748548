use vstd::prelude::*;
use crate::numbering::resolver::ListType;
use crate::raw::body::SectionRefType;

verus! {

/// Which slot of a section's header/footer a `Header` or `Footer` fills.
#[derive(Debug, Clone, Copy, PartialEq, Eq)]
pub enum HeaderKind {
    Default,
    First,
    Even,
}

pub open spec fn header_kind_of(t: SectionRefType) -> HeaderKind {
    match t {
        SectionRefType::Default => HeaderKind::Default,
        SectionRefType::First => HeaderKind::First,
        SectionRefType::Even => HeaderKind::Even,
    }
}

impl<'a> From<&'a SectionRefType> for HeaderKind {
    fn from(t: &'a SectionRefType) -> (r: HeaderKind) {
        match t {
            SectionRefType::Default => HeaderKind::Default,
            SectionRefType::First => HeaderKind::First,
            SectionRefType::Even => HeaderKind::Even,
        }
    }
}

impl<'a> vstd::std_specs::convert::FromSpecImpl<&'a SectionRefType> for HeaderKind {
    open spec fn obeys_from_spec() -> bool {
        true
    }

    open spec fn from_spec(t: &'a SectionRefType) -> HeaderKind {
        header_kind_of(*t)
    }
}

/// The most recent heading above a block.
#[derive(Debug, PartialEq, Eq)]
pub struct HeadingContext {
    pub level: u8,
    pub text: String,
}

impl Clone for HeadingContext {
    fn clone(&self) -> (r: Self)
        ensures
            r == *self,
    {
        HeadingContext { level: self.level, text: self.text.clone() }
    }
}

/// URL metadata for a hyperlink inside a paragraph; its visible text is
/// already part of the paragraph text.
#[derive(Debug, PartialEq, Eq)]
pub struct LinkSpan {
    pub text: String,
    pub url: String,
}

impl Clone for LinkSpan {
    fn clone(&self) -> (r: Self)
        ensures
            r == *self,
    {
        LinkSpan { text: self.text.clone(), url: self.url.clone() }
    }
}

/// A cell of a `Table` element, with resolved column and row spans.
#[derive(Debug, PartialEq, Eq)]
pub struct TableCell {
    pub text: String,
    pub col_span: u16,
    pub row_span: u16,
}

impl Clone for TableCell {
    fn clone(&self) -> (r: Self)
        ensures
            r == *self,
    {
        TableCell { text: self.text.clone(), col_span: self.col_span, row_span: self.row_span }
    }
}

#[derive(Debug, PartialEq, Eq)]
pub struct TableRow {
    pub cells: Vec<TableCell>,
}

impl Clone for TableRow {
    fn clone(&self) -> (r: Self)
        ensures
            r.cells@ == self.cells@,
    {
        TableRow { cells: self.cells.clone() }
    }
}

#[derive(Debug, PartialEq, Eq)]
pub enum DocxElement {
    /// A regular paragraph; `links` carries the URLs of its hyperlinks in
    /// document order.
    Paragraph { text: String, parent_heading: Option<HeadingContext>, links: Vec<LinkSpan> },
    /// A heading; `level` is 1..=9.
    Heading { level: u8, text: String },
    /// A list item; `display_index` is `None` for bullets and unnumbered lists.
    ListItem { text: String, level: u8, list_type: ListType, display_index: Option<u32> },
    /// A table with spans resolved.
    Table { rows: Vec<TableRow> },
    Footnote { id: u32, text: String },
    Endnote { id: u32, text: String },
    Comment { id: u32, author: String, text: String },
    /// A hyperlink as a separate element (kept for compatibility; the
    /// classifier attaches links to paragraphs instead).
    Hyperlink { text: String, url: String },
    Header { kind: HeaderKind, content: Vec<DocxElement> },
    Footer { kind: HeaderKind, content: Vec<DocxElement> },
}

/// The mathematical value of a `DocxElement`: strings as character
/// sequences, tables as rows of cells, nested content as views.
pub enum ElementView {
    Paragraph { text: Seq<char>, parent_heading: Option<HeadingContext>, links: Seq<LinkSpan> },
    Heading { level: u8, text: Seq<char> },
    ListItem { text: Seq<char>, level: u8, list_type: ListType, display_index: Option<u32> },
    Table { rows: Seq<Seq<TableCell>> },
    Footnote { id: u32, text: Seq<char> },
    Endnote { id: u32, text: Seq<char> },
    Comment { id: u32, author: Seq<char>, text: Seq<char> },
    Hyperlink { text: Seq<char>, url: Seq<char> },
    Header { kind: HeaderKind, content: Seq<ElementView> },
    Footer { kind: HeaderKind, content: Seq<ElementView> },
}

pub open spec fn rows_view(rows: Seq<TableRow>) -> Seq<Seq<TableCell>> {
    Seq::new(rows.len(), |i: int| rows[i].cells@)
}

pub open spec fn element_view(e: DocxElement) -> ElementView
    decreases e,
{
    match e {
        DocxElement::Paragraph { text, parent_heading, links } => ElementView::Paragraph {
            text: text@,
            parent_heading,
            links: links@,
        },
        DocxElement::Heading { level, text } => ElementView::Heading { level, text: text@ },
        DocxElement::ListItem { text, level, list_type, display_index } => ElementView::ListItem {
            text: text@,
            level,
            list_type,
            display_index,
        },
        DocxElement::Table { rows } => ElementView::Table { rows: rows_view(rows@) },
        DocxElement::Footnote { id, text } => ElementView::Footnote { id, text: text@ },
        DocxElement::Endnote { id, text } => ElementView::Endnote { id, text: text@ },
        DocxElement::Comment { id, author, text } => ElementView::Comment { id, author: author@, text: text@ },
        DocxElement::Hyperlink { text, url } => ElementView::Hyperlink { text: text@, url: url@ },
        DocxElement::Header { kind, content } => ElementView::Header { kind, content: elements_view(content@) },
        DocxElement::Footer { kind, content } => ElementView::Footer { kind, content: elements_view(content@) },
    }
}

pub open spec fn elements_view(s: Seq<DocxElement>) -> Seq<ElementView>
    decreases s,
{
    if s.len() == 0 {
        Seq::empty()
    } else {
        elements_view(s.drop_last()).push(element_view(s.last()))
    }
}

/// Two heading contexts agree: same level and same characters.
pub open spec fn contexts_agree(a: Option<HeadingContext>, b: Option<HeadingContext>) -> bool {
    match (a, b) {
        (Some(x), Some(y)) => x.level == y.level && x.text@ == y.text@,
        (None, None) => true,
        _ => false,
    }
}

/// Two link lists agree: the same spans, text and URL, in the same order.
pub open spec fn links_agree(a: Seq<LinkSpan>, b: Seq<LinkSpan>) -> bool {
    &&& a.len() == b.len()
    &&& forall|i: int| 0 <= i < a.len() ==> (#[trigger] a[i]).text@ == b[i].text@ && a[i].url@ == b[i].url@
}

/// Two list types agree: the same kind, and for `Other` the same format.
pub open spec fn list_types_agree(a: ListType, b: ListType) -> bool {
    match (a, b) {
        (ListType::Other(x), ListType::Other(y)) => x@ == y@,
        _ => a == b,
    }
}

/// Two rows agree cell by cell: the same text and spans.
pub open spec fn cells_agree(a: Seq<TableCell>, b: Seq<TableCell>) -> bool {
    &&& a.len() == b.len()
    &&& forall|c: int| 0 <= c < a.len() ==> {
        &&& (#[trigger] a[c]).text@ == b[c].text@
        &&& a[c].col_span == b[c].col_span
        &&& a[c].row_span == b[c].row_span
    }
}

pub open spec fn rows_agree(a: Seq<Seq<TableCell>>, b: Seq<Seq<TableCell>>) -> bool {
    &&& a.len() == b.len()
    &&& forall|r: int| 0 <= r < a.len() ==> cells_agree(#[trigger] a[r], b[r])
}

/// Two element views agree: the same variant and the same values in every
/// field, strings compared by their characters.
pub open spec fn view_agrees(a: ElementView, b: ElementView) -> bool
    decreases a,
{
    match (a, b) {
        (ElementView::Paragraph { text: t1, parent_heading: h1, links: l1 },
         ElementView::Paragraph { text: t2, parent_heading: h2, links: l2 }) =>
            t1 == t2 && contexts_agree(h1, h2) && links_agree(l1, l2),
        (ElementView::Heading { level: v1, text: t1 }, ElementView::Heading { level: v2, text: t2 }) => v1 == v2 && t1 == t2,
        (ElementView::ListItem { text: t1, level: v1, list_type: k1, display_index: d1 },
         ElementView::ListItem { text: t2, level: v2, list_type: k2, display_index: d2 }) =>
            t1 == t2 && v1 == v2 && list_types_agree(k1, k2) && d1 == d2,
        (ElementView::Table { rows: r1 }, ElementView::Table { rows: r2 }) => rows_agree(r1, r2),
        (ElementView::Footnote { id: i1, text: t1 }, ElementView::Footnote { id: i2, text: t2 }) => i1 == i2 && t1 == t2,
        (ElementView::Endnote { id: i1, text: t1 }, ElementView::Endnote { id: i2, text: t2 }) => i1 == i2 && t1 == t2,
        (ElementView::Comment { id: i1, author: a1, text: t1 }, ElementView::Comment { id: i2, author: a2, text: t2 }) =>
            i1 == i2 && a1 == a2 && t1 == t2,
        (ElementView::Hyperlink { text: t1, url: u1 }, ElementView::Hyperlink { text: t2, url: u2 }) => t1 == t2 && u1 == u2,
        (ElementView::Header { kind: k1, content: c1 }, ElementView::Header { kind: k2, content: c2 }) =>
            k1 == k2 && c1.len() == c2.len() && forall|i: int| 0 <= i < c1.len() ==> view_agrees(#[trigger] c1[i], c2[i]),
        (ElementView::Footer { kind: k1, content: c1 }, ElementView::Footer { kind: k2, content: c2 }) =>
            k1 == k2 && c1.len() == c2.len() && forall|i: int| 0 <= i < c1.len() ==> view_agrees(#[trigger] c1[i], c2[i]),
        _ => false,
    }
}

/// Two sequences of element views agree element by element.
pub open spec fn views_agree(a: Seq<ElementView>, b: Seq<ElementView>) -> bool {
    &&& a.len() == b.len()
    &&& forall|i: int| 0 <= i < a.len() ==> view_agrees(#[trigger] a[i], b[i])
}

pub proof fn lemma_elements_view_len(s: Seq<DocxElement>)
    ensures
        elements_view(s).len() == s.len(),
    decreases s.len(),
{
    if s.len() > 0 {
        lemma_elements_view_len(s.drop_last());
    }
}

pub proof fn lemma_elements_view_index(s: Seq<DocxElement>, i: int)
    requires
        0 <= i < s.len(),
    ensures
        elements_view(s).len() == s.len(),
        elements_view(s)[i] == element_view(s[i]),
    decreases s.len(),
{
    lemma_elements_view_len(s);
    if i < s.len() - 1 {
        lemma_elements_view_index(s.drop_last(), i);
    }
}

pub proof fn lemma_elements_view_take(s: Seq<DocxElement>, n: int)
    requires
        0 <= n <= s.len(),
    ensures
        elements_view(s.take(n)) == elements_view(s).take(n),
    decreases s.len(),
{
    lemma_elements_view_len(s);
    lemma_elements_view_len(s.take(n));
    if n < s.len() {
        assert(s.drop_last().take(n) == s.take(n));
        lemma_elements_view_take(s.drop_last(), n);
        lemma_elements_view_len(s.drop_last());
        assert(elements_view(s).take(n) == elements_view(s.drop_last()).take(n));
    } else {
        assert(s.take(n) == s);
    }
}

pub proof fn lemma_elements_view_subrange(s: Seq<DocxElement>, i: int, j: int)
    requires
        0 <= i <= j <= s.len(),
    ensures
        elements_view(s.subrange(i, j)) == elements_view(s).subrange(i, j),
{
    lemma_elements_view_len(s);
    lemma_elements_view_len(s.subrange(i, j));
    assert forall|k: int| 0 <= k < j - i implies #[trigger] elements_view(s.subrange(i, j))[k] == elements_view(s)[i + k] by {
        lemma_elements_view_index(s.subrange(i, j), k);
        lemma_elements_view_index(s, i + k);
    }
    assert(elements_view(s.subrange(i, j)) =~= elements_view(s).subrange(i, j));
}

impl View for DocxElement {
    type V = ElementView;

    open spec fn view(&self) -> ElementView {
        element_view(*self)
    }
}

/// A copy of `rows`, row for row.
fn clone_rows(rows: &Vec<TableRow>) -> (r: Vec<TableRow>)
    ensures
        rows_view(r@) == rows_view(rows@),
{
    let mut out: Vec<TableRow> = Vec::new();
    let mut i: usize = 0;
    while i < rows.len()
        invariant
            i <= rows@.len(),
            out@.len() == i,
            forall|j: int| 0 <= j < i ==> #[trigger] out@[j].cells@ == rows@[j].cells@,
        decreases rows.len() - i,
    {
        out.push(rows[i].clone());
        i = i + 1;
    }
    assert(rows_view(out@) =~= rows_view(rows@));
    out
}

/// A copy of `links`.
fn clone_links(v: &Vec<LinkSpan>) -> (r: Vec<LinkSpan>)
    ensures
        r@ == v@,
{
    let mut out: Vec<LinkSpan> = Vec::new();
    let mut i: usize = 0;
    while i < v.len()
        invariant
            i <= v@.len(),
            out@ == v@.take(i as int),
        decreases v.len() - i,
    {
        out.push(v[i].clone());
        assert(v@.take(i + 1 as int) == v@.take(i as int).push(v@[i as int]));
        i = i + 1;
    }
    assert(v@.take(v.len() as int) == v@);
    out
}

pub fn clone_heading_opt(h: &Option<HeadingContext>) -> (r: Option<HeadingContext>)
    ensures
        r == *h,
{
    match h {
        Some(x) => Some(x.clone()),
        None => None,
    }
}

/// A copy of a sequence of elements.
pub fn clone_elements(v: &Vec<DocxElement>) -> (r: Vec<DocxElement>)
    ensures
        elements_view(r@) == elements_view(v@),
    decreases v@,
{
    let mut out: Vec<DocxElement> = Vec::new();
    let mut i: usize = 0;
    while i < v.len()
        invariant
            i <= v@.len(),
            elements_view(out@) == elements_view(v@.take(i as int)),
        decreases v.len() - i,
    {
        proof {
            assert(decreases_to!(v@ => v@[i as int]));
        }
        let x = v[i].copy();
        let ghost prev = out@;
        out.push(x);
        assert(out@.drop_last() == prev);
        assert(v@.take(i + 1 as int).drop_last() == v@.take(i as int));
        i = i + 1;
    }
    assert(v@.take(v.len() as int) == v@);
    out
}

impl DocxElement {
    /// A deep copy with the same view.
    pub fn copy(&self) -> (r: DocxElement)
        ensures
            r@ == self@,
        decreases self,
    {
        match self {
            DocxElement::Paragraph { text, parent_heading, links } => DocxElement::Paragraph {
                text: text.clone(),
                parent_heading: clone_heading_opt(parent_heading),
                links: clone_links(links),
            },
            DocxElement::Heading { level, text } => DocxElement::Heading { level: *level, text: text.clone() },
            DocxElement::ListItem { text, level, list_type, display_index } => DocxElement::ListItem {
                text: text.clone(),
                level: *level,
                list_type: list_type.clone(),
                display_index: *display_index,
            },
            DocxElement::Table { rows } => DocxElement::Table { rows: clone_rows(rows) },
            DocxElement::Footnote { id, text } => DocxElement::Footnote { id: *id, text: text.clone() },
            DocxElement::Endnote { id, text } => DocxElement::Endnote { id: *id, text: text.clone() },
            DocxElement::Comment { id, author, text } => DocxElement::Comment {
                id: *id,
                author: author.clone(),
                text: text.clone(),
            },
            DocxElement::Hyperlink { text, url } => DocxElement::Hyperlink { text: text.clone(), url: url.clone() },
            DocxElement::Header { kind, content } => {
                proof {
                    assert(decreases_to!(*self => (*self)->Header_content));
                }
                DocxElement::Header { kind: *kind, content: clone_elements(content) }
            },
            DocxElement::Footer { kind, content } => {
                proof {
                    assert(decreases_to!(*self => (*self)->Footer_content));
                }
                DocxElement::Footer { kind: *kind, content: clone_elements(content) }
            },
        }
    }
}

impl Clone for DocxElement {
    fn clone(&self) -> (r: Self)
        ensures
            r@ == self@,
    {
        self.copy()
    }
}

} // verus!
