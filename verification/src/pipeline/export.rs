//! Plain-text and Markdown renderings of an element sequence.
use vstd::prelude::*;
use crate::numbering::resolver::ListType;
use crate::pipeline::element::{
    DocxElement, ElementView, LinkSpan, TableCell, TableRow, cells_agree, elements_view, lemma_elements_view_index,
    lemma_elements_view_len, links_agree, rows_agree, rows_view, view_agrees, views_agree,
};
use crate::text::{chars_of, decimal, join, push_decimal, push_repeat, repeat_char, starts_with_at};

verus! {

/// The texts of a row's cells joined by ` | `.
pub open spec fn cells_line(cells: Seq<TableCell>) -> Seq<char> {
    join(Seq::new(cells.len(), |i: int| cells[i].text@), " | "@)
}

/// A table as text: one line per row, cells joined by ` | `.
pub open spec fn table_text(rows: Seq<Seq<TableCell>>) -> Seq<char> {
    join(Seq::new(rows.len(), |i: int| cells_line(rows[i])), "\n"@)
}

pub open spec fn is_list_item(e: ElementView) -> bool {
    e is ListItem
}

/// How one element reads in plain text.
pub open spec fn plain_render(e: ElementView) -> Seq<char>
    decreases e,
{
    match e {
        ElementView::Paragraph { text, .. } => text,
        ElementView::Heading { text, .. } => text,
        ElementView::ListItem { text, .. } => text,
        ElementView::Table { rows } => table_text(rows),
        ElementView::Footnote { id, text } => "["@ + decimal(id as nat) + "] "@ + text,
        ElementView::Endnote { id, text } => "[endnote "@ + decimal(id as nat) + "] "@ + text,
        ElementView::Comment { id, author, text } =>
            "[comment "@ + decimal(id as nat) + " by "@ + author + "] "@ + text,
        ElementView::Hyperlink { .. } => Seq::empty(),
        ElementView::Header { content, .. } => "[Header]\n"@ + plain_text_of(content),
        ElementView::Footer { content, .. } => "[Footer]\n"@ + plain_text_of(content),
    }
}

/// Plain text of a sequence: renderings joined by a blank line, except that
/// two consecutive list items are separated by a single newline. Nothing is
/// inserted while the output is still empty.
pub open spec fn plain_text_of(s: Seq<ElementView>) -> Seq<char>
    decreases s,
{
    if s.len() == 0 {
        Seq::empty()
    } else {
        let prev = plain_text_of(s.drop_last());
        let r = plain_render(s.last());
        let sep = if s.len() >= 2 && is_list_item(s.last()) && is_list_item(s[s.len() - 2]) {
            "\n"@
        } else {
            "\n\n"@
        };
        if prev.len() == 0 { r } else { prev + sep + r }
    }
}

fn push_cells_line(out: &mut String, cells: &Vec<TableCell>)
    ensures
        final(out)@ == old(out)@ + cells_line(cells@),
{
    let ghost parts = Seq::new(cells@.len(), |i: int| cells@[i].text@);
    let ghost start = out@;
    let mut i: usize = 0;
    while i < cells.len()
        invariant
            i <= cells@.len(),
            parts == Seq::new(cells@.len(), |i: int| cells@[i].text@),
            out@ == start + join(parts.take(i as int), " | "@),
        decreases cells.len() - i,
    {
        assert(parts.take(i + 1 as int).drop_last() == parts.take(i as int));
        if i > 0 {
            out.append(" | ");
        }
        out.append(cells[i].text.as_str());
        i = i + 1;
    }
    assert(parts.take(cells.len() as int) == parts);
}

/// Appends the plain-text form of a table.
pub fn push_table_text(out: &mut String, rows: &Vec<TableRow>)
    ensures
        final(out)@ == old(out)@ + table_text(rows_view(rows@)),
{
    let ghost rv = rows_view(rows@);
    let ghost parts = Seq::new(rv.len(), |i: int| cells_line(rv[i]));
    let ghost start = out@;
    let mut i: usize = 0;
    while i < rows.len()
        invariant
            i <= rows@.len(),
            rv == rows_view(rows@),
            parts == Seq::new(rv.len(), |i: int| cells_line(rv[i])),
            out@ == start + join(parts.take(i as int), "\n"@),
        decreases rows.len() - i,
    {
        assert(parts.take(i + 1 as int).drop_last() == parts.take(i as int));
        if i > 0 {
            out.append("\n");
        }
        let ghost mid = out@;
        push_cells_line(out, &rows[i].cells);
        assert(parts[i as int] == cells_line(rows@[i as int].cells@));
        assert(out@ == start + join(parts.take(i + 1 as int), "\n"@));
        i = i + 1;
    }
    assert(parts.take(rows.len() as int) == parts);
}

/// The plain-text form of a table.
pub fn table_to_text(rows: &Vec<TableRow>) -> (r: String)
    ensures
        r@ == table_text(rows_view(rows@)),
{
    let mut s = String::new();
    push_table_text(&mut s, rows);
    s
}

fn render_element(elem: &DocxElement) -> (r: String)
    ensures
        r@ == plain_render(elem@),
    decreases elem,
{
    match elem {
        DocxElement::Paragraph { text, .. } => text.clone(),
        DocxElement::Heading { text, .. } => text.clone(),
        DocxElement::ListItem { text, .. } => text.clone(),
        DocxElement::Table { rows } => table_to_text(rows),
        DocxElement::Footnote { id, text } => {
            let mut s = String::new();
            s.append("[");
            push_decimal(&mut s, *id as u64);
            s.append("] ");
            s.append(text.as_str());
            s
        },
        DocxElement::Endnote { id, text } => {
            let mut s = String::new();
            s.append("[endnote ");
            push_decimal(&mut s, *id as u64);
            s.append("] ");
            s.append(text.as_str());
            s
        },
        DocxElement::Comment { id, author, text } => {
            let mut s = String::new();
            s.append("[comment ");
            push_decimal(&mut s, *id as u64);
            s.append(" by ");
            s.append(author.as_str());
            s.append("] ");
            s.append(text.as_str());
            s
        },
        DocxElement::Hyperlink { .. } => String::new(),
        DocxElement::Header { content, .. } => {
            proof {
                assert(decreases_to!(*elem => (*elem)->Header_content));
            }
            let mut s = String::new();
            s.append("[Header]\n");
            let body = to_plain_text(content.as_slice());
            s.append(body.as_str());
            s
        },
        DocxElement::Footer { content, .. } => {
            proof {
                assert(decreases_to!(*elem => (*elem)->Footer_content));
            }
            let mut s = String::new();
            s.append("[Footer]\n");
            let body = to_plain_text(content.as_slice());
            s.append(body.as_str());
            s
        },
    }
}

fn is_list_elem(e: &DocxElement) -> (b: bool)
    ensures
        b == is_list_item(e@),
{
    match e {
        DocxElement::ListItem { .. } => true,
        _ => false,
    }
}

/// Renders a sequence of elements as unformatted plain text: blocks
/// separated by a blank line, consecutive list items by a single newline,
/// table cells joined by ` | ` and rows by newlines.
pub fn to_plain_text(elements: &[DocxElement]) -> (r: String)
    ensures
        r@ == plain_text_of(elements_view(elements@)),
    decreases elements@,
{
    let ghost ev = elements_view(elements@);
    proof {
        lemma_elements_view_len(elements@);
    }
    let mut out = String::new();
    let mut prev_was_list = false;
    let mut i: usize = 0;
    while i < elements.len()
        invariant
            i <= elements@.len(),
            ev == elements_view(elements@),
            ev.len() == elements@.len(),
            out@ == plain_text_of(ev.take(i as int)),
            i > 0 ==> prev_was_list == is_list_item(ev[i - 1]),
        decreases elements.len() - i,
    {
        proof {
            lemma_elements_view_index(elements@, i as int);
            assert(decreases_to!(elements@ => elements@[i as int]));
            assert(ev.take(i + 1 as int).drop_last() == ev.take(i as int));
            assert(ev.take(i + 1 as int).last() == ev[i as int]);
        }
        let rendered = render_element(&elements[i]);
        let is_list = is_list_elem(&elements[i]);
        if !out.as_str().is_empty() {
            if is_list && prev_was_list {
                out.append("\n");
            } else {
                out.append("\n\n");
            }
        }
        out.append(rendered.as_str());
        prev_was_list = is_list;
        i = i + 1;
    }
    assert(ev.take(elements.len() as int) == ev);
    out
}

/// `level` limited to 1..=6.
pub open spec fn clamp_heading(level: u8) -> nat {
    if level < 1 { 1 } else if level > 6 { 6 } else { level as nat }
}

/// The marker of a Markdown list item: `N.` for numbered decimal items,
/// `-` otherwise.
pub open spec fn md_marker(list_type: ListType, display_index: Option<u32>) -> Seq<char> {
    match (list_type, display_index) {
        (ListType::Decimal, Some(idx)) => decimal(idx as nat) + "."@,
        _ => "-"@,
    }
}

/// `| a | b |`
pub open spec fn md_row(cells: Seq<TableCell>) -> Seq<char>
    decreases cells.len(),
{
    if cells.len() == 0 {
        "|"@
    } else {
        md_row(cells.drop_last()) + " "@ + cells.last().text@ + " |"@
    }
}

/// `| --- |` repeated once per column, after a leading `|`.
pub open spec fn md_separator(n: nat) -> Seq<char>
    decreases n,
{
    if n == 0 { "|"@ } else { md_separator((n - 1) as nat) + " --- |"@ }
}

/// The rows after the header, each on its own line.
pub open spec fn md_body_rows(rows: Seq<Seq<TableCell>>) -> Seq<char>
    decreases rows.len(),
{
    if rows.len() == 0 {
        Seq::empty()
    } else {
        md_body_rows(rows.drop_last()) + "\n"@ + md_row(rows.last())
    }
}

/// A GFM table: row 0 is the header, followed by a separator line when it
/// has cells, then one line per remaining row.
pub open spec fn md_table(rows: Seq<Seq<TableCell>>) -> Seq<char> {
    if rows.len() == 0 {
        Seq::empty()
    } else {
        let n = rows[0].len();
        md_row(rows[0]) + (if n > 0 { "\n"@ + md_separator(n) } else { Seq::empty() })
            + md_body_rows(rows.drop_first())
    }
}

/// Position of the first occurrence of `needle` in `hay` at or after `from`.
pub open spec fn find_from(hay: Seq<char>, needle: Seq<char>, from: int) -> Option<int>
    decreases hay.len() + 1 - from,
{
    if from < 0 || from + needle.len() > hay.len() {
        None
    } else if hay.subrange(from, from + needle.len()) == needle {
        Some(from)
    } else {
        find_from(hay, needle, from + 1)
    }
}

/// A paragraph's text with each link span written inline as
/// `[text](url)`: each span in turn is looked for after the previous one
/// and decorated at its first occurrence; a span whose text does not occur
/// is left out.
pub open spec fn decorate_links(text: Seq<char>, links: Seq<LinkSpan>) -> Seq<char>
    decreases links.len(),
{
    if links.len() == 0 {
        text
    } else {
        let l = links[0];
        match find_from(text, l.text@, 0) {
            None => decorate_links(text, links.drop_first()),
            Some(p) => text.take(p) + "["@ + l.text@ + "]("@ + l.url@ + ")"@
                + decorate_links(text.skip(p + l.text@.len()), links.drop_first()),
        }
    }
}

/// How one element reads in Markdown; `None` for elements left out.
pub open spec fn md_render(e: ElementView) -> Option<Seq<char>>
    decreases e, 0int,
{
    match e {
        ElementView::Heading { level, text } => Some(repeat_char('#', clamp_heading(level)) + " "@ + text),
        ElementView::Paragraph { text, links, .. } => Some(decorate_links(text, links)),
        ElementView::ListItem { text, level, list_type, display_index } =>
            Some(repeat_char(' ', 2 * level as nat) + md_marker(list_type, display_index) + " "@ + text),
        ElementView::Table { rows } => Some(md_table(rows)),
        ElementView::Footnote { id, text } => Some("[^"@ + decimal(id as nat) + "]: "@ + text),
        ElementView::Endnote { id, text } => Some("[^endnote"@ + decimal(id as nat) + "]: "@ + text),
        ElementView::Comment { id, author, text } =>
            Some("> **Comment "@ + decimal(id as nat) + " ("@ + author + "):** "@ + text),
        ElementView::Hyperlink { .. } => None,
        ElementView::Header { content, .. } => Some("> [Header] "@ + markdown_of(content)),
        ElementView::Footer { content, .. } => Some("> [Footer] "@ + markdown_of(content)),
    }
}

/// The Markdown output so far and whether the last rendered element was a
/// list item.
pub open spec fn md_fold(s: Seq<ElementView>) -> (Seq<char>, bool)
    decreases s, 0int,
{
    if s.len() == 0 {
        (Seq::empty(), false)
    } else {
        let (out, prev_list) = md_fold(s.drop_last());
        match md_render(s.last()) {
            None => (out, prev_list),
            Some(r) => {
                let is_list = is_list_item(s.last());
                let sep = if is_list && prev_list { "\n"@ } else { "\n\n"@ };
                (if out.len() == 0 { r } else { out + sep + r }, is_list)
            },
        }
    }
}

/// Markdown of a sequence: rendered blocks joined by a blank line, with
/// consecutive list items joined by a single newline.
pub open spec fn markdown_of(s: Seq<ElementView>) -> Seq<char>
    decreases s, 1int,
{
    md_fold(s).0
}

fn push_md_row(out: &mut String, cells: &Vec<TableCell>)
    ensures
        final(out)@ == old(out)@ + md_row(cells@),
{
    let ghost start = out@;
    out.append("|");
    let mut i: usize = 0;
    while i < cells.len()
        invariant
            i <= cells@.len(),
            out@ == start + md_row(cells@.take(i as int)),
        decreases cells.len() - i,
    {
        assert(cells@.take(i + 1 as int).drop_last() == cells@.take(i as int));
        out.append(" ");
        out.append(cells[i].text.as_str());
        out.append(" |");
        i = i + 1;
    }
    assert(cells@.take(cells.len() as int) == cells@);
}

fn render_table_md(rows: &Vec<TableRow>) -> (r: String)
    ensures
        r@ == md_table(rows_view(rows@)),
{
    let ghost rv = rows_view(rows@);
    if rows.len() == 0 {
        return String::new();
    }
    let mut out = String::new();
    let col_count = rows[0].cells.len();
    push_md_row(&mut out, &rows[0].cells);
    if col_count > 0 {
        out.append("\n");
        out.append("|");
        let mut k: usize = 0;
        while k < col_count
            invariant
                k <= col_count,
                out@ == md_row(rv[0]) + "\n"@ + md_separator(k as nat),
            decreases col_count - k,
        {
            out.append(" --- |");
            k = k + 1;
        }
    }
    let ghost head = out@;
    let ghost rest = rv.drop_first();
    let mut i: usize = 1;
    while i < rows.len()
        invariant
            1 <= i <= rows@.len(),
            rv == rows_view(rows@),
            rest == rv.drop_first(),
            out@ == head + md_body_rows(rest.take(i - 1)),
        decreases rows.len() - i,
    {
        assert(rest.take(i as int).drop_last() == rest.take(i - 1));
        assert(rest.take(i as int).last() == rows@[i as int].cells@);
        out.append("\n");
        push_md_row(&mut out, &rows[i].cells);
        i = i + 1;
    }
    assert(rest.take(rows.len() - 1) == rest);
    out
}

fn render_list_item_md(text: &String, level: u8, list_type: &ListType, display_index: Option<u32>) -> (r: String)
    ensures
        r@ == repeat_char(' ', 2 * level as nat) + md_marker(*list_type, display_index) + " "@ + text@,
{
    let mut s = String::new();
    push_repeat(&mut s, ' ', level as usize * 2);
    match (list_type, display_index) {
        (ListType::Decimal, Some(idx)) => {
            push_decimal(&mut s, idx as u64);
            s.append(".");
        },
        _ => {
            s.append("-");
        },
    }
    s.append(" ");
    s.append(text.as_str());
    s
}

proof fn lemma_find_from(hay: Seq<char>, needle: Seq<char>, from: int)
    ensures
        find_from(hay, needle, from) matches Some(p) ==> from <= p && p + needle.len() <= hay.len()
            && hay.subrange(p, p + needle.len()) == needle,
    decreases hay.len() + 1 - from,
{
    if !(from < 0 || from + needle.len() > hay.len()) && hay.subrange(from, from + needle.len()) != needle {
        lemma_find_from(hay, needle, from + 1);
    }
}

fn find_first(hay: &Vec<char>, needle: &Vec<char>) -> (r: Option<usize>)
    ensures
        match find_from(hay@, needle@, 0) {
            Some(p) => r == Some(p as usize),
            None => r is None,
        },
{
    if needle.len() > hay.len() {
        return None;
    }
    let last = hay.len() - needle.len();
    let mut i: usize = 0;
    loop
        invariant
            i <= last,
            last + needle@.len() == hay@.len(),
            find_from(hay@, needle@, 0) == find_from(hay@, needle@, i as int),
        decreases last - i,
    {
        if starts_with_at(hay, i, needle) {
            return Some(i);
        }
        if i == last {
            assert(find_from(hay@, needle@, i + 1) is None);
            return None;
        }
        i = i + 1;
    }
}

fn push_chars_range(out: &mut String, v: &Vec<char>, lo: usize, hi: usize)
    requires
        lo <= hi <= v@.len(),
    ensures
        final(out)@ == old(out)@ + v@.subrange(lo as int, hi as int),
{
    let mut k = lo;
    while k < hi
        invariant
            lo <= k <= hi <= v@.len(),
            out@ == old(out)@ + v@.subrange(lo as int, k as int),
        decreases hi - k,
    {
        out.push(v[k]);
        assert(v@.subrange(lo as int, k + 1) =~= v@.subrange(lo as int, k as int).push(v@[k as int]));
        k = k + 1;
    }
}

/// A paragraph's Markdown: its text with each link span inline.
fn decorated_paragraph(text: &String, links: &Vec<LinkSpan>) -> (r: String)
    ensures
        r@ == decorate_links(text@, links@),
{
    let mut out = String::new();
    let mut rest = chars_of(text.as_str());
    let mut k: usize = 0;
    assert(links@.skip(0) =~= links@);
    assert(out@ + decorate_links(rest@, links@) =~= decorate_links(text@, links@));
    while k < links.len()
        invariant
            k <= links@.len(),
            decorate_links(text@, links@) == out@ + decorate_links(rest@, links@.skip(k as int)),
        decreases links.len() - k,
    {
        let ghost tail = links@.skip(k as int);
        assert(tail[0] == links@[k as int]);
        assert(tail.drop_first() =~= links@.skip(k + 1));
        let needle = chars_of(links[k].text.as_str());
        let found = find_first(&rest, &needle);
        proof {
            lemma_find_from(rest@, needle@, 0);
        }
        match found {
            None => {},
            Some(p) => {
                let ghost before = out@;
                push_chars_range(&mut out, &rest, 0, p);
                out.append("[");
                out.append(links[k].text.as_str());
                out.append("](");
                out.append(links[k].url.as_str());
                out.append(")");
                let n = rest.len();
                let mut next: Vec<char> = Vec::new();
                let mut j = p + needle.len();
                let ghost start = j;
                assert(rest@.subrange(start as int, start as int) =~= Seq::<char>::empty());
                while j < n
                    invariant
                        start <= j <= n,
                        n == rest@.len(),
                        next@ == rest@.subrange(start as int, j as int),
                    decreases n - j,
                {
                    next.push(rest[j]);
                    assert(rest@.subrange(start as int, j + 1) =~= rest@.subrange(start as int, j as int).push(rest@[j as int]));
                    j = j + 1;
                }
                proof {
                    assert(rest@.subrange(0, p as int) =~= rest@.take(p as int));
                    assert(next@ =~= rest@.skip(start as int));
                    assert(out@ =~= before + (rest@.take(p as int) + "["@ + links@[k as int].text@ + "]("@
                        + links@[k as int].url@ + ")"@));
                    assert(decorate_links(rest@, tail) == rest@.take(p as int) + "["@ + links@[k as int].text@ + "]("@
                        + links@[k as int].url@ + ")"@ + decorate_links(next@, tail.drop_first()));
                }
                rest = next;
            },
        }
        k = k + 1;
    }
    let n = rest.len();
    push_chars_range(&mut out, &rest, 0, n);
    assert(rest@.subrange(0, n as int) =~= rest@);
    assert(links@.skip(links@.len() as int).len() == 0);
    out
}

fn render_md(elem: &DocxElement) -> (r: Option<String>)
    ensures
        match md_render(elem@) {
            Some(x) => r matches Some(y) && y@ == x,
            None => r is None,
        },
    decreases elem,
{
    match elem {
        DocxElement::Heading { level, text } => {
            let clamped: u8 = if *level < 1 { 1 } else if *level > 6 { 6 } else { *level };
            let mut s = String::new();
            push_repeat(&mut s, '#', clamped as usize);
            s.append(" ");
            s.append(text.as_str());
            Some(s)
        },
        DocxElement::Paragraph { text, links, .. } => Some(decorated_paragraph(text, links)),
        DocxElement::ListItem { text, level, list_type, display_index } =>
            Some(render_list_item_md(text, *level, list_type, *display_index)),
        DocxElement::Table { rows } => Some(render_table_md(rows)),
        DocxElement::Footnote { id, text } => {
            let mut s = String::new();
            s.append("[^");
            push_decimal(&mut s, *id as u64);
            s.append("]: ");
            s.append(text.as_str());
            Some(s)
        },
        DocxElement::Endnote { id, text } => {
            let mut s = String::new();
            s.append("[^endnote");
            push_decimal(&mut s, *id as u64);
            s.append("]: ");
            s.append(text.as_str());
            Some(s)
        },
        DocxElement::Comment { id, author, text } => {
            let mut s = String::new();
            s.append("> **Comment ");
            push_decimal(&mut s, *id as u64);
            s.append(" (");
            s.append(author.as_str());
            s.append("):** ");
            s.append(text.as_str());
            Some(s)
        },
        DocxElement::Hyperlink { .. } => None,
        DocxElement::Header { content, .. } => {
            proof {
                assert(decreases_to!(*elem => (*elem)->Header_content));
            }
            let mut s = String::new();
            s.append("> [Header] ");
            let body = to_markdown(content.as_slice());
            s.append(body.as_str());
            Some(s)
        },
        DocxElement::Footer { content, .. } => {
            proof {
                assert(decreases_to!(*elem => (*elem)->Footer_content));
            }
            let mut s = String::new();
            s.append("> [Footer] ");
            let body = to_markdown(content.as_slice());
            s.append(body.as_str());
            Some(s)
        },
    }
}

/// Renders a sequence of elements as GitHub-flavored Markdown: `#` headings
/// (levels clamped to 1..=6), list items indented two spaces per level with
/// `N.` or `-` markers, GFM tables with row 0 as the header.
pub fn to_markdown(elements: &[DocxElement]) -> (r: String)
    ensures
        r@ == markdown_of(elements_view(elements@)),
    decreases elements@,
{
    let ghost ev = elements_view(elements@);
    proof {
        lemma_elements_view_len(elements@);
    }
    let mut out = String::new();
    let mut prev_was_list = false;
    let mut i: usize = 0;
    while i < elements.len()
        invariant
            i <= elements@.len(),
            ev == elements_view(elements@),
            ev.len() == elements@.len(),
            (out@, prev_was_list) == md_fold(ev.take(i as int)),
        decreases elements.len() - i,
    {
        proof {
            lemma_elements_view_index(elements@, i as int);
            assert(decreases_to!(elements@ => elements@[i as int]));
            assert(ev.take(i + 1 as int).drop_last() == ev.take(i as int));
            assert(ev.take(i + 1 as int).last() == ev[i as int]);
        }
        let rendered = render_md(&elements[i]);
        match rendered {
            None => {},
            Some(r) => {
                let is_list = is_list_elem(&elements[i]);
                if !out.as_str().is_empty() {
                    if is_list && prev_was_list {
                        out.append("\n");
                    } else {
                        out.append("\n\n");
                    }
                }
                out.append(r.as_str());
                prev_was_list = is_list;
            },
        }
        i = i + 1;
    }
    assert(ev.take(elements.len() as int) == ev);
    out
}


// ---------------------------------------------------------------------
// Renderings depend only on what the views hold
// ---------------------------------------------------------------------

proof fn lemma_cells_line_agree(a: Seq<TableCell>, b: Seq<TableCell>)
    requires
        cells_agree(a, b),
    ensures
        cells_line(a) == cells_line(b),
        md_row(a) == md_row(b),
    decreases a.len(),
{
    assert(Seq::new(a.len(), |i: int| a[i].text@) =~= Seq::new(b.len(), |i: int| b[i].text@));
    if a.len() > 0 {
        lemma_cells_line_agree(a.drop_last(), b.drop_last());
        assert(a.last().text@ == b.last().text@);
    }
}

proof fn lemma_body_rows_agree(a: Seq<Seq<TableCell>>, b: Seq<Seq<TableCell>>)
    requires
        rows_agree(a, b),
    ensures
        md_body_rows(a) == md_body_rows(b),
    decreases a.len(),
{
    if a.len() > 0 {
        lemma_body_rows_agree(a.drop_last(), b.drop_last());
        lemma_cells_line_agree(a.last(), b.last());
    }
}

proof fn lemma_tables_agree(a: Seq<Seq<TableCell>>, b: Seq<Seq<TableCell>>)
    requires
        rows_agree(a, b),
    ensures
        table_text(a) == table_text(b),
        md_table(a) == md_table(b),
{
    assert forall|i: int| 0 <= i < a.len() implies cells_line(#[trigger] a[i]) == cells_line(b[i]) by {
        lemma_cells_line_agree(a[i], b[i]);
    }
    assert(Seq::new(a.len(), |i: int| cells_line(a[i])) =~= Seq::new(b.len(), |i: int| cells_line(b[i])));
    if a.len() > 0 {
        lemma_cells_line_agree(a[0], b[0]);
        lemma_body_rows_agree(a.drop_first(), b.drop_first());
    }
}

proof fn lemma_decorate_agree(text: Seq<char>, a: Seq<LinkSpan>, b: Seq<LinkSpan>)
    requires
        links_agree(a, b),
    ensures
        decorate_links(text, a) == decorate_links(text, b),
    decreases a.len(),
{
    if a.len() > 0 {
        assert(a[0].text@ == b[0].text@ && a[0].url@ == b[0].url@);
        assert forall|i: int| 0 <= i < a.drop_first().len() implies
            (#[trigger] a.drop_first()[i]).text@ == b.drop_first()[i].text@ && a.drop_first()[i].url@ == b.drop_first()[i].url@ by {
            assert(a.drop_first()[i] == a[i + 1]);
            assert(b.drop_first()[i] == b[i + 1]);
        }
        match find_from(text, a[0].text@, 0) {
            None => lemma_decorate_agree(text, a.drop_first(), b.drop_first()),
            Some(p) => lemma_decorate_agree(text.skip(p + a[0].text@.len()), a.drop_first(), b.drop_first()),
        }
    }
}

proof fn lemma_md_render_agree(a: ElementView, b: ElementView)
    requires
        view_agrees(a, b),
    ensures
        md_render(a) == md_render(b),
        plain_render(a) == plain_render(b),
        is_list_item(a) == is_list_item(b),
    decreases a, 1int,
{
    match (a, b) {
        (ElementView::Paragraph { text, links: l1, .. }, ElementView::Paragraph { links: l2, .. }) => {
            lemma_decorate_agree(text, l1, l2);
        },
        (ElementView::Table { rows: r1 }, ElementView::Table { rows: r2 }) => {
            lemma_tables_agree(r1, r2);
        },
        (ElementView::Header { content: c1, .. }, ElementView::Header { content: c2, .. }) => {
            lemma_md_fold_agree(c1, c2);
        },
        (ElementView::Footer { content: c1, .. }, ElementView::Footer { content: c2, .. }) => {
            lemma_md_fold_agree(c1, c2);
        },
        _ => {},
    }
}

proof fn lemma_md_fold_agree(a: Seq<ElementView>, b: Seq<ElementView>)
    requires
        views_agree(a, b),
    ensures
        md_fold(a) == md_fold(b),
        markdown_of(a) == markdown_of(b),
        plain_text_of(a) == plain_text_of(b),
    decreases a, 0int,
{
    if a.len() > 0 {
        let pa = a.drop_last();
        let pb = b.drop_last();
        assert forall|i: int| 0 <= i < pa.len() implies view_agrees(#[trigger] pa[i], pb[i]) by {
            assert(pa[i] == a[i]);
            assert(pb[i] == b[i]);
        }
        lemma_md_fold_agree(pa, pb);
        assert(view_agrees(a[a.len() - 1], b[b.len() - 1]));
        lemma_md_render_agree(a.last(), b.last());
        if a.len() >= 2 {
            assert(view_agrees(a[a.len() - 2], b[b.len() - 2]));
            lemma_md_render_agree(a[a.len() - 2], b[b.len() - 2]);
        }
    }
}

/// Markdown and plain text depend only on what the elements hold: two
/// element sequences that agree render to the same text.
pub proof fn law_exports_respect_agreement(a: Seq<ElementView>, b: Seq<ElementView>)
    requires
        views_agree(a, b),
    ensures
        markdown_of(a) == markdown_of(b),
        plain_text_of(a) == plain_text_of(b),
{
    lemma_md_fold_agree(a, b);
}

// ---------------------------------------------------------------------
// What the renderings keep of each element
// ---------------------------------------------------------------------

/// The text an element carries of its own: that of a paragraph, heading,
/// list item, footnote, endnote or comment.
pub open spec fn own_text(e: ElementView) -> Option<Seq<char>> {
    match e {
        ElementView::Paragraph { text, .. } => Some(text),
        ElementView::Heading { text, .. } => Some(text),
        ElementView::ListItem { text, .. } => Some(text),
        ElementView::Footnote { text, .. } => Some(text),
        ElementView::Endnote { text, .. } => Some(text),
        ElementView::Comment { text, .. } => Some(text),
        _ => None,
    }
}

/// `needle` occurs in `hay` as a contiguous piece.
pub open spec fn occurs_in(needle: Seq<char>, hay: Seq<char>) -> bool {
    exists|p: int| 0 <= p && p + needle.len() <= hay.len() && #[trigger] hay.subrange(p, p + needle.len()) == needle
}

/// `a` is a prefix of `b`.
pub open spec fn is_prefix(a: Seq<char>, b: Seq<char>) -> bool {
    a.len() <= b.len() && b.subrange(0, a.len() as int) == a
}

/// `a` ends with `b`.
pub open spec fn ends_with(a: Seq<char>, b: Seq<char>) -> bool {
    b.len() <= a.len() && a.subrange(a.len() - b.len(), a.len() as int) == b
}

proof fn lemma_prefix_trans(a: Seq<char>, b: Seq<char>, c: Seq<char>)
    requires
        is_prefix(a, b),
        is_prefix(b, c),
    ensures
        is_prefix(a, c),
{
    assert(c.subrange(0, a.len() as int) =~= c.subrange(0, b.len() as int).subrange(0, a.len() as int));
}

proof fn lemma_prefix_of_concat(a: Seq<char>, b: Seq<char>)
    ensures
        is_prefix(a, a + b),
        ends_with(a + b, b),
{
    assert((a + b).subrange(0, a.len() as int) =~= a);
    assert((a + b).subrange((a + b).len() - b.len(), (a + b).len() as int) =~= b);
}

proof fn lemma_ends_with_trans(a: Seq<char>, b: Seq<char>, c: Seq<char>)
    requires
        ends_with(a, b),
        ends_with(b, c),
    ensures
        ends_with(a, c),
{
    assert(a.subrange(a.len() - c.len(), a.len() as int)
        =~= a.subrange(a.len() - b.len(), a.len() as int).subrange(b.len() - c.len(), b.len() as int));
}

proof fn lemma_suffix_in_prefix_occurs(t: Seq<char>, x: Seq<char>, y: Seq<char>)
    requires
        ends_with(x, t),
        is_prefix(x, y),
    ensures
        occurs_in(t, y),
{
    let p = x.len() - t.len();
    assert(y.subrange(p, p + t.len()) =~= x.subrange(p, x.len() as int));
}

/// Each block ends with the element's own text (a paragraph's only when it
/// has no links, which are written into it).
proof fn lemma_md_render_ends_with_text(e: ElementView)
    requires
        own_text(e) is Some,
        !(e matches ElementView::Paragraph { links, .. } && links.len() > 0),
    ensures
        md_render(e) matches Some(r) && ends_with(r, own_text(e).unwrap()),
{
    match e {
        ElementView::Paragraph { text, links, .. } => {
            assert(decorate_links(text, links) == text);
            assert(text.subrange(0, text.len() as int) =~= text);
        },
        ElementView::Heading { level, text } => {
            lemma_prefix_of_concat(repeat_char('#', clamp_heading(level)) + " "@, text);
        },
        ElementView::ListItem { text, level, list_type, display_index } => {
            lemma_prefix_of_concat(repeat_char(' ', 2 * level as nat) + md_marker(list_type, display_index) + " "@, text);
        },
        ElementView::Footnote { id, text } => {
            lemma_prefix_of_concat("[^"@ + decimal(id as nat) + "]: "@, text);
        },
        ElementView::Endnote { id, text } => {
            lemma_prefix_of_concat("[^endnote"@ + decimal(id as nat) + "]: "@, text);
        },
        ElementView::Comment { id, author, text } => {
            lemma_prefix_of_concat("> **Comment "@ + decimal(id as nat) + " ("@ + author + "):** "@, text);
        },
        _ => {},
    }
}

proof fn lemma_plain_render_ends_with_text(e: ElementView)
    requires
        own_text(e) is Some,
    ensures
        ends_with(plain_render(e), own_text(e).unwrap()),
{
    match e {
        ElementView::Footnote { id, text } => {
            lemma_prefix_of_concat("["@ + decimal(id as nat) + "] "@, text);
        },
        ElementView::Endnote { id, text } => {
            lemma_prefix_of_concat("[endnote "@ + decimal(id as nat) + "] "@, text);
        },
        ElementView::Comment { id, author, text } => {
            lemma_prefix_of_concat("[comment "@ + decimal(id as nat) + " by "@ + author + "] "@, text);
        },
        _ => {
            let t = own_text(e).unwrap();
            assert(t.subrange(0, t.len() as int) =~= t);
        },
    }
}

proof fn lemma_md_fold_grows(s: Seq<ElementView>, k: int)
    requires
        0 <= k <= s.len(),
    ensures
        is_prefix(md_fold(s.take(k)).0, md_fold(s).0),
    decreases s.len() - k,
{
    if k == s.len() {
        assert(s.take(k) =~= s);
        assert(md_fold(s).0.subrange(0, md_fold(s).0.len() as int) =~= md_fold(s).0);
    } else {
        lemma_md_fold_grows(s, k + 1);
        let t = s.take(k + 1);
        assert(t.drop_last() =~= s.take(k));
        let (out, _) = md_fold(s.take(k));
        match md_render(t.last()) {
            None => {
                assert(out.subrange(0, out.len() as int) =~= out);
            },
            Some(r) => {
                let is_list = is_list_item(t.last());
                let sep = if is_list && md_fold(s.take(k)).1 { "\n"@ } else { "\n\n"@ };
                if out.len() == 0 {
                    assert(md_fold(t).0.subrange(0, 0) =~= out);
                } else {
                    lemma_prefix_of_concat(out, sep + r);
                    assert(out + sep + r =~= out + (sep + r));
                }
            },
        }
        lemma_prefix_trans(md_fold(s.take(k)).0, md_fold(t).0, md_fold(s).0);
    }
}

proof fn lemma_plain_grows(s: Seq<ElementView>, k: int)
    requires
        0 <= k <= s.len(),
    ensures
        is_prefix(plain_text_of(s.take(k)), plain_text_of(s)),
    decreases s.len() - k,
{
    if k == s.len() {
        assert(s.take(k) =~= s);
        assert(plain_text_of(s).subrange(0, plain_text_of(s).len() as int) =~= plain_text_of(s));
    } else {
        lemma_plain_grows(s, k + 1);
        let t = s.take(k + 1);
        assert(t.drop_last() =~= s.take(k));
        let prev = plain_text_of(s.take(k));
        let r = plain_render(t.last());
        let sep = if t.len() >= 2 && is_list_item(t.last()) && is_list_item(t[t.len() - 2]) { "\n"@ } else { "\n\n"@ };
        if prev.len() == 0 {
            assert(plain_text_of(t).subrange(0, 0) =~= prev);
        } else {
            lemma_prefix_of_concat(prev, sep + r);
            assert(prev + sep + r =~= prev + (sep + r));
        }
        lemma_prefix_trans(prev, plain_text_of(t), plain_text_of(s));
    }
}

/// Markdown keeps every element's own text: the text of each heading, list
/// item, footnote, endnote, comment and link-free paragraph occurs in the
/// Markdown of any sequence that holds it.
pub proof fn law_markdown_keeps_text(s: Seq<ElementView>, i: int)
    requires
        0 <= i < s.len(),
        own_text(s[i]) is Some,
        !(s[i] matches ElementView::Paragraph { links, .. } && links.len() > 0),
    ensures
        occurs_in(own_text(s[i]).unwrap(), markdown_of(s)),
{
    let t = s.take(i + 1);
    assert(t.drop_last() =~= s.take(i));
    assert(t.last() == s[i]);
    lemma_md_render_ends_with_text(s[i]);
    let r = md_render(s[i]).unwrap();
    let (out, prev_list) = md_fold(s.take(i));
    let sep = if is_list_item(s[i]) && prev_list { "\n"@ } else { "\n\n"@ };
    if out.len() == 0 {
        assert(md_fold(t).0 == r);
        assert(r.subrange(0, r.len() as int) =~= r);
    } else {
        lemma_prefix_of_concat(out + sep, r);
        assert(md_fold(t).0 == out + sep + r);
    }
    assert(ends_with(md_fold(t).0, r));
    lemma_ends_with_trans(md_fold(t).0, r, own_text(s[i]).unwrap());
    lemma_md_fold_grows(s, i + 1);
    lemma_suffix_in_prefix_occurs(own_text(s[i]).unwrap(), md_fold(t).0, md_fold(s).0);
}

/// Plain text keeps every element's own text: the text of each paragraph,
/// heading, list item, footnote, endnote and comment occurs in the plain
/// text of any sequence that holds it.
pub proof fn law_plain_text_keeps_text(s: Seq<ElementView>, i: int)
    requires
        0 <= i < s.len(),
        own_text(s[i]) is Some,
    ensures
        occurs_in(own_text(s[i]).unwrap(), plain_text_of(s)),
{
    let t = s.take(i + 1);
    assert(t.drop_last() =~= s.take(i));
    assert(t.last() == s[i]);
    lemma_plain_render_ends_with_text(s[i]);
    let r = plain_render(s[i]);
    let prev = plain_text_of(s.take(i));
    let sep = if t.len() >= 2 && is_list_item(t.last()) && is_list_item(t[t.len() - 2]) { "\n"@ } else { "\n\n"@ };
    if prev.len() == 0 {
        assert(plain_text_of(t) == r);
        assert(r.subrange(0, r.len() as int) =~= r);
    } else {
        lemma_prefix_of_concat(prev + sep, r);
        assert(plain_text_of(t) == prev + sep + r);
    }
    assert(ends_with(plain_text_of(t), r));
    lemma_ends_with_trans(plain_text_of(t), r, own_text(s[i]).unwrap());
    lemma_plain_grows(s, i + 1);
    lemma_suffix_in_prefix_occurs(own_text(s[i]).unwrap(), plain_text_of(t), plain_text_of(s));
}

/// A lone note or comment renders in full: in Markdown a footnote is
/// `[^N]: text` and an endnote `[^endnoteN]: text`; in plain text a
/// comment is `[comment N by author] text`, a footnote `[N] text` and an
/// endnote `[endnote N] text`.
pub proof fn law_note_forms(id: u32, author: Seq<char>, text: Seq<char>)
    ensures
        markdown_of(seq![ElementView::Footnote { id, text }]) == "[^"@ + decimal(id as nat) + "]: "@ + text,
        markdown_of(seq![ElementView::Endnote { id, text }]) == "[^endnote"@ + decimal(id as nat) + "]: "@ + text,
        plain_text_of(seq![ElementView::Comment { id, author, text }])
            == "[comment "@ + decimal(id as nat) + " by "@ + author + "] "@ + text,
        plain_text_of(seq![ElementView::Footnote { id, text }]) == "["@ + decimal(id as nat) + "] "@ + text,
        plain_text_of(seq![ElementView::Endnote { id, text }]) == "[endnote "@ + decimal(id as nat) + "] "@ + text,
{
    let f = seq![ElementView::Footnote { id, text }];
    let en = seq![ElementView::Endnote { id, text }];
    let c = seq![ElementView::Comment { id, author, text }];
    assert(f.drop_last() =~= Seq::<ElementView>::empty());
    assert(en.drop_last() =~= Seq::<ElementView>::empty());
    assert(c.drop_last() =~= Seq::<ElementView>::empty());
    assert(plain_text_of(Seq::<ElementView>::empty()) == Seq::<char>::empty());
    assert(plain_text_of(f) == plain_render(f.last()));
    assert(plain_text_of(en) == plain_render(en.last()));
    assert(plain_text_of(c) == plain_render(c.last()));
}

proof fn lemma_occurs_trans(a: Seq<char>, b: Seq<char>, c: Seq<char>)
    requires
        occurs_in(a, b),
        occurs_in(b, c),
    ensures
        occurs_in(a, c),
{
    let p = choose|p: int| 0 <= p && p + a.len() <= b.len() && #[trigger] b.subrange(p, p + a.len()) == a;
    let q = choose|q: int| 0 <= q && q + b.len() <= c.len() && #[trigger] c.subrange(q, q + b.len()) == b;
    assert(c.subrange(q + p, q + p + a.len()) =~= b.subrange(p, p + a.len()));
}

pub proof fn lemma_occurs_self(a: Seq<char>)
    ensures
        occurs_in(a, a),
{
    let p: int = 0;
    assert(a.subrange(p, p + a.len()) =~= a);
}

proof fn lemma_occurs_concat(a: Seq<char>, x: Seq<char>, y: Seq<char>)
    ensures
        occurs_in(a, x) ==> occurs_in(a, x + y),
        occurs_in(a, y) ==> occurs_in(a, x + y),
{
    if occurs_in(a, x) {
        let p = choose|p: int| 0 <= p && p + a.len() <= x.len() && #[trigger] x.subrange(p, p + a.len()) == a;
        assert((x + y).subrange(p, p + a.len()) =~= x.subrange(p, p + a.len()));
    }
    if occurs_in(a, y) {
        let p = choose|p: int| 0 <= p && p + a.len() <= y.len() && #[trigger] y.subrange(p, p + a.len()) == a;
        assert((x + y).subrange(x.len() + p, x.len() + p + a.len()) =~= y.subrange(p, p + a.len()));
    }
}

pub proof fn lemma_join_contains(parts: Seq<Seq<char>>, sep: Seq<char>, i: int)
    requires
        0 <= i < parts.len(),
    ensures
        occurs_in(parts[i], join(parts, sep)),
    decreases parts.len(),
{
    if parts.len() == 1 {
        lemma_occurs_self(parts[0]);
    } else if i == parts.len() - 1 {
        lemma_occurs_self(parts[i]);
        lemma_occurs_concat(parts[i], join(parts.drop_last(), sep) + sep, parts.last());
    } else {
        lemma_join_contains(parts.drop_last(), sep, i);
        assert(parts.drop_last()[i] == parts[i]);
        lemma_occurs_concat(parts[i], join(parts.drop_last(), sep), sep);
        lemma_occurs_concat(parts[i], join(parts.drop_last(), sep) + sep, parts.last());
    }
}

proof fn lemma_md_row_contains(cells: Seq<TableCell>, c: int)
    requires
        0 <= c < cells.len(),
    ensures
        occurs_in(cells[c].text@, md_row(cells)),
    decreases cells.len(),
{
    let pre = cells.drop_last();
    if c == cells.len() - 1 {
        lemma_occurs_self(cells[c].text@);
        lemma_occurs_concat(cells[c].text@, md_row(pre) + " "@, cells.last().text@);
        lemma_occurs_concat(cells[c].text@, md_row(pre) + " "@ + cells.last().text@, " |"@);
    } else {
        lemma_md_row_contains(pre, c);
        assert(pre[c] == cells[c]);
        lemma_occurs_concat(cells[c].text@, md_row(pre), " "@);
        lemma_occurs_concat(cells[c].text@, md_row(pre) + " "@, cells.last().text@);
        lemma_occurs_concat(cells[c].text@, md_row(pre) + " "@ + cells.last().text@, " |"@);
    }
}

proof fn lemma_md_body_rows_contains(rows: Seq<Seq<TableCell>>, r: int, c: int)
    requires
        0 <= r < rows.len(),
        0 <= c < rows[r].len(),
    ensures
        occurs_in(rows[r][c].text@, md_body_rows(rows)),
    decreases rows.len(),
{
    let pre = rows.drop_last();
    if r == rows.len() - 1 {
        lemma_md_row_contains(rows[r], c);
        lemma_occurs_concat(rows[r][c].text@, md_body_rows(pre) + "\n"@, md_row(rows.last()));
    } else {
        lemma_md_body_rows_contains(pre, r, c);
        assert(pre[r] == rows[r]);
        lemma_occurs_concat(rows[r][c].text@, md_body_rows(pre), "\n"@);
        lemma_occurs_concat(rows[r][c].text@, md_body_rows(pre) + "\n"@, md_row(rows.last()));
    }
}

/// Each cell's text occurs in the table's Markdown and in its plain text.
proof fn lemma_table_keeps_cells(rows: Seq<Seq<TableCell>>, r: int, c: int)
    requires
        0 <= r < rows.len(),
        0 <= c < rows[r].len(),
    ensures
        occurs_in(rows[r][c].text@, md_table(rows)),
        occurs_in(rows[r][c].text@, table_text(rows)),
{
    let t = rows[r][c].text@;
    let n = rows[0].len();
    let mid: Seq<char> = if n > 0 { "\n"@ + md_separator(n) } else { Seq::empty() };
    if r == 0 {
        lemma_md_row_contains(rows[0], c);
        lemma_occurs_concat(t, md_row(rows[0]), mid);
        lemma_occurs_concat(t, md_row(rows[0]) + mid, md_body_rows(rows.drop_first()));
    } else {
        lemma_md_body_rows_contains(rows.drop_first(), r - 1, c);
        assert(rows.drop_first()[r - 1] == rows[r]);
        lemma_occurs_concat(t, md_row(rows[0]) + mid, md_body_rows(rows.drop_first()));
    }
    let texts = Seq::new(rows[r].len(), |i: int| rows[r][i].text@);
    lemma_join_contains(texts, " | "@, c);
    let lines = Seq::new(rows.len(), |i: int| cells_line(rows[i]));
    lemma_join_contains(lines, "\n"@, r);
    lemma_occurs_trans(t, cells_line(rows[r]), table_text(rows));
}

/// Markdown and plain text keep every cell of every table: each cell's
/// text occurs in the rendering of any sequence that holds the table.
pub proof fn law_exports_keep_table_cells(s: Seq<ElementView>, i: int, r: int, c: int)
    requires
        0 <= i < s.len(),
        s[i] matches ElementView::Table { rows } && 0 <= r < rows.len() && 0 <= c < rows[r].len(),
    ensures
        s[i] matches ElementView::Table { rows } && occurs_in(rows[r][c].text@, markdown_of(s))
            && occurs_in(rows[r][c].text@, plain_text_of(s)),
{
    let rows = s[i]->Table_rows;
    lemma_table_keeps_cells(rows, r, c);
    law_markdown_keeps_blocks(s, i);
    law_plain_text_keeps_blocks(s, i);
    lemma_occurs_trans(rows[r][c].text@, md_table(rows), markdown_of(s));
    lemma_occurs_trans(rows[r][c].text@, table_text(rows), plain_text_of(s));
}

/// Markdown keeps every rendered block whole: the block of each element
/// that Markdown renders occurs in the Markdown of the sequence.
pub proof fn law_markdown_keeps_blocks(s: Seq<ElementView>, i: int)
    requires
        0 <= i < s.len(),
    ensures
        md_render(s[i]) matches Some(r) ==> occurs_in(r, markdown_of(s)),
{
    if md_render(s[i]) is Some {
        let t = s.take(i + 1);
        assert(t.drop_last() =~= s.take(i));
        assert(t.last() == s[i]);
        let r = md_render(s[i]).unwrap();
        let (out, prev_list) = md_fold(s.take(i));
        let sep = if is_list_item(s[i]) && prev_list { "\n"@ } else { "\n\n"@ };
        if out.len() == 0 {
            assert(md_fold(t).0 == r);
            assert(r.subrange(0, r.len() as int) =~= r);
        } else {
            lemma_prefix_of_concat(out + sep, r);
            assert(md_fold(t).0 == out + sep + r);
        }
        lemma_md_fold_grows(s, i + 1);
        lemma_suffix_in_prefix_occurs(r, md_fold(t).0, md_fold(s).0);
    }
}

/// Plain text keeps every element's rendering whole.
pub proof fn law_plain_text_keeps_blocks(s: Seq<ElementView>, i: int)
    requires
        0 <= i < s.len(),
    ensures
        occurs_in(plain_render(s[i]), plain_text_of(s)),
{
    let t = s.take(i + 1);
    assert(t.drop_last() =~= s.take(i));
    assert(t.last() == s[i]);
    let r = plain_render(s[i]);
    let prev = plain_text_of(s.take(i));
    let sep = if t.len() >= 2 && is_list_item(t.last()) && is_list_item(t[t.len() - 2]) { "\n"@ } else { "\n\n"@ };
    if prev.len() == 0 {
        assert(plain_text_of(t) == r);
        assert(r.subrange(0, r.len() as int) =~= r);
    } else {
        lemma_prefix_of_concat(prev + sep, r);
        assert(plain_text_of(t) == prev + sep + r);
    }
    lemma_plain_grows(s, i + 1);
    lemma_suffix_in_prefix_occurs(r, plain_text_of(t), plain_text_of(s));
}

/// The basic shapes of the renderings: a heading of level 1 to 6 is that
/// many `#` and a space before its text; a paragraph without links is its
/// text; two paragraphs, the first not empty, are joined by a blank line
/// in Markdown and in plain text.
pub proof fn law_basic_forms(level: u8, t1: Seq<char>, t2: Seq<char>, h1: Option<crate::pipeline::element::HeadingContext>,
    h2: Option<crate::pipeline::element::HeadingContext>)
    ensures
        1 <= level <= 6 ==> markdown_of(seq![ElementView::Heading { level, text: t1 }])
            == repeat_char('#', level as nat) + " "@ + t1,
        markdown_of(seq![ElementView::Paragraph { text: t1, parent_heading: h1, links: Seq::empty() }]) == t1,
        t1.len() > 0 ==> markdown_of(seq![
            ElementView::Paragraph { text: t1, parent_heading: h1, links: Seq::empty() },
            ElementView::Paragraph { text: t2, parent_heading: h2, links: Seq::empty() },
        ]) == t1 + "\n\n"@ + t2,
        t1.len() > 0 ==> plain_text_of(seq![
            ElementView::Paragraph { text: t1, parent_heading: h1, links: Seq::empty() },
            ElementView::Paragraph { text: t2, parent_heading: h2, links: Seq::empty() },
        ]) == t1 + "\n\n"@ + t2,
{
    let hd = seq![ElementView::Heading { level, text: t1 }];
    let p1 = ElementView::Paragraph { text: t1, parent_heading: h1, links: Seq::empty() };
    let p2 = ElementView::Paragraph { text: t2, parent_heading: h2, links: Seq::empty() };
    let one = seq![p1];
    let two = seq![p1, p2];
    assert(hd.drop_last() =~= Seq::<ElementView>::empty());
    assert(one.drop_last() =~= Seq::<ElementView>::empty());
    assert(two.drop_last() =~= one);
    assert(decorate_links(t1, Seq::empty()) == t1);
    assert(decorate_links(t2, Seq::empty()) == t2);
    assert(one.last() == p1);
    assert(two.last() == p2);
    assert(two[0] == p1);
    assert(md_fold(Seq::<ElementView>::empty()) == (Seq::<char>::empty(), false));
    assert(md_render(p1) == Some(t1));
    assert(md_fold(one).0 == t1);
    assert(plain_text_of(Seq::<ElementView>::empty()) == Seq::<char>::empty());
    assert(plain_render(p1) == t1);
    assert(plain_render(p2) == t2);
    assert(plain_text_of(one) == t1);
    assert(!is_list_item(p2));
    if t1.len() > 0 {
        assert(plain_text_of(two) == plain_text_of(one) + "\n\n"@ + t2);
    }
}
} // verus!
