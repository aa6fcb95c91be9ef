use std::ops::Range;
use vstd::prelude::*;
use vstd::utf8::{encode_utf8, is_char_boundary};

use crate::block::{
    inline_view, node_view, nodes_view, paragraph_view, BlockNode, CellNodeView, ColumnumnAlign,
    ImageNodeView, InlineView, MarkView, NodeView, Paragraph, ParagraphView, TableNodeView,
};
use crate::builder::ParsedDocument;
use crate::document::{decimal, push_decimal};
use crate::node::InlineNode;
use crate::unicode::{chars_between, chars_of, str_byte_len, substring, trim_start, trimmed_start};
use vstd::string::StringSliceAdditionalSpecFns;

verus! {

broadcast use {
    vstd::string::group_string_axioms,
    vstd::utf8::encode_utf8_valid_utf8,
    vstd::utf8::is_char_boundary_start_end_of_seq,
};

/// The parts joined with `sep` between each two.
pub open spec fn join(parts: Seq<Seq<char>>, sep: Seq<char>) -> Seq<char>
    decreases parts.len(),
{
    if parts.len() == 0 {
        Seq::empty()
    } else if parts.len() == 1 {
        parts[0]
    } else {
        join(parts.drop_last(), sep) + sep + parts.last()
    }
}

/// Whether a mark gives its text a Markdown style.
pub open spec fn styled(m: MarkView) -> bool {
    m.bold || m.italic || m.strikethrough || m.code || m.highlight is Some || m.link is Some
}

/// `s` written with the style of `m` that takes precedence: a link, then a
/// highlight, code, strikethrough, emphasis and strong emphasis.
pub open spec fn wrapped(m: MarkView, s: Seq<char>) -> Seq<char> {
    match m.link {
        Some(link) => seq!['['] + s + seq![']', '('] + link.url + seq![')'],
        None => if m.highlight is Some {
            seq!['=', '='] + s + seq!['=', '=']
        } else if m.code {
            seq!['`'] + s + seq!['`']
        } else if m.strikethrough {
            seq!['~', '~'] + s + seq!['~', '~']
        } else if m.italic {
            seq!['*'] + s + seq!['*']
        } else {
            seq!['*', '*'] + s + seq!['*', '*']
        },
    }
}

/// The text of a node as its last styled mark writes the part it covers;
/// the text itself where no mark is styled.
pub open spec fn marked_markdown(text: Seq<char>, marks: Seq<(Range<usize>, MarkView)>) -> Seq<char>
    decreases marks.len(),
{
    if marks.len() == 0 {
        text
    } else if styled(marks.last().1) {
        wrapped(marks.last().1, chars_between(text, marks.last().0.start as int, marks.last().0.end as int))
    } else {
        marked_markdown(text, marks.drop_last())
    }
}

pub open spec fn text_or_empty(t: Option<Seq<char>>) -> Seq<char> {
    match t {
        Some(s) => s,
        None => Seq::empty(),
    }
}

/// A title written as ` "title"`, or nothing.
pub open spec fn title_markdown(t: Option<Seq<char>>) -> Seq<char> {
    match t {
        Some(s) => seq![' ', '"'] + s + seq!['"'],
        None => Seq::empty(),
    }
}

pub open spec fn checkbox_markdown(checked: Option<bool>) -> Seq<char> {
    match checked {
        Some(true) => seq!['[', 'x', ']', ' '],
        Some(false) => seq!['[', ' ', ']', ' '],
        None => Seq::empty(),
    }
}

/// An image written as `![alt](url "title")`.
pub open spec fn image_markdown(image: ImageNodeView) -> Seq<char> {
    seq!['!', '['] + text_or_empty(image.alt) + seq![']', '('] + image.url + title_markdown(image.title) + seq![')']
}

pub open spec fn inline_markdown(node: InlineView) -> Seq<char> {
    marked_markdown(node.text, node.marks) + match node.image {
        Some(i) => image_markdown(i),
        None => Seq::empty(),
    }
}

pub open spec fn inlines_markdown(nodes: Seq<InlineView>) -> Seq<char>
    decreases nodes.len(),
{
    if nodes.len() == 0 {
        Seq::empty()
    } else {
        inlines_markdown(nodes.drop_last()) + inline_markdown(nodes.last())
    }
}

/// A paragraph written as its nodes, then a blank line.
pub open spec fn paragraph_markdown(p: ParagraphView) -> Seq<char> {
    inlines_markdown(p.children) + seq!['\n', '\n']
}

/// The position of the first `\n` of `s` at or after `from`; the length of
/// `s` where there is none.
pub open spec fn first_newline(s: Seq<char>, from: int) -> int
    decreases s.len() - from,
{
    if from >= s.len() {
        s.len() as int
    } else if s[from] == '\n' {
        from
    } else {
        first_newline(s, from + 1)
    }
}

/// The first `\n` at or after a position lies at or after it, and nothing
/// before it is a `\n`.
pub proof fn lemma_first_newline_bounds(s: Seq<char>, from: int)
    requires
        0 <= from,
    ensures
        from <= first_newline(s, from) || first_newline(s, from) == s.len(),
        first_newline(s, from) <= s.len() || from > s.len(),
        first_newline(s, from) < s.len() ==> s[first_newline(s, from)] == '\n',
        forall|j: int| from <= j < first_newline(s, from) && j < s.len() ==> s[j] != '\n',
    decreases s.len() - from,
{
    if from < s.len() && s[from] != '\n' {
        lemma_first_newline_bounds(s, from + 1);
    }
}

/// A line without the `\r` that ends it, if any.
pub open spec fn without_cr(line: Seq<char>) -> Seq<char> {
    if line.len() > 0 && line.last() == '\r' {
        line.drop_last()
    } else {
        line
    }
}

/// The lines of `s` from byte `pos` on, as `str::lines` gives them: split
/// after each `\n`, without it and a `\r` before it; no line after a final
/// `\n`.
pub open spec fn lines_from(s: Seq<char>, pos: int) -> Seq<Seq<char>>
    decreases s.len() - pos,
{
    if pos < 0 || pos >= s.len() {
        Seq::empty()
    } else {
        let i = first_newline(s, pos);
        if i >= s.len() {
            seq![s.subrange(pos, s.len() as int)]
        } else {
            proof {
                lemma_first_newline_bounds(s, pos);
            }
            seq![without_cr(s.subrange(pos, i))] + lines_from(s, i + 1)
        }
    }
}

/// The lines of `s` (see [`lines_from`]).
pub open spec fn md_lines(s: Seq<char>) -> Seq<Seq<char>> {
    lines_from(s, 0)
}

pub open spec fn align_markdown(a: ColumnumnAlign) -> Seq<char> {
    match a {
        ColumnumnAlign::Left => seq![':', '-', '-'],
        ColumnumnAlign::Center => seq![':', '-', ':'],
        ColumnumnAlign::Right => seq!['-', '-', ':'],
    }
}

/// A table row written as its cells joined with ` | `.
pub open spec fn row_markdown(cells: Seq<CellNodeView>) -> Seq<char> {
    join(cells.map_values(|c: CellNodeView| paragraph_markdown(c.children)), seq![' ', '|', ' '])
}

/// A table written as its first row, the column alignments and the other
/// rows, one per line.
pub open spec fn table_markdown(t: TableNodeView) -> Seq<char> {
    let header = if t.rows.len() > 0 {
        row_markdown(t.rows[0])
    } else {
        Seq::empty()
    };
    let aligns = join(t.column_aligns.map_values(|a: ColumnumnAlign| align_markdown(a)), seq![' ', '|', ' ']);
    let rows = if t.rows.len() > 1 {
        join(t.rows.skip(1).map_values(|r: Seq<CellNodeView>| row_markdown(r)), seq!['\n'])
    } else {
        Seq::empty()
    };
    header + seq!['\n'] + aligns + seq!['\n'] + rows
}

/// The Markdown of each node.
pub open spec fn nodes_markdown(nodes: Seq<NodeView>) -> Seq<Seq<char>>
    decreases nodes, 0int,
{
    Seq::new(
        nodes.len(),
        |i: int|
            if 0 <= i < nodes.len() {
                proof {
                    assert(decreases_to!(nodes => nodes[i]));
                }
                node_markdown(nodes[i])
            } else {
                Seq::empty()
            },
    )
}

/// The list item marker of the `i`-th item.
pub open spec fn list_marker(ordered: bool, i: int) -> Seq<char> {
    if ordered {
        decimal((i + 1) as nat) + seq!['.', ' ']
    } else {
        seq!['-', ' ']
    }
}

/// A node written back as Markdown.
pub open spec fn node_markdown(node: NodeView) -> Seq<char>
    decreases node, 1int,
{
    match node {
        NodeView::Root { children, .. } => join(nodes_markdown(children), seq!['\n', '\n']),
        NodeView::Paragraph(p) => paragraph_markdown(p),
        NodeView::Heading { level, children, .. } => Seq::new(level as nat, |i: int| '#') + seq![' ']
            + paragraph_markdown(children),
        NodeView::Blockquote { children, .. } => join(
            md_lines(join(nodes_markdown(children), seq!['\n', '\n'])).map_values(|l: Seq<char>| seq!['>', ' '] + l),
            seq!['\n'],
        ),
        NodeView::List { children, ordered, .. } => {
            let items = nodes_markdown(children);
            join(Seq::new(items.len(), |i: int| list_marker(ordered, i) + items[i]), seq!['\n'])
        },
        NodeView::ListItem { children, checked, .. } => checkbox_markdown(checked) + join(
            nodes_markdown(children),
            seq!['\n'],
        ),
        NodeView::CodeBlock(c) => seq!['`', '`', '`'] + text_or_empty(c.lang) + seq!['\n'] + c.code + seq![
            '\n',
            '`',
            '`',
            '`',
        ],
        NodeView::Table(t) => table_markdown(t),
        NodeView::Break { html, .. } => if html {
            seq!['<', 'b', 'r', '>']
        } else {
            seq!['\n']
        },
        NodeView::HorizontalRule { .. } => seq!['-', '-', '-'],
        NodeView::Definition { identifier, url, title, .. } => seq!['['] + identifier + seq![']', ':', ' '] + url
            + title_markdown(title),
        NodeView::Unknown => Seq::empty(),
    }
}

/// Whether `r` is a slice of `text`: within its bytes, on character
/// boundaries.
pub open spec fn slice_range(text: Seq<char>, r: Range<usize>) -> bool {
    r.start <= r.end <= encode_utf8(text).len() && is_char_boundary(encode_utf8(text), r.start as int)
        && is_char_boundary(encode_utf8(text), r.end as int)
}

/// Whether every styled mark of a node covers a slice of its text.
pub open spec fn inline_writable(node: InlineView) -> bool {
    forall|k: int| 0 <= k < node.marks.len() && styled(#[trigger] node.marks[k].1) ==> slice_range(node.text, node.marks[k].0)
}

pub open spec fn paragraph_writable(p: ParagraphView) -> bool {
    forall|i: int| 0 <= i < p.children.len() ==> inline_writable(#[trigger] p.children[i])
}

/// Whether every node can be written back (see [`node_writable`]).
pub open spec fn nodes_writable(nodes: Seq<NodeView>) -> bool
    decreases nodes, 0int,
{
    if nodes.len() == 0 {
        true
    } else {
        proof {
            assert(decreases_to!(nodes => nodes[nodes.len() - 1]));
            assert(decreases_to!(nodes => nodes.subrange(0, nodes.len() - 1)));
        }
        nodes_writable(nodes.subrange(0, nodes.len() - 1)) && node_writable(nodes[nodes.len() - 1])
    }
}

/// Each node of nodes that can be written back can be.
pub proof fn lemma_nodes_writable_index(nodes: Seq<NodeView>, i: int)
    requires
        nodes_writable(nodes),
        0 <= i < nodes.len(),
    ensures
        node_writable(nodes[i]),
    decreases nodes.len(),
{
    if i < nodes.len() - 1 {
        lemma_nodes_writable_index(nodes.subrange(0, nodes.len() - 1), i);
    }
}

/// Whether every paragraph in a node can be written back: every styled
/// mark in it covers a slice of its node's text.
pub open spec fn node_writable(node: NodeView) -> bool
    decreases node, 1int,
{
    match node {
        NodeView::Root { children, .. } => nodes_writable(children),
        NodeView::Paragraph(p) => paragraph_writable(p),
        NodeView::Heading { children, .. } => paragraph_writable(children),
        NodeView::Blockquote { children, .. } => nodes_writable(children),
        NodeView::List { children, .. } => nodes_writable(children),
        NodeView::ListItem { children, .. } => nodes_writable(children),
        NodeView::Table(t) => forall|r: int, c: int|
            0 <= r < t.rows.len() && 0 <= c < t.rows[r].len() ==> paragraph_writable(#[trigger] t.rows[r][c].children),
        _ => true,
    }
}

pub open spec fn texts(parts: Seq<String>) -> Seq<Seq<char>> {
    parts.map_values(|p: String| p@)
}

/// Appends `parts` joined with `sep`.
fn push_joined(out: &mut String, parts: &Vec<String>, sep: &str)
    ensures
        final(out)@ == old(out)@ + join(texts(parts@), sep@),
{
    let ghost views = texts(parts@);
    let mut k: usize = 0;
    proof {
        assert(views.take(0) =~= Seq::<Seq<char>>::empty());
        assert(out@ =~= old(out)@ + join(views.take(0), sep@));
    }
    while k < parts.len()
        invariant
            k <= parts@.len(),
            views == texts(parts@),
            out@ == old(out)@ + join(views.take(k as int), sep@),
        decreases parts@.len() - k,
    {
        if k > 0 {
            out.append(sep);
        }
        out.append(parts[k].as_str());
        proof {
            assert(views.take(k + 1).drop_last() =~= views.take(k as int));
            if k == 0 {
                assert(join(views.take(1), sep@) == views[0]);
            }
            assert(out@ =~= old(out)@ + join(views.take(k + 1), sep@));
        }
        k += 1;
    }
    proof {
        assert(views.take(k as int) =~= views);
    }
}

/// Appends a title as ` "title"`, or nothing.
fn push_title(out: &mut String, title: &Option<String>)
    ensures
        final(out)@ == old(out)@ + title_markdown(crate::block::text_opt(*title)),
{
    match title {
        Some(t) => {
            out.push(' ');
            out.push('"');
            out.append(t.as_str());
            out.push('"');
            proof {
                assert(out@ =~= old(out)@ + title_markdown(crate::block::text_opt(*title)));
            }
        },
        None => {
            proof {
                assert(out@ =~= old(out)@ + title_markdown(crate::block::text_opt(*title)));
            }
        },
    }
}

/// The Markdown of an inline node (see [`inline_markdown`]).
fn inline_to_markdown(node: &InlineNode) -> (md: String)
    requires
        inline_writable(inline_view(*node)),
    ensures
        md@ == inline_markdown(inline_view(*node)),
{
    let ghost marks = inline_view(*node).marks;
    let mut text = node.text.clone();
    let mut k: usize = 0;
    proof {
        assert(marks.take(0) =~= Seq::<(Range<usize>, MarkView)>::empty());
    }
    while k < node.marks.len()
        invariant
            k <= node.marks@.len(),
            marks == inline_view(*node).marks,
            inline_writable(inline_view(*node)),
            text@ == marked_markdown(node.text@, marks.take(k as int)),
        decreases node.marks@.len() - k,
    {
        let range = &node.marks[k].0;
        let style = &node.marks[k].1;
        proof {
            assert(marks.take(k + 1).drop_last() =~= marks.take(k as int));
            assert(marks.take(k + 1).last() == marks[k as int]);
            assert(marks[k as int] == (*range, crate::block::mark_view(*style)));
        }
        if style.bold || style.italic || style.strikethrough || style.code || style.highlight.is_some()
            || style.link.is_some() {
            proof {
                assert(styled(marks[k as int].1));
            }
            let slice = substring(node.text.as_str(), range.start, range.end);
            let mut wrapped_text = String::new();
            match &style.link {
                Some(link) => {
                    wrapped_text.push('[');
                    wrapped_text.append(slice.as_str());
                    wrapped_text.push(']');
                    wrapped_text.push('(');
                    wrapped_text.append(link.url.as_str());
                    wrapped_text.push(')');
                },
                None => {
                    let (open, close) = if style.highlight.is_some() {
                        ("==", "==")
                    } else if style.code {
                        ("`", "`")
                    } else if style.strikethrough {
                        ("~~", "~~")
                    } else if style.italic {
                        ("*", "*")
                    } else {
                        ("**", "**")
                    };
                    proof {
                        reveal_strlit("==");
                        reveal_strlit("`");
                        reveal_strlit("~~");
                        reveal_strlit("*");
                        reveal_strlit("**");
                    }
                    wrapped_text.append(open);
                    wrapped_text.append(slice.as_str());
                    wrapped_text.append(close);
                },
            }
            proof {
                assert(wrapped_text@ =~= wrapped(marks[k as int].1, slice@));
            }
            text = wrapped_text;
        }
        k += 1;
    }
    proof {
        assert(marks.take(k as int) =~= marks);
    }
    match &node.image {
        Some(image) => {
            text.push('!');
            text.push('[');
            match &image.alt {
                Some(alt) => text.append(alt.as_str()),
                None => {},
            }
            text.push(']');
            text.push('(');
            text.append(image.url.as_str());
            push_title(&mut text, &image.title);
            text.push(')');
            proof {
                assert(text@ =~= inline_markdown(inline_view(*node)));
            }
        },
        None => {
            proof {
                assert(text@ =~= inline_markdown(inline_view(*node)));
            }
        },
    }
    text
}

impl Paragraph {
    /// The paragraph written back as Markdown (see [`paragraph_markdown`]).
    pub fn to_markdown(&self) -> (md: String)
        requires
            paragraph_writable(paragraph_view(*self)),
        ensures
            md@ == paragraph_markdown(paragraph_view(*self)),
    {
        let ghost nodes = paragraph_view(*self).children;
        let mut md = String::new();
        let mut i: usize = 0;
        proof {
            assert(nodes.take(0) =~= Seq::<InlineView>::empty());
        }
        while i < self.children.len()
            invariant
                i <= self.children@.len(),
                nodes == paragraph_view(*self).children,
                paragraph_writable(paragraph_view(*self)),
                md@ == inlines_markdown(nodes.take(i as int)),
            decreases self.children@.len() - i,
        {
            proof {
                assert(nodes[i as int] == inline_view(self.children@[i as int]));
                assert(inline_writable(nodes[i as int]));
                assert(nodes.take(i + 1).drop_last() =~= nodes.take(i as int));
            }
            let piece = inline_to_markdown(&self.children[i]);
            md.append(piece.as_str());
            i += 1;
        }
        proof {
            assert(nodes.take(i as int) =~= nodes);
        }
        md.push('\n');
        md.push('\n');
        md
    }
}

/// The lines of `text` (see [`md_lines`]).
fn lines_of(text: &str) -> (lines: Vec<String>)
    ensures
        texts(lines@) == md_lines(text@),
{
    let chars = chars_of(text);
    let ghost s = chars@;
    let n = chars.len();
    let mut lines: Vec<String> = Vec::new();
    let mut pos: usize = 0;
    while pos < n
        invariant
            s == chars@,
            n == s.len(),
            pos <= n,
            texts(lines@) + lines_from(s, pos as int) == lines_from(s, 0),
        decreases n - pos,
    {
        let mut i = pos;
        while i < n && chars[i] != '\n'
            invariant
                pos <= i <= n,
                s == chars@,
                n == s.len(),
                first_newline(s, pos as int) == first_newline(s, i as int),
            decreases n - i,
        {
            i += 1;
        }
        let ghost before = texts(lines@);
        if i >= n {
            let line = crate::parser::collect_chars(&chars, pos, n);
            lines.push(line);
            proof {
                assert(texts(lines@) =~= before + seq![s.subrange(pos as int, n as int)]);
                assert(lines_from(s, n as int) =~= Seq::<Seq<char>>::empty());
                assert(texts(lines@) + lines_from(s, n as int) =~= before + lines_from(s, pos as int));
            }
            pos = n;
        } else {
            let end = if i > pos && chars[i - 1] == '\r' {
                i - 1
            } else {
                i
            };
            let line = crate::parser::collect_chars(&chars, pos, end);
            lines.push(line);
            proof {
                lemma_first_newline_bounds(s, pos as int);
                assert(line@ =~= without_cr(s.subrange(pos as int, i as int)));
                assert(texts(lines@) =~= before + seq![without_cr(s.subrange(pos as int, i as int))]);
                assert(texts(lines@) + lines_from(s, i + 1) =~= before + lines_from(s, pos as int));
            }
            pos = i + 1;
        }
    }
    proof {
        assert(lines_from(s, pos as int) =~= Seq::<Seq<char>>::empty());
        assert(texts(lines@) + lines_from(s, pos as int) =~= texts(lines@));
    }
    lines
}

/// A table row's Markdown (see [`row_markdown`]).
fn row_to_markdown(row: &crate::block::TableRow) -> (md: String)
    requires
        forall|c: int| 0 <= c < row.children@.len() ==> paragraph_writable(#[trigger] paragraph_view(row.children@[c].children)),
    ensures
        md@ == row_markdown(crate::block::table_row_view(*row)),
{
    let mut cells: Vec<String> = Vec::new();
    let mut c: usize = 0;
    while c < row.children.len()
        invariant
            c <= row.children@.len(),
            forall|j: int| 0 <= j < row.children@.len() ==> paragraph_writable(#[trigger] paragraph_view(row.children@[j].children)),
            cells@.len() == c,
            forall|j: int| 0 <= j < c ==> (#[trigger] cells@[j])@ == paragraph_markdown(paragraph_view(row.children@[j].children)),
        decreases row.children@.len() - c,
    {
        cells.push(row.children[c].children.to_markdown());
        c += 1;
    }
    let mut md = String::new();
    proof {
        reveal_strlit(" | ");
        assert(" | "@ =~= seq![' ', '|', ' ']);
    }
    push_joined(&mut md, &cells, " | ");
    proof {
        assert(texts(cells@) =~= crate::block::table_row_view(*row).map_values(
            |cell: CellNodeView| paragraph_markdown(cell.children),
        ));
    }
    md
}

/// A table's Markdown (see [`table_markdown`]).
fn table_to_markdown(t: &crate::block::Table) -> (md: String)
    requires
        node_writable(NodeView::Table(crate::block::table_node_view(*t))),
    ensures
        md@ == table_markdown(crate::block::table_node_view(*t)),
{
    let ghost tv = crate::block::table_node_view(*t);
    proof {
        reveal_strlit(" | ");
        reveal_strlit("\n");
        assert(" | "@ =~= seq![' ', '|', ' ']);
        assert("\n"@ =~= seq!['\n']);
    }
    let mut md = String::new();
    if t.children.len() > 0 {
        proof {
            assert forall|c: int| 0 <= c < t.children@[0].children@.len() implies paragraph_writable(
                #[trigger] paragraph_view(t.children@[0].children@[c].children),
            ) by {
                assert(tv.rows[0][c].children == paragraph_view(t.children@[0].children@[c].children));
            }
        }
        let header = row_to_markdown(&t.children[0]);
        md.append(header.as_str());
    }
    md.push('\n');
    let mut aligns: Vec<String> = Vec::new();
    let mut a: usize = 0;
    while a < t.column_aligns.len()
        invariant
            a <= t.column_aligns@.len(),
            aligns@.len() == a,
            forall|j: int| 0 <= j < a ==> (#[trigger] aligns@[j])@ == align_markdown(t.column_aligns@[j]),
        decreases t.column_aligns@.len() - a,
    {
        let text = match t.column_aligns[a] {
            ColumnumnAlign::Left => {
                proof {
                    reveal_strlit(":--");
                }
                String::from_str(":--")
            },
            ColumnumnAlign::Center => {
                proof {
                    reveal_strlit(":-:");
                }
                String::from_str(":-:")
            },
            ColumnumnAlign::Right => {
                proof {
                    reveal_strlit("--:");
                }
                String::from_str("--:")
            },
        };
        proof {
            assert(text@ =~= align_markdown(t.column_aligns@[a as int]));
        }
        aligns.push(text);
        a += 1;
    }
    push_joined(&mut md, &aligns, " | ");
    md.push('\n');
    let mut rows: Vec<String> = Vec::new();
    let mut r: usize = 1;
    while r < t.children.len()
        invariant
            1 <= r <= t.children@.len() || (r == 1 && t.children@.len() == 0),
            tv == crate::block::table_node_view(*t),
            node_writable(NodeView::Table(tv)),
            rows@.len() == r - 1,
            forall|j: int| 0 <= j < r - 1 ==> (#[trigger] rows@[j])@ == row_markdown(tv.rows[j + 1]),
        decreases t.children@.len() - r,
    {
        proof {
            assert forall|c: int| 0 <= c < t.children@[r as int].children@.len() implies paragraph_writable(
                #[trigger] paragraph_view(t.children@[r as int].children@[c].children),
            ) by {
                assert(tv.rows[r as int][c].children == paragraph_view(t.children@[r as int].children@[c].children));
            }
        }
        rows.push(row_to_markdown(&t.children[r]));
        r += 1;
    }
    proof {
        assert(texts(aligns@) =~= tv.column_aligns.map_values(|x: ColumnumnAlign| align_markdown(x)));
        if t.children@.len() > 1 {
            assert(texts(rows@) =~= tv.rows.skip(1).map_values(|x: Seq<CellNodeView>| row_markdown(x)));
        } else {
            assert(texts(rows@) =~= Seq::<Seq<char>>::empty());
        }
    }
    push_joined(&mut md, &rows, "\n");
    proof {
        assert(md@ =~= table_markdown(tv));
    }
    md
}

/// The Markdown of each node (see [`nodes_markdown`]).
fn nodes_to_markdown(nodes: &Vec<BlockNode>) -> (parts: Vec<String>)
    requires
        nodes_writable(nodes_view(*nodes)),
    ensures
        texts(parts@) == nodes_markdown(nodes_view(*nodes)),
    decreases *nodes, 0int,
{
    let ghost views = nodes_view(*nodes);
    let mut parts: Vec<String> = Vec::new();
    let mut i: usize = 0;
    while i < nodes.len()
        invariant
            i <= nodes@.len(),
            views == nodes_view(*nodes),
            nodes_writable(views),
            parts@.len() == i,
            forall|j: int| 0 <= j < i ==> (#[trigger] parts@[j])@ == node_markdown(views[j]),
        decreases nodes@.len() - i,
    {
        proof {
            crate::block::lemma_nodes_view_index(*nodes, i as int);
            lemma_nodes_writable_index(views, i as int);
            assert(decreases_to!(*nodes => nodes@));
            assert(decreases_to!(nodes@ => nodes@[i as int]));
        }
        parts.push(nodes[i].to_markdown());
        i += 1;
    }
    proof {
        assert(views.len() == nodes@.len()) by {
            if nodes@.len() > 0 {
                crate::block::lemma_nodes_view_index(*nodes, 0);
            }
        }
        assert(texts(parts@) =~= nodes_markdown(views));
    }
    parts
}

impl BlockNode {
    /// The node written back as Markdown (see [`node_markdown`]).
    pub fn to_markdown(&self) -> (md: String)
        requires
            node_writable(node_view(*self)),
        ensures
            md@ == node_markdown(node_view(*self)),
        decreases *self, 1int,
    {
        proof {
            reveal_strlit("\n\n");
            reveal_strlit("\n");
            assert("\n\n"@ =~= seq!['\n', '\n']);
            assert("\n"@ =~= seq!['\n']);
        }
        match self {
            BlockNode::Root { children, .. } => {
                proof {
                    assert(decreases_to!(*self => *children));
                }
                let parts = nodes_to_markdown(children);
                let mut md = String::new();
                push_joined(&mut md, &parts, "\n\n");
                md
            },
            BlockNode::Paragraph(p) => p.to_markdown(),
            BlockNode::Heading { level, children, .. } => {
                let mut md = String::new();
                let mut k: u8 = 0;
                while k < *level
                    invariant
                        k <= *level,
                        md@ == Seq::new(k as nat, |i: int| '#'),
                    decreases *level - k,
                {
                    md.push('#');
                    proof {
                        assert(md@ =~= Seq::new((k + 1) as nat, |i: int| '#'));
                    }
                    k += 1;
                }
                md.push(' ');
                let body = children.to_markdown();
                md.append(body.as_str());
                md
            },
            BlockNode::Blockquote { children, .. } => {
                proof {
                    assert(decreases_to!(*self => *children));
                }
                let parts = nodes_to_markdown(children);
                let mut content = String::new();
                push_joined(&mut content, &parts, "\n\n");
                let lines = lines_of(content.as_str());
                let mut quoted: Vec<String> = Vec::new();
                let mut i: usize = 0;
                while i < lines.len()
                    invariant
                        i <= lines@.len(),
                        quoted@.len() == i,
                        forall|j: int| 0 <= j < i ==> (#[trigger] quoted@[j])@ == seq!['>', ' '] + lines@[j]@,
                    decreases lines@.len() - i,
                {
                    let mut line = String::new();
                    line.push('>');
                    line.push(' ');
                    line.append(lines[i].as_str());
                    quoted.push(line);
                    i += 1;
                }
                proof {
                    assert(texts(quoted@) =~= texts(lines@).map_values(|l: Seq<char>| seq!['>', ' '] + l));
                }
                let mut md = String::new();
                push_joined(&mut md, &quoted, "\n");
                md
            },
            BlockNode::List { children, ordered, .. } => {
                proof {
                    assert(decreases_to!(*self => *children));
                }
                let items = nodes_to_markdown(children);
                let mut marked: Vec<String> = Vec::new();
                let mut i: usize = 0;
                while i < items.len()
                    invariant
                        i <= items@.len(),
                        marked@.len() == i,
                        forall|j: int| 0 <= j < i ==> (#[trigger] marked@[j])@ == list_marker(*ordered, j) + items@[j]@,
                    decreases items@.len() - i,
                {
                    let mut line = String::new();
                    if *ordered {
                        push_decimal(&mut line, (i + 1) as u64);
                        line.push('.');
                        line.push(' ');
                    } else {
                        line.push('-');
                        line.push(' ');
                    }
                    line.append(items[i].as_str());
                    proof {
                        assert(line@ =~= list_marker(*ordered, i as int) + items@[i as int]@);
                    }
                    marked.push(line);
                    i += 1;
                }
                proof {
                    let views = nodes_markdown(nodes_view(*children));
                    assert(texts(marked@) =~= Seq::new(views.len(), |j: int| list_marker(*ordered, j) + views[j]));
                }
                let mut md = String::new();
                push_joined(&mut md, &marked, "\n");
                md
            },
            BlockNode::ListItem { children, checked, .. } => {
                proof {
                    assert(decreases_to!(*self => *children));
                }
                let parts = nodes_to_markdown(children);
                let mut md = String::new();
                match checked {
                    Some(true) => {
                        md.push('[');
                        md.push('x');
                        md.push(']');
                        md.push(' ');
                    },
                    Some(false) => {
                        md.push('[');
                        md.push(' ');
                        md.push(']');
                        md.push(' ');
                    },
                    None => {},
                }
                proof {
                    assert(md@ =~= checkbox_markdown(*checked));
                }
                push_joined(&mut md, &parts, "\n");
                md
            },
            BlockNode::CodeBlock(code) => {
                let mut md = String::new();
                md.push('`');
                md.push('`');
                md.push('`');
                match &code.lang {
                    Some(lang) => md.append(lang.as_str()),
                    None => {},
                }
                md.push('\n');
                md.append(code.code.as_str());
                md.push('\n');
                md.push('`');
                md.push('`');
                md.push('`');
                proof {
                    assert(md@ =~= node_markdown(node_view(*self)));
                }
                md
            },
            BlockNode::Table(t) => table_to_markdown(t),
            BlockNode::Break { html, .. } => {
                let mut md = String::new();
                if *html {
                    md.push('<');
                    md.push('b');
                    md.push('r');
                    md.push('>');
                } else {
                    md.push('\n');
                }
                proof {
                    assert(md@ =~= node_markdown(node_view(*self)));
                }
                md
            },
            BlockNode::HorizontalRule { .. } => {
                let mut md = String::new();
                md.push('-');
                md.push('-');
                md.push('-');
                proof {
                    assert(md@ =~= node_markdown(node_view(*self)));
                }
                md
            },
            BlockNode::Definition { identifier, url, title, .. } => {
                let mut md = String::new();
                md.push('[');
                md.append(identifier.as_str());
                md.push(']');
                md.push(':');
                md.push(' ');
                md.append(url.as_str());
                push_title(&mut md, title);
                proof {
                    assert(md@ =~= node_markdown(node_view(*self)));
                }
                md
            },
            BlockNode::Unknown => String::new(),
        }
    }
}

impl ParsedDocument {
    /// The document written back as Markdown: its blocks' Markdown joined
    /// with blank lines.
    pub fn to_markdown(&self) -> (md: String)
        requires
            nodes_writable(nodes_view(self.blocks)),
        ensures
            md@ == join(nodes_markdown(nodes_view(self.blocks)), seq!['\n', '\n']),
    {
        proof {
            reveal_strlit("\n\n");
            assert("\n\n"@ =~= seq!['\n', '\n']);
        }
        let parts = nodes_to_markdown(&self.blocks);
        let mut md = String::new();
        push_joined(&mut md, &parts, "\n\n");
        md
    }
}

/// Whether a line opens or closes a fence: `` ``` `` or `~~~` after leading
/// whitespace.
pub open spec fn fence_line(line: Seq<char>) -> bool {
    let t = trim_start(line);
    t.len() >= 3 && ((t[0] == '`' && t[1] == '`' && t[2] == '`') || (t[0] == '~' && t[1] == '~' && t[2] == '~'))
}

/// Whether the source of a code block over `span` ends with a closing
/// fence: its last line is a fence line.
pub open spec fn closed_fence(source: Seq<char>, span: Option<crate::node::Span>) -> bool {
    match span {
        None => false,
        Some(sp) => {
            let bytes = encode_utf8(source);
            if sp.start <= sp.end <= bytes.len() && is_char_boundary(bytes, sp.start as int) && is_char_boundary(
                bytes,
                sp.end as int,
            ) {
                let lines = md_lines(chars_between(source, sp.start as int, sp.end as int));
                lines.len() > 0 && fence_line(lines.last())
            } else {
                false
            }
        },
    }
}

impl crate::block::CodeBlock {
    /// Whether the block's source in `source` ends with its closing fence
    /// (see [`closed_fence`]).
    pub fn is_closed_fenced_block(&self, source: &str) -> (closed: bool)
        ensures
            closed == closed_fence(source@, self.span),
    {
        let span = match self.span {
            Some(span) => span,
            None => return false,
        };
        let len = str_byte_len(source);
        if span.start > span.end || span.end > len || !source.is_char_boundary(span.start) || !source.is_char_boundary(
            span.end,
        ) {
            return false;
        }
        let text = substring(source, span.start, span.end);
        let lines = lines_of(text.as_str());
        let n = lines.len();
        if n == 0 {
            return false;
        }
        let chars = chars_of(lines[n - 1].as_str());
        let m = chars.len();
        let st = trimmed_start(&chars, 0, m);
        proof {
            assert(chars@.subrange(0, m as int) =~= chars@);
            assert(texts(lines@).last() == lines@[n - 1]@);
        }
        if m - st < 3 {
            return false;
        }
        (chars[st] == '`' && chars[st + 1] == '`' && chars[st + 2] == '`') || (chars[st] == '~' && chars[st + 1]
            == '~' && chars[st + 2] == '~')
    }
}

} // verus!
