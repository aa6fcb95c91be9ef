use std::ops::Range;
use vstd::prelude::*;
use vstd::string::StringSliceAdditionalSpecFns;
use vstd::utf8::{encode_utf8, is_char_boundary};

use crate::document::{text_block_view, TextBlockView};
use crate::node::{merged, plain_mark, InlineNode, TextMark};
use crate::block::{BlockNode, ColumnumnAlign, Paragraph, Table, TableCell, TableRow};
use crate::document::{
    block_view, cell_view, row_view, BlockView, CellView, ParsedBlock, ParsedHtmlTable,
    ParsedHtmlTableCell, ParsedHtmlTableRow, ParsedTableKind, TableView, decimal, push_decimal,
};
use crate::renderer::CellAlign;
use crate::parse::{
    builder_finish, builder_push, builder_push_image, new_builder, with_flags, BuilderView,
};
use crate::parser::{builder_view, opt_text, TextBlockBuilder};

use crate::renderer::{
    allocation_end, html_inline_flags, HtmlSourceAllocator, InlineFlags, ParsedLink,
    ParsedTextBlock, TextBlockKind,
};
use crate::unicode::{chars_between, substring, utf8_len_of};
use crate::links::link_view;

verus! {

broadcast use vstd::string::group_string_axioms;

/// The inline flags that an HTML text mark stands for.
pub open spec fn flags_of_mark(mark: TextMark) -> InlineFlags {
    InlineFlags {
        strong: mark.bold,
        emphasis: mark.italic,
        strike: mark.strikethrough,
        underline: mark.underline,
        code: mark.code,
        link: mark.link is Some,
        soft_break: false,
    }
}

/// `x`, but at most `len`.
pub open spec fn at_most(x: int, len: int) -> int {
    if x <= len {
        x
    } else {
        len
    }
}

/// Whether byte `i` of a text of `len` bytes starts or ends a styled run:
/// the ends of the text and the (clamped) ends of every mark.
pub open spec fn is_run_boundary(len: int, marks: Seq<(Range<usize>, TextMark)>, i: int) -> bool {
    ||| i == 0
    ||| i == len
    ||| exists|k: int|
        0 <= k < marks.len() && (at_most(marks[k].0.start as int, len) == i || at_most(
            marks[k].0.end as int,
            len,
        ) == i)
}

/// The run boundaries of a text of `len` bytes, ascending, each once.
pub open spec fn run_boundaries(len: int, marks: Seq<(Range<usize>, TextMark)>) -> Seq<int> {
    Seq::new((len + 1) as nat, |i: int| i).filter(|i: int| is_run_boundary(len, marks, i))
}

/// The marks among the first `k` that overlap bytes `start..end`, layered
/// in order.
pub open spec fn overlapping_mark(marks: Seq<(Range<usize>, TextMark)>, start: int, end: int, k: int) -> TextMark
    decreases k,
{
    if k <= 0 || k > marks.len() {
        plain_mark()
    } else {
        let acc = overlapping_mark(marks, start, end, k - 1);
        let m = marks[k - 1];
        if m.0.start < end && m.0.end > start {
            merged(acc, m.1)
        } else {
            acc
        }
    }
}

/// The run `start..end` of `text`, whose bytes were allocated from
/// `alloc_start` on (`alloc_len` of them), added to the builder: a segment
/// with the flags of the marks over it, and a link when they carry one.
/// Runs that do not fall on character boundaries are skipped.
pub open spec fn emit_run(
    b: BuilderView,
    text: Seq<char>,
    marks: Seq<(Range<usize>, TextMark)>,
    alloc_start: int,
    alloc_len: int,
    start: int,
    end: int,
) -> BuilderView {
    let bytes = encode_utf8(text);
    if start >= end || !is_char_boundary(bytes, start) || !is_char_boundary(bytes, end) {
        b
    } else {
        let mark = overlapping_mark(marks, start, end, marks.len() as int);
        let source = ((alloc_start + at_most(start, alloc_len)) as usize)..((alloc_start + at_most(
            end,
            alloc_len,
        )) as usize);
        let pushed = builder_push(with_flags(b, flags_of_mark(mark)), chars_between(text, start, end), source);
        match mark.link {
            Some(link) => BuilderView { links: pushed.links.push((source, link.url@)), ..pushed },
            None => pushed,
        }
    }
}

/// The runs between consecutive boundaries of `bounds`, from the `j`-th on.
pub open spec fn emit_runs(
    b: BuilderView,
    text: Seq<char>,
    marks: Seq<(Range<usize>, TextMark)>,
    alloc_start: int,
    alloc_len: int,
    bounds: Seq<int>,
    j: int,
) -> BuilderView
    decreases bounds.len() - j,
{
    if j < 0 || j + 1 >= bounds.len() {
        b
    } else {
        emit_runs(
            emit_run(b, text, marks, alloc_start, alloc_len, bounds[j], bounds[j + 1]),
            text,
            marks,
            alloc_start,
            alloc_len,
            bounds,
            j + 1,
        )
    }
}

pub open spec fn text_or_empty(s: Option<String>) -> Seq<char> {
    match s {
        Some(s) => s@,
        None => Seq::empty(),
    }
}

/// One inline node converted at canonical offset `next` of `bytes` (no
/// allocation goes past `limit`): the builder and the next offset after it.
pub open spec fn convert_inline(
    b: BuilderView,
    next: int,
    node: InlineNode,
    bytes: Seq<u8>,
    limit: int,
) -> (BuilderView, int) {
    match node.image {
        Some(image) => {
            let end = allocation_end(bytes, next, 1, limit);
            (
                builder_push_image(
                    b,
                    (next as usize)..(end as usize),
                    image.url@,
                    text_or_empty(image.title),
                    text_or_empty(image.alt),
                ),
                end,
            )
        },
        None => if node.text@.len() == 0 {
            (b, next)
        } else {
            let len = utf8_len_of(node.text@) as int;
            let end = allocation_end(bytes, next, len, limit);
            let alloc_len = if end >= next {
                end - next
            } else {
                0
            };
            (emit_runs(b, node.text@, node.marks@, next, alloc_len, run_boundaries(len, node.marks@), 0), end)
        },
    }
}

/// The inline nodes from the `k`-th on, converted in order.
pub open spec fn convert_inlines(
    b: BuilderView,
    next: int,
    nodes: Seq<InlineNode>,
    k: int,
    bytes: Seq<u8>,
    limit: int,
) -> (BuilderView, int)
    decreases nodes.len() - k,
{
    if k < 0 || k >= nodes.len() {
        (b, next)
    } else {
        let (b2, next2) = convert_inline(b, next, nodes[k], bytes, limit);
        convert_inlines(b2, next2, nodes, k + 1, bytes, limit)
    }
}


/// Where an allocator's allocations stop: the end of its block, or of its
/// source if that comes first.
pub open spec fn allocation_limit<'a>(a: HtmlSourceAllocator<'a>) -> int {
    if a.block().end <= a.source_text().len() {
        a.block().end as int
    } else {
        a.source_text().len() as int
    }
}

/// The block a paragraph converts to, with the allocator's offset after
/// it: a builder of `kind` from the current offset, opened with `prefix`
/// when given, takes the paragraph's nodes in order; it makes a block only
/// if it holds a segment.
pub open spec fn convert_paragraph(
    nodes: Seq<InlineNode>,
    kind: TextBlockKind,
    prefix: Option<Seq<char>>,
    bytes: Seq<u8>,
    limit: int,
    start: int,
) -> (Option<TextBlockView>, int) {
    let opened = match prefix {
        Some(p) => builder_push(new_builder(kind, start as usize), p, (start as usize)..(start as usize)),
        None => new_builder(kind, start as usize),
    };
    let (b, next) = convert_inlines(opened, start, nodes, 0, bytes, limit);
    (
        if b.segments.len() > 0 {
            Some(builder_finish(b, next as usize))
        } else {
            None
        },
        next,
    )
}

/// Whether byte `i` is a run boundary (see [`is_run_boundary`]).
fn is_run_boundary_at(len: usize, marks: &Vec<(Range<usize>, TextMark)>, i: usize) -> (found: bool)
    ensures
        found == is_run_boundary(len as int, marks@, i as int),
{
    let mut found = i == 0 || i == len;
    let mut k: usize = 0;
    while k < marks.len()
        invariant
            k <= marks@.len(),
            found == (i == 0 || i == len || exists|m: int|
                0 <= m < k && (at_most(marks@[m].0.start as int, len as int) == i || at_most(
                    marks@[m].0.end as int,
                    len as int,
                ) == i)),
        decreases marks.len() - k,
    {
        let start = if marks[k].0.start <= len {
            marks[k].0.start
        } else {
            len
        };
        let end = if marks[k].0.end <= len {
            marks[k].0.end
        } else {
            len
        };
        if start == i || end == i {
            found = true;
        }
        k += 1;
    }
    found
}

proof fn lemma_filter_ids_step(n: int, p: spec_fn(int) -> bool)
    requires
        0 <= n,
    ensures
        Seq::new((n + 1) as nat, |q: int| q).filter(p) == if p(n) {
            Seq::new(n as nat, |q: int| q).filter(p).push(n)
        } else {
            Seq::new(n as nat, |q: int| q).filter(p)
        },
{
    reveal(Seq::filter);
    let ids = Seq::new((n + 1) as nat, |q: int| q);
    assert(ids.drop_last() =~= Seq::new(n as nat, |q: int| q));
    assert(ids.last() == n);
}

/// The run boundaries of a text of `len` bytes (see [`run_boundaries`]).
fn run_boundaries_of(len: usize, marks: &Vec<(Range<usize>, TextMark)>) -> (bounds: Vec<usize>)
    ensures
        bounds@.map_values(|x: usize| x as int) == run_boundaries(len as int, marks@),
        forall|j: int| 0 <= j < bounds@.len() ==> bounds@[j] <= len,
{
    let ghost p = |q: int| is_run_boundary(len as int, marks@, q);
    let mut bounds: Vec<usize> = Vec::new();
    let mut i: usize = 0;
    while i < len
        invariant
            i <= len,
            p == (|q: int| is_run_boundary(len as int, marks@, q)),
            bounds@.map_values(|x: usize| x as int) == Seq::new(i as nat, |q: int| q).filter(p),
            forall|j: int| 0 <= j < bounds@.len() ==> bounds@[j] < i,
        decreases len - i,
    {
        let ghost before = bounds@;
        if is_run_boundary_at(len, marks, i) {
            bounds.push(i);
            proof {
                assert(bounds@.map_values(|x: usize| x as int) =~= before.map_values(|x: usize| x as int).push(i as int));
            }
        }
        proof {
            lemma_filter_ids_step(i as int, p);
        }
        i += 1;
    }
    let ghost before = bounds@;
    bounds.push(len);
    proof {
        lemma_filter_ids_step(len as int, p);
        assert(p(len as int));
        assert(bounds@.map_values(|x: usize| x as int) =~= before.map_values(|x: usize| x as int).push(len as int));
    }
    bounds
}

/// The marks that overlap bytes `start..end`, layered in order.
fn overlapping_mark_of(marks: &Vec<(Range<usize>, TextMark)>, start: usize, end: usize) -> (mark: TextMark)
    ensures
        mark == overlapping_mark(marks@, start as int, end as int, marks@.len() as int),
{
    let mut mark = TextMark::default();
    let mut k: usize = 0;
    while k < marks.len()
        invariant
            k <= marks@.len(),
            mark == overlapping_mark(marks@, start as int, end as int, k as int),
        decreases marks.len() - k,
    {
        if marks[k].0.start < end && marks[k].0.end > start {
            mark.merge(marks[k].1.clone());
        }
        k += 1;
    }
    mark
}


/// Adds the run `start..end` of `text` (see [`emit_run`]).
fn push_run(
    builder: &mut TextBlockBuilder,
    text: &str,
    marks: &Vec<(Range<usize>, TextMark)>,
    allocated: &Range<usize>,
    alloc_len: usize,
    start: usize,
    end: usize,
)
    requires
        start <= encode_utf8(text@).len(),
        end <= encode_utf8(text@).len(),
        alloc_len == if allocated.end >= allocated.start {
            allocated.end - allocated.start
        } else {
            0
        },
    ensures
        builder_view(*final(builder)) == emit_run(
            builder_view(*old(builder)),
            text@,
            marks@,
            allocated.start as int,
            alloc_len as int,
            start as int,
            end as int,
        ),
{
    if start >= end || !text.is_char_boundary(start) || !text.is_char_boundary(end) {
        return;
    }
    let mark = overlapping_mark_of(marks, start, end);
    builder.flags = html_inline_flags(&mark);
    let source_start = allocated.start + if start <= alloc_len {
        start
    } else {
        alloc_len
    };
    let source_end = allocated.start + if end <= alloc_len {
        end
    } else {
        alloc_len
    };
    let piece = substring(text, start, end);
    let ghost flagged = builder_view(*builder);
    builder.push(piece, source_start..source_end);
    match mark.link {
        Some(link) => {
            let ghost links = builder.links@;
            let parsed = ParsedLink { source: source_start..source_end, destination: link.url };
            builder.links.push(parsed);
            proof {
                assert(builder.links@.map_values(|l: ParsedLink| link_view(l)) =~= links.map_values(
                    |l: ParsedLink| link_view(l),
                ).push(link_view(parsed)));
            }
        },
        None => {},
    }
    proof {
        assert(builder_view(*final(builder)) =~= emit_run(
            builder_view(*old(builder)),
            text@,
            marks@,
            allocated.start as int,
            alloc_len as int,
            start as int,
            end as int,
        ));
    }
}

/// Converts one temporary HTML paragraph into the renderer's text model,
/// taking canonical source ranges for its text and images from `allocator`.
pub fn convert_html_paragraph<'a>(
    paragraph: &Paragraph,
    kind: TextBlockKind,
    prefix: Option<String>,
    allocator: &mut HtmlSourceAllocator<'a>,
) -> (block: Option<ParsedTextBlock>)
    ensures
        final(allocator).source_text() == old(allocator).source_text(),
        final(allocator).block() == old(allocator).block(),
        final(allocator).next_offset() == convert_paragraph(
            paragraph.children@,
            kind,
            match prefix {
                Some(p) => Some(p@),
                None => None,
            },
            old(allocator).source_text().spec_bytes(),
            allocation_limit(*old(allocator)),
            old(allocator).next_offset() as int,
        ).1,
        match block {
            Some(b) => convert_paragraph(
                paragraph.children@,
                kind,
                match prefix {
                    Some(p) => Some(p@),
                    None => None,
                },
                old(allocator).source_text().spec_bytes(),
                allocation_limit(*old(allocator)),
                old(allocator).next_offset() as int,
            ).0 == Some(text_block_view(b)),
            None => convert_paragraph(
                paragraph.children@,
                kind,
                match prefix {
                    Some(p) => Some(p@),
                    None => None,
                },
                old(allocator).source_text().spec_bytes(),
                allocation_limit(*old(allocator)),
                old(allocator).next_offset() as int,
            ).0 is None,
        },
{
    let ghost bytes = allocator.source_text().spec_bytes();
    let ghost limit = allocation_limit(*allocator);
    let ghost nodes = paragraph.children@;
    let source_start = allocator.next();
    let mut builder = TextBlockBuilder::new(kind, source_start);
    match prefix {
        Some(p) => builder.push(p, source_start..source_start),
        None => {},
    }
    let ghost opened = builder_view(builder);
    let mut k: usize = 0;
    while k < paragraph.children.len()
        invariant
            k <= nodes.len(),
            nodes == paragraph.children@,
            bytes == allocator.source_text().spec_bytes(),
            allocator.source_text() == old(allocator).source_text(),
            allocator.block() == old(allocator).block(),
            limit == allocation_limit(*allocator),
            convert_inlines(opened, source_start as int, nodes, 0, bytes, limit) == convert_inlines(
                builder_view(builder),
                allocator.next_offset() as int,
                nodes,
                k as int,
                bytes,
                limit,
            ),
        decreases nodes.len() - k,
    {
        let inline = &paragraph.children[k];
        match &inline.image {
            Some(image) => {
                let image_source = allocator.allocate(1);
                let title = match &image.title {
                    Some(t) => t.clone(),
                    None => String::new(),
                };
                let alt = match &image.alt {
                    Some(a) => a.clone(),
                    None => String::new(),
                };
                builder.push_image(image_source, image.url.clone(), title, alt);
            },
            None => {
                let text = inline.text.as_str();
                if !text.is_empty() {
                    let text_len = inline.text.len();
                    let ghost at = allocator.next_offset() as int;
                    let allocated = allocator.allocate(text_len);
                    let alloc_len = if allocated.end >= allocated.start {
                        allocated.end - allocated.start
                    } else {
                        0
                    };
                    let bounds = run_boundaries_of(text_len, &inline.marks);
                    let ghost all_bounds = run_boundaries(text_len as int, inline.marks@);
                    let ghost b0 = builder_view(builder);
                    let mut j: usize = 0;
                    while j < bounds.len() && j + 1 < bounds.len()
                        invariant
                            bounds@.map_values(|x: usize| x as int) == all_bounds,
                            forall|q: int| 0 <= q < bounds@.len() ==> bounds@[q] <= text_len,
                            text_len == encode_utf8(text@).len(),
                            text@ == inline.text@,
                            alloc_len == if allocated.end >= allocated.start {
                                allocated.end - allocated.start
                            } else {
                                0
                            },
                            j <= bounds@.len(),
                            emit_runs(b0, text@, inline.marks@, allocated.start as int, alloc_len as int, all_bounds, 0)
                                == emit_runs(
                                builder_view(builder),
                                text@,
                                inline.marks@,
                                allocated.start as int,
                                alloc_len as int,
                                all_bounds,
                                j as int,
                            ),
                        decreases bounds@.len() - j,
                    {
                        push_run(&mut builder, text, &inline.marks, &allocated, alloc_len, bounds[j], bounds[j + 1]);
                        j += 1;
                    }
                }
            },
        }
        k += 1;
    }
    if builder.segments.len() > 0 {
        let next = allocator.next();
        Some(builder.finish(next))
    } else {
        None
    }
}


/// The blocks a paragraph converts to: its block, if it makes one.
pub open spec fn paragraph_blocks(
    p: Paragraph,
    kind: TextBlockKind,
    prefix: Option<Seq<char>>,
    bytes: Seq<u8>,
    limit: int,
    next: int,
) -> (Seq<BlockView>, int) {
    let (b, n) = convert_paragraph(p.children@, kind, prefix, bytes, limit, next);
    (
        match b {
            Some(t) => seq![BlockView::Text(t)],
            None => Seq::empty(),
        },
        n,
    )
}

/// The heading level that a node's level stands for: 1 to 5 as they are,
/// anything else a level-6 heading.
pub open spec fn heading_level_of(level: u8) -> u8 {
    if 1 <= level <= 5 {
        level
    } else {
        6
    }
}

pub open spec fn cell_align(a: ColumnumnAlign) -> CellAlign {
    match a {
        ColumnumnAlign::Left => CellAlign::Left,
        ColumnumnAlign::Center => CellAlign::Center,
        ColumnumnAlign::Right => CellAlign::Right,
    }
}

pub open spec fn item_depth(depth: usize) -> usize {
    if depth >= 1 {
        depth
    } else {
        1
    }
}

pub open spec fn deeper(depth: usize) -> usize {
    if depth < usize::MAX {
        (depth + 1) as usize
    } else {
        depth
    }
}

/// The cells of a row from the `k`-th on: each converted cell that makes a
/// block.
pub open spec fn convert_cells(cells: Seq<TableCell>, k: int, bytes: Seq<u8>, limit: int, next: int) -> (Seq<CellView>, int)
    decreases cells.len() - k,
{
    if k < 0 || k >= cells.len() {
        (Seq::empty(), next)
    } else {
        let cell = cells[k];
        let alignment = cell_align(cell.alignment);
        let (b, n1) = convert_paragraph(
            cell.children.children@,
            TextBlockKind::HtmlTableCell { header: cell.is_header, alignment },
            None,
            bytes,
            limit,
            next,
        );
        let (rest, n2) = convert_cells(cells, k + 1, bytes, limit, n1);
        (
            match b {
                Some(content) => seq![
                    CellView {
                        content,
                        col_span: cell.col_span,
                        row_span: cell.row_span,
                        is_header: cell.is_header,
                        alignment,
                    },
                ] + rest,
                None => rest,
            },
            n2,
        )
    }
}

/// The rows of a table from the `i`-th on, each with a converted cell.
pub open spec fn convert_rows(rows: Seq<TableRow>, i: int, bytes: Seq<u8>, limit: int, next: int) -> (Seq<Seq<CellView>>, int)
    decreases rows.len() - i,
{
    if i < 0 || i >= rows.len() {
        (Seq::empty(), next)
    } else {
        let (cells, n1) = convert_cells(rows[i].children@, 0, bytes, limit, next);
        let (rest, n2) = convert_rows(rows, i + 1, bytes, limit, n1);
        (
            if cells.len() > 0 {
                seq![cells] + rest
            } else {
                rest
            },
            n2,
        )
    }
}

/// The table block an HTML table converts to, if any row keeps a cell.
pub open spec fn table_blocks(t: Table, bytes: Seq<u8>, limit: int, next: int) -> (Seq<BlockView>, int) {
    let (rows, n) = convert_rows(t.children@, 0, bytes, limit, next);
    (
        if rows.len() > 0 {
            seq![
                BlockView::HtmlTable(
                    TableView { source: (next as usize)..(n as usize), rows, kind: ParsedTableKind::Html },
                ),
            ]
        } else {
            Seq::empty()
        },
        n,
    )
}

/// The prefix of the list item numbered `counter`, or a bullet.
pub open spec fn list_prefix(ordered: bool, counter: u64) -> Seq<char> {
    if ordered {
        decimal(counter as nat) + seq!['.', ' ']
    } else {
        seq!['\u{2022}', ' ']
    }
}

pub open spec fn next_counter(ordered: bool, counter: u64) -> u64 {
    if ordered {
        if counter < u64::MAX {
            (counter + 1) as u64
        } else {
            0
        }
    } else {
        counter
    }
}

/// The blocks a node converts to, in order, and the allocator's offset after them.
pub open spec fn convert_node(
    node: BlockNode,
    inherited: Option<TextBlockKind>,
    depth: usize,
    bytes: Seq<u8>,
    limit: int,
    next: int,
) -> (Seq<BlockView>, int)
    decreases node, 0int,
{
    let kind = match inherited {
        Some(k) => k,
        None => TextBlockKind::Paragraph,
    };
    match node {
        BlockNode::Root { children, .. } => {
            proof {
                assert(decreases_to!(node => children));
                assert(decreases_to!(children => children@));
            }
            convert_nodes(children@, 0, inherited, depth, bytes, limit, next)
        },
        BlockNode::Paragraph(p) => paragraph_blocks(p, kind, None, bytes, limit, next),
        BlockNode::Heading { level, children, .. } => paragraph_blocks(
            children,
            TextBlockKind::Heading(heading_level_of(level)),
            None,
            bytes,
            limit,
            next,
        ),
        BlockNode::Blockquote { children, kind: quote, .. } => {
            proof {
                assert(decreases_to!(node => children));
                assert(decreases_to!(children => children@));
            }
            convert_nodes(children@, 0, Some(TextBlockKind::BlockQuote(quote)), depth, bytes, limit, next)
        },
        BlockNode::List { children, ordered, start, .. } => {
            proof {
                assert(decreases_to!(node => children));
                assert(decreases_to!(children => children@));
            }
            convert_list_items(
                children@,
                0,
                ordered,
                match start {
                    Some(s) => s,
                    None => 1,
                },
                depth,
                bytes,
                limit,
                next,
            )
        },
        BlockNode::ListItem { children, .. } => {
            proof {
                assert(decreases_to!(node => children));
                assert(decreases_to!(children => children@));
            }
            convert_nodes(
                children@,
                0,
                Some(TextBlockKind::ListItem { depth: item_depth(depth) }),
                depth,
                bytes,
                limit,
                next,
            )
        },
        BlockNode::Table(t) => table_blocks(t, bytes, limit, next),
        BlockNode::Break { .. } => {
            let end = allocation_end(bytes, next, 1, limit);
            let b = builder_push(new_builder(kind, next as usize), seq!['\n'], (next as usize)..(end as usize));
            (seq![BlockView::Text(builder_finish(b, end as usize))], end)
        },
        BlockNode::HorizontalRule { .. } => {
            let end = allocation_end(bytes, next, 1, limit);
            (seq![BlockView::Rule((next as usize)..(end as usize))], end)
        },
        _ => (Seq::empty(), next),
    }
}

/// The nodes from the `k`-th on, converted in order.
pub open spec fn convert_nodes(
    nodes: Seq<BlockNode>,
    k: int,
    inherited: Option<TextBlockKind>,
    depth: usize,
    bytes: Seq<u8>,
    limit: int,
    next: int,
) -> (Seq<BlockView>, int)
    decreases nodes, nodes.len() - k,
{
    if k < 0 || k >= nodes.len() {
        (Seq::empty(), next)
    } else {
        let (a, n1) = convert_node(nodes[k], inherited, depth, bytes, limit, next);
        let (b, n2) = convert_nodes(nodes, k + 1, inherited, depth, bytes, limit, n1);
        (a + b, n2)
    }
}

/// The items of a list from the `k`-th on: each item numbered or bulleted,
/// its first paragraph opening with that prefix.
pub open spec fn convert_list_items(
    items: Seq<BlockNode>,
    k: int,
    ordered: bool,
    counter: u64,
    depth: usize,
    bytes: Seq<u8>,
    limit: int,
    next: int,
) -> (Seq<BlockView>, int)
    decreases items, items.len() - k,
{
    if k < 0 || k >= items.len() {
        (Seq::empty(), next)
    } else {
        let prefix = list_prefix(ordered, counter);
        let (a, n1) = match items[k] {
            BlockNode::ListItem { children, .. } => {
                proof {
                    assert(decreases_to!(items => items[k]));
                    assert(decreases_to!(items[k] => children));
                    assert(decreases_to!(children => children@));
                }
                convert_item_children(children@, 0, Some(prefix), depth, bytes, limit, next)
            },
            _ => (Seq::empty(), next),
        };
        let (b, n2) = convert_list_items(items, k + 1, ordered, next_counter(ordered, counter), depth, bytes, limit, n1);
        (a + b, n2)
    }
}

/// The children of a list item from the `j`-th on: nested lists one level
/// deeper, the first paragraph with the item's prefix, the rest as list
/// item content.
pub open spec fn convert_item_children(
    children: Seq<BlockNode>,
    j: int,
    prefix: Option<Seq<char>>,
    depth: usize,
    bytes: Seq<u8>,
    limit: int,
    next: int,
) -> (Seq<BlockView>, int)
    decreases children, children.len() - j,
{
    if j < 0 || j >= children.len() {
        (Seq::empty(), next)
    } else {
        let child = children[j];
        match child {
            BlockNode::List { .. } => {
                let (a, n1) = convert_node(child, None, deeper(depth), bytes, limit, next);
                let (b, n2) = convert_item_children(children, j + 1, prefix, depth, bytes, limit, n1);
                (a + b, n2)
            },
            BlockNode::Paragraph(p) => {
                let (a, n1) = paragraph_blocks(
                    p,
                    TextBlockKind::ListItem { depth: item_depth(depth) },
                    prefix,
                    bytes,
                    limit,
                    next,
                );
                let (b, n2) = convert_item_children(children, j + 1, None, depth, bytes, limit, n1);
                (a + b, n2)
            },
            _ => {
                let (a, n1) = convert_node(
                    child,
                    Some(TextBlockKind::ListItem { depth: item_depth(depth) }),
                    depth,
                    bytes,
                    limit,
                    next,
                );
                let (b, n2) = convert_item_children(children, j + 1, prefix, depth, bytes, limit, n1);
                (a + b, n2)
            },
        }
    }
}


pub open spec fn blocks_view(blocks: Seq<ParsedBlock>) -> Seq<BlockView> {
    blocks.map_values(|b: ParsedBlock| block_view(b))
}

/// The allocator kept its source and block, moved to the offset after the
/// conversion `result`, and the conversion's blocks were appended.
pub open spec fn converted<'a>(
    before: HtmlSourceAllocator<'a>,
    after: HtmlSourceAllocator<'a>,
    blocks_before: Seq<ParsedBlock>,
    blocks_after: Seq<ParsedBlock>,
    result: (Seq<BlockView>, int),
) -> bool {
    &&& after.source_text() == before.source_text()
    &&& after.block() == before.block()
    &&& after.next_offset() == result.1
    &&& blocks_view(blocks_after) == blocks_view(blocks_before) + result.0
}

pub open spec fn alloc_bytes<'a>(a: HtmlSourceAllocator<'a>) -> Seq<u8> {
    a.source_text().spec_bytes()
}

fn push_block(blocks: &mut Vec<ParsedBlock>, block: ParsedBlock)
    ensures
        blocks_view(final(blocks)@) == blocks_view(old(blocks)@) + seq![block_view(block)],
{
    let ghost before = blocks@;
    blocks.push(block);
    proof {
        assert(blocks_view(blocks@) =~= blocks_view(before) + seq![block_view(block)]);
    }
}

/// Converts a paragraph and appends its block, if it makes one.
fn push_paragraph<'a>(
    p: &Paragraph,
    kind: TextBlockKind,
    prefix: Option<String>,
    allocator: &mut HtmlSourceAllocator<'a>,
    blocks: &mut Vec<ParsedBlock>,
)
    ensures
        converted(
            *old(allocator),
            *final(allocator),
            old(blocks)@,
            final(blocks)@,
            paragraph_blocks(
                *p,
                kind,
                opt_text(prefix),
                alloc_bytes(*old(allocator)),
                allocation_limit(*old(allocator)),
                old(allocator).next_offset() as int,
            ),
        ),
{
    let ghost prefix_view = opt_text(prefix);
    match convert_html_paragraph(p, kind, prefix, allocator) {
        Some(block) => push_block(blocks, ParsedBlock::Text(block)),
        None => {},
    }
    proof {
        assert(blocks_view(blocks@) =~= blocks_view(old(blocks)@) + paragraph_blocks(
            *p,
            kind,
            prefix_view,
            alloc_bytes(*old(allocator)),
            allocation_limit(*old(allocator)),
            old(allocator).next_offset() as int,
        ).0);
    }
}

fn align_of(a: ColumnumnAlign) -> (aligned: CellAlign)
    ensures
        aligned == cell_align(a),
{
    match a {
        ColumnumnAlign::Left => CellAlign::Left,
        ColumnumnAlign::Center => CellAlign::Center,
        ColumnumnAlign::Right => CellAlign::Right,
    }
}

/// Converts an HTML table and appends its block, if any row keeps a cell.
fn push_table<'a>(t: &Table, allocator: &mut HtmlSourceAllocator<'a>, blocks: &mut Vec<ParsedBlock>)
    ensures
        converted(
            *old(allocator),
            *final(allocator),
            old(blocks)@,
            final(blocks)@,
            table_blocks(
                *t,
                alloc_bytes(*old(allocator)),
                allocation_limit(*old(allocator)),
                old(allocator).next_offset() as int,
            ),
        ),
{
    let ghost bytes = alloc_bytes(*allocator);
    let ghost limit = allocation_limit(*allocator);
    let source_start = allocator.next();
    let mut rows: Vec<ParsedHtmlTableRow> = Vec::new();
    let mut i: usize = 0;
    while i < t.children.len()
        invariant
            i <= t.children@.len(),
            bytes == alloc_bytes(*allocator),
            limit == allocation_limit(*allocator),
            allocator.source_text() == old(allocator).source_text(),
            allocator.block() == old(allocator).block(),
            source_start == old(allocator).next_offset(),
            convert_rows(t.children@, 0, bytes, limit, source_start as int) == (
                rows@.map_values(|r: ParsedHtmlTableRow| row_view(r)) + convert_rows(
                    t.children@,
                    i as int,
                    bytes,
                    limit,
                    allocator.next_offset() as int,
                ).0,
                convert_rows(t.children@, i as int, bytes, limit, allocator.next_offset() as int).1,
            ),
        decreases t.children@.len() - i,
    {
        let row = &t.children[i];
        let ghost row_start = allocator.next_offset() as int;
        let mut cells: Vec<ParsedHtmlTableCell> = Vec::new();
        let mut k: usize = 0;
        while k < row.children.len()
            invariant
                k <= row.children@.len(),
                bytes == alloc_bytes(*allocator),
                limit == allocation_limit(*allocator),
                allocator.source_text() == old(allocator).source_text(),
                allocator.block() == old(allocator).block(),
                convert_cells(row.children@, 0, bytes, limit, row_start) == (
                    cells@.map_values(|c: ParsedHtmlTableCell| cell_view(c)) + convert_cells(
                        row.children@,
                        k as int,
                        bytes,
                        limit,
                        allocator.next_offset() as int,
                    ).0,
                    convert_cells(row.children@, k as int, bytes, limit, allocator.next_offset() as int).1,
                ),
            decreases row.children@.len() - k,
        {
            let cell = &row.children[k];
            let alignment = align_of(cell.alignment);
            let ghost cells_before = cells@;
            let converted_cell = convert_html_paragraph(
                &cell.children,
                TextBlockKind::HtmlTableCell { header: cell.is_header, alignment },
                None,
                allocator,
            );
            match converted_cell {
                Some(content) => {
                    let parsed = ParsedHtmlTableCell {
                        content,
                        col_span: cell.col_span,
                        row_span: cell.row_span,
                        is_header: cell.is_header,
                        alignment,
                    };
                    cells.push(parsed);
                    proof {
                        assert(cells@.map_values(|c: ParsedHtmlTableCell| cell_view(c)) =~= cells_before.map_values(
                            |c: ParsedHtmlTableCell| cell_view(c),
                        ).push(cell_view(parsed)));
                    }
                },
                None => {},
            }
            k += 1;
        }
        let ghost rows_before = rows@;
        if cells.len() > 0 {
            let parsed_row = ParsedHtmlTableRow { cells };
            rows.push(parsed_row);
            proof {
                assert(rows@.map_values(|r: ParsedHtmlTableRow| row_view(r)) =~= rows_before.map_values(
                    |r: ParsedHtmlTableRow| row_view(r),
                ).push(row_view(parsed_row)));
            }
        }
        i += 1;
    }
    if rows.len() > 0 {
        let end = allocator.next();
        let table = ParsedHtmlTable { source: source_start..end, rows, kind: ParsedTableKind::Html };
        push_block(blocks, ParsedBlock::HtmlTable(table));
    }
    proof {
        assert(blocks_view(blocks@) =~= blocks_view(old(blocks)@) + table_blocks(
            *t,
            alloc_bytes(*old(allocator)),
            allocation_limit(*old(allocator)),
            old(allocator).next_offset() as int,
        ).0);
    }
}


/// Converts one node of a temporary HTML document into the renderer's
/// blocks, appending them to `blocks` and taking canonical source ranges
/// from `allocator`.
pub fn convert_html_node<'a>(
    node: &BlockNode,
    inherited_kind: Option<TextBlockKind>,
    list_depth: usize,
    allocator: &mut HtmlSourceAllocator<'a>,
    blocks: &mut Vec<ParsedBlock>,
)
    ensures
        converted(
            *old(allocator),
            *final(allocator),
            old(blocks)@,
            final(blocks)@,
            convert_node(
                *node,
                inherited_kind,
                list_depth,
                alloc_bytes(*old(allocator)),
                allocation_limit(*old(allocator)),
                old(allocator).next_offset() as int,
            ),
        ),
    decreases *node, 0int,
{
    let kind = match inherited_kind {
        Some(k) => k,
        None => TextBlockKind::Paragraph,
    };
    match node {
        BlockNode::Root { children, .. } => {
            proof {
                assert(decreases_to!(*node => *children));
                assert(decreases_to!(*children => children@));
            }
            let ghost at = allocator.next_offset() as int;
            let ghost bytes = alloc_bytes(*allocator);
            let ghost limit = allocation_limit(*allocator);
            convert_html_nodes(children, inherited_kind, list_depth, allocator, blocks);
            proof {
                assert(convert_node(*node, inherited_kind, list_depth, bytes, limit, at) == convert_nodes(
                    children@,
                    0,
                    inherited_kind,
                    list_depth,
                    bytes,
                    limit,
                    at,
                ));
            }
        },
        BlockNode::Paragraph(p) => push_paragraph(p, kind, None, allocator, blocks),
        BlockNode::Heading { level, children, .. } => {
            let level = if 1 <= *level && *level <= 5 {
                *level
            } else {
                6
            };
            push_paragraph(children, TextBlockKind::Heading(level), None, allocator, blocks);
        },
        BlockNode::Blockquote { children, kind: quote, .. } => {
            proof {
                assert(decreases_to!(*node => *children));
                assert(decreases_to!(*children => children@));
            }
            convert_html_nodes(children, Some(TextBlockKind::BlockQuote(*quote)), list_depth, allocator, blocks);
        },
        BlockNode::List { children, ordered, start, .. } => {
            proof {
                assert(decreases_to!(*node => *children));
                assert(decreases_to!(*children => children@));
            }
            let counter = match start {
                Some(s) => *s,
                None => 1,
            };
            convert_html_list_items(children, *ordered, counter, list_depth, allocator, blocks);
        },
        BlockNode::ListItem { children, .. } => {
            proof {
                assert(decreases_to!(*node => *children));
                assert(decreases_to!(*children => children@));
            }
            let depth = if list_depth >= 1 {
                list_depth
            } else {
                1
            };
            convert_html_nodes(children, Some(TextBlockKind::ListItem { depth }), list_depth, allocator, blocks);
        },
        BlockNode::Table(t) => push_table(t, allocator, blocks),
        BlockNode::Break { .. } => {
            let source = allocator.allocate(1);
            let mut builder = TextBlockBuilder::new(kind, source.start);
            let mut newline = String::new();
            newline.push('\n');
            proof {
                assert(newline@ =~= seq!['\n']);
            }
            builder.push(newline, source.start..source.end);
            let end = source.end;
            let block = builder.finish(end);
            push_block(blocks, ParsedBlock::Text(block));
        },
        BlockNode::HorizontalRule { .. } => {
            let source = allocator.allocate(1);
            push_block(blocks, ParsedBlock::Rule(source));
        },
        _ => {
            proof {
                assert(blocks_view(blocks@) =~= blocks_view(old(blocks)@) + Seq::<BlockView>::empty());
            }
        },
    }
}

/// Converts `nodes` in order (see [`convert_nodes`]).
pub(crate) fn convert_html_nodes<'a>(
    nodes: &Vec<BlockNode>,
    inherited_kind: Option<TextBlockKind>,
    list_depth: usize,
    allocator: &mut HtmlSourceAllocator<'a>,
    blocks: &mut Vec<ParsedBlock>,
)
    ensures
        converted(
            *old(allocator),
            *final(allocator),
            old(blocks)@,
            final(blocks)@,
            convert_nodes(
                nodes@,
                0,
                inherited_kind,
                list_depth,
                alloc_bytes(*old(allocator)),
                allocation_limit(*old(allocator)),
                old(allocator).next_offset() as int,
            ),
        ),
    decreases nodes@, 0int,
{
    let ghost bytes = alloc_bytes(*allocator);
    let ghost limit = allocation_limit(*allocator);
    let ghost start = allocator.next_offset() as int;
    let ghost mut produced: Seq<BlockView> = Seq::empty();
    let mut k: usize = 0;
    while k < nodes.len()
        invariant
            k <= nodes@.len(),
            bytes == alloc_bytes(*allocator),
            limit == allocation_limit(*allocator),
            bytes == alloc_bytes(*old(allocator)),
            limit == allocation_limit(*old(allocator)),
            start == old(allocator).next_offset(),
            allocator.source_text() == old(allocator).source_text(),
            allocator.block() == old(allocator).block(),
            blocks_view(blocks@) == blocks_view(old(blocks)@) + produced,
            convert_nodes(nodes@, 0, inherited_kind, list_depth, bytes, limit, start) == (
                produced + convert_nodes(
                    nodes@,
                    k as int,
                    inherited_kind,
                    list_depth,
                    bytes,
                    limit,
                    allocator.next_offset() as int,
                ).0,
                convert_nodes(nodes@, k as int, inherited_kind, list_depth, bytes, limit, allocator.next_offset() as int).1,
            ),
        decreases nodes@.len() - k,
    {
        proof {
            assert(decreases_to!(nodes@ => nodes@[k as int]));
        }
        let ghost at = allocator.next_offset() as int;
        convert_html_node(&nodes[k], inherited_kind, list_depth, allocator, blocks);
        proof {
            let step = convert_node(nodes@[k as int], inherited_kind, list_depth, bytes, limit, at);
            assert(produced + step.0 + convert_nodes(
                nodes@,
                k + 1,
                inherited_kind,
                list_depth,
                bytes,
                limit,
                allocator.next_offset() as int,
            ).0 =~= produced + convert_nodes(nodes@, k as int, inherited_kind, list_depth, bytes, limit, at).0);
            produced = produced + step.0;
            assert(blocks_view(blocks@) =~= blocks_view(old(blocks)@) + produced);
        }
        k += 1;
    }
    proof {
        assert(produced + convert_nodes(
            nodes@,
            k as int,
            inherited_kind,
            list_depth,
            bytes,
            limit,
            allocator.next_offset() as int,
        ).0 =~= produced);
    }
}

/// Converts the items of a list (see [`convert_list_items`]).
fn convert_html_list_items<'a>(
    items: &Vec<BlockNode>,
    ordered: bool,
    counter: u64,
    list_depth: usize,
    allocator: &mut HtmlSourceAllocator<'a>,
    blocks: &mut Vec<ParsedBlock>,
)
    ensures
        converted(
            *old(allocator),
            *final(allocator),
            old(blocks)@,
            final(blocks)@,
            convert_list_items(
                items@,
                0,
                ordered,
                counter,
                list_depth,
                alloc_bytes(*old(allocator)),
                allocation_limit(*old(allocator)),
                old(allocator).next_offset() as int,
            ),
        ),
    decreases items@, 0int,
{
    let ghost bytes = alloc_bytes(*allocator);
    let ghost limit = allocation_limit(*allocator);
    let ghost start = allocator.next_offset() as int;
    let ghost mut produced: Seq<BlockView> = Seq::empty();
    let mut next = counter;
    let mut k: usize = 0;
    while k < items.len()
        invariant
            k <= items@.len(),
            bytes == alloc_bytes(*allocator),
            limit == allocation_limit(*allocator),
            bytes == alloc_bytes(*old(allocator)),
            limit == allocation_limit(*old(allocator)),
            start == old(allocator).next_offset(),
            allocator.source_text() == old(allocator).source_text(),
            allocator.block() == old(allocator).block(),
            blocks_view(blocks@) == blocks_view(old(blocks)@) + produced,
            convert_list_items(items@, 0, ordered, counter, list_depth, bytes, limit, start) == (
                produced + convert_list_items(
                    items@,
                    k as int,
                    ordered,
                    next,
                    list_depth,
                    bytes,
                    limit,
                    allocator.next_offset() as int,
                ).0,
                convert_list_items(items@, k as int, ordered, next, list_depth, bytes, limit, allocator.next_offset() as int).1,
            ),
        decreases items@.len() - k,
    {
        let mut prefix = String::new();
        if ordered {
            push_decimal(&mut prefix, next);
            prefix.push('.');
            prefix.push(' ');
            next = if next < u64::MAX {
                next + 1
            } else {
                0
            };
        } else {
            prefix.push('\u{2022}');
            prefix.push(' ');
        }
        let ghost at = allocator.next_offset() as int;
        let ghost counter_at = if ordered {
            if next == 0 {
                u64::MAX
            } else {
                (next - 1) as u64
            }
        } else {
            next
        };
        proof {
            assert(prefix@ =~= list_prefix(ordered, counter_at));
            assert(next == next_counter(ordered, counter_at));
        }
        match &items[k] {
            BlockNode::ListItem { children, .. } => {
                proof {
                    assert(decreases_to!(items@ => items@[k as int]));
                    assert(decreases_to!(items@[k as int] => *children));
                    assert(decreases_to!(*children => children@));
                }
                convert_html_item_children(children, Some(prefix), list_depth, allocator, blocks);
            },
            _ => {},
        }
        proof {
            let step = match items@[k as int] {
                BlockNode::ListItem { children, .. } => convert_item_children(
                    children@,
                    0,
                    Some(list_prefix(ordered, counter_at)),
                    list_depth,
                    bytes,
                    limit,
                    at,
                ),
                _ => (Seq::<BlockView>::empty(), at),
            };
            assert(produced + step.0 + convert_list_items(
                items@,
                k + 1,
                ordered,
                next,
                list_depth,
                bytes,
                limit,
                allocator.next_offset() as int,
            ).0 =~= produced + convert_list_items(items@, k as int, ordered, counter_at, list_depth, bytes, limit, at).0);
            produced = produced + step.0;
            assert(blocks_view(blocks@) =~= blocks_view(old(blocks)@) + produced);
        }
        k += 1;
    }
    proof {
        assert(produced + convert_list_items(
            items@,
            k as int,
            ordered,
            next,
            list_depth,
            bytes,
            limit,
            allocator.next_offset() as int,
        ).0 =~= produced);
    }
}

/// Converts the children of a list item (see [`convert_item_children`]).
fn convert_html_item_children<'a>(
    children: &Vec<BlockNode>,
    prefix: Option<String>,
    list_depth: usize,
    allocator: &mut HtmlSourceAllocator<'a>,
    blocks: &mut Vec<ParsedBlock>,
)
    ensures
        converted(
            *old(allocator),
            *final(allocator),
            old(blocks)@,
            final(blocks)@,
            convert_item_children(
                children@,
                0,
                opt_text(prefix),
                list_depth,
                alloc_bytes(*old(allocator)),
                allocation_limit(*old(allocator)),
                old(allocator).next_offset() as int,
            ),
        ),
    decreases children@, 0int,
{
    let ghost bytes = alloc_bytes(*allocator);
    let ghost limit = allocation_limit(*allocator);
    let ghost start = allocator.next_offset() as int;
    let ghost first_prefix = opt_text(prefix);
    let ghost mut produced: Seq<BlockView> = Seq::empty();
    let mut prefix = prefix;
    let depth = if list_depth >= 1 {
        list_depth
    } else {
        1
    };
    let deeper_depth = if list_depth < usize::MAX {
        list_depth + 1
    } else {
        list_depth
    };
    let mut j: usize = 0;
    while j < children.len()
        invariant
            j <= children@.len(),
            depth == item_depth(list_depth),
            deeper_depth == deeper(list_depth),
            bytes == alloc_bytes(*allocator),
            limit == allocation_limit(*allocator),
            bytes == alloc_bytes(*old(allocator)),
            limit == allocation_limit(*old(allocator)),
            start == old(allocator).next_offset(),
            allocator.source_text() == old(allocator).source_text(),
            allocator.block() == old(allocator).block(),
            blocks_view(blocks@) == blocks_view(old(blocks)@) + produced,
            convert_item_children(children@, 0, first_prefix, list_depth, bytes, limit, start) == (
                produced + convert_item_children(
                    children@,
                    j as int,
                    opt_text(prefix),
                    list_depth,
                    bytes,
                    limit,
                    allocator.next_offset() as int,
                ).0,
                convert_item_children(children@, j as int, opt_text(prefix), list_depth, bytes, limit, allocator.next_offset() as int).1,
            ),
        decreases children@.len() - j,
    {
        proof {
            assert(decreases_to!(children@ => children@[j as int]));
        }
        let ghost at = allocator.next_offset() as int;
        let ghost prefix_at = opt_text(prefix);
        let child = &children[j];
        let ghost step: (Seq<BlockView>, int);
        match child {
            BlockNode::List { .. } => {
                convert_html_node(child, None, deeper_depth, allocator, blocks);
                proof {
                    step = convert_node(*child, None, deeper(list_depth), bytes, limit, at);
                }
            },
            BlockNode::Paragraph(p) => {
                let taken = prefix;
                prefix = None;
                push_paragraph(p, TextBlockKind::ListItem { depth }, taken, allocator, blocks);
                proof {
                    step = paragraph_blocks(*p, TextBlockKind::ListItem { depth: item_depth(list_depth) }, prefix_at, bytes, limit, at);
                }
            },
            _ => {
                convert_html_node(child, Some(TextBlockKind::ListItem { depth }), list_depth, allocator, blocks);
                proof {
                    step = convert_node(
                        *child,
                        Some(TextBlockKind::ListItem { depth: item_depth(list_depth) }),
                        list_depth,
                        bytes,
                        limit,
                        at,
                    );
                }
            },
        }
        proof {
            assert(produced + step.0 + convert_item_children(
                children@,
                j + 1,
                opt_text(prefix),
                list_depth,
                bytes,
                limit,
                allocator.next_offset() as int,
            ).0 =~= produced + convert_item_children(children@, j as int, prefix_at, list_depth, bytes, limit, at).0);
            produced = produced + step.0;
            assert(blocks_view(blocks@) =~= blocks_view(old(blocks)@) + produced);
        }
        j += 1;
    }
    proof {
        assert(produced + convert_item_children(
            children@,
            j as int,
            opt_text(prefix),
            list_depth,
            bytes,
            limit,
            allocator.next_offset() as int,
        ).0 =~= produced);
    }
}

} // verus!
