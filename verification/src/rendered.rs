use std::ops::Range;
use vstd::prelude::*;
use vstd::string::StringSliceAdditionalSpecFns;
use vstd::utf8::{encode_utf8, is_char_boundary};

use crate::unicode::{chars_between, substring, utf8_len_of};

verus! {

broadcast use vstd::string::group_string_axioms;

/// A rendered range of a line's text and the canonical source range it shows.
#[derive(Clone, Debug)]
pub struct SegmentMapping {
    pub rendered: Range<usize>,
    pub source: Range<usize>,
}

/// A link of a rendered line, over canonical source.
#[derive(Clone, Debug)]
pub struct RenderedLink {
    pub source: Range<usize>,
    pub destination: String,
}

/// One rendered text block: its text, the source range it renders, how
/// rendered offsets map to source offsets, and its links. Its layout
/// geometry belongs to the renderer and is not modelled.
#[derive(Clone, Debug)]
pub struct RenderedLine {
    pub text: String,
    pub source: Range<usize>,
    pub mappings: Vec<SegmentMapping>,
    pub links: Vec<RenderedLink>,
}

/// The length of `r` as `Range::len` counts it.
pub open spec fn range_len(r: Range<usize>) -> int {
    if r.end > r.start {
        r.end - r.start
    } else {
        0
    }
}

pub open spec fn min_int(a: int, b: int) -> int {
    if a <= b {
        a
    } else {
        b
    }
}

/// First mapping, from `k` on, whose rendered range holds `i` (ends included).
pub open spec fn first_rendered_cover(ms: Seq<SegmentMapping>, i: int, k: int) -> Option<int>
    decreases ms.len() - k,
{
    if k < 0 || k >= ms.len() {
        None
    } else if ms[k].rendered.start <= i <= ms[k].rendered.end {
        Some(k)
    } else {
        first_rendered_cover(ms, i, k + 1)
    }
}

/// Last mapping among the first `k` whose rendered range starts at or before `i`.
pub open spec fn last_rendered_before(ms: Seq<SegmentMapping>, i: int, k: int) -> Option<int>
    decreases k,
{
    if k <= 0 || k > ms.len() {
        None
    } else if ms[k - 1].rendered.start <= i {
        Some(k - 1)
    } else {
        last_rendered_before(ms, i, k - 1)
    }
}

/// First mapping, from `k` on, whose source range holds `i` (ends included).
pub open spec fn first_source_cover(ms: Seq<SegmentMapping>, i: int, k: int) -> Option<int>
    decreases ms.len() - k,
{
    if k < 0 || k >= ms.len() {
        None
    } else if ms[k].source.start <= i <= ms[k].source.end {
        Some(k)
    } else {
        first_source_cover(ms, i, k + 1)
    }
}

/// Last mapping among the first `k` whose source range starts at or before `i`.
pub open spec fn last_source_before(ms: Seq<SegmentMapping>, i: int, k: int) -> Option<int>
    decreases k,
{
    if k <= 0 || k > ms.len() {
        None
    } else if ms[k - 1].source.start <= i {
        Some(k - 1)
    } else {
        last_source_before(ms, i, k - 1)
    }
}

/// The mapping that a rendered index resolves through.
pub open spec fn rendered_mapping(ms: Seq<SegmentMapping>, i: int) -> Option<int> {
    match first_rendered_cover(ms, i, 0) {
        Some(k) => Some(k),
        None => last_rendered_before(ms, i, ms.len() as int),
    }
}

/// The mapping that a source index resolves through.
pub open spec fn source_mapping(ms: Seq<SegmentMapping>, i: int) -> Option<int> {
    match first_source_cover(ms, i, 0) {
        Some(k) => Some(k),
        None => last_source_before(ms, i, ms.len() as int),
    }
}

/// The source offset of the rendered offset `rendered_index` of `line`.
pub open spec fn source_for_rendered_spec(line: RenderedLine, rendered_index: int, exclusive_end: bool) -> int {
    let i = min_int(rendered_index, utf8_len_of(line.text@) as int);
    match rendered_mapping(line.mappings@, i) {
        None => line.source.start as int,
        Some(k) => {
            let m = line.mappings@[k];
            if range_len(m.rendered) == range_len(m.source) {
                let past = if i >= m.rendered.start { i - m.rendered.start } else { 0 };
                min_int(m.source.start + past, m.source.end as int)
            } else if exclusive_end && i >= m.rendered.end {
                m.source.end as int
            } else {
                m.source.start as int
            }
        },
    }
}

/// The rendered offset of the source offset `source_index` in `line`.
pub open spec fn rendered_for_source_spec(line: RenderedLine, source_index: int) -> int {
    let i = if source_index < line.source.start {
        line.source.start as int
    } else if source_index > line.source.end {
        line.source.end as int
    } else {
        source_index
    };
    match source_mapping(line.mappings@, i) {
        None => 0,
        Some(k) => {
            let m = line.mappings@[k];
            if range_len(m.rendered) == range_len(m.source) {
                let past = if i >= m.source.start { i - m.source.start } else { 0 };
                min_int(m.rendered.start + past, m.rendered.end as int)
            } else if i >= m.source.end {
                m.rendered.end as int
            } else {
                m.rendered.start as int
            }
        },
    }
}

fn find_rendered_mapping(ms: &Vec<SegmentMapping>, i: usize) -> (found: Option<usize>)
    ensures
        found is Some <==> rendered_mapping(ms@, i as int) is Some,
        found matches Some(k) ==> k < ms@.len() && rendered_mapping(ms@, i as int) == Some(k as int),
{
    let mut k: usize = 0;
    while k < ms.len()
        invariant
            k <= ms@.len(),
            first_rendered_cover(ms@, i as int, 0) == first_rendered_cover(ms@, i as int, k as int),
        decreases ms.len() - k,
    {
        if ms[k].rendered.start <= i && i <= ms[k].rendered.end {
            return Some(k);
        }
        k += 1;
    }
    let mut k = ms.len();
    while k > 0
        invariant
            k <= ms@.len(),
            first_rendered_cover(ms@, i as int, 0) is None,
            last_rendered_before(ms@, i as int, ms@.len() as int) == last_rendered_before(ms@, i as int, k as int),
        decreases k,
    {
        if ms[k - 1].rendered.start <= i {
            return Some(k - 1);
        }
        k -= 1;
    }
    None
}

fn find_source_mapping(ms: &Vec<SegmentMapping>, i: usize) -> (found: Option<usize>)
    ensures
        found is Some <==> source_mapping(ms@, i as int) is Some,
        found matches Some(k) ==> k < ms@.len() && source_mapping(ms@, i as int) == Some(k as int),
{
    let mut k: usize = 0;
    while k < ms.len()
        invariant
            k <= ms@.len(),
            first_source_cover(ms@, i as int, 0) == first_source_cover(ms@, i as int, k as int),
        decreases ms.len() - k,
    {
        if ms[k].source.start <= i && i <= ms[k].source.end {
            return Some(k);
        }
        k += 1;
    }
    let mut k = ms.len();
    while k > 0
        invariant
            k <= ms@.len(),
            first_source_cover(ms@, i as int, 0) is None,
            last_source_before(ms@, i as int, ms@.len() as int) == last_source_before(ms@, i as int, k as int),
        decreases k,
    {
        if ms[k - 1].source.start <= i {
            return Some(k - 1);
        }
        k -= 1;
    }
    None
}

impl RenderedLine {
    /// Canonical source offset of a rendered offset. Inside a mapping whose
    /// rendered and source lengths agree the offset carries over; inside any
    /// other mapping it snaps to the mapping's source start, or to its end
    /// for an exclusive end past the mapping.
    pub fn source_for_rendered(&self, rendered_index: usize, exclusive_end: bool) -> (source: usize)
        ensures
            source == source_for_rendered_spec(*self, rendered_index as int, exclusive_end),
    {
        let text_len = self.text.len();
        let i = if rendered_index < text_len {
            rendered_index
        } else {
            text_len
        };
        let k = match find_rendered_mapping(&self.mappings, i) {
            Some(k) => k,
            None => return self.source.start,
        };
        let m = &self.mappings[k];
        let rendered_len = if m.rendered.end > m.rendered.start {
            m.rendered.end - m.rendered.start
        } else {
            0
        };
        let source_len = if m.source.end > m.source.start {
            m.source.end - m.source.start
        } else {
            0
        };
        if rendered_len == source_len {
            let past = if i >= m.rendered.start {
                i - m.rendered.start
            } else {
                0
            };
            if m.source.end >= m.source.start && past <= m.source.end - m.source.start {
                return m.source.start + past;
            } else {
                return m.source.end;
            }
        }
        if exclusive_end && i >= m.rendered.end {
            m.source.end
        } else {
            m.source.start
        }
    }

    /// Rendered offset of a canonical source offset, clamped to the line's source.
    pub fn rendered_for_source(&self, source_index: usize) -> (rendered: usize)
        ensures
            rendered == rendered_for_source_spec(*self, source_index as int),
    {
        let i = if source_index < self.source.start {
            self.source.start
        } else if source_index > self.source.end {
            self.source.end
        } else {
            source_index
        };
        let k = match find_source_mapping(&self.mappings, i) {
            Some(k) => k,
            None => return 0,
        };
        let m = &self.mappings[k];
        let rendered_len = if m.rendered.end > m.rendered.start {
            m.rendered.end - m.rendered.start
        } else {
            0
        };
        let source_len = if m.source.end > m.source.start {
            m.source.end - m.source.start
        } else {
            0
        };
        if rendered_len == source_len {
            let past = if i >= m.source.start {
                i - m.source.start
            } else {
                0
            };
            if m.rendered.end >= m.rendered.start && past <= m.rendered.end - m.rendered.start {
                m.rendered.start + past
            } else {
                m.rendered.end
            }
        } else if i >= m.source.end {
            m.rendered.end
        } else {
            m.rendered.start
        }
    }
}


/// The rendered text of a Markdown view: its text blocks in document order.
pub struct RenderedText {
    pub lines: Vec<RenderedLine>,
}

/// The links of `lines`, line after line, each line's links in order.
pub open spec fn flat_links(lines: Seq<RenderedLine>) -> Seq<RenderedLink>
    decreases lines.len(),
{
    if lines.len() == 0 {
        seq![]
    } else {
        flat_links(lines.drop_last()) + lines.last().links@
    }
}

/// Whether the source range of `link` holds the offset `i` (end excluded).
pub open spec fn link_holds(link: RenderedLink, i: int) -> bool {
    link.source.start <= i < link.source.end
}

proof fn lemma_flat_links_step(lines: Seq<RenderedLine>, a: int)
    requires
        0 <= a < lines.len(),
    ensures
        flat_links(lines.take(a + 1)) == flat_links(lines.take(a)) + lines[a].links@,
{
    assert(lines.take(a + 1).drop_last() =~= lines.take(a));
}

proof fn lemma_flat_links_prefix(lines: Seq<RenderedLine>, a: int)
    requires
        0 <= a <= lines.len(),
    ensures
        flat_links(lines.take(a)).len() <= flat_links(lines).len(),
        forall|k: int|
            0 <= k < flat_links(lines.take(a)).len() ==> flat_links(lines)[k] == flat_links(
                lines.take(a),
            )[k],
    decreases lines.len() - a,
{
    if a == lines.len() {
        assert(lines.take(a) =~= lines);
    } else {
        lemma_flat_links_step(lines, a);
        lemma_flat_links_prefix(lines, a + 1);
    }
}

/// The rendered text that `line` shows of the canonical source range
/// `range`, where it shows any.
pub open spec fn line_piece(line: RenderedLine, range: Range<usize>) -> Option<Seq<char>> {
    let start = if range.start >= line.source.start {
        range.start
    } else {
        line.source.start
    };
    let end = if range.end <= line.source.end {
        range.end
    } else {
        line.source.end
    };
    if start >= end {
        None
    } else {
        let rs = rendered_for_source_spec(line, start as int);
        let re = rendered_for_source_spec(line, end as int);
        let bytes = encode_utf8(line.text@);
        if rs <= re <= bytes.len() && is_char_boundary(bytes, rs) && is_char_boundary(bytes, re) {
            Some(chars_between(line.text@, rs, re))
        } else {
            None
        }
    }
}

/// The plain text that `lines` show of the canonical source range `range`:
/// the pieces of the lines that show part of it, joined by newlines.
pub open spec fn plain_text_of(lines: Seq<RenderedLine>, range: Range<usize>) -> Seq<char>
    decreases lines.len(),
{
    if lines.len() == 0 {
        seq![]
    } else {
        let before = plain_text_of(lines.drop_last(), range);
        match line_piece(lines.last(), range) {
            None => before,
            Some(piece) => if before.len() == 0 {
                piece
            } else {
                before + seq!['\n'] + piece
            },
        }
    }
}

impl RenderedText {
    /// The first link, in document order, whose source range holds `source_index`.
    pub fn link_at(&self, source_index: usize) -> (found: Option<&RenderedLink>)
        ensures
            match found {
                Some(link) => exists|k: int|
                    0 <= k < flat_links(self.lines@).len() && flat_links(self.lines@)[k] == *link
                        && link_holds(*link, source_index as int) && forall|j: int|
                        0 <= j < k ==> !link_holds(
                            #[trigger] flat_links(self.lines@)[j],
                            source_index as int,
                        ),
                None => forall|k: int|
                    0 <= k < flat_links(self.lines@).len() ==> !link_holds(
                        #[trigger] flat_links(self.lines@)[k],
                        source_index as int,
                    ),
            },
    {
        let ghost lines = self.lines@;
        let ghost i = source_index as int;
        let mut li: usize = 0;
        while li < self.lines.len()
            invariant
                lines == self.lines@,
                i == source_index,
                li <= lines.len(),
                forall|j: int|
                    0 <= j < flat_links(lines.take(li as int)).len() ==> !link_holds(
                        #[trigger] flat_links(lines.take(li as int))[j],
                        i,
                    ),
            decreases lines.len() - li,
        {
            let line = &self.lines[li];
            let ghost done = flat_links(lines.take(li as int));
            proof {
                lemma_flat_links_step(lines, li as int);
                lemma_flat_links_prefix(lines, li as int + 1);
            }
            let mut lj: usize = 0;
            while lj < line.links.len()
                invariant
                    lines == self.lines@,
                    i == source_index,
                    li < lines.len(),
                    *line == lines[li as int],
                    done == flat_links(lines.take(li as int)),
                    flat_links(lines.take(li as int + 1)) == done + line.links@,
                    flat_links(lines.take(li as int + 1)).len() <= flat_links(lines).len(),
                    forall|k: int|
                        0 <= k < flat_links(lines.take(li as int + 1)).len() ==> flat_links(
                            lines,
                        )[k] == flat_links(lines.take(li as int + 1))[k],
                    lj <= line.links@.len(),
                    forall|j: int| 0 <= j < done.len() ==> !link_holds(#[trigger] done[j], i),
                    forall|j: int| 0 <= j < lj ==> !link_holds(#[trigger] line.links@[j], i),
                decreases line.links@.len() - lj,
            {
                let link = &line.links[lj];
                if link.source.start <= source_index && source_index < link.source.end {
                    proof {
                        let k = done.len() + lj;
                        assert(flat_links(lines)[k] == line.links@[lj as int]);
                        assert forall|j: int| 0 <= j < k implies !link_holds(
                            #[trigger] flat_links(lines)[j],
                            i,
                        ) by {
                            if j < done.len() {
                                assert(flat_links(lines)[j] == done[j]);
                            } else {
                                assert(flat_links(lines)[j] == line.links@[j - done.len()]);
                            }
                        }
                    }
                    return Some(link);
                }
                lj += 1;
            }
            proof {
                let next = flat_links(lines.take(li as int + 1));
                assert forall|j: int| 0 <= j < next.len() implies !link_holds(#[trigger] next[j], i) by {
                    if j < done.len() {
                        assert(next[j] == done[j]);
                    } else {
                        assert(next[j] == line.links@[j - done.len()]);
                    }
                }
            }
            li += 1;
        }
        proof {
            assert(lines.take(lines.len() as int) =~= lines);
        }
        None
    }

    /// The plain text shown for the canonical source range `range`: for each
    /// line that shows part of it, the rendered text of that part, the parts
    /// joined by newlines.
    pub fn plain_text_for_source_range(&self, range: Range<usize>) -> (text: String)
        ensures
            text@ == plain_text_of(self.lines@, range),
    {
        let ghost lines = self.lines@;
        let mut text = String::new();
        let mut li: usize = 0;
        while li < self.lines.len()
            invariant
                lines == self.lines@,
                li <= lines.len(),
                text@ == plain_text_of(lines.take(li as int), range),
            decreases lines.len() - li,
        {
            let line = &self.lines[li];
            proof {
                assert(lines.take(li as int + 1).drop_last() =~= lines.take(li as int));
                assert(lines.take(li as int + 1).last() == lines[li as int]);
            }
            let start = if range.start >= line.source.start {
                range.start
            } else {
                line.source.start
            };
            let end = if range.end <= line.source.end {
                range.end
            } else {
                line.source.end
            };
            if start < end {
                let rendered_start = line.rendered_for_source(start);
                let rendered_end = line.rendered_for_source(end);
                let text_len = line.text.len();
                let shown = line.text.as_str();
                if rendered_start <= rendered_end && rendered_end <= text_len
                    && shown.is_char_boundary(rendered_start) && shown.is_char_boundary(rendered_end) {
                    let piece = substring(shown, rendered_start, rendered_end);
                    if text.len() > 0 {
                        text.push('\n');
                    }
                    text.append(piece.as_str());
                }
            }
            li += 1;
        }
        proof {
            assert(lines.take(lines.len() as int) =~= lines);
        }
        text
    }
}

} // verus!
