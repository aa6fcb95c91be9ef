use std::ops::Range;
use vstd::prelude::*;
use vstd::string::StringSliceAdditionalSpecFns;
use vstd::utf8::encode_utf8;

use crate::node::LinkMark;
use crate::unicode::utf8_len_of;

verus! {

/// Flow length of an inline image.
pub const IMAGE_LEN: usize = 1;

/// A link range with an identity that remains stable when a flow wraps it.
#[derive(Debug, PartialEq)]
pub struct InlineLink {
    pub id: usize,
    pub range: Range<usize>,
    pub mark: LinkMark,
}

impl Clone for InlineLink {
    fn clone(&self) -> (cloned: Self)
        ensures
            cloned == *self,
    {
        InlineLink { id: self.id, range: self.range.start..self.range.end, mark: self.mark.clone() }
    }
}

/// Whether an image behaves like an inline glyph or a standalone content block.
#[derive(Clone, Copy, Debug, PartialEq, Eq)]
pub enum InlineImageSizing {
    Compact,
    Intrinsic,
}

impl Default for InlineImageSizing {
    fn default() -> (sizing: Self)
        ensures
            sizing == InlineImageSizing::Compact,
    {
        InlineImageSizing::Compact
    }
}

/// One measured item of an inline flow: text, an image, or a custom element
/// with a fixed flow length. Only what line splitting reads is modelled.
#[derive(Debug)]
pub enum MeasureItem {
    Text { text: String, links: Vec<InlineLink> },
    Image,
    Custom { len: usize },
}

/// Flow length of an item.
pub open spec fn item_len(item: MeasureItem) -> nat {
    match item {
        MeasureItem::Text { text, .. } => utf8_len_of(text@),
        MeasureItem::Image => IMAGE_LEN as nat,
        MeasureItem::Custom { len } => len as nat,
    }
}

impl MeasureItem {
    pub fn len(&self) -> (len: usize)
        ensures
            len == item_len(*self),
    {
        match self {
            MeasureItem::Text { text, .. } => text.len(),
            MeasureItem::Image => IMAGE_LEN,
            MeasureItem::Custom { len } => *len,
        }
    }
}

/// Total flow length of `items`.
pub open spec fn flow_len(items: Seq<MeasureItem>) -> nat
    decreases items.len(),
{
    if items.len() == 0 {
        0
    } else {
        item_len(items[0]) + flow_len(items.drop_first())
    }
}

/// Lines ended by the newline bytes of `b` from byte `k` on, for an item
/// starting at flow offset `item_start`, with the current line starting at
/// `line_start`: the finished lines and where the open line starts.
pub open spec fn newline_lines(b: Seq<u8>, k: int, item_start: int, line_start: int) -> (
    Seq<Range<usize>>,
    int,
)
    decreases b.len() - k,
{
    if k < 0 || k >= b.len() {
        (Seq::empty(), line_start)
    } else if b[k] == 10 {
        let rest = newline_lines(b, k + 1, item_start, item_start + k + 1);
        (seq![(line_start as usize)..((item_start + k) as usize)] + rest.0, rest.1)
    } else {
        newline_lines(b, k + 1, item_start, line_start)
    }
}

/// The hard lines of the flow `items`, whose first item starts at
/// `item_start`, with the current line starting at `line_start`.
pub open spec fn hard_lines(items: Seq<MeasureItem>, item_start: int, line_start: int) -> Seq<
    Range<usize>,
>
    decreases items.len(),
{
    if items.len() == 0 {
        seq![(line_start as usize)..(item_start as usize)]
    } else {
        let next_start = item_start + item_len(items[0]);
        match items[0] {
            MeasureItem::Text { text, .. } => {
                let split = newline_lines(encode_utf8(text@), 0, item_start, line_start);
                split.0 + hard_lines(items.drop_first(), next_start, split.1)
            },
            _ => hard_lines(items.drop_first(), next_start, line_start),
        }
    }
}

/// Split flow items at hard line breaks while keeping global byte offsets:
/// every line excludes its newline, and empty lines are kept.
pub fn hard_line_ranges(items: &Vec<MeasureItem>) -> (lines: Vec<Range<usize>>)
    requires
        flow_len(items@) <= usize::MAX,
    ensures
        lines@ == hard_lines(items@, 0, 0),
{
    let mut ranges: Vec<Range<usize>> = Vec::new();
    let mut item_start: usize = 0;
    let mut line_start: usize = 0;
    let mut i: usize = 0;
    proof {
        assert(items@.skip(0) =~= items@);
    }
    while i < items.len()
        invariant
            i <= items@.len(),
            line_start <= item_start,
            item_start + flow_len(items@.skip(i as int)) == flow_len(items@),
            flow_len(items@) <= usize::MAX,
            ranges@ + hard_lines(items@.skip(i as int), item_start as int, line_start as int)
                == hard_lines(items@, 0, 0),
        decreases items.len() - i,
    {
        let item = &items[i];
        let ghost rest = items@.skip(i as int);
        assert(rest[0] == *item);
        assert(rest.drop_first() =~= items@.skip(i + 1));
        let len = item.len();
        if let MeasureItem::Text { text, .. } = item {
            let bytes = text.as_str().as_bytes();
            let ghost b = encode_utf8(text@);
            let ghost before = ranges@;
            let ghost first_line = line_start;
            let mut k: usize = 0;
            while k < bytes.len()
                invariant
                    bytes@ == b,
                    b.len() == len,
                    k <= b.len(),
                    line_start <= item_start + k,
                    item_start + len <= usize::MAX,
                    ranges@ + newline_lines(b, k as int, item_start as int, line_start as int).0
                        == before + newline_lines(b, 0, item_start as int, first_line as int).0,
                    newline_lines(b, k as int, item_start as int, line_start as int).1
                        == newline_lines(b, 0, item_start as int, first_line as int).1,
                decreases bytes.len() - k,
            {
                if bytes[k] == 10 {
                    let newline = item_start + k;
                    ranges.push(line_start..newline);
                    line_start = newline + 1;
                }
                k += 1;
            }
            proof {
                assert(ranges@ + hard_lines(items@.skip(i + 1), (item_start + len) as int, line_start as int)
                    =~= before + hard_lines(rest, item_start as int, first_line as int));
            }
        }
        item_start = item_start + len;
        i += 1;
    }
    ranges.push(line_start..item_start);
    ranges
}

/// `range` clipped to `start..end` and made relative to `start`, when the
/// clipped range is not empty.
pub open spec fn clipped(range: Range<usize>, start: usize, end: usize) -> Option<Range<usize>> {
    let lo = if range.start >= start { range.start } else { start };
    let hi = if range.end <= end { range.end } else { end };
    if lo < hi {
        Some(((lo - start) as usize)..((hi - start) as usize))
    } else {
        None
    }
}

/// The ranged values of `ranges` from index `from` on, clipped to `start..end`.
pub open spec fn sliced<T>(ranges: Seq<(Range<usize>, T)>, start: usize, end: usize, from: int) -> Seq<
    (Range<usize>, T),
>
    decreases ranges.len() - from,
{
    if from < 0 || from >= ranges.len() {
        Seq::empty()
    } else {
        let here = match clipped(ranges[from].0, start, end) {
            Some(r) => seq![(r, ranges[from].1)],
            None => Seq::empty(),
        };
        here + sliced(ranges, start, end, from + 1)
    }
}

/// Clip ranged values to one wrapped fragment `start..end`, relative to its
/// start, and map each clipped range with its value through `map`, in
/// order: `map` is called once for each entry of [`sliced`].
pub fn slice_ranges<T, U, F: Fn(Range<usize>, &T) -> U>(
    ranges: &Vec<(Range<usize>, T)>,
    start: usize,
    end: usize,
    map: F,
) -> (mapped: Vec<U>)
    requires
        forall|k: int|
            0 <= k < sliced(ranges@, start, end, 0).len() ==> map.requires(
                (sliced(ranges@, start, end, 0)[k].0, &sliced(ranges@, start, end, 0)[k].1),
            ),
    ensures
        mapped@.len() == sliced(ranges@, start, end, 0).len(),
        forall|k: int|
            0 <= k < mapped@.len() ==> map.ensures(
                (sliced(ranges@, start, end, 0)[k].0, &sliced(ranges@, start, end, 0)[k].1),
                #[trigger] mapped@[k],
            ),
{
    let ghost all = sliced(ranges@, start, end, 0);
    let ghost mut done: Seq<(Range<usize>, T)> = Seq::empty();
    let mut mapped: Vec<U> = Vec::new();
    let mut i: usize = 0;
    while i < ranges.len()
        invariant
            i <= ranges@.len(),
            all == sliced(ranges@, start, end, 0),
            done + sliced(ranges@, start, end, i as int) == all,
            mapped@.len() == done.len(),
            forall|k: int| 0 <= k < all.len() ==> map.requires((all[k].0, &all[k].1)),
            forall|k: int| 0 <= k < mapped@.len() ==> map.ensures((done[k].0, &done[k].1), #[trigger] mapped@[k]),
        decreases ranges.len() - i,
    {
        let range = &ranges[i].0;
        let clipped_start = if range.start >= start { range.start } else { start };
        let clipped_end = if range.end <= end { range.end } else { end };
        let ghost before = done;
        proof {
            assert(sliced(ranges@, start, end, i as int) == (match clipped(ranges@[i as int].0, start, end) {
                Some(r) => seq![(r, ranges@[i as int].1)],
                None => Seq::empty(),
            }) + sliced(ranges@, start, end, i + 1));
        }
        if clipped_start < clipped_end {
            let r = (clipped_start - start)..(clipped_end - start);
            proof {
                assert(all[done.len() as int] == (r, ranges@[i as int].1)) by {
                    assert((done + sliced(ranges@, start, end, i as int))[done.len() as int] == sliced(
                        ranges@,
                        start,
                        end,
                        i as int,
                    )[0]);
                }
            }
            let value = map(r, &ranges[i].1);
            mapped.push(value);
            proof {
                done = done.push((r, ranges@[i as int].1));
                assert(done + sliced(ranges@, start, end, i + 1) =~= before + sliced(ranges@, start, end, i as int));
            }
        } else {
            proof {
                assert(done + sliced(ranges@, start, end, i + 1) =~= before + sliced(ranges@, start, end, i as int));
            }
        }
        i += 1;
    }
    proof {
        assert(done =~= all);
    }
    mapped
}

/// The links of `links` from index `from` on, clipped to `start..end`.
pub open spec fn sliced_links(links: Seq<InlineLink>, start: usize, end: usize, from: int) -> Seq<InlineLink>
    decreases links.len() - from,
{
    if from < 0 || from >= links.len() {
        Seq::empty()
    } else {
        let here = match clipped(links[from].range, start, end) {
            Some(r) => seq![InlineLink { id: links[from].id, range: r, mark: links[from].mark }],
            None => Seq::empty(),
        };
        here + sliced_links(links, start, end, from + 1)
    }
}

/// Clip links to a wrapped fragment while preserving their identity.
pub fn slice_links(links: &Vec<InlineLink>, start: usize, end: usize) -> (slices: Vec<InlineLink>)
    ensures
        slices@ == sliced_links(links@, start, end, 0),
{
    let mut slices: Vec<InlineLink> = Vec::new();
    let mut i: usize = 0;
    while i < links.len()
        invariant
            i <= links@.len(),
            slices@ + sliced_links(links@, start, end, i as int) == sliced_links(links@, start, end, 0),
        decreases links.len() - i,
    {
        let link = &links[i];
        let clipped_start = if link.range.start >= start { link.range.start } else { start };
        let clipped_end = if link.range.end <= end { link.range.end } else { end };
        let ghost before = slices@;
        if clipped_start < clipped_end {
            slices.push(
                InlineLink {
                    id: link.id,
                    range: (clipped_start - start)..(clipped_end - start),
                    mark: link.mark.clone(),
                },
            );
        }
        proof {
            assert(slices@ + sliced_links(links@, start, end, i + 1) =~= before + sliced_links(links@, start, end, i as int));
        }
        i += 1;
    }
    proof {
        assert(slices@ =~= slices@ + sliced_links(links@, start, end, i as int));
    }
    slices
}

} // verus!
