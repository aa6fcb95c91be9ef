use std::ops::Range;
use vstd::prelude::*;
use vstd::string::StringSliceAdditionalSpecFns;
use vstd::utf8::*;

verus! {

broadcast use {
    vstd::string::group_string_axioms,
    vstd::utf8::encode_utf8_valid_utf8,
    vstd::utf8::is_char_boundary_start_end_of_seq,
    vstd::utf8::is_char_boundary_iff_not_is_continuation_byte,
};

/// A byte right after an ASCII byte starts a character.
pub proof fn lemma_boundary_after_ascii(b: Seq<u8>, k: int)
    requires
        valid_utf8(b),
        0 < k <= b.len(),
        b[k - 1] <= 0x7f,
    ensures
        is_char_boundary(b, k),
    decreases b.len(),
{
    reveal_with_fuel(is_char_boundary, 2);
    let l = length_of_first_scalar(b);
    assert(valid_first_scalar(b));
    if k - 1 >= l {
        let rest = pop_first_scalar(b);
        assert(rest[k - l - 1] == b[k - 1]);
        lemma_boundary_after_ascii(rest, k - l);
    } else if l > 1 {
        if k - 1 == 0 {
            assert(b[0] >= 0xc0);
        } else if k - 1 == 1 {
            assert(is_continuation_byte(b[1]));
        } else if k - 1 == 2 {
            assert(is_continuation_byte(b[2]));
        } else {
            assert(is_continuation_byte(b[3]));
        }
    }
}

/// A newline byte starts a character.
pub proof fn lemma_newline_is_boundary(b: Seq<u8>, k: int)
    requires
        valid_utf8(b),
        0 <= k < b.len(),
        b[k] == 10,
    ensures
        is_char_boundary(b, k),
{
    assert(!is_continuation_byte(b[k]));
}

/// The largest character boundary at or below `i`.
pub open spec fn floor_boundary(b: Seq<u8>, i: int) -> int
    decreases i,
{
    if i <= 0 {
        0
    } else if is_char_boundary(b, i) {
        i
    } else {
        floor_boundary(b, i - 1)
    }
}

/// Start of the line holding byte position `p`: just after the last newline before `p`.
pub open spec fn line_start_at(b: Seq<u8>, p: int) -> int
    decreases p,
{
    if p <= 0 {
        0
    } else if b[p - 1] == 10 {
        p
    } else {
        line_start_at(b, p - 1)
    }
}

/// End of the line holding byte position `p`: the first newline at or after `p`, or the end.
pub open spec fn line_end_at(b: Seq<u8>, p: int) -> int
    decreases b.len() - p,
{
    if p >= b.len() {
        b.len() as int
    } else if b[p] == 10 {
        p
    } else {
        line_end_at(b, p + 1)
    }
}

/// Byte position that `index` refers to: clamped to the text and moved down
/// to a character boundary.
pub open spec fn source_position(b: Seq<u8>, index: int) -> int {
    floor_boundary(b, if index < b.len() { index } else { b.len() as int })
}

/// Number of newline bytes in `b[0..end]`.
pub open spec fn newlines_before(b: Seq<u8>, end: int) -> nat
    decreases end,
{
    if end <= 0 {
        0
    } else {
        newlines_before(b, end - 1) + if b[end - 1] == 10 {
            1nat
        } else {
            0nat
        }
    }
}

proof fn lemma_line_start_bounds(b: Seq<u8>, p: int)
    requires
        0 <= p <= b.len(),
    ensures
        0 <= line_start_at(b, p) <= p,
        line_start_at(b, p) > 0 ==> b[line_start_at(b, p) - 1] == 10,
    decreases p,
{
    if p > 0 && b[p - 1] != 10 {
        lemma_line_start_bounds(b, p - 1);
    }
}

proof fn lemma_line_end_bounds(b: Seq<u8>, p: int)
    requires
        0 <= p <= b.len(),
    ensures
        p <= line_end_at(b, p) <= b.len(),
        line_end_at(b, p) < b.len() ==> b[line_end_at(b, p)] == 10,
    decreases b.len() - p,
{
    if p < b.len() && b[p] != 10 {
        lemma_line_end_bounds(b, p + 1);
    }
}

/// Byte range of the source line holding `index`, without its newline.
pub fn source_line_range(source: &str, index: usize) -> (line: Range<usize>)
    ensures
        line.start == line_start_at(source.spec_bytes(), source_position(source.spec_bytes(), index as int)),
        line.end == line_end_at(source.spec_bytes(), source_position(source.spec_bytes(), index as int)),
        line.start <= source_position(source.spec_bytes(), index as int) <= line.end <= source.spec_bytes().len(),
        is_char_boundary(source.spec_bytes(), line.start as int),
        is_char_boundary(source.spec_bytes(), line.end as int),
{
    let bytes = source.as_bytes();
    let ghost b = source.spec_bytes();
    let len = bytes.len();
    let mut position = if index < len {
        index
    } else {
        len
    };
    let ghost clamped = position;
    while !source.is_char_boundary(position)
        invariant
            bytes@ == b,
            b == source.spec_bytes(),
            len == b.len(),
            position <= clamped <= len,
            valid_utf8(b),
            is_char_boundary(b, 0),
            floor_boundary(b, clamped as int) == floor_boundary(b, position as int),
        decreases position,
    {
        position -= 1;
    }
    let mut start = position;
    while start > 0 && bytes[start - 1] != 10
        invariant
            bytes@ == b,
            start <= position <= len == b.len(),
            line_start_at(b, start as int) == line_start_at(b, position as int),
        decreases start,
    {
        start -= 1;
    }
    let mut end = position;
    while end < len && bytes[end] != 10
        invariant
            bytes@ == b,
            position <= end <= len == b.len(),
            line_end_at(b, end as int) == line_end_at(b, position as int),
        decreases len - end,
    {
        end += 1;
    }
    proof {
        lemma_line_start_bounds(b, position as int);
        lemma_line_end_bounds(b, position as int);
        if start > 0 {
            lemma_boundary_after_ascii(b, start as int);
        }
        if end < len {
            lemma_newline_is_boundary(b, end as int);
        }
    }
    start..end
}

/// Number of characters whose UTF-8 encoding starts in `b[lo..hi]`.
pub open spec fn chars_starting_in(b: Seq<u8>, lo: int, hi: int) -> nat
    decreases hi - lo,
{
    if hi <= lo {
        0
    } else {
        chars_starting_in(b, lo, hi - 1) + if is_continuation_byte(b[hi - 1]) {
            0nat
        } else {
            1nat
        }
    }
}

/// Zero-based line and column (in characters) of the source position `index`.
///
/// The line counts newlines before the line holding `index`; the column
/// counts the characters from that line's start up to `index`, or up to the
/// line's end when `index` lies past it.
pub fn source_line_column(source: &str, index: usize) -> (position: (usize, usize))
    requires
        is_char_boundary(
            source.spec_bytes(),
            if index < line_end_at(source.spec_bytes(), source_position(source.spec_bytes(), index as int)) {
                index as int
            } else {
                line_end_at(source.spec_bytes(), source_position(source.spec_bytes(), index as int))
            },
        ),
    ensures
        ({
            let b = source.spec_bytes();
            let p = source_position(b, index as int);
            let start = line_start_at(b, p);
            let end = line_end_at(b, p);
            let stop = if index < end {
                index as int
            } else {
                end
            };
            &&& position.0 == newlines_before(b, start)
            &&& position.1 == chars_starting_in(b, start, stop)
        }),
{
    let range = source_line_range(source, index);
    let bytes = source.as_bytes();
    let ghost b = source.spec_bytes();
    let mut line: usize = 0;
    let mut k: usize = 0;
    while k < range.start
        invariant
            bytes@ == b,
            k <= range.start <= b.len(),
            line == newlines_before(b, k as int),
            line <= k,
        decreases range.start - k,
    {
        if bytes[k] == 10 {
            line += 1;
        }
        k += 1;
    }
    let stop = if index < range.end {
        index
    } else {
        range.end
    };
    let mut column: usize = 0;
    let mut j = range.start;
    while j < stop
        invariant
            bytes@ == b,
            range.start <= j <= stop <= b.len(),
            column == chars_starting_in(b, range.start as int, j as int),
            column <= j - range.start,
        decreases stop - j,
    {
        let byte = bytes[j];
        if !(0x80 <= byte && byte <= 0xbf) {
            column += 1;
        }
        j += 1;
    }
    (line, column)
}

/// First position in `b[lo..hi]` where the three bytes `marker` occur.
pub open spec fn find_marker(b: Seq<u8>, lo: int, hi: int, marker: Seq<u8>) -> Option<int>
    decreases hi - lo,
{
    if lo + 3 > hi {
        None
    } else if b.subrange(lo, lo + 3) == marker {
        Some(lo)
    } else {
        find_marker(b, lo + 1, hi, marker)
    }
}

/// The task marker `marker` on the line `lo..hi`, when `index` lies in it or at its end.
pub open spec fn marker_hit(b: Seq<u8>, lo: int, hi: int, marker: Seq<u8>, index: int) -> Option<
    Range<usize>,
> {
    match find_marker(b, lo, hi, marker) {
        Some(at) => if at <= index <= at + 3 {
            Some((at as usize)..((at + 3) as usize))
        } else {
            None
        },
        None => None,
    }
}

pub open spec fn unchecked_marker() -> Seq<u8> {
    seq![91u8, 32u8, 93u8]
}

pub open spec fn checked_marker() -> Seq<u8> {
    seq![91u8, 120u8, 93u8]
}

pub open spec fn checked_marker_upper() -> Seq<u8> {
    seq![91u8, 88u8, 93u8]
}

/// The task-list marker (`[ ]`, `[x]` or `[X]`, tried in that order, first
/// occurrence on the line) that the source position `index` touches, with
/// whether it is checked.
pub open spec fn task_marker(b: Seq<u8>, index: int) -> Option<(Range<usize>, bool)> {
    let p = source_position(b, index);
    let lo = line_start_at(b, p);
    let hi = line_end_at(b, p);
    match marker_hit(b, lo, hi, unchecked_marker(), index) {
        Some(r) => Some((r, false)),
        None => match marker_hit(b, lo, hi, checked_marker(), index) {
            Some(r) => Some((r, true)),
            None => match marker_hit(b, lo, hi, checked_marker_upper(), index) {
                Some(r) => Some((r, true)),
                None => None,
            },
        },
    }
}

/// First occurrence of the three-byte marker `marker` in `bytes[lo..hi]`.
fn find_marker_in(bytes: &[u8], lo: usize, hi: usize, marker: [u8; 3]) -> (found: Option<usize>)
    requires
        lo <= hi <= bytes@.len(),
    ensures
        match find_marker(bytes@, lo as int, hi as int, marker@) {
            Some(at) => found == Some(at as usize) && lo <= at && at + 3 <= hi,
            None => found is None,
        },
{
    let mut k = lo;
    while hi - k >= 3
        invariant
            lo <= k <= hi <= bytes@.len(),
            find_marker(bytes@, lo as int, hi as int, marker@) == find_marker(
                bytes@,
                k as int,
                hi as int,
                marker@,
            ),
        decreases hi - k,
    {
        if bytes[k] == marker[0] && bytes[k + 1] == marker[1] && bytes[k + 2] == marker[2] {
            assert(bytes@.subrange(k as int, k + 3) =~= marker@);
            return Some(k);
        }
        assert(bytes@.subrange(k as int, k + 3) != marker@) by {
            if bytes@.subrange(k as int, k + 3) == marker@ {
                assert(bytes@.subrange(k as int, k + 3)[0] == marker@[0]);
                assert(bytes@.subrange(k as int, k + 3)[1] == marker@[1]);
                assert(bytes@.subrange(k as int, k + 3)[2] == marker@[2]);
            }
        }
        k += 1;
    }
    None
}

/// The task-list marker at the source position `index`, with whether it is checked.
pub fn task_marker_at(source: &str, index: usize) -> (marker: Option<(Range<usize>, bool)>)
    ensures
        marker == task_marker(source.spec_bytes(), index as int),
{
    let line = source_line_range(source, index);
    let bytes = source.as_bytes();
    let markers: [([u8; 3], bool); 3] = [([91, 32, 93], false), ([91, 120, 93], true), ([91, 88, 93], true)];
    let ghost b = source.spec_bytes();
    let mut m: usize = 0;
    while m < 3
        invariant
            bytes@ == b,
            b == source.spec_bytes(),
            line.start == line_start_at(b, source_position(b, index as int)),
            line.end == line_end_at(b, source_position(b, index as int)),
            line.start <= line.end <= b.len(),
            markers@ == seq![([91u8, 32u8, 93u8], false), ([91u8, 120u8, 93u8], true), ([91u8, 88u8, 93u8], true)],
            m <= 3,
            forall|i: int| 0 <= i < m ==> marker_hit(b, line.start as int, line.end as int, (#[trigger] markers@[i]).0@, index as int) is None,
        decreases 3 - m,
    {
        let (pattern, checked) = markers[m];
        if let Some(offset) = find_marker_in(bytes, line.start, line.end, pattern) {
            if offset <= index && index <= offset + 3 {
                proof {
                    assert(markers@[0].0@ =~= unchecked_marker());
                    assert(markers@[1].0@ =~= checked_marker());
                    assert(markers@[2].0@ =~= checked_marker_upper());
                    assert(pattern@ == markers@[m as int].0@);
                    assert(marker_hit(b, line.start as int, line.end as int, pattern@, index as int)
                        == Some(offset..(offset + 3) as usize));
                    if m >= 1 {
                        assert(marker_hit(b, line.start as int, line.end as int, markers@[0].0@, index as int) is None);
                    }
                    if m >= 2 {
                        assert(marker_hit(b, line.start as int, line.end as int, markers@[1].0@, index as int) is None);
                    }
                    assert(checked == markers@[m as int].1);
                    let spec = task_marker(b, index as int);
                    assert(line.start == line_start_at(b, source_position(b, index as int)));
                    assert(line.end == line_end_at(b, source_position(b, index as int)));
                    if m == 0 {
                        assert(spec == Some((offset..(offset + 3) as usize, false)));
                    } else if m == 1 {
                        assert(spec == Some((offset..(offset + 3) as usize, true)));
                    } else {
                        assert(spec == Some((offset..(offset + 3) as usize, true)));
                    }
                }
                return Some((offset..offset + 3, checked));
            }
        }
        m += 1;
    }
    proof {
        assert(markers@[0].0@ =~= unchecked_marker());
        assert(markers@[1].0@ =~= checked_marker());
        assert(markers@[2].0@ =~= checked_marker_upper());
    }
    None
}

} // verus!
