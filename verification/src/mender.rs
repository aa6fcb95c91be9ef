use vstd::prelude::*;

use crate::unicode::{
    char_is_alphanumeric, char_is_whitespace, chars_of, is_alphanumeric, is_whitespace, trim_end,
    trim_start, trimmed_end, trimmed_start,
};

verus! {

/// Display-only destination used while a Markdown link URL is incomplete.
pub const PENDING_LINK_URL: &'static str = "hearth:pending-link";

/// Invisible character appended so a partial Setext underline stays literal.
pub const ZERO_WIDTH_SPACE: char = '\u{200B}';

/// An emphasis or strikethrough run that is still open.
#[derive(Clone, Copy, Debug, PartialEq, Eq)]
pub struct OpenDelimiter {
    pub marker: char,
    /// Markers needed to close the run.
    pub owed: usize,
    /// Index of the first character after the opening run.
    pub opened_at: usize,
}

/// A `[` that has not been matched yet.
#[derive(Clone, Copy, Debug, PartialEq, Eq)]
pub struct OpenBracket {
    pub index: usize,
    /// Whether the bracket starts an image (`![`).
    pub image: bool,
}

/// A link or image whose `(destination` is still incomplete.
#[derive(Clone, Copy, Debug, PartialEq, Eq)]
pub struct PendingDestination {
    pub close_bracket: usize,
    pub image: bool,
}

/// A display-only Markdown source plus metadata for synthetic visible text.
#[derive(Debug, PartialEq)]
pub struct MarkdownDisplayRepair {
    pub markdown: String,
    pub synthetic_text_suffix: Option<char>,
}

/// State of the left-to-right scan over the characters of a Markdown tail.
#[verifier::ext_equal]
pub struct ScanState {
    pub index: usize,
    pub delimiters: Seq<OpenDelimiter>,
    pub brackets: Seq<OpenBracket>,
    /// Open code span: its backtick run length and the index of its content.
    pub code: Option<(usize, usize)>,
    /// Index of the last character that counts as content.
    pub last_content: Option<usize>,
    pub pending_url: Option<PendingDestination>,
}

pub open spec fn char_at(t: Seq<char>, i: int) -> Option<char> {
    if 0 <= i < t.len() {
        Some(t[i])
    } else {
        None
    }
}

/// Length of the run of `marker` characters starting at `j`.
pub open spec fn run_from(t: Seq<char>, marker: char, j: int) -> nat
    decreases t.len() - j,
{
    if j < 0 || j >= t.len() || t[j] != marker {
        0
    } else {
        1 + run_from(t, marker, j + 1)
    }
}

/// Length of the run of equal characters starting at `start`.
pub open spec fn run_length(t: Seq<char>, start: int) -> nat {
    run_from(t, t[start], start)
}

/// Number of consecutive backslashes just before `i`.
pub open spec fn backslashes_before(t: Seq<char>, i: int) -> nat
    decreases i,
{
    if 0 < i <= t.len() && t[i - 1] == '\\' {
        1 + backslashes_before(t, i - 1)
    } else {
        0
    }
}

/// Whether the character at `i` follows an odd backslash run.
pub open spec fn is_escaped(t: Seq<char>, i: int) -> bool {
    backslashes_before(t, i) % 2 == 1
}

/// The backslashes counted before `i` are the maximal run of backslashes
/// that ends just before it: every character of `t[i - k..i]` is a
/// backslash, and the one before the run, if any, is not; so a character is
/// escaped exactly when that run has odd length.
pub proof fn lemma_backslash_run(t: Seq<char>, i: int)
    requires
        0 <= i <= t.len(),
    ensures
        backslashes_before(t, i) <= i,
        forall|j: int| i - backslashes_before(t, i) <= j < i ==> t[j] == '\\',
        i - backslashes_before(t, i) == 0 || t[i - backslashes_before(t, i) - 1] != '\\',
        is_escaped(t, i) == (backslashes_before(t, i) % 2 == 1),
    decreases i,
{
    if i > 0 && t[i - 1] == '\\' {
        lemma_backslash_run(t, i - 1);
    }
}

/// Whether the `[` at `bracket` follows an unescaped `!`.
pub open spec fn is_image_bracket(t: Seq<char>, bracket: int) -> bool {
    bracket >= 1 && t[bracket - 1] == '!' && !is_escaped(t, bracket - 1)
}

/// Position of the innermost open run of `marker`.
pub open spec fn marker_position(ds: Seq<OpenDelimiter>, marker: char) -> Option<int>
    decreases ds.len(),
{
    if ds.len() == 0 {
        None
    } else if ds.last().marker == marker {
        Some(ds.len() - 1)
    } else {
        marker_position(ds.drop_last(), marker)
    }
}

proof fn lemma_marker_position(ds: Seq<OpenDelimiter>, marker: char)
    ensures
        marker_position(ds, marker) matches Some(p) ==> 0 <= p < ds.len() && ds[p].marker == marker,
    decreases ds.len(),
{
    if ds.len() > 0 && ds.last().marker != marker {
        lemma_marker_position(ds.drop_last(), marker);
    }
}

/// Open runs and last content after a run of `run` markers at `i`.
pub open spec fn scan_delimiter(
    t: Seq<char>,
    ds: Seq<OpenDelimiter>,
    marker: char,
    run: nat,
    i: nat,
    last: Option<usize>,
) -> (Seq<OpenDelimiter>, Option<usize>) {
    let run_last = Some((i + run - 1) as usize);
    if marker == '~' && run < 2 {
        (ds, run_last)
    } else {
        let before = if i >= 1 {
            Some(t[i - 1])
        } else {
            None
        };
        let after = char_at(t, (i + run) as int);
        let can_close = before matches Some(c) && !is_whitespace(c);
        let can_open = after matches Some(c) && !is_whitespace(c);
        let position = marker_position(ds, marker);
        if can_close && position is Some && (last matches Some(content) && content
            >= ds[position->0].opened_at) {
            let p = position->0;
            let owed = ds[p].owed;
            if run >= owed {
                (ds.take(p), run_last)
            } else {
                (
                    ds.take(p).push(
                        OpenDelimiter { marker: ds[p].marker, owed: (owed - run) as usize, opened_at: ds[p].opened_at },
                    ),
                    run_last,
                )
            }
        } else if marker == '_' && (before matches Some(c) && is_alphanumeric(c)) {
            (ds, run_last)
        } else if can_open {
            (ds.push(OpenDelimiter { marker, owed: run as usize, opened_at: (i + run) as usize }), last)
        } else {
            (ds, run_last)
        }
    }
}

/// The markers that close every open run opened before `limit` and followed
/// by content, innermost first.
pub open spec fn close_delimiters(ds: Seq<OpenDelimiter>, last: Option<usize>, limit: int) -> Seq<
    char,
>
    decreases ds.len(),
{
    if ds.len() == 0 {
        Seq::empty()
    } else {
        let d = ds.last();
        let own = if d.opened_at < limit && (last matches Some(content) && content >= d.opened_at) {
            Seq::new(d.owed as nat, |_j: int| d.marker)
        } else {
            Seq::empty()
        };
        own + close_delimiters(ds.drop_last(), last, limit)
    }
}

/// Index of the `)` that closes a destination scanned from `p` at nesting `depth`.
pub open spec fn closing_paren(t: Seq<char>, p: int, depth: nat) -> Option<int>
    decreases t.len() - p,
{
    if p < 0 || p >= t.len() {
        None
    } else if t[p] == '(' {
        closing_paren(t, p + 1, depth + 1)
    } else if t[p] == ')' {
        if depth == 0 {
            Some(p)
        } else {
            closing_paren(t, p + 1, (depth - 1) as nat)
        }
    } else {
        closing_paren(t, p + 1, depth)
    }
}

/// The runs of `ds` opened before index `k`.
pub open spec fn opened_before(ds: Seq<OpenDelimiter>, k: usize) -> Seq<OpenDelimiter>
    decreases ds.len(),
{
    if ds.len() == 0 {
        ds
    } else {
        let rest = opened_before(ds.drop_last(), k);
        if ds.last().opened_at < k {
            rest.push(ds.last())
        } else {
            rest
        }
    }
}

/// One step of the scan at `st.index`.
pub open spec fn scan_step(t: Seq<char>, st: ScanState) -> ScanState {
    let n = t.len() as int;
    let i = st.index as int;
    let ch = t[i];
    if st.code is None && ch == '\\' {
        ScanState {
            index: if i + 1 < n {
                (i + 2) as usize
            } else {
                n as usize
            },
            last_content: if i + 1 < n {
                Some((i + 1) as usize)
            } else {
                st.last_content
            },
            ..st
        }
    } else if ch == '`' {
        let run = run_length(t, i);
        let end = (i + run) as usize;
        let tick_last = Some((i + run - 1) as usize);
        match st.code {
            Some(open) => if open.0 == run {
                ScanState { code: None, last_content: tick_last, index: end, ..st }
            } else {
                ScanState { last_content: tick_last, index: end, ..st }
            },
            None => ScanState { code: Some((run as usize, end)), index: end, ..st },
        }
    } else if st.code is Some {
        ScanState { last_content: Some(i as usize), index: (i + 1) as usize, ..st }
    } else if ch == '*' || ch == '_' || ch == '~' {
        let run = run_length(t, i);
        let scanned = scan_delimiter(t, st.delimiters, ch, run, i as nat, st.last_content);
        ScanState {
            delimiters: scanned.0,
            last_content: scanned.1,
            index: (i + run) as usize,
            ..st
        }
    } else if ch == '[' {
        ScanState {
            brackets: st.brackets.push(OpenBracket { index: i as usize, image: is_image_bracket(t, i) }),
            index: (i + 1) as usize,
            ..st
        }
    } else if ch == ']' {
        if st.brackets.len() > 0 {
            let open = st.brackets.last();
            let brackets = st.brackets.drop_last();
            let delimiters = opened_before(st.delimiters, open.index);
            if char_at(t, i + 1) == Some('(') {
                match closing_paren(t, i + 2, 0) {
                    None => ScanState {
                        brackets,
                        delimiters,
                        pending_url: Some(
                            PendingDestination { close_bracket: i as usize, image: open.image },
                        ),
                        index: n as usize,
                        ..st
                    },
                    Some(close) => ScanState {
                        brackets,
                        delimiters,
                        last_content: Some(close as usize),
                        index: (close + 1) as usize,
                        ..st
                    },
                }
            } else {
                ScanState {
                    brackets,
                    delimiters,
                    last_content: Some(i as usize),
                    index: (i + 1) as usize,
                    ..st
                }
            }
        } else {
            ScanState { last_content: Some(i as usize), index: (i + 1) as usize, ..st }
        }
    } else if is_whitespace(ch) {
        ScanState { index: (i + 1) as usize, ..st }
    } else {
        ScanState { last_content: Some(i as usize), index: (i + 1) as usize, ..st }
    }
}

/// The scan from `st` to the end of `t`.
pub open spec fn scan_from(t: Seq<char>, st: ScanState) -> ScanState
    decreases t.len() - st.index,
{
    if st.index >= t.len() {
        st
    } else {
        let next = scan_step(t, st);
        if st.index < next.index <= t.len() {
            scan_from(t, next)
        } else {
            st
        }
    }
}

pub open spec fn initial_scan() -> ScanState {
    ScanState {
        index: 0,
        delimiters: Seq::empty(),
        brackets: Seq::empty(),
        code: None,
        last_content: None,
        pending_url: None,
    }
}

/// Index of the last `'\n'` before `end`, or -1.
pub open spec fn last_newline_before(t: Seq<char>, end: int) -> int
    decreases end,
{
    if end <= 0 || end > t.len() {
        -1
    } else if t[end - 1] == '\n' {
        end - 1
    } else {
        last_newline_before(t, end - 1)
    }
}

pub open spec fn all_equal_to(s: Seq<char>, c: char) -> bool {
    forall|j: int| 0 <= j < s.len() ==> s[j] == c
}

/// Whether the last line of `t` is a partial Setext underline (only `-` or
/// only `=`) below a line of ordinary paragraph text.
pub open spec fn needs_setext_guard(t: Seq<char>) -> bool {
    if t.len() > 0 && t.last() == '\n' {
        false
    } else {
        let k = last_newline_before(t, t.len() as int);
        let underline = trim_end(t.skip(k + 1));
        if underline.len() == 0 || !(all_equal_to(underline, '-') || all_equal_to(underline, '=')) {
            false
        } else if k < 0 {
            false
        } else {
            let previous = trim_start(trim_end(t.subrange(last_newline_before(t, k) + 1, k)));
            previous.len() > 0 && !(previous[0] == '-' || previous[0] == '=' || previous[0] == '#'
                || previous[0] == '>' || previous[0] == '`')
        }
    }
}

/// The pieces of `t` between its newlines, in order (one more than there
/// are newlines).
pub open spec fn newline_pieces(t: Seq<char>) -> Seq<Seq<char>>
    decreases t.len(),
{
    let k = last_newline_before(t, t.len() as int);
    if k < 0 {
        seq![t]
    } else {
        proof {
            lemma_last_newline_bounds(t, t.len() as int);
        }
        newline_pieces(t.take(k)).push(t.skip(k + 1))
    }
}

/// A line without the carriage return of a `\r\n` ending.
pub open spec fn without_cr(line: Seq<char>) -> Seq<char> {
    if line.len() > 0 && line.last() == '\r' {
        line.drop_last()
    } else {
        line
    }
}

/// The lines of `t` as `str::lines` yields them: split at `\n` or `\r\n`,
/// the terminators left out, and no final empty line after a final line
/// ending.
pub open spec fn lines_of(t: Seq<char>) -> Seq<Seq<char>> {
    let pieces = newline_pieces(t).map_values(|p: Seq<char>| without_cr(p));
    if t.len() == 0 {
        Seq::empty()
    } else if t.last() == '\n' {
        pieces.drop_last()
    } else {
        pieces
    }
}

/// The last newline before `end` comes before it, and is a newline of `t`
/// when there is one.
pub proof fn lemma_last_newline_bounds(t: Seq<char>, end: int)
    requires
        0 <= end,
    ensures
        last_newline_before(t, end) < end,
        last_newline_before(t, end) >= 0 ==> 0 <= last_newline_before(t, end) < t.len() && t[last_newline_before(
            t,
            end,
        )] == '\n',
        last_newline_before(t, end) >= -1,
    decreases end,
{
    if !(end <= 0 || end > t.len()) && t[end - 1] != '\n' {
        lemma_last_newline_bounds(t, end - 1);
    }
}

proof fn lemma_last_newline_of_prefix(t: Seq<char>, k: int, end: int)
    requires
        0 <= end <= k <= t.len(),
    ensures
        last_newline_before(t.take(k), end) == last_newline_before(t, end),
    decreases end,
{
    if end > 0 && t[end - 1] != '\n' {
        lemma_last_newline_of_prefix(t, k, end - 1);
    }
}

proof fn lemma_trim_end_without_cr(line: Seq<char>)
    ensures
        trim_end(without_cr(line)) == trim_end(line),
{
}

/// The Setext guard test read over lines: the text does not end with a
/// newline, its last line without trailing whitespace is non-empty and all
/// `-` or all `=`, and there is a line before it whose trimmed text is
/// non-empty and does not start with `-`, `=`, `#`, `>` or a backtick.
pub proof fn lemma_setext_guard_over_lines(t: Seq<char>)
    ensures
        needs_setext_guard(t) == ({
            let lines = lines_of(t);
            &&& !(t.len() > 0 && t.last() == '\n')
            &&& lines.len() >= 1
            &&& trim_end(lines.last()).len() > 0
            &&& (all_equal_to(trim_end(lines.last()), '-') || all_equal_to(trim_end(lines.last()), '='))
            &&& lines.len() >= 2
            &&& trim_start(trim_end(lines[lines.len() - 2])).len() > 0
            &&& !(trim_start(trim_end(lines[lines.len() - 2]))[0] == '-' || trim_start(
                trim_end(lines[lines.len() - 2]),
            )[0] == '=' || trim_start(trim_end(lines[lines.len() - 2]))[0] == '#' || trim_start(
                trim_end(lines[lines.len() - 2]),
            )[0] == '>' || trim_start(trim_end(lines[lines.len() - 2]))[0] == '`')
        }),
{
    if t.len() > 0 && t.last() != '\n' {
        let n = t.len() as int;
        let k = last_newline_before(t, n);
        lemma_last_newline_bounds(t, n);
        let pieces = newline_pieces(t);
        let lines = lines_of(t);
        assert(lines == pieces.map_values(|p: Seq<char>| without_cr(p)));
        if k < 0 {
            assert(t.skip(0) =~= t);
            assert(pieces == seq![t]);
            assert(lines.last() == without_cr(t));
            lemma_trim_end_without_cr(t);
        } else {
            let front = t.take(k);
            assert(pieces == newline_pieces(front).push(t.skip(k + 1)));
            assert(lines.last() == without_cr(t.skip(k + 1)));
            lemma_trim_end_without_cr(t.skip(k + 1));
            lemma_last_newline_of_prefix(t, k, k);
            lemma_last_newline_bounds(t, k);
            let k2 = last_newline_before(t, k);
            assert(front.len() == k);
            assert(last_newline_before(front, k) == k2);
            let fp = newline_pieces(front);
            if k2 < 0 {
                assert(front.skip(0) =~= front);
                assert(fp == seq![front]);
                assert(t.subrange(k2 + 1, k) =~= front);
            } else {
                assert(fp == newline_pieces(front.take(k2)).push(front.skip(k2 + 1)));
                assert(front.skip(k2 + 1) =~= t.subrange(k2 + 1, k));
            }
            assert(fp.last() == t.subrange(k2 + 1, k));
            assert(pieces.len() >= 2);
            assert(pieces[pieces.len() - 2] == fp.last());
            assert(lines[lines.len() - 2] == without_cr(t.subrange(k2 + 1, k)));
            lemma_trim_end_without_cr(t.subrange(k2 + 1, k));
        }
    } else if t.len() == 0 {
        assert(t.skip(0) =~= t);
        assert(trim_end(t) == t);
    }
}

/// The text appended to close an incomplete link destination.
pub open spec fn pending_link_tail() -> Seq<char> {
    seq![']', '('] + PENDING_LINK_URL@ + seq![')']
}

/// Index just after the last content character, or the length of `t`.
pub open spec fn content_end(t: Seq<char>, st: ScanState) -> int {
    match st.last_content {
        Some(ix) => ix + 1,
        None => t.len() as int,
    }
}

/// The display repair of a Markdown tail `t`: the repaired Markdown and its
/// synthetic visible suffix, or `None` when the tail must stay as it is.
pub open spec fn display_repair(t: Seq<char>) -> Option<(Seq<char>, Option<char>)> {
    let st = scan_from(t, initial_scan());
    let ce = content_end(t, st);
    match st.pending_url {
        Some(destination) => if destination.image {
            None
        } else {
            let cut = destination.close_bracket as int;
            let m = if ce < cut {
                ce
            } else {
                cut
            };
            let closers = close_delimiters(st.delimiters, st.last_content, cut);
            Some((t.take(m) + closers + t.subrange(m, cut) + pending_link_tail(), None))
        },
        None => {
            let ticks = match st.code {
                Some(code) => if st.last_content matches Some(c) && c >= code.1 {
                    Seq::new(code.0 as nat, |_j: int| '`')
                } else {
                    Seq::empty()
                },
                None => Seq::empty(),
            };
            let markers = ticks + close_delimiters(st.delimiters, st.last_content, t.len() as int);
            let bracket_open = st.brackets.len() > 0 && (st.last_content matches Some(c) && c
                > st.brackets.last().index);
            if bracket_open && st.brackets.last().image {
                None
            } else {
                let closers = if bracket_open {
                    markers + pending_link_tail()
                } else {
                    markers
                };
                let guard = needs_setext_guard(t);
                if closers.len() == 0 && !guard {
                    None
                } else {
                    let suffix = if guard {
                        seq![ZERO_WIDTH_SPACE]
                    } else {
                        Seq::empty()
                    };
                    Some(
                        (
                            t.take(ce) + closers + t.skip(ce) + suffix,
                            if guard {
                                Some(ZERO_WIDTH_SPACE)
                            } else {
                                None
                            },
                        ),
                    )
                }
            }
        },
    }
}


/// Return whether `[` at `bracket` is preceded by an unescaped image marker.
fn is_image_bracket_at(chars: &Vec<char>, bracket: usize) -> (image: bool)
    requires
        bracket < chars@.len(),
    ensures
        image == is_image_bracket(chars@, bracket as int),
{
    if bracket == 0 {
        return false;
    }
    let bang = bracket - 1;
    chars[bang] == '!' && !is_escaped_at(chars, bang)
}

/// Return whether the character at `index` follows an odd backslash run.
fn is_escaped_at(chars: &Vec<char>, index: usize) -> (escaped: bool)
    requires
        index <= chars@.len(),
    ensures
        escaped == is_escaped(chars@, index as int),
{
    let mut cursor = index;
    let mut backslashes: usize = 0;
    while cursor > 0 && chars[cursor - 1] == '\\'
        invariant
            cursor <= index <= chars@.len(),
            backslashes == index - cursor,
            backslashes_before(chars@, index as int) == backslashes + backslashes_before(
                chars@,
                cursor as int,
            ),
        decreases cursor,
    {
        cursor -= 1;
        backslashes += 1;
    }
    backslashes % 2 == 1
}

/// Length of the run of equal characters starting at `start`.
fn run_length_at(chars: &Vec<char>, start: usize) -> (run: usize)
    requires
        start < chars@.len(),
    ensures
        run == run_length(chars@, start as int),
        1 <= run,
        start + run <= chars@.len(),
{
    let marker = chars[start];
    let mut end = start;
    while end < chars.len() && chars[end] == marker
        invariant
            start <= end <= chars@.len(),
            marker == chars@[start as int],
            end == start || chars@[start as int] == marker,
            run_from(chars@, marker, start as int) == (end - start) + run_from(
                chars@,
                marker,
                end as int,
            ),
        decreases chars.len() - end,
    {
        end += 1;
    }
    end - start
}

/// Position of the innermost open run of `marker`.
fn marker_position_in(delimiters: &Vec<OpenDelimiter>, marker: char) -> (position: Option<usize>)
    ensures
        match marker_position(delimiters@, marker) {
            Some(p) => position == Some(p as usize),
            None => position is None,
        },
        position matches Some(p) ==> p < delimiters@.len(),
{
    let mut k = delimiters.len();
    proof {
        lemma_marker_position(delimiters@, marker);
    }
    assert(delimiters@.take(k as int) =~= delimiters@);
    while k > 0
        invariant
            k <= delimiters@.len(),
            marker_position(delimiters@, marker) == marker_position(delimiters@.take(k as int), marker),
        decreases k,
    {
        proof {
            assert(delimiters@.take(k as int).drop_last() == delimiters@.take(k - 1));
            lemma_marker_position(delimiters@.take(k as int), marker);
        }
        if delimiters[k - 1].marker == marker {
            return Some(k - 1);
        }
        k -= 1;
    }
    None
}

/// Update the open runs and the last content for a run of `run` markers at `index`.
fn scan_delimiter_at(
    delimiters: &mut Vec<OpenDelimiter>,
    chars: &Vec<char>,
    marker: char,
    run: usize,
    index: usize,
    last_content: &mut Option<usize>,
)
    requires
        1 <= run,
        index + run <= chars@.len(),
    ensures
        (final(delimiters)@, *final(last_content)) == scan_delimiter(
            chars@,
            old(delimiters)@,
            marker,
            run as nat,
            index as nat,
            *old(last_content),
        ),
{
    let len = chars.len();
    if marker == '~' && run < 2 {
        *last_content = Some(index + run - 1);
        return;
    }
    let before = if index >= 1 {
        Some(chars[index - 1])
    } else {
        None
    };
    let after = if index + run < len {
        Some(chars[index + run])
    } else {
        None
    };
    let can_close = match before {
        Some(ch) => !char_is_whitespace(ch),
        None => false,
    };
    let can_open = match after {
        Some(ch) => !char_is_whitespace(ch),
        None => false,
    };
    let open_count = delimiters.len();
    proof {
        lemma_marker_position(old(delimiters)@, marker);
    }
    let position = if can_close {
        marker_position_in(delimiters, marker)
    } else {
        None
    };
    let closes = match position {
        Some(p) => match *last_content {
            Some(content) => content >= delimiters[p].opened_at,
            None => false,
        },
        None => false,
    };
    let ghost spec_position = marker_position(old(delimiters)@, marker);
    assert(can_close ==> (position is Some <==> spec_position is Some));
    assert(position is Some ==> position.unwrap() == spec_position->0);
    assert(position is Some ==> delimiters@[position.unwrap() as int] == old(delimiters)@[spec_position->0]);
    assert(closes ==> can_close);
    assert(closes ==> spec_position is Some);
    assert(closes == (can_close && spec_position is Some && (*old(last_content) matches Some(content)
        && content >= old(delimiters)@[spec_position->0].opened_at)));
    if closes {
        let p = position.unwrap();
        let owed = delimiters[p].owed;
        if run >= owed {
            delimiters.truncate(p);
        } else {
            let open = delimiters[p];
            delimiters.truncate(p);
            delimiters.push(OpenDelimiter { marker: open.marker, owed: owed - run, opened_at: open.opened_at });
        }
        *last_content = Some(index + run - 1);
    } else if marker == '_' && match before {
        Some(ch) => char_is_alphanumeric(ch),
        None => false,
    } {
        *last_content = Some(index + run - 1);
    } else if can_open {
        delimiters.push(OpenDelimiter { marker, owed: run, opened_at: index + run });
    } else {
        *last_content = Some(index + run - 1);
    }
}

/// Append the markers that close the open runs before `limit`, innermost first.
fn close_delimiters_into(
    output: &mut String,
    delimiters: &Vec<OpenDelimiter>,
    last_content: Option<usize>,
    limit: usize,
)
    ensures
        final(output)@ == old(output)@ + close_delimiters(delimiters@, last_content, limit as int),
{
    let mut k = delimiters.len();
    assert(delimiters@.take(k as int) =~= delimiters@);
    while k > 0
        invariant
            k <= delimiters@.len(),
            output@ + close_delimiters(delimiters@.take(k as int), last_content, limit as int)
                == old(output)@ + close_delimiters(delimiters@, last_content, limit as int),
        decreases k,
    {
        let delimiter = delimiters[k - 1];
        let ghost prefix = delimiters@.take(k as int);
        let ghost before = output@;
        assert(prefix.drop_last() =~= delimiters@.take(k - 1));
        assert(prefix.last() == delimiter);
        let owes = delimiter.opened_at < limit && match last_content {
            Some(content) => content >= delimiter.opened_at,
            None => false,
        };
        if owes {
            let mut j: usize = 0;
            while j < delimiter.owed
                invariant
                    j <= delimiter.owed,
                    output@ == before + Seq::new(j as nat, |_i: int| delimiter.marker),
                decreases delimiter.owed - j,
            {
                output.push(delimiter.marker);
                j += 1;
                assert(output@ =~= before + Seq::new(j as nat, |_i: int| delimiter.marker));
            }
            assert(output@ + close_delimiters(delimiters@.take(k - 1), last_content, limit as int)
                =~= before + close_delimiters(prefix, last_content, limit as int));
        } else {
            assert(close_delimiters(prefix, last_content, limit as int) =~= close_delimiters(
                delimiters@.take(k - 1),
                last_content,
                limit as int,
            ));
        }
        k -= 1;
    }
    assert(delimiters@.take(0) =~= Seq::<OpenDelimiter>::empty());
    assert(output@ =~= output@ + close_delimiters(delimiters@.take(0), last_content, limit as int));
}

/// Keep only the runs opened before index `k`.
fn retain_opened_before(delimiters: &mut Vec<OpenDelimiter>, k: usize)
    ensures
        final(delimiters)@ == opened_before(old(delimiters)@, k),
{
    let mut kept: Vec<OpenDelimiter> = Vec::new();
    let mut j: usize = 0;
    assert(delimiters@.take(0) =~= Seq::<OpenDelimiter>::empty());
    while j < delimiters.len()
        invariant
            j <= delimiters@.len(),
            delimiters@ == old(delimiters)@,
            kept@ == opened_before(delimiters@.take(j as int), k),
        decreases delimiters.len() - j,
    {
        let delimiter = delimiters[j];
        assert(delimiters@.take(j + 1).drop_last() =~= delimiters@.take(j as int));
        if delimiter.opened_at < k {
            kept.push(delimiter);
        }
        j += 1;
    }
    assert(delimiters@.take(j as int) =~= delimiters@);
    *delimiters = kept;
}

/// Index of the last `'\n'` before `end`.
fn last_newline(chars: &Vec<char>, end: usize) -> (k: Option<usize>)
    requires
        end <= chars@.len(),
    ensures
        match k {
            Some(k) => last_newline_before(chars@, end as int) == k && k < end,
            None => last_newline_before(chars@, end as int) == -1,
        },
{
    let mut e = end;
    while e > 0
        invariant
            e <= end <= chars@.len(),
            last_newline_before(chars@, end as int) == last_newline_before(chars@, e as int),
        decreases e,
    {
        if chars[e - 1] == '\n' {
            return Some(e - 1);
        }
        e -= 1;
    }
    None
}

/// Detect a partial Setext underline below ordinary paragraph text.
fn needs_setext_guard_in(chars: &Vec<char>) -> (guard: bool)
    ensures
        guard == needs_setext_guard(chars@),
{
    let n = chars.len();
    if n > 0 && chars[n - 1] == '\n' {
        return false;
    }
    let k = last_newline(chars, n);
    let line_start = match k {
        Some(k) => k + 1,
        None => 0,
    };
    assert(chars@.skip(line_start as int) =~= chars@.subrange(line_start as int, n as int));
    let line_end = trimmed_end(chars, line_start, n);
    let ghost underline = chars@.subrange(line_start as int, line_end as int);
    assert(underline == trim_end(chars@.skip(last_newline_before(chars@, n as int) + 1)));
    if line_end == line_start {
        assert(underline.len() == 0);
        return false;
    }
    let first = chars[line_start];
    assert(underline[0] == first);
    if first != '-' && first != '=' {
        assert(!all_equal_to(underline, '-'));
        assert(!all_equal_to(underline, '='));
        return false;
    }
    let mut uniform = true;
    let mut j = line_start;
    while j < line_end
        invariant
            line_start <= j <= line_end <= n == chars@.len(),
            first == chars@[line_start as int],
            uniform == (forall|i: int| line_start <= i < j ==> chars@[i] == first),
        decreases line_end - j,
    {
        if chars[j] != first {
            uniform = false;
        }
        j += 1;
    }
    proof {
        if uniform {
            assert(all_equal_to(underline, first));
        } else {
            let i = choose|i: int| line_start <= i < line_end && chars@[i] != first;
            assert(underline[i - line_start] != underline[0]);
        }
    }
    if !uniform {
        return false;
    }
    match k {
        None => false,
        Some(k) => {
            let k2 = last_newline(chars, k);
            let previous_start = match k2 {
                Some(k2) => k2 + 1,
                None => 0,
            };
            let previous_end = trimmed_end(chars, previous_start, k);
            let previous_first = trimmed_start(chars, previous_start, previous_end);
            if previous_first == previous_end {
                return false;
            }
            let c = chars[previous_first];
            !(c == '-' || c == '=' || c == '#' || c == '>' || c == '`')
        },
    }
}

/// The emphasis markers whose runs the scan keeps open.
pub open spec fn is_emphasis_marker(c: char) -> bool {
    c == '*' || c == '_' || c == '~'
}

/// Characters that a repair inserts to close emphasis and code spans.
pub open spec fn is_closing_marker(c: char) -> bool {
    is_emphasis_marker(c) || c == '`'
}

pub open spec fn only_closing_markers(s: Seq<char>) -> bool {
    forall|j: int| 0 <= j < s.len() ==> is_closing_marker(#[trigger] s[j])
}

/// Synthetic text a repair may insert: closing markers, optionally followed
/// by the pending-link tail.
pub open spec fn is_synthetic_closer(s: Seq<char>) -> bool {
    ||| only_closing_markers(s)
    ||| exists|markers: Seq<char>| only_closing_markers(markers) && s == markers + pending_link_tail()
}

/// Invariant of the scan state over a text of length `n`.
pub open spec fn scan_state_ok(t: Seq<char>, st: ScanState) -> bool {
    &&& forall|j: int| 0 <= j < st.delimiters.len() ==> is_emphasis_marker(#[trigger] st.delimiters[j].marker)
    &&& st.last_content matches Some(c) ==> c < t.len()
    &&& st.pending_url matches Some(d) ==> d.close_bracket < t.len() && t[d.close_bracket as int] == ']'
}

proof fn lemma_run_from_bound(t: Seq<char>, marker: char, j: int)
    requires
        0 <= j,
    ensures
        j + run_from(t, marker, j) <= if j <= t.len() { t.len() as int } else { j },
    decreases t.len() - j,
{
    if j < t.len() && t[j] == marker {
        lemma_run_from_bound(t, marker, j + 1);
    }
}

proof fn lemma_closing_paren_bound(t: Seq<char>, p: int, depth: nat)
    ensures
        closing_paren(t, p, depth) matches Some(c) ==> p <= c < t.len(),
    decreases t.len() - p,
{
    if 0 <= p < t.len() {
        if t[p] == '(' {
            lemma_closing_paren_bound(t, p + 1, depth + 1);
        } else if t[p] == ')' {
            if depth != 0 {
                lemma_closing_paren_bound(t, p + 1, (depth - 1) as nat);
            }
        } else {
            lemma_closing_paren_bound(t, p + 1, depth);
        }
    }
}

proof fn lemma_opened_before_markers(ds: Seq<OpenDelimiter>, k: usize)
    requires
        forall|j: int| 0 <= j < ds.len() ==> is_emphasis_marker(#[trigger] ds[j].marker),
    ensures
        forall|j: int|
            0 <= j < opened_before(ds, k).len() ==> is_emphasis_marker(
                #[trigger] opened_before(ds, k)[j].marker,
            ),
    decreases ds.len(),
{
    if ds.len() > 0 {
        let rest = ds.drop_last();
        assert forall|j: int| 0 <= j < rest.len() implies is_emphasis_marker(
            #[trigger] rest[j].marker,
        ) by {
            assert(rest[j] == ds[j]);
        }
        lemma_opened_before_markers(rest, k);
        assert(is_emphasis_marker(ds[ds.len() - 1].marker));
        let kept = opened_before(rest, k);
        if ds.last().opened_at < k {
            assert forall|j: int|
                0 <= j < kept.push(ds.last()).len() implies is_emphasis_marker(
                #[trigger] kept.push(ds.last())[j].marker,
            ) by {
                if j < kept.len() {
                    assert(kept.push(ds.last())[j] == kept[j]);
                }
            }
        }
    }
}

proof fn lemma_scan_step_ok(t: Seq<char>, st: ScanState)
    requires
        t.len() <= usize::MAX,
        st.index < t.len(),
        scan_state_ok(t, st),
    ensures
        scan_state_ok(t, scan_step(t, st)),
        st.index < scan_step(t, st).index <= t.len(),
{
    let n = t.len() as int;
    let i = st.index as int;
    let ch = t[i];
    lemma_run_from_bound(t, ch, i);
    assert(run_from(t, ch, i) == 1 + run_from(t, ch, i + 1));
    if st.code is None && ch == '\\' {
    } else if ch == '`' {
    } else if st.code is Some {
    } else if ch == '*' || ch == '_' || ch == '~' {
        let run = run_length(t, i);
        lemma_marker_position(st.delimiters, ch);
        let next = scan_step(t, st);
        assert forall|j: int| 0 <= j < next.delimiters.len() implies is_emphasis_marker(
            #[trigger] next.delimiters[j].marker,
        ) by {
            let position = marker_position(st.delimiters, ch);
            if position is Some && j == position->0 {
            } else {
            }
        }
    } else if ch == '[' {
    } else if ch == ']' {
        if st.brackets.len() > 0 {
            let open = st.brackets.last();
            lemma_opened_before_markers(st.delimiters, open.index);
            lemma_closing_paren_bound(t, i + 2, 0);
        }
    }
}

proof fn lemma_scan_from_ok(t: Seq<char>, st: ScanState)
    requires
        t.len() <= usize::MAX,
        scan_state_ok(t, st),
    ensures
        scan_state_ok(t, scan_from(t, st)),
    decreases t.len() - st.index,
{
    if st.index < t.len() {
        lemma_scan_step_ok(t, st);
        lemma_scan_from_ok(t, scan_step(t, st));
    }
}

proof fn lemma_close_delimiters_markers(ds: Seq<OpenDelimiter>, last: Option<usize>, limit: int)
    requires
        forall|j: int| 0 <= j < ds.len() ==> is_emphasis_marker(#[trigger] ds[j].marker),
    ensures
        only_closing_markers(close_delimiters(ds, last, limit)),
    decreases ds.len(),
{
    if ds.len() > 0 {
        let rest = ds.drop_last();
        assert forall|j: int| 0 <= j < rest.len() implies is_emphasis_marker(
            #[trigger] rest[j].marker,
        ) by {
            assert(rest[j] == ds[j]);
        }
        lemma_close_delimiters_markers(rest, last, limit);
        assert(is_emphasis_marker(ds[ds.len() - 1].marker));
    }
}

/// A display repair only inserts synthetic closing text into the tail: the
/// tail's characters stay in order, and the only text it drops is the
/// unfinished destination after the `]` of an incomplete link. A synthetic
/// suffix is reported exactly when a zero-width space was appended.
pub proof fn lemma_repair_only_inserts(t: Seq<char>)
    requires
        t.len() <= usize::MAX,
    ensures
        display_repair(t) matches Some(r) ==> exists|p: int, q: int, inserted: Seq<char>|
            #![trigger t.subrange(p, q), inserted.len()]
            0 <= p <= q <= t.len() && is_synthetic_closer(inserted) && {
                ||| q == t.len() && r.1 is None && r.0 == t.take(p) + inserted + t.skip(p)
                ||| q == t.len() && r.1 == Some(ZERO_WIDTH_SPACE) && r.0 == t.take(p) + inserted
                    + t.skip(p) + seq![ZERO_WIDTH_SPACE]
                ||| q < t.len() && t[q] == ']' && r.1 is None && only_closing_markers(inserted)
                    && r.0 == t.take(p) + inserted + t.subrange(p, q) + pending_link_tail()
            },
{
    let st = scan_from(t, initial_scan());
    lemma_scan_from_ok(t, initial_scan());
    let n = t.len() as int;
    let ce = content_end(t, st);
    assert(0 <= ce <= n);
    match st.pending_url {
        Some(destination) => {
            if !destination.image {
                let cut = destination.close_bracket as int;
                let m = if ce < cut {
                    ce
                } else {
                    cut
                };
                let closers = close_delimiters(st.delimiters, st.last_content, cut);
                lemma_close_delimiters_markers(st.delimiters, st.last_content, cut);
                let r = display_repair(t).unwrap();
                assert(r.0 == t.take(m) + closers + t.subrange(m, cut) + pending_link_tail());
                assert(is_synthetic_closer(closers));
                assert(0 <= m <= cut <= n && is_synthetic_closer(closers) && cut < n && t[cut] == ']'
                    && r.1 is None && only_closing_markers(closers) && r.0 == t.take(m) + closers
                    + t.subrange(m, cut) + pending_link_tail());
            }
        },
        None => {
            lemma_close_delimiters_markers(st.delimiters, st.last_content, n);
            let ticks: Seq<char> = match st.code {
                Some(code) => if st.last_content matches Some(c) && c >= code.1 {
                    Seq::new(code.0 as nat, |_j: int| '`')
                } else {
                    Seq::empty()
                },
                None => Seq::empty(),
            };
            let delims = close_delimiters(st.delimiters, st.last_content, n);
            let markers = ticks + delims;
            assert(only_closing_markers(markers)) by {
                assert forall|j: int| 0 <= j < markers.len() implies is_closing_marker(
                    #[trigger] markers[j],
                ) by {
                    if j < ticks.len() {
                        assert(markers[j] == ticks[j]);
                    } else {
                        assert(markers[j] == delims[j - ticks.len()]);
                    }
                }
            }
            let bracket_open = st.brackets.len() > 0 && (st.last_content matches Some(c) && c
                > st.brackets.last().index);
            let closers = if bracket_open {
                markers + pending_link_tail()
            } else {
                markers
            };
            assert(is_synthetic_closer(closers));
            if display_repair(t) is Some {
                let r = display_repair(t).unwrap();
                let guard = needs_setext_guard(t);
                if guard {
                    assert(r.0 == t.take(ce) + closers + t.skip(ce) + seq![ZERO_WIDTH_SPACE]);
                    assert(0 <= ce <= n <= n && t.subrange(ce, n) == t.subrange(ce, n)
                        && closers.len() == closers.len());
                } else {
                    assert(r.0 == t.take(ce) + closers + t.skip(ce));
                    assert(0 <= ce <= n <= n && t.subrange(ce, n) == t.subrange(ce, n)
                        && closers.len() == closers.len());
                }
            }
        },
    }
}

/// Close incomplete inline Markdown markers for a display-only tail parse.
///
/// Returns `None` when the tail needs no repair, and when an image is still
/// incomplete: images stay literal until their destination is complete.
pub fn close_hanging_markdown(text: &str) -> (repair: Option<MarkdownDisplayRepair>)
    ensures
        match display_repair(text@) {
            Some(expected) => repair matches Some(r) && r.markdown@ == expected.0
                && r.synthetic_text_suffix == expected.1,
            None => repair is None,
        },
{
    let chars = chars_of(text);
    let n = chars.len();
    let ghost t = chars@;
    let mut delimiters: Vec<OpenDelimiter> = Vec::new();
    let mut brackets: Vec<OpenBracket> = Vec::new();
    let mut code: Option<(usize, usize)> = None;
    let mut last_content: Option<usize> = None;
    let mut pending_url: Option<PendingDestination> = None;
    let mut index: usize = 0;
    assert(ScanState { index, delimiters: delimiters@, brackets: brackets@, code, last_content, pending_url } =~= initial_scan());

    while index < n
        invariant
            t == chars@,
            t == text@,
            n == t.len(),
            index <= n,
            last_content matches Some(c) ==> c < n,
            pending_url matches Some(d) ==> d.close_bracket < n,
            pending_url is Some ==> index == n,
            scan_from(
                t,
                ScanState { index, delimiters: delimiters@, brackets: brackets@, code, last_content, pending_url },
            ) == scan_from(t, initial_scan()),
        decreases n - index,
    {
        let ghost before = ScanState {
            index,
            delimiters: delimiters@,
            brackets: brackets@,
            code,
            last_content,
            pending_url,
        };
        let ch = chars[index];
        if code.is_none() && ch == '\\' {
            if index + 1 < n {
                last_content = Some(index + 1);
                index = index + 2;
            } else {
                index = n;
            }
        } else if ch == '`' {
            let run = run_length_at(&chars, index);
            match code {
                Some(open) => {
                    if open.0 == run {
                        code = None;
                    }
                    last_content = Some(index + run - 1);
                },
                None => {
                    code = Some((run, index + run));
                },
            }
            index = index + run;
        } else if code.is_some() {
            last_content = Some(index);
            index = index + 1;
        } else if ch == '*' || ch == '_' || ch == '~' {
            let run = run_length_at(&chars, index);
            scan_delimiter_at(&mut delimiters, &chars, ch, run, index, &mut last_content);
            index = index + run;
        } else if ch == '[' {
            let image = is_image_bracket_at(&chars, index);
            brackets.push(OpenBracket { index, image });
            index = index + 1;
        } else if ch == ']' {
            match brackets.pop() {
                Some(open) => {
                    retain_opened_before(&mut delimiters, open.index);
                    if index + 1 < n && chars[index + 1] == '(' {
                        let mut scan = index + 2;
                        let mut depth: usize = 0;
                        let mut found: Option<usize> = None;
                        while scan < n && found.is_none()
                            invariant
                                t == chars@,
                                n == t.len(),
                                index + 2 <= scan <= n,
                                depth <= scan,
                                found is None ==> closing_paren(t, index + 2, 0) == closing_paren(
                                    t,
                                    scan as int,
                                    depth as nat,
                                ),
                                found matches Some(close) ==> closing_paren(t, index + 2, 0) == Some(
                                    close as int,
                                ) && index + 2 <= close < n,
                            decreases n - scan,
                        {
                            let c = chars[scan];
                            if c == '(' {
                                depth = depth + 1;
                                scan = scan + 1;
                            } else if c == ')' {
                                if depth == 0 {
                                    found = Some(scan);
                                    scan = scan + 1;
                                } else {
                                    depth = depth - 1;
                                    scan = scan + 1;
                                }
                            } else {
                                scan = scan + 1;
                            }
                        }
                        match found {
                            Some(close) => {
                                last_content = Some(close);
                                index = close + 1;
                            },
                            None => {
                                pending_url = Some(
                                    PendingDestination { close_bracket: index, image: open.image },
                                );
                                index = n;
                            },
                        }
                    } else {
                        last_content = Some(index);
                        index = index + 1;
                    }
                },
                None => {
                    last_content = Some(index);
                    index = index + 1;
                },
            }
        } else if char_is_whitespace(ch) {
            index = index + 1;
        } else {
            last_content = Some(index);
            index = index + 1;
        }
        proof {
            let after = ScanState {
                index,
                delimiters: delimiters@,
                brackets: brackets@,
                code,
                last_content,
                pending_url,
            };
            assert(after =~= scan_step(t, before));
            assert(before.index < after.index <= t.len());
        }
    }

    let content_end = match last_content {
        Some(ix) => ix + 1,
        None => n,
    };
    if let Some(destination) = pending_url {
        if destination.image {
            return None;
        }
        let cut = destination.close_bracket;
        let mut closers = String::new();
        close_delimiters_into(&mut closers, &delimiters, last_content, cut);
        let m = if content_end < cut {
            content_end
        } else {
            cut
        };
        let mut mended = String::new();
        mended.append(text.substring_char(0, m));
        mended.append(closers.as_str());
        mended.append(text.substring_char(m, cut));
        mended.push(']');
        mended.push('(');
        mended.append(PENDING_LINK_URL);
        mended.push(')');
        proof {
            assert(mended@ =~= t.take(m as int) + closers@ + t.subrange(m as int, cut as int)
                + pending_link_tail());
        }
        return Some(MarkdownDisplayRepair { markdown: mended, synthetic_text_suffix: None });
    }
    let mut closers = String::new();
    if let Some(open) = code {
        let owes = match last_content {
            Some(content) => content >= open.1,
            None => false,
        };
        if owes {
            let mut j: usize = 0;
            while j < open.0
                invariant
                    j <= open.0,
                    closers@ == Seq::new(j as nat, |_i: int| '`'),
                decreases open.0 - j,
            {
                closers.push('`');
                j += 1;
                assert(closers@ =~= Seq::new(j as nat, |_i: int| '`'));
            }
        }
    }
    let ghost ticks = closers@;
    close_delimiters_into(&mut closers, &delimiters, last_content, n);
    let ghost markers = closers@;
    let open_bracket = brackets.len() > 0 && match last_content {
        Some(content) => content > brackets[brackets.len() - 1].index,
        None => false,
    };
    if open_bracket {
        if brackets[brackets.len() - 1].image {
            return None;
        }
        closers.push(']');
        closers.push('(');
        closers.append(PENDING_LINK_URL);
        closers.push(')');
        assert(closers@ =~= markers + pending_link_tail());
    }
    let guard = needs_setext_guard_in(&chars);
    if closers.as_str().is_empty() && !guard {
        return None;
    }
    let mut mended = String::new();
    mended.append(text.substring_char(0, content_end));
    mended.append(closers.as_str());
    mended.append(text.substring_char(content_end, n));
    let ghost unguarded = mended@;
    if guard {
        mended.push(ZERO_WIDTH_SPACE);
    }
    proof {
        if guard {
            assert(mended@ =~= t.take(content_end as int) + closers@ + t.skip(content_end as int)
                + seq![ZERO_WIDTH_SPACE]);
        } else {
            assert(mended@ =~= t.take(content_end as int) + closers@ + t.skip(content_end as int)
                + Seq::<char>::empty());
        }
    }
    Some(
        MarkdownDisplayRepair {
            markdown: mended,
            synthetic_text_suffix: if guard {
                Some(ZERO_WIDTH_SPACE)
            } else {
                None
            },
        },
    )
}

/// Whether the closers of a display repair owe `d` its markers: it was opened
/// before `limit` and content follows its opening run.
pub open spec fn run_is_owed(d: OpenDelimiter, last: Option<usize>, limit: int) -> bool {
    d.opened_at < limit && (last matches Some(content) && content >= d.opened_at)
}

/// Runs opened later are closed first: the closers of the runs `a` followed
/// by the runs `b` are those of `b`, then those of `a`.
pub proof fn lemma_later_runs_close_first(
    a: Seq<OpenDelimiter>,
    b: Seq<OpenDelimiter>,
    last: Option<usize>,
    limit: int,
)
    ensures
        close_delimiters(a + b, last, limit) == close_delimiters(b, last, limit) + close_delimiters(
            a,
            last,
            limit,
        ),
    decreases b.len(),
{
    if b.len() == 0 {
        assert(a + b =~= a);
        assert(close_delimiters(b, last, limit) =~= Seq::<char>::empty());
        assert(Seq::<char>::empty() + close_delimiters(a, last, limit) =~= close_delimiters(a, last, limit));
    } else {
        assert((a + b).drop_last() =~= a + b.drop_last());
        assert((a + b).last() == b.last());
        lemma_later_runs_close_first(a, b.drop_last(), last, limit);
        let d = b.last();
        let own = if d.opened_at < limit && (last matches Some(content) && content >= d.opened_at) {
            Seq::new(d.owed as nat, |_j: int| d.marker)
        } else {
            Seq::empty()
        };
        assert(close_delimiters(a + b, last, limit) == own + close_delimiters(a + b.drop_last(), last, limit));
        assert(close_delimiters(b, last, limit) == own + close_delimiters(b.drop_last(), last, limit));
        assert(own + (close_delimiters(b.drop_last(), last, limit) + close_delimiters(a, last, limit))
            =~= (own + close_delimiters(b.drop_last(), last, limit)) + close_delimiters(a, last, limit));
    }
}

/// One open run closes with `owed` copies of its marker when it is owed, and
/// with nothing otherwise.
pub proof fn lemma_one_run_closers(d: OpenDelimiter, last: Option<usize>, limit: int)
    ensures
        close_delimiters(seq![d], last, limit) == if run_is_owed(d, last, limit) {
            Seq::new(d.owed as nat, |_j: int| d.marker)
        } else {
            Seq::<char>::empty()
        },
{
    assert(seq![d].drop_last() =~= Seq::<OpenDelimiter>::empty());
    assert(seq![d].last() == d);
    let own = if run_is_owed(d, last, limit) {
        Seq::new(d.owed as nat, |_j: int| d.marker)
    } else {
        Seq::<char>::empty()
    };
    assert(close_delimiters(Seq::<OpenDelimiter>::empty(), last, limit) =~= Seq::<char>::empty());
    assert(close_delimiters(seq![d], last, limit) == own + close_delimiters(
        Seq::<OpenDelimiter>::empty(),
        last,
        limit,
    ));
    assert(own + Seq::<char>::empty() =~= own);
}

/// Nested runs close innermost first: when a run `outer` is opened and then a
/// run `inner`, both owed, the repair appends the markers of `inner` before
/// those of `outer` (`**bold _it` ends in `_**`).
pub proof fn lemma_nested_runs_close_innermost_first(
    outer: OpenDelimiter,
    inner: OpenDelimiter,
    last: Option<usize>,
    limit: int,
)
    requires
        run_is_owed(outer, last, limit),
        run_is_owed(inner, last, limit),
    ensures
        close_delimiters(seq![outer, inner], last, limit) == Seq::new(
            inner.owed as nat,
            |_j: int| inner.marker,
        ) + Seq::new(outer.owed as nat, |_j: int| outer.marker),
{
    assert(seq![outer, inner] =~= seq![outer] + seq![inner]);
    lemma_later_runs_close_first(seq![outer], seq![inner], last, limit);
    lemma_one_run_closers(outer, last, limit);
    lemma_one_run_closers(inner, last, limit);
}

} // verus!
