use vstd::prelude::*;

use crate::events::MarkdownEvent;
use crate::unicode::{
    char_is_alphanumeric, char_to_lowercase, chars_of, is_alphanumeric, lowercase, trim_end,
    trim_start, trimmed_end, trimmed_start,
};

verus! {

/// Stable categories of parse events, kept after the parser's borrows end.
#[derive(Clone, Copy, Debug, PartialEq, Eq)]
pub enum MarkdownSourceEventKind {
    Start,
    End,
    Text,
    Code,
    Html,
    SoftBreak,
    HardBreak,
    Rule,
    TaskListMarker,
    FootnoteReference,
    Math,
}

/// The category of a parse event.
pub fn source_event_kind(event: &MarkdownEvent) -> (kind: MarkdownSourceEventKind)
    ensures
        kind == match *event {
            MarkdownEvent::Start(_) => MarkdownSourceEventKind::Start,
            MarkdownEvent::End(_) => MarkdownSourceEventKind::End,
            MarkdownEvent::Text(_) => MarkdownSourceEventKind::Text,
            MarkdownEvent::Code(_) => MarkdownSourceEventKind::Code,
            MarkdownEvent::Html(_) | MarkdownEvent::InlineHtml(_) => MarkdownSourceEventKind::Html,
            MarkdownEvent::SoftBreak => MarkdownSourceEventKind::SoftBreak,
            MarkdownEvent::HardBreak => MarkdownSourceEventKind::HardBreak,
            MarkdownEvent::Rule => MarkdownSourceEventKind::Rule,
            MarkdownEvent::TaskListMarker(_) => MarkdownSourceEventKind::TaskListMarker,
            MarkdownEvent::FootnoteReference(_) => MarkdownSourceEventKind::FootnoteReference,
            MarkdownEvent::InlineMath(_) | MarkdownEvent::DisplayMath(_) => MarkdownSourceEventKind::Math,
        },
{
    match event {
        MarkdownEvent::Start(_) => MarkdownSourceEventKind::Start,
        MarkdownEvent::End(_) => MarkdownSourceEventKind::End,
        MarkdownEvent::Text(_) => MarkdownSourceEventKind::Text,
        MarkdownEvent::Code(_) => MarkdownSourceEventKind::Code,
        MarkdownEvent::Html(_) | MarkdownEvent::InlineHtml(_) => MarkdownSourceEventKind::Html,
        MarkdownEvent::SoftBreak => MarkdownSourceEventKind::SoftBreak,
        MarkdownEvent::HardBreak => MarkdownSourceEventKind::HardBreak,
        MarkdownEvent::Rule => MarkdownSourceEventKind::Rule,
        MarkdownEvent::TaskListMarker(_) => MarkdownSourceEventKind::TaskListMarker,
        MarkdownEvent::FootnoteReference(_) => MarkdownSourceEventKind::FootnoteReference,
        MarkdownEvent::InlineMath(_) | MarkdownEvent::DisplayMath(_) => MarkdownSourceEventKind::Math,
    }
}

/// What one character of a heading contributes to its outline slug: itself
/// in lowercase when alphanumeric, `-` or `_`; a `-` for a space; nothing
/// else.
pub open spec fn outline_slug_char(c: char) -> Seq<char> {
    if is_alphanumeric(c) || c == '-' || c == '_' {
        seq![lowercase(c)[0]]
    } else if c == ' ' {
        seq!['-']
    } else {
        Seq::empty()
    }
}

/// The outline slug of the characters `s`.
pub open spec fn outline_slug_of(s: Seq<char>) -> Seq<char>
    decreases s.len(),
{
    if s.len() == 0 {
        Seq::empty()
    } else {
        outline_slug_of(s.drop_last()) + outline_slug_char(s.last())
    }
}

/// The outline slug of a text is that of its first part followed by that of
/// the rest: each character contributes on its own.
pub proof fn lemma_outline_slug_of_concat(a: Seq<char>, b: Seq<char>)
    ensures
        outline_slug_of(a + b) == outline_slug_of(a) + outline_slug_of(b),
    decreases b.len(),
{
    if b.len() == 0 {
        assert(a + b =~= a);
        assert(outline_slug_of(a) + Seq::<char>::empty() =~= outline_slug_of(a));
    } else {
        assert((a + b).drop_last() =~= a + b.drop_last());
        assert((a + b).last() == b.last());
        lemma_outline_slug_of_concat(a, b.drop_last());
        assert(outline_slug_of(a) + (outline_slug_of(b.drop_last()) + outline_slug_char(b.last()))
            =~= (outline_slug_of(a) + outline_slug_of(b.drop_last())) + outline_slug_char(b.last()));
    }
}

/// Between two parts of a document heading, a character that is neither
/// alphanumeric, `-`, `_` nor a space leaves no trace in the slug; a space
/// becomes exactly one `-`; an alphanumeric character, `-` or `_` is kept as
/// the first character of its lowercase form.
pub proof fn lemma_outline_slug_of_character_between(a: Seq<char>, c: char, b: Seq<char>)
    ensures
        !is_alphanumeric(c) && c != '-' && c != '_' && c != ' ' ==> outline_slug_of(a + seq![c] + b)
            == outline_slug_of(a + b),
        !is_alphanumeric(c) && c == ' ' ==> outline_slug_of(a + seq![c] + b) == outline_slug_of(a)
            + seq!['-'] + outline_slug_of(b),
        is_alphanumeric(c) || c == '-' || c == '_' ==> outline_slug_of(a + seq![c] + b)
            == outline_slug_of(a) + seq![lowercase(c)[0]] + outline_slug_of(b),
{
    lemma_outline_slug_of_concat(a + seq![c], b);
    lemma_outline_slug_of_concat(a, seq![c]);
    lemma_outline_slug_of_concat(a, b);
    assert(seq![c].drop_last() =~= Seq::<char>::empty());
    assert(seq![c].last() == c);
    assert(outline_slug_of(Seq::<char>::empty()) =~= Seq::<char>::empty());
    assert(outline_slug_of(seq![c]) == outline_slug_of(Seq::<char>::empty()) + outline_slug_char(c));
    assert(Seq::<char>::empty() + outline_slug_char(c) =~= outline_slug_char(c));
    if !is_alphanumeric(c) && c != '-' && c != '_' && c != ' ' {
        assert(outline_slug_of(a) + Seq::<char>::empty() =~= outline_slug_of(a));
    }
}

/// Anchor slug of a document heading: the trimmed text, lowercased, with
/// spaces turned into `-` and other characters that are not alphanumeric,
/// `-` or `_` dropped.
pub fn heading_slug(text: &str) -> (slug: String)
    ensures
        slug@ == outline_slug_of(trim_start(trim_end(text@))),
{
    let chars = chars_of(text);
    let end = trimmed_end(&chars, 0, chars.len());
    let start = trimmed_start(&chars, 0, end);
    proof {
        assert(chars@.subrange(0, chars@.len() as int) =~= chars@);
    }
    let mut slug = String::new();
    let mut j = start;
    while j < end
        invariant
            start <= j <= end <= chars@.len(),
            slug@ == outline_slug_of(chars@.subrange(start as int, j as int)),
        decreases end - j,
    {
        let c = chars[j];
        if char_is_alphanumeric(c) || c == '-' || c == '_' {
            let lower = char_to_lowercase(c);
            slug.push(lower[0]);
        } else if c == ' ' {
            slug.push('-');
        }
        proof {
            let next = chars@.subrange(start as int, j + 1);
            assert(next.drop_last() =~= chars@.subrange(start as int, j as int));
            assert(next.last() == c);
            assert(slug@ =~= outline_slug_of(next));
        }
        j += 1;
    }
    slug
}

/// Where a block stands when it is rendered.
#[derive(Clone, Copy, Debug)]
pub struct NodeRenderOptions {
    pub ix: usize,
    pub in_list: bool,
    pub todo: bool,
    pub ordered: bool,
    pub ordered_start: u64,
    pub depth: usize,
    pub is_last: bool,
}

impl Default for NodeRenderOptions {
    fn default() -> (options: Self)
        ensures
            options == (NodeRenderOptions {
                ix: 0,
                in_list: false,
                todo: false,
                ordered: false,
                ordered_start: 0,
                depth: 0,
                is_last: false,
            }),
    {
        NodeRenderOptions {
            ix: 0,
            in_list: false,
            todo: false,
            ordered: false,
            ordered_start: 0,
            depth: 0,
            is_last: false,
        }
    }
}

impl NodeRenderOptions {
    /// These options, marking whether the block is the last of its parent.
    pub fn is_last(self, is_last: bool) -> (options: Self)
        ensures
            options == (NodeRenderOptions { is_last, ..self }),
    {
        let mut options = self;
        options.is_last = is_last;
        options
    }
}

} // verus!
