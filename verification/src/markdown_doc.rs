use std::ops::Range;
use vstd::prelude::*;

use crate::document::{assoc_map, MarkdownOptions, ParsedBlock, ParsedMarkdown};
use crate::parse::{markdown_view, MarkdownView};
use crate::renderer::{Selection, SelectionMode};
use crate::search::{search_ranges, search_source};
use crate::unicode::utf8_len_of;

verus! {

/// What a Markdown document asks its host to do after a decision.
#[derive(Debug)]
pub enum MarkdownAction {
    /// Parse `source` with `options` off the UI thread, then report the
    /// result with `revision`.
    SpawnParse { source: String, options: MarkdownOptions, revision: u64 },
    /// Repaint the document.
    Notify,
}

/// An action seen as plain values.
pub enum MarkdownActionView {
    SpawnParse { source: Seq<char>, options: MarkdownOptions, revision: u64 },
    Notify,
}

pub open spec fn markdown_action_view(a: MarkdownAction) -> MarkdownActionView {
    match a {
        MarkdownAction::SpawnParse { source, options, revision } => MarkdownActionView::SpawnParse {
            source: source@,
            options,
            revision,
        },
        MarkdownAction::Notify => MarkdownActionView::Notify,
    }
}

pub open spec fn markdown_actions_view(actions: Seq<MarkdownAction>) -> Seq<MarkdownActionView> {
    actions.map_values(|a: MarkdownAction| markdown_action_view(a))
}

/// A Markdown document whose source grows or is replaced while the
/// published parse follows it.
#[derive(Debug)]
pub struct Markdown {
    /// The canonical source, with deltas the parser has not published yet.
    pub source: String,
    pub options: MarkdownOptions,
    /// The published parse.
    pub parsed: ParsedMarkdown,
    pub revision: u64,
    /// Whether a parse is running.
    pub pending_parse: bool,
    /// Whether the source changed while a parse was running.
    pub should_reparse: bool,
    pub selection: Selection,
    pub search_highlights: Vec<Range<usize>>,
    pub active_search_highlight: Option<usize>,
    pub autoscroll_request: Option<usize>,
}

/// A document seen as plain values.
#[verifier::ext_equal]
pub struct MarkdownDocView {
    pub source: Seq<char>,
    pub options: MarkdownOptions,
    pub parsed: MarkdownView,
    pub revision: u64,
    pub pending_parse: bool,
    pub should_reparse: bool,
    pub selection: Selection,
    pub search_highlights: Seq<Range<usize>>,
    pub active_search_highlight: Option<usize>,
    pub autoscroll_request: Option<usize>,
}

pub open spec fn doc_view(m: Markdown) -> MarkdownDocView {
    MarkdownDocView {
        source: m.source@,
        options: m.options,
        parsed: markdown_view(m.parsed),
        revision: m.revision,
        pending_parse: m.pending_parse,
        should_reparse: m.should_reparse,
        selection: m.selection,
        search_highlights: m.search_highlights@,
        active_search_highlight: m.active_search_highlight,
        autoscroll_request: m.autoscroll_request,
    }
}

/// The published parse of a document that has parsed nothing of `source`.
pub open spec fn unparsed(source: Seq<char>) -> MarkdownView {
    MarkdownView {
        source,
        blocks: Seq::empty(),
        root_block_starts: Seq::empty(),
        headings: Map::empty(),
        footnotes: Map::empty(),
    }
}

pub open spec fn empty_selection() -> Selection {
    Selection { anchor: 0, head: 0, pending: false, mode: SelectionMode::Character }
}

pub open spec fn next_revision(r: u64) -> u64 {
    if r == u64::MAX {
        0
    } else {
        (r + 1) as u64
    }
}

/// The state after a parse is asked for: while one runs, another is marked
/// as needed; otherwise one of the current source starts.
pub open spec fn schedule_step(d: MarkdownDocView) -> (MarkdownDocView, Seq<MarkdownActionView>) {
    if d.pending_parse {
        (MarkdownDocView { should_reparse: true, ..d }, Seq::empty())
    } else {
        (
            MarkdownDocView { pending_parse: true, ..d },
            seq![MarkdownActionView::SpawnParse { source: d.source, options: d.options, revision: d.revision }],
        )
    }
}

/// The state after a parse of revision `revision` comes back, before any
/// new parse is asked for: it is published only when no change came after
/// it was started, the selection then kept inside the source.
pub open spec fn publish_step(d: MarkdownDocView, revision: u64, parsed: MarkdownView) -> (MarkdownDocView, Seq<MarkdownActionView>) {
    let d1 = MarkdownDocView { pending_parse: false, ..d };
    let len = vstd::utf8::encode_utf8(d.source).len();
    if revision == d.revision {
        (
            MarkdownDocView {
                parsed,
                selection: Selection {
                    anchor: if d.selection.anchor <= len {
                        d.selection.anchor
                    } else {
                        len as usize
                    },
                    head: if d.selection.head <= len {
                        d.selection.head
                    } else {
                        len as usize
                    },
                    ..d.selection
                },
                ..d1
            },
            seq![MarkdownActionView::Notify],
        )
    } else {
        (d1, Seq::empty())
    }
}

/// The state after a parse of revision `revision` finishes: it is
/// published as [`publish_step`] says, and a parse of the current source
/// starts when one was asked for meanwhile or the published one is not of it.
pub open spec fn finished_step(d: MarkdownDocView, revision: u64, parsed: MarkdownView) -> (MarkdownDocView, Seq<MarkdownActionView>) {
    let (d2, a2) = publish_step(d, revision, parsed);
    if d2.should_reparse || d2.parsed.source != d2.source {
        let (d3, a3) = schedule_step(MarkdownDocView { should_reparse: false, ..d2 });
        (d3, a2 + a3)
    } else {
        (d2, a2)
    }
}

fn empty_parsed(source: String) -> (parsed: ParsedMarkdown)
    ensures
        markdown_view(parsed) == unparsed(source@),
{
    let parsed = ParsedMarkdown {
        source,
        blocks: Vec::new(),
        root_block_starts: Vec::new(),
        headings: Vec::new(),
        footnotes: Vec::new(),
    };
    proof {
        assert(parsed.blocks@.map_values(|b: ParsedBlock| crate::document::block_view(b)) =~= Seq::<
            crate::document::BlockView,
        >::empty());
        assert(assoc_map(parsed.headings@) =~= Map::<Seq<char>, usize>::empty());
        assert(assoc_map(parsed.footnotes@) =~= Map::<Seq<char>, usize>::empty());
        assert(markdown_view(parsed) =~= unparsed(source@));
    }
    parsed
}

impl Markdown {
    /// Asks for a parse (see [`schedule_step`]).
    fn schedule_parse(&mut self, actions: &mut Vec<MarkdownAction>)
        ensures
            doc_view(*final(self)) == schedule_step(doc_view(*old(self))).0,
            markdown_actions_view(final(actions)@) == markdown_actions_view(old(actions)@) + schedule_step(
                doc_view(*old(self)),
            ).1,
    {
        let ghost a0 = markdown_actions_view(actions@);
        if self.pending_parse {
            self.should_reparse = true;
            proof {
                assert(markdown_actions_view(actions@) =~= a0 + schedule_step(doc_view(*old(self))).1);
            }
            return;
        }
        self.pending_parse = true;
        actions.push(
            MarkdownAction::SpawnParse { source: self.source.clone(), options: self.options, revision: self.revision },
        );
        proof {
            assert(markdown_actions_view(actions@) =~= a0 + schedule_step(doc_view(*old(self))).1);
        }
    }

    /// A document of `source` with the default options; its first parse
    /// starts at once.
    pub fn new(source: &str, actions: &mut Vec<MarkdownAction>) -> (doc: Self)
        ensures
            doc_view(doc) == schedule_step(
                MarkdownDocView {
                    source: source@,
                    options: doc.options,
                    parsed: unparsed(source@),
                    revision: 0,
                    pending_parse: false,
                    should_reparse: false,
                    selection: empty_selection(),
                    search_highlights: Seq::empty(),
                    active_search_highlight: None,
                    autoscroll_request: None,
                },
            ).0,
            !doc.options.parse_links_only && !doc.options.parse_html && !doc.options.render_mermaid_diagrams
                && !doc.options.parse_heading_slugs && !doc.options.render_metadata_blocks,
            markdown_actions_view(final(actions)@) == markdown_actions_view(old(actions)@) + schedule_step(
                MarkdownDocView {
                    source: source@,
                    options: doc.options,
                    parsed: unparsed(source@),
                    revision: 0,
                    pending_parse: false,
                    should_reparse: false,
                    selection: empty_selection(),
                    search_highlights: Seq::empty(),
                    active_search_highlight: None,
                    autoscroll_request: None,
                },
            ).1,
    {
        Self::new_with_options(source, MarkdownOptions::default(), actions)
    }

    /// A document of `source` parsed with `options`; its first parse starts
    /// at once.
    pub fn new_with_options(source: &str, options: MarkdownOptions, actions: &mut Vec<MarkdownAction>) -> (doc: Self)
        ensures
            doc.options == options,
            doc_view(doc) == schedule_step(
                MarkdownDocView {
                    source: source@,
                    options,
                    parsed: unparsed(source@),
                    revision: 0,
                    pending_parse: false,
                    should_reparse: false,
                    selection: empty_selection(),
                    search_highlights: Seq::empty(),
                    active_search_highlight: None,
                    autoscroll_request: None,
                },
            ).0,
            markdown_actions_view(final(actions)@) == markdown_actions_view(old(actions)@) + schedule_step(
                MarkdownDocView {
                    source: source@,
                    options,
                    parsed: unparsed(source@),
                    revision: 0,
                    pending_parse: false,
                    should_reparse: false,
                    selection: empty_selection(),
                    search_highlights: Seq::empty(),
                    active_search_highlight: None,
                    autoscroll_request: None,
                },
            ).1,
    {
        let mut doc = Markdown {
            source: String::from_str(source),
            options,
            parsed: empty_parsed(String::from_str(source)),
            revision: 0,
            pending_parse: false,
            should_reparse: false,
            selection: Selection { anchor: 0, head: 0, pending: false, mode: SelectionMode::Character },
            search_highlights: Vec::new(),
            active_search_highlight: None,
            autoscroll_request: None,
        };
        doc.schedule_parse(actions);
        doc
    }

    /// The canonical source, with deltas not published yet.
    pub fn source(&self) -> (source: String)
        ensures
            source@ == self.source@,
    {
        self.source.clone()
    }

    /// Replaces the source; every parse started before is no longer
    /// published. An empty source is published at once, with no selection.
    pub fn replace(&mut self, source: &str, actions: &mut Vec<MarkdownAction>)
        ensures
            ({
                let d = MarkdownDocView {
                    source: source@,
                    revision: next_revision(old(self).revision),
                    parsed: if source@.len() == 0 {
                        unparsed(Seq::empty())
                    } else {
                        doc_view(*old(self)).parsed
                    },
                    selection: if source@.len() == 0 {
                        empty_selection()
                    } else {
                        old(self).selection
                    },
                    ..doc_view(*old(self))
                };
                &&& doc_view(*final(self)) == schedule_step(d).0
                &&& markdown_actions_view(final(actions)@) == markdown_actions_view(old(actions)@) + (if source@.len()
                    == 0 {
                    seq![MarkdownActionView::Notify]
                } else {
                    Seq::empty()
                }) + schedule_step(d).1
            }),
    {
        let ghost a0 = markdown_actions_view(actions@);
        self.source = String::from_str(source);
        self.revision = if self.revision == u64::MAX {
            0
        } else {
            self.revision + 1
        };
        if source.is_empty() {
            self.parsed = empty_parsed(String::new());
            self.selection = Selection { anchor: 0, head: 0, pending: false, mode: SelectionMode::Character };
            actions.push(MarkdownAction::Notify);
        }
        let ghost a1 = markdown_actions_view(actions@);
        proof {
            assert(a1 =~= a0 + (if source@.len() == 0 {
                seq![MarkdownActionView::Notify]
            } else {
                Seq::empty()
            }));
        }
        self.schedule_parse(actions);
    }

    /// Appends one delta; a parse starts, or is asked for after the running
    /// one.
    pub fn append(&mut self, chunk: &str, actions: &mut Vec<MarkdownAction>)
        ensures
            chunk@.len() == 0 ==> doc_view(*final(self)) == doc_view(*old(self)) && final(actions)@ == old(actions)@,
            chunk@.len() > 0 ==> ({
                let d = MarkdownDocView {
                    source: old(self).source@ + chunk@,
                    revision: next_revision(old(self).revision),
                    ..doc_view(*old(self))
                };
                &&& doc_view(*final(self)) == schedule_step(d).0
                &&& markdown_actions_view(final(actions)@) == markdown_actions_view(old(actions)@) + schedule_step(d).1
            }),
    {
        if chunk.is_empty() {
            return;
        }
        self.source.append(chunk);
        self.revision = if self.revision == u64::MAX {
            0
        } else {
            self.revision + 1
        };
        self.schedule_parse(actions);
    }

    /// Whether the published parse trails the source.
    pub fn is_parsing(&self) -> (parsing: bool)
        ensures
            parsing == (self.pending_parse || self.parsed.source@ != self.source@),
    {
        self.pending_parse || self.parsed.source != self.source
    }

    /// The start of every published top-level block.
    pub fn root_block_starts(&self) -> (starts: Vec<usize>)
        ensures
            starts@ == self.parsed.root_block_starts@,
    {
        let mut starts: Vec<usize> = Vec::new();
        let mut k: usize = 0;
        while k < self.parsed.root_block_starts.len()
            invariant
                k <= self.parsed.root_block_starts@.len(),
                starts@ == self.parsed.root_block_starts@.take(k as int),
            decreases self.parsed.root_block_starts@.len() - k,
        {
            starts.push(self.parsed.root_block_starts[k]);
            proof {
                assert(starts@ =~= self.parsed.root_block_starts@.take(k + 1));
            }
            k += 1;
        }
        proof {
            assert(self.parsed.root_block_starts@.take(k as int) =~= self.parsed.root_block_starts@);
        }
        starts
    }

    /// Asks for navigation to a source position, kept inside the source.
    pub fn scroll_to_source_index(&mut self, source_index: usize, actions: &mut Vec<MarkdownAction>)
        ensures
            doc_view(*final(self)) == (MarkdownDocView {
                autoscroll_request: Some(
                    if source_index <= utf8_len_of(old(self).source@) {
                        source_index
                    } else {
                        utf8_len_of(old(self).source@) as usize
                    },
                ),
                ..doc_view(*old(self))
            }),
            markdown_actions_view(final(actions)@) == markdown_actions_view(old(actions)@).push(MarkdownActionView::Notify),
    {
        let len = self.source.len();
        self.autoscroll_request = Some(if source_index <= len {
            source_index
        } else {
            len
        });
        actions.push(MarkdownAction::Notify);
        proof {
            assert(markdown_actions_view(actions@) =~= markdown_actions_view(old(actions)@).push(
                MarkdownActionView::Notify,
            ));
        }
    }

    /// Asks for navigation to the heading with slug `slug`; says whether
    /// there is one.
    pub fn scroll_to_heading(&mut self, slug: &str, actions: &mut Vec<MarkdownAction>) -> (found: bool)
        ensures
            found == doc_view(*old(self)).parsed.headings.dom().contains(slug@),
            !found ==> doc_view(*final(self)) == doc_view(*old(self)) && final(actions)@ == old(actions)@,
            found ==> final(self).autoscroll_request is Some && markdown_actions_view(final(actions)@)
                == markdown_actions_view(old(actions)@).push(MarkdownActionView::Notify) && doc_view(*final(self))
                == (MarkdownDocView { autoscroll_request: final(self).autoscroll_request, ..doc_view(*old(self)) }),
            found ==> ({
                let offset = doc_view(*old(self)).parsed.headings[slug@];
                final(self).autoscroll_request == Some(
                    if offset <= utf8_len_of(old(self).source@) {
                        offset
                    } else {
                        utf8_len_of(old(self).source@) as usize
                    },
                )
            }),
    {
        match self.parsed.heading_start(slug) {
            Some(offset) => {
                self.scroll_to_source_index(offset, actions);
                true
            },
            None => false,
        }
    }

    /// Asks for navigation to the definition of footnote `label`; says
    /// whether there is one.
    pub fn scroll_to_footnote(&mut self, label: &str, actions: &mut Vec<MarkdownAction>) -> (found: bool)
        ensures
            found == doc_view(*old(self)).parsed.footnotes.dom().contains(label@),
            !found ==> doc_view(*final(self)) == doc_view(*old(self)) && final(actions)@ == old(actions)@,
            found ==> markdown_actions_view(final(actions)@) == markdown_actions_view(old(actions)@).push(
                MarkdownActionView::Notify,
            ),
            found ==> ({
                let offset = doc_view(*old(self)).parsed.footnotes[label@];
                doc_view(*final(self)) == (MarkdownDocView {
                    autoscroll_request: Some(
                        if offset <= utf8_len_of(old(self).source@) {
                            offset
                        } else {
                            utf8_len_of(old(self).source@) as usize
                        },
                    ),
                    ..doc_view(*old(self))
                })
            }),
    {
        match self.parsed.footnote_start(label) {
            Some(offset) => {
                self.scroll_to_source_index(offset, actions);
                true
            },
            None => false,
        }
    }

    /// Replaces the search ranges; the active one must be one of them.
    pub fn set_search_highlights(&mut self, ranges: Vec<Range<usize>>, active: Option<usize>, actions: &mut Vec<MarkdownAction>)
        ensures
            doc_view(*final(self)) == (MarkdownDocView {
                search_highlights: ranges@,
                active_search_highlight: match active {
                    Some(i) => if i < ranges@.len() {
                        Some(i)
                    } else {
                        None
                    },
                    None => None,
                },
                ..doc_view(*old(self))
            }),
            markdown_actions_view(final(actions)@) == markdown_actions_view(old(actions)@).push(MarkdownActionView::Notify),
    {
        let n = ranges.len();
        self.search_highlights = ranges;
        self.active_search_highlight = match active {
            Some(i) => if i < n {
                Some(i)
            } else {
                None
            },
            None => None,
        };
        actions.push(MarkdownAction::Notify);
        proof {
            assert(markdown_actions_view(actions@) =~= markdown_actions_view(old(actions)@).push(
                MarkdownActionView::Notify,
            ));
        }
    }

    /// Highlights the literal matches of `query` in the source (see
    /// [`search_ranges`]), the first one active; returns how many there are.
    pub fn search(&mut self, query: &str, case_sensitive: bool, actions: &mut Vec<MarkdownAction>) -> (count: usize)
        ensures
            count == search_ranges(old(self).source@, query@, case_sensitive).len(),
            doc_view(*final(self)) == (MarkdownDocView {
                search_highlights: search_ranges(old(self).source@, query@, case_sensitive),
                active_search_highlight: if count > 0 {
                    Some(0usize)
                } else {
                    None
                },
                ..doc_view(*old(self))
            }),
            markdown_actions_view(final(actions)@) == markdown_actions_view(old(actions)@).push(MarkdownActionView::Notify),
    {
        let ranges = search_source(self.source.as_str(), query, case_sensitive);
        let count = ranges.len();
        let active = if count > 0 {
            Some(0)
        } else {
            None
        };
        self.set_search_highlights(ranges, active, actions);
        count
    }

    /// The selected canonical source, when the selection is not empty and
    /// its ends are character boundaries within the source.
    pub fn selected_source(&self) -> (selected: Option<String>)
        ensures
            ({
                let r = if self.selection.anchor <= self.selection.head {
                    (self.selection.anchor, self.selection.head)
                } else {
                    (self.selection.head, self.selection.anchor)
                };
                let bytes = vstd::utf8::encode_utf8(self.source@);
                match selected {
                    Some(s) => r.0 < r.1 && r.1 <= bytes.len() && vstd::utf8::is_char_boundary(bytes, r.0 as int)
                        && vstd::utf8::is_char_boundary(bytes, r.1 as int) && s@ == crate::unicode::chars_between(
                        self.source@,
                        r.0 as int,
                        r.1 as int,
                    ),
                    None => !(r.0 < r.1 && r.1 <= bytes.len() && vstd::utf8::is_char_boundary(bytes, r.0 as int)
                        && vstd::utf8::is_char_boundary(bytes, r.1 as int)),
                }
            }),
    {
        let range = self.selection.range();
        if range.start >= range.end {
            return None;
        }
        let len = crate::unicode::str_byte_len(self.source.as_str());
        if range.end > len || !self.source.as_str().is_char_boundary(range.start) || !self.source.as_str().is_char_boundary(
            range.end,
        ) {
            return None;
        }
        Some(crate::unicode::substring(self.source.as_str(), range.start, range.end))
    }

    /// Publishes a parse of revision `revision` (see [`publish_step`]).
    fn publish(&mut self, revision: u64, parsed: ParsedMarkdown, actions: &mut Vec<MarkdownAction>)
        ensures
            doc_view(*final(self)) == publish_step(doc_view(*old(self)), revision, markdown_view(parsed)).0,
            markdown_actions_view(final(actions)@) == markdown_actions_view(old(actions)@) + publish_step(
                doc_view(*old(self)),
                revision,
                markdown_view(parsed),
            ).1,
    {
        self.pending_parse = false;
        if revision == self.revision {
            let len = self.source.len();
            self.parsed = parsed;
            if self.selection.anchor > len {
                self.selection.anchor = len;
            }
            if self.selection.head > len {
                self.selection.head = len;
            }
            actions.push(MarkdownAction::Notify);
        }
        proof {
            assert(markdown_actions_view(actions@) =~= markdown_actions_view(old(actions)@) + publish_step(
                doc_view(*old(self)),
                revision,
                markdown_view(parsed),
            ).1);
        }
    }

    /// A parse of revision `revision` finished (see [`finished_step`]).
    pub fn parse_finished(&mut self, revision: u64, parsed: ParsedMarkdown, actions: &mut Vec<MarkdownAction>)
        ensures
            doc_view(*final(self)) == finished_step(doc_view(*old(self)), revision, markdown_view(parsed)).0,
            markdown_actions_view(final(actions)@) == markdown_actions_view(old(actions)@) + finished_step(
                doc_view(*old(self)),
                revision,
                markdown_view(parsed),
            ).1,
    {
        let ghost d0 = doc_view(*self);
        let ghost a0 = markdown_actions_view(actions@);
        let ghost pv = markdown_view(parsed);
        self.publish(revision, parsed, actions);
        let ghost a2 = markdown_actions_view(actions@);
        if self.should_reparse || self.parsed.source != self.source {
            self.should_reparse = false;
            self.schedule_parse(actions);
            proof {
                assert(markdown_actions_view(actions@) =~= a0 + finished_step(d0, revision, pv).1);
            }
        }
    }
}

/// A parse result never overrides a newer source: when the revision it
/// was started for is not the current one, the published parse and the
/// selection stay as they were.
pub proof fn lemma_stale_markdown_parse_is_dropped(d: MarkdownDocView, revision: u64, parsed: MarkdownView)
    requires
        revision != d.revision,
    ensures
        finished_step(d, revision, parsed).0.parsed == d.parsed,
        finished_step(d, revision, parsed).0.selection == d.selection,
        finished_step(d, revision, parsed).0.source == d.source,
{
}

/// The published parse follows the source: once a parse finishes, either
/// the published parse is of the current source and no further one is
/// wanted, or a parse of the current source at its current revision has
/// just been started.
pub proof fn lemma_markdown_parse_follows_source(d: MarkdownDocView, revision: u64, parsed: MarkdownView)
    ensures
        ({
            let (d2, a) = finished_step(d, revision, parsed);
            ||| d2.parsed.source == d2.source && !d2.should_reparse && !d2.pending_parse
            ||| d2.pending_parse && a.len() > 0 && a.last() == (MarkdownActionView::SpawnParse {
                source: d.source,
                options: d.options,
                revision: d.revision,
            })
        }),
{
}

/// Appending while a parse runs starts no second parse: the append is only
/// marked to be parsed when the running one finishes.
pub proof fn lemma_appends_coalesce_behind_a_running_parse(d: MarkdownDocView)
    requires
        d.pending_parse,
    ensures
        schedule_step(d).1 == Seq::<MarkdownActionView>::empty(),
        schedule_step(d).0.should_reparse,
        schedule_step(d).0.source == d.source,
{
}

} // verus!
