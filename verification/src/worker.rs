use std::ops::Range;
use vstd::prelude::*;

use crate::block::{copy_nodes, nodes_view};
use crate::builder::{
    document_view, entries_view, event_view, lemma_parse_keeps_source, parse_document, parse_result,
    BuildError, DocumentView, MarkdownSourceEvent, ParsedDocument,
};
use crate::display::{
    display_document, lemma_display_replaces_only_the_tail, streaming_display_content, TextViewFormat,
};
use crate::document::MarkdownOptions;
use crate::outline::MarkdownSourceEventKind;
use crate::theme::MarkdownStyleProfile;

verus! {

/// How an update changes the source a view parses.
#[derive(Clone, Copy, Debug, PartialEq, Eq)]
pub enum UpdateKind {
    /// The whole source is replaced.
    Replace,
    /// Text is appended to the source.
    Append,
    /// The whole source is parsed again to settle a stream.
    Canonical,
    /// The worker's baseline is reset to a source and its parsed content.
    Seed,
}

/// Parsed content with the parse settings it was made with.
#[derive(Debug)]
pub struct ParsedContent {
    pub document: ParsedDocument,
    pub options: MarkdownOptions,
    pub profile: MarkdownStyleProfile,
}

/// One update sent to the background parser.
#[derive(Debug)]
pub struct UpdateOptions {
    pub revision: usize,
    pub epoch: usize,
    pub pending_text: String,
    pub kind: UpdateKind,
    pub seed_content: Option<ParsedContent>,
}

/// Parsed content seen as plain values.
pub struct ContentView {
    pub document: DocumentView,
    pub options: MarkdownOptions,
    pub profile: MarkdownStyleProfile,
}

pub open spec fn content_view(c: ParsedContent) -> ContentView {
    ContentView { document: document_view(c.document), options: c.options, profile: c.profile }
}

/// An update seen as plain values.
pub struct UpdateView {
    pub revision: usize,
    pub epoch: usize,
    pub pending_text: Seq<char>,
    pub kind: UpdateKind,
    pub seed: Option<ContentView>,
}

pub open spec fn update_view(u: UpdateOptions) -> UpdateView {
    UpdateView {
        revision: u.revision,
        epoch: u.epoch,
        pending_text: u.pending_text@,
        kind: u.kind,
        seed: match u.seed_content {
            Some(c) => Some(content_view(c)),
            None => None,
        },
    }
}

/// The update that two queued updates coalesce into: a later epoch or a
/// non-append update replaces the earlier one; an append of the same epoch
/// extends its text and takes its revision.
pub open spec fn merged_update(current: UpdateView, next: UpdateView) -> UpdateView {
    if next.epoch != current.epoch {
        next
    } else if next.kind == UpdateKind::Append {
        UpdateView { pending_text: current.pending_text + next.pending_text, revision: next.revision, ..current }
    } else {
        next
    }
}

impl UpdateOptions {
    /// Coalesces `next` into this update (see [`merged_update`]).
    pub fn merge(&mut self, next: UpdateOptions)
        ensures
            update_view(*final(self)) == merged_update(update_view(*old(self)), update_view(next)),
    {
        if next.epoch != self.epoch {
            *self = next;
            return;
        }
        match next.kind {
            UpdateKind::Append => {
                self.pending_text.append(next.pending_text.as_str());
                self.revision = next.revision;
            },
            _ => {
                *self = next;
            },
        }
    }
}

/// The empty document.
pub open spec fn empty_document() -> DocumentView {
    DocumentView {
        source: Seq::empty(),
        blocks: Seq::empty(),
        events: Seq::empty(),
        root_block_starts: Seq::empty(),
        heading_slugs: Seq::empty(),
        footnote_definitions: Seq::empty(),
    }
}

/// The content of a view that has parsed nothing: the empty document with
/// the default options and profile.
pub open spec fn default_content() -> ContentView {
    ContentView {
        document: empty_document(),
        options: MarkdownOptions {
            parse_links_only: false,
            parse_html: false,
            render_mermaid_diagrams: false,
            parse_heading_slugs: false,
            render_metadata_blocks: false,
        },
        profile: MarkdownStyleProfile::Agent,
    }
}

/// The content of a view that has parsed nothing.
pub fn empty_content() -> (content: ParsedContent)
    ensures
        content_view(content) == default_content(),
{
    let document = ParsedDocument {
        source: String::new(),
        blocks: Vec::new(),
        events: Vec::new(),
        root_block_starts: Vec::new(),
        heading_slugs: Vec::new(),
        footnote_definitions: Vec::new(),
    };
    let content = ParsedContent { document, options: MarkdownOptions::default(), profile: MarkdownStyleProfile::Agent };
    proof {
        assert(nodes_view(content.document.blocks) =~= Seq::<crate::block::NodeView>::empty());
        assert(entries_view(content.document.heading_slugs@) =~= Seq::<(Seq<char>, usize)>::empty());
        assert(entries_view(content.document.footnote_definitions@) =~= Seq::<(Seq<char>, usize)>::empty());
        assert(content.document.events@.map_values(|e: MarkdownSourceEvent| event_view(e)) =~= Seq::<
            (Range<usize>, MarkdownSourceEventKind),
        >::empty());
        assert(content_view(content).document =~= empty_document());
    }
    content
}

/// The content that parsing `source` with the settings of `content` makes:
/// the same settings, the new document (see [`parse_result`]); `None` where
/// a position would not fit in a `usize`.
pub open spec fn parsed_content(content: ContentView, source: Seq<char>) -> Option<ContentView> {
    match parse_result(source, 0, content.options, content.profile) {
        Some(d) => Some(ContentView { document: d, ..content }),
        None => None,
    }
}

/// Parses the complete source with the settings of `content`.
pub fn parse_content(content: ParsedContent, complete_source: &str) -> (result: Result<ParsedContent, BuildError>)
    ensures
        match result {
            Ok(c) => parsed_content(content_view(content), complete_source@) == Some(content_view(c)),
            Err(_) => parsed_content(content_view(content), complete_source@) is None,
        },
{
    match parse_document(complete_source, 0, content.options, content.profile) {
        Ok(document) => Ok(ParsedContent { document, options: content.options, profile: content.profile }),
        Err(e) => Err(e),
    }
}

/// A copy of a parsed document.
pub fn copy_document(d: &ParsedDocument) -> (copy: ParsedDocument)
    ensures
        document_view(copy) == document_view(*d),
{
    let mut events: Vec<MarkdownSourceEvent> = Vec::new();
    let mut k: usize = 0;
    while k < d.events.len()
        invariant
            k <= d.events@.len(),
            events@.len() == k,
            forall|j: int| 0 <= j < k ==> #[trigger] event_view(events@[j]) == event_view(d.events@[j]),
        decreases d.events@.len() - k,
    {
        let e = &d.events[k];
        events.push(MarkdownSourceEvent { range: e.range.start..e.range.end, kind: e.kind });
        k += 1;
    }
    let copy = ParsedDocument {
        source: d.source.clone(),
        blocks: copy_nodes(&d.blocks),
        events,
        root_block_starts: copy_starts(&d.root_block_starts),
        heading_slugs: copy_entries(&d.heading_slugs),
        footnote_definitions: copy_entries(&d.footnote_definitions),
    };
    proof {
        assert(copy.events@.map_values(|e: MarkdownSourceEvent| event_view(e)) =~= d.events@.map_values(
            |e: MarkdownSourceEvent| event_view(e),
        ));
        assert(document_view(copy) =~= document_view(*d));
    }
    copy
}

fn copy_starts(starts: &Vec<usize>) -> (copy: Vec<usize>)
    ensures
        copy@ == starts@,
{
    let mut copy: Vec<usize> = Vec::new();
    let mut k: usize = 0;
    while k < starts.len()
        invariant
            k <= starts@.len(),
            copy@ == starts@.take(k as int),
        decreases starts@.len() - k,
    {
        copy.push(starts[k]);
        proof {
            assert(copy@ =~= starts@.take(k + 1));
        }
        k += 1;
    }
    proof {
        assert(starts@.take(k as int) =~= starts@);
    }
    copy
}

fn copy_entries(entries: &Vec<(String, usize)>) -> (copy: Vec<(String, usize)>)
    ensures
        entries_view(copy@) == entries_view(entries@),
{
    let mut copy: Vec<(String, usize)> = Vec::new();
    let mut k: usize = 0;
    while k < entries.len()
        invariant
            k <= entries@.len(),
            copy@.len() == k,
            forall|j: int| 0 <= j < k ==> (#[trigger] copy@[j]).0@ == entries@[j].0@ && copy@[j].1 == entries@[j].1,
        decreases entries@.len() - k,
    {
        copy.push((entries[k].0.clone(), entries[k].1));
        k += 1;
    }
    proof {
        assert(entries_view(copy@) =~= entries_view(entries@));
    }
    copy
}

/// The background parser's state: the complete received source, its
/// epoch, and the last content that parsed.
#[derive(Debug)]
pub struct UpdateWorker {
    pub source: String,
    pub epoch: usize,
    pub content: ParsedContent,
}

/// The background parser's state seen as plain values.
pub struct WorkerView {
    pub source: Seq<char>,
    pub epoch: usize,
    pub content: ContentView,
}

pub open spec fn worker_view(w: UpdateWorker) -> WorkerView {
    WorkerView { source: w.source@, epoch: w.epoch, content: content_view(w.content) }
}

/// The worker after an update's text arrives: a new epoch starts from an
/// empty source and content; an append extends the source, any other
/// update replaces it.
pub open spec fn with_update_source(w: WorkerView, u: UpdateView) -> WorkerView {
    let base = if w.epoch != u.epoch {
        WorkerView { source: Seq::empty(), epoch: u.epoch, content: default_content() }
    } else {
        w
    };
    WorkerView {
        source: if u.kind == UpdateKind::Append {
            base.source + u.pending_text
        } else {
            u.pending_text
        },
        ..base
    }
}

/// The worker after an update, and what it shows: the source is updated
/// and parsed; content that parses becomes the new baseline and is shown,
/// after an append as the streaming display of its tail. Nothing is shown,
/// and the baseline stays, where the source does not parse.
pub open spec fn parse_update_step(w: WorkerView, u: UpdateView) -> (WorkerView, Option<ContentView>) {
    let w1 = with_update_source(w, u);
    match parsed_content(w1.content, w1.source) {
        None => (w1, None),
        Some(canonical) => (
            WorkerView { content: canonical, ..w1 },
            Some(
                if u.kind == UpdateKind::Append {
                    ContentView {
                        document: display_document(
                            TextViewFormat::Markdown,
                            canonical.document,
                            w1.source,
                            canonical.options,
                            canonical.profile,
                        ),
                        ..canonical
                    }
                } else {
                    canonical
                },
            ),
        ),
    }
}

impl UpdateWorker {
    /// A worker that has received nothing.
    pub fn new() -> (w: Self)
        ensures
            worker_view(w) == (WorkerView { source: Seq::empty(), epoch: 0, content: default_content() }),
    {
        UpdateWorker { source: String::new(), epoch: 0, content: empty_content() }
    }

    /// Resets the baseline to a seed update's epoch, text and content (the
    /// empty content where it has none).
    pub fn seed(&mut self, update: UpdateOptions)
        ensures
            worker_view(*final(self)) == (WorkerView {
                source: update.pending_text@,
                epoch: update.epoch,
                content: match update.seed_content {
                    Some(c) => content_view(c),
                    None => default_content(),
                },
            }),
    {
        self.epoch = update.epoch;
        self.source = update.pending_text;
        self.content = match update.seed_content {
            Some(c) => c,
            None => empty_content(),
        };
    }

    /// Takes an update's text into the source (see [`with_update_source`]).
    pub fn update_source(&mut self, update: &UpdateOptions)
        ensures
            worker_view(*final(self)) == with_update_source(worker_view(*old(self)), update_view(*update)),
    {
        if self.epoch != update.epoch {
            self.epoch = update.epoch;
            self.source = String::new();
            self.content = empty_content();
        }
        match update.kind {
            UpdateKind::Append => self.source.append(update.pending_text.as_str()),
            _ => self.source = update.pending_text.clone(),
        }
    }

    /// Parses one update (see [`parse_update_step`]).
    pub fn parse_update(&mut self, update: &UpdateOptions) -> (result: Result<ParsedContent, BuildError>)
        ensures
            worker_view(*final(self)) == parse_update_step(worker_view(*old(self)), update_view(*update)).0,
            match result {
                Ok(c) => parse_update_step(worker_view(*old(self)), update_view(*update)).1 == Some(content_view(c)),
                Err(_) => parse_update_step(worker_view(*old(self)), update_view(*update)).1 is None,
            },
    {
        self.update_source(update);
        let settings = ParsedContent {
            document: copy_document(&self.content.document),
            options: self.content.options,
            profile: self.content.profile,
        };
        let canonical = match parse_content(settings, self.source.as_str()) {
            Ok(c) => c,
            Err(e) => return Err(e),
        };
        self.content = ParsedContent {
            document: copy_document(&canonical.document),
            options: canonical.options,
            profile: canonical.profile,
        };
        match update.kind {
            UpdateKind::Append => {
                let options = canonical.options;
                let profile = canonical.profile;
                let document = streaming_display_content(
                    TextViewFormat::Markdown,
                    canonical.document,
                    self.source.as_str(),
                    options,
                    profile,
                );
                Ok(ParsedContent { document, options, profile })
            },
            _ => Ok(canonical),
        }
    }
}

/// Whatever an update shows, the worker keeps as its baseline the parse of
/// the complete received source, never a display repair; and what it shows
/// holds that same complete source.
pub proof fn lemma_baseline_is_canonical(w: WorkerView, u: UpdateView)
    ensures
        ({
            let (w2, shown) = parse_update_step(w, u);
            shown matches Some(c) ==> {
                &&& parse_result(w2.source, 0, w2.content.options, w2.content.profile) == Some(w2.content.document)
                &&& w2.content.document.source == w2.source
                &&& c.document.source == w2.source
            }
        }),
{
    let w1 = with_update_source(w, u);
    lemma_parse_keeps_source(w1.source, 0, w1.content.options, w1.content.profile);
    if let Some(canonical) = parsed_content(w1.content, w1.source) {
        lemma_display_replaces_only_the_tail(
            TextViewFormat::Markdown,
            canonical.document,
            w1.source,
            canonical.options,
            canonical.profile,
        );
    }
}

} // verus!
