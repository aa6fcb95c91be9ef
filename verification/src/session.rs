use std::ops::Range;
use std::time::Duration;
use vstd::prelude::*;

use crate::builder::BuildError;
use crate::document::MarkdownOptions;
use crate::pacer::{duration_from_millis, StreamingMarkdownConfig};
use crate::search::{find_literal_matches, literal_regex_matches};
use crate::theme::MarkdownStyleProfile;
use crate::worker::{
    content_view, copy_document, default_content, empty_content, parse_content, parsed_content,
    update_view, ContentView, ParsedContent, UpdateKind, UpdateOptions, UpdateView,
};

verus! {

/// What a text view asks its host to do after a decision.
#[derive(Debug)]
pub enum SessionAction {
    /// Send an update to the background parser.
    Send(UpdateOptions),
    /// Clear the text selection.
    ResetSelection,
    /// Start the idle timer that settles a stream if nothing changes before
    /// it fires.
    ScheduleSettle { revision: usize, source_revision: usize },
    /// Start the timer, of `delay`, of the next progressive parse of an
    /// explicit stream.
    ScheduleStreamingParse { generation: usize, delay: Duration },
    /// Drop the settle and progressive parse timers.
    CancelTimers,
    /// Repaint the view.
    Notify,
}

/// An action seen as plain values.
pub enum ActionView {
    Send(UpdateView),
    ResetSelection,
    ScheduleSettle { revision: usize, source_revision: usize },
    ScheduleStreamingParse { generation: usize, delay: Duration },
    CancelTimers,
    Notify,
}

pub open spec fn action_view(a: SessionAction) -> ActionView {
    match a {
        SessionAction::Send(u) => ActionView::Send(update_view(u)),
        SessionAction::ResetSelection => ActionView::ResetSelection,
        SessionAction::ScheduleSettle { revision, source_revision } => ActionView::ScheduleSettle {
            revision,
            source_revision,
        },
        SessionAction::ScheduleStreamingParse { generation, delay } => ActionView::ScheduleStreamingParse {
            generation,
            delay,
        },
        SessionAction::CancelTimers => ActionView::CancelTimers,
        SessionAction::Notify => ActionView::Notify,
    }
}

pub open spec fn actions_view(actions: Seq<SessionAction>) -> Seq<ActionView> {
    actions.map_values(|a: SessionAction| action_view(a))
}

/// The decisions of a Markdown text view: which source it holds, which
/// revision of it is parsed, and how streamed text is batched and settled.
#[derive(Debug)]
pub struct TextViewSession {
    /// The complete received source.
    pub text: String,
    pub revision: usize,
    pub epoch: usize,
    pub rendered_revision: usize,
    pub source_revision: usize,
    pub settled_source_revision: usize,
    pub canonical_queued_source_revision: Option<usize>,
    /// The source revision that each queued canonical parse settles.
    pub canonical_parse_revisions: Vec<(usize, usize)>,
    /// Whether an explicit stream is open.
    pub streaming: bool,
    pub streaming_generation: usize,
    pub streaming_pending: String,
    /// Whether a progressive parse timer is running.
    pub streaming_parse_scheduled: bool,
    /// The least delay between progressive parses of an explicit stream.
    pub streaming_parse_interval: Duration,
    pub is_selecting: bool,
    pub parsed_error: Option<BuildError>,
    pub content: ParsedContent,
    pub options: MarkdownOptions,
    pub profile: MarkdownStyleProfile,
    /// Canonical source ranges of the search results.
    pub search_matches: Vec<Range<usize>>,
    pub active_search_match: Option<usize>,
    /// Whether the whole rendered text is selected.
    pub select_all: bool,
}

/// A session seen as plain values.
#[verifier::ext_equal]
pub struct SessionView {
    pub text: Seq<char>,
    pub revision: usize,
    pub epoch: usize,
    pub rendered_revision: usize,
    pub source_revision: usize,
    pub settled_source_revision: usize,
    pub canonical_queued_source_revision: Option<usize>,
    pub canonical_parse_revisions: Map<usize, usize>,
    pub streaming: bool,
    pub streaming_generation: usize,
    pub streaming_pending: Seq<char>,
    pub streaming_parse_scheduled: bool,
    pub streaming_parse_interval: Duration,
    pub is_selecting: bool,
    pub parsed_error: Option<BuildError>,
    pub content: ContentView,
    pub options: MarkdownOptions,
    pub profile: MarkdownStyleProfile,
    pub search_matches: Seq<Range<usize>>,
    pub active_search_match: Option<usize>,
    pub select_all: bool,
}

/// The map an association list of revisions stands for: each key with its
/// last value.
pub open spec fn revision_map(entries: Seq<(usize, usize)>) -> Map<usize, usize>
    decreases entries.len(),
{
    if entries.len() == 0 {
        Map::empty()
    } else {
        revision_map(entries.drop_last()).insert(entries.last().0, entries.last().1)
    }
}

pub open spec fn session_view(s: TextViewSession) -> SessionView {
    SessionView {
        text: s.text@,
        revision: s.revision,
        epoch: s.epoch,
        rendered_revision: s.rendered_revision,
        source_revision: s.source_revision,
        settled_source_revision: s.settled_source_revision,
        canonical_queued_source_revision: s.canonical_queued_source_revision,
        canonical_parse_revisions: revision_map(s.canonical_parse_revisions@),
        streaming: s.streaming,
        streaming_generation: s.streaming_generation,
        streaming_pending: s.streaming_pending@,
        streaming_parse_scheduled: s.streaming_parse_scheduled,
        streaming_parse_interval: s.streaming_parse_interval,
        is_selecting: s.is_selecting,
        parsed_error: s.parsed_error,
        content: content_view(s.content),
        options: s.options,
        profile: s.profile,
        search_matches: s.search_matches@,
        active_search_match: s.active_search_match,
        select_all: s.select_all,
    }
}

pub open spec fn next_wrapping(n: usize) -> usize {
    if n == usize::MAX {
        0
    } else {
        (n + 1) as usize
    }
}

/// The update that queues `text` as revision `revision + 1`, and the state
/// after it: a replacement opens a new epoch and forgets queued canonical
/// parses, and is parsed at once from the default settings, the parse then
/// seeding the background parser; other updates go to the background parser.
pub open spec fn increment_step(s: SessionView, text: Seq<char>, kind: UpdateKind) -> (SessionView, Seq<ActionView>) {
    let s1 = if kind == UpdateKind::Replace {
        SessionView {
            epoch: next_wrapping(s.epoch),
            canonical_queued_source_revision: None,
            canonical_parse_revisions: Map::empty(),
            ..s
        }
    } else {
        s
    };
    let s2 = SessionView { revision: (s1.revision + 1) as usize, ..s1 };
    let update = UpdateView { revision: s2.revision, epoch: s2.epoch, pending_text: text, kind, seed: None };
    if kind == UpdateKind::Replace {
        let (s3, shown) = match parsed_content(default_content(), text) {
            Some(c) => (
                SessionView {
                    content: c,
                    rendered_revision: s2.revision,
                    settled_source_revision: s2.source_revision,
                    parsed_error: None,
                    select_all: s2.is_selecting && s2.select_all,
                    ..s2
                },
                if s2.is_selecting {
                    Seq::<ActionView>::empty()
                } else {
                    seq![ActionView::ResetSelection]
                },
            ),
            None => (SessionView { parsed_error: Some(BuildError::PositionOverflow), ..s2 }, Seq::empty()),
        };
        (
            s3,
            shown + seq![
                ActionView::Notify,
                ActionView::Send(UpdateView { kind: UpdateKind::Seed, seed: Some(s3.content), ..update }),
            ],
        )
    } else {
        (s2, seq![ActionView::Send(update)])
    }
}

impl TextViewSession {
    /// Queues `text` as the next revision (see [`increment_step`]).
    #[verifier::rlimit(60)]
    fn increment_update(&mut self, text: &str, kind: UpdateKind, actions: &mut Vec<SessionAction>)
        requires
            old(self).revision < usize::MAX,
        ensures
            session_view(*final(self)) == increment_step(session_view(*old(self)), text@, kind).0,
            actions_view(final(actions)@) == actions_view(old(actions)@) + increment_step(
                session_view(*old(self)),
                text@,
                kind,
            ).1,
    {
        let ghost s0 = session_view(*self);
        let ghost a0 = actions_view(actions@);
        let replace = match kind {
            UpdateKind::Replace => true,
            _ => false,
        };
        if replace {
            self.epoch = if self.epoch == usize::MAX {
                0
            } else {
                self.epoch + 1
            };
            self.canonical_queued_source_revision = None;
            self.canonical_parse_revisions = Vec::new();
            proof {
                assert(revision_map(self.canonical_parse_revisions@) =~= Map::<usize, usize>::empty());
            }
        }
        self.revision = self.revision + 1;
        if replace {
            let ghost s2 = session_view(*self);
            let ghost shown: Seq<ActionView> = Seq::empty();
            match parse_content(empty_content(), text) {
                Ok(content) => {
                    self.content = content;
                    self.rendered_revision = self.revision;
                    self.settled_source_revision = self.source_revision;
                    self.parsed_error = None;
                    if !self.is_selecting {
                        self.select_all = false;
                        actions.push(SessionAction::ResetSelection);
                    }
                },
                Err(_) => {
                    self.parsed_error = Some(BuildError::PositionOverflow);
                },
            }
            actions.push(SessionAction::Notify);
            let seed = ParsedContent {
                document: copy_document(&self.content.document),
                options: self.content.options,
                profile: self.content.profile,
            };
            actions.push(
                SessionAction::Send(
                    UpdateOptions {
                        revision: self.revision,
                        epoch: self.epoch,
                        pending_text: String::from_str(text),
                        kind: UpdateKind::Seed,
                        seed_content: Some(seed),
                    },
                ),
            );
            proof {
                assert(session_view(*self) =~= increment_step(s0, text@, kind).0);
                assert(actions_view(actions@) =~= a0 + increment_step(s0, text@, kind).1);
            }
        } else {
            actions.push(
                SessionAction::Send(
                    UpdateOptions {
                        revision: self.revision,
                        epoch: self.epoch,
                        pending_text: String::from_str(text),
                        kind,
                        seed_content: None,
                    },
                ),
            );
            proof {
                assert(session_view(*self) =~= increment_step(s0, text@, kind).0);
                assert(actions_view(actions@) =~= a0 + increment_step(s0, text@, kind).1);
            }
        }
    }
}

/// A parse that the background parser finished.
#[derive(Debug)]
pub struct ParsedUpdate {
    pub revision: usize,
    pub epoch: usize,
    pub kind: UpdateKind,
    pub result: Result<ParsedContent, BuildError>,
}

/// The state of a session holding `text` before its first update.
pub open spec fn initial_session(text: Seq<char>) -> SessionView {
    SessionView {
        text,
        revision: 0,
        epoch: 0,
        rendered_revision: 0,
        source_revision: 0,
        settled_source_revision: 0,
        canonical_queued_source_revision: None,
        canonical_parse_revisions: Map::empty(),
        streaming: false,
        streaming_generation: 0,
        streaming_pending: Seq::empty(),
        streaming_parse_scheduled: false,
        streaming_parse_interval: duration_from_millis(24),
        is_selecting: false,
        parsed_error: None,
        content: default_content(),
        options: default_content().options,
        profile: MarkdownStyleProfile::Agent,
        search_matches: Seq::empty(),
        active_search_match: None,
        select_all: false,
    }
}

/// The state after an explicit stream ends: a new generation that the old
/// timers no longer match, and no pending text.
pub open spec fn end_session_step(s: SessionView) -> (SessionView, Seq<ActionView>) {
    (
        SessionView {
            streaming_generation: next_wrapping(s.streaming_generation),
            streaming: false,
            streaming_pending: Seq::empty(),
            streaming_parse_scheduled: false,
            ..s
        },
        seq![ActionView::CancelTimers],
    )
}

/// The state after the pending streamed text is sent as one append.
pub open spec fn flush_step(s: SessionView) -> (SessionView, Seq<ActionView>) {
    let s1 = SessionView { streaming_parse_scheduled: false, ..s };
    if s.streaming_pending.len() == 0 {
        (s1, Seq::empty())
    } else {
        increment_step(SessionView { streaming_pending: Seq::empty(), ..s1 }, s.streaming_pending, UpdateKind::Append)
    }
}

/// The state after a canonical parse of the whole source is queued, unless
/// one is queued for this source revision or it is already settled.
pub open spec fn queue_canonical_step(s: SessionView) -> (SessionView, Seq<ActionView>) {
    if s.canonical_queued_source_revision == Some(s.source_revision) || s.settled_source_revision
        == s.source_revision {
        (s, Seq::empty())
    } else {
        let revision = (s.revision + 1) as usize;
        (
            SessionView {
                revision,
                canonical_queued_source_revision: Some(s.source_revision),
                canonical_parse_revisions: s.canonical_parse_revisions.insert(revision, s.source_revision),
                ..s
            },
            seq![
                ActionView::Send(
                    UpdateView { revision, epoch: s.epoch, pending_text: s.text, kind: UpdateKind::Canonical, seed: None },
                ),
            ],
        )
    }
}

/// The state after a finished parse arrives: one of another epoch, or not
/// newer than what is shown, is dropped; new content is shown, a canonical
/// parse settles the source revision it was queued for, and a failed
/// replacement is reported.
pub open spec fn receive_step(s: SessionView, revision: usize, epoch: usize, kind: UpdateKind, result: Result<ContentView, BuildError>) -> (
    SessionView,
    Seq<ActionView>,
) {
    if epoch != s.epoch || revision <= s.rendered_revision {
        (s, Seq::empty())
    } else {
        match result {
            Ok(content) => {
                let s1 = SessionView {
                    content,
                    rendered_revision: revision,
                    parsed_error: None,
                    select_all: s.select_all && !(kind == UpdateKind::Replace && !s.is_selecting),
                    ..s
                };
                let s2 = if kind == UpdateKind::Canonical {
                    let source_revision = if s.canonical_parse_revisions.dom().contains(revision) {
                        s.canonical_parse_revisions[revision]
                    } else {
                        s.source_revision
                    };
                    SessionView {
                        canonical_parse_revisions: s.canonical_parse_revisions.remove(revision),
                        settled_source_revision: source_revision,
                        canonical_queued_source_revision: if s.canonical_queued_source_revision == Some(source_revision) {
                            None
                        } else {
                            s.canonical_queued_source_revision
                        },
                        ..s1
                    }
                } else {
                    s1
                };
                (
                    s2,
                    if kind == UpdateKind::Replace && !s.is_selecting {
                        seq![ActionView::ResetSelection, ActionView::Notify]
                    } else {
                        seq![ActionView::Notify]
                    },
                )
            },
            Err(e) => (
                if kind == UpdateKind::Replace {
                    SessionView { parsed_error: Some(e), ..s }
                } else {
                    s
                },
                seq![ActionView::Notify],
            ),
        }
    }
}

pub open spec fn result_view(r: Result<ParsedContent, BuildError>) -> Result<ContentView, BuildError> {
    match r {
        Ok(c) => Ok(content_view(c)),
        Err(e) => Err(e),
    }
}

proof fn lemma_revision_map_without(entries: Seq<(usize, usize)>, key: usize, kept: Seq<(usize, usize)>)
    requires
        kept == entries.filter(|e: (usize, usize)| e.0 != key),
    ensures
        revision_map(kept) == revision_map(entries).remove(key),
    decreases entries.len(),
{
    reveal(Seq::filter);
    if entries.len() == 0 {
        assert(revision_map(entries).remove(key) =~= Map::<usize, usize>::empty());
    } else {
        let rest = entries.drop_last();
        let kept_rest = rest.filter(|e: (usize, usize)| e.0 != key);
        lemma_revision_map_without(rest, key, kept_rest);
        if entries.last().0 == key {
            assert(kept == kept_rest);
            assert(revision_map(entries).remove(key) =~= revision_map(rest).remove(key));
        } else {
            assert(kept == kept_rest.push(entries.last()));
            assert(kept.drop_last() =~= kept_rest);
            assert(revision_map(kept) =~= revision_map(entries).remove(key));
        }
    }
}

/// Removes every entry for `key`, and gives the value of its last one.
fn take_revision(entries: &mut Vec<(usize, usize)>, key: usize) -> (found: Option<usize>)
    ensures
        revision_map(final(entries)@) == revision_map(old(entries)@).remove(key),
        found == if revision_map(old(entries)@).dom().contains(key) {
            Some(revision_map(old(entries)@)[key])
        } else {
            None
        },
{
    let ghost all = entries@;
    let mut kept: Vec<(usize, usize)> = Vec::new();
    let mut found: Option<usize> = None;
    let mut k: usize = 0;
    while k < entries.len()
        invariant
            k <= entries@.len(),
            entries@ == all,
            kept@ == all.take(k as int).filter(|e: (usize, usize)| e.0 != key),
            found == if revision_map(all.take(k as int)).dom().contains(key) {
                Some(revision_map(all.take(k as int))[key])
            } else {
                None
            },
        decreases entries@.len() - k,
    {
        proof {
            reveal(Seq::filter);
            assert(all.take(k + 1).drop_last() =~= all.take(k as int));
        }
        let e = entries[k];
        if e.0 == key {
            found = Some(e.1);
        } else {
            kept.push(e);
        }
        k += 1;
    }
    proof {
        assert(all.take(k as int) =~= all);
        lemma_revision_map_without(all, key, kept@);
    }
    *entries = kept;
    found
}

/// The block holding a source position: the last of the sorted block
/// starts at or before it, or the first block.
pub open spec fn block_at(starts: Seq<usize>, source_index: usize) -> int {
    let count = starts.filter(|s: usize| s <= source_index).len();
    if count == 0 {
        0
    } else {
        count - 1
    }
}

impl TextViewSession {
    /// A session holding `text`, queued at once as a replacement (see
    /// [`increment_step`]).
    pub fn new(text: &str, actions: &mut Vec<SessionAction>) -> (session: Self)
        ensures
            session_view(session) == increment_step(initial_session(text@), text@, UpdateKind::Replace).0,
            actions_view(final(actions)@) == actions_view(old(actions)@) + increment_step(
                initial_session(text@),
                text@,
                UpdateKind::Replace,
            ).1,
    {
        let mut session = TextViewSession {
            text: String::from_str(text),
            revision: 0,
            epoch: 0,
            rendered_revision: 0,
            source_revision: 0,
            settled_source_revision: 0,
            canonical_queued_source_revision: None,
            canonical_parse_revisions: Vec::new(),
            streaming: false,
            streaming_generation: 0,
            streaming_pending: String::new(),
            streaming_parse_scheduled: false,
            streaming_parse_interval: StreamingMarkdownConfig::default().parse_interval,
            is_selecting: false,
            parsed_error: None,
            content: empty_content(),
            options: MarkdownOptions::default(),
            profile: MarkdownStyleProfile::Agent,
            search_matches: Vec::new(),
            active_search_match: None,
            select_all: false,
        };
        proof {
            assert(revision_map(session.canonical_parse_revisions@) =~= Map::<usize, usize>::empty());
            assert(session_view(session) =~= initial_session(text@));
        }
        session.increment_update(text, UpdateKind::Replace, actions);
        session
    }

    /// The source of the shown document.
    pub fn source(&self) -> (source: String)
        ensures
            source@ == content_view(self.content).document.source,
    {
        self.content.document.source.clone()
    }

    /// The complete received source, with streamed text not parsed yet.
    pub fn complete_source(&self) -> (source: String)
        ensures
            source@ == self.text@,
    {
        self.text.clone()
    }

    /// Whether a newer revision is waiting to be shown.
    pub fn is_parsing(&self) -> (parsing: bool)
        ensures
            parsing == (self.rendered_revision < self.revision || self.streaming_pending@.len() > 0),
    {
        self.rendered_revision < self.revision || !self.streaming_pending.as_str().is_empty()
    }

    /// The index of the top-level block that holds `source_index` (see
    /// [`block_at`]); the starts are sorted.
    pub fn scroll_block_for(&self, source_index: usize) -> (index: usize)
        requires
            forall|i: int, j: int|
                0 <= i <= j < self.content.document.root_block_starts@.len() ==> self.content.document.root_block_starts@[i]
                    <= self.content.document.root_block_starts@[j],
        ensures
            index == block_at(self.content.document.root_block_starts@, source_index),
    {
        let starts = &self.content.document.root_block_starts;
        let mut count: usize = 0;
        while count < starts.len() && starts[count] <= source_index
            invariant
                count <= starts@.len(),
                forall|i: int, j: int| 0 <= i <= j < starts@.len() ==> starts@[i] <= starts@[j],
                forall|i: int| 0 <= i < count ==> starts@[i] <= source_index,
            decreases starts@.len() - count,
        {
            count += 1;
        }
        proof {
            reveal(Seq::filter);
            assert(starts@.filter(|s: usize| s <= source_index) =~= starts@.take(count as int)) by {
                lemma_sorted_filter_prefix(starts@, source_index, count as int);
            }
        }
        if count == 0 {
            0
        } else {
            count - 1
        }
    }
}

proof fn lemma_sorted_filter_prefix(starts: Seq<usize>, bound: usize, count: int)
    requires
        0 <= count <= starts.len(),
        forall|i: int, j: int| 0 <= i <= j < starts.len() ==> starts[i] <= starts[j],
        forall|i: int| 0 <= i < count ==> starts[i] <= bound,
        count < starts.len() ==> starts[count] > bound,
    ensures
        starts.filter(|s: usize| s <= bound) =~= starts.take(count),
    decreases starts.len(),
{
    reveal(Seq::filter);
    if starts.len() > 0 {
        if count == starts.len() {
            lemma_sorted_filter_prefix(starts.drop_last(), bound, count - 1);
            assert(starts.take(count) =~= starts.drop_last().take(count - 1).push(starts.last()));
        } else {
            lemma_sorted_filter_prefix(starts.drop_last(), bound, count);
            assert(starts.last() > bound);
            assert(starts.take(count) =~= starts.drop_last().take(count));
        }
    }
}

/// The state after text is appended: the source grows and changes
/// revision; in an explicit stream the text waits for the next progressive
/// parse, otherwise it is sent as an append and the idle settle timer
/// restarts.
pub open spec fn push_step(s: SessionView, text: Seq<char>) -> (SessionView, Seq<ActionView>) {
    if text.len() == 0 {
        (s, Seq::empty())
    } else {
        let s1 = SessionView {
            text: s.text + text,
            source_revision: next_wrapping(s.source_revision),
            canonical_queued_source_revision: None,
            ..s
        };
        if s1.streaming {
            let s2 = SessionView { streaming_pending: s1.streaming_pending + text, ..s1 };
            if s2.streaming_parse_scheduled {
                (s2, Seq::empty())
            } else {
                (
                    SessionView { streaming_parse_scheduled: true, ..s2 },
                    seq![
                        ActionView::ScheduleStreamingParse {
                            generation: s2.streaming_generation,
                            delay: s2.streaming_parse_interval,
                        },
                    ],
                )
            }
        } else {
            let (s2, a) = increment_step(s1, text, UpdateKind::Append);
            (
                s2,
                a + seq![ActionView::ScheduleSettle { revision: s2.revision, source_revision: s2.source_revision }],
            )
        }
    }
}

/// The state after the source is replaced: any stream ends; nothing more
/// happens when the source is the same and no streamed text was waiting;
/// otherwise the source changes revision and is queued as a replacement.
pub open spec fn set_text_step(s: SessionView, text: Seq<char>) -> (SessionView, Seq<ActionView>) {
    let had_pending = s.streaming_pending.len() > 0;
    let (s1, a1) = end_session_step(s);
    if s1.text == text && !had_pending {
        (s1, a1)
    } else {
        let s2 = SessionView {
            text,
            source_revision: next_wrapping(s1.source_revision),
            canonical_queued_source_revision: None,
            parsed_error: None,
            ..s1
        };
        let (s3, a3) = increment_step(s2, text, UpdateKind::Replace);
        (s3, a1 + a3)
    }
}

/// The state after an explicit stream opens: an open one first sends its
/// pending text; the new stream has a new generation and nothing pending.
pub open spec fn begin_step(s: SessionView, parse_interval: Duration) -> (SessionView, Seq<ActionView>) {
    let (s1, a1) = if s.streaming {
        flush_step(s)
    } else {
        (s, Seq::empty())
    };
    (
        SessionView {
            streaming_generation: next_wrapping(s1.streaming_generation),
            streaming: true,
            streaming_pending: Seq::empty(),
            streaming_parse_scheduled: false,
            streaming_parse_interval: parse_interval,
            ..s1
        },
        a1 + seq![ActionView::CancelTimers, ActionView::Notify],
    )
}

/// The state after a stream finishes: its pending text is sent, it ends,
/// and a canonical parse is queued.
pub open spec fn finish_step(s: SessionView) -> (SessionView, Seq<ActionView>) {
    let (s1, a1) = flush_step(s);
    let (s2, a2) = end_session_step(s1);
    let (s3, a3) = queue_canonical_step(s2);
    (s3, a1 + a2 + a3 + seq![ActionView::Notify])
}

impl TextViewSession {
    /// Ends an explicit stream (see [`end_session_step`]).
    fn end_streaming_session(&mut self, actions: &mut Vec<SessionAction>)
        ensures
            session_view(*final(self)) == end_session_step(session_view(*old(self))).0,
            actions_view(final(actions)@) == actions_view(old(actions)@) + end_session_step(session_view(*old(self))).1,
    {
        let ghost a0 = actions_view(actions@);
        self.streaming_generation = if self.streaming_generation == usize::MAX {
            0
        } else {
            self.streaming_generation + 1
        };
        self.streaming = false;
        self.streaming_pending = String::new();
        self.streaming_parse_scheduled = false;
        actions.push(SessionAction::CancelTimers);
        proof {
            assert(session_view(*self) =~= end_session_step(session_view(*old(self))).0);
            assert(actions_view(actions@) =~= a0 + end_session_step(session_view(*old(self))).1);
        }
    }

    /// Sends the pending streamed text as one append (see [`flush_step`]).
    fn flush_streaming_pending(&mut self, actions: &mut Vec<SessionAction>)
        requires
            old(self).revision < usize::MAX,
        ensures
            session_view(*final(self)) == flush_step(session_view(*old(self))).0,
            actions_view(final(actions)@) == actions_view(old(actions)@) + flush_step(session_view(*old(self))).1,
    {
        let ghost a0 = actions_view(actions@);
        self.streaming_parse_scheduled = false;
        if self.streaming_pending.as_str().is_empty() {
            proof {
                assert(session_view(*self) =~= flush_step(session_view(*old(self))).0);
                assert(actions_view(actions@) =~= a0 + flush_step(session_view(*old(self))).1);
            }
            return;
        }
        let mut pending = String::new();
        std::mem::swap(&mut pending, &mut self.streaming_pending);
        self.increment_update(pending.as_str(), UpdateKind::Append, actions);
    }

    /// Queues a canonical parse (see [`queue_canonical_step`]).
    fn queue_canonical_parse(&mut self, actions: &mut Vec<SessionAction>)
        requires
            old(self).revision < usize::MAX,
        ensures
            session_view(*final(self)) == queue_canonical_step(session_view(*old(self))).0,
            actions_view(final(actions)@) == actions_view(old(actions)@) + queue_canonical_step(session_view(*old(self))).1,
    {
        let ghost a0 = actions_view(actions@);
        let queued = match self.canonical_queued_source_revision {
            Some(r) => r == self.source_revision,
            None => false,
        };
        if queued || self.settled_source_revision == self.source_revision {
            proof {
                assert(actions_view(actions@) =~= a0 + queue_canonical_step(session_view(*old(self))).1);
            }
            return;
        }
        self.revision = self.revision + 1;
        self.canonical_queued_source_revision = Some(self.source_revision);
        self.canonical_parse_revisions.push((self.revision, self.source_revision));
        actions.push(
            SessionAction::Send(
                UpdateOptions {
                    revision: self.revision,
                    epoch: self.epoch,
                    pending_text: self.text.clone(),
                    kind: UpdateKind::Canonical,
                    seed_content: None,
                },
            ),
        );
        proof {
            assert(self.canonical_parse_revisions@.drop_last() =~= old(self).canonical_parse_revisions@);
            assert(session_view(*self) =~= queue_canonical_step(session_view(*old(self))).0);
            assert(actions_view(actions@) =~= a0 + queue_canonical_step(session_view(*old(self))).1);
        }
    }

    /// Appends streamed text (see [`push_step`]).
    pub fn push_str(&mut self, new_text: &str, actions: &mut Vec<SessionAction>)
        requires
            old(self).revision < usize::MAX,
        ensures
            session_view(*final(self)) == push_step(session_view(*old(self)), new_text@).0,
            actions_view(final(actions)@) == actions_view(old(actions)@) + push_step(session_view(*old(self)), new_text@).1,
    {
        let ghost a0 = actions_view(actions@);
        if new_text.is_empty() {
            proof {
                assert(actions_view(actions@) =~= a0 + push_step(session_view(*old(self)), new_text@).1);
            }
            return;
        }
        self.text.append(new_text);
        self.source_revision = if self.source_revision == usize::MAX {
            0
        } else {
            self.source_revision + 1
        };
        self.canonical_queued_source_revision = None;
        if self.streaming {
            self.streaming_pending.append(new_text);
            if !self.streaming_parse_scheduled {
                self.streaming_parse_scheduled = true;
                actions.push(
                    SessionAction::ScheduleStreamingParse {
                        generation: self.streaming_generation,
                        delay: self.streaming_parse_interval,
                    },
                );
            }
            proof {
                assert(session_view(*self) =~= push_step(session_view(*old(self)), new_text@).0);
                assert(actions_view(actions@) =~= a0 + push_step(session_view(*old(self)), new_text@).1);
            }
        } else {
            let ghost old_view = session_view(*old(self));
            let ghost s1 = session_view(*self);
            proof {
                assert(s1 =~= SessionView {
                    text: old_view.text + new_text@,
                    source_revision: next_wrapping(old_view.source_revision),
                    canonical_queued_source_revision: None,
                    ..old_view
                });
            }
            let ghost a1 = actions_view(actions@);
            self.increment_update(new_text, UpdateKind::Append, actions);
            let ghost r = increment_step(s1, new_text@, UpdateKind::Append);
            actions.push(SessionAction::ScheduleSettle { revision: self.revision, source_revision: self.source_revision });
            proof {
                assert(actions_view(actions@) =~= a1 + r.1 + seq![
                    ActionView::ScheduleSettle { revision: r.0.revision, source_revision: r.0.source_revision },
                ]);
                assert(actions_view(actions@) =~= a0 + push_step(old_view, new_text@).1);
            }
        }
    }

    /// Replaces the source (see [`set_text_step`]).
    pub fn set_text(&mut self, text: &str, actions: &mut Vec<SessionAction>)
        requires
            old(self).revision < usize::MAX,
        ensures
            session_view(*final(self)) == set_text_step(session_view(*old(self)), text@).0,
            actions_view(final(actions)@) == actions_view(old(actions)@) + set_text_step(session_view(*old(self)), text@).1,
    {
        let ghost a0 = actions_view(actions@);
        let had_pending = !self.streaming_pending.as_str().is_empty();
        self.end_streaming_session(actions);
        let ghost a1 = actions_view(actions@);
        let candidate = String::from_str(text);
        let same = self.text == candidate;
        if same && !had_pending {
            return;
        }
        self.text = candidate;
        self.source_revision = if self.source_revision == usize::MAX {
            0
        } else {
            self.source_revision + 1
        };
        self.canonical_queued_source_revision = None;
        self.parsed_error = None;
        let ghost s2 = session_view(*self);
        let ghost a2 = actions_view(actions@);
        self.increment_update(text, UpdateKind::Replace, actions);
        proof {
            let r1 = end_session_step(session_view(*old(self)));
            assert(s2 =~= SessionView {
                text: text@,
                source_revision: next_wrapping(r1.0.source_revision),
                canonical_queued_source_revision: None,
                parsed_error: None,
                ..r1.0
            });
            assert(actions_view(actions@) =~= a0 + set_text_step(session_view(*old(self)), text@).1);
        }
    }

    /// Opens an explicit stream with the default batching (see
    /// [`begin_step`]).
    pub fn begin_streaming(&mut self, actions: &mut Vec<SessionAction>)
        requires
            old(self).revision < usize::MAX,
        ensures
            session_view(*final(self)) == begin_step(session_view(*old(self)), duration_from_millis(24)).0,
            actions_view(final(actions)@) == actions_view(old(actions)@) + begin_step(
                session_view(*old(self)),
                duration_from_millis(24),
            ).1,
    {
        self.begin_streaming_with_config(StreamingMarkdownConfig::default(), actions);
    }

    /// Opens an explicit stream whose progressive parses are at least
    /// `config.parse_interval` apart (see [`begin_step`]).
    pub fn begin_streaming_with_config(&mut self, config: StreamingMarkdownConfig, actions: &mut Vec<SessionAction>)
        requires
            old(self).revision < usize::MAX,
        ensures
            session_view(*final(self)) == begin_step(session_view(*old(self)), config.parse_interval).0,
            actions_view(final(actions)@) == actions_view(old(actions)@) + begin_step(
                session_view(*old(self)),
                config.parse_interval,
            ).1,
    {
        let ghost a0 = actions_view(actions@);
        let ghost s0 = session_view(*self);
        if self.streaming {
            self.flush_streaming_pending(actions);
        }
        let ghost r1 = if s0.streaming {
            flush_step(s0)
        } else {
            (s0, Seq::<ActionView>::empty())
        };
        proof {
            assert(session_view(*self) == r1.0);
            assert(actions_view(actions@) =~= a0 + r1.1);
        }
        self.streaming_generation = if self.streaming_generation == usize::MAX {
            0
        } else {
            self.streaming_generation + 1
        };
        self.streaming = true;
        self.streaming_pending = String::new();
        self.streaming_parse_scheduled = false;
        self.streaming_parse_interval = config.parse_interval;
        actions.push(SessionAction::CancelTimers);
        actions.push(SessionAction::Notify);
        proof {
            assert(session_view(*self) =~= begin_step(s0, config.parse_interval).0);
            assert(actions_view(actions@) =~= a0 + r1.1 + seq![ActionView::CancelTimers, ActionView::Notify]);
            assert(begin_step(s0, config.parse_interval).1 == r1.1 + seq![ActionView::CancelTimers, ActionView::Notify]);
            assert(actions_view(actions@) =~= a0 + begin_step(s0, config.parse_interval).1);
        }
    }

    /// Finishes a stream (see [`finish_step`]).
    pub fn finish_streaming(&mut self, actions: &mut Vec<SessionAction>)
        requires
            old(self).revision < usize::MAX - 1,
        ensures
            session_view(*final(self)) == finish_step(session_view(*old(self))).0,
            actions_view(final(actions)@) == actions_view(old(actions)@) + finish_step(session_view(*old(self))).1,
    {
        let ghost a0 = actions_view(actions@);
        let ghost s0 = session_view(*self);
        self.flush_streaming_pending(actions);
        let ghost r1 = flush_step(s0);
        self.end_streaming_session(actions);
        let ghost r2 = end_session_step(r1.0);
        proof {
            assert(actions_view(actions@) =~= a0 + r1.1 + r2.1);
        }
        self.queue_canonical_parse(actions);
        let ghost r3 = queue_canonical_step(r2.0);
        actions.push(SessionAction::Notify);
        proof {
            assert(actions_view(actions@) =~= a0 + r1.1 + r2.1 + r3.1 + seq![ActionView::Notify]);
            assert(actions_view(actions@) =~= a0 + finish_step(s0).1);
        }
    }

    /// The progressive parse timer of generation `generation` fired: the
    /// pending text of the same open stream is sent.
    pub fn streaming_timer_fired(&mut self, generation: usize, actions: &mut Vec<SessionAction>)
        requires
            old(self).revision < usize::MAX,
        ensures
            (old(self).streaming_generation == generation && old(self).streaming) ==> (session_view(*final(self))
                == flush_step(session_view(*old(self))).0 && actions_view(final(actions)@) == actions_view(old(actions)@)
                + flush_step(session_view(*old(self))).1),
            !(old(self).streaming_generation == generation && old(self).streaming) ==> (session_view(*final(self))
                == session_view(*old(self)) && final(actions)@ == old(actions)@),
    {
        if self.streaming_generation != generation || !self.streaming {
            return;
        }
        self.flush_streaming_pending(actions);
    }

    /// The idle settle timer fired: where nothing changed since it started,
    /// a canonical parse is queued.
    pub fn settle_timer_fired(&mut self, revision: usize, source_revision: usize, actions: &mut Vec<SessionAction>)
        requires
            old(self).revision < usize::MAX,
        ensures
            (old(self).revision == revision && old(self).source_revision == source_revision) ==> (session_view(
                *final(self),
            ) == queue_canonical_step(session_view(*old(self))).0 && actions_view(final(actions)@) == actions_view(
                old(actions)@,
            ) + queue_canonical_step(session_view(*old(self))).1 + seq![ActionView::Notify]),
            !(old(self).revision == revision && old(self).source_revision == source_revision) ==> (session_view(
                *final(self),
            ) == session_view(*old(self)) && final(actions)@ == old(actions)@),
    {
        if self.revision != revision || self.source_revision != source_revision {
            return;
        }
        let ghost a0 = actions_view(actions@);
        self.queue_canonical_parse(actions);
        actions.push(SessionAction::Notify);
        proof {
            assert(actions_view(actions@) =~= a0 + queue_canonical_step(session_view(*old(self))).1 + seq![
                ActionView::Notify,
            ]);
        }
    }

    /// Takes a finished parse (see [`receive_step`]).
    pub fn receive(&mut self, update: ParsedUpdate, actions: &mut Vec<SessionAction>)
        ensures
            session_view(*final(self)) == receive_step(
                session_view(*old(self)),
                update.revision,
                update.epoch,
                update.kind,
                result_view(update.result),
            ).0,
            actions_view(final(actions)@) == actions_view(old(actions)@) + receive_step(
                session_view(*old(self)),
                update.revision,
                update.epoch,
                update.kind,
                result_view(update.result),
            ).1,
    {
        let ghost a0 = actions_view(actions@);
        let ghost s0 = session_view(*self);
        let ghost r0 = result_view(update.result);
        if update.epoch != self.epoch || update.revision <= self.rendered_revision {
            proof {
                assert(actions_view(actions@) =~= a0 + receive_step(s0, update.revision, update.epoch, update.kind, r0).1);
            }
            return;
        }
        let replace = match update.kind {
            UpdateKind::Replace => true,
            _ => false,
        };
        let canonical = match update.kind {
            UpdateKind::Canonical => true,
            _ => false,
        };
        match update.result {
            Ok(content) => {
                self.content = content;
                self.rendered_revision = update.revision;
                self.parsed_error = None;
                if canonical {
                    let source_revision = match take_revision(&mut self.canonical_parse_revisions, update.revision) {
                        Some(r) => r,
                        None => self.source_revision,
                    };
                    self.settled_source_revision = source_revision;
                    let clear = match self.canonical_queued_source_revision {
                        Some(q) => q == source_revision,
                        None => false,
                    };
                    if clear {
                        self.canonical_queued_source_revision = None;
                    }
                }
                if replace && !self.is_selecting {
                    self.select_all = false;
                    actions.push(SessionAction::ResetSelection);
                }
            },
            Err(e) => {
                if replace {
                    self.parsed_error = Some(e);
                }
            },
        }
        actions.push(SessionAction::Notify);
        proof {
            assert(session_view(*self) =~= receive_step(s0, update.revision, update.epoch, update.kind, r0).0);
            assert(actions_view(actions@) =~= a0 + receive_step(s0, update.revision, update.epoch, update.kind, r0).1);
        }
    }

    /// Replaces the parse options; changed options reparse the source as a
    /// replacement.
    pub fn set_markdown_options(&mut self, options: MarkdownOptions, actions: &mut Vec<SessionAction>)
        requires
            old(self).revision < usize::MAX,
        ensures
            old(self).options == options ==> session_view(*final(self)) == session_view(*old(self))
                && final(actions)@ == old(actions)@,
            old(self).options != options ==> ({
                let s1 = SessionView {
                    options,
                    content: ContentView { options, ..session_view(*old(self)).content },
                    ..session_view(*old(self))
                };
                &&& session_view(*final(self)) == increment_step(s1, old(self).text@, UpdateKind::Replace).0
                &&& actions_view(final(actions)@) == actions_view(old(actions)@) + increment_step(
                    s1,
                    old(self).text@,
                    UpdateKind::Replace,
                ).1
            }),
    {
        let same = self.options.parse_links_only == options.parse_links_only && self.options.parse_html
            == options.parse_html && self.options.render_mermaid_diagrams == options.render_mermaid_diagrams
            && self.options.parse_heading_slugs == options.parse_heading_slugs
            && self.options.render_metadata_blocks == options.render_metadata_blocks;
        if same {
            return;
        }
        self.options = options;
        self.content.options = options;
        let text = self.text.clone();
        self.increment_update(text.as_str(), UpdateKind::Replace, actions);
    }

    /// Replaces the style profile; a changed profile reparses the source as
    /// a replacement, for the breaks that depend on it.
    pub fn set_markdown_style_profile(&mut self, profile: MarkdownStyleProfile, actions: &mut Vec<SessionAction>)
        requires
            old(self).revision < usize::MAX,
        ensures
            old(self).profile == profile ==> session_view(*final(self)) == session_view(*old(self))
                && final(actions)@ == old(actions)@,
            old(self).profile != profile ==> ({
                let s1 = SessionView {
                    profile,
                    content: ContentView { profile, ..session_view(*old(self)).content },
                    ..session_view(*old(self))
                };
                &&& session_view(*final(self)) == increment_step(s1, old(self).text@, UpdateKind::Replace).0
                &&& actions_view(final(actions)@) == actions_view(old(actions)@) + increment_step(
                    s1,
                    old(self).text@,
                    UpdateKind::Replace,
                ).1
            }),
    {
        let same = match (self.profile, profile) {
            (MarkdownStyleProfile::Agent, MarkdownStyleProfile::Agent) => true,
            (MarkdownStyleProfile::Editor, MarkdownStyleProfile::Editor) => true,
            (MarkdownStyleProfile::Preview, MarkdownStyleProfile::Preview) => true,
            _ => false,
        };
        if same {
            return;
        }
        self.profile = profile;
        self.content.profile = profile;
        let text = self.text.clone();
        self.increment_update(text.as_str(), UpdateKind::Replace, actions);
    }
}

/// The index `active` when it names one of `count` results.
pub open spec fn active_within(active: Option<usize>, count: nat) -> Option<usize> {
    match active {
        Some(i) => if i < count {
            Some(i)
        } else {
            None
        },
        None => None,
    }
}

/// The results of a search: none for an empty query or a pattern that
/// `regex` does not accept, otherwise what it finds.
pub open spec fn search_results(text: Seq<char>, query: Seq<char>, case_sensitive: bool) -> Seq<Range<usize>> {
    if query.len() == 0 {
        Seq::empty()
    } else {
        match literal_regex_matches(text, query, !case_sensitive) {
            Some(found) => found,
            None => Seq::empty(),
        }
    }
}

/// The state after the search results become `matches`, the first active.
pub open spec fn matches_step(s: SessionView, matches: Seq<Range<usize>>) -> SessionView {
    SessionView {
        search_matches: matches,
        active_search_match: if matches.len() > 0 {
            Some(0usize)
        } else {
            None
        },
        ..s
    }
}

impl TextViewSession {
    /// Replaces the source-indexed search ranges; the active one must be one
    /// of them.
    pub fn set_search_highlights(
        &mut self,
        highlights: Vec<Range<usize>>,
        active: Option<usize>,
        actions: &mut Vec<SessionAction>,
    )
        ensures
            session_view(*final(self)) == (SessionView {
                search_matches: highlights@,
                active_search_match: active_within(active, highlights@.len()),
                ..session_view(*old(self))
            }),
            actions_view(final(actions)@) == actions_view(old(actions)@).push(ActionView::Notify),
    {
        self.active_search_match = match active {
            Some(i) => if i < highlights.len() {
                Some(i)
            } else {
                None
            },
            None => None,
        };
        self.search_matches = highlights;
        actions.push(SessionAction::Notify);
        proof {
            assert(actions_view(actions@) =~= actions_view(old(actions)@).push(ActionView::Notify));
        }
    }

    /// Removes every search highlight; nothing happens when there is none.
    pub fn clear_search_highlights(&mut self, actions: &mut Vec<SessionAction>)
        ensures
            old(self).search_matches@.len() == 0 && old(self).active_search_match is None ==> session_view(
                *final(self),
            ) == session_view(*old(self)) && final(actions)@ == old(actions)@,
            !(old(self).search_matches@.len() == 0 && old(self).active_search_match is None) ==> session_view(
                *final(self),
            ) == (SessionView {
                search_matches: Seq::empty(),
                active_search_match: None,
                ..session_view(*old(self))
            }) && actions_view(final(actions)@) == actions_view(old(actions)@).push(ActionView::Notify),
    {
        if self.search_matches.len() == 0 && self.active_search_match.is_none() {
            return;
        }
        self.search_matches = Vec::new();
        self.active_search_match = None;
        actions.push(SessionAction::Notify);
        proof {
            assert(session_view(*self) =~= (SessionView {
                search_matches: Seq::empty(),
                active_search_match: None,
                ..session_view(*old(self))
            }));
            assert(actions_view(actions@) =~= actions_view(old(actions)@).push(ActionView::Notify));
        }
    }

    /// Makes the result `index` the emphasized one, when there is such a
    /// result.
    pub fn set_active_search_match(&mut self, index: Option<usize>, actions: &mut Vec<SessionAction>)
        ensures
            session_view(*final(self)) == (SessionView {
                active_search_match: active_within(index, old(self).search_matches@.len()),
                ..session_view(*old(self))
            }),
            actions_view(final(actions)@) == actions_view(old(actions)@).push(ActionView::Notify),
    {
        self.active_search_match = match index {
            Some(i) => if i < self.search_matches.len() {
                Some(i)
            } else {
                None
            },
            None => None,
        };
        actions.push(SessionAction::Notify);
        proof {
            assert(actions_view(actions@) =~= actions_view(old(actions)@).push(ActionView::Notify));
        }
    }

    /// Shows the results of a search that `regex` answered with `found`
    /// (nothing when it refused the pattern), the first one active; returns
    /// how many there are.
    pub fn show_search_results(&mut self, found: Option<Vec<Range<usize>>>, actions: &mut Vec<SessionAction>) -> (count: usize)
        ensures
            ({
                let matches = match found {
                    Some(v) => v@,
                    None => Seq::<Range<usize>>::empty(),
                };
                &&& count == matches.len()
                &&& session_view(*final(self)) == matches_step(session_view(*old(self)), matches)
            }),
            actions_view(final(actions)@) == actions_view(old(actions)@).push(ActionView::Notify),
    {
        let matches = match found {
            Some(v) => v,
            None => Vec::new(),
        };
        let count = matches.len();
        let active = if count > 0 {
            Some(0)
        } else {
            None
        };
        self.set_search_highlights(matches, active, actions);
        count
    }

    /// Finds the literal occurrences of `query` in the complete source with
    /// `regex` and highlights them, the first one active; returns how many
    /// there are.
    pub fn search(&mut self, query: &str, case_sensitive: bool, actions: &mut Vec<SessionAction>) -> (count: usize)
        ensures
            count == search_results(old(self).text@, query@, case_sensitive).len(),
            session_view(*final(self)) == matches_step(
                session_view(*old(self)),
                search_results(old(self).text@, query@, case_sensitive),
            ),
            actions_view(final(actions)@) == actions_view(old(actions)@).push(ActionView::Notify),
    {
        let found = if query.is_empty() {
            None
        } else {
            find_literal_matches(self.text.as_str(), query, !case_sensitive)
        };
        self.show_search_results(found, actions)
    }

    /// Selects the whole rendered text.
    pub fn select_all(&mut self, actions: &mut Vec<SessionAction>)
        ensures
            session_view(*final(self)) == (SessionView {
                select_all: true,
                is_selecting: false,
                ..session_view(*old(self))
            }),
            actions_view(final(actions)@) == actions_view(old(actions)@).push(ActionView::Notify),
    {
        self.select_all = true;
        self.is_selecting = false;
        actions.push(SessionAction::Notify);
        proof {
            assert(actions_view(actions@) =~= actions_view(old(actions)@).push(ActionView::Notify));
        }
    }

    /// Clears the text selection, the whole-text one included.
    pub fn clear_selection(&mut self, actions: &mut Vec<SessionAction>)
        ensures
            session_view(*final(self)) == (SessionView {
                select_all: false,
                is_selecting: false,
                ..session_view(*old(self))
            }),
            actions_view(final(actions)@) == actions_view(old(actions)@) + seq![
                ActionView::ResetSelection,
                ActionView::Notify,
            ],
    {
        self.select_all = false;
        self.is_selecting = false;
        actions.push(SessionAction::ResetSelection);
        actions.push(SessionAction::Notify);
        proof {
            assert(actions_view(actions@) =~= actions_view(old(actions)@) + seq![
                ActionView::ResetSelection,
                ActionView::Notify,
            ]);
        }
    }
}

/// A finished parse never takes the view back: a parse of another epoch,
/// or one not newer than what is shown, changes nothing, and any other
/// leaves the shown revision newer than before.
pub proof fn lemma_stale_parses_are_dropped(
    s: SessionView,
    revision: usize,
    epoch: usize,
    kind: UpdateKind,
    result: Result<ContentView, BuildError>,
)
    ensures
        (epoch != s.epoch || revision <= s.rendered_revision) ==> receive_step(s, revision, epoch, kind, result) == (
        s,
        Seq::<ActionView>::empty()),
        receive_step(s, revision, epoch, kind, result).0.rendered_revision >= s.rendered_revision,
        receive_step(s, revision, epoch, kind, result).0.epoch == s.epoch,
        receive_step(s, revision, epoch, kind, result).0.text == s.text,
{
}

/// Appended text is never lost: after text is appended the complete
/// source ends with it, and in an explicit stream it also ends the text
/// waiting for the next progressive parse.
pub proof fn lemma_push_keeps_text(s: SessionView, text: Seq<char>)
    ensures
        push_step(s, text).0.text == s.text + text,
        s.streaming ==> push_step(s, text).0.streaming_pending == s.streaming_pending + text,
{
    if text.len() == 0 {
        assert(s.text + text =~= s.text);
        assert(s.streaming_pending + text =~= s.streaming_pending);
    }
}

} // verus!
