use std::time::Duration;
use vstd::prelude::*;

use crate::graphemes::{extended_graphemes, grapheme_clusters};

verus! {

/// What `Duration::from_millis` returns for a number of milliseconds.
pub uninterp spec fn duration_from_millis(millis: u64) -> Duration;

/// Trusted: calls `Duration::from_millis`, whose result depends on `millis`
/// alone.
#[verifier::external_body]
pub(crate) fn duration_millis(ms: u64) -> (duration: Duration)
    ensures
        duration == duration_from_millis(ms),
{
    Duration::from_millis(ms)
}

/// Controls how provider deltas are divided into display-sized frames.
#[derive(Clone, Copy, Debug, PartialEq, Eq)]
pub struct StreamingTextPacerConfig {
    /// Delay recommended between display chunks.
    pub frame_interval: Duration,
    /// Number of frames over which the current backlog should catch up.
    pub catch_up_frames: usize,
    /// Minimum number of graphemes emitted in one frame.
    pub min_graphemes_per_frame: usize,
    /// Maximum number of graphemes emitted in one frame.
    pub max_graphemes_per_frame: usize,
}

impl StreamingTextPacerConfig {
    /// The parameters that a pacer accepts.
    pub open spec fn is_valid(self) -> bool {
        &&& self.catch_up_frames > 0
        &&& self.min_graphemes_per_frame > 0
        &&& self.max_graphemes_per_frame >= self.min_graphemes_per_frame
    }
}

impl Default for StreamingTextPacerConfig {
    fn default() -> (config: Self)
        ensures
            config.frame_interval == duration_from_millis(24),
            config.catch_up_frames == 18,
            config.min_graphemes_per_frame == 12,
            config.max_graphemes_per_frame == 256,
    {
        StreamingTextPacerConfig {
            frame_interval: duration_millis(24),
            catch_up_frames: 18,
            min_graphemes_per_frame: 12,
            max_graphemes_per_frame: 256,
        }
    }
}

/// Number of graphemes one frame may carry for a backlog estimate.
pub open spec fn frame_budget(backlog: nat, config: StreamingTextPacerConfig) -> nat {
    let per_frame = if backlog % (config.catch_up_frames as nat) == 0 {
        backlog / (config.catch_up_frames as nat)
    } else {
        backlog / (config.catch_up_frames as nat) + 1
    };
    let clamped = if per_frame < config.min_graphemes_per_frame {
        config.min_graphemes_per_frame as nat
    } else if per_frame > config.max_graphemes_per_frame {
        config.max_graphemes_per_frame as nat
    } else {
        per_frame
    };
    if clamped < backlog {
        clamped
    } else {
        backlog
    }
}

/// Number of leading clusters, from position `i` on, that one chunk takes:
/// it stops after a newline cluster or once `budget` clusters are taken.
pub open spec fn chunk_len_from(clusters: Seq<Seq<char>>, budget: nat, i: nat) -> nat
    decreases clusters.len() - i,
{
    if i >= clusters.len() {
        clusters.len()
    } else if clusters[i as int] == seq!['\n'] || i + 1 == budget {
        i + 1
    } else {
        chunk_len_from(clusters, budget, i + 1)
    }
}

/// Number of clusters of `clusters` that one chunk takes.
pub open spec fn chunk_len(clusters: Seq<Seq<char>>, budget: nat) -> nat {
    chunk_len_from(clusters, budget, 0)
}

/// A chunk takes at least one cluster, never more than there are, and never
/// more than a positive budget allows.
pub proof fn lemma_chunk_len_bounds(clusters: Seq<Seq<char>>, budget: nat)
    requires
        clusters.len() > 0,
    ensures
        1 <= chunk_len(clusters, budget) <= clusters.len(),
        budget > 0 ==> chunk_len(clusters, budget) <= budget,
{
    lemma_chunk_len_from_bounds(clusters, budget, 0);
}

proof fn lemma_chunk_len_from_bounds(clusters: Seq<Seq<char>>, budget: nat, i: nat)
    requires
        i < clusters.len(),
    ensures
        i + 1 <= chunk_len_from(clusters, budget, i) <= clusters.len(),
        i < budget ==> chunk_len_from(clusters, budget, i) <= budget,
    decreases clusters.len() - i,
{
    if clusters[i as int] == seq!['\n'] || i + 1 == budget {
    } else if i + 1 < clusters.len() {
        lemma_chunk_len_from_bounds(clusters, budget, i + 1);
    }
}

/// A non-empty prefix of non-empty clusters flattens to non-empty text.
proof fn lemma_flatten_nonempty(clusters: Seq<Seq<char>>, k: int)
    requires
        0 < k <= clusters.len(),
        forall|i: int| 0 <= i < clusters.len() ==> (#[trigger] clusters[i]).len() > 0,
    ensures
        clusters.take(k).flatten().len() > 0,
{
    assert(clusters.take(k).first() == clusters[0]);
}

/// Buffers text deltas and emits stable-paced chunks on grapheme boundaries
/// recognized within the currently buffered text.
///
/// The host drives it with [`Self::take_chunk`] and waits for
/// [`Self::frame_interval`] between non-empty chunks. Concatenating all
/// emitted chunks and [`Self::drain`] always preserves the original order.
#[derive(Clone, Debug)]
pub struct StreamingTextPacer {
    pending: String,
    pending_graphemes: usize,
    config: StreamingTextPacerConfig,
}

impl StreamingTextPacer {
    /// The pacer's invariant: its parameters stay valid.
    pub closed spec fn wf(self) -> bool {
        self.config.is_valid()
    }

    /// The pacer seen as plain values.
    pub open spec fn view_of(self) -> PacerView {
        PacerView { pending: self.pending(), backlog: self.backlog(), config: self.config() }
    }

    /// The backlog estimate fits in a `usize`.
    pub proof fn lemma_backlog_fits(self)
        ensures
            self.backlog() <= usize::MAX,
    {
    }

    /// The buffered text that has not been emitted yet.
    pub closed spec fn pending(self) -> Seq<char> {
        self.pending@
    }

    /// The estimated number of buffered graphemes, which sizes the next chunk.
    pub closed spec fn backlog(self) -> nat {
        self.pending_graphemes as nat
    }

    /// The pacing parameters.
    pub closed spec fn config(self) -> StreamingTextPacerConfig {
        self.config
    }

    /// Create a pacer using the default LLM streaming parameters.
    pub fn new() -> (pacer: Self)
        ensures
            pacer.wf(),
            pacer.pending() == Seq::<char>::empty(),
            pacer.backlog() == 0,
            pacer.config().frame_interval == duration_from_millis(24),
            pacer.config().catch_up_frames == 18,
            pacer.config().min_graphemes_per_frame == 12,
            pacer.config().max_graphemes_per_frame == 256,
    {
        Self::with_config(StreamingTextPacerConfig::default())
    }

    /// Create a pacer with explicit frame and backlog parameters.
    pub fn with_config(config: StreamingTextPacerConfig) -> (pacer: Self)
        requires
            config.is_valid(),
        ensures
            pacer.wf(),
            pacer.pending() == Seq::<char>::empty(),
            pacer.backlog() == 0,
            pacer.config() == config,
    {
        StreamingTextPacer { pending: String::new(), pending_graphemes: 0, config }
    }

    /// Append one provider delta without changing its order.
    pub fn push_str(&mut self, delta: &str)
        requires
            old(self).wf(),
        ensures
            final(self).wf(),
            final(self).pending() == old(self).pending() + delta@,
            final(self).backlog() == if old(self).backlog() + extended_graphemes(delta@).len()
                > usize::MAX {
                usize::MAX as nat
            } else {
                old(self).backlog() + extended_graphemes(delta@).len()
            },
            final(self).config() == old(self).config(),
            delta@.len() == 0 ==> final(self).view_of() == old(self).view_of(),
            push_rel(old(self).view_of(), final(self).view_of(), delta@),
    {
        let clusters = grapheme_clusters(delta);
        proof {
            let gs = clusters@.map_values(|g: &str| g@);
            assert(gs.len() == clusters@.len());
            if delta@.len() == 0 && gs.len() > 0 {
                assert forall|i: int| 0 <= i < gs.len() implies (#[trigger] gs[i]).len() > 0 by {
                    assert(gs[i] == clusters@[i]@);
                }
                lemma_flatten_nonempty(gs, gs.len() as int);
                assert(gs.take(gs.len() as int) =~= gs);
            }
        }
        self.pending.append(delta);
        self.pending_graphemes = self.pending_graphemes.saturating_add(clusters.len());
    }

    /// Return whether all buffered text has been emitted.
    pub fn is_empty(&self) -> (empty: bool)
        ensures
            empty == (self.pending().len() == 0),
    {
        self.pending.as_str().is_empty()
    }

    /// Return the recommended delay between calls to [`Self::take_chunk`].
    pub fn frame_interval(&self) -> (interval: Duration)
        ensures
            interval == self.config().frame_interval,
    {
        self.config.frame_interval
    }

    /// Remove one adaptive display chunk without splitting a grapheme that is
    /// already present in the current buffer.
    ///
    /// A newline ends the chunk early so block boundaries can reach the
    /// Markdown parser without being combined with the following line.
    pub fn take_chunk(&mut self) -> (chunk: Option<String>)
        requires
            old(self).wf(),
        ensures
            final(self).wf(),
            final(self).config() == old(self).config(),
            old(self).pending().len() == 0 ==> chunk is None && *final(self) == *old(self),
            old(self).pending().len() > 0 ==> {
                let clusters = extended_graphemes(old(self).pending());
                let budget = frame_budget(old(self).backlog(), old(self).config());
                let taken = chunk_len(clusters, budget);
                &&& chunk is Some
                &&& 1 <= taken <= clusters.len()
                &&& budget > 0 ==> taken <= budget
                &&& chunk.unwrap()@.len() > 0
                &&& chunk.unwrap()@ == clusters.take(taken as int).flatten()
                &&& final(self).pending() == clusters.skip(taken as int).flatten()
                &&& chunk.unwrap()@ + final(self).pending() == old(self).pending()
                &&& final(self).backlog() == if final(self).pending().len() == 0
                    || old(self).backlog() <= taken {
                    0
                } else {
                    (old(self).backlog() - taken) as nat
                }
            },
            take_rel(
                old(self).view_of(),
                final(self).view_of(),
                match chunk {
                    Some(c) => Some(c@),
                    None => None,
                },
            ),
    {
        if self.pending.as_str().is_empty() {
            return None;
        }
        let backlog = self.pending_graphemes;
        let frames = self.config.catch_up_frames;
        let per_frame = if backlog % frames == 0 {
            backlog / frames
        } else {
            assert(backlog / frames < usize::MAX) by (nonlinear_arith)
                requires
                    frames > 1,
                    backlog <= usize::MAX,
            ;
            backlog / frames + 1
        };
        let clamped = if per_frame < self.config.min_graphemes_per_frame {
            self.config.min_graphemes_per_frame
        } else if per_frame > self.config.max_graphemes_per_frame {
            self.config.max_graphemes_per_frame
        } else {
            per_frame
        };
        let budget = if clamped < backlog {
            clamped
        } else {
            backlog
        };
        let ghost old_pending = self.pending@;
        let (chunk, remainder, count) = {
            let clusters = grapheme_clusters(self.pending.as_str());
            let ghost gs = clusters@.map_values(|g: &str| g@);
            assert(gs == extended_graphemes(old_pending));
            let mut chunk = String::new();
            let mut count: usize = 0;
            while count < clusters.len()
                invariant_except_break
                    count <= clusters@.len(),
                    gs.len() == clusters@.len(),
                    forall|j: int| 0 <= j < gs.len() ==> gs[j] == (#[trigger] clusters@[j])@,
                    chunk@ == gs.take(count as int).flatten(),
                    chunk_len_from(gs, budget as nat, count as nat) == chunk_len(gs, budget as nat),
                ensures
                    count <= clusters@.len(),
                    chunk@ == gs.take(count as int).flatten(),
                    count == chunk_len(gs, budget as nat),
                decreases clusters.len() - count,
            {
                let cluster = clusters[count];
                let ghost before = count;
                assert(gs[before as int] == cluster@);
                chunk.append(cluster);
                count = count + 1;
                proof {
                    assert(gs.take(count as int) == gs.take(before as int).push(gs[before as int]));
                    gs.take(before as int).lemma_flatten_push(gs[before as int]);
                }
                let is_newline = cluster.unicode_len() == 1 && cluster.get_char(0) == '\n';
                proof {
                    if cluster@ == seq!['\n'] {
                        assert(cluster@.len() == 1 && cluster@[0] == '\n');
                    }
                    if cluster@.len() == 1 && cluster@[0] == '\n' {
                        assert(cluster@ =~= seq!['\n']);
                    }
                }
                proof {
                    assert(is_newline <==> gs[before as int] == seq!['\n']);
                    assert(chunk_len_from(gs, budget as nat, before as nat) == if gs[before as int]
                        == seq!['\n'] || before + 1 == budget {
                        (before + 1) as nat
                    } else {
                        chunk_len_from(gs, budget as nat, count as nat)
                    });
                }
                if is_newline || count == budget {
                    break;
                }
            }
            let mut remainder = String::new();
            let mut index = count;
            while index < clusters.len()
                invariant
                    count <= index <= clusters@.len(),
                    gs.len() == clusters@.len(),
                    forall|j: int| 0 <= j < gs.len() ==> gs[j] == (#[trigger] clusters@[j])@,
                    remainder@ == gs.subrange(count as int, index as int).flatten(),
                decreases clusters.len() - index,
            {
                let cluster = clusters[index];
                let ghost before = index;
                remainder.append(cluster);
                index = index + 1;
                proof {
                    assert(gs.subrange(count as int, index as int) == gs.subrange(
                        count as int,
                        before as int,
                    ).push(gs[before as int]));
                    gs.subrange(count as int, before as int).lemma_flatten_push(gs[before as int]);
                }
            }
            proof {
                assert(gs.len() > 0) by {
                    if gs.len() == 0 {
                        assert(gs.flatten() == Seq::<char>::empty());
                    }
                }
                lemma_chunk_len_bounds(gs, budget as nat);
                assert forall|i: int| 0 <= i < gs.len() implies (#[trigger] gs[i]).len() > 0 by {
                    assert(gs[i] == clusters@[i]@);
                }
                lemma_flatten_nonempty(gs, count as int);
                assert(gs.subrange(count as int, gs.len() as int) == gs.skip(count as int));
                assert(gs == gs.take(count as int) + gs.skip(count as int));
                vstd::seq_lib::lemma_flatten_concat(gs.take(count as int), gs.skip(count as int));
            }
            (chunk, remainder, count)
        };
        self.pending = remainder;
        self.pending_graphemes = self.pending_graphemes.saturating_sub(count);
        if self.pending.as_str().is_empty() {
            self.pending_graphemes = 0;
        }
        Some(chunk)
    }

    /// Remove everything that remains, preserving provider order.
    pub fn drain(&mut self) -> (rest: String)
        requires
            old(self).wf(),
        ensures
            final(self).wf(),
            rest@ == old(self).pending(),
            final(self).pending() == Seq::<char>::empty(),
            final(self).backlog() == 0,
            final(self).config() == old(self).config(),
            drain_rel(old(self).view_of(), final(self).view_of(), rest@),
    {
        let mut rest = String::new();
        std::mem::swap(&mut rest, &mut self.pending);
        self.pending_graphemes = 0;
        rest
    }
}

impl Default for StreamingTextPacer {
    fn default() -> (pacer: Self)
        ensures
            pacer.wf(),
            pacer.pending() == Seq::<char>::empty(),
            pacer.backlog() == 0,
            pacer.config().frame_interval == duration_from_millis(24),
            pacer.config().catch_up_frames == 18,
            pacer.config().min_graphemes_per_frame == 12,
            pacer.config().max_graphemes_per_frame == 256,
    {
        Self::new()
    }
}

/// Controls how provider deltas are batched and when an implicit stream settles.
#[derive(Clone, Copy, Debug, PartialEq, Eq)]
pub struct StreamingMarkdownConfig {
    /// Minimum delay between progressive Markdown parses during an explicit stream.
    pub parse_interval: Duration,
    /// Idle delay used by the implicit streaming path.
    pub idle_settle_delay: Duration,
}

impl Default for StreamingMarkdownConfig {
    fn default() -> (config: Self)
        ensures
            config.parse_interval == duration_from_millis(24),
            config.idle_settle_delay == duration_from_millis(300),
    {
        StreamingMarkdownConfig {
            parse_interval: duration_millis(24),
            idle_settle_delay: duration_millis(300),
        }
    }
}

/// A pacer seen as plain values: the buffered text, the backlog estimate and
/// the parameters.
pub struct PacerView {
    pub pending: Seq<char>,
    pub backlog: nat,
    pub config: StreamingTextPacerConfig,
}

/// What `push_str` of `delta` does to a pacer.
pub open spec fn push_rel(before: PacerView, after: PacerView, delta: Seq<char>) -> bool {
    &&& after.pending == before.pending + delta
    &&& after.config == before.config
    &&& after.backlog == if before.backlog + extended_graphemes(delta).len() > usize::MAX {
        usize::MAX as nat
    } else {
        before.backlog + extended_graphemes(delta).len()
    }
}

/// What `take_chunk` does to a pacer, returning `chunk`: nothing on an empty
/// buffer; otherwise a non-empty chunk that the buffer starts with is
/// removed from it.
pub open spec fn take_rel(before: PacerView, after: PacerView, chunk: Option<Seq<char>>) -> bool {
    &&& after.config == before.config
    &&& before.pending.len() == 0 ==> chunk is None && after == before
    &&& before.pending.len() > 0 ==> (chunk matches Some(c) && c.len() > 0 && c + after.pending
        == before.pending)
    &&& before.pending.len() > 0 ==> ({
        let clusters = extended_graphemes(before.pending);
        let taken = chunk_len(clusters, frame_budget(before.backlog, before.config));
        &&& chunk == Some(clusters.take(taken as int).flatten())
        &&& after.pending == clusters.skip(taken as int).flatten()
    })
}

/// What `drain` does to a pacer, returning `rest`: all of the buffer.
pub open spec fn drain_rel(before: PacerView, after: PacerView, rest: Seq<char>) -> bool {
    &&& rest == before.pending
    &&& after.pending == Seq::<char>::empty()
    &&& after.backlog == 0
    &&& after.config == before.config
}

/// One call on a pacer with what it was given or gave back.
pub enum PacerCall {
    Push(Seq<char>),
    Take(Option<Seq<char>>),
    Drain(Seq<char>),
}

/// Whether `states` are the pacer before and after each of `calls`.
pub open spec fn is_trace(states: Seq<PacerView>, calls: Seq<PacerCall>) -> bool {
    &&& states.len() == calls.len() + 1
    &&& forall|i: int|
        0 <= i < calls.len() ==> match #[trigger] calls[i] {
            PacerCall::Push(delta) => push_rel(states[i], states[i + 1], delta),
            PacerCall::Take(chunk) => take_rel(states[i], states[i + 1], chunk),
            PacerCall::Drain(rest) => drain_rel(states[i], states[i + 1], rest),
        }
}

/// The text pushed by `calls`, in order.
pub open spec fn pushed(calls: Seq<PacerCall>) -> Seq<char>
    decreases calls.len(),
{
    if calls.len() == 0 {
        Seq::empty()
    } else {
        pushed(calls.drop_last()) + match calls.last() {
            PacerCall::Push(delta) => delta,
            _ => Seq::empty(),
        }
    }
}

/// The chunks that `calls` emitted, concatenated in order.
pub open spec fn emitted(calls: Seq<PacerCall>) -> Seq<char>
    decreases calls.len(),
{
    if calls.len() == 0 {
        Seq::empty()
    } else {
        emitted(calls.drop_last()) + match calls.last() {
            PacerCall::Take(Some(chunk)) => chunk,
            PacerCall::Drain(rest) => rest,
            _ => Seq::empty(),
        }
    }
}

/// How many of `calls` emitted a chunk.
pub open spec fn chunk_count(calls: Seq<PacerCall>) -> nat
    decreases calls.len(),
{
    if calls.len() == 0 {
        0
    } else {
        chunk_count(calls.drop_last()) + match calls.last() {
            PacerCall::Take(Some(_)) => 1nat,
            _ => 0nat,
        }
    }
}

/// Whether every one of `calls` is a `take_chunk`.
pub open spec fn takes_only(calls: Seq<PacerCall>) -> bool {
    forall|i: int| 0 <= i < calls.len() ==> #[trigger] calls[i] is Take
}

proof fn lemma_trace_prefix(states: Seq<PacerView>, calls: Seq<PacerCall>)
    requires
        is_trace(states, calls),
        calls.len() > 0,
    ensures
        is_trace(states.drop_last(), calls.drop_last()),
{
    assert forall|i: int| 0 <= i < calls.drop_last().len() implies match #[trigger] calls.drop_last()[i] {
        PacerCall::Push(delta) => push_rel(states.drop_last()[i], states.drop_last()[i + 1], delta),
        PacerCall::Take(chunk) => take_rel(states.drop_last()[i], states.drop_last()[i + 1], chunk),
        PacerCall::Drain(rest) => drain_rel(states.drop_last()[i], states.drop_last()[i + 1], rest),
    } by {
        assert(calls.drop_last()[i] == calls[i]);
    }
}

/// Nothing is lost, duplicated or reordered: over any sequence of pushes
/// and takes, the emitted chunks followed by what is still buffered are the
/// text buffered at the start followed by all pushed text; and the pacing
/// parameters, the frame interval among them, never change.
pub proof fn lemma_chunks_preserve_order(states: Seq<PacerView>, calls: Seq<PacerCall>)
    requires
        is_trace(states, calls),
    ensures
        emitted(calls) + states.last().pending == states[0].pending + pushed(calls),
        states.last().config == states[0].config,
    decreases calls.len(),
{
    if calls.len() == 0 {
        assert(states[0].pending + Seq::<char>::empty() =~= states[0].pending);
        assert(Seq::<char>::empty() + states[0].pending =~= states[0].pending);
    } else {
        let n = calls.len() - 1;
        lemma_trace_prefix(states, calls);
        lemma_chunks_preserve_order(states.drop_last(), calls.drop_last());
        assert(states.drop_last().last() == states[n]);
        assert(states.last() == states[n + 1]);
        assert(calls.last() == calls[n]);
        match calls[n] {
            PacerCall::Push(delta) => {
                assert(emitted(calls) == emitted(calls.drop_last()) + Seq::<char>::empty());
                assert(emitted(calls) =~= emitted(calls.drop_last()));
                assert(pushed(calls) == pushed(calls.drop_last()) + delta);
                assert(states[n + 1].pending == states[n].pending + delta);
                assert(emitted(calls) + (states[n].pending + delta) =~= (emitted(calls.drop_last())
                    + states[n].pending) + delta);
                assert(states[0].pending + (pushed(calls.drop_last()) + delta) =~= (states[0].pending
                    + pushed(calls.drop_last())) + delta);
            },
            PacerCall::Take(chunk) => {
                assert(pushed(calls) =~= pushed(calls.drop_last()));
                match chunk {
                    Some(c) => {
                        assert(emitted(calls) + states.last().pending =~= emitted(calls.drop_last()) + (c
                            + states.last().pending));
                    },
                    None => {
                        assert(emitted(calls) =~= emitted(calls.drop_last()));
                    },
                }
            },
            PacerCall::Drain(rest) => {
                assert(pushed(calls) =~= pushed(calls.drop_last()));
                assert(emitted(calls) + states.last().pending =~= emitted(calls.drop_last()) + rest);
            },
        }
    }
}

/// A pacer is empty exactly when everything buffered at the start and
/// everything pushed since has been emitted.
pub proof fn lemma_empty_iff_all_emitted(states: Seq<PacerView>, calls: Seq<PacerCall>)
    requires
        is_trace(states, calls),
    ensures
        (states.last().pending.len() == 0) == (emitted(calls) == states[0].pending + pushed(calls)),
{
    lemma_chunks_preserve_order(states, calls);
    if emitted(calls) == states[0].pending + pushed(calls) {
        assert(emitted(calls).len() + states.last().pending.len() == emitted(calls).len());
    } else {
        if states.last().pending.len() == 0 {
            assert(emitted(calls) + states.last().pending =~= emitted(calls));
        }
    }
}

/// Taking chunks alone gives at most one chunk per buffered character: each
/// chunk removes at least one; while text remains every take gives a
/// chunk; so once there have been as many takes as buffered characters the
/// pacer is empty.
pub proof fn lemma_takes_drain_the_buffer(states: Seq<PacerView>, calls: Seq<PacerCall>)
    requires
        is_trace(states, calls),
        takes_only(calls),
    ensures
        chunk_count(calls) + states.last().pending.len() <= states[0].pending.len(),
        states.last().pending.len() > 0 ==> chunk_count(calls) == calls.len(),
        calls.len() >= states[0].pending.len() ==> states.last().pending.len() == 0,
    decreases calls.len(),
{
    if calls.len() > 0 {
        let n = calls.len() - 1;
        lemma_trace_prefix(states, calls);
        assert(takes_only(calls.drop_last())) by {
            assert forall|i: int| 0 <= i < calls.drop_last().len() implies #[trigger] calls.drop_last()[i] is Take by {
                assert(calls.drop_last()[i] == calls[i]);
            }
        }
        lemma_takes_drain_the_buffer(states.drop_last(), calls.drop_last());
        assert(states.drop_last().last() == states[n]);
        assert(states.last() == states[n + 1]);
        assert(calls.last() == calls[n]);
        assert(calls[n] is Take);
        match calls[n] {
            PacerCall::Take(chunk) => {
                if states[n].pending.len() > 0 {
                    let c = chunk->0;
                    assert((c + states[n + 1].pending).len() == c.len() + states[n + 1].pending.len());
                }
            },
            _ => {},
        }
    }
}

/// Whether `p` holds nothing and estimates no backlog, as a new pacer, a
/// drained one and one emptied by its takes do.
pub open spec fn is_idle(p: PacerView) -> bool {
    p.pending.len() == 0 && p.backlog == 0
}

/// From an empty pacer, the chunks emitted and the text drained give back
/// all pushed text, in order, nothing lost or duplicated (even where a
/// delta splits a grapheme); after a final drain the pacer is empty, so a
/// take gives nothing.
pub proof fn lemma_fresh_pacer_gives_back_its_input(states: Seq<PacerView>, calls: Seq<PacerCall>)
    requires
        is_trace(states, calls),
        states[0].pending.len() == 0,
    ensures
        emitted(calls) + states.last().pending == pushed(calls),
        (states.last().pending.len() == 0) == (emitted(calls) == pushed(calls)),
        calls.len() > 0 && calls.last() is Drain ==> emitted(calls) == pushed(calls) && states.last().pending.len()
            == 0,
        states.last().config == states[0].config,
{
    lemma_chunks_preserve_order(states, calls);
    lemma_empty_iff_all_emitted(states, calls);
    assert(states[0].pending + pushed(calls) =~= pushed(calls));
    if calls.len() > 0 && calls.last() is Drain {
        assert(calls.last() == calls[calls.len() - 1]);
        assert(states.last() == states[calls.len() as int]);
    }
}

/// The first chunk after text is pushed into an idle pacer: the first
/// graphemes of the text, as many as the backlog's budget allows, ending
/// early after a newline; the rest stays buffered. The budget is the
/// grapheme count spread over the catch-up frames, clamped to the
/// per-frame bounds and to the count itself.
pub proof fn lemma_first_chunk_after_push(
    p0: PacerView,
    p1: PacerView,
    p2: PacerView,
    text: Seq<char>,
    chunk: Option<Seq<char>>,
)
    requires
        is_idle(p0),
        text.len() > 0,
        extended_graphemes(text).len() <= usize::MAX,
        push_rel(p0, p1, text),
        take_rel(p1, p2, chunk),
    ensures
        ({
            let g = extended_graphemes(text);
            let k = chunk_len(g, frame_budget(g.len(), p0.config));
            &&& chunk == Some(g.take(k as int).flatten())
            &&& p2.pending == g.skip(k as int).flatten()
        }),
{
    assert(p0.pending + text =~= text);
}

/// A frame's budget never exceeds the per-frame maximum nor the backlog; it
/// reaches the per-frame minimum whenever the backlog does, is positive for
/// a positive backlog, and, below both caps, is enough to clear the backlog
/// within the catch-up frames.
pub proof fn lemma_budget_within_bounds(backlog: nat, config: StreamingTextPacerConfig)
    requires
        config.is_valid(),
    ensures
        frame_budget(backlog, config) <= config.max_graphemes_per_frame,
        frame_budget(backlog, config) <= backlog,
        backlog > 0 ==> frame_budget(backlog, config) >= 1,
        backlog >= config.min_graphemes_per_frame ==> frame_budget(backlog, config)
            >= config.min_graphemes_per_frame,
        frame_budget(backlog, config) < config.max_graphemes_per_frame && frame_budget(backlog, config)
            < backlog ==> frame_budget(backlog, config) * config.catch_up_frames >= backlog,
{
    let frames = config.catch_up_frames as nat;
    let per_frame = if backlog % frames == 0 {
        backlog / frames
    } else {
        backlog / frames + 1
    };
    assert(per_frame * frames >= backlog) by (nonlinear_arith)
        requires
            frames > 0,
            per_frame == if backlog % frames == 0 {
                backlog / frames
            } else {
                backlog / frames + 1
            },
    {
        assert(backlog == frames * (backlog / frames) + backlog % frames);
    }
    let budget = frame_budget(backlog, config);
    if budget < config.max_graphemes_per_frame && budget < backlog {
        assert(budget >= per_frame);
        assert(budget * frames >= per_frame * frames) by (nonlinear_arith)
            requires
                budget >= per_frame,
        ;
    }
}

/// Whenever the backlog is positive, a chunk that `take_chunk` returns is
/// made of at most `max_graphemes_per_frame` whole leading grapheme
/// clusters of the buffer (and no more than the backlog), and the buffer
/// keeps the clusters after them.
pub proof fn lemma_chunk_within_frame_cap(
    before: PacerView,
    after: PacerView,
    chunk: Option<Seq<char>>,
)
    requires
        before.config.is_valid(),
        before.backlog > 0,
        before.pending.len() > 0,
        take_rel(before, after, chunk),
    ensures
        exists|k: int|
            #![trigger extended_graphemes(before.pending).take(k)]
            1 <= k <= before.config.max_graphemes_per_frame && k <= before.backlog && chunk == Some(
                extended_graphemes(before.pending).take(k).flatten(),
            ) && after.pending == extended_graphemes(before.pending).skip(k).flatten(),
{
    let clusters = extended_graphemes(before.pending);
    let budget = frame_budget(before.backlog, before.config);
    lemma_budget_within_bounds(before.backlog, before.config);
    if clusters.len() == 0 {
        assert(clusters.take(chunk_len(clusters, budget) as int) =~= Seq::<Seq<char>>::empty());
        assert(Seq::<Seq<char>>::empty().flatten() =~= Seq::<char>::empty());
        assert(false);
    }
    lemma_chunk_len_bounds(clusters, budget);
    let k = chunk_len(clusters, budget) as int;
    assert(clusters.take(k) == clusters.take(k));
}

} // verus!
