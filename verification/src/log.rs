//! The sequenced log pipeline: buffer, chunk, batch, acknowledge, resend.
//!
//! One `LogStreamer` per active job assigns dense per-job sequence numbers,
//! splits oversized content into labelled chunks, buffers entries up to the
//! flush threshold, retains flushed entries until they are acknowledged, and
//! hands the caller the exact wire batches to send. Sending is I/O and
//! happens outside the library; every batch leaves this module as a value.

use vstd::prelude::*;

use crate::clock::now_millis;
use crate::config::LoggingConfig;
use crate::kvmap::KvMap;
use crate::messages;
use crate::messages::{log_batch_message, OutgoingMessage};
use crate::strutil::{chars_of, concat_str, dec_rep, string_from_chars, str_eq, u64_to_string};

verus! {

/// Log entry with sequence tracking.
pub struct LogEntry {
    /// Per-job sequence number.
    pub sequence: u64,
    /// Step that produced the content.
    pub step_id: String,
    /// Admission time, milliseconds since the epoch.
    pub timestamp_ms: i64,
    /// Log content.
    pub content: String,
    /// Log level (info, warn, error, debug).
    pub level: String,
    /// Whether this entry has been acknowledged.
    pub acknowledged: bool,
}

/// What a log entry says, with the strings as character sequences.
#[verifier::ext_equal]
pub struct EntryModel {
    pub sequence: u64,
    pub step_id: Seq<char>,
    pub timestamp_ms: i64,
    pub content: Seq<char>,
    pub level: Seq<char>,
}

/// The model of one held entry.
pub open spec fn model_of(e: LogEntry) -> EntryModel {
    EntryModel {
        sequence: e.sequence,
        step_id: e.step_id@,
        timestamp_ms: e.timestamp_ms,
        content: e.content@,
        level: e.level@,
    }
}

/// The models of a row of held entries.
pub open spec fn models_of(es: Seq<LogEntry>) -> Seq<EntryModel> {
    es.map_values(|e: LogEntry| model_of(e))
}

/// The model of one wire entry.
pub open spec fn ws_model_of(e: messages::LogEntry) -> EntryModel {
    EntryModel {
        sequence: e.sequence,
        step_id: e.step_id@,
        timestamp_ms: e.timestamp_ms,
        content: e.content@,
        level: e.level@,
    }
}

/// The models of a row of wire entries.
pub open spec fn ws_models_of(es: Seq<messages::LogEntry>) -> Seq<EntryModel> {
    es.map_values(|e: messages::LogEntry| ws_model_of(e))
}

proof fn lemma_models_push(s: Seq<LogEntry>, e: LogEntry)
    ensures
        models_of(s.push(e)) =~= models_of(s).push(model_of(e)),
{
    assert forall|i: int| 0 <= i < s.len() + 1 implies models_of(s.push(e))[i] == models_of(
        s,
    ).push(model_of(e))[i] by {
        if i < s.len() {
            assert(s.push(e)[i] == s[i]);
        } else {
            assert(s.push(e)[i] == e);
        }
    }
}

proof fn lemma_batches_push(s: Seq<OutgoingMessage>, m: OutgoingMessage)
    ensures
        batches_model(s.push(m)) =~= batches_model(s).push(batch_model_of(m)),
{
    assert forall|i: int| 0 <= i < s.len() + 1 implies batches_model(s.push(m))[i] == batches_model(
        s,
    ).push(batch_model_of(m))[i] by {
        if i < s.len() {
            assert(s.push(m)[i] == s[i]);
        } else {
            assert(s.push(m)[i] == m);
        }
    }
}

proof fn lemma_ws_models_push(s: Seq<messages::LogEntry>, e: messages::LogEntry)
    ensures
        ws_models_of(s.push(e)) =~= ws_models_of(s).push(ws_model_of(e)),
{
    assert forall|i: int| 0 <= i < s.len() + 1 implies ws_models_of(s.push(e))[i] == ws_models_of(
        s,
    ).push(ws_model_of(e))[i] by {
        if i < s.len() {
            assert(s.push(e)[i] == s[i]);
        } else {
            assert(s.push(e)[i] == e);
        }
    }
}

impl LogEntry {
    /// A fresh, unacknowledged entry stamped with the current time.
    pub fn new(sequence: u64, step_id: String, content: String, level: String) -> (r: Self)
        ensures
            r.sequence == sequence,
            r.step_id == step_id,
            r.content == content,
            r.level == level,
            !r.acknowledged,
    {
        LogEntry {
            sequence,
            step_id,
            timestamp_ms: now_millis(),
            content,
            level,
            acknowledged: false,
        }
    }

    /// The same entry in wire form.
    pub fn to_ws_entry(&self) -> (r: messages::LogEntry)
        ensures
            ws_model_of(r) == model_of(*self),
    {
        messages::LogEntry {
            step_id: self.step_id.clone(),
            timestamp_ms: self.timestamp_ms,
            content: self.content.clone(),
            level: self.level.clone(),
            sequence: self.sequence,
        }
    }
}

/// An independent copy of an entry.
fn clone_entry(e: &LogEntry) -> (r: LogEntry)
    ensures
        r == *e,
{
    LogEntry {
        sequence: e.sequence,
        step_id: e.step_id.clone(),
        timestamp_ms: e.timestamp_ms,
        content: e.content.clone(),
        level: e.level.clone(),
        acknowledged: e.acknowledged,
    }
}

/// One size-bounded partition of an oversized entry.
pub struct LogChunk {
    /// Sequence number of the chunk's own entry.
    pub sequence: u64,
    /// Chunk index (0-based).
    pub chunk_index: usize,
    /// Total chunks of the original content.
    pub total_chunks: usize,
    /// Chunk content.
    pub content: String,
}

// ============================================================================
// Chunking
// ============================================================================
/// How many entries content of `len` characters yields under a chunk bound
/// of `size` characters: one when it fits, else one per started chunk. All
/// chunking lengths count characters, which coincide with bytes for ASCII
/// content; a chunk boundary never splits a character.
pub open spec fn chunk_count(len: nat, size: nat) -> nat {
    if len <= size {
        1
    } else {
        (((len - 1) / (size as int)) + 1) as nat
    }
}

/// The `i`-th size-bounded slice of the content.
pub open spec fn chunk_piece(content: Seq<char>, size: nat, i: nat) -> Seq<char> {
    let lo = i * size;
    let hi: int = if (i + 1) * size <= content.len() {
        (i + 1) * size as int
    } else {
        content.len() as int
    };
    content.subrange(lo as int, hi)
}

/// The `[i/N] ` marker put before each chunk, 1-based.
pub open spec fn chunk_label(i: nat, n: nat) -> Seq<char> {
    seq!['['] + dec_rep(i + 1) + seq!['/'] + dec_rep(n) + seq![']', ' ']
}

/// The content of the `i`-th entry made from admitted content: the content
/// itself when it fits, else the labelled chunk.
pub open spec fn entry_content(content: Seq<char>, size: nat, i: nat, n: nat) -> Seq<char> {
    if n == 1 {
        content
    } else {
        chunk_label(i, n) + chunk_piece(content, size, i)
    }
}

/// The models of the entries one admission creates, in sequence order.
pub open spec fn added_models(
    seq0: u64,
    step: Seq<char>,
    content: Seq<char>,
    level: Seq<char>,
    size: nat,
    ts: i64,
) -> Seq<EntryModel> {
    let n = chunk_count(content.len(), size);
    Seq::new(
        n,
        |i: int|
            EntryModel {
                sequence: (seq0 + i) as u64,
                step_id: step,
                timestamp_ms: ts,
                content: entry_content(content, size, i as nat, n),
                level: level,
            },
    )
}

/// Content of exactly the chunk bound is not chunked; one character more
/// yields two chunks.
pub proof fn lemma_chunk_boundary(len: nat, size: nat)
    requires
        size >= 1,
    ensures
        len <= size ==> chunk_count(len, size) == 1,
        len == size + 1 ==> chunk_count(len, size) == 2,
{
    if len == size + 1 {
        assert((size as int) / (size as int) == 1) by (nonlinear_arith)
            requires
                size >= 1,
        ;
    }
}

// ============================================================================
// Buffer evolution
// ============================================================================
/// The buffer, the sequences dropped and the batches flushed, as one value.
#[verifier::ext_equal]
pub struct FoldModel {
    pub buffer: Seq<EntryModel>,
    pub dropped: Seq<u64>,
    pub batches: Seq<Seq<EntryModel>>,
}

/// Admit one entry: at the hard cap the oldest buffered entry is dropped
/// first; reaching the flush threshold drains the whole buffer into a batch.
pub open spec fn fold_step(m: FoldModel, e: EntryModel, flush_at: nat, drop_at: nat) -> FoldModel {
    let buf1 = if m.buffer.len() >= drop_at {
        m.buffer.drop_first()
    } else {
        m.buffer
    };
    let dropped1 = if m.buffer.len() >= drop_at {
        m.dropped.push(m.buffer[0].sequence)
    } else {
        m.dropped
    };
    let buf2 = buf1.push(e);
    if buf2.len() >= flush_at {
        FoldModel { buffer: Seq::empty(), dropped: dropped1, batches: m.batches.push(buf2) }
    } else {
        FoldModel { buffer: buf2, dropped: dropped1, batches: m.batches }
    }
}

/// Admit a row of entries, left to right.
pub open spec fn fold_entries(
    b0: Seq<EntryModel>,
    added: Seq<EntryModel>,
    flush_at: nat,
    drop_at: nat,
) -> FoldModel
    decreases added.len(),
{
    if added.len() == 0 {
        FoldModel { buffer: b0, dropped: Seq::empty(), batches: Seq::empty() }
    } else {
        fold_step(
            fold_entries(b0, added.drop_last(), flush_at, drop_at),
            added.last(),
            flush_at,
            drop_at,
        )
    }
}

/// The buffer stays below the flush threshold: the admission that reaches it
/// flushes in the same call.
pub proof fn lemma_buffer_stays_below_flush_threshold(
    b0: Seq<EntryModel>,
    added: Seq<EntryModel>,
    flush_at: nat,
    drop_at: nat,
)
    requires
        flush_at >= 1,
        b0.len() < flush_at,
    ensures
        fold_entries(b0, added, flush_at, drop_at).buffer.len() < flush_at,
    decreases added.len(),
{
    if added.len() > 0 {
        lemma_buffer_stays_below_flush_threshold(b0, added.drop_last(), flush_at, drop_at);
    }
}

/// Admissions that cross the flush threshold emit at least one batch in the
/// same call, provided the drop cap does not cut in below the threshold.
pub proof fn lemma_crossing_threshold_flushes(
    b0: Seq<EntryModel>,
    added: Seq<EntryModel>,
    flush_at: nat,
    drop_at: nat,
)
    requires
        flush_at >= 1,
        drop_at >= flush_at,
        b0.len() < flush_at,
        b0.len() + added.len() >= flush_at,
    ensures
        fold_entries(b0, added, flush_at, drop_at).batches.len() >= 1,
    decreases added.len(),
{
    if added.len() > 0 {
        let prev = fold_entries(b0, added.drop_last(), flush_at, drop_at);
        if prev.batches.len() == 0 {
            lemma_fold_no_batch_buffer_grows(b0, added.drop_last(), flush_at, drop_at);
        }
    }
}

/// While no batch has been emitted and the drop cap is above the flush
/// threshold, the buffer holds everything admitted so far.
proof fn lemma_fold_no_batch_buffer_grows(
    b0: Seq<EntryModel>,
    added: Seq<EntryModel>,
    flush_at: nat,
    drop_at: nat,
)
    requires
        flush_at >= 1,
        drop_at >= flush_at,
        b0.len() < flush_at,
    ensures
        fold_entries(b0, added, flush_at, drop_at).batches.len() == 0 ==> fold_entries(
            b0,
            added,
            flush_at,
            drop_at,
        ).buffer.len() == b0.len() + added.len(),
    decreases added.len(),
{
    if added.len() > 0 {
        lemma_fold_no_batch_buffer_grows(b0, added.drop_last(), flush_at, drop_at);
        lemma_buffer_stays_below_flush_threshold(b0, added.drop_last(), flush_at, drop_at);
    }
}

/// At the hard cap, admitting one entry drops exactly the oldest buffered
/// sequence; below the cap nothing is dropped.
pub proof fn lemma_cap_drops_oldest(b0: Seq<EntryModel>, e: EntryModel, flush_at: nat, drop_at: nat)
    requires
        drop_at >= 1,
    ensures
        b0.len() >= drop_at ==> fold_entries(b0, seq![e], flush_at, drop_at).dropped == seq![
            b0[0].sequence,
        ],
        b0.len() < drop_at ==> fold_entries(b0, seq![e], flush_at, drop_at).dropped
            == Seq::<u64>::empty(),
{
    let s = seq![e];
    assert(s.drop_last() =~= Seq::<EntryModel>::empty());
    assert(s.last() == e);
    let prev = fold_entries(b0, s.drop_last(), flush_at, drop_at);
    assert(prev == FoldModel { buffer: b0, dropped: Seq::<u64>::empty(), batches: Seq::empty() });
    assert(fold_entries(b0, s, flush_at, drop_at) == fold_step(prev, e, flush_at, drop_at));
    if b0.len() >= drop_at {
        assert(fold_step(prev, e, flush_at, drop_at).dropped =~= seq![b0[0].sequence]);
    } else {
        assert(fold_step(prev, e, flush_at, drop_at).dropped =~= Seq::<u64>::empty());
    }
}

/// Every sequence the fold drops or keeps buffered stays below the
/// sequences admitted so far: drops name real, already-assigned sequences.
pub proof fn lemma_fold_dropped_bounded(
    b0: Seq<EntryModel>,
    added: Seq<EntryModel>,
    hlen: nat,
    flush_at: nat,
    drop_at: nat,
)
    requires
        drop_at >= 1,
        forall|k: int| 0 <= k < b0.len() ==> (#[trigger] b0[k]).sequence < hlen,
        forall|i: int| 0 <= i < added.len() ==> (#[trigger] added[i]).sequence == hlen + i,
    ensures
        forall|k: int|
            0 <= k < fold_entries(b0, added, flush_at, drop_at).buffer.len() ==> (
            #[trigger] fold_entries(b0, added, flush_at, drop_at).buffer[k]).sequence < hlen
                + added.len(),
        forall|k: int|
            0 <= k < fold_entries(b0, added, flush_at, drop_at).dropped.len() ==> (
            #[trigger] fold_entries(b0, added, flush_at, drop_at).dropped[k]) < hlen + added.len(),
    decreases added.len(),
{
    if added.len() > 0 {
        lemma_fold_dropped_bounded(b0, added.drop_last(), hlen, flush_at, drop_at);
        let prev = fold_entries(b0, added.drop_last(), flush_at, drop_at);
        let e = added.last();
        let buf1 = if prev.buffer.len() >= drop_at {
            prev.buffer.drop_first()
        } else {
            prev.buffer
        };
        assert(forall|k: int|
            0 <= k < buf1.len() ==> (#[trigger] buf1[k]).sequence < hlen + added.len()) by {
            if prev.buffer.len() >= drop_at {
                assert(forall|k: int|
                    0 <= k < buf1.len() ==> #[trigger] buf1[k] == prev.buffer[k + 1]);
            }
        }
        let buf2 = buf1.push(e);
        assert(forall|k: int|
            0 <= k < buf2.len() ==> (#[trigger] buf2[k]).sequence < hlen + added.len()) by {
            assert(forall|k: int| 0 <= k < buf1.len() ==> #[trigger] buf2[k] == buf1[k]);
            assert(buf2[buf2.len() - 1] == e);
        }
    }
}

// ============================================================================
// Tracking: every held entry is what was admitted under its sequence
// ============================================================================
/// Every model in `ms` repeats the admission record under its sequence
/// number, and sequences increase strictly left to right.
pub open spec fn models_track(ms: Seq<EntryModel>, h: Seq<EntryModel>) -> bool {
    &&& forall|k: int|
        0 <= k < ms.len() ==> (#[trigger] ms[k]).sequence < h.len() && ms[k] == h[ms[k].sequence
            as int]
    &&& forall|k: int, l: int|
        0 <= k < l < ms.len() ==> (#[trigger] ms[k]).sequence < (#[trigger] ms[l]).sequence
}

proof fn lemma_fold_tracks(
    b0: Seq<EntryModel>,
    added: Seq<EntryModel>,
    h2: Seq<EntryModel>,
    hlen: nat,
    flush_at: nat,
    drop_at: nat,
)
    requires
        drop_at >= 1,
        models_track(b0, h2),
        forall|k: int| 0 <= k < b0.len() ==> (#[trigger] b0[k]).sequence < hlen,
        hlen + added.len() <= h2.len(),
        forall|i: int|
            0 <= i < added.len() ==> (#[trigger] added[i]).sequence == hlen + i && added[i]
                == h2[hlen + i],
    ensures
        models_track(fold_entries(b0, added, flush_at, drop_at).buffer, h2),
        forall|k: int|
            0 <= k < fold_entries(b0, added, flush_at, drop_at).buffer.len() ==> (
            #[trigger] fold_entries(b0, added, flush_at, drop_at).buffer[k]).sequence < hlen
                + added.len(),
    decreases added.len(),
{
    if added.len() > 0 {
        lemma_fold_tracks(b0, added.drop_last(), h2, hlen, flush_at, drop_at);
        let prev = fold_entries(b0, added.drop_last(), flush_at, drop_at);
        let e = added.last();
        assert(e.sequence == hlen + added.len() - 1);
        let buf1 = if prev.buffer.len() >= drop_at {
            prev.buffer.drop_first()
        } else {
            prev.buffer
        };
        assert(models_track(buf1, h2) && forall|k: int|
            0 <= k < buf1.len() ==> (#[trigger] buf1[k]).sequence < hlen + added.len() - 1) by {
            if prev.buffer.len() >= drop_at {
                assert(forall|k: int|
                    0 <= k < buf1.len() ==> #[trigger] buf1[k] == prev.buffer[k + 1]);
            }
        }
        let buf2 = buf1.push(e);
        assert(models_track(buf2, h2)) by {
            assert(forall|k: int|
                0 <= k < buf1.len() ==> #[trigger] buf2[k] == buf1[k] && buf2[k].sequence
                    < e.sequence);
            assert(buf2[buf2.len() - 1] == e);
        }
        assert(forall|k: int|
            0 <= k < buf2.len() ==> (#[trigger] buf2[k]).sequence < hlen + added.len());
    }
}

// ============================================================================
// Acknowledgement
// ============================================================================
/// What acknowledging `(step, k)` leaves of the persisted entries: everything
/// except that step's entries up to and including `k`.
pub open spec fn ack_filter(p: Seq<EntryModel>, step: Seq<char>, k: u64) -> Seq<EntryModel> {
    p.filter(|e: EntryModel| !(e.step_id == step && e.sequence <= k))
}

/// After an acknowledgement, no persisted entry of that step carries a
/// sequence at or below the acknowledged one.
pub proof fn lemma_acknowledge_removes_acked(p: Seq<EntryModel>, step: Seq<char>, k: u64)
    ensures
        forall|i: int|
            0 <= i < ack_filter(p, step, k).len() ==> ((#[trigger] ack_filter(p, step, k)[i])
                .step_id == step ==> ack_filter(p, step, k)[i].sequence > k),
{
    broadcast use vstd::seq_lib::group_filter_ensures;

}

/// Two consecutive acknowledgements of the same step and sequence are
/// equivalent to one: the filter is idempotent, and so is the mark update.
pub proof fn lemma_acknowledge_idempotent(
    p: Seq<EntryModel>,
    step: Seq<char>,
    k: u64,
    marks: Map<Seq<char>, u64>,
)
    ensures
        ack_filter(ack_filter(p, step, k), step, k) == ack_filter(p, step, k),
        marks.insert(step, k).insert(step, k) == marks.insert(step, k),
    decreases p.len(),
{
    broadcast use vstd::seq_lib::group_filter_ensures;

    let pred = |e: EntryModel| !(e.step_id == step && e.sequence <= k);
    lemma_filter_idempotent(p, pred);
    assert(marks.insert(step, k).insert(step, k) =~= marks.insert(step, k));
}

proof fn lemma_filter_idempotent<A>(p: Seq<A>, pred: spec_fn(A) -> bool)
    ensures
        p.filter(pred).filter(pred) == p.filter(pred),
    decreases p.len(),
{
    reveal(Seq::filter);
    if p.len() > 0 {
        lemma_filter_idempotent(p.drop_last(), pred);
        let f = p.drop_last().filter(pred);
        if pred(p.last()) {
            assert(f.push(p.last()).drop_last() =~= f);
            assert(f.push(p.last()).filter(pred) =~= f.filter(pred).push(p.last()));
        }
    }
}

/// What a job-level acknowledgement message `(job, k)` leaves of the
/// persisted entries: only those above `k`, whatever step they belong to.
pub open spec fn ack_filter_all(p: Seq<EntryModel>, k: u64) -> Seq<EntryModel> {
    p.filter(|e: EntryModel| e.sequence > k)
}

/// After a job-level acknowledgement, no persisted entry of the job carries
/// a sequence at or below the acknowledged one.
pub proof fn lemma_ack_message_clears_low_sequences(p: Seq<EntryModel>, k: u64)
    ensures
        forall|i: int|
            0 <= i < ack_filter_all(p, k).len() ==> (#[trigger] ack_filter_all(p, k)[i]).sequence
                > k,
{
    broadcast use vstd::seq_lib::group_filter_ensures;

}

/// Acknowledging the highest sequence of a step clears every persisted entry
/// of that step: with nothing else persisted, nothing remains.
pub proof fn lemma_acknowledge_full_batch_empties(p: Seq<EntryModel>, step: Seq<char>, k: u64)
    requires
        forall|i: int|
            0 <= i < p.len() ==> (#[trigger] p[i]).step_id == step && p[i].sequence <= k,
    ensures
        ack_filter(p, step, k).len() == 0,
    decreases p.len(),
{
    reveal(Seq::filter);
    if p.len() > 0 {
        lemma_acknowledge_full_batch_empties(p.drop_last(), step, k);
    }
}

// ============================================================================
// The streamer
// ============================================================================
/// What one admission did: the sequence assigned to the content, the
/// sequences of entries dropped at the hard cap, and the batches that the
/// admission flushed, ready to send.
pub struct AddOutcome {
    pub sequence: u64,
    pub dropped: Vec<u64>,
    pub flushed: Vec<OutgoingMessage>,
}

/// The entry models a batch message carries; empty for any other message.
pub open spec fn batch_model_of(m: OutgoingMessage) -> Seq<EntryModel> {
    match m {
        OutgoingMessage::LogBatch { logs, .. } => ws_models_of(logs@),
        _ => Seq::empty(),
    }
}

/// The batch models of a row of messages.
pub open spec fn batches_model(msgs: Seq<OutgoingMessage>) -> Seq<Seq<EntryModel>> {
    msgs.map_values(|m: OutgoingMessage| batch_model_of(m))
}

/// All messages are log batches for `job` carrying exactly `batches`.
pub open spec fn is_batches_of(
    msgs: Seq<OutgoingMessage>,
    job: Seq<char>,
    batches: Seq<Seq<EntryModel>>,
) -> bool {
    &&& batches_model(msgs) == batches
    &&& forall|k: int|
        0 <= k < msgs.len() ==> ((#[trigger] msgs[k]) matches OutgoingMessage::LogBatch {
            job_id: j,
            ..
        } && j@ == job)
}

/// The full effect of admitting content stamped `ts`: the counter advances by
/// the chunk count, the admission records extend the history, the persisted
/// row grows by the same records, and the buffer, drops and flushes follow
/// the fold, with the acknowledgement marks untouched.
pub open spec fn add_rel(
    pre: LogStreamer,
    post: LogStreamer,
    outcome: AddOutcome,
    step: Seq<char>,
    content: Seq<char>,
    level: Seq<char>,
    ts: i64,
) -> bool {
    let size = pre.spec_config().chunk_size_bytes as nat;
    let n = chunk_count(content.len(), size);
    let added = added_models(pre.spec_counter(), step, content, level, size, ts);
    let fm = fold_entries(
        pre.buffer_model(),
        added,
        pre.spec_config().buffer_size as nat,
        pre.spec_config().max_pending_logs as nat,
    );
    &&& outcome.sequence == pre.spec_counter()
    &&& post.spec_counter() == pre.spec_counter() + n
    &&& post.history() == pre.history() + added
    &&& post.buffer_model() == fm.buffer
    &&& outcome.dropped@ == fm.dropped
    &&& is_batches_of(outcome.flushed@, pre.spec_job_id(), fm.batches)
    &&& post.pending_model() == pre.pending_model() + (if pre.spec_config().enable_persistence {
        added
    } else {
        Seq::<EntryModel>::empty()
    })
    &&& post.acks() == pre.acks()
    &&& post.spec_job_id() == pre.spec_job_id()
    &&& post.spec_config() == pre.spec_config()
}

/// Whether the interval-driven flush fires on a streamer at a given clock
/// reading: the interval has passed since the last flush and the buffer is
/// non-empty.
pub open spec fn flush_gate(st: LogStreamer, now_ms: i64) -> bool {
    now_ms - st.spec_last_flush() >= st.spec_config().flush_interval_ms && st.buffer_model().len()
        > 0
}

/// Enhanced log streamer with buffering and sequence tracking.
pub struct LogStreamer {
    /// Job this stream belongs to.
    job_id: String,
    /// Configuration.
    config: LoggingConfig,
    /// Next sequence number to assign.
    sequence_counter: u64,
    /// Un-flushed entries.
    buffer: Vec<LogEntry>,
    /// Flushed but unacknowledged entries, kept while persistence is on.
    pending: Vec<LogEntry>,
    /// Last acknowledged sequence per step.
    ack_sequences: KvMap<u64>,
    /// When the buffer was last flushed, milliseconds since the epoch.
    last_flush_ms: i64,
    /// Every entry ever admitted, in admission order.
    history: Ghost<Seq<EntryModel>>,
}

impl LogStreamer {
    /// The job this stream belongs to.
    pub closed spec fn spec_job_id(&self) -> Seq<char> {
        self.job_id@
    }

    /// The configuration the stream was created with.
    pub closed spec fn spec_config(&self) -> LoggingConfig {
        self.config
    }

    /// The next sequence number to be assigned.
    pub closed spec fn spec_counter(&self) -> u64 {
        self.sequence_counter
    }

    /// The un-flushed entries.
    pub closed spec fn buffer_model(&self) -> Seq<EntryModel> {
        models_of(self.buffer@)
    }

    /// The flushed-but-unacknowledged entries.
    pub closed spec fn pending_model(&self) -> Seq<EntryModel> {
        models_of(self.pending@)
    }

    /// The last acknowledged sequence per step.
    pub closed spec fn acks(&self) -> Map<Seq<char>, u64> {
        self.ack_sequences@
    }

    /// When the buffer was last flushed, milliseconds since the epoch.
    pub closed spec fn spec_last_flush(&self) -> i64 {
        self.last_flush_ms
    }

    /// Every entry ever admitted, in admission order.
    pub closed spec fn history(&self) -> Seq<EntryModel> {
        self.history@
    }

    /// Well-formed: the counter equals the number of admitted entries, the
    /// admitted entries carry dense sequences from zero, and every held entry
    /// repeats its admission record.
    pub closed spec fn wf(&self) -> bool {
        &&& self.config.chunk_size_bytes >= 1
        &&& self.config.buffer_size >= 1
        &&& self.config.max_pending_logs >= 1
        &&& self.sequence_counter == self.history@.len()
        &&& forall|i: int|
            0 <= i < self.history@.len() ==> (#[trigger] self.history@[i]).sequence == i
        &&& models_track(models_of(self.buffer@), self.history@)
        &&& models_track(models_of(self.pending@), self.history@)
        &&& (!self.config.enable_persistence ==> self.pending@.len() == 0)
        &&& self.ack_sequences.wf()
    }

    /// Create a new log streamer for a job.
    pub fn new(job_id: String, config: LoggingConfig) -> (r: Self)
        requires
            config.chunk_size_bytes >= 1,
            config.buffer_size >= 1,
            config.max_pending_logs >= 1,
        ensures
            r.wf(),
            r.spec_job_id() == job_id@,
            r.spec_config() == config,
            r.spec_counter() == 0,
            r.buffer_model() == Seq::<EntryModel>::empty(),
            r.pending_model() == Seq::<EntryModel>::empty(),
            r.acks() == Map::<Seq<char>, u64>::empty(),
            r.history() == Seq::<EntryModel>::empty(),
    {
        let r = LogStreamer {
            job_id,
            config,
            sequence_counter: 0,
            buffer: Vec::new(),
            pending: Vec::new(),
            ack_sequences: KvMap::new(),
            last_flush_ms: now_millis(),
            history: Ghost(Seq::empty()),
        };
        proof {
            assert(models_of(r.buffer@) =~= Seq::<EntryModel>::empty());
            assert(models_of(r.pending@) =~= Seq::<EntryModel>::empty());
        }
        r
    }

    /// The sequence number the next admission will receive.
    pub fn current_sequence(&self) -> (r: u64)
        ensures
            r == self.spec_counter(),
    {
        self.sequence_counter
    }

    /// How many entries are buffered and not yet flushed.
    pub fn buffer_size(&self) -> (r: usize)
        ensures
            r == self.buffer_model().len(),
    {
        self.buffer.len()
    }

    /// How many flushed entries still await acknowledgement.
    pub fn pending_count(&self) -> (r: usize)
        ensures
            r == self.pending_model().len(),
    {
        self.pending.len()
    }

    /// Drain the buffer into one batch message; `None` when it is empty.
    /// Touches nothing but the buffer.
    fn drain_batch(&mut self) -> (r: Option<OutgoingMessage>)
        ensures
            old(self).buffer_model().len() == 0 ==> r is None && *final(self) == *old(self),
            old(self).buffer_model().len() > 0 ==> final(self).buffer_model()
                == Seq::<EntryModel>::empty() && (r matches Some(m) && m
                matches OutgoingMessage::LogBatch { job_id: j, logs } && j@ == old(
                self,
            ).spec_job_id() && ws_models_of(logs@) == old(self).buffer_model()),
            final(self).pending == old(self).pending,
            final(self).sequence_counter == old(self).sequence_counter,
            final(self).history == old(self).history,
            final(self).ack_sequences == old(self).ack_sequences,
            final(self).job_id == old(self).job_id,
            final(self).config == old(self).config,
            final(self).last_flush_ms == old(self).last_flush_ms,
    {
        if self.buffer.len() == 0 {
            return None;
        }
        let mut logs: Vec<messages::LogEntry> = Vec::new();
        let mut j: usize = 0;
        while j < self.buffer.len()
            invariant
                j <= self.buffer@.len(),
                *self == *old(self),
                ws_models_of(logs@) =~= models_of(self.buffer@).subrange(0, j as int),
            decreases self.buffer@.len() - j,
        {
            let w = self.buffer[j].to_ws_entry();
            proof {
                lemma_ws_models_push(logs@, w);
                assert(models_of(self.buffer@).subrange(0, j + 1 as int) =~= models_of(
                    self.buffer@,
                ).subrange(0, j as int).push(models_of(self.buffer@)[j as int]));
            }
            logs.push(w);
            j = j + 1;
        }
        proof {
            assert(ws_models_of(logs@) =~= models_of(self.buffer@));
        }
        let msg = log_batch_message(self.job_id.as_str(), logs);
        self.buffer.clear();
        proof {
            assert(models_of(self.buffer@) =~= Seq::<EntryModel>::empty());
        }
        Some(msg)
    }

    /// Flush buffered logs into one batch message to send; a no-op on an
    /// empty buffer. Flushed entries stay persisted until acknowledged.
    pub fn flush(&mut self) -> (r: Option<OutgoingMessage>)
        requires
            old(self).wf(),
        ensures
            final(self).wf(),
            old(self).buffer_model().len() == 0 ==> r is None && *final(self) == *old(self),
            old(self).buffer_model().len() > 0 ==> final(self).buffer_model()
                == Seq::<EntryModel>::empty() && (r matches Some(m) && m
                matches OutgoingMessage::LogBatch { job_id: j, logs } && j@ == old(
                self,
            ).spec_job_id() && ws_models_of(logs@) == old(self).buffer_model()),
            final(self).pending_model() == old(self).pending_model(),
            final(self).spec_counter() == old(self).spec_counter(),
            final(self).history() == old(self).history(),
            final(self).acks() == old(self).acks(),
            final(self).spec_job_id() == old(self).spec_job_id(),
            final(self).spec_config() == old(self).spec_config(),
    {
        if self.buffer.len() == 0 {
            return None;
        }
        self.last_flush_ms = now_millis();
        let r = self.drain_batch();
        proof {
            assert(models_track(models_of(self.buffer@), self.history@));
        }
        r
    }

    /// Flush under an explicit clock reading: the interval-driven flush
    /// fires exactly when the interval has passed since the last flush and
    /// the buffer is non-empty; otherwise nothing changes.
    pub fn flush_if_needed_at(&mut self, now_ms: i64) -> (r: Option<OutgoingMessage>)
        requires
            old(self).wf(),
        ensures
            final(self).wf(),
            r is Some <==> now_ms - old(self).spec_last_flush()
                >= old(self).spec_config().flush_interval_ms && old(self).buffer_model().len() > 0,
            r is None ==> *final(self) == *old(self),
            r is Some ==> final(self).buffer_model() == Seq::<EntryModel>::empty() && final(self)
                .spec_last_flush() == now_ms,
            r matches Some(m) ==> (m matches OutgoingMessage::LogBatch { job_id: j, logs } && j@
                == old(self).spec_job_id() && ws_models_of(logs@) == old(self).buffer_model()),
            final(self).pending_model() == old(self).pending_model(),
            final(self).spec_counter() == old(self).spec_counter(),
            final(self).history() == old(self).history(),
            final(self).acks() == old(self).acks(),
            final(self).spec_job_id() == old(self).spec_job_id(),
            final(self).spec_config() == old(self).spec_config(),
    {
        let due = (now_ms as i128) - (self.last_flush_ms as i128) >= (self.config.flush_interval_ms
            as i128);
        if due && self.buffer.len() > 0 {
            self.last_flush_ms = now_ms;
            let r = self.drain_batch();
            proof {
                assert(models_track(models_of(self.buffer@), self.history@));
            }
            r
        } else {
            None
        }
    }

    /// Flush only when the configured interval has passed since the last
    /// flush and the buffer is non-empty, against the current time;
    /// `flush_if_needed_at` is the same decision over an explicit clock
    /// reading.
    pub fn flush_if_needed(&mut self) -> (r: Option<OutgoingMessage>)
        requires
            old(self).wf(),
        ensures
            final(self).wf(),
            exists|now_ms: i64|
                {
                    &&& (#[trigger] flush_gate(*old(self), now_ms)) == (r is Some)
                    &&& (r is Some ==> final(self).spec_last_flush() == now_ms)
                },
            r is None ==> *final(self) == *old(self),
            r is Some ==> old(self).buffer_model().len() > 0,
            r is Some ==> final(self).buffer_model() == Seq::<EntryModel>::empty(),
            r matches Some(m) ==> (m matches OutgoingMessage::LogBatch { job_id: j, logs } && j@
                == old(self).spec_job_id() && ws_models_of(logs@) == old(self).buffer_model()),
            final(self).pending_model() == old(self).pending_model(),
            final(self).spec_counter() == old(self).spec_counter(),
            final(self).history() == old(self).history(),
            final(self).acks() == old(self).acks(),
            final(self).spec_job_id() == old(self).spec_job_id(),
            final(self).spec_config() == old(self).spec_config(),
    {
        let now = now_millis();
        let r = self.flush_if_needed_at(now);
        proof {
            assert(flush_gate(*old(self), now) == (r is Some));
        }
        r
    }

    /// Record the acknowledged sequence for a step and discard every
    /// persisted entry of that step up to and including it.
    pub fn acknowledge(&mut self, step_id: &str, last_sequence: u64)
        requires
            old(self).wf(),
        ensures
            final(self).wf(),
            final(self).acks() == old(self).acks().insert(step_id@, last_sequence),
            old(self).spec_config().enable_persistence ==> final(self).pending_model()
                == ack_filter(old(self).pending_model(), step_id@, last_sequence),
            !old(self).spec_config().enable_persistence ==> final(self).pending_model() == old(
                self,
            ).pending_model(),
            final(self).buffer_model() == old(self).buffer_model(),
            final(self).spec_counter() == old(self).spec_counter(),
            final(self).history() == old(self).history(),
            final(self).spec_job_id() == old(self).spec_job_id(),
            final(self).spec_config() == old(self).spec_config(),
    {
        self.ack_sequences.insert(step_id.to_owned(), last_sequence);
        if self.config.enable_persistence {
            let ghost p = models_of(self.pending@);
            let ghost pred = |e: EntryModel| !(e.step_id == step_id@ && e.sequence <= last_sequence);
            let mut kept: Vec<LogEntry> = Vec::new();
            let mut i: usize = 0;
            while i < self.pending.len()
                invariant
                    i <= self.pending@.len(),
                    p == models_of(self.pending@),
                    pred == (|e: EntryModel| !(e.step_id == step_id@ && e.sequence
                        <= last_sequence)),
                    models_of(kept@) =~= p.subrange(0, i as int).filter(pred),
                decreases self.pending@.len() - i,
            {
                let keep = !(str_eq(self.pending[i].step_id.as_str(), step_id)
                    && self.pending[i].sequence <= last_sequence);
                proof {
                    reveal(Seq::filter);
                    let pre = p.subrange(0, i as int);
                    let post = p.subrange(0, i + 1 as int);
                    assert(post.drop_last() =~= pre);
                    assert(post.last() == model_of(self.pending@[i as int]));
                    assert(keep == pred(model_of(self.pending@[i as int])));
                }
                if keep {
                    let e = clone_entry(&self.pending[i]);
                    kept.push(e);
                    proof {
                        assert(models_of(kept@) =~= p.subrange(0, i + 1 as int).filter(pred));
                    }
                } else {
                    proof {
                        assert(models_of(kept@) =~= p.subrange(0, i + 1 as int).filter(pred));
                    }
                }
                i = i + 1;
            }
            self.pending = kept;
            proof {
                assert(p.subrange(0, p.len() as int) =~= p);
                lemma_filter_keeps_track(p, pred, self.history@);
                assert(models_of(self.pending@) =~= ack_filter(p, step_id@, last_sequence));
            }
        }
    }

    /// A job-level acknowledgement: discard every persisted entry at or
    /// below the acknowledged sequence, whatever step it belongs to. The
    /// per-step marks are untouched — the message carries no step.
    pub fn acknowledge_all(&mut self, last_sequence: u64)
        requires
            old(self).wf(),
        ensures
            final(self).wf(),
            old(self).spec_config().enable_persistence ==> final(self).pending_model()
                == ack_filter_all(old(self).pending_model(), last_sequence),
            !old(self).spec_config().enable_persistence ==> final(self).pending_model() == old(
                self,
            ).pending_model(),
            ({
                let pm = final(self).pending_model();
                forall|t: int| 0 <= t < pm.len() ==> (#[trigger] pm[t]).sequence > last_sequence
            }),
            final(self).acks() == old(self).acks(),
            final(self).buffer_model() == old(self).buffer_model(),
            final(self).spec_counter() == old(self).spec_counter(),
            final(self).history() == old(self).history(),
            final(self).spec_job_id() == old(self).spec_job_id(),
            final(self).spec_config() == old(self).spec_config(),
    {
        if self.config.enable_persistence {
            let ghost p = models_of(self.pending@);
            let ghost pred = |e: EntryModel| e.sequence > last_sequence;
            let mut kept: Vec<LogEntry> = Vec::new();
            let mut i: usize = 0;
            while i < self.pending.len()
                invariant
                    i <= self.pending@.len(),
                    p == models_of(self.pending@),
                    pred == (|e: EntryModel| e.sequence > last_sequence),
                    models_of(kept@) =~= p.subrange(0, i as int).filter(pred),
                decreases self.pending@.len() - i,
            {
                let keep = self.pending[i].sequence > last_sequence;
                proof {
                    reveal(Seq::filter);
                    let pre = p.subrange(0, i as int);
                    let post = p.subrange(0, i + 1 as int);
                    assert(post.drop_last() =~= pre);
                    assert(post.last() == model_of(self.pending@[i as int]));
                    assert(keep == pred(model_of(self.pending@[i as int])));
                }
                if keep {
                    let e = clone_entry(&self.pending[i]);
                    kept.push(e);
                    proof {
                        assert(models_of(kept@) =~= p.subrange(0, i + 1 as int).filter(pred));
                    }
                } else {
                    proof {
                        assert(models_of(kept@) =~= p.subrange(0, i + 1 as int).filter(pred));
                    }
                }
                i = i + 1;
            }
            self.pending = kept;
            proof {
                assert(p.subrange(0, p.len() as int) =~= p);
                lemma_filter_keeps_track(p, pred, self.history@);
                assert(models_of(self.pending@) =~= ack_filter_all(p, last_sequence));
                lemma_ack_message_clears_low_sequences(p, last_sequence);
            }
        }
    }

    /// The persisted entries, in order, for inspection or retry.
    pub fn get_pending(&self) -> (r: Vec<LogEntry>)
        ensures
            models_of(r@) == self.pending_model(),
    {
        let mut r: Vec<LogEntry> = Vec::new();
        let mut i: usize = 0;
        while i < self.pending.len()
            invariant
                i <= self.pending@.len(),
                r@ =~= self.pending@.subrange(0, i as int),
            decreases self.pending@.len() - i,
        {
            r.push(clone_entry(&self.pending[i]));
            proof {
                assert(r@ =~= self.pending@.subrange(0, i + 1 as int));
            }
            i = i + 1;
        }
        proof {
            assert(r@ =~= self.pending@);
        }
        r
    }

    /// The batch that re-emits every persisted entry, in the original order
    /// and under the original sequences; `None` when nothing is persisted.
    /// Delivery is at least once: the receiver reconciles by sequence.
    pub fn resend_pending(&self) -> (r: Option<OutgoingMessage>)
        ensures
            self.pending_model().len() == 0 ==> r is None,
            self.pending_model().len() > 0 ==> (r matches Some(m) && m
                matches OutgoingMessage::LogBatch { job_id: j, logs } && j@ == self.spec_job_id()
                && ws_models_of(logs@) == self.pending_model()),
    {
        if self.pending.len() == 0 {
            return None;
        }
        let mut logs: Vec<messages::LogEntry> = Vec::new();
        let mut i: usize = 0;
        while i < self.pending.len()
            invariant
                i <= self.pending@.len(),
                ws_models_of(logs@) =~= models_of(self.pending@).subrange(0, i as int),
            decreases self.pending@.len() - i,
        {
            let w = self.pending[i].to_ws_entry();
            proof {
                lemma_ws_models_push(logs@, w);
                assert(models_of(self.pending@).subrange(0, i + 1 as int) =~= models_of(
                    self.pending@,
                ).subrange(0, i as int).push(models_of(self.pending@)[i as int]));
            }
            logs.push(w);
            i = i + 1;
        }
        proof {
            assert(ws_models_of(logs@) =~= models_of(self.pending@));
        }
        Some(log_batch_message(self.job_id.as_str(), logs))
    }

    /// Admit one prepared entry: at the hard cap the oldest buffered entry is
    /// dropped first, and reaching the flush threshold drains the buffer into
    /// a batch appended to `flushed`.
    fn push_one(&mut self, e: LogEntry, dropped: &mut Vec<u64>, flushed: &mut Vec<OutgoingMessage>)
        requires
            old(self).config.max_pending_logs >= 1,
        ensures
            ({
                let m0 = FoldModel {
                    buffer: models_of(old(self).buffer@),
                    dropped: old(dropped)@,
                    batches: batches_model(old(flushed)@),
                };
                let m1 = fold_step(
                    m0,
                    model_of(e),
                    old(self).config.buffer_size as nat,
                    old(self).config.max_pending_logs as nat,
                );
                models_of(final(self).buffer@) == m1.buffer && final(dropped)@ == m1.dropped
                    && batches_model(final(flushed)@) == m1.batches
            }),
            old(flushed)@.len() <= final(flushed)@.len(),
            forall|k: int| 0 <= k < old(flushed)@.len() ==> final(flushed)@[k] == old(flushed)@[k],
            ({
                let fl = final(flushed)@;
                forall|k: int|
                    old(flushed)@.len() <= k < fl.len() ==> ((#[trigger] fl[k])
                        matches OutgoingMessage::LogBatch { job_id: j, .. } && j@ == old(
                        self,
                    ).job_id@)
            }),
            final(self).pending@ == if old(self).config.enable_persistence {
                old(self).pending@.push(e)
            } else {
                old(self).pending@
            },
            final(self).sequence_counter == old(self).sequence_counter,
            final(self).history == old(self).history,
            final(self).ack_sequences == old(self).ack_sequences,
            final(self).job_id == old(self).job_id,
            final(self).config == old(self).config,
    {
        let ghost m0buf = models_of(self.buffer@);
        if self.buffer.len() >= self.config.max_pending_logs {
            let dropped_entry = self.buffer.remove(0);
            dropped.push(dropped_entry.sequence);
            proof {
                assert forall|k: int| 0 <= k < self.buffer@.len() implies models_of(
                    self.buffer@,
                )[k] == m0buf.drop_first()[k] by {
                    assert(self.buffer@[k] == old(self).buffer@[k + 1]);
                }
                assert(models_of(self.buffer@) =~= m0buf.drop_first());
                assert(dropped_entry.sequence == m0buf[0].sequence);
            }
        }
        let e2 = clone_entry(&e);
        proof {
            lemma_models_push(self.buffer@, e);
        }
        self.buffer.push(e);
        if self.config.enable_persistence {
            self.pending.push(e2);
        }
        if self.buffer.len() >= self.config.buffer_size {
            let batch = self.drain_batch();
            match batch {
                Some(m) => {
                    proof {
                        lemma_batches_push(flushed@, m);
                    }
                    flushed.push(m);
                },
                None => {
                    proof {
                        assert(false);
                    }
                },
            }
        }
    }

    /// Admit content under an explicit timestamp: assign the next sequence,
    /// chunk oversized content (the bound counts characters), and run every
    /// resulting entry through the buffer.
    pub fn add_at(&mut self, step_id: &str, content: &str, level: &str, timestamp_ms: i64) -> (r:
        AddOutcome)
        requires
            old(self).wf(),
            old(self).spec_counter() + chunk_count(
                content@.len(),
                old(self).spec_config().chunk_size_bytes as nat,
            ) <= u64::MAX,
        ensures
            final(self).wf(),
            add_rel(*old(self), *final(self), r, step_id@, content@, level@, timestamp_ms),
    {
        let ghost pre = *old(self);
        let ghost size_s = self.config.chunk_size_bytes as nat;
        let ghost added = added_models(
            self.sequence_counter,
            step_id@,
            content@,
            level@,
            size_s,
            timestamp_ms,
        );
        let cv = chars_of(content);
        let len = cv.len();
        let size = self.config.chunk_size_bytes;
        let n: usize = if len <= size {
            1
        } else {
            (len - 1) / size + 1
        };
        proof {
            assert(n == chunk_count(content@.len(), size_s));
            assert(added.len() == n);
        }
        let seq0 = self.sequence_counter;
        let mut dropped: Vec<u64> = Vec::new();
        let mut flushed: Vec<OutgoingMessage> = Vec::new();
        proof {
            assert(batches_model(flushed@) =~= Seq::<Seq<EntryModel>>::empty());
            assert(added.subrange(0, 0) =~= Seq::<EntryModel>::empty());
            assert(fold_entries(
                models_of(pre.buffer@),
                added.subrange(0, 0),
                pre.config.buffer_size as nat,
                pre.config.max_pending_logs as nat,
            ) == FoldModel {
                buffer: models_of(pre.buffer@),
                dropped: Seq::<u64>::empty(),
                batches: Seq::<Seq<EntryModel>>::empty(),
            });
            assert(models_of(pre.pending@) + added.subrange(0, 0) =~= models_of(pre.pending@));
        }
        let mut i: usize = 0;
        while i < n
            invariant
                i <= n,
                n == added.len(),
                n == chunk_count(content@.len(), size_s),
                size_s == pre.config.chunk_size_bytes as nat,
                size == pre.config.chunk_size_bytes,
                len == content@.len(),
                cv@ == content@,
                seq0 == pre.sequence_counter,
                seq0 + n <= u64::MAX,
                pre.wf(),
                added == added_models(seq0, step_id@, content@, level@, size_s, timestamp_ms),
                self.job_id == pre.job_id,
                self.config == pre.config,
                self.sequence_counter == pre.sequence_counter,
                self.history == pre.history,
                self.ack_sequences == pre.ack_sequences,
                models_of(self.pending@) == models_of(pre.pending@) + (
                if pre.config.enable_persistence {
                    added.subrange(0, i as int)
                } else {
                    Seq::<EntryModel>::empty()
                }),
                ({
                    let fm = fold_entries(
                        models_of(pre.buffer@),
                        added.subrange(0, i as int),
                        pre.config.buffer_size as nat,
                        pre.config.max_pending_logs as nat,
                    );
                    models_of(self.buffer@) == fm.buffer && dropped@ == fm.dropped
                        && batches_model(flushed@) == fm.batches
                }),
                forall|k: int|
                    0 <= k < flushed@.len() ==> ((#[trigger] flushed@[k])
                        matches OutgoingMessage::LogBatch { job_id: j, .. } && j@ == pre.job_id@),
            decreases n - i,
        {
            let content_i: String = if n == 1 {
                content.to_owned()
            } else {
                proof {
                    assert(len > size);
                    assert(n - 1 == (len - 1) as int / size as int);
                    assert(((len - 1) as int / size as int) * size <= len - 1) by (nonlinear_arith)
                        requires
                            size >= 1,
                            len >= 1,
                    ;
                    assert(i as int * size <= (n - 1) as int * size) by (nonlinear_arith)
                        requires
                            0 <= i <= n - 1,
                            size >= 0,
                    ;
                    assert((i as int + 1) * size == i as int * size + size) by (nonlinear_arith);
                }
                let lo = i * size;
                let hi = if size < len - lo {
                    lo + size
                } else {
                    len
                };
                let mut s = concat_str("[", u64_to_string((i as u64) + 1).as_str());
                s.append("/");
                let ns = u64_to_string(n as u64);
                s.append(ns.as_str());
                s.append("] ");
                let mut piece: Vec<char> = Vec::new();
                let mut t = lo;
                while t < hi
                    invariant
                        lo <= t <= hi <= cv@.len(),
                        piece@ =~= cv@.subrange(lo as int, t as int),
                    decreases hi - t,
                {
                    piece.push(cv[t]);
                    proof {
                        assert(piece@ =~= cv@.subrange(lo as int, t + 1 as int));
                    }
                    t = t + 1;
                }
                let ps = string_from_chars(&piece);
                s.append(ps.as_str());
                proof {
                    reveal_strlit("[");
                    reveal_strlit("/");
                    reveal_strlit("] ");
                    assert("["@ =~= seq!['[']);
                    assert("/"@ =~= seq!['/']);
                    assert("] "@ =~= seq![']', ' ']);
                    assert(piece@ =~= chunk_piece(content@, size_s, i as nat));
                    assert(s@ =~= entry_content(content@, size_s, i as nat, n as nat));
                }
                s
            };
            let e = LogEntry {
                sequence: seq0 + i as u64,
                step_id: step_id.to_owned(),
                timestamp_ms,
                content: content_i,
                level: level.to_owned(),
                acknowledged: false,
            };
            proof {
                assert(model_of(e) == added[i as int]);
            }
            let ghost pend_before = self.pending@;
            let ghost e_snapshot = e;
            self.push_one(e, &mut dropped, &mut flushed);
            proof {
                assert(added.subrange(0, i + 1 as int).drop_last() =~= added.subrange(0, i as int));
                assert(added.subrange(0, i + 1 as int).last() == added[i as int]);
                if pre.config.enable_persistence {
                    lemma_models_push(pend_before, e_snapshot);
                    assert(models_of(self.pending@) =~= models_of(pre.pending@) + added.subrange(
                        0,
                        i + 1 as int,
                    ));
                }
            }
            i = i + 1;
        }
        proof {
            assert(added.subrange(0, n as int) =~= added);
        }
        self.sequence_counter = seq0 + n as u64;
        proof {
            let prelen = pre.history@.len();
            let h2 = pre.history@ + added;
            self.history@ = h2;
            assert forall|ii: int| 0 <= ii < h2.len() implies (#[trigger] h2[ii]).sequence
                == ii by {
                if ii < prelen {
                    assert(h2[ii] == pre.history@[ii]);
                } else {
                    assert(h2[ii] == added[ii - prelen]);
                }
            }
            assert(models_track(models_of(pre.buffer@), h2)) by {
                assert(forall|k: int|
                    0 <= k < models_of(pre.buffer@).len() ==> (#[trigger] models_of(
                        pre.buffer@,
                    )[k]).sequence < prelen);
            }
            lemma_fold_tracks(
                models_of(pre.buffer@),
                added,
                h2,
                prelen as nat,
                pre.config.buffer_size as nat,
                pre.config.max_pending_logs as nat,
            );
            let pm = models_of(self.pending@);
            assert(models_track(pm, h2)) by {
                let pm0 = models_of(pre.pending@);
                assert(forall|k: int|
                    0 <= k < pm0.len() ==> (#[trigger] pm0[k]).sequence < prelen && pm0[k]
                        == h2[pm0[k].sequence as int]);
                if pre.config.enable_persistence {
                    assert forall|k: int| 0 <= k < pm.len() implies (#[trigger] pm[k]).sequence
                        < h2.len() && pm[k] == h2[pm[k].sequence as int] by {
                        if k < pm0.len() {
                            assert(pm[k] == pm0[k]);
                        } else {
                            assert(pm[k] == added[k - pm0.len()]);
                        }
                    }
                    assert forall|k: int, l: int| 0 <= k < l < pm.len() implies (
                    #[trigger] pm[k]).sequence < (#[trigger] pm[l]).sequence by {
                        if k < pm0.len() && l >= pm0.len() {
                            assert(pm[k] == pm0[k]);
                            assert(pm[l] == added[l - pm0.len()]);
                        } else if k >= pm0.len() {
                            assert(pm[k] == added[k - pm0.len()]);
                            assert(pm[l] == added[l - pm0.len()]);
                        }
                    }
                }
            }
        }
        AddOutcome { sequence: seq0, dropped, flushed }
    }

    /// Admit content stamped with the current time. The sequence returned in
    /// the outcome identifies the content; oversized content takes the
    /// following sequences for its chunks.
    pub fn add(&mut self, step_id: &str, content: &str, level: &str) -> (r: AddOutcome)
        requires
            old(self).wf(),
            old(self).spec_counter() + chunk_count(
                content@.len(),
                old(self).spec_config().chunk_size_bytes as nat,
            ) <= u64::MAX,
        ensures
            final(self).wf(),
            exists|ts: i64|
                add_rel(*old(self), *final(self), r, step_id@, content@, level@, ts),
            r.sequence == old(self).spec_counter(),
            final(self).spec_counter() == old(self).spec_counter() + chunk_count(
                content@.len(),
                old(self).spec_config().chunk_size_bytes as nat,
            ),
            final(self).spec_job_id() == old(self).spec_job_id(),
            final(self).spec_config() == old(self).spec_config(),
            final(self).acks() == old(self).acks(),
    {
        let ts = now_millis();
        let r = self.add_at(step_id, content, level, ts);
        proof {
            assert(add_rel(*old(self), *self, r, step_id@, content@, level@, ts));
        }
        r
    }

    /// Forget all buffered, persisted and acknowledged state; the sequence
    /// counter and the admission history stand.
    pub fn clear(&mut self)
        requires
            old(self).wf(),
        ensures
            final(self).wf(),
            final(self).buffer_model() == Seq::<EntryModel>::empty(),
            final(self).pending_model() == Seq::<EntryModel>::empty(),
            final(self).acks() == Map::<Seq<char>, u64>::empty(),
            final(self).spec_counter() == old(self).spec_counter(),
            final(self).history() == old(self).history(),
            final(self).spec_job_id() == old(self).spec_job_id(),
            final(self).spec_config() == old(self).spec_config(),
    {
        self.buffer.clear();
        self.pending.clear();
        self.ack_sequences = KvMap::new();
        proof {
            assert(models_of(self.buffer@) =~= Seq::<EntryModel>::empty());
            assert(models_of(self.pending@) =~= Seq::<EntryModel>::empty());
        }
    }
}

/// A well-formed streamer runs under positive chunking and buffering
/// bounds.
pub proof fn lemma_wf_config(st: &LogStreamer)
    requires
        st.wf(),
    ensures
        st.spec_config().chunk_size_bytes >= 1,
        st.spec_config().buffer_size >= 1,
        st.spec_config().max_pending_logs >= 1,
{
}

/// Per job, the admitted sequence numbers form a dense prefix of the
/// naturals: the `i`-th entry ever admitted carries sequence `i`, chunk
/// expansion included, and the counter equals the number of admissions.
pub proof fn lemma_sequences_dense(st: &LogStreamer)
    requires
        st.wf(),
    ensures
        st.history().len() == st.spec_counter(),
        forall|i: int| 0 <= i < st.history().len() ==> (#[trigger] st.history()[i]).sequence == i,
{
}

/// Every entry a well-formed streamer holds — buffered or persisted —
/// repeats its admission record under its sequence number, in strictly
/// increasing sequence order.
pub proof fn lemma_held_entries_match_history(st: &LogStreamer)
    requires
        st.wf(),
    ensures
        models_track(st.buffer_model(), st.history()),
        models_track(st.pending_model(), st.history()),
{
}

/// What a job-level acknowledgement at `k` does to a streamer: with
/// persistence on, every persisted entry at or below `k` is discarded, and
/// nothing else moves.
pub open spec fn acked_streamer_all(pre: LogStreamer, post: LogStreamer, k: u64) -> bool {
    &&& post.acks() == pre.acks()
    &&& pre.spec_config().enable_persistence ==> post.pending_model() == ack_filter_all(
        pre.pending_model(),
        k,
    )
    &&& !pre.spec_config().enable_persistence ==> post.pending_model() == pre.pending_model()
    &&& (forall|t: int|
        0 <= t < post.pending_model().len() ==> (#[trigger] post.pending_model()[t]).sequence > k)
    &&& post.buffer_model() == pre.buffer_model()
    &&& post.spec_counter() == pre.spec_counter()
    &&& post.history() == pre.history()
    &&& post.spec_job_id() == pre.spec_job_id()
    &&& post.spec_config() == pre.spec_config()
}

/// Whether some streamer in the row serves `job`.
pub open spec fn has_streamer(ss: Seq<LogStreamer>, job: Seq<char>) -> bool {
    exists|i: int| 0 <= i < ss.len() && (#[trigger] ss[i]).spec_job_id() == job
}

/// The index of the streamer serving `job`, when one exists.
pub open spec fn streamer_index(ss: Seq<LogStreamer>, job: Seq<char>) -> int {
    choose|i: int| 0 <= i < ss.len() && (#[trigger] ss[i]).spec_job_id() == job
}

/// A freshly created streamer for `job` under `config`: nothing admitted yet.
pub open spec fn fresh_streamer(s: LogStreamer, job: Seq<char>, config: LoggingConfig) -> bool {
    &&& s.spec_job_id() == job
    &&& s.spec_config() == config
    &&& s.spec_counter() == 0
    &&& s.buffer_model() == Seq::<EntryModel>::empty()
    &&& s.pending_model() == Seq::<EntryModel>::empty()
    &&& s.acks() == Map::<Seq<char>, u64>::empty()
    &&& s.history() == Seq::<EntryModel>::empty()
}

/// The `(job, entries)` pairs of the non-empty buffers in the row, in order.
pub open spec fn all_batches(ss: Seq<LogStreamer>) -> Seq<(Seq<char>, Seq<EntryModel>)>
    decreases ss.len(),
{
    if ss.len() == 0 {
        Seq::empty()
    } else {
        let rest = all_batches(ss.drop_last());
        if ss.last().buffer_model().len() > 0 {
            rest.push((ss.last().spec_job_id(), ss.last().buffer_model()))
        } else {
            rest
        }
    }
}

/// The `(job, entries)` pairs of the buffers whose interval-driven flush is
/// due at the given clock reading, in order.
pub open spec fn due_batches(ss: Seq<LogStreamer>, now_ms: i64) -> Seq<(Seq<char>, Seq<EntryModel>)>
    decreases ss.len(),
{
    if ss.len() == 0 {
        Seq::empty()
    } else {
        let rest = due_batches(ss.drop_last(), now_ms);
        if flush_gate(ss.last(), now_ms) {
            rest.push((ss.last().spec_job_id(), ss.last().buffer_model()))
        } else {
            rest
        }
    }
}

/// Manager for the per-job log streamers.
pub struct LogStreamerManager {
    config: LoggingConfig,
    streamers: Vec<LogStreamer>,
}

impl LogStreamerManager {
    /// The configuration every managed streamer runs under.
    pub closed spec fn spec_config(&self) -> LoggingConfig {
        self.config
    }

    /// The managed streamers, in creation order.
    pub closed spec fn streamers_model(&self) -> Seq<LogStreamer> {
        self.streamers@
    }

    /// Well-formed: every streamer is, all share the configuration, and each
    /// job has at most one streamer.
    pub closed spec fn wf(&self) -> bool {
        &&& self.config.chunk_size_bytes >= 1
        &&& self.config.buffer_size >= 1
        &&& self.config.max_pending_logs >= 1
        &&& forall|i: int|
            0 <= i < self.streamers@.len() ==> (#[trigger] self.streamers@[i]).wf()
                && self.streamers@[i].spec_config() == self.config
        &&& forall|i: int, j: int|
            0 <= i < j < self.streamers@.len() ==> (#[trigger] self.streamers@[i]).spec_job_id()
                != (#[trigger] self.streamers@[j]).spec_job_id()
    }

    pub fn new(config: LoggingConfig) -> (r: Self)
        requires
            config.chunk_size_bytes >= 1,
            config.buffer_size >= 1,
            config.max_pending_logs >= 1,
        ensures
            r.wf(),
            r.spec_config() == config,
            r.streamers_model().len() == 0,
    {
        LogStreamerManager { config, streamers: Vec::new() }
    }

    fn position(&self, job_id: &str) -> (r: Option<usize>)
        ensures
            match r {
                Some(i) => i < self.streamers@.len() && self.streamers@[i as int].spec_job_id()
                    == job_id@,
                None => !has_streamer(self.streamers@, job_id@),
            },
    {
        let mut i: usize = 0;
        while i < self.streamers.len()
            invariant
                i <= self.streamers@.len(),
                forall|j: int|
                    0 <= j < i ==> (#[trigger] self.streamers@[j]).spec_job_id() != job_id@,
            decreases self.streamers@.len() - i,
        {
            if str_eq(self.streamers[i].job_id.as_str(), job_id) {
                return Some(i);
            }
            i = i + 1;
        }
        None
    }

    /// The index of the streamer serving `job_id`, creating a fresh one when
    /// none exists yet.
    pub fn get_or_create(&mut self, job_id: &str) -> (idx: usize)
        requires
            old(self).wf(),
        ensures
            final(self).wf(),
            final(self).spec_config() == old(self).spec_config(),
            idx < final(self).streamers_model().len(),
            final(self).streamers_model()[idx as int].spec_job_id() == job_id@,
            has_streamer(old(self).streamers_model(), job_id@) ==> *final(self) == *old(self),
            !has_streamer(old(self).streamers_model(), job_id@) ==> final(self).streamers_model()
                == old(self).streamers_model().push(final(self).streamers_model()[idx as int])
                && fresh_streamer(
                final(self).streamers_model()[idx as int],
                job_id@,
                old(self).spec_config(),
            ),
    {
        match self.position(job_id) {
            Some(i) => i,
            None => {
                let s = LogStreamer::new(job_id.to_owned(), self.config_copy());
                self.streamers.push(s);
                self.streamers.len() - 1
            },
        }
    }

    /// A copy of the shared configuration.
    fn config_copy(&self) -> (r: LoggingConfig)
        ensures
            r == self.spec_config(),
    {
        LoggingConfig {
            buffer_size: self.config.buffer_size,
            chunk_size_bytes: self.config.chunk_size_bytes,
            flush_interval_ms: self.config.flush_interval_ms,
            enable_persistence: self.config.enable_persistence,
            max_pending_logs: self.config.max_pending_logs,
        }
    }

    /// Remove and hand back the streamer of a completed job, if any.
    pub fn remove(&mut self, job_id: &str) -> (r: Option<LogStreamer>)
        requires
            old(self).wf(),
        ensures
            final(self).wf(),
            final(self).spec_config() == old(self).spec_config(),
            !has_streamer(old(self).streamers_model(), job_id@) ==> r is None && *final(self)
                == *old(self),
            has_streamer(old(self).streamers_model(), job_id@) ==> (r matches Some(s)
                && s.spec_job_id() == job_id@ && s == old(self).streamers_model()[streamer_index(
                old(self).streamers_model(),
                job_id@,
            )] && final(self).streamers_model() == old(self).streamers_model().remove(
                streamer_index(old(self).streamers_model(), job_id@),
            )),
            !has_streamer(final(self).streamers_model(), job_id@),
    {
        let ghost ss0 = self.streamers@;
        match self.position(job_id) {
            Some(i) => {
                let s = self.streamers.remove(i);
                proof {
                    let idx = streamer_index(ss0, job_id@);
                    assert(0 <= idx < ss0.len() && ss0[idx].spec_job_id() == job_id@);
                    assert(idx == i as int);
                    assert forall|a: int| 0 <= a < self.streamers@.len() implies (
                    #[trigger] self.streamers@[a]).spec_job_id() != job_id@ by {
                        if a < i as int {
                            assert(self.streamers@[a] == ss0[a]);
                        } else {
                            assert(self.streamers@[a] == ss0[a + 1]);
                        }
                    }
                }
                Some(s)
            },
            None => None,
        }
    }

    /// Every streamer under a well-formed manager is well-formed and runs
    /// under the manager's configuration.
    pub proof fn lemma_streamer_wf(&self, job: Seq<char>)
        requires
            self.wf(),
            has_streamer(self.streamers_model(), job),
        ensures
            self.streamers_model()[streamer_index(self.streamers_model(), job)].wf(),
            self.streamers_model()[streamer_index(self.streamers_model(), job)].spec_config()
                == self.spec_config(),
            0 <= streamer_index(self.streamers_model(), job) < self.streamers_model().len(),
    {
        let idx = streamer_index(self.streamers_model(), job);
        assert(0 <= idx < self.streamers_model().len() && self.streamers_model()[idx].spec_job_id()
            == job);
    }

    /// Take a job's streamer back under management, after its holder worked
    /// on it.
    pub fn adopt(&mut self, streamer: LogStreamer)
        requires
            old(self).wf(),
            streamer.wf(),
            streamer.spec_config() == old(self).spec_config(),
            !has_streamer(old(self).streamers_model(), streamer.spec_job_id()),
        ensures
            final(self).wf(),
            final(self).spec_config() == old(self).spec_config(),
            final(self).streamers_model() == old(self).streamers_model().push(streamer),
    {
        let ghost ss0 = self.streamers@;
        self.streamers.push(streamer);
        proof {
            assert(forall|i: int| 0 <= i < ss0.len() ==> #[trigger] self.streamers@[i] == ss0[i]);
            assert forall|a: int, b: int|
                0 <= a < b < self.streamers@.len() implies (#[trigger] self.streamers@[a])
                .spec_job_id() != (#[trigger] self.streamers@[b]).spec_job_id() by {
                if b == self.streamers@.len() - 1 {
                    assert(self.streamers@[a] == ss0[a]);
                    if self.streamers@[a].spec_job_id() == self.streamers@[b].spec_job_id() {
                        assert(has_streamer(ss0, self.streamers@[b].spec_job_id()));
                    }
                }
            }
        }
    }

    /// Under a well-formed manager, each job has at most one streamer.
    pub proof fn lemma_unique_jobs(&self)
        requires
            self.wf(),
        ensures
            forall|a: int, b: int|
                0 <= a < b < self.streamers_model().len() ==> (#[trigger] self.streamers_model()[a])
                    .spec_job_id() != (#[trigger] self.streamers_model()[b]).spec_job_id(),
    {
    }

    /// Put a job's streamer back at its place among the managed streamers,
    /// after its holder worked on it.
    pub fn reinsert(&mut self, idx: usize, streamer: LogStreamer)
        requires
            old(self).wf(),
            streamer.wf(),
            streamer.spec_config() == old(self).spec_config(),
            !has_streamer(old(self).streamers_model(), streamer.spec_job_id()),
            idx <= old(self).streamers_model().len(),
        ensures
            final(self).wf(),
            final(self).spec_config() == old(self).spec_config(),
            final(self).streamers_model() == old(self).streamers_model().insert(
                idx as int,
                streamer,
            ),
    {
        let ghost ss0 = self.streamers@;
        self.streamers.insert(idx, streamer);
        proof {
            assert forall|a: int, b: int|
                0 <= a < b < self.streamers@.len() implies (#[trigger] self.streamers@[a])
                .spec_job_id() != (#[trigger] self.streamers@[b]).spec_job_id() by {
                let ia: int = if a < idx {
                    a
                } else {
                    a - 1
                };
                let ib: int = if b < idx {
                    b
                } else {
                    b - 1
                };
                if a != idx && b != idx {
                    assert(self.streamers@[a] == ss0[ia]);
                    assert(self.streamers@[b] == ss0[ib]);
                } else if a == idx {
                    assert(self.streamers@[a] == streamer);
                    assert(self.streamers@[b] == ss0[ib]);
                    if ss0[ib].spec_job_id() == streamer.spec_job_id() {
                        assert(has_streamer(ss0, streamer.spec_job_id()));
                    }
                } else {
                    assert(self.streamers@[b] == streamer);
                    assert(self.streamers@[a] == ss0[ia]);
                    if ss0[ia].spec_job_id() == streamer.spec_job_id() {
                        assert(has_streamer(ss0, streamer.spec_job_id()));
                    }
                }
            }
        }
    }

    /// Apply an acknowledgement message `(job_id, last_sequence)`: on the
    /// job's streamer — created first when none exists — every persisted
    /// entry at or below the sequence is discarded. Other jobs' streamers
    /// are untouched.
    pub fn acknowledge_message(&mut self, job_id: &str, last_sequence: u64)
        requires
            old(self).wf(),
        ensures
            final(self).wf(),
            final(self).spec_config() == old(self).spec_config(),
            has_streamer(final(self).streamers_model(), job_id@),
            ({
                let ss1 = final(self).streamers_model();
                let idx = streamer_index(ss1, job_id@);
                &&& (forall|t: int|
                    0 <= t < ss1[idx].pending_model().len() ==> (#[trigger] ss1[idx].pending_model()[t]).sequence
                        > last_sequence)
                &&& (if has_streamer(old(self).streamers_model(), job_id@) {
                    let ss0 = old(self).streamers_model();
                    let idx0 = streamer_index(ss0, job_id@);
                    ss1.len() == ss0.len() && idx == idx0 && acked_streamer_all(
                        ss0[idx0],
                        ss1[idx],
                        last_sequence,
                    ) && (forall|k: int| 0 <= k < ss1.len() && k != idx ==> ss1[k] == ss0[k])
                } else {
                    ss1.len() == old(self).streamers_model().len() + 1 && idx == ss1.len() - 1 && (
                    forall|k: int|
                        0 <= k < ss1.len() - 1 ==> ss1[k] == old(self).streamers_model()[k])
                        && ss1[idx].pending_model() == Seq::<EntryModel>::empty()
                })
            }),
    {
        let idx = self.get_or_create(job_id);
        let ghost ss_mid = self.streamers@;
        let mut s = self.streamers.remove(idx);
        s.acknowledge_all(last_sequence);
        self.streamers.insert(idx, s);
        proof {
            assert(self.streamers@ =~= ss_mid.update(idx as int, self.streamers@[idx as int]));
            assert forall|a: int, b: int|
                0 <= a < b < self.streamers@.len() implies (#[trigger] self.streamers@[a])
                .spec_job_id() != (#[trigger] self.streamers@[b]).spec_job_id() by {
                assert(self.streamers@[a].spec_job_id() == ss_mid[a].spec_job_id());
                assert(self.streamers@[b].spec_job_id() == ss_mid[b].spec_job_id());
            }
            let ss1 = self.streamers@;
            assert(ss1[idx as int].spec_job_id() == job_id@);
            assert(has_streamer(ss1, job_id@));
            let idx1 = streamer_index(ss1, job_id@);
            assert(0 <= idx1 < ss1.len() && ss1[idx1].spec_job_id() == job_id@);
            assert(idx1 == idx as int);
            if has_streamer(old(self).streamers_model(), job_id@) {
                let idx0 = streamer_index(old(self).streamers_model(), job_id@);
                assert(0 <= idx0 < old(self).streamers_model().len());
                assert(idx0 == idx as int);
            }
        }
    }

    /// Flush every streamer, handing back one batch message per non-empty
    /// buffer, in streamer order. Pending rows are untouched.
    pub fn flush_all(&mut self) -> (r: Vec<OutgoingMessage>)
        requires
            old(self).wf(),
        ensures
            final(self).wf(),
            final(self).spec_config() == old(self).spec_config(),
            final(self).streamers_model().len() == old(self).streamers_model().len(),
            forall|i: int|
                0 <= i < final(self).streamers_model().len() ==> {
                    let pre = old(self).streamers_model()[i];
                    let post = #[trigger] final(self).streamers_model()[i];
                    post.buffer_model() == Seq::<EntryModel>::empty() && post.pending_model()
                        == pre.pending_model() && post.spec_counter() == pre.spec_counter()
                        && post.history() == pre.history() && post.acks() == pre.acks()
                        && post.spec_job_id() == pre.spec_job_id() && post.spec_config()
                        == pre.spec_config()
                },
            ({
                let batches = all_batches(old(self).streamers_model());
                r@.len() == batches.len() && forall|k: int|
                    0 <= k < r@.len() ==> ((#[trigger] r@[k]) matches OutgoingMessage::LogBatch {
                        job_id: j,
                        logs,
                    } && j@ == batches[k].0 && ws_models_of(logs@) == batches[k].1)
            }),
    {
        let ghost ss0 = self.streamers@;
        let mut r: Vec<OutgoingMessage> = Vec::new();
        let mut i: usize = 0;
        while i < self.streamers.len()
            invariant
                i <= self.streamers@.len(),
                self.streamers@.len() == ss0.len(),
                self.config == old(self).config,
                old(self).wf(),
                ss0 == old(self).streamers@,
                forall|k: int| i <= k < ss0.len() ==> #[trigger] self.streamers@[k] == ss0[k],
                forall|k: int|
                    0 <= k < i ==> {
                        let pre = ss0[k];
                        let post = #[trigger] self.streamers@[k];
                        post.wf() && post.buffer_model() == Seq::<EntryModel>::empty()
                            && post.pending_model() == pre.pending_model() && post.spec_counter()
                            == pre.spec_counter() && post.history() == pre.history() && post.acks()
                            == pre.acks() && post.spec_job_id() == pre.spec_job_id()
                            && post.spec_config() == pre.spec_config()
                    },
                ({
                    let batches = all_batches(ss0.subrange(0, i as int));
                    r@.len() == batches.len() && forall|k: int|
                        0 <= k < r@.len() ==> ((#[trigger] r@[k])
                            matches OutgoingMessage::LogBatch { job_id: j, logs } && j@
                            == batches[k].0 && ws_models_of(logs@) == batches[k].1)
                }),
            decreases self.streamers@.len() - i,
        {
            let ghost ss_before = self.streamers@;
            let mut s = self.streamers.remove(i);
            let batch = s.flush();
            self.streamers.insert(i, s);
            proof {
                assert(self.streamers@ =~= ss_before.update(i as int, self.streamers@[i as int]));
                assert(forall|k: int|
                    0 <= k < ss_before.len() && k != i ==> #[trigger] self.streamers@[k]
                        == ss_before[k]);
                assert(ss0.subrange(0, i + 1 as int).drop_last() =~= ss0.subrange(0, i as int));
                assert(ss0.subrange(0, i + 1 as int).last() == ss0[i as int]);
            }
            match batch {
                Some(m) => {
                    r.push(m);
                },
                None => {},
            }
            i = i + 1;
        }
        proof {
            assert(ss0.subrange(0, ss0.len() as int) =~= ss0);
            assert forall|a: int, b: int|
                0 <= a < b < self.streamers@.len() implies (#[trigger] self.streamers@[a])
                .spec_job_id() != (#[trigger] self.streamers@[b]).spec_job_id() by {
                assert(self.streamers@[a].spec_job_id() == ss0[a].spec_job_id());
                assert(self.streamers@[b].spec_job_id() == ss0[b].spec_job_id());
            }
        }
        r
    }

    /// Run the interval-driven flush over every streamer at the given clock
    /// reading: each streamer whose interval has passed and whose buffer is
    /// non-empty is drained into one batch message, in streamer order; the
    /// others stand untouched. This is the ticker's step.
    pub fn flush_due_at(&mut self, now_ms: i64) -> (r: Vec<OutgoingMessage>)
        requires
            old(self).wf(),
        ensures
            final(self).wf(),
            final(self).spec_config() == old(self).spec_config(),
            final(self).streamers_model().len() == old(self).streamers_model().len(),
            forall|i: int|
                0 <= i < final(self).streamers_model().len() ==> {
                    let pre = old(self).streamers_model()[i];
                    let post = #[trigger] final(self).streamers_model()[i];
                    &&& (flush_gate(pre, now_ms) ==> post.buffer_model()
                        == Seq::<EntryModel>::empty() && post.spec_last_flush() == now_ms)
                    &&& (!flush_gate(pre, now_ms) ==> post == pre)
                    &&& post.pending_model() == pre.pending_model()
                    &&& post.spec_counter() == pre.spec_counter()
                    &&& post.history() == pre.history()
                    &&& post.acks() == pre.acks()
                    &&& post.spec_job_id() == pre.spec_job_id()
                    &&& post.spec_config() == pre.spec_config()
                },
            ({
                let batches = due_batches(old(self).streamers_model(), now_ms);
                r@.len() == batches.len() && forall|k: int|
                    0 <= k < r@.len() ==> ((#[trigger] r@[k]) matches OutgoingMessage::LogBatch {
                        job_id: j,
                        logs,
                    } && j@ == batches[k].0 && ws_models_of(logs@) == batches[k].1)
            }),
    {
        let ghost ss0 = self.streamers@;
        let mut r: Vec<OutgoingMessage> = Vec::new();
        let mut i: usize = 0;
        while i < self.streamers.len()
            invariant
                i <= self.streamers@.len(),
                self.streamers@.len() == ss0.len(),
                self.config == old(self).config,
                old(self).wf(),
                ss0 == old(self).streamers@,
                forall|k: int| i <= k < ss0.len() ==> #[trigger] self.streamers@[k] == ss0[k],
                forall|k: int|
                    0 <= k < i ==> {
                        let pre = ss0[k];
                        let post = #[trigger] self.streamers@[k];
                        &&& post.wf()
                        &&& (flush_gate(pre, now_ms) ==> post.buffer_model()
                            == Seq::<EntryModel>::empty() && post.spec_last_flush() == now_ms)
                        &&& (!flush_gate(pre, now_ms) ==> post == pre)
                        &&& post.pending_model() == pre.pending_model()
                        &&& post.spec_counter() == pre.spec_counter()
                        &&& post.history() == pre.history()
                        &&& post.acks() == pre.acks()
                        &&& post.spec_job_id() == pre.spec_job_id()
                        &&& post.spec_config() == pre.spec_config()
                    },
                ({
                    let batches = due_batches(ss0.subrange(0, i as int), now_ms);
                    r@.len() == batches.len() && forall|k: int|
                        0 <= k < r@.len() ==> ((#[trigger] r@[k])
                            matches OutgoingMessage::LogBatch { job_id: j, logs } && j@
                            == batches[k].0 && ws_models_of(logs@) == batches[k].1)
                }),
            decreases self.streamers@.len() - i,
        {
            let ghost ss_before = self.streamers@;
            let mut s = self.streamers.remove(i);
            let batch = s.flush_if_needed_at(now_ms);
            self.streamers.insert(i, s);
            proof {
                assert(self.streamers@ =~= ss_before.update(i as int, self.streamers@[i as int]));
                assert(forall|k: int|
                    0 <= k < ss_before.len() && k != i ==> #[trigger] self.streamers@[k]
                        == ss_before[k]);
                assert(ss0.subrange(0, i + 1 as int).drop_last() =~= ss0.subrange(0, i as int));
                assert(ss0.subrange(0, i + 1 as int).last() == ss0[i as int]);
            }
            match batch {
                Some(m) => {
                    r.push(m);
                },
                None => {},
            }
            i = i + 1;
        }
        proof {
            assert(ss0.subrange(0, ss0.len() as int) =~= ss0);
            assert forall|a: int, b: int|
                0 <= a < b < self.streamers@.len() implies (#[trigger] self.streamers@[a])
                .spec_job_id() != (#[trigger] self.streamers@[b]).spec_job_id() by {
                assert(self.streamers@[a].spec_job_id() == ss0[a].spec_job_id());
                assert(self.streamers@[b].spec_job_id() == ss0[b].spec_job_id());
            }
        }
        r
    }

    /// One batch per streamer with persisted entries, re-emitting them in
    /// order, for the reconnect path. Nothing changes.
    pub fn resend_all(&self) -> (r: Vec<OutgoingMessage>)
        requires
            self.wf(),
        ensures
            forall|k: int|
                0 <= k < r@.len() ==> ((#[trigger] r@[k]) matches OutgoingMessage::LogBatch {
                    job_id: j,
                    logs,
                } && has_streamer(self.streamers_model(), j@) && ws_models_of(logs@)
                    == self.streamers_model()[streamer_index(self.streamers_model(), j@)].pending_model()),
            forall|i: int|
                0 <= i < self.streamers_model().len() && (#[trigger] self.streamers_model()[i])
                    .pending_model().len() > 0 ==> exists|k: int|
                    0 <= k < r@.len() && ((#[trigger] r@[k]) matches OutgoingMessage::LogBatch {
                        job_id: j,
                        ..
                    } && j@ == self.streamers_model()[i].spec_job_id()),
    {
        let mut r: Vec<OutgoingMessage> = Vec::new();
        let mut i: usize = 0;
        while i < self.streamers.len()
            invariant
                i <= self.streamers@.len(),
                self.wf(),
                forall|k: int|
                    0 <= k < r@.len() ==> ((#[trigger] r@[k]) matches OutgoingMessage::LogBatch {
                        job_id: j,
                        logs,
                    } && has_streamer(self.streamers@, j@) && ws_models_of(logs@)
                        == self.streamers@[streamer_index(self.streamers@, j@)].pending_model()),
                forall|a: int|
                    0 <= a < i && (#[trigger] self.streamers@[a]).pending_model().len() > 0
                        ==> exists|k: int|
                        0 <= k < r@.len() && ((#[trigger] r@[k])
                            matches OutgoingMessage::LogBatch { job_id: j, .. } && j@
                            == self.streamers@[a].spec_job_id()),
            decreases self.streamers@.len() - i,
        {
            match self.streamers[i].resend_pending() {
                Some(m) => {
                    proof {
                        let job = self.streamers@[i as int].spec_job_id();
                        assert(has_streamer(self.streamers@, job));
                        let idx = streamer_index(self.streamers@, job);
                        assert(0 <= idx < self.streamers@.len()
                            && self.streamers@[idx].spec_job_id() == job);
                        assert(idx == i as int);
                    }
                    let ghost r_before = r@;
                    r.push(m);
                    proof {
                        let kw = r@.len() - 1;
                        assert(r@[kw] == m);
                        assert forall|a: int|
                            0 <= a < i + 1 && (#[trigger] self.streamers@[a]).pending_model().len()
                                > 0 implies exists|k: int|
                            0 <= k < r@.len() && ((#[trigger] r@[k])
                                matches OutgoingMessage::LogBatch { job_id: j, .. } && j@
                                == self.streamers@[a].spec_job_id()) by {
                            if a == i as int {
                                assert(0 <= kw < r@.len() && (r@[kw]
                                    matches OutgoingMessage::LogBatch { job_id: j, .. } && j@
                                    == self.streamers@[a].spec_job_id()));
                            } else {
                                let k0 = choose|k: int|
                                    0 <= k < r_before.len() && ((#[trigger] r_before[k])
                                        matches OutgoingMessage::LogBatch { job_id: j, .. } && j@
                                        == self.streamers@[a].spec_job_id());
                                assert(r@[k0] == r_before[k0]);
                                assert(0 <= k0 < r@.len() && (r@[k0]
                                    matches OutgoingMessage::LogBatch { job_id: j, .. } && j@
                                    == self.streamers@[a].spec_job_id()));
                            }
                        }
                    }
                },
                None => {},
            }
            i = i + 1;
        }
        r
    }

    /// The job IDs with an active streamer, in creation order.
    pub fn active_jobs(&self) -> (r: Vec<String>)
        ensures
            r@.len() == self.streamers_model().len(),
            forall|i: int|
                0 <= i < r@.len() ==> (#[trigger] r@[i])@ == self.streamers_model()[i].spec_job_id(),
    {
        let mut r: Vec<String> = Vec::new();
        let mut i: usize = 0;
        while i < self.streamers.len()
            invariant
                i <= self.streamers@.len(),
                r@.len() == i,
                forall|j: int|
                    0 <= j < i ==> (#[trigger] r@[j])@ == self.streamers@[j].spec_job_id(),
            decreases self.streamers@.len() - i,
        {
            r.push(self.streamers[i].job_id.clone());
            i = i + 1;
        }
        r
    }
}

/// Log write request handed to a background writer.
pub struct LogWriteRequest {
    pub job_id: String,
    pub step_id: String,
    pub content: String,
    pub level: String,
}

/// Simple buffer of log entries with a flush threshold.
pub struct SimpleLogBuffer {
    buffer: Vec<LogEntry>,
    flush_size: usize,
}

impl SimpleLogBuffer {
    /// The buffered entries.
    pub closed spec fn entries(&self) -> Seq<LogEntry> {
        self.buffer@
    }

    /// The threshold at which the buffer asks to be flushed.
    pub closed spec fn spec_flush_size(&self) -> usize {
        self.flush_size
    }

    pub fn new(flush_size: usize) -> (r: Self)
        ensures
            r.entries().len() == 0,
            r.spec_flush_size() == flush_size,
    {
        SimpleLogBuffer { buffer: Vec::new(), flush_size }
    }

    /// Append one entry.
    pub fn add(&mut self, entry: LogEntry)
        ensures
            final(self).entries() == old(self).entries().push(entry),
            final(self).spec_flush_size() == old(self).spec_flush_size(),
    {
        self.buffer.push(entry);
    }

    /// Whether the buffer has reached its flush threshold.
    pub fn should_flush(&self) -> (r: bool)
        ensures
            r == (self.entries().len() >= self.spec_flush_size()),
    {
        self.buffer.len() >= self.flush_size
    }

    /// Hand out all buffered entries, leaving the buffer empty.
    pub fn drain(&mut self) -> (r: Vec<LogEntry>)
        ensures
            r@ == old(self).entries(),
            final(self).entries().len() == 0,
            final(self).spec_flush_size() == old(self).spec_flush_size(),
    {
        let mut out: Vec<LogEntry> = Vec::new();
        std::mem::swap(&mut out, &mut self.buffer);
        out
    }

    /// How many entries are buffered.
    pub fn len(&self) -> (r: usize)
        ensures
            r == self.entries().len(),
    {
        self.buffer.len()
    }

    /// Whether the buffer is empty.
    pub fn is_empty(&self) -> (r: bool)
        ensures
            r == (self.entries().len() == 0),
    {
        self.buffer.len() == 0
    }
}

proof fn lemma_filter_keeps_track(p: Seq<EntryModel>, pred: spec_fn(EntryModel) -> bool, h: Seq<
    EntryModel,
>)
    requires
        models_track(p, h),
    ensures
        models_track(p.filter(pred), h),
    decreases p.len(),
{
    reveal(Seq::filter);
    if p.len() > 0 {
        assert(models_track(p.drop_last(), h));
        lemma_filter_keeps_track(p.drop_last(), pred, h);
        if pred(p.last()) {
            let f = p.drop_last().filter(pred);
            assert(forall|k: int|
                0 <= k < f.len() ==> h.len() > (#[trigger] f[k]).sequence >= 0 && f[k]
                    == h[f[k].sequence as int]);
            assert forall|k: int| 0 <= k < f.len() implies (#[trigger] f[k]).sequence
                < p.last().sequence by {
                p.drop_last().lemma_filter_contains_rev(pred, f[k]);
                let j = choose|j: int|
                    0 <= j < p.drop_last().len() && #[trigger] p.drop_last()[j] == f[k];
                assert(p[j] == f[k]);
                assert(p[j].sequence < p[p.len() - 1].sequence);
            }
        }
    }
}

} // verus!
