//! The streaming download core.
//!
//! A transfer consumes an ordered, finite sequence of byte chunks of
//! unknown arrival timing, persists each chunk exactly once in arrival
//! order, accumulates a running total against the declared content length,
//! and emits a human-readable progress line at most once per interval.
//!
//! `StreamingDownloader` is the per-chunk core: the caller hands it each
//! arrived chunk's length and arrival instant and performs the actual
//! sink write itself, so a lazy source needs no materialization.
//! `download` runs the whole algorithm over an in-memory chunk trace and
//! sink, and is verified against `run_model`, the mathematical model of a
//! transfer; the laws below state what every run of that model does.

use crate::errors::DownloadError;
use crate::size_format::spec_format_size;
use crate::size_format::format_size;
use crate::throttle::EMIT_INTERVAL_MS;
use crate::throttle::ProgressThrottle;
use crate::throttle::spec_emits;
use vstd::prelude::*;

verus! {

/// The status line shown while a transfer runs.
pub open spec fn spec_progress_line(downloaded: int, total: int) -> Seq<char> {
    "Downloading ["@ + spec_format_size(downloaded) + "/"@ + spec_format_size(total) + "]"@
}

/// Builds the status line for the current counts.
pub fn progress_line(downloaded: u64, total: u64) -> (line: String)
    ensures
        line@ == spec_progress_line(downloaded as int, total as int),
{
    let mut line = String::from_str("Downloading [");
    line.append(format_size(downloaded).as_str());
    line.append("/");
    line.append(format_size(total).as_str());
    line.append("]");
    proof {
        assert(line@ =~= spec_progress_line(downloaded as int, total as int));
    }
    line
}

/// A transport-level failure of the chunk stream.
#[derive(Clone, Copy, Debug, PartialEq, Eq, Structural)]
pub struct TransportError;

/// One step of the chunk stream: what the transport yielded, and the
/// instant (in milliseconds) at which it arrived.
pub struct ChunkArrival {
    /// The bytes delivered, or the transport's failure.
    pub chunk: Result<Vec<u8>, TransportError>,
    /// The arrival instant, in milliseconds.
    pub at_ms: u64,
}

/// Everything observable of a transfer after some chunk arrivals: the
/// running byte count, the throttle baseline, the bytes persisted to the
/// sink, the progress lines emitted with their instants, and whether the
/// transfer has failed.
pub ghost struct TransferModel {
    /// Sum of the lengths of the chunks accepted so far.
    pub downloaded: int,
    /// Instant of the last emission (initially the transfer's start).
    pub last_emit: int,
    /// Bytes persisted to the sink, in order.
    pub written: Seq<u8>,
    /// The progress lines emitted, in order.
    pub lines: Seq<Seq<char>>,
    /// The instants of the emissions, in order.
    pub emit_times: Seq<int>,
    /// Whether a transport error has aborted the transfer.
    pub failed: bool,
}

/// The state of a transfer before any chunk has arrived.
pub open spec fn initial_model(start_ms: int) -> TransferModel {
    TransferModel {
        downloaded: 0,
        last_emit: start_ms,
        written: Seq::empty(),
        lines: Seq::empty(),
        emit_times: Seq::empty(),
        failed: false,
    }
}

/// One chunk arrival: a failed transfer absorbs every further event; an
/// intact chunk is written and counted, and a progress line is emitted
/// exactly when the throttle allows it.
pub open spec fn step_model(m: TransferModel, ev: ChunkArrival, total: int) -> TransferModel {
    if m.failed {
        m
    } else {
        match ev.chunk {
            Ok(data) => {
                let nd = m.downloaded + data@.len();
                if spec_emits(m.last_emit, ev.at_ms as int) {
                    TransferModel {
                        downloaded: nd,
                        last_emit: ev.at_ms as int,
                        written: m.written + data@,
                        lines: m.lines.push(spec_progress_line(nd, total)),
                        emit_times: m.emit_times.push(ev.at_ms as int),
                        failed: false,
                    }
                } else {
                    TransferModel {
                        downloaded: nd,
                        last_emit: m.last_emit,
                        written: m.written + data@,
                        lines: m.lines,
                        emit_times: m.emit_times,
                        failed: false,
                    }
                }
            },
            Err(_) => TransferModel {
                downloaded: m.downloaded,
                last_emit: m.last_emit,
                written: m.written,
                lines: m.lines,
                emit_times: m.emit_times,
                failed: true,
            },
        }
    }
}

/// The transfer state after a whole trace of chunk arrivals.
pub open spec fn run_model(events: Seq<ChunkArrival>, m: TransferModel, total: int) -> TransferModel
    decreases events.len(),
{
    if events.len() == 0 {
        m
    } else {
        step_model(run_model(events.drop_last(), m, total), events.last(), total)
    }
}

/// Every chunk of the trace arrived intact.
pub open spec fn all_chunks_ok(events: Seq<ChunkArrival>) -> bool {
    forall|i: int| 0 <= i < events.len() ==> (#[trigger] events[i].chunk) is Ok
}

/// The concatenation, in order, of the bytes of the intact chunks.
pub open spec fn chunk_data(events: Seq<ChunkArrival>) -> Seq<u8>
    decreases events.len(),
{
    if events.len() == 0 {
        Seq::empty()
    } else {
        chunk_data(events.drop_last()) + (match events.last().chunk {
            Ok(data) => data@,
            Err(_) => Seq::<u8>::empty(),
        })
    }
}

/// The summed length of the intact chunks.
pub open spec fn total_len(events: Seq<ChunkArrival>) -> int
    decreases events.len(),
{
    if events.len() == 0 {
        0
    } else {
        total_len(events.drop_last()) + (match events.last().chunk {
            Ok(data) => data@.len() as int,
            Err(_) => 0,
        })
    }
}

/// The per-chunk core of a transfer: the running count against the
/// declared total, and the throttle deciding when to emit progress.
pub struct StreamingDownloader {
    downloaded: u64,
    total: u64,
    throttle: ProgressThrottle,
}

impl StreamingDownloader {
    /// Sum of the lengths of the chunks recorded so far.
    pub closed spec fn downloaded(self) -> int {
        self.downloaded as int
    }

    /// The declared content length of the source.
    pub closed spec fn total(self) -> int {
        self.total as int
    }

    /// The throttle's baseline: the instant of the last emission.
    pub closed spec fn last_emit(self) -> int {
        self.throttle.last_emit()
    }

    /// A fresh transfer against a declared total, with the throttle's
    /// baseline at the transfer's start instant.
    pub fn new(total: u64, start_ms: u64) -> (d: Self)
        ensures
            d.downloaded() == 0,
            d.total() == total as int,
            d.last_emit() == start_ms as int,
    {
        StreamingDownloader { downloaded: 0, total, throttle: ProgressThrottle::new(start_ms) }
    }

    /// The running byte count.
    pub fn bytes_downloaded(&self) -> (n: u64)
        ensures
            n as int == self.downloaded(),
    {
        self.downloaded
    }

    /// Accounts one chunk that the caller has just written to the sink in
    /// full: adds its length to the running count and, exactly when a full
    /// interval has passed since the last emission, returns the progress
    /// line to show now.
    pub fn record_chunk(&mut self, chunk_len: usize, now_ms: u64) -> (line: Option<String>)
        requires
            old(self).downloaded() + chunk_len <= u64::MAX,
        ensures
            final(self).downloaded() == old(self).downloaded() + chunk_len,
            final(self).total() == old(self).total(),
            match line {
                Some(l) => spec_emits(old(self).last_emit(), now_ms as int) && l@
                    == spec_progress_line(final(self).downloaded(), final(self).total())
                    && final(self).last_emit() == now_ms as int,
                None => !spec_emits(old(self).last_emit(), now_ms as int) && final(self).last_emit()
                    == old(self).last_emit(),
            },
    {
        self.downloaded = self.downloaded + chunk_len as u64;
        if self.throttle.should_emit(now_ms) {
            Some(progress_line(self.downloaded, self.total))
        } else {
            None
        }
    }
}

/// Appends the bytes of `data` to `sink`, in order.
fn append_bytes(sink: &mut Vec<u8>, data: &Vec<u8>)
    ensures
        final(sink)@ == old(sink)@ + data@,
{
    proof {
        assert(old(sink)@ + data@.take(0) =~= old(sink)@);
    }
    let mut j: usize = 0;
    while j < data.len()
        invariant
            j <= data@.len(),
            sink@ == old(sink)@ + data@.take(j as int),
        decreases data@.len() - j,
    {
        sink.push(data[j]);
        proof {
            assert(sink@ =~= old(sink)@ + data@.take(j as int + 1));
        }
        j += 1;
    }
    proof {
        assert(data@.take(data@.len() as int) =~= data@);
    }
}

/// Peeling one event off the front of a run.
proof fn lemma_run_model_step(events: Seq<ChunkArrival>, m: TransferModel, total: int, i: int)
    requires
        0 <= i < events.len(),
    ensures
        run_model(events.take(i + 1), m, total) == step_model(
            run_model(events.take(i), m, total),
            events[i],
            total,
        ),
{
    assert(events.take(i + 1).drop_last() =~= events.take(i));
    assert(events.take(i + 1).last() == events[i]);
}

/// A run never decreases the byte count.
proof fn lemma_run_model_monotone(events: Seq<ChunkArrival>, m: TransferModel, total: int)
    ensures
        run_model(events, m, total).downloaded >= m.downloaded,
    decreases events.len(),
{
    if events.len() > 0 {
        lemma_run_model_monotone(events.drop_last(), m, total);
    }
}

/// A run over a concatenated trace is the second run from where the first
/// one ended.
proof fn lemma_run_model_concat(
    a: Seq<ChunkArrival>,
    b: Seq<ChunkArrival>,
    m: TransferModel,
    total: int,
)
    ensures
        run_model(a + b, m, total) == run_model(b, run_model(a, m, total), total),
    decreases b.len(),
{
    if b.len() == 0 {
        assert(a + b =~= a);
    } else {
        lemma_run_model_concat(a, b.drop_last(), m, total);
        assert((a + b).drop_last() =~= a + b.drop_last());
        assert((a + b).last() == b.last());
    }
}

/// The byte count of a prefix never exceeds the byte count of the run.
proof fn lemma_run_model_prefix_downloaded(
    events: Seq<ChunkArrival>,
    m: TransferModel,
    total: int,
    i: int,
)
    requires
        0 <= i <= events.len(),
    ensures
        run_model(events.take(i), m, total).downloaded <= run_model(events, m, total).downloaded,
{
    assert(events =~= events.take(i) + events.skip(i));
    lemma_run_model_concat(events.take(i), events.skip(i), m, total);
    lemma_run_model_monotone(events.skip(i), run_model(events.take(i), m, total), total);
}

/// A failed state absorbs every further event.
proof fn lemma_run_model_failed_stays(events: Seq<ChunkArrival>, m: TransferModel, total: int)
    requires
        m.failed,
    ensures
        run_model(events, m, total) == m,
    decreases events.len(),
{
    if events.len() > 0 {
        lemma_run_model_failed_stays(events.drop_last(), m, total);
    }
}

/// Once a prefix of the trace has failed, the whole run equals that
/// prefix's state.
proof fn lemma_run_model_failed_absorbs(
    events: Seq<ChunkArrival>,
    m: TransferModel,
    total: int,
    i: int,
)
    requires
        0 <= i <= events.len(),
        run_model(events.take(i), m, total).failed,
    ensures
        run_model(events, m, total) == run_model(events.take(i), m, total),
{
    assert(events =~= events.take(i) + events.skip(i));
    lemma_run_model_concat(events.take(i), events.skip(i), m, total);
    lemma_run_model_failed_stays(events.skip(i), run_model(events.take(i), m, total), total);
}

/// The bytes of a trace's intact chunks are as many as their summed
/// length says.
proof fn lemma_chunk_data_len(events: Seq<ChunkArrival>)
    ensures
        chunk_data(events).len() == total_len(events),
    decreases events.len(),
{
    if events.len() > 0 {
        lemma_chunk_data_len(events.drop_last());
    }
}

/// A run over intact chunks appends exactly their bytes and counts
/// exactly their summed length.
proof fn lemma_run_model_ok_general(events: Seq<ChunkArrival>, m: TransferModel, total: int)
    requires
        all_chunks_ok(events),
        !m.failed,
    ensures
        !run_model(events, m, total).failed,
        run_model(events, m, total).written == m.written + chunk_data(events),
        run_model(events, m, total).downloaded == m.downloaded + total_len(events),
    decreases events.len(),
{
    if events.len() == 0 {
        assert(m.written + chunk_data(events) =~= m.written);
    } else {
        assert(all_chunks_ok(events.drop_last())) by {
            assert(forall|i: int|
                0 <= i < events.len() - 1 ==> events.drop_last()[i] == events[i]);
        }
        lemma_run_model_ok_general(events.drop_last(), m, total);
        assert(events.last().chunk is Ok);
        assert(run_model(events, m, total).written =~= m.written + chunk_data(events));
    }
}

/// Law (lossless streaming): over any finite trace whose chunks all
/// arrive intact, the transfer does not fail, the sink receives exactly
/// the chunks' bytes concatenated in arrival order, and the final byte
/// count is their summed length.
pub proof fn lemma_download_success(events: Seq<ChunkArrival>, start_ms: int, total: int)
    requires
        all_chunks_ok(events),
    ensures
        ({
            let m = run_model(events, initial_model(start_ms), total);
            &&& !m.failed
            &&& m.written == chunk_data(events)
            &&& m.downloaded == total_len(events)
            &&& m.written.len() == m.downloaded
        }),
{
    lemma_run_model_ok_general(events, initial_model(start_ms), total);
    lemma_chunk_data_len(events);
    assert(initial_model(start_ms).written + chunk_data(events) =~= chunk_data(events));
}

/// Law (abort on transport failure): if the chunks before position `i`
/// arrive intact and the transport fails at `i`, the transfer fails and
/// the sink holds exactly the bytes of those first `i` chunks.
pub proof fn lemma_download_failure(
    events: Seq<ChunkArrival>,
    start_ms: int,
    total: int,
    i: int,
)
    requires
        0 <= i < events.len(),
        all_chunks_ok(events.take(i)),
        events[i].chunk is Err,
    ensures
        ({
            let m = run_model(events, initial_model(start_ms), total);
            &&& m.failed
            &&& m.written == chunk_data(events.take(i))
            &&& m.downloaded == total_len(events.take(i))
            &&& m.written.len() == m.downloaded
        }),
{
    lemma_download_success(events.take(i), start_ms, total);
    lemma_run_model_step(events, initial_model(start_ms), total, i);
    lemma_run_model_failed_absorbs(events, initial_model(start_ms), total, i + 1);
}

/// A run keeps the byte count equal to the length of what it wrote.
proof fn lemma_run_model_counter_general(events: Seq<ChunkArrival>, m: TransferModel, total: int)
    requires
        m.written.len() == m.downloaded,
    ensures
        run_model(events, m, total).written.len() == run_model(events, m, total).downloaded,
    decreases events.len(),
{
    if events.len() > 0 {
        lemma_run_model_counter_general(events.drop_last(), m, total);
    }
}

/// Law (counter soundness): on every trace, successful or aborted, the
/// final byte count equals the number of bytes persisted to the sink.
pub proof fn lemma_download_counter_matches_sink(
    events: Seq<ChunkArrival>,
    start_ms: int,
    total: int,
)
    ensures
        run_model(events, initial_model(start_ms), total).written.len() == run_model(
            events,
            initial_model(start_ms),
            total,
        ).downloaded,
{
    lemma_run_model_counter_general(events, initial_model(start_ms), total);
}

/// The spacing invariant the throttle maintains: emissions are at least
/// one interval apart, and the baseline is at or past the last emission.
pub open spec fn emissions_spaced(m: TransferModel) -> bool {
    &&& forall|k: int|
        0 <= k && k + 1 < m.emit_times.len() ==> #[trigger] m.emit_times[k + 1] - m.emit_times[k]
            >= EMIT_INTERVAL_MS
    &&& m.emit_times.len() > 0 ==> m.last_emit >= m.emit_times.last()
    &&& m.lines.len() == m.emit_times.len()
}

/// A run preserves the spacing invariant.
proof fn lemma_run_model_spacing(events: Seq<ChunkArrival>, m: TransferModel, total: int)
    requires
        emissions_spaced(m),
    ensures
        emissions_spaced(run_model(events, m, total)),
    decreases events.len(),
{
    if events.len() > 0 {
        lemma_run_model_spacing(events.drop_last(), m, total);
        let pre = run_model(events.drop_last(), m, total);
        let post = run_model(events, m, total);
        assert forall|k: int|
            0 <= k && k + 1 < post.emit_times.len() implies #[trigger] post.emit_times[k + 1]
            - post.emit_times[k] >= EMIT_INTERVAL_MS by {
            if k + 1 < pre.emit_times.len() {
                assert(post.emit_times[k + 1] == pre.emit_times[k + 1]);
                assert(post.emit_times[k] == pre.emit_times[k]);
            }
        }
    }
}

/// Law (rate limiting): however densely chunks arrive, any two successive
/// progress emissions of a transfer lie at least one full interval apart,
/// and there is one emission instant per emitted line.
pub proof fn lemma_download_rate_limited(events: Seq<ChunkArrival>, start_ms: int, total: int)
    ensures
        ({
            let m = run_model(events, initial_model(start_ms), total);
            &&& forall|k: int|
                0 <= k && k + 1 < m.emit_times.len() ==> #[trigger] m.emit_times[k + 1]
                    - m.emit_times[k] >= EMIT_INTERVAL_MS
            &&& m.lines.len() == m.emit_times.len()
        }),
{
    lemma_run_model_spacing(events, initial_model(start_ms), total);
}

/// Runs a whole transfer over an in-memory chunk trace: truncates the
/// sink (the destination is newly created), then handles each arrival in
/// order — write the chunk in full, count it, and emit a progress line
/// when one is due — until the trace is exhausted or the transport fails.
/// Returns the byte count on success or the stream failure, together with
/// the progress lines emitted, all exactly as `run_model` states.
pub fn download(
    events: &Vec<ChunkArrival>,
    total: u64,
    start_ms: u64,
    sink: &mut Vec<u8>,
) -> (outcome: (Result<u64, DownloadError>, Vec<String>))
    requires
        run_model(events@, initial_model(start_ms as int), total as int).downloaded <= u64::MAX,
    ensures
        ({
            let m = run_model(events@, initial_model(start_ms as int), total as int);
            &&& final(sink)@ == m.written
            &&& outcome.1@.map_values(|l: String| l@) == m.lines
            &&& match outcome.0 {
                Ok(n) => !m.failed && n as int == m.downloaded,
                Err(e) => m.failed && e == DownloadError::StreamReadError,
            }
        }),
{
    sink.clear();
    let mut lines: Vec<String> = Vec::new();
    let mut core = StreamingDownloader::new(total, start_ms);
    proof {
        assert(events@.take(0) =~= Seq::<ChunkArrival>::empty());
        assert(lines@.map_values(|l: String| l@) =~= Seq::<Seq<char>>::empty());
    }
    let mut i: usize = 0;
    while i < events.len()
        invariant
            i <= events@.len(),
            run_model(events@, initial_model(start_ms as int), total as int).downloaded
                <= u64::MAX,
            ({
                let m = run_model(events@.take(i as int), initial_model(start_ms as int), total as int);
                &&& !m.failed
                &&& core.downloaded() == m.downloaded
                &&& core.total() == total as int
                &&& core.last_emit() == m.last_emit
                &&& sink@ == m.written
                &&& lines@.map_values(|l: String| l@) == m.lines
            }),
        decreases events@.len() - i,
    {
        proof {
            lemma_run_model_step(events@, initial_model(start_ms as int), total as int, i as int);
        }
        let ev = &events[i];
        match &ev.chunk {
            Ok(data) => {
                proof {
                    lemma_run_model_prefix_downloaded(
                        events@,
                        initial_model(start_ms as int),
                        total as int,
                        i as int + 1,
                    );
                }
                append_bytes(sink, data);
                let line = core.record_chunk(data.len(), ev.at_ms);
                if let Some(l) = line {
                    lines.push(l);
                }
                proof {
                    let m = run_model(
                        events@.take(i as int + 1),
                        initial_model(start_ms as int),
                        total as int,
                    );
                    assert(lines@.map_values(|l: String| l@) =~= m.lines);
                }
            },
            Err(_) => {
                proof {
                    lemma_run_model_failed_absorbs(
                        events@,
                        initial_model(start_ms as int),
                        total as int,
                        i as int + 1,
                    );
                }
                return (Err(DownloadError::StreamReadError), lines);
            },
        }
        i += 1;
    }
    proof {
        assert(events@.take(i as int) =~= events@);
    }
    (Ok(core.bytes_downloaded()), lines)
}

} // verus!
