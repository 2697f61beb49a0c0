//! The installation controller: ingests recorded chunks into the ring,
//! tracks two moving-average amplitudes, and runs the Idle/Active detection
//! state machine that decides when a snippet is played back stretched.

use vstd::arithmetic::div_mod::{lemma_div_is_ordered, lemma_div_multiples_vanish};
use vstd::prelude::*;

use crate::audio::{span_samples, span_to_samples, AudioSpec, TimeSpan};
use crate::channel::{poll, recv_blocking, PollOutcome};
use crate::node::{ControlMessage, ProcessorState};
use crate::ring::RecordingRing;
use crate::rng::random_in_range;

verus! {

/// Capacity, in chunks, of every channel's recording deque.
pub const REC_BUF_CHUNKS: usize = 1024;

/// Largest magnitude an `i32` sample can have; amplitudes never exceed it.
pub const AMP_CEIL: u64 = 0x8000_0000;

#[derive(Debug)]
pub enum InstallationProcessorControlMessage {
    Shutdown,
}

impl ControlMessage for InstallationProcessorControlMessage {
    open spec fn is_shutdown(self) -> bool {
        self is Shutdown
    }

    fn shutdown_msg() -> (r: Self) {
        InstallationProcessorControlMessage::Shutdown
    }
}

/// Ways a controller iteration can fail; each ends the session.
#[derive(Clone, Copy, Debug, PartialEq, Eq, Structural)]
pub enum ControllerError {
    /// A recorder bus channel disconnected: the upstream recorder is gone.
    BusDisconnected,
    /// The chunks of one ingest step did not all share one length.
    UnevenBus,
    /// A chunk held more samples than a moving-average window.
    ChunkTooLarge,
}

/// Magnitude of a sample value.
pub open spec fn mag(x: int) -> int {
    if x < 0 {
        -x
    } else {
        x
    }
}

/// Sum of the magnitudes of all samples of a chunk.
pub open spec fn sum_mag(s: Seq<i32>) -> int
    decreases s.len(),
{
    if s.len() == 0 {
        0
    } else {
        sum_mag(s.drop_last()) + mag(s.last() as int)
    }
}

pub proof fn lemma_sum_mag_bounds(s: Seq<i32>)
    ensures
        0 <= sum_mag(s) <= s.len() * AMP_CEIL,
    decreases s.len(),
{
    if s.len() == 0 {
    } else {
        lemma_sum_mag_bounds(s.drop_last());
        assert(mag(s.last() as int) <= AMP_CEIL);
    }
}

/// One update of a moving-average amplitude: the old average loses the
/// share of the window the newest chunks occupy and gains their summed
/// magnitudes, spread over the window.
pub open spec fn moving_average_step(
    last_avg: int,
    window: int,
    chunk_total: int,
    mag_total: int,
) -> int {
    (last_avg * (window - chunk_total) + mag_total) / window
}

/// Combined sample count of the newest chunk across all channels, using
/// channel 0's chunk as the representative length.
pub open spec fn last_chunk_total_len(ring: RecordingRing) -> int {
    ring.chunks_of(0).last().len() * ring.channel_count() as int
}

/// Summed magnitude of the newest chunk of channels `0..c`.
pub open spec fn last_chunks_mag(ring: RecordingRing, c: int) -> int
    decreases c,
{
    if c <= 0 {
        0
    } else {
        last_chunks_mag(ring, c - 1) + sum_mag(ring.chunks_of(c - 1).last())
    }
}

/// Summed sample magnitudes of one chunk, as a number small enough to add
/// across channels.
pub fn chunk_mag_sum(chunk: &Vec<i32>) -> (r: u128)
    ensures
        r == sum_mag(chunk@),
        r <= chunk@.len() * AMP_CEIL,
{
    let mut r: u128 = 0;
    let mut j: usize = 0;
    while j < chunk.len()
        invariant
            j <= chunk@.len(),
            r == sum_mag(chunk@.subrange(0, j as int)),
            r <= j * AMP_CEIL,
        decreases chunk@.len() - j as int,
    {
        let s: i32 = chunk[j];
        let m: u64 = if s < 0 {
            (-(s as i64)) as u64
        } else {
            s as u64
        };
        assert(m == mag(s as int));
        proof {
            assert(r + m <= (j + 1) * AMP_CEIL) by (nonlinear_arith)
                requires
                    r <= j * AMP_CEIL,
                    m <= AMP_CEIL,
            ;
            assert((j + 1) * AMP_CEIL <= (u64::MAX as int + 1) * AMP_CEIL) by (nonlinear_arith)
                requires
                    j + 1 <= u64::MAX as int + 1,
            ;
            assert(chunk@.subrange(0, j as int + 1).drop_last() =~= chunk@.subrange(0, j as int));
            assert(chunk@.subrange(0, j as int + 1).last() == chunk@[j as int]);
        }
        r = r + (m as u128);
        j += 1;
    }
    proof {
        assert(chunk@.subrange(0, chunk@.len() as int) =~= chunk@);
    }
    r
}

/// Recompute one moving-average amplitude from the newest chunk of every
/// channel, exactly as `moving_average_step` states.
pub fn chunked_moving_average_amp(last_avg: u64, window_size: usize, ring: &RecordingRing) -> (r:
    u64)
    requires
        ring.wf(),
        ring.chunk_count() >= 1,
        forall|c: int|
            0 <= c < ring.channel_count() ==> (#[trigger] ring.chunks_of(c)).last().len()
                == ring.chunks_of(0).last().len(),
        last_avg <= AMP_CEIL,
        window_size >= 1,
        last_chunk_total_len(*ring) <= window_size,
    ensures
        r == moving_average_step(
            last_avg as int,
            window_size as int,
            last_chunk_total_len(*ring),
            last_chunks_mag(*ring, ring.channel_count() as int),
        ),
        r <= AMP_CEIL,
{
    let channels = ring.channel_total();
    let len0 = ring.last_chunk(0).len();
    proof {
        assert(len0 * channels == last_chunk_total_len(*ring));
    }
    let l: usize = len0 * channels;
    let mut total: u128 = 0;
    let mut c: usize = 0;
    while c < channels
        invariant
            ring.wf(),
            ring.chunk_count() >= 1,
            channels == ring.channel_count(),
            len0 == ring.chunks_of(0).last().len(),
            forall|k: int|
                0 <= k < ring.channel_count() ==> (#[trigger] ring.chunks_of(k)).last().len()
                    == ring.chunks_of(0).last().len(),
            c <= channels,
            total == last_chunks_mag(*ring, c as int),
            total <= c * len0 * AMP_CEIL,
            len0 * channels <= usize::MAX,
        decreases channels - c as int,
    {
        let chunk = ring.last_chunk(c);
        let s = chunk_mag_sum(chunk);
        proof {
            assert(chunk@.len() == len0);
            assert(total + s <= (c + 1) * len0 * AMP_CEIL) by (nonlinear_arith)
                requires
                    total <= c * len0 * AMP_CEIL,
                    s <= len0 * AMP_CEIL,
            ;
            assert((c + 1) * len0 * AMP_CEIL <= (u64::MAX as int) * AMP_CEIL) by (nonlinear_arith)
                requires
                    c + 1 <= channels,
                    len0 * channels <= u64::MAX as int,
                    0 <= len0,
                    0 <= c,
            ;
        }
        total = total + s;
        c += 1;
    }
    proof {
        assert(total <= l * AMP_CEIL) by (nonlinear_arith)
            requires
                total <= channels * len0 * AMP_CEIL,
                l == len0 * channels,
        ;
    }
    let wminus: usize = window_size - l;
    proof {
        assert((last_avg as int) * (wminus as int) <= (AMP_CEIL as int) * (u64::MAX as int))
            by (nonlinear_arith)
            requires
                last_avg <= AMP_CEIL,
                wminus <= u64::MAX,
        ;
    }
    let num: u128 = (last_avg as u128) * (wminus as u128) + total;
    let q: u128 = num / (window_size as u128);
    proof {
        assert(num <= AMP_CEIL * window_size) by (nonlinear_arith)
            requires
                last_avg <= AMP_CEIL,
                total <= l * AMP_CEIL,
                num == last_avg * wminus + total,
                wminus == window_size - l,
                0 <= l <= window_size,
        ;
        lemma_div_is_ordered(num as int, (AMP_CEIL * window_size) as int, window_size as int);
        lemma_div_multiples_vanish(AMP_CEIL as int, window_size as int);
        assert((window_size as int) * (AMP_CEIL as int) == (AMP_CEIL as int) * (window_size as int))
            by (nonlinear_arith);
        assert(q <= AMP_CEIL);
    }
    q as u64
}

/// Amplitude-by-factor products stay far below every machine bound.
pub proof fn lemma_amp_products_small(current: int, ambient: int, factor_milli: int)
    requires
        0 <= current <= AMP_CEIL,
        0 <= ambient <= AMP_CEIL,
        0 <= factor_milli <= u32::MAX,
    ensures
        current * 1000 <= AMP_CEIL * 1000,
        ambient * 1000 <= AMP_CEIL * 1000,
        current * factor_milli <= (AMP_CEIL as int) * (u32::MAX as int),
        ambient * factor_milli <= (AMP_CEIL as int) * (u32::MAX as int),
{
    assert(current * 1000 <= AMP_CEIL * 1000 && ambient * 1000 <= AMP_CEIL * 1000 && current
        * factor_milli <= (AMP_CEIL as int) * (u32::MAX as int) && ambient * factor_milli <= (
    AMP_CEIL as int) * (u32::MAX as int)) by (nonlinear_arith)
        requires
            0 <= current <= AMP_CEIL,
            0 <= ambient <= AMP_CEIL,
            0 <= factor_milli <= u32::MAX,
    ;
}

/// Whether the instantaneous level exceeds the ambient level by more than
/// the activation factor (given in thousandths).
pub open spec fn amp_exceeds_activation(current: int, ambient: int, factor_milli: int) -> bool {
    current * 1000 > ambient * factor_milli
}

/// Whether the instantaneous level has fallen below the ambient level
/// divided by the activation factor (given in thousandths).
pub open spec fn amp_below_release(current: int, ambient: int, factor_milli: int) -> bool {
    current * factor_milli < ambient * 1000
}

/// For a constant input of magnitude `a`, one moving-average update never
/// moves the estimate away from `a`: the new value lies between the old
/// estimate and `a`, so the estimator converges toward `a` from below.
pub proof fn lemma_moving_average_monotone(avg: int, w: int, l: int, a: int)
    requires
        0 <= avg <= a,
        1 <= l <= w,
    ensures
        avg <= moving_average_step(avg, w, l, l * a) <= a,
{
    let num = avg * (w - l) + l * a;
    assert(avg * w <= num) by (nonlinear_arith)
        requires
            0 <= avg <= a,
            1 <= l <= w,
            num == avg * (w - l) + l * a,
    ;
    assert(num <= a * w) by (nonlinear_arith)
        requires
            0 <= avg <= a,
            1 <= l <= w,
            num == avg * (w - l) + l * a,
    ;
    lemma_div_is_ordered(avg * w, num, w);
    lemma_div_is_ordered(num, a * w, w);
    lemma_div_multiples_vanish(avg, w);
    lemma_div_multiples_vanish(a, w);
    assert(avg * w == w * avg) by (nonlinear_arith);
    assert(a * w == w * a) by (nonlinear_arith);
}

/// For a constant input of magnitude `a`, the distance between the
/// estimate and `a` shrinks by the factor `(w - l) / w` at every update,
/// up to one unit lost to rounding.
pub proof fn lemma_moving_average_contraction(avg: int, w: int, l: int, a: int)
    requires
        0 <= avg <= a,
        1 <= l <= w,
    ensures
        (a - moving_average_step(avg, w, l, l * a)) * w <= (a - avg) * (w - l) + w - 1,
{
    let num = avg * (w - l) + l * a;
    let q = num / w;
    vstd::arithmetic::div_mod::lemma_fundamental_div_mod(num, w);
    assert(a * w - num == (a - avg) * (w - l)) by (nonlinear_arith)
        requires
            num == avg * (w - l) + l * a,
    ;
    assert((a - q) * w == a * w - q * w) by (nonlinear_arith);
    assert(q * w == num - num % w) by (nonlinear_arith)
        requires
            num == q * w + num % w,
    ;
    vstd::arithmetic::div_mod::lemma_mod_bound(num, w);
}

/// Configuration of an installation session. Ratios and stretch factors
/// are fixed-point values in thousandths.
pub struct InstallationProcessorConfig {
    pub spec: AudioSpec,
    pub max_stretchers: u8,
    pub max_snippet_dur: TimeSpan,
    pub ambient_volume_window_dur: TimeSpan,
    pub current_volume_window_dur: TimeSpan,
    pub amp_activation_factor_milli: u32,
    pub window_sizes: Vec<usize>,
    pub min_stretch_factor_milli: u32,
    pub max_stretch_factor_milli: u32,
}


/// A window's sample count per channel, and across all channels, stays far
/// below the widest machine integer.
pub proof fn lemma_window_samples_bounded(dur: TimeSpan, spec: AudioSpec)
    ensures
        0 <= span_samples(dur.nanos as int, spec.sample_rate as int) * (spec.channels as int)
            <= u128::MAX,
        (dur.nanos as int) * (spec.sample_rate as int) <= u128::MAX,
        0 <= (dur.nanos as int) * (spec.sample_rate as int),
{
    let p = (dur.nanos as int) * (spec.sample_rate as int);
    assert(0 <= p <= (u64::MAX as int) * (u32::MAX as int)) by (nonlinear_arith)
        requires
            0 <= dur.nanos <= u64::MAX,
            0 <= spec.sample_rate <= u32::MAX,
            p == (dur.nanos as int) * (spec.sample_rate as int),
    ;
    lemma_div_is_ordered(p, (u64::MAX as int) * (u32::MAX as int), 1_000_000_000);
    vstd::arithmetic::div_mod::lemma_div_pos_is_pos(p, 1_000_000_000);
    let s = p / 1_000_000_000;
    assert(0 <= s * (spec.channels as int) <= ((u64::MAX as int) * (u32::MAX as int)
        / 1_000_000_000) * 0x1_0000) by (nonlinear_arith)
        requires
            0 <= s <= (u64::MAX as int) * (u32::MAX as int) / 1_000_000_000,
            spec.channels <= 0xFFFF,
    ;
}

/// A moving-average window in samples across all channels, derived from a
/// duration.
pub open spec fn window_samples_of(dur: TimeSpan, spec: AudioSpec) -> int {
    span_samples(dur.nanos as int, spec.sample_rate as int) * spec.channels as int
}

impl InstallationProcessorConfig {
    /// Whether this configuration can start a session, exactly as `wf`
    /// states. The edge tests this and refuses to start on an invalid
    /// configuration instead of running with one.
    pub fn validate(&self) -> (r: bool)
        ensures
            r == self.wf(),
    {
        if self.spec.channels < 1 || self.spec.sample_rate < 1 {
            return false;
        }
        if self.window_sizes.len() < 1 {
            return false;
        }
        if self.min_stretch_factor_milli < 1000 || self.min_stretch_factor_milli
            > self.max_stretch_factor_milli {
            return false;
        }
        proof {
            crate::audio::lemma_span_samples_nonneg(
                self.ambient_volume_window_dur.nanos as int,
                self.spec.sample_rate as int,
            );
            crate::audio::lemma_span_samples_nonneg(
                self.current_volume_window_dur.nanos as int,
                self.spec.sample_rate as int,
            );
            crate::audio::lemma_span_samples_nonneg(
                self.max_snippet_dur.nanos as int,
                self.spec.sample_rate as int,
            );
            lemma_window_samples_bounded(self.ambient_volume_window_dur, self.spec);
            lemma_window_samples_bounded(self.current_volume_window_dur, self.spec);
            lemma_window_samples_bounded(self.max_snippet_dur, self.spec);
        }
        let rate = self.spec.sample_rate as u128;
        let channels = self.spec.channels as u128;
        let nanos_per_sec = crate::audio::NANOS_PER_SEC as u128;
        let amb = ((self.ambient_volume_window_dur.nanos as u128) * rate / nanos_per_sec)
            * channels;
        if amb < 1 || amb > usize::MAX as u128 {
            return false;
        }
        let cur = ((self.current_volume_window_dur.nanos as u128) * rate / nanos_per_sec)
            * channels;
        if cur < 1 || cur > usize::MAX as u128 {
            return false;
        }
        let snip = (self.max_snippet_dur.nanos as u128) * rate / nanos_per_sec;
        if snip > usize::MAX as u128 {
            return false;
        }
        true
    }

    pub open spec fn wf(self) -> bool {
        &&& self.spec.valid()
        &&& self.window_sizes@.len() >= 1
        &&& 1000 <= self.min_stretch_factor_milli <= self.max_stretch_factor_milli
        &&& 1 <= window_samples_of(self.ambient_volume_window_dur, self.spec) <= usize::MAX
        &&& 1 <= window_samples_of(self.current_volume_window_dur, self.spec) <= usize::MAX
        &&& 0 <= span_samples(self.max_snippet_dur.nanos as int, self.spec.sample_rate as int)
            <= usize::MAX
    }
}

impl Default for InstallationProcessorConfig {
    /// The stock configuration: stereo at 44.1 kHz, a 10 s ambient window
    /// against a 300 ms instantaneous window with a 1.5 activation ratio,
    /// and 6x-12x stretches over an 8192-sample analysis window.
    fn default() -> (c: Self)
        ensures
            c.wf(),
            c.spec.channels == 2,
            c.spec.sample_rate == 44100,
            c.max_stretchers == 10,
            c.max_snippet_dur.nanos == 1_000_000_000,
            c.ambient_volume_window_dur.nanos == 10_000_000_000,
            c.current_volume_window_dur.nanos == 300_000_000,
            c.amp_activation_factor_milli == 1500,
            c.window_sizes@ == seq![8192usize],
            c.min_stretch_factor_milli == 6000,
            c.max_stretch_factor_milli == 12000,
    {
        let window_sizes: Vec<usize> = vec![8192];
        proof {
            assert(window_sizes@ =~= seq![8192usize]);
        }
        InstallationProcessorConfig {
            spec: AudioSpec { channels: 2, sample_rate: 44100 },
            max_stretchers: 10,
            max_snippet_dur: TimeSpan { nanos: 1_000_000_000 },
            ambient_volume_window_dur: TimeSpan { nanos: 10_000_000_000 },
            current_volume_window_dur: TimeSpan { nanos: 300_000_000 },
            amp_activation_factor_milli: 1500,
            window_sizes,
            min_stretch_factor_milli: 6000,
            max_stretch_factor_milli: 12000,
        }
    }
}

#[derive(Clone, Copy, Debug, PartialEq, Eq, Structural)]
pub enum ListeningState {
    Idle,
    Active,
}

/// What a detection event hands to the playback side: the snapshot of the
/// snippet, one chunk list per channel, and the parameters drawn for the
/// stretch.
pub struct TriggerParams {
    pub snapshot: Vec<Vec<Vec<i32>>>,
    pub total_input_samples: usize,
    pub stretch_factor_milli: u32,
    pub window_size: usize,
    pub fade: TimeSpan,
}

/// The sample views of a list of chunks.
pub open spec fn chunk_views(s: Seq<Vec<i32>>) -> Seq<Seq<i32>> {
    Seq::new(s.len(), |i: int| s[i]@)
}

/// Combined sample count of the chunks of one channel from `from` onward.
pub open spec fn suffix_samples(chunks: Seq<Seq<i32>>, from: int) -> int
    decreases chunks.len() - from,
{
    if from < 0 || from >= chunks.len() {
        0
    } else {
        chunks[from].len() + suffix_samples(chunks, from + 1)
    }
}

/// What a trigger's parameters must look like, relative to the ring,
/// listen-start index, snippet cap and configuration the trigger fired
/// from: the snapshot is the suffix of the ring starting at the
/// listen-start index, shortened from the front so that it never exceeds
/// the snippet cap, and the drawn parameters lie in the configured ranges.
pub open spec fn trigger_params_wf(
    ring: RecordingRing,
    listen_start: int,
    max_snippet_samples: int,
    config: InstallationProcessorConfig,
    p: TriggerParams,
) -> bool {
    &&& exists|snip_start: int|
        {
            &&& listen_start <= snip_start <= ring.chunk_count()
            &&& #[trigger] suffix_samples(ring.chunks_of(0), snip_start) <= max_snippet_samples
            &&& (snip_start == listen_start || suffix_samples(ring.chunks_of(0), snip_start - 1)
                > max_snippet_samples)
            &&& p.snapshot@.len() == ring.channel_count()
            &&& forall|c: int|
                0 <= c < ring.channel_count() ==> chunk_views((#[trigger] p.snapshot@[c])@)
                    == ring.chunks_of(c).subrange(snip_start, ring.chunk_count() as int)
            &&& p.total_input_samples == suffix_samples(ring.chunks_of(0), snip_start)
        }
    &&& config.min_stretch_factor_milli <= p.stretch_factor_milli
        <= config.max_stretch_factor_milli
    &&& config.window_sizes@.contains(p.window_size)
    &&& p.fade.nanos == 500_000_000
}


/// The verdict on one received chunk set: the chunks of a step must all
/// share one length (the bus invariant) and together fit inside both
/// moving-average windows. Exactly one verdict per input.
pub open spec fn chunk_set_verdict(
    chunks: Seq<Seq<i32>>,
    ambient_window: int,
    current_window: int,
) -> Result<(), ControllerError> {
    if !(forall|k: int|
        0 <= k < chunks.len() ==> (#[trigger] chunks[k]).len() == chunks[0].len()) {
        Result::Err(ControllerError::UnevenBus)
    } else if chunks[0].len() * chunks.len() > ambient_window || chunks[0].len() * chunks.len()
        > current_window {
        Result::Err(ControllerError::ChunkTooLarge)
    } else {
        Result::Ok(())
    }
}

/// Decide whether a received chunk set may enter the ring, exactly as
/// `chunk_set_verdict` states: which error it is, or that it is admissible,
/// if and only if.
pub fn vet_chunks(chunks: &Vec<Vec<i32>>, ambient_window: usize, current_window: usize) -> (r:
    Result<(), ControllerError>)
    requires
        chunks@.len() >= 1,
    ensures
        r == chunk_set_verdict(chunk_views(chunks@), ambient_window as int, current_window as int),
{
    let n = chunks.len();
    let len0 = chunks[0].len();
    proof {
        assert(chunk_views(chunks@)[0] == chunks@[0]@);
    }
    let mut c: usize = 1;
    while c < n
        invariant
            1 <= c <= n,
            n == chunks@.len(),
            len0 == chunks@[0]@.len(),
            forall|k: int| 0 <= k < c as int ==> (#[trigger] chunks@[k])@.len() == len0,
        decreases n - c as int,
    {
        if chunks[c].len() != len0 {
            proof {
                assert(chunk_views(chunks@)[c as int].len() != chunk_views(chunks@)[0].len());
            }
            return Result::Err(ControllerError::UnevenBus);
        }
        c += 1;
    }
    proof {
        assert forall|k: int| 0 <= k < chunk_views(chunks@).len() implies (#[trigger] chunk_views(
            chunks@,
        )[k]).len() == chunk_views(chunks@)[0].len() by {
            assert(chunk_views(chunks@)[k] == chunks@[k]@);
        }
    }
    let l = match len0.checked_mul(n) {
        Option::Some(l) => l,
        Option::None => {
            return Result::Err(ControllerError::ChunkTooLarge);
        },
    };
    if l > ambient_window || l > current_window {
        return Result::Err(ControllerError::ChunkTooLarge);
    }
    Result::Ok(())
}

/// The detection machine and everything it owns: the ring of recent
/// chunks, both amplitude estimates, and the listening state.
pub struct InstallationProcessor {
    pub config: InstallationProcessorConfig,
    pub ring: RecordingRing,
    pub listening_state: ListeningState,
    pub listen_start: usize,
    pub ambient_amplitude: u64,
    pub current_amplitude: u64,
    pub ambient_window_samples: usize,
    pub current_window_samples: usize,
    pub max_snippet_samples: usize,
    pub active_stretchers: usize,
}

impl InstallationProcessor {
    pub open spec fn wf(self) -> bool {
        &&& self.config.wf()
        &&& self.ring.wf()
        &&& self.ring.channel_count() == self.config.spec.channels as nat
        &&& self.ring.cap() == REC_BUF_CHUNKS as nat
        &&& self.ambient_window_samples as int == window_samples_of(
            self.config.ambient_volume_window_dur,
            self.config.spec,
        )
        &&& self.current_window_samples as int == window_samples_of(
            self.config.current_volume_window_dur,
            self.config.spec,
        )
        &&& self.max_snippet_samples as int == span_samples(
            self.config.max_snippet_dur.nanos as int,
            self.config.spec.sample_rate as int,
        )
        &&& self.ambient_amplitude <= AMP_CEIL
        &&& self.current_amplitude <= AMP_CEIL
        &&& self.listen_start <= self.ring.chunk_count()
    }

    /// Between iterations, an Active machine's listen start still points
    /// at a chunk that is really in the ring.
    pub open spec fn stable(self) -> bool {
        &&& self.wf()
        &&& (self.listening_state is Active ==> self.listen_start >= 1)
    }

    /// The chunk count after one ingest step: one more chunk per channel,
    /// or unchanged once the ring sits at capacity.
    pub open spec fn post_ingest_chunk_count(self) -> int {
        if self.ring.chunk_count() == self.ring.cap() {
            self.ring.cap() as int
        } else {
            self.ring.chunk_count() as int + 1
        }
    }

    /// The listen-start index after one ingest step: pulled back by one
    /// when the full ring dropped its oldest chunk while Active.
    pub open spec fn post_ingest_listen_start(self) -> int {
        if self.ring.chunk_count() == self.ring.cap() && self.listening_state is Active {
            self.listen_start - 1
        } else {
            self.listen_start as int
        }
    }

    pub fn new(config: InstallationProcessorConfig) -> (r: InstallationProcessor)
        requires
            config.wf(),
        ensures
            r.stable(),
            r.config == config,
            r.listening_state is Idle,
            r.listen_start == 0,
            r.ambient_amplitude == 0,
            r.current_amplitude == 0,
            r.active_stretchers == 0,
            r.ring.chunk_count() == 0,
    {
        let channels = config.spec.channels as usize;
        proof {
            crate::audio::lemma_span_samples_nonneg(
                config.ambient_volume_window_dur.nanos as int,
                config.spec.sample_rate as int,
            );
            crate::audio::lemma_span_samples_nonneg(
                config.current_volume_window_dur.nanos as int,
                config.spec.sample_rate as int,
            );
            let amb = span_samples(
                config.ambient_volume_window_dur.nanos as int,
                config.spec.sample_rate as int,
            );
            let cur = span_samples(
                config.current_volume_window_dur.nanos as int,
                config.spec.sample_rate as int,
            );
            assert(amb <= amb * channels && cur <= cur * channels) by (nonlinear_arith)
                requires
                    amb >= 0,
                    cur >= 0,
                    channels >= 1,
            ;
        }
        let ambient_per_channel = span_to_samples(
            config.ambient_volume_window_dur,
            config.spec.sample_rate,
        );
        let current_per_channel = span_to_samples(
            config.current_volume_window_dur,
            config.spec.sample_rate,
        );
        proof {
            assert(ambient_per_channel * channels == window_samples_of(
                config.ambient_volume_window_dur,
                config.spec,
            ));
            assert(current_per_channel * channels == window_samples_of(
                config.current_volume_window_dur,
                config.spec,
            ));
        }
        let ambient_window_samples = ambient_per_channel * channels;
        let current_window_samples = current_per_channel * channels;
        let max_snippet_samples = span_to_samples(config.max_snippet_dur, config.spec.sample_rate);
        let ring = RecordingRing::new(channels, REC_BUF_CHUNKS);
        InstallationProcessor {
            config,
            ring,
            listening_state: ListeningState::Idle,
            listen_start: 0,
            ambient_amplitude: 0,
            current_amplitude: 0,
            ambient_window_samples,
            current_window_samples,
            max_snippet_samples,
            active_stretchers: 0,
        }
    }

    /// Pull one chunk from every bus channel and push the set into the
    /// ring; on overflow the oldest chunk of every channel is dropped and
    /// an Active listen start is pulled back by one, so it keeps pointing
    /// at the same recorded samples.
    pub fn ingest(&mut self, bus: &Vec<crossbeam_channel::Receiver<Vec<i32>>>) -> (r: Result<
        bool,
        ControllerError,
    >)
        requires
            old(self).stable(),
            bus@.len() == old(self).ring.channel_count(),
        ensures
            r is Err ==> *final(self) == *old(self),
            r is Ok ==> {
                let truncated = r->Ok_0;
                &&& final(self).wf()
                &&& final(self).config == old(self).config
                &&& final(self).listening_state == old(self).listening_state
                &&& final(self).ambient_amplitude == old(self).ambient_amplitude
                &&& final(self).current_amplitude == old(self).current_amplitude
                &&& final(self).ambient_window_samples == old(self).ambient_window_samples
                &&& final(self).current_window_samples == old(self).current_window_samples
                &&& final(self).max_snippet_samples == old(self).max_snippet_samples
                &&& final(self).active_stretchers == old(self).active_stretchers
                &&& final(self).ring.channel_count() == old(self).ring.channel_count()
                &&& final(self).ring.cap() == old(self).ring.cap()
                &&& final(self).ring.chunk_count() >= 1
                &&& truncated == (old(self).ring.chunk_count() == old(self).ring.cap())
                &&& forall|c: int|
                    0 <= c < final(self).ring.channel_count() ==> (#[trigger] final(self).ring.chunks_of(c)).last().len() == final(self).ring.chunks_of(0).last().len()
                &&& last_chunk_total_len(final(self).ring) <= old(self).ambient_window_samples
                &&& last_chunk_total_len(final(self).ring) <= old(self).current_window_samples
                &&& (!truncated ==> final(self).listen_start == old(self).listen_start && final(self).ring.chunk_count() == old(self).ring.chunk_count() + 1)
                &&& (truncated ==> final(self).ring.chunk_count() == old(self).ring.cap())
                &&& (truncated && old(self).listening_state is Active ==> {
                    &&& final(self).listen_start == old(self).listen_start - 1
                    &&& forall|c: int|
                        0 <= c < final(self).ring.channel_count() ==> (#[trigger] final(self).ring.chunks_of(c)).subrange(
                            final(self).listen_start as int,
                            final(self).ring.chunk_count() - 1,
                        ) == old(self).ring.chunks_of(c).subrange(
                            old(self).listen_start as int,
                            old(self).ring.chunk_count() as int,
                        )
                })
                &&& (truncated && old(self).listening_state is Idle ==> final(self).listen_start
                    == old(self).listen_start)
                &&& (!truncated ==> forall|c: int|
                    0 <= c < final(self).ring.channel_count() ==> (#[trigger] final(self).ring.chunks_of(c)).drop_last() == old(self).ring.chunks_of(c))
                &&& (truncated ==> forall|c: int|
                    0 <= c < final(self).ring.channel_count() ==> (#[trigger] final(self).ring.chunks_of(c)).drop_last() == old(self).ring.chunks_of(
                        c,
                    ).drop_first())
            },
    {
        let n = bus.len();
        let mut chunks: Vec<Vec<i32>> = Vec::new();
        let mut c: usize = 0;
        while c < n
            invariant
                c <= n,
                chunks@.len() == c as int,
                n == bus@.len(),
            decreases n - c as int,
        {
            match recv_blocking(&bus[c]) {
                Option::Some(chunk) => {
                    chunks.push(chunk);
                },
                Option::None => {
                    return Result::Err(ControllerError::BusDisconnected);
                },
            }
            c += 1;
        }
        match vet_chunks(&chunks, self.ambient_window_samples, self.current_window_samples) {
            Result::Ok(()) => {},
            Result::Err(e) => {
                return Result::Err(e);
            },
        }
        let ghost len0 = chunks@[0]@.len();
        proof {
            assert forall|k: int| 0 <= k < chunks@.len() implies (#[trigger] chunks@[k])@.len()
                == len0 by {
                assert(chunk_views(chunks@)[k].len() == chunk_views(chunks@)[0].len());
                assert(chunk_views(chunks@)[k] == chunks@[k]@);
            }
            assert(len0 * (n as int) <= self.ambient_window_samples);
            assert(len0 * (n as int) <= self.current_window_samples);
        }
        let ghost chunks_view = chunks@;
        let truncated = self.ring.push_chunks(chunks);
        if truncated {
            if matches!(self.listening_state, ListeningState::Active) {
                self.listen_start -= 1;
            }
        }
        proof {
            assert(self.ring.chunks_of(0).last() == chunks_view[0]@);
            assert(last_chunk_total_len(self.ring) == len0 * n);
            assert forall|c: int| 0 <= c < self.ring.channel_count() implies (
            #[trigger] self.ring.chunks_of(c)).drop_last() == (if truncated {
                old(self).ring.chunks_of(c).drop_first()
            } else {
                old(self).ring.chunks_of(c)
            }) by {
                if truncated {
                    assert(self.ring.chunks_of(c).drop_last() =~= old(self).ring.chunks_of(
                        c,
                    ).drop_first());
                } else {
                    assert(self.ring.chunks_of(c).drop_last() =~= old(self).ring.chunks_of(c));
                }
            }
            if truncated && old(self).listening_state is Active {
                assert forall|c: int| 0 <= c < self.ring.channel_count() implies (
                #[trigger] self.ring.chunks_of(c)).subrange(
                    self.listen_start as int,
                    self.ring.chunk_count() - 1,
                ) == old(self).ring.chunks_of(c).subrange(
                    old(self).listen_start as int,
                    old(self).ring.chunk_count() as int,
                ) by {
                    crate::ring::lemma_truncated_suffix(
                        old(self).ring.chunks_of(c),
                        self.ring.chunks_of(c),
                        chunks_view[c]@,
                        old(self).listen_start as int,
                    );
                }
            }
        }
        Result::Ok(truncated)
    }

    /// First chunk index of the snippet: the listen start, moved forward
    /// just enough that the snippet stays within the configured cap. Also
    /// returns the snippet's per-channel sample count.
    fn snippet_start(&self) -> (r: (usize, usize))
        requires
            self.wf(),
        ensures
            self.listen_start <= r.0 <= self.ring.chunk_count(),
            r.1 == suffix_samples(self.ring.chunks_of(0), r.0 as int),
            r.1 <= self.max_snippet_samples,
            r.0 == self.listen_start || suffix_samples(self.ring.chunks_of(0), r.0 as int - 1)
                > self.max_snippet_samples,
    {
        let count = self.ring.len();
        let mut idx: usize = count;
        let mut acc: usize = 0;
        let mut done: bool = false;
        while !done && idx > self.listen_start
            invariant
                self.wf(),
                count == self.ring.chunk_count(),
                self.listen_start <= idx <= count,
                acc == suffix_samples(self.ring.chunks_of(0), idx as int),
                acc <= self.max_snippet_samples,
                done ==> suffix_samples(self.ring.chunks_of(0), idx as int - 1)
                    > self.max_snippet_samples,
            decreases (idx - self.listen_start) as int + (if done {
                0int
            } else {
                1int
            }),
        {
            let chunk_len = self.ring.chunk_at(0, idx - 1).len();
            if chunk_len > self.max_snippet_samples - acc {
                done = true;
            } else {
                acc = acc + chunk_len;
                idx -= 1;
            }
        }
        (idx, acc)
    }

    /// A copy of the chunks of every channel from `snip_start` to the
    /// newest, the snippet that a stretcher will play back.
    fn build_snapshot(&self, snip_start: usize) -> (snap: Vec<Vec<Vec<i32>>>)
        requires
            self.wf(),
            snip_start <= self.ring.chunk_count(),
        ensures
            snap@.len() == self.ring.channel_count(),
            forall|c: int|
                0 <= c < snap@.len() ==> chunk_views((#[trigger] snap@[c])@)
                    == self.ring.chunks_of(c).subrange(
                    snip_start as int,
                    self.ring.chunk_count() as int,
                ),
    {
        let channels = self.ring.channel_total();
        let count = self.ring.len();
        let mut snap: Vec<Vec<Vec<i32>>> = Vec::new();
        let mut c: usize = 0;
        while c < channels
            invariant
                self.wf(),
                snip_start <= count,
                count == self.ring.chunk_count(),
                channels == self.ring.channel_count(),
                c <= channels,
                snap@.len() == c as int,
                forall|k: int|
                    0 <= k < c as int ==> chunk_views((#[trigger] snap@[k])@)
                        == self.ring.chunks_of(k).subrange(snip_start as int, count as int),
            decreases channels - c as int,
        {
            let mut chan: Vec<Vec<i32>> = Vec::new();
            proof {
                assert(chunk_views(chan@) =~= self.ring.chunks_of(c as int).subrange(
                    snip_start as int,
                    snip_start as int,
                ));
            }
            let mut k: usize = snip_start;
            while k < count
                invariant
                    self.wf(),
                    snip_start <= k <= count,
                    count == self.ring.chunk_count(),
                    c < channels,
                    channels == self.ring.channel_count(),
                    chunk_views(chan@) == self.ring.chunks_of(c as int).subrange(
                        snip_start as int,
                        k as int,
                    ),
                decreases count - k as int,
            {
                let chunk = copy_chunk(self.ring.chunk_at(c, k));
                let ghost pre_chan = chan@;
                let ghost chunk_v = chunk@;
                chan.push(chunk);
                proof {
                    assert(chan@.len() == pre_chan.len() + 1);
                    assert(chunk_views(pre_chan).len() == pre_chan.len());
                    assert(pre_chan.len() == k - snip_start);
                    assert(self.ring.chunks_of(c as int).len() == count);
                    assert(chunk_v == self.ring.chunks_of(c as int)[k as int]);
                    assert forall|i: int| 0 <= i < chan@.len() implies #[trigger] chunk_views(
                        chan@,
                    )[i] == self.ring.chunks_of(c as int).subrange(
                        snip_start as int,
                        k as int + 1,
                    )[i] by {
                        assert(chunk_views(chan@)[i] == chan@[i]@);
                        assert(self.ring.chunks_of(c as int).subrange(
                            snip_start as int,
                            k as int + 1,
                        )[i] == self.ring.chunks_of(c as int)[snip_start + i]);
                        if i < pre_chan.len() {
                            assert(chan@[i] == pre_chan[i]);
                            assert(chunk_views(pre_chan)[i] == pre_chan[i]@);
                            assert(chunk_views(pre_chan)[i] == self.ring.chunks_of(
                                c as int,
                            ).subrange(snip_start as int, k as int)[i]);
                            assert(self.ring.chunks_of(c as int).subrange(
                                snip_start as int,
                                k as int,
                            )[i] == self.ring.chunks_of(c as int)[snip_start + i]);
                        } else {
                            assert(i == k - snip_start);
                            assert(chan@[i]@ == chunk_v);
                        }
                    }
                    assert(chunk_views(chan@) =~= self.ring.chunks_of(c as int).subrange(
                        snip_start as int,
                        k as int + 1,
                    ));
                }
                k += 1;
            }
            snap.push(chan);
            c += 1;
        }
        snap
    }

    /// One of the configured analysis window sizes, drawn at random.
    pub fn choose_window(&self) -> (w: usize)
        requires
            self.config.wf(),
        ensures
            self.config.window_sizes@.contains(w),
    {
        let idx = random_in_range(0, self.config.window_sizes.len() as u64) as usize;
        self.config.window_sizes[idx]
    }

    /// A stretch factor drawn uniformly from the configured range, in
    /// thousandths.
    pub fn choose_stretch_factor(&self) -> (f: u32)
        requires
            self.config.wf(),
        ensures
            self.config.min_stretch_factor_milli <= f <= self.config.max_stretch_factor_milli,
            self.config.min_stretch_factor_milli < self.config.max_stretch_factor_milli ==> f
                < self.config.max_stretch_factor_milli,
            self.config.min_stretch_factor_milli == self.config.max_stretch_factor_milli ==> f
                == self.config.min_stretch_factor_milli,
    {
        let min = self.config.min_stretch_factor_milli;
        let max = self.config.max_stretch_factor_milli;
        if min < max {
            random_in_range(min as u64, max as u64) as u32
        } else {
            min
        }
    }

    /// Run the detection transition once over the current amplitudes and
    /// ring. In Idle, the machine arms itself when the ring is at least
    /// half full and the instantaneous level exceeds the ambient level by
    /// the activation factor. In Active, it disarms when the snippet has
    /// filled the ring or the level has dropped below the release point;
    /// unless the stretcher cap is reached, that moment yields a trigger.
    pub fn update_state(&mut self) -> (r: Option<TriggerParams>)
        requires
            old(self).wf(),
        ensures
            final(self).stable(),
            final(self).config == old(self).config,
            final(self).ring == old(self).ring,
            final(self).ambient_amplitude == old(self).ambient_amplitude,
            final(self).current_amplitude == old(self).current_amplitude,
            final(self).ambient_window_samples == old(self).ambient_window_samples,
            final(self).current_window_samples == old(self).current_window_samples,
            final(self).max_snippet_samples == old(self).max_snippet_samples,
            old(self).listening_state is Idle ==> {
                let go = old(self).ring.chunk_count() >= (REC_BUF_CHUNKS / 2) as nat
                    && amp_exceeds_activation(
                    old(self).current_amplitude as int,
                    old(self).ambient_amplitude as int,
                    old(self).config.amp_activation_factor_milli as int,
                );
                &&& final(self).listening_state == (if go {
                    ListeningState::Active
                } else {
                    ListeningState::Idle
                })
                &&& (go ==> final(self).listen_start == old(self).ring.chunk_count())
                &&& (!go ==> final(self).listen_start == old(self).listen_start)
                &&& r is None
                &&& final(self).active_stretchers == old(self).active_stretchers
            },
            old(self).listening_state is Active ==> {
                let stop = old(self).listen_start == 0 || amp_below_release(
                    old(self).current_amplitude as int,
                    old(self).ambient_amplitude as int,
                    old(self).config.amp_activation_factor_milli as int,
                );
                &&& final(self).listening_state == (if stop {
                    ListeningState::Idle
                } else {
                    ListeningState::Active
                })
                &&& final(self).listen_start == old(self).listen_start
                &&& (!stop ==> r is None && final(self).active_stretchers == old(self).active_stretchers)
                &&& (stop && old(self).active_stretchers < old(self).config.max_stretchers
                    ==> r is Some && final(self).active_stretchers == old(self).active_stretchers
                    + 1)
                &&& (stop && old(self).active_stretchers >= old(self).config.max_stretchers ==> r
                    is None && final(self).active_stretchers == old(self).active_stretchers)
                &&& (r matches Option::Some(p) ==> trigger_params_wf(
                    old(self).ring,
                    old(self).listen_start as int,
                    old(self).max_snippet_samples as int,
                    old(self).config,
                    p,
                ))
            },
    {
        match self.listening_state {
            ListeningState::Idle => {
                let half_full = self.ring.len() >= REC_BUF_CHUNKS / 2;
                proof {
                    lemma_amp_products_small(
                        self.current_amplitude as int,
                        self.ambient_amplitude as int,
                        self.config.amp_activation_factor_milli as int,
                    );
                }
                let exceeded = (self.current_amplitude as u128) * 1000 > (
                self.ambient_amplitude as u128) * (self.config.amp_activation_factor_milli as u128);
                if half_full && exceeded {
                    self.listen_start = self.ring.len();
                    self.listening_state = ListeningState::Active;
                }
                Option::None
            },
            ListeningState::Active => {
                proof {
                    lemma_amp_products_small(
                        self.current_amplitude as int,
                        self.ambient_amplitude as int,
                        self.config.amp_activation_factor_milli as int,
                    );
                }
                let below = (self.current_amplitude as u128) * (
                self.config.amp_activation_factor_milli as u128) < (
                self.ambient_amplitude as u128) * 1000;
                if self.listen_start == 0 || below {
                    let r = if self.active_stretchers < self.config.max_stretchers as usize {
                        let (snip_start, total_input_samples) = self.snippet_start();
                        let snapshot = self.build_snapshot(snip_start);
                        let stretch_factor_milli = self.choose_stretch_factor();
                        let window_size = self.choose_window();
                        self.active_stretchers += 1;
                        let params = TriggerParams {
                            snapshot,
                            total_input_samples,
                            stretch_factor_milli,
                            window_size,
                            fade: TimeSpan { nanos: 500_000_000 },
                        };
                        proof {
                            assert(trigger_params_wf(
                                old(self).ring,
                                old(self).listen_start as int,
                                old(self).max_snippet_samples as int,
                                old(self).config,
                                params,
                            )) by {
                                assert(exists|snip: int|
                                    {
                                        &&& old(self).listen_start <= snip <= old(self).ring.chunk_count()
                                        &&& #[trigger] suffix_samples(
                                            old(self).ring.chunks_of(0),
                                            snip,
                                        ) <= old(self).max_snippet_samples
                                        &&& (snip == old(self).listen_start || suffix_samples(
                                            old(self).ring.chunks_of(0),
                                            snip - 1,
                                        ) > old(self).max_snippet_samples)
                                        &&& params.snapshot@.len() == old(self).ring.channel_count()
                                        &&& forall|c: int|
                                            0 <= c < old(self).ring.channel_count()
                                                ==> chunk_views(
                                                (#[trigger] params.snapshot@[c])@) == old(self).ring.chunks_of(c).subrange(
                                                snip,
                                                old(self).ring.chunk_count() as int,
                                            )
                                        &&& params.total_input_samples == suffix_samples(
                                            old(self).ring.chunks_of(0),
                                            snip,
                                        )
                                    }) by {
                                    assert(old(self).listen_start <= snip_start as int <= old(self).ring.chunk_count());
                                };
                            }
                        }
                        Option::Some(params)
                    } else {
                        Option::None
                    };
                    self.listening_state = ListeningState::Idle;
                    r
                } else {
                    Option::None
                }
            },
        }
    }

    /// Drain one pending control message; a shutdown request or a
    /// disconnected control channel finishes the processor.
    pub fn handle_control_messages(
        &mut self,
        rx: &crossbeam_channel::Receiver<InstallationProcessorControlMessage>,
    ) -> (r: ProcessorState)
        ensures
            *final(self) == *old(self),
    {
        let outcome = poll(rx);
        control_state(outcome)
    }

    /// One playback voice ended; forget it so new triggers may fire again.
    pub fn note_stretcher_finished(&mut self)
        ensures
            final(self).active_stretchers == (if old(self).active_stretchers > 0 {
                old(self).active_stretchers - 1
            } else {
                0int
            }),
            final(self).config == old(self).config,
            final(self).ring == old(self).ring,
            final(self).listening_state == old(self).listening_state,
            final(self).listen_start == old(self).listen_start,
            final(self).ambient_amplitude == old(self).ambient_amplitude,
            final(self).current_amplitude == old(self).current_amplitude,
            final(self).ambient_window_samples == old(self).ambient_window_samples,
            final(self).current_window_samples == old(self).current_window_samples,
            final(self).max_snippet_samples == old(self).max_snippet_samples,
    {
        if self.active_stretchers > 0 {
            self.active_stretchers -= 1;
        }
    }

    /// One full controller iteration: ingest a chunk set, refresh both
    /// amplitude estimates, run the detection transition, then drain the
    /// control inbox. On success the contract pins the whole step: the
    /// ring grew (or dropped its oldest chunk at capacity), both averages
    /// were updated by exactly one `moving_average_step` over the new
    /// chunks, and the listening state moved by the detection rules.
    pub fn run_iteration(
        &mut self,
        bus: &Vec<crossbeam_channel::Receiver<Vec<i32>>>,
        ctrl_rx: &crossbeam_channel::Receiver<InstallationProcessorControlMessage>,
    ) -> (r: Result<IterationOutcome, ControllerError>)
        requires
            old(self).stable(),
            bus@.len() == old(self).ring.channel_count(),
        ensures
            r is Err ==> *final(self) == *old(self),
            final(self).config == old(self).config,
            final(self).ring.channel_count() == old(self).ring.channel_count(),
            final(self).ring.cap() == old(self).ring.cap(),
            final(self).ambient_window_samples == old(self).ambient_window_samples,
            final(self).current_window_samples == old(self).current_window_samples,
            final(self).max_snippet_samples == old(self).max_snippet_samples,
            r is Ok ==> {
                &&& final(self).stable()
                &&& final(self).ring.chunk_count() == old(self).post_ingest_chunk_count()
                &&& final(self).ring.chunk_count() >= 1
                &&& final(self).ambient_amplitude == moving_average_step(
                    old(self).ambient_amplitude as int,
                    old(self).ambient_window_samples as int,
                    last_chunk_total_len(final(self).ring),
                    last_chunks_mag(final(self).ring, final(self).ring.channel_count() as int),
                )
                &&& final(self).current_amplitude == moving_average_step(
                    old(self).current_amplitude as int,
                    old(self).current_window_samples as int,
                    last_chunk_total_len(final(self).ring),
                    last_chunks_mag(final(self).ring, final(self).ring.channel_count() as int),
                )
            },
            r matches Result::Ok(out) ==> (old(self).listening_state is Idle ==> {
                let go = final(self).ring.chunk_count() >= (REC_BUF_CHUNKS / 2) as nat
                    && amp_exceeds_activation(
                    final(self).current_amplitude as int,
                    final(self).ambient_amplitude as int,
                    old(self).config.amp_activation_factor_milli as int,
                );
                &&& final(self).listening_state == (if go {
                    ListeningState::Active
                } else {
                    ListeningState::Idle
                })
                &&& (go ==> final(self).listen_start == final(self).ring.chunk_count())
                &&& (!go ==> final(self).listen_start == old(self).listen_start)
                &&& out.trigger is None
                &&& final(self).active_stretchers == old(self).active_stretchers
            }),
            r matches Result::Ok(out) ==> (old(self).listening_state is Active ==> {
                let stop = old(self).post_ingest_listen_start() == 0 || amp_below_release(
                    final(self).current_amplitude as int,
                    final(self).ambient_amplitude as int,
                    old(self).config.amp_activation_factor_milli as int,
                );
                &&& final(self).listening_state == (if stop {
                    ListeningState::Idle
                } else {
                    ListeningState::Active
                })
                &&& final(self).listen_start == old(self).post_ingest_listen_start()
                &&& (!stop ==> out.trigger is None && final(self).active_stretchers == old(
                    self,
                ).active_stretchers)
                &&& (stop && old(self).active_stretchers < old(self).config.max_stretchers
                    ==> out.trigger is Some && final(self).active_stretchers == old(
                    self,
                ).active_stretchers + 1)
                &&& (stop && old(self).active_stretchers >= old(self).config.max_stretchers
                    ==> out.trigger is None && final(self).active_stretchers == old(
                    self,
                ).active_stretchers)
                &&& (out.trigger matches Option::Some(p) ==> trigger_params_wf(
                    final(self).ring,
                    old(self).post_ingest_listen_start(),
                    old(self).max_snippet_samples as int,
                    old(self).config,
                    p,
                ))
            }),
    {
        let truncated = match self.ingest(bus) {
            Result::Ok(t) => t,
            Result::Err(e) => {
                return Result::Err(e);
            },
        };
        proof {
            assert(self.ring.chunk_count() == old(self).post_ingest_chunk_count());
            assert(self.listen_start as int == old(self).post_ingest_listen_start());
        }
        self.ambient_amplitude = chunked_moving_average_amp(
            self.ambient_amplitude,
            self.ambient_window_samples,
            &self.ring,
        );
        self.current_amplitude = chunked_moving_average_amp(
            self.current_amplitude,
            self.current_window_samples,
            &self.ring,
        );
        let trigger = self.update_state();
        let state = self.handle_control_messages(ctrl_rx);
        Result::Ok(IterationOutcome { state, trigger })
    }
}

/// A copy of a chunk's samples.
fn copy_chunk(src: &Vec<i32>) -> (r: Vec<i32>)
    ensures
        r@ == src@,
{
    let mut out: Vec<i32> = Vec::new();
    let mut j: usize = 0;
    while j < src.len()
        invariant
            j <= src@.len(),
            out@ == src@.subrange(0, j as int),
        decreases src@.len() - j as int,
    {
        let sample: i32 = src[j];
        out.push(sample);
        proof {
            assert(src@.subrange(0, j as int + 1) =~= src@.subrange(0, j as int).push(
                src@[j as int],
            ));
        }
        j += 1;
    }
    proof {
        assert(src@.subrange(0, src@.len() as int) =~= src@);
    }
    out
}

/// What a control-inbox outcome means for the processor: a shutdown
/// request or a vanished control channel finishes it, anything else keeps
/// it running.
pub fn control_state(msg: PollOutcome<InstallationProcessorControlMessage>) -> (r: ProcessorState)
    ensures
        r == (match msg {
            PollOutcome::Msg(m) => {
                if m is Shutdown {
                    ProcessorState::Finished
                } else {
                    ProcessorState::Running
                }
            },
            PollOutcome::Empty => ProcessorState::Running,
            PollOutcome::Disconnected => ProcessorState::Finished,
        }),
{
    match msg {
        PollOutcome::Msg(InstallationProcessorControlMessage::Shutdown) => ProcessorState::Finished,
        PollOutcome::Empty => ProcessorState::Running,
        PollOutcome::Disconnected => ProcessorState::Finished,
    }
}

/// The outcome of one controller iteration: whether to keep running, and a
/// trigger when a snippet should start playing.
pub struct IterationOutcome {
    pub state: ProcessorState,
    pub trigger: Option<TriggerParams>,
}

} // verus!
