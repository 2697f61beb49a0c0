//! The output mixer: a dynamic set of connected buses summed into one
//! interleaved frame stream, with per-bus fade-in and lifecycle handling.

use std::collections::VecDeque;

use vstd::arithmetic::div_mod::{lemma_div_is_ordered, lemma_div_multiples_vanish};
use vstd::prelude::*;

use crate::audio::{span_samples, span_to_samples, AudioSpec, TimeSpan, SAMPLE_UNIT};
use crate::channel::{poll, PollOutcome};
use crate::node::{ControlMessage, ProcessorState};

verus! {

/// Control vocabulary of the output mixer.
pub enum AudioOutputProcessorControlMessage {
    ConnectBus {
        id: u64,
        bus: Vec<crossbeam_channel::Receiver<Vec<i32>>>,
        fade: Option<TimeSpan>,
        shutdown_when_finished: bool,
    },
    DisconnectBus {
        id: u64,
    },
    Shutdown,
}

impl ControlMessage for AudioOutputProcessorControlMessage {
    open spec fn is_shutdown(self) -> bool {
        self is Shutdown
    }

    fn shutdown_msg() -> (r: Self) {
        AudioOutputProcessorControlMessage::Shutdown
    }
}

/// A sample scaled by a linear fade at position `pos` of `total`; a zero
/// `total` means no fade is configured and the sample passes unchanged.
/// The division happens on the magnitude, so no rounding crosses zero.
pub open spec fn faded(sample: int, pos: int, total: int) -> int {
    if total == 0 {
        sample
    } else if sample < 0 {
        -((-sample) * pos / total)
    } else {
        sample * pos / total
    }
}

/// A fade never amplifies: the scaled sample keeps its sign and its
/// magnitude never exceeds the input's.
pub proof fn lemma_faded_bounds(sample: int, pos: int, total: int)
    requires
        0 <= pos <= total,
    ensures
        sample >= 0 ==> 0 <= faded(sample, pos, total) <= sample,
        sample < 0 ==> sample <= faded(sample, pos, total) <= 0,
{
    if total != 0 {
        let m = if sample < 0 {
            -sample
        } else {
            sample
        };
        assert(m * pos <= m * total) by (nonlinear_arith)
            requires
                0 <= pos <= total,
                m >= 0,
        ;
        assert(m * pos >= 0) by (nonlinear_arith)
            requires
                m >= 0,
                pos >= 0,
        ;
        lemma_div_is_ordered(m * pos, m * total, total);
        lemma_div_multiples_vanish(m, total);
        assert(m * total == total * m) by (nonlinear_arith);
        vstd::arithmetic::div_mod::lemma_div_pos_is_pos(m * pos, total);
    }
}

/// A fade-in rises monotonically: a later position never yields a smaller
/// sample than an earlier one, for a non-negative input.
pub proof fn lemma_faded_monotone(sample: int, pos1: int, pos2: int, total: int)
    requires
        sample >= 0,
        0 <= pos1 <= pos2 <= total,
        total > 0,
    ensures
        faded(sample, pos1, total) <= faded(sample, pos2, total),
{
    assert(sample * pos1 <= sample * pos2) by (nonlinear_arith)
        requires
            sample >= 0,
            pos1 <= pos2,
    ;
    lemma_div_is_ordered(sample * pos1, sample * pos2, total);
}

/// Clip a mixed value to full scale.
pub open spec fn clipped(x: int) -> int {
    if x > SAMPLE_UNIT {
        SAMPLE_UNIT as int
    } else if x < -SAMPLE_UNIT {
        -SAMPLE_UNIT as int
    } else {
        x
    }
}

/// One connected bus: its chunk receivers, the samples already pulled but
/// not yet mixed, and the state of its fade-in.
pub struct BusConnection {
    pub id: u64,
    pub bus: Vec<crossbeam_channel::Receiver<Vec<i32>>>,
    pub scratch: Vec<VecDeque<i32>>,
    pub gone: Vec<bool>,
    pub fade_pos: usize,
    pub fade_total: usize,
    pub shutdown_when_finished: bool,
}

impl BusConnection {
    pub open spec fn wf(self, channels: nat) -> bool {
        &&& self.bus@.len() == channels
        &&& self.scratch@.len() == channels
        &&& self.gone@.len() == channels
        &&& self.fade_pos <= self.fade_total
    }

    /// The next sample this bus contributes on channel `c`, before the
    /// fade: the head of the scratch queue, or silence when it is empty.
    pub open spec fn head_or_zero(self, c: int) -> int {
        if self.scratch@[c]@.len() > 0 {
            self.scratch@[c]@[0] as int
        } else {
            0
        }
    }

    /// The faded contribution of this bus on channel `c`.
    pub open spec fn contribution(self, c: int) -> int {
        faded(self.head_or_zero(c), self.fade_pos as int, self.fade_total as int)
    }

    /// End of stream: every channel's receiver is gone, so no further
    /// chunk will ever arrive on this bus.
    pub open spec fn eos(self) -> bool {
        forall|c: int| 0 <= c < self.gone@.len() ==> self.gone@[c]
    }

    /// Every channel's receiver is gone and every scratch queue is empty:
    /// nothing more will ever come from this bus.
    pub open spec fn finished(self) -> bool {
        &&& (forall|c: int| 0 <= c < self.gone@.len() ==> self.gone@[c])
        &&& (forall|c: int| 0 <= c < self.scratch@.len() ==> (#[trigger] self.scratch@[c])@.len()
            == 0)
    }
}

/// Where a bus's fade position moves after one frame: toward the full
/// level while the bus is live, and back toward silence once end of
/// stream was observed on every channel. A bus without a configured fade
/// never moves.
pub open spec fn advanced_fade_pos(pre: BusConnection) -> int {
    if pre.fade_total == 0 {
        pre.fade_pos as int
    } else if pre.eos() {
        if pre.fade_pos > 0 {
            pre.fade_pos - 1
        } else {
            0
        }
    } else if pre.fade_pos < pre.fade_total {
        pre.fade_pos + 1
    } else {
        pre.fade_pos as int
    }
}

/// A queue after one sample was taken from its front; an empty queue
/// stays empty (the bus contributes silence).
pub open spec fn popped(q: Seq<i32>) -> Seq<i32> {
    if q.len() > 0 {
        q.drop_first()
    } else {
        q
    }
}

impl BusConnection {
    /// Take this bus's next sample on channel `c` and return it with the
    /// current fade applied; an empty scratch queue yields silence.
    fn take_contribution(&mut self, c: usize) -> (s: i64)
        requires
            (c as int) < old(self).scratch@.len(),
            old(self).fade_pos <= old(self).fade_total,
        ensures
            s == old(self).contribution(c as int),
            -(SAMPLE_UNIT * 128) <= s <= SAMPLE_UNIT * 128,
            final(self).scratch@.len() == old(self).scratch@.len(),
            final(self).scratch@[c as int]@ == popped(old(self).scratch@[c as int]@),
            forall|k: int|
                0 <= k < old(self).scratch@.len() && k != c as int ==> final(self).scratch@[k]
                    == old(self).scratch@[k],
            final(self).id == old(self).id,
            final(self).bus == old(self).bus,
            final(self).gone == old(self).gone,
            final(self).fade_pos == old(self).fade_pos,
            final(self).fade_total == old(self).fade_total,
            final(self).shutdown_when_finished == old(self).shutdown_when_finished,
    {
        let mut q = self.scratch.remove(c);
        let head = q.pop_front();
        let sample: i32 = match head {
            Option::Some(v) => v,
            Option::None => 0,
        };
        self.scratch.insert(c, q);
        proof {
            assert(self.scratch@ =~= old(self).scratch@.update(
                c as int,
                self.scratch@[c as int],
            ));
            lemma_faded_bounds(sample as int, self.fade_pos as int, self.fade_total as int);
        }
        if self.fade_total == 0 {
            sample as i64
        } else {
            let m: u64 = if sample < 0 {
                (-(sample as i64)) as u64
            } else {
                sample as u64
            };
            proof {
                assert((m as int) * (self.fade_pos as int) <= (crate::controller::AMP_CEIL as int) * (
                u64::MAX as int)) by (nonlinear_arith)
                    requires
                        m <= crate::controller::AMP_CEIL,
                        self.fade_pos <= u64::MAX,
                ;
                assert((m as int) * (self.fade_pos as int) >= 0) by (nonlinear_arith)
                    requires
                        m >= 0,
                        self.fade_pos >= 0,
                ;
                assert((m as int) * (self.fade_pos as int) / (self.fade_total as int) <= m as int)
                    by {
                    assert((m as int) * (self.fade_pos as int) <= (m as int) * (
                    self.fade_total as int)) by (nonlinear_arith)
                        requires
                            self.fade_pos <= self.fade_total,
                            m >= 0,
                    ;
                    lemma_div_is_ordered(
                        (m as int) * (self.fade_pos as int),
                        (m as int) * (self.fade_total as int),
                        self.fade_total as int,
                    );
                    lemma_div_multiples_vanish(m as int, self.fade_total as int);
                    assert((m as int) * (self.fade_total as int) == (self.fade_total as int) * (
                    m as int)) by (nonlinear_arith);
                }
                vstd::arithmetic::div_mod::lemma_div_pos_is_pos(
                    (m as int) * (self.fade_pos as int),
                    self.fade_total as int,
                );
            }
            let scaled = (((m as u128) * (self.fade_pos as u128)) / (
            self.fade_total as u128)) as u64;
            if sample < 0 {
                -(scaled as i64)
            } else {
                scaled as i64
            }
        }
    }

    /// Advance this bus's fade by one frame: toward the full level while
    /// chunks may still arrive, and back toward silence once end of
    /// stream was observed on every channel.
    fn advance_fade(&mut self, fading_out: bool)
        requires
            old(self).fade_pos <= old(self).fade_total,
            fading_out == old(self).eos(),
        ensures
            final(self).fade_pos == advanced_fade_pos(*old(self)),
            final(self).fade_pos <= final(self).fade_total,
            final(self).id == old(self).id,
            final(self).bus == old(self).bus,
            final(self).scratch == old(self).scratch,
            final(self).gone == old(self).gone,
            final(self).fade_total == old(self).fade_total,
            final(self).shutdown_when_finished == old(self).shutdown_when_finished,
    {
        if self.fade_total > 0 {
            if fading_out {
                if self.fade_pos > 0 {
                    self.fade_pos -= 1;
                }
            } else {
                if self.fade_pos < self.fade_total {
                    self.fade_pos += 1;
                }
            }
        }
    }

    /// Whether end of stream was observed on every channel of this bus.
    fn eos_check(&self) -> (r: bool)
        ensures
            r == self.eos(),
    {
        let n = self.gone.len();
        let mut c: usize = 0;
        while c < n
            invariant
                c <= n,
                n == self.gone@.len(),
                forall|k: int| 0 <= k < c as int ==> self.gone@[k],
            decreases n - c as int,
        {
            if !self.gone[c] {
                return false;
            }
            c += 1;
        }
        true
    }
}

/// Sum of the faded contributions of `buses[..n]` on channel `c`.
pub open spec fn mix_sum(buses: Seq<BusConnection>, n: int, c: int) -> int
    decreases n,
{
    if n <= 0 {
        0
    } else {
        mix_sum(buses, n - 1, c) + buses[n - 1].contribution(c)
    }
}

pub proof fn lemma_mix_sum_bounds(buses: Seq<BusConnection>, n: int, c: int)
    requires
        0 <= n <= buses.len(),
        forall|b: int|
            0 <= b < n ==> (#[trigger] buses[b]).fade_pos <= buses[b].fade_total,
    ensures
        -n * (SAMPLE_UNIT * 128) <= mix_sum(buses, n, c) <= n * (SAMPLE_UNIT * 128),
    decreases n,
{
    if n > 0 {
        lemma_mix_sum_bounds(buses, n - 1, c);
        let b = buses[n - 1];
        lemma_faded_bounds(b.head_or_zero(c), b.fade_pos as int, b.fade_total as int);
        assert(-(SAMPLE_UNIT * 128) <= b.head_or_zero(c) <= SAMPLE_UNIT * 128);
    }
}


/// Whether the mixer accepts a connect request: a fresh id, one receiver
/// per output channel, and a fade span representable on this machine.
pub open spec fn connect_accepted(
    m: AudioOutputProcessor,
    id: u64,
    bus: Seq<crossbeam_channel::Receiver<Vec<i32>>>,
    fade: Option<TimeSpan>,
) -> bool {
    &&& !m.has_bus_spec(id)
    &&& bus.len() == m.spec.channels as nat
    &&& (fade matches Option::Some(t) ==> span_samples(
        t.nanos as int,
        m.spec.sample_rate as int,
    ) <= usize::MAX)
}

/// The bus table after an accepted connect: every old entry kept in place
/// and one new entry at the back, starting silent at fade position zero.
pub open spec fn connected_entry_ok(
    pre: AudioOutputProcessor,
    post: Seq<BusConnection>,
    id: u64,
    fade: Option<TimeSpan>,
    shutdown_when_finished: bool,
) -> bool {
    &&& post.len() == pre.buses@.len() + 1
    &&& (forall|b: int| 0 <= b < pre.buses@.len() ==> post[b] == pre.buses@[b])
    &&& post.last().id == id
    &&& post.last().shutdown_when_finished == shutdown_when_finished
    &&& post.last().fade_pos == 0
    &&& (fade matches Option::Some(t) ==> post.last().fade_total as int == span_samples(
        t.nanos as int,
        pre.spec.sample_rate as int,
    ))
    &&& (fade is None ==> post.last().fade_total == 0)
}

/// The output mixer: owns the set of connected buses and produces one
/// interleaved frame at a time for the device edge.
pub struct AudioOutputProcessor {
    pub spec: AudioSpec,
    pub buses: Vec<BusConnection>,
}

impl AudioOutputProcessor {
    pub open spec fn wf(self) -> bool {
        &&& self.spec.valid()
        &&& forall|b: int|
            0 <= b < self.buses@.len() ==> (#[trigger] self.buses@[b]).wf(
                self.spec.channels as nat,
            )
        &&& forall|i: int, j: int|
            0 <= i < j < self.buses@.len() ==> self.buses@[i].id != self.buses@[j].id
    }

    pub open spec fn has_bus_spec(self, id: u64) -> bool {
        exists|b: int| 0 <= b < self.buses@.len() && (#[trigger] self.buses@[b]).id == id
    }

    pub fn new(spec: AudioSpec) -> (r: AudioOutputProcessor)
        requires
            spec.valid(),
        ensures
            r.wf(),
            r.spec == spec,
            r.buses@.len() == 0,
    {
        AudioOutputProcessor { spec, buses: Vec::new() }
    }

    pub fn has_bus(&self, id: u64) -> (r: bool)
        ensures
            r == self.has_bus_spec(id),
    {
        let mut b: usize = 0;
        while b < self.buses.len()
            invariant
                b <= self.buses@.len(),
                forall|k: int| 0 <= k < b as int ==> (#[trigger] self.buses@[k]).id != id,
            decreases self.buses@.len() - b as int,
        {
            if self.buses[b].id == id {
                return true;
            }
            b += 1;
        }
        false
    }

    /// Connect a new bus under a fresh id. Its fade starts at zero when a
    /// fade time is given; with none the bus plays at full level at once.
    pub fn connect_bus(
        &mut self,
        id: u64,
        bus: Vec<crossbeam_channel::Receiver<Vec<i32>>>,
        fade: Option<TimeSpan>,
        shutdown_when_finished: bool,
    )
        requires
            old(self).wf(),
            !old(self).has_bus_spec(id),
            bus@.len() == old(self).spec.channels as nat,
            fade matches Option::Some(t) ==> span_samples(
                t.nanos as int,
                old(self).spec.sample_rate as int,
            ) <= usize::MAX,
        ensures
            final(self).wf(),
            final(self).spec == old(self).spec,
            final(self).buses@.len() == old(self).buses@.len() + 1,
            forall|b: int|
                0 <= b < old(self).buses@.len() ==> final(self).buses@[b] == old(self).buses@[b],
            final(self).buses@.last().id == id,
            final(self).buses@.last().shutdown_when_finished == shutdown_when_finished,
            final(self).buses@.last().fade_pos == 0,
            fade is Some ==> final(self).buses@.last().fade_total as int == span_samples(
                fade->0.nanos as int,
                old(self).spec.sample_rate as int,
            ),
            fade is None ==> final(self).buses@.last().fade_total == 0,
    {
        let fade_total = match fade {
            Option::Some(t) => span_to_samples(t, self.spec.sample_rate),
            Option::None => 0,
        };
        let channels = bus.len();
        let mut scratch: Vec<VecDeque<i32>> = Vec::new();
        let mut gone: Vec<bool> = Vec::new();
        let mut c: usize = 0;
        while c < channels
            invariant
                c <= channels,
                scratch@.len() == c as int,
                gone@.len() == c as int,
                forall|k: int| 0 <= k < c as int ==> (#[trigger] scratch@[k])@.len() == 0,
                forall|k: int| 0 <= k < c as int ==> !(#[trigger] gone@[k]),
            decreases channels - c as int,
        {
            scratch.push(VecDeque::new());
            gone.push(false);
            c += 1;
        }
        let conn = BusConnection {
            id,
            bus,
            scratch,
            gone,
            fade_pos: 0,
            fade_total,
            shutdown_when_finished,
        };
        self.buses.push(conn);
    }

    /// Drop the bus connected under `id`, if any; its pending samples are
    /// discarded with it.
    pub fn disconnect_bus(&mut self, id: u64)
        requires
            old(self).wf(),
        ensures
            final(self).wf(),
            final(self).spec == old(self).spec,
            !old(self).has_bus_spec(id) ==> final(self).buses@ == old(self).buses@,
            old(self).has_bus_spec(id) ==> exists|idx: int|
                0 <= idx < old(self).buses@.len() && (#[trigger] old(self).buses@[idx]).id == id
                    && final(self).buses@ == old(self).buses@.remove(idx),
    {
        let n = self.buses.len();
        let mut b: usize = 0;
        while b < n
            invariant
                old(self).wf(),
                b <= n,
                n == self.buses@.len(),
                self.buses@ == old(self).buses@,
                self.spec == old(self).spec,
                forall|k: int| 0 <= k < b as int ==> (#[trigger] self.buses@[k]).id != id,
            decreases n - b as int,
        {
            if self.buses[b].id == id {
                self.buses.remove(b);
                proof {
                    assert(self.buses@ =~= old(self).buses@.remove(b as int));
                    assert forall|i: int, j: int|
                        0 <= i < j < self.buses@.len() implies self.buses@[i].id
                        != self.buses@[j].id by {
                        if j < b as int {
                            assert(self.buses@[i] == old(self).buses@[i]);
                            assert(self.buses@[j] == old(self).buses@[j]);
                        } else if i < b as int {
                            assert(self.buses@[i] == old(self).buses@[i]);
                            assert(self.buses@[j] == old(self).buses@[j + 1]);
                        } else {
                            assert(self.buses@[i] == old(self).buses@[i + 1]);
                            assert(self.buses@[j] == old(self).buses@[j + 1]);
                        }
                    }
                    assert forall|k: int| 0 <= k < self.buses@.len() implies (
                    #[trigger] self.buses@[k]).wf(self.spec.channels as nat) by {
                        if k < b as int {
                            assert(self.buses@[k] == old(self).buses@[k]);
                        } else {
                            assert(self.buses@[k] == old(self).buses@[k + 1]);
                        }
                    }
                }
                return ;
            }
            b += 1;
        }
    }

    /// Mix one output frame: every channel's slot is exactly the sum of
    /// the connected buses' faded contributions, clipped to full scale.
    /// Each contributing sample is consumed and every fade advances one
    /// frame — toward the full level, or back toward silence for a bus
    /// whose end of stream was observed.
    pub fn mix_frame(&mut self) -> (out: Vec<i32>)
        requires
            old(self).wf(),
        ensures
            final(self).wf(),
            final(self).spec == old(self).spec,
            out@.len() == old(self).spec.channels as nat,
            forall|c: int|
                0 <= c < out@.len() ==> out@[c] as int == clipped(
                    mix_sum(old(self).buses@, old(self).buses@.len() as int, c),
                ),
            final(self).buses@.len() == old(self).buses@.len(),
            forall|b: int|
                0 <= b < final(self).buses@.len() ==> {
                    let pre = old(self).buses@[b];
                    let post = #[trigger] final(self).buses@[b];
                    &&& post.id == pre.id
                    &&& post.bus == pre.bus
                    &&& post.gone == pre.gone
                    &&& post.fade_total == pre.fade_total
                    &&& post.shutdown_when_finished == pre.shutdown_when_finished
                    &&& post.scratch@.len() == pre.scratch@.len()
                    &&& (forall|c: int|
                        0 <= c < post.scratch@.len() ==> (#[trigger] post.scratch@[c])@ == popped(
                            pre.scratch@[c]@,
                        ))
                    &&& post.fade_pos == advanced_fade_pos(pre)
                },
    {
        let channels = self.spec.channels as usize;
        let n = self.buses.len();
        let mut acc: Vec<i128> = Vec::new();
        let mut c: usize = 0;
        while c < channels
            invariant
                c <= channels,
                acc@.len() == c as int,
                forall|k: int| 0 <= k < c as int ==> acc@[k] == 0,
            decreases channels - c as int,
        {
            acc.push(0);
            c += 1;
        }
        proof {
            assert forall|k: int| 0 <= k < channels implies acc@[k] == mix_sum(
                old(self).buses@,
                0,
                k,
            ) by {}
        }
        let mut b: usize = 0;
        while b < n
            invariant
                old(self).wf(),
                channels == old(self).spec.channels as int,
                self.spec == old(self).spec,
                b <= n,
                n == self.buses@.len(),
                n == old(self).buses@.len(),
                acc@.len() == channels as int,
                forall|k: int|
                    b as int <= k < n as int ==> self.buses@[k] == old(self).buses@[k],
                forall|k: int|
                    0 <= k < b as int ==> {
                        let pre = old(self).buses@[k];
                        let post = #[trigger] self.buses@[k];
                        &&& post.id == pre.id
                        &&& post.bus == pre.bus
                        &&& post.gone == pre.gone
                        &&& post.fade_total == pre.fade_total
                        &&& post.shutdown_when_finished == pre.shutdown_when_finished
                        &&& post.scratch@.len() == pre.scratch@.len()
                        &&& (forall|cc: int|
                            0 <= cc < post.scratch@.len() ==> (#[trigger] post.scratch@[cc])@
                                == popped(pre.scratch@[cc]@))
                        &&& post.fade_pos == advanced_fade_pos(pre)
                    },
                forall|k: int|
                    0 <= k < channels as int ==> #[trigger] acc@[k] == mix_sum(
                        old(self).buses@,
                        b as int,
                        k,
                    ),
            decreases n - b as int,
        {
            let mut bus = self.buses.remove(b);
            let ghost pre_bus = bus;
            let mut c: usize = 0;
            while c < channels
                invariant
                    old(self).wf(),
                    b < n,
                    n == old(self).buses@.len(),
                    channels == old(self).spec.channels as int,
                    c <= channels,
                    channels == pre_bus.scratch@.len(),
                    pre_bus.fade_pos <= pre_bus.fade_total,
                    acc@.len() == channels as int,
                    bus.scratch@.len() == pre_bus.scratch@.len(),
                    forall|k: int|
                        0 <= k < c as int ==> (#[trigger] bus.scratch@[k])@ == popped(
                            pre_bus.scratch@[k]@,
                        ),
                    forall|k: int|
                        c as int <= k < channels as int ==> bus.scratch@[k]
                            == pre_bus.scratch@[k],
                    bus.id == pre_bus.id,
                    bus.bus == pre_bus.bus,
                    bus.gone == pre_bus.gone,
                    bus.fade_pos == pre_bus.fade_pos,
                    bus.fade_total == pre_bus.fade_total,
                    bus.shutdown_when_finished == pre_bus.shutdown_when_finished,
                    forall|k: int|
                        0 <= k < c as int ==> #[trigger] acc@[k] == mix_sum(
                            old(self).buses@,
                            b as int,
                            k,
                        ) + pre_bus.contribution(k),
                    forall|k: int|
                        c as int <= k < channels as int ==> #[trigger] acc@[k] == mix_sum(
                            old(self).buses@,
                            b as int,
                            k,
                        ),
                decreases channels - c as int,
            {
                let s = bus.take_contribution(c);
                proof {
                    assert forall|k: int| 0 <= k < b as int implies (#[trigger] old(
                        self,
                    ).buses@[k]).fade_pos <= old(self).buses@[k].fade_total by {
                        assert(old(self).buses@[k].wf(old(self).spec.channels as nat));
                    }
                    lemma_mix_sum_bounds(old(self).buses@, b as int, c as int);
                    assert((b as int + 1) * (SAMPLE_UNIT * 128) == (b as int) * (SAMPLE_UNIT * 128)
                        + (SAMPLE_UNIT * 128)) by (nonlinear_arith);
                    assert((b as int + 1) * (SAMPLE_UNIT * 128) <= (u64::MAX as int + 1) * (
                    SAMPLE_UNIT * 128)) by (nonlinear_arith)
                        requires
                            b as int + 1 <= u64::MAX as int + 1,
                    ;
                }
                let v = acc[c] + (s as i128);
                acc[c] = v;
                c += 1;
            }
            let at_end = bus.eos_check();
            proof {
                assert(bus.eos() == old(self).buses@[b as int].eos());
            }
            bus.advance_fade(at_end);
            self.buses.insert(b, bus);
            proof {
                assert forall|k: int| 0 <= k < channels as int implies #[trigger] acc@[k]
                    == mix_sum(old(self).buses@, b as int + 1, k) by {
                    assert(mix_sum(old(self).buses@, b as int + 1, k) == mix_sum(
                        old(self).buses@,
                        b as int,
                        k,
                    ) + old(self).buses@[b as int].contribution(k));
                }
            }
            b += 1;
        }
        let mut out: Vec<i32> = Vec::new();
        let mut c: usize = 0;
        while c < channels
            invariant
                c <= channels,
                acc@.len() == channels as int,
                out@.len() == c as int,
                forall|k: int|
                    0 <= k < channels as int ==> #[trigger] acc@[k] == mix_sum(
                        old(self).buses@,
                        n as int,
                        k,
                    ),
                n == old(self).buses@.len(),
                forall|k: int|
                    0 <= k < c as int ==> #[trigger] out@[k] as int == clipped(
                        mix_sum(old(self).buses@, n as int, k),
                    ),
            decreases channels - c as int,
        {
            let v = acc[c];
            let clipped_v: i32 = if v > SAMPLE_UNIT as i128 {
                SAMPLE_UNIT
            } else if v < -(SAMPLE_UNIT as i128) {
                -SAMPLE_UNIT
            } else {
                v as i32
            };
            out.push(clipped_v);
            c += 1;
        }
        out
    }

    /// Append a received chunk's samples, in order, to the back of one
    /// scratch queue.
    fn append_chunk(q: &mut VecDeque<i32>, chunk: &Vec<i32>)
        ensures
            final(q)@ == old(q)@ + chunk@,
    {
        let mut j: usize = 0;
        while j < chunk.len()
            invariant
                j <= chunk@.len(),
                q@ == old(q)@ + chunk@.subrange(0, j as int),
            decreases chunk@.len() - j as int,
        {
            let sample: i32 = chunk[j];
            q.push_back(sample);
            proof {
                assert(old(q)@ + chunk@.subrange(0, j as int + 1) =~= (old(q)@ + chunk@.subrange(
                    0,
                    j as int,
                )).push(chunk@[j as int]));
            }
            j += 1;
        }
        proof {
            assert(old(q)@ + chunk@.subrange(0, chunk@.len() as int) =~= old(q)@ + chunk@);
        }
    }

    /// Top up every bus's scratch queues without blocking: each live
    /// channel takes its next chunk when one is waiting, and a channel
    /// whose sender vanished is marked gone — also while samples are
    /// still draining, so end of stream starts the fade-out promptly.
    /// Queued samples are never dropped or reordered.
    pub fn refill(&mut self)
        requires
            old(self).wf(),
        ensures
            final(self).wf(),
            final(self).spec == old(self).spec,
            final(self).buses@.len() == old(self).buses@.len(),
            forall|b: int|
                0 <= b < final(self).buses@.len() ==> {
                    let pre = old(self).buses@[b];
                    let post = #[trigger] final(self).buses@[b];
                    &&& post.id == pre.id
                    &&& post.bus == pre.bus
                    &&& post.fade_pos == pre.fade_pos
                    &&& post.fade_total == pre.fade_total
                    &&& post.shutdown_when_finished == pre.shutdown_when_finished
                    &&& post.scratch@.len() == pre.scratch@.len()
                    &&& post.gone@.len() == pre.gone@.len()
                    &&& (forall|c: int|
                        0 <= c < pre.scratch@.len() ==> (#[trigger] pre.scratch@[c])@.is_prefix_of(
                            post.scratch@[c]@,
                        ))
                    &&& (forall|c: int|
                        0 <= c < pre.gone@.len() && (#[trigger] pre.gone@[c]) ==> post.gone@[c])
                },
    {
        let channels = self.spec.channels as usize;
        let n = self.buses.len();
        let mut b: usize = 0;
        while b < n
            invariant
                old(self).wf(),
                channels == old(self).spec.channels as int,
                self.spec == old(self).spec,
                b <= n,
                n == self.buses@.len(),
                n == old(self).buses@.len(),
                forall|k: int|
                    b as int <= k < n as int ==> self.buses@[k] == old(self).buses@[k],
                forall|k: int|
                    0 <= k < b as int ==> {
                        let pre = old(self).buses@[k];
                        let post = #[trigger] self.buses@[k];
                        &&& post.wf(old(self).spec.channels as nat)
                        &&& post.id == pre.id
                        &&& post.bus == pre.bus
                        &&& post.fade_pos == pre.fade_pos
                        &&& post.fade_total == pre.fade_total
                        &&& post.shutdown_when_finished == pre.shutdown_when_finished
                        &&& (forall|c: int|
                            0 <= c < pre.scratch@.len() ==> (
                            #[trigger] pre.scratch@[c])@.is_prefix_of(post.scratch@[c]@))
                        &&& (forall|c: int|
                            0 <= c < pre.gone@.len() && (#[trigger] pre.gone@[c])
                                ==> post.gone@[c])
                    },
            decreases n - b as int,
        {
            let mut bus = self.buses.remove(b);
            let ghost pre_bus = bus;
            let mut c: usize = 0;
            while c < channels
                invariant
                    c <= channels,
                    channels == pre_bus.scratch@.len(),
                    channels == pre_bus.bus@.len(),
                    channels == pre_bus.gone@.len(),
                    pre_bus.fade_pos <= pre_bus.fade_total,
                    bus.scratch@.len() == pre_bus.scratch@.len(),
                    bus.gone@.len() == pre_bus.gone@.len(),
                    bus.id == pre_bus.id,
                    bus.bus == pre_bus.bus,
                    bus.fade_pos == pre_bus.fade_pos,
                    bus.fade_total == pre_bus.fade_total,
                    bus.shutdown_when_finished == pre_bus.shutdown_when_finished,
                    forall|k: int|
                        0 <= k < channels as int ==> (#[trigger] pre_bus.scratch@[k])@.is_prefix_of(
                            bus.scratch@[k]@,
                        ),
                    forall|k: int|
                        0 <= k < channels as int && (#[trigger] pre_bus.gone@[k])
                            ==> bus.gone@[k],
                decreases channels - c as int,
            {
                if !bus.gone[c] {
                    match poll(&bus.bus[c]) {
                        PollOutcome::Msg(chunk) => {
                            let mut q = bus.scratch.remove(c);
                            let ghost pre_q = q@;
                            Self::append_chunk(&mut q, &chunk);
                            bus.scratch.insert(c, q);
                            proof {
                                assert(bus.scratch@.len() == pre_bus.scratch@.len());
                                assert(pre_q.is_prefix_of(pre_q + chunk@)) by {
                                    assert(pre_q =~= (pre_q + chunk@).subrange(
                                        0,
                                        pre_q.len() as int,
                                    ));
                                }
                            }
                        },
                        PollOutcome::Empty => {},
                        PollOutcome::Disconnected => {
                            let mut gone = bus.gone;
                            gone[c] = true;
                            bus.gone = gone;
                        },
                    }
                }
                c += 1;
            }
            self.buses.insert(b, bus);
            b += 1;
        }
    }

    /// Whether any bus is finished: gone on every channel with nothing
    /// left to mix.
    pub open spec fn finished_shutdown_requested(s: Seq<BusConnection>) -> bool
        decreases s.len(),
    {
        if s.len() == 0 {
            false
        } else {
            (s.first().finished() && s.first().shutdown_when_finished)
                || Self::finished_shutdown_requested(s.drop_first())
        }
    }

    /// The buses that remain after the finished ones are swept away, in
    /// their original order.
    pub open spec fn live_buses(s: Seq<BusConnection>) -> Seq<BusConnection>
        decreases s.len(),
    {
        if s.len() == 0 {
            Seq::empty()
        } else if s.first().finished() {
            Self::live_buses(s.drop_first())
        } else {
            seq![s.first()] + Self::live_buses(s.drop_first())
        }
    }

    /// Close every finished bus: a bus whose channels are all gone and
    /// whose scratch is drained is removed. Returns whether one of the
    /// removed buses asked the mixer to shut down with it.
    pub fn sweep_finished(&mut self) -> (shutdown_requested: bool)
        requires
            old(self).wf(),
        ensures
            final(self).wf(),
            final(self).spec == old(self).spec,
            final(self).buses@ == Self::live_buses(old(self).buses@),
            shutdown_requested == Self::finished_shutdown_requested(old(self).buses@),
    {
        let n = self.buses.len();
        let mut kept: Vec<BusConnection> = Vec::new();
        let mut shutdown_requested = false;
        proof {
            assert(old(self).buses@.subrange(0, n as int) =~= old(self).buses@);
        }
        let mut b: usize = 0;
        while b < n
            invariant
                old(self).wf(),
                self.spec == old(self).spec,
                b <= n,
                n == old(self).buses@.len(),
                self.buses@ == old(self).buses@.subrange(b as int, n as int),
                Self::live_buses(old(self).buses@) =~= kept@ + Self::live_buses(
                    old(self).buses@.subrange(b as int, n as int),
                ),
                Self::finished_shutdown_requested(old(self).buses@) == (shutdown_requested
                    || Self::finished_shutdown_requested(
                    old(self).buses@.subrange(b as int, n as int),
                )),
                forall|k: int|
                    0 <= k < kept@.len() ==> (#[trigger] kept@[k]).wf(
                        old(self).spec.channels as nat,
                    ),
                forall|i: int, j: int|
                    0 <= i < j < kept@.len() ==> kept@[i].id != kept@[j].id,
                forall|i: int, r: int|
                    0 <= i < kept@.len() && b as int <= r < n as int ==> kept@[i].id != old(
                        self,
                    ).buses@[r].id,
            decreases n - b as int,
        {
            let ghost rest = old(self).buses@.subrange(b as int, n as int);
            proof {
                assert(rest.first() == old(self).buses@[b as int]);
                assert(rest.drop_first() =~= old(self).buses@.subrange(b as int + 1, n as int));
            }
            let bus = self.buses.remove(0);
            proof {
                assert(self.buses@ =~= old(self).buses@.subrange(b as int + 1, n as int));
            }
            if self.bus_finished(&bus) {
                if bus.shutdown_when_finished {
                    shutdown_requested = true;
                }
            } else {
                kept.push(bus);
            }
            b += 1;
        }
        self.buses = kept;
        proof {
            assert(Self::live_buses(old(self).buses@.subrange(n as int, n as int))
                =~= Seq::<BusConnection>::empty());
            assert(self.buses@ =~= Self::live_buses(old(self).buses@));
        }
        shutdown_requested
    }

    fn bus_finished(&self, bus: &BusConnection) -> (r: bool)
        requires
            bus.gone@.len() == bus.scratch@.len(),
        ensures
            r == bus.finished(),
    {
        let n = bus.gone.len();
        let mut c: usize = 0;
        while c < n
            invariant
                c <= n,
                n == bus.gone@.len(),
                n == bus.scratch@.len(),
                forall|k: int| 0 <= k < c as int ==> bus.gone@[k],
                forall|k: int|
                    0 <= k < c as int ==> (#[trigger] bus.scratch@[k])@.len() == 0,
            decreases n - c as int,
        {
            if !bus.gone[c] {
                return false;
            }
            if bus.scratch[c].len() != 0 {
                return false;
            }
            c += 1;
        }
        true
    }

    /// Apply one control message. An accepted connect adds exactly the
    /// requested bus at fade position zero; a connect whose id is taken,
    /// whose bus does not match the channel count, or whose fade does not
    /// fit this machine is ignored; a disconnect removes the bus under
    /// that id and nothing else; a shutdown request finishes the mixer.
    pub fn handle_control_message(&mut self, msg: AudioOutputProcessorControlMessage) -> (r:
        ProcessorState)
        requires
            old(self).wf(),
        ensures
            final(self).wf(),
            final(self).spec == old(self).spec,
            r == (if msg is Shutdown {
                ProcessorState::Finished
            } else {
                ProcessorState::Running
            }),
            msg is Shutdown ==> final(self).buses@ == old(self).buses@,
            msg matches AudioOutputProcessorControlMessage::ConnectBus {
                id,
                bus,
                fade,
                shutdown_when_finished,
            } ==> {
                &&& (connect_accepted(*old(self), id, bus@, fade) ==> connected_entry_ok(
                    *old(self),
                    final(self).buses@,
                    id,
                    fade,
                    shutdown_when_finished,
                ))
                &&& (!connect_accepted(*old(self), id, bus@, fade) ==> final(self).buses@ == old(
                    self,
                ).buses@)
            },
            msg matches AudioOutputProcessorControlMessage::DisconnectBus { id } ==> {
                &&& (!old(self).has_bus_spec(id) ==> final(self).buses@ == old(self).buses@)
                &&& (old(self).has_bus_spec(id) ==> exists|idx: int|
                    0 <= idx < old(self).buses@.len() && (#[trigger] old(self).buses@[idx]).id
                        == id && final(self).buses@ == old(self).buses@.remove(idx))
            },
    {
        match msg {
            AudioOutputProcessorControlMessage::ConnectBus {
                id,
                bus,
                fade,
                shutdown_when_finished,
            } => {
                if !self.has_bus(id) && bus.len() == self.spec.channels as usize {
                    let fade_ok = match fade {
                        Option::Some(t) => {
                            let s = crate::audio::span_to_samples_checked(t, self.spec.sample_rate);
                            matches!(s, Option::Some(_))
                        },
                        Option::None => true,
                    };
                    if fade_ok {
                        self.connect_bus(id, bus, fade, shutdown_when_finished);
                    }
                }
                ProcessorState::Running
            },
            AudioOutputProcessorControlMessage::DisconnectBus { id } => {
                self.disconnect_bus(id);
                ProcessorState::Running
            },
            AudioOutputProcessorControlMessage::Shutdown => ProcessorState::Finished,
        }
    }
}

} // verus!
