//! Planar multi-channel audio buffers and time arithmetic.

use vstd::prelude::*;

verus! {

/// Number of channels and sample rate shared by every stage of a pipeline.
#[derive(Clone, Copy, Debug, PartialEq, Eq, Structural)]
pub struct AudioSpec {
    /// Number of audio channels (e.g. 2 for stereo)
    pub channels: u16,
    /// Number of samples per second
    pub sample_rate: u32,
}

impl AudioSpec {
    /// A usable spec has at least one channel and a positive sample rate.
    pub open spec fn valid(self) -> bool {
        self.channels >= 1 && self.sample_rate >= 1
    }
}

/// A span of time with nanosecond resolution, as plain data.
#[derive(Clone, Copy, Debug, PartialEq, Eq, Structural)]
pub struct TimeSpan {
    pub nanos: u64,
}

/// Fixed-point value standing for a full-scale sample of 1.0; mixed output
/// is clipped to plus or minus this value.
pub const SAMPLE_UNIT: i32 = 16_777_216;

pub const NANOS_PER_MILLI: u64 = 1_000_000;

pub const NANOS_PER_SEC: u64 = 1_000_000_000;

impl TimeSpan {
    pub fn from_nanos(nanos: u64) -> (t: TimeSpan)
        ensures
            t.nanos == nanos,
    {
        TimeSpan { nanos }
    }

    pub fn from_millis(millis: u64) -> (t: TimeSpan)
        requires
            millis * NANOS_PER_MILLI <= u64::MAX,
        ensures
            t.nanos == millis * NANOS_PER_MILLI,
    {
        TimeSpan { nanos: millis * NANOS_PER_MILLI }
    }

    pub fn from_secs(secs: u64) -> (t: TimeSpan)
        requires
            secs * NANOS_PER_SEC <= u64::MAX,
        ensures
            t.nanos == secs * NANOS_PER_SEC,
    {
        TimeSpan { nanos: secs * NANOS_PER_SEC }
    }
}

/// How many whole samples fit into a span of `nanos` at `rate` samples
/// per second.
pub open spec fn span_samples(nanos: int, rate: int) -> int {
    nanos * rate / (NANOS_PER_SEC as int)
}

pub proof fn lemma_span_samples_nonneg(nanos: int, rate: int)
    requires
        nanos >= 0,
        rate >= 0,
    ensures
        span_samples(nanos, rate) >= 0,
{
    assert(nanos * rate >= 0) by (nonlinear_arith)
        requires
            nanos >= 0,
            rate >= 0,
    ;
    vstd::arithmetic::div_mod::lemma_div_pos_is_pos(nanos * rate, NANOS_PER_SEC as int);
}

/// Convert a time span to a sample count at the given rate, rounding down.
pub fn span_to_samples(span: TimeSpan, rate: u32) -> (n: usize)
    requires
        span_samples(span.nanos as int, rate as int) <= usize::MAX,
    ensures
        n == span_samples(span.nanos as int, rate as int),
{
    proof {
        assert((span.nanos as int) * (rate as int) <= (u64::MAX as int) * (u32::MAX as int))
            by (nonlinear_arith)
            requires
                span.nanos <= u64::MAX,
                rate <= u32::MAX,
        ;
        assert((span.nanos as int) * (rate as int) >= 0) by (nonlinear_arith);
    }
    (((span.nanos as u128) * (rate as u128)) / (NANOS_PER_SEC as u128)) as usize
}

/// Like `span_to_samples`, but reports a count too large for this machine
/// instead of requiring the caller to rule it out.
pub fn span_to_samples_checked(span: TimeSpan, rate: u32) -> (r: Option<usize>)
    ensures
        r is Some <==> span_samples(span.nanos as int, rate as int) <= usize::MAX,
        r matches Option::Some(n) ==> n == span_samples(span.nanos as int, rate as int),
{
    proof {
        assert((span.nanos as int) * (rate as int) <= (u64::MAX as int) * (u32::MAX as int))
            by (nonlinear_arith)
            requires
                span.nanos <= u64::MAX,
                rate <= u32::MAX,
        ;
        assert((span.nanos as int) * (rate as int) >= 0) by (nonlinear_arith);
    }
    let v = ((span.nanos as u128) * (rate as u128)) / (NANOS_PER_SEC as u128);
    if v <= usize::MAX as u128 {
        Option::Some(v as usize)
    } else {
        Option::None
    }
}

/// A planar audio buffer: one `Vec` of samples per channel.
pub struct Audio<T> {
    pub data: Vec<Vec<T>>,
    pub spec: AudioSpec,
}

impl<T: Copy> Audio<T> {
    /// Length shared by every channel of a well-formed buffer.
    pub open spec fn channel_len(self) -> nat {
        if self.data@.len() == 0 {
            0
        } else {
            self.data@[0]@.len()
        }
    }

    /// Every channel holds the same number of samples.
    pub open spec fn wf(self) -> bool {
        forall|i: int|
            0 <= i < self.data@.len() ==> (#[trigger] self.data@[i])@.len() == self.channel_len()
    }

    /// First sample index selected by an optional start offset.
    pub open spec fn start_pos_spec(self, start_offset: Option<TimeSpan>) -> int {
        match start_offset {
            Option::Some(off) => span_samples(off.nanos as int, self.spec.sample_rate as int),
            Option::None => 0,
        }
    }

    /// One past the last sample index selected by an optional duration.
    pub open spec fn end_pos_spec(self, start_pos: int, duration: Option<TimeSpan>) -> int {
        match duration {
            Option::Some(d) => start_pos + span_samples(
                d.nanos as int,
                self.spec.sample_rate as int,
            ),
            Option::None => self.channel_len() as int,
        }
    }

    /// Both clip arguments resolve to positions inside every channel.
    pub open spec fn clip_args_in_range(
        self,
        start_offset: Option<TimeSpan>,
        duration: Option<TimeSpan>,
    ) -> bool {
        let s = self.start_pos_spec(start_offset);
        let e = self.end_pos_spec(s, duration);
        0 <= s <= e <= self.channel_len()
    }

    fn resolve_start_sample_pos(&self, start_offset: Option<TimeSpan>) -> (p: usize)
        requires
            0 <= self.start_pos_spec(start_offset) <= usize::MAX,
        ensures
            p == self.start_pos_spec(start_offset),
    {
        match start_offset {
            Option::Some(offset) => span_to_samples(offset, self.spec.sample_rate),
            Option::None => 0,
        }
    }

    fn resolve_end_sample_pos(&self, start_sample_pos: usize, duration: Option<TimeSpan>) -> (p:
        usize)
        requires
            self.data@.len() >= 1,
            0 <= self.end_pos_spec(start_sample_pos as int, duration) <= usize::MAX,
            duration is Some ==> span_samples(
                duration->0.nanos as int,
                self.spec.sample_rate as int,
            ) <= usize::MAX,
        ensures
            p == self.end_pos_spec(start_sample_pos as int, duration),
    {
        match duration {
            Option::Some(dur) => {
                let dur_in_samples = span_to_samples(dur, self.spec.sample_rate);
                start_sample_pos + dur_in_samples
            },
            Option::None => self.data[0].len(),
        }
    }

    /// Restrict every channel to the samples selected by `start_offset` and
    /// `duration`: the range starts at `start_offset` (or the beginning) and
    /// runs for `duration` (or to the end of the buffer).
    pub fn clip_in_place(&mut self, start_offset: Option<TimeSpan>, duration: Option<TimeSpan>)
        requires
            old(self).wf(),
            old(self).data@.len() >= 1,
            old(self).clip_args_in_range(start_offset, duration),
        ensures
            final(self).spec == old(self).spec,
            final(self).data@.len() == old(self).data@.len(),
            forall|i: int|
                0 <= i < old(self).data@.len() ==> (#[trigger] final(self).data@[i])@ == old(
                    self,
                ).data@[i]@.subrange(
                    old(self).start_pos_spec(start_offset),
                    old(self).end_pos_spec(old(self).start_pos_spec(start_offset), duration),
                ),
            final(self).wf(),
    {
        let first_channel_len: usize = self.data[0].len();
        assert(self.channel_len() == first_channel_len);
        let start_sample_pos = self.resolve_start_sample_pos(start_offset);
        let end_sample_pos = self.resolve_end_sample_pos(start_sample_pos, duration);
        self.clip_samples(start_sample_pos, end_sample_pos);
    }

    /// Restrict every channel to the sample range `start..end`.
    pub fn clip_samples(&mut self, start: usize, end: usize)
        requires
            old(self).wf(),
            start <= end <= old(self).channel_len(),
        ensures
            final(self).spec == old(self).spec,
            final(self).data@.len() == old(self).data@.len(),
            forall|i: int|
                0 <= i < old(self).data@.len() ==> (#[trigger] final(self).data@[i])@ == old(
                    self,
                ).data@[i]@.subrange(start as int, end as int),
            final(self).wf(),
    {
        let mut new_data: Vec<Vec<T>> = Vec::new();
        let mut i: usize = 0;
        while i < self.data.len()
            invariant
                self == old(self),
                self.wf(),
                start <= end <= self.channel_len(),
                i <= self.data@.len(),
                new_data@.len() == i as int,
                forall|k: int|
                    0 <= k < i as int ==> (#[trigger] new_data@[k])@ == self.data@[k]@.subrange(
                        start as int,
                        end as int,
                    ),
            decreases self.data@.len() - i as int,
        {
            let channel: &Vec<T> = &self.data[i];
            let mut out: Vec<T> = Vec::new();
            let mut j: usize = start;
            while j < end
                invariant
                    self == old(self),
                    self.wf(),
                    i < self.data@.len(),
                    channel == self.data@[i as int],
                    start <= end <= self.channel_len(),
                    start <= j <= end,
                    out@ == channel@.subrange(start as int, j as int),
                decreases end - j as int,
            {
                let sample: T = channel[j];
                out.push(sample);
                proof {
                    assert(channel@.subrange(start as int, j as int + 1) =~= channel@.subrange(
                        start as int,
                        j as int,
                    ).push(channel@[j as int]));
                }
                j += 1;
            }
            new_data.push(out);
            i += 1;
        }
        self.data = new_data;
    }
}

} // verus!
