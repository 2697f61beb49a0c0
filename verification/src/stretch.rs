//! The time-stretcher's schedule: hop sizes, the hard output budget, the
//! emission plan that meets it exactly, and the per-sample output envelope
//! (amplitude scale first, then fade-in and fade-out).
//!
//! The spectral resynthesis itself runs on the host's floating-point
//! frames outside this crate; everything that decides how many samples
//! flow, and how they are shaped, is here.

use vstd::arithmetic::div_mod::{
    lemma_div_is_ordered, lemma_div_multiples_vanish, lemma_div_pos_is_pos,
    lemma_fundamental_div_mod, lemma_mod_bound,
};
use vstd::prelude::*;

use crate::audio::{span_samples, span_to_samples, AudioSpec, TimeSpan};

verus! {

/// Rejections at stretcher construction.
#[derive(Clone, Copy, Debug, PartialEq, Eq, Structural)]
pub enum StretchError {
    /// The stretch factor is below one, the window size is not a power of
    /// two, or a derived quantity does not fit this machine.
    ParameterOutOfRange,
}

/// `n` scaled by a factor given in thousandths, rounded to the nearest
/// whole number with halves rounding up.
pub open spec fn rounded_scale(n: int, factor_milli: int) -> int {
    (n * factor_milli + 500) / 1000
}

/// `rounded_scale` really is rounding: it differs from the exact product
/// by at most half a unit.
pub proof fn lemma_rounded_scale_is_round(n: int, factor_milli: int)
    requires
        n >= 0,
        factor_milli >= 0,
    ensures
        n * factor_milli - 500 <= 1000 * rounded_scale(n, factor_milli) <= n * factor_milli + 500,
{
    let x = n * factor_milli + 500;
    lemma_fundamental_div_mod(x, 1000);
    lemma_mod_bound(x, 1000);
}

/// Scaling by a factor of at least one never shrinks a count.
pub proof fn lemma_rounded_scale_lower(n: int, factor_milli: int)
    requires
        n >= 0,
        factor_milli >= 1000,
    ensures
        rounded_scale(n, factor_milli) >= n,
{
    assert(n * factor_milli >= n * 1000) by (nonlinear_arith)
        requires
            n >= 0,
            factor_milli >= 1000,
    ;
    lemma_div_is_ordered(n * 1000, n * factor_milli + 500, 1000);
    lemma_div_multiples_vanish(n, 1000);
    assert(n * 1000 == 1000 * n) by (nonlinear_arith);
}

/// A unit stretch factor changes nothing: the synthesis hop equals the
/// analysis hop and the output budget equals the input length, so the
/// schedule of an unstretched playback reproduces the input's timing
/// sample for sample.
pub proof fn lemma_unit_factor_keeps_counts(n: int)
    requires
        n >= 0,
    ensures
        rounded_scale(n, 1000) == n,
{
    vstd::arithmetic::div_mod::lemma_fundamental_div_mod_converse(n * 1000 + 500, 1000, n, 500);
}

pub open spec fn is_pow2(n: int) -> bool
    decreases n,
{
    if n <= 0 {
        false
    } else if n == 1 {
        true
    } else {
        n % 2 == 0 && is_pow2(n / 2)
    }
}

/// Whether `n` is a power of two.
pub fn check_pow2(n: usize) -> (r: bool)
    ensures
        r == is_pow2(n as int),
{
    if n == 0 {
        return false;
    }
    let mut x: usize = n;
    while x > 1
        invariant
            x >= 1,
            is_pow2(n as int) == is_pow2(x as int),
        decreases x,
    {
        if x % 2 == 1 {
            return false;
        }
        x = x / 2;
    }
    true
}

/// `n` scaled by `factor_milli`, or nothing if the result does not fit
/// this machine. With a factor of at least one, this is the stretcher's
/// hard output budget for `n` input samples.
pub fn output_budget(n: usize, factor_milli: u32) -> (r: Option<usize>)
    ensures
        r is Some <==> rounded_scale(n as int, factor_milli as int) <= usize::MAX,
        r matches Option::Some(b) ==> b == rounded_scale(n as int, factor_milli as int),
{
    proof {
        assert((n as int) * (factor_milli as int) <= (u64::MAX as int) * (u32::MAX as int))
            by (nonlinear_arith)
            requires
                n <= u64::MAX,
                factor_milli <= u32::MAX,
        ;
        assert((n as int) * (factor_milli as int) >= 0) by (nonlinear_arith);
        lemma_div_pos_is_pos((n as int) * (factor_milli as int) + 500, 1000);
    }
    let v = ((n as u128) * (factor_milli as u128) + 500) / 1000;
    if v <= usize::MAX as u128 {
        Option::Some(v as usize)
    } else {
        Option::None
    }
}

/// Combined length of a list of chunks.
pub open spec fn total_len(s: Seq<usize>) -> int
    decreases s.len(),
{
    if s.len() == 0 {
        0
    } else {
        total_len(s.drop_last()) + s.last()
    }
}

/// The lengths of the chunks a stretcher emits against a hard budget:
/// full synthesis hops until the remainder is shorter, and never a sample
/// beyond the budget — together they cover it exactly.
pub fn emission_lengths(budget: usize, synthesis_hop: usize) -> (r: Vec<usize>)
    requires
        synthesis_hop >= 1,
    ensures
        total_len(r@) == budget,
        forall|k: int| 0 <= k < r@.len() ==> 1 <= #[trigger] r@[k] <= synthesis_hop,
        forall|k: int| 0 <= k < r@.len() - 1 ==> #[trigger] r@[k] == synthesis_hop,
{
    let mut r: Vec<usize> = Vec::new();
    let mut emitted: usize = 0;
    while emitted < budget
        invariant
            synthesis_hop >= 1,
            emitted <= budget,
            total_len(r@) == emitted,
            forall|k: int| 0 <= k < r@.len() ==> 1 <= #[trigger] r@[k] <= synthesis_hop,
            forall|k: int| 0 <= k < r@.len() ==> #[trigger] r@[k] == synthesis_hop,
            emitted == r@.len() * synthesis_hop,
        decreases budget - emitted,
    {
        let remaining = budget - emitted;
        if remaining < synthesis_hop {
            let ghost pre = r@;
            r.push(remaining);
            proof {
                assert(r@.drop_last() =~= pre);
            }
            return r;
        }
        let ghost pre = r@;
        r.push(synthesis_hop);
        proof {
            assert(r@.drop_last() =~= pre);
            assert(r@.len() * synthesis_hop == pre.len() * synthesis_hop + synthesis_hop)
                by (nonlinear_arith)
                requires
                    r@.len() == pre.len() + 1,
            ;
        }
        emitted = emitted + synthesis_hop;
    }
    r
}

/// A sample's magnitude scaled by `num / den`, keeping the sign, with the
/// magnitude saturated at the widest fixed-point value.
pub open spec fn mag_scaled(s: int, num: int, den: int) -> int {
    let m = if s < 0 {
        -s
    } else {
        s
    };
    let scaled = m * num / den;
    let sat = if scaled > 0x7FFF_FFFF {
        0x7FFF_FFFFint
    } else {
        scaled
    };
    if s < 0 {
        -sat
    } else {
        sat
    }
}

fn mag_scale(s: i32, num: u64, den: u64) -> (r: i32)
    requires
        1 <= den,
    ensures
        r == mag_scaled(s as int, num as int, den as int),
{
    let m: u64 = if s < 0 {
        (-(s as i64)) as u64
    } else {
        s as u64
    };
    proof {
        assert((m as int) * (num as int) <= 0x8000_0000 * (u64::MAX as int)) by (nonlinear_arith)
            requires
                m <= 0x8000_0000,
                num <= u64::MAX,
        ;
        assert((m as int) * (num as int) >= 0) by (nonlinear_arith);
        lemma_div_pos_is_pos((m as int) * (num as int), den as int);
    }
    let scaled_wide = ((m as u128) * (num as u128)) / (den as u128);
    let sat: u64 = if scaled_wide > 0x7FFF_FFFF {
        0x7FFF_FFFF
    } else {
        scaled_wide as u64
    };
    if s < 0 {
        -(sat as i32)
    } else {
        sat as i32
    }
}

/// The sample a stretcher emits at output position `pos`, out of `budget`
/// when one is set: the amplitude scale is applied first, then the linear
/// fade-in over the first `fade_len` samples, then — only against a hard
/// budget — the linear fade-out over the last `fade_len`.
pub open spec fn envelope_sample(
    s: int,
    pos: int,
    budget: Option<usize>,
    fade_len: int,
    amp_milli: int,
) -> int {
    let a = mag_scaled(s, amp_milli, 1000);
    let b = if fade_len > 0 && pos < fade_len {
        mag_scaled(a, pos, fade_len)
    } else {
        a
    };
    match budget {
        Option::Some(total) => {
            if fade_len > 0 && total - pos < fade_len {
                mag_scaled(b, total - pos, fade_len)
            } else {
                b
            }
        },
        Option::None => b,
    }
}

/// Parameters and output accounting of one per-channel stretcher: the
/// analysis window, both hops, the stretch and amplitude factors, the
/// fade length and the hard output budget.
pub struct Stretcher {
    pub spec: AudioSpec,
    pub window_size: usize,
    pub analysis_hop: usize,
    pub synthesis_hop: usize,
    pub stretch_factor_milli: u32,
    pub amplitude_scale_milli: u32,
    pub fade_len: usize,
    pub budget: Option<usize>,
    pub emitted: usize,
}

impl Stretcher {
    pub open spec fn wf(self) -> bool {
        &&& self.spec.valid()
        &&& is_pow2(self.window_size as int)
        &&& self.window_size >= 4
        &&& self.analysis_hop == self.window_size / 4
        &&& self.stretch_factor_milli >= 1000
        &&& self.amplitude_scale_milli <= u32::MAX
        &&& self.synthesis_hop as int == rounded_scale(
            self.analysis_hop as int,
            self.stretch_factor_milli as int,
        )
        &&& self.synthesis_hop >= 1
        &&& (self.budget matches Option::Some(b) ==> self.emitted <= b)
    }

    /// Build a stretcher, refusing a stretch factor below one and an
    /// analysis window that is not a power of two (or one whose derived
    /// quantities cannot be represented).
    pub fn new(
        spec: AudioSpec,
        stretch_factor_milli: u32,
        amplitude_scale_milli: u32,
        window_size: usize,
        fade: TimeSpan,
        budget: Option<usize>,
    ) -> (r: Result<Stretcher, StretchError>)
        requires
            spec.valid(),
            0 <= span_samples(fade.nanos as int, spec.sample_rate as int) <= usize::MAX,
        ensures
            r is Ok <==> {
                &&& stretch_factor_milli >= 1000
                &&& is_pow2(window_size as int)
                &&& window_size >= 4
                &&& rounded_scale((window_size / 4) as int, stretch_factor_milli as int)
                    <= usize::MAX
            },
            r matches Result::Ok(s) ==> {
                &&& s.wf()
                &&& s.spec == spec
                &&& s.window_size == window_size
                &&& s.stretch_factor_milli == stretch_factor_milli
                &&& s.amplitude_scale_milli == amplitude_scale_milli
                &&& s.fade_len as int == span_samples(fade.nanos as int, spec.sample_rate as int)
                &&& s.budget == budget
                &&& s.emitted == 0
            },
            r matches Result::Err(e) ==> e is ParameterOutOfRange,
    {
        if stretch_factor_milli < 1000 {
            return Result::Err(StretchError::ParameterOutOfRange);
        }
        if !check_pow2(window_size) || window_size < 4 {
            return Result::Err(StretchError::ParameterOutOfRange);
        }
        let analysis_hop = window_size / 4;
        proof {
            assert((analysis_hop as int) * (stretch_factor_milli as int) <= (u64::MAX as int) * (
            u32::MAX as int)) by (nonlinear_arith)
                requires
                    analysis_hop <= u64::MAX,
                    stretch_factor_milli <= u32::MAX,
            ;
            assert((analysis_hop as int) * (stretch_factor_milli as int) >= 0)
                by (nonlinear_arith);
            lemma_div_pos_is_pos(
                (analysis_hop as int) * (stretch_factor_milli as int) + 500,
                1000,
            );
        }
        let hs_wide = ((analysis_hop as u128) * (stretch_factor_milli as u128) + 500) / 1000;
        if hs_wide > usize::MAX as u128 {
            return Result::Err(StretchError::ParameterOutOfRange);
        }
        let synthesis_hop = hs_wide as usize;
        proof {
            lemma_rounded_scale_lower(analysis_hop as int, stretch_factor_milli as int);
            assert(analysis_hop >= 1);
        }
        let fade_len = span_to_samples(fade, spec.sample_rate);
        Result::Ok(
            Stretcher {
                spec,
                window_size,
                analysis_hop,
                synthesis_hop,
                stretch_factor_milli,
                amplitude_scale_milli,
                fade_len,
                budget,
                emitted: 0,
            },
        )
    }

    /// How many samples the next emitted chunk holds: a full synthesis
    /// hop, or exactly what is left of the budget if that is less.
    pub fn next_chunk_len(&self) -> (n: usize)
        requires
            self.wf(),
        ensures
            self.budget is None ==> n == self.synthesis_hop,
            self.budget matches Option::Some(b) ==> n as int == (if b - self.emitted < self.synthesis_hop as int {
                b - self.emitted
            } else {
                self.synthesis_hop as int
            }),
    {
        match self.budget {
            Option::Some(b) => {
                let remaining = b - self.emitted;
                if remaining < self.synthesis_hop {
                    remaining
                } else {
                    self.synthesis_hop
                }
            },
            Option::None => self.synthesis_hop,
        }
    }

    /// Record that `n` samples left the stretcher.
    pub fn note_emitted(&mut self, n: usize)
        requires
            old(self).wf(),
            old(self).budget matches Option::Some(b) ==> old(self).emitted + n <= b,
            old(self).budget is None ==> old(self).emitted + n <= usize::MAX,
        ensures
            final(self).emitted == old(self).emitted + n,
            final(self).wf(),
            final(self).spec == old(self).spec,
            final(self).window_size == old(self).window_size,
            final(self).analysis_hop == old(self).analysis_hop,
            final(self).synthesis_hop == old(self).synthesis_hop,
            final(self).stretch_factor_milli == old(self).stretch_factor_milli,
            final(self).amplitude_scale_milli == old(self).amplitude_scale_milli,
            final(self).fade_len == old(self).fade_len,
            final(self).budget == old(self).budget,
    {
        self.emitted += n;
    }

    /// Whether the stretcher has emitted its entire budget and must now
    /// close its output stream.
    pub fn is_done(&self) -> (r: bool)
        requires
            self.wf(),
        ensures
            r == (self.budget matches Option::Some(b) && self.emitted == b),
    {
        match self.budget {
            Option::Some(b) => self.emitted == b,
            Option::None => false,
        }
    }

    /// Shape one chunk for emission, starting at output position `start`:
    /// every sample gets the amplitude scale, the fade-in and — against a
    /// hard budget — the fade-out, exactly as `envelope_sample` states.
    pub fn shape_chunk(&self, chunk: &Vec<i32>, start: usize) -> (out: Vec<i32>)
        requires
            self.wf(),
            start + chunk@.len() <= usize::MAX,
            self.budget matches Option::Some(b) ==> start + chunk@.len() <= b,
        ensures
            out@.len() == chunk@.len(),
            forall|j: int|
                0 <= j < chunk@.len() ==> #[trigger] out@[j] as int == envelope_sample(
                    chunk@[j] as int,
                    start + j,
                    self.budget,
                    self.fade_len as int,
                    self.amplitude_scale_milli as int,
                ),
    {
        let mut out: Vec<i32> = Vec::new();
        let mut j: usize = 0;
        while j < chunk.len()
            invariant
                self.wf(),
                j <= chunk@.len(),
                start + chunk@.len() <= usize::MAX,
                self.budget matches Option::Some(b) ==> start + chunk@.len() <= b,
                out@.len() == j as int,
                forall|k: int|
                    0 <= k < j as int ==> #[trigger] out@[k] as int == envelope_sample(
                        chunk@[k] as int,
                        start + k,
                        self.budget,
                        self.fade_len as int,
                        self.amplitude_scale_milli as int,
                    ),
            decreases chunk@.len() - j as int,
        {
            let s: i32 = chunk[j];
            let pos = start + j;
            let a = mag_scale(s, self.amplitude_scale_milli as u64, 1000);
            let b = if self.fade_len > 0 && pos < self.fade_len {
                mag_scale(a, pos as u64, self.fade_len as u64)
            } else {
                a
            };
            let v = match self.budget {
                Option::Some(total) => {
                    let remaining = total - pos;
                    if self.fade_len > 0 && remaining < self.fade_len {
                        mag_scale(b, remaining as u64, self.fade_len as u64)
                    } else {
                        b
                    }
                },
                Option::None => b,
            };
            out.push(v);
            j += 1;
        }
        out
    }
}

} // verus!
