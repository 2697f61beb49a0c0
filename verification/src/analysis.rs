//! Recording analysis: de-interleaving device samples, detecting mono
//! input on a multi-channel device, per-bin signal levels, and automatic
//! cropping of a recording around its subject.

use vstd::prelude::*;

use crate::audio::{span_samples, span_to_samples, Audio, AudioSpec, TimeSpan};
use crate::controller::mag;

verus! {

pub open spec fn all_zero(s: Seq<i32>) -> bool {
    forall|i: int| 0 <= i < s.len() ==> s[i] == 0
}

/// Channel `m` is the only channel carrying any signal.
pub open spec fn is_solo(data: Seq<Vec<i32>>, m: int) -> bool {
    &&& 0 <= m < data.len()
    &&& !all_zero(data[m]@)
    &&& forall|c: int| 0 <= c < data.len() && c != m ==> all_zero((#[trigger] data[c])@)
}

fn channel_all_zero(s: &Vec<i32>) -> (r: bool)
    ensures
        r == all_zero(s@),
{
    let mut j: usize = 0;
    while j < s.len()
        invariant
            j <= s@.len(),
            forall|k: int| 0 <= k < j as int ==> s@[k] == 0,
        decreases s@.len() - j as int,
    {
        if s[j] != 0 {
            return false;
        }
        j += 1;
    }
    true
}

fn copy_samples(src: &Vec<i32>) -> (r: Vec<i32>)
    ensures
        r@ == src@,
{
    let mut out: Vec<i32> = Vec::new();
    let mut j: usize = 0;
    while j < src.len()
        invariant
            j <= src@.len(),
            out@ == src@.subrange(0, j as int),
        decreases src@.len() - j as int,
    {
        let sample: i32 = src[j];
        out.push(sample);
        proof {
            assert(src@.subrange(0, j as int + 1) =~= src@.subrange(0, j as int).push(
                src@[j as int],
            ));
        }
        j += 1;
    }
    proof {
        assert(src@.subrange(0, src@.len() as int) =~= src@);
    }
    out
}

/// The samples of channel `c` within an interleaved stream of the given
/// channel count: every sample at a position congruent to `c`.
pub open spec fn channel_slice(samples: Seq<i32>, c: int, channels: int) -> Seq<i32> {
    Seq::new(
        (if samples.len() <= c {
            0
        } else {
            (samples.len() - 1 - c) / channels + 1
        }) as nat,
        |k: int| samples[c + k * channels],
    )
}

/// Distribute one interleaved sample stream over the channels of a fresh
/// buffer: sample `k` of the stream lands in channel `k` modulo the
/// channel count.
pub fn collect_samples(spec: &AudioSpec, samples: Vec<i32>) -> (audio: Audio<i32>)
    requires
        spec.valid(),
        samples@.len() + spec.channels <= usize::MAX,
    ensures
        audio.spec == *spec,
        audio.data@.len() == spec.channels as nat,
        forall|c: int|
            0 <= c < spec.channels as int ==> (#[trigger] audio.data@[c])@ == channel_slice(
                samples@,
                c,
                spec.channels as int,
            ),
{
    let channels = spec.channels as usize;
    let len = samples.len();
    let mut data: Vec<Vec<i32>> = Vec::new();
    let mut c: usize = 0;
    while c < channels
        invariant
            channels >= 1,
            len == samples@.len(),
            len + channels <= usize::MAX,
            c <= channels,
            data@.len() == c as int,
            forall|cc: int|
                0 <= cc < c as int ==> (#[trigger] data@[cc])@ == channel_slice(
                    samples@,
                    cc,
                    channels as int,
                ),
        decreases channels - c as int,
    {
        let mut chan: Vec<i32> = Vec::new();
        proof {
            assert(chan@.len() * (channels as int) == 0) by (nonlinear_arith)
                requires
                    chan@.len() == 0,
            ;
        }
        let mut pos: usize = c;
        while pos < len
            invariant
                channels >= 1,
                c < channels,
                len == samples@.len(),
                len + channels <= usize::MAX,
                pos <= len + channels,
                pos as int == c + chan@.len() * (channels as int),
                chan@.len() >= 1 ==> c + (chan@.len() - 1) * (channels as int) < len as int,
                forall|k: int|
                    0 <= k < chan@.len() ==> #[trigger] chan@[k] == samples@[c + k * (
                    channels as int)],
            decreases (len + channels) - pos as int,
        {
            let ghost pre_len = chan@.len() as int;
            let sample: i32 = samples[pos];
            chan.push(sample);
            proof {
                assert(pre_len * (channels as int) + channels as int == (pre_len + 1) * (
                channels as int)) by (nonlinear_arith);
            }
            pos = pos + channels;
        }
        proof {
            let ch = channels as int;
            let cnt = chan@.len() as int;
            if cnt == 0 {
                assert(len as int <= c);
            } else {
                assert(c + (cnt - 1) * ch <= len - 1);
                assert(c + cnt * ch >= len as int);
                assert(cnt * ch == (cnt - 1) * ch + ch) by (nonlinear_arith);
                vstd::arithmetic::div_mod::lemma_fundamental_div_mod_converse(
                    len - 1 - c,
                    ch,
                    cnt - 1,
                    len - 1 - c - (cnt - 1) * ch,
                );
                assert((len - 1 - c) / ch == cnt - 1);
            }
            assert(chan@ =~= channel_slice(samples@, c as int, ch));
        }
        data.push(chan);
        c += 1;
    }
    Audio { data, spec: *spec }
}

/// If signal is present in exactly one channel, copy that channel to all
/// the others; this corrects mono input arriving on a multi-channel
/// device. Anything else leaves the buffer untouched.
pub fn auto_split_mono(audio: &mut Audio<i32>)
    requires
        old(audio).wf(),
    ensures
        final(audio).wf(),
        final(audio).spec == old(audio).spec,
        final(audio).data@.len() == old(audio).data@.len(),
        forall|m: int, c: int|
            #![trigger is_solo(old(audio).data@, m), final(audio).data@[c]]
            is_solo(old(audio).data@, m) && 0 <= c < final(audio).data@.len() ==> final(
                audio).data@[c]@ == old(audio).data@[m]@,
        (forall|m: int| !is_solo(old(audio).data@, m)) ==> final(audio).data@ == old(audio).data@,
{
    let n = audio.data.len();
    let mut n_nonzero: usize = 0;
    let mut last_nonempty: usize = 0;
    let mut i: usize = 0;
    while i < n
        invariant
            n == audio.data@.len(),
            audio == old(audio),
            i <= n,
            n_nonzero <= i,
            n_nonzero == 0 ==> forall|k: int|
                0 <= k < i as int ==> all_zero((#[trigger] audio.data@[k])@),
            n_nonzero >= 1 ==> (last_nonempty < i && !all_zero(
                audio.data@[last_nonempty as int]@,
            )),
            n_nonzero == 1 ==> forall|k: int|
                0 <= k < i as int && k != last_nonempty as int ==> all_zero(
                    (#[trigger] audio.data@[k])@,
                ),
            n_nonzero >= 2 ==> exists|p: int, q: int|
                0 <= p < q < i as int && !all_zero((#[trigger] audio.data@[p])@) && !all_zero(
                    (#[trigger] audio.data@[q])@,
                ),
        decreases n - i as int,
    {
        if channel_all_zero(&audio.data[i]) {
        } else {
            proof {
                if n_nonzero == 1 {
                    assert(!all_zero(audio.data@[last_nonempty as int]@));
                }
            }
            if n_nonzero >= 1 {
                let ghost prev = last_nonempty as int;
                proof {
                    assert(!all_zero(audio.data@[prev]@));
                    assert(prev < i as int);
                }
            }
            last_nonempty = i;
            n_nonzero += 1;
        }
        i += 1;
    }
    if n_nonzero == 1 {
        let m = last_nonempty;
        proof {
            assert(is_solo(audio.data@, m as int));
        }
        let mono = copy_samples(&audio.data[m]);
        let mut c: usize = 0;
        while c < n
            invariant
                n == audio.data@.len(),
                m < n,
                c <= n,
                audio.spec == old(audio).spec,
                mono@ == old(audio).data@[m as int]@,
                forall|k: int|
                    c as int <= k < n as int ==> audio.data@[k] == old(audio).data@[k],
                forall|k: int|
                    0 <= k < c as int ==> (#[trigger] audio.data@[k])@ == mono@,
            decreases n - c as int,
        {
            if c != m {
                let fresh = copy_samples(&mono);
                audio.data[c] = fresh;
            } else {
                proof {
                    assert(audio.data@[c as int]@ == mono@);
                }
                let fresh = copy_samples(&mono);
                audio.data[c] = fresh;
            }
            c += 1;
        }
        proof {
            assert forall|mm: int, cc: int|
                #![trigger is_solo(old(audio).data@, mm), audio.data@[cc]]
                is_solo(old(audio).data@, mm) && 0 <= cc < audio.data@.len() implies audio.data@[
            cc]@ == old(audio).data@[mm]@ by {
                assert(!all_zero(old(audio).data@[m as int]@));
                assert(mm == m as int);
                assert(audio.data@[cc]@ == mono@);
            }
        }
    } else {
        proof {
            assert forall|mm: int| !is_solo(old(audio).data@, mm) by {
                if 0 <= mm < n as int {
                    if n_nonzero == 0 {
                        assert(all_zero(old(audio).data@[mm]@));
                    } else if n_nonzero >= 2 {
                        let (p, q) = choose|p: int, q: int|
                            0 <= p < q < n as int && !all_zero(
                                (#[trigger] old(audio).data@[p])@,
                            ) && !all_zero((#[trigger] old(audio).data@[q])@);
                        if p != mm {
                            assert(!all_zero(old(audio).data@[p]@));
                        } else {
                            assert(!all_zero(old(audio).data@[q]@));
                        }
                    }
                }
            }
        }
    }
}

/// Largest sample magnitude in `s[from..to]`.
pub open spec fn peak_in(s: Seq<i32>, from: int, to: int) -> int
    decreases to - from,
{
    if from >= to {
        0
    } else {
        let rest = peak_in(s, from, to - 1);
        let m = mag(s[to - 1] as int);
        if m > rest {
            m
        } else {
            rest
        }
    }
}

/// Largest magnitude any of the channels `0..c` reaches in `[from, to)`.
pub open spec fn peak_across(data: Seq<Vec<i32>>, c: int, from: int, to: int) -> int
    decreases c,
{
    if c <= 0 {
        0
    } else {
        let rest = peak_across(data, c - 1, from, to);
        let m = peak_in(data[c - 1]@, from, to);
        if m > rest {
            m
        } else {
            rest
        }
    }
}

/// Number of analysis bins covering `len` samples.
pub open spec fn bin_count(len: int, bin_len: int) -> int {
    if len <= 0 {
        0
    } else {
        (len - 1) / bin_len + 1
    }
}

/// The end of the bin that starts at `start`: one bin further, or the end
/// of the signal.
pub open spec fn bin_end(start: int, bin_len: int, len: int) -> int {
    if start + bin_len < len {
        start + bin_len
    } else {
        len
    }
}

/// Per-bin signal levels: each bin's start position paired with the
/// largest sample magnitude any channel reaches inside the bin.
pub open spec fn bins_spec(data: Seq<Vec<i32>>, len: int, bin_len: int) -> Seq<(usize, u64)> {
    Seq::new(
        bin_count(len, bin_len) as nat,
        |b: int|
            (
                (b * bin_len) as usize,
                peak_across(
                    data,
                    data.len() as int,
                    b * bin_len,
                    bin_end(b * bin_len, bin_len, len),
                ) as u64,
            ),
    )
}

pub proof fn lemma_peak_in_bounds(s: Seq<i32>, from: int, to: int)
    ensures
        0 <= peak_in(s, from, to) <= 0x8000_0000,
    decreases to - from,
{
    if from < to {
        lemma_peak_in_bounds(s, from, to - 1);
    }
}

pub proof fn lemma_peak_across_bounds(data: Seq<Vec<i32>>, c: int, from: int, to: int)
    ensures
        0 <= peak_across(data, c, from, to) <= 0x8000_0000,
    decreases c,
{
    if c > 0 {
        lemma_peak_across_bounds(data, c - 1, from, to);
        lemma_peak_in_bounds(data[c - 1]@, from, to);
    }
}

fn peak_in_range(s: &Vec<i32>, from: usize, to: usize) -> (r: u64)
    requires
        from <= to <= s@.len(),
    ensures
        r == peak_in(s@, from as int, to as int),
{
    let mut r: u64 = 0;
    let mut j: usize = from;
    while j < to
        invariant
            from <= j <= to <= s@.len(),
            r == peak_in(s@, from as int, j as int),
        decreases to - j as int,
    {
        let sample: i32 = s[j];
        let m: u64 = if sample < 0 {
            (-(sample as i64)) as u64
        } else {
            sample as u64
        };
        if m > r {
            r = m;
        }
        j += 1;
    }
    r
}

/// The signal level of one bin, over all channels.
fn peak_bin(audio: &Audio<i32>, from: usize, to: usize) -> (r: u64)
    requires
        audio.wf(),
        from <= to <= audio.channel_len(),
    ensures
        r == peak_across(audio.data@, audio.data@.len() as int, from as int, to as int),
{
    let n = audio.data.len();
    let mut r: u64 = 0;
    let mut c: usize = 0;
    while c < n
        invariant
            audio.wf(),
            from <= to <= audio.channel_len(),
            n == audio.data@.len(),
            c <= n,
            r == peak_across(audio.data@, c as int, from as int, to as int),
        decreases n - c as int,
    {
        let m = peak_in_range(&audio.data[c], from, to);
        if m > r {
            r = m;
        }
        c += 1;
    }
    r
}

/// The per-bin signal levels of a recording, one bin per analysis window:
/// each entry is the bin's first sample position and the loudest sample
/// magnitude any channel reaches inside the bin.
pub fn chunked_audio_power(audio: &Audio<i32>, bin_dur: TimeSpan) -> (r: Vec<(usize, u64)>)
    requires
        audio.wf(),
        audio.data@.len() >= 1,
        1 <= span_samples(bin_dur.nanos as int, audio.spec.sample_rate as int) <= usize::MAX,
    ensures
        r@ == bins_spec(
            audio.data@,
            audio.channel_len() as int,
            span_samples(bin_dur.nanos as int, audio.spec.sample_rate as int),
        ),
{
    let bin_length = span_to_samples(bin_dur, audio.spec.sample_rate);
    let sample_dur = audio.data[0].len();
    let ghost bl = bin_length as int;
    let ghost len = sample_dur as int;
    let mut r: Vec<(usize, u64)> = Vec::new();
    let mut bin_start: usize = 0;
    let mut b: usize = 0;
    while bin_start < sample_dur
        invariant
            audio.wf(),
            bin_length >= 1,
            bl == bin_length as int,
            len == sample_dur as int,
            sample_dur == audio.channel_len(),
            bin_start <= sample_dur,
            b == r@.len(),
            bin_start < sample_dur ==> bin_start as int == b as int * bl,
            bin_start as int <= b as int * bl,
            bin_start == sample_dur ==> (b == 0 && sample_dur == 0) || (b >= 1 && (b as int - 1)
                * bl < len && len <= b as int * bl),
            forall|k: int|
                0 <= k < b as int ==> #[trigger] r@[k] == (
                    (k * bl) as usize,
                    peak_across(audio.data@, audio.data@.len() as int, k * bl, bin_end(
                        k * bl,
                        bl,
                        len,
                    )) as u64,
                ),
        decreases sample_dur - bin_start as int,
    {
        let bin_stop = if bin_length < sample_dur - bin_start {
            bin_start + bin_length
        } else {
            sample_dur
        };
        let peak = peak_bin(audio, bin_start, bin_stop);
        proof {
            lemma_peak_across_bounds(
                audio.data@,
                audio.data@.len() as int,
                bin_start as int,
                bin_stop as int,
            );
            assert(bin_stop as int == bin_end(b as int * bl, bl, len));
        }
        r.push((bin_start, peak));
        proof {
            assert((b as int) * bl + bl == (b as int + 1) * bl) by (nonlinear_arith);
            assert(b as int <= (b as int) * bl) by (nonlinear_arith)
                requires
                    bl >= 1,
                    b >= 0,
            ;
        }
        b += 1;
        if sample_dur - bin_start <= bin_length {
            bin_start = sample_dur;
        } else {
            bin_start = bin_start + bin_length;
        }
    }
    proof {
        if len == 0 {
            assert(bin_count(len, bl) == 0);
        } else {
            assert((b as int - 1) * bl + bl == (b as int) * bl) by (nonlinear_arith);
            vstd::arithmetic::div_mod::lemma_fundamental_div_mod_converse(
                len - 1,
                bl,
                b as int - 1,
                len - 1 - (b as int - 1) * bl,
            );
            assert(bin_count(len, bl) == b as int);
        }
        assert(r@ =~= bins_spec(audio.data@, len, bl));
    }
    r
}


/// The comparison by which amplitude values rank.
pub open spec fn amp_le() -> spec_fn(u64, u64) -> bool {
    |a: u64, b: u64| a <= b
}

/// The amplitude column of a per-bin level list.
pub open spec fn amp_values(s: Seq<(usize, u64)>) -> Seq<u64> {
    Seq::new(s.len(), |i: int| s[i].1)
}

/// The noise threshold of a level list: the amplitude standing at the
/// given percentile rank once the levels are sorted.
pub open spec fn noise_threshold_spec(s: Seq<(usize, u64)>, percentile: int) -> u64 {
    amp_values(s).sort_by(amp_le())[percentile * s.len() / 100]
}

pub proof fn lemma_amp_le_total()
    ensures
        vstd::relations::total_ordering(amp_le()),
{
    assert(vstd::relations::reflexive(amp_le()));
    assert(vstd::relations::antisymmetric(amp_le()));
    assert(vstd::relations::transitive(amp_le()));
    assert(vstd::relations::strongly_connected(amp_le()));
}

fn sort_values(a: &mut Vec<u64>)
    ensures
        vstd::relations::sorted_by(final(a)@, amp_le()),
        final(a)@.to_multiset() == old(a)@.to_multiset(),
        final(a)@.len() == old(a)@.len(),
{
    broadcast use vstd::seq_lib::group_to_multiset_ensures;
    broadcast use vstd::multiset::group_multiset_axioms;

    let n = a.len();
    if n <= 1 {
        return ;
    }
    let mut i: usize = 1;
    while i < n
        invariant
            1 <= i <= n,
            n == a@.len(),
            vstd::relations::sorted_by(a@.subrange(0, i as int), amp_le()),
            a@.to_multiset() == old(a)@.to_multiset(),
        decreases n - i as int,
    {
        let x = a[i];
        let mut j: usize = 0;
        while j < i && a[j] <= x
            invariant
                j <= i < n,
                n == a@.len(),
                forall|k: int| 0 <= k < j as int ==> a@[k] <= x,
            decreases i - j as int,
        {
            j += 1;
        }
        let ghost pre = a@;
        let moved = a.remove(i);
        a.insert(j, moved);
        proof {
            assert(a@ == pre.remove(i as int).insert(j as int, pre[i as int]));
            vstd::seq_lib::to_multiset_remove::<u64>(pre, i as int);
            vstd::seq_lib::to_multiset_insert::<u64>(
                pre.remove(i as int),
                j as int,
                pre[i as int],
            );
            vstd::seq_lib::to_multiset_contains::<u64>(pre, pre[i as int]);
            assert(pre.contains(pre[i as int])) by {
                assert(0 <= i < pre.len() && pre[i as int] == pre[i as int]);
            }
            assert(a@.to_multiset() =~= pre.to_multiset());
            let s = a@.subrange(0, i as int + 1);
            assert forall|p: int, q: int| 0 <= p < q < s.len() implies #[trigger] amp_le()(
                s[p],
                s[q],
            ) by {
                assert(forall|k: int| 0 <= k < j as int ==> a@[k] == pre[k]);
                assert(a@[j as int] == pre[i as int]);
                assert(forall|k: int| (j as int) < k <= i as int ==> a@[k] == pre[k - 1]);
                let presorted = pre.subrange(0, i as int);
                assert(forall|u: int, v: int|
                    0 <= u < v < i as int ==> #[trigger] amp_le()(presorted[u], presorted[v]));
                assert(forall|u: int| 0 <= u < i as int ==> presorted[u] == pre[u]);
                if q < j as int {
                } else if p < j as int && q == j as int {
                    assert(pre[p] <= x);
                } else if p < j as int {
                    assert(amp_le()(presorted[p], presorted[q - 1]));
                } else if p == j as int {
                    if (j as int) < i as int {
                        assert(pre[j as int] > x);
                        assert(q - 1 >= j as int);
                        if q - 1 > j as int {
                            assert(amp_le()(presorted[j as int], presorted[q - 1]));
                        }
                    }
                } else {
                    assert(amp_le()(presorted[p - 1], presorted[q - 1]));
                }
            }
            assert(vstd::relations::sorted_by(s, amp_le()));
        }
        i += 1;
    }
    proof {
        assert(a@.subrange(0, n as int) =~= a@);
    }
}

/// The amplitude below which a recording is considered noise: the value
/// at `threshold_percentile` percent up the sorted per-bin levels.
pub fn determine_noise_threshold(amplitudes: &Vec<(usize, u64)>, threshold_percentile: usize) -> (r:
    u64)
    requires
        amplitudes@.len() >= 1,
        threshold_percentile < 100,
    ensures
        r == noise_threshold_spec(amplitudes@, threshold_percentile as int),
{
    let n = amplitudes.len();
    let mut vals: Vec<u64> = Vec::new();
    let mut i: usize = 0;
    while i < n
        invariant
            i <= n,
            n == amplitudes@.len(),
            vals@.len() == i as int,
            forall|k: int| 0 <= k < i as int ==> #[trigger] vals@[k] == amplitudes@[k].1,
        decreases n - i as int,
    {
        let v = amplitudes[i].1;
        vals.push(v);
        i += 1;
    }
    proof {
        assert(vals@ =~= amp_values(amplitudes@));
    }
    sort_values(&mut vals);
    proof {
        lemma_amp_le_total();
        amp_values(amplitudes@).lemma_sort_by_ensures(amp_le());
        vstd::seq_lib::lemma_sorted_unique(
            vals@,
            amp_values(amplitudes@).sort_by(amp_le()),
            amp_le(),
        );
        assert(vals@ =~= amp_values(amplitudes@).sort_by(amp_le()));
    }
    proof {
        let p = threshold_percentile as int;
        let q = p * (n as int) / 100;
        assert(p * (n as int) <= 99 * (n as int)) by (nonlinear_arith)
            requires
                p <= 99,
                n >= 1,
        ;
        assert(p * (n as int) >= 0) by (nonlinear_arith)
            requires
                p >= 0,
                n >= 1,
        ;
        vstd::arithmetic::div_mod::lemma_div_is_ordered(p * (n as int), 99 * (n as int), 100);
        vstd::arithmetic::div_mod::lemma_fundamental_div_mod(99 * (n as int), 100);
        assert(99 * (n as int) / 100 < n as int) by (nonlinear_arith)
            requires
                n >= 1,
                99 * (n as int) == 100 * (99 * (n as int) / 100) + (99 * (n as int)) % 100,
                0 <= (99 * (n as int)) % 100 < 100,
        ;
        vstd::arithmetic::div_mod::lemma_div_pos_is_pos(p * (n as int), 100);
    }
    let idx = (((threshold_percentile as u128) * (n as u128)) / 100) as usize;
    vals[idx]
}

/// Bin `i` opens the signal and bin `j` closes it: both rise above the
/// threshold and nothing before `i` or after `j` does.
pub open spec fn crop_witness(s: Seq<(usize, u64)>, thr: u64, i: int, j: int) -> bool {
    &&& 0 <= i <= j < s.len()
    &&& s[i].1 > thr
    &&& forall|k: int| 0 <= k < i ==> (#[trigger] s[k]).1 <= thr
    &&& s[j].1 > thr
    &&& forall|k: int| j < k < s.len() ==> (#[trigger] s[k]).1 <= thr
}

/// The index whose bin position closes the crop: one past the last bin
/// above the threshold, or the final bin if none follows it.
pub open spec fn crop_end(s: Seq<(usize, u64)>, j: int) -> int {
    if j + 1 < s.len() {
        j + 1
    } else {
        s.len() - 1
    }
}

/// Where the recorded subject begins and ends: the positions of the first
/// bin above the noise threshold and of the bin just past the last one
/// above it — or nothing when every bin is noise.
pub fn determine_autocrop_points(
    amplitudes: &Vec<(usize, u64)>,
    threshold_percentile: usize,
) -> (r: Option<(usize, usize)>)
    requires
        amplitudes@.len() >= 1,
        threshold_percentile < 100,
    ensures
        ({
            let thr = noise_threshold_spec(amplitudes@, threshold_percentile as int);
            &&& (r is None <==> forall|k: int|
                0 <= k < amplitudes@.len() ==> (#[trigger] amplitudes@[k]).1 <= thr)
            &&& (r matches Option::Some(pts) ==> exists|i: int, j: int|
                #![trigger crop_witness(amplitudes@, thr, i, j)]
                crop_witness(amplitudes@, thr, i, j) && pts.0 == amplitudes@[i].0 && pts.1
                    == amplitudes@[crop_end(amplitudes@, j)].0)
        }),
{
    let noise_threshold = determine_noise_threshold(amplitudes, threshold_percentile);
    let n = amplitudes.len();
    let mut first: usize = 0;
    let mut found = false;
    while first < n && !found
        invariant
            first <= n,
            n == amplitudes@.len(),
            !found ==> forall|k: int|
                0 <= k < first as int ==> (#[trigger] amplitudes@[k]).1 <= noise_threshold,
            found ==> (first < n && amplitudes@[first as int].1 > noise_threshold && forall|k: int|
                0 <= k < first as int ==> (#[trigger] amplitudes@[k]).1 <= noise_threshold),
        decreases n - first as int + (if found {
            0int
        } else {
            1int
        }),
    {
        if amplitudes[first].1 > noise_threshold {
            found = true;
        } else {
            first += 1;
        }
    }
    if !found {
        return Option::None;
    }
    let mut last: usize = n - 1;
    while amplitudes[last].1 <= noise_threshold
        invariant
            first as int <= last < n,
            n == amplitudes@.len(),
            amplitudes@[first as int].1 > noise_threshold,
            forall|k: int|
                (last as int) < k < n as int ==> (#[trigger] amplitudes@[k]).1 <= noise_threshold,
        decreases last as int,
    {
        last -= 1;
    }
    let end_index = if last + 1 < n {
        last + 1
    } else {
        n - 1
    };
    let start_sample = amplitudes[first].0;
    let end_sample = amplitudes[end_index].0;
    proof {
        let thr = noise_threshold_spec(amplitudes@, threshold_percentile as int);
        assert(crop_witness(amplitudes@, thr, first as int, last as int));
    }
    Option::Some((start_sample, end_sample))
}

/// The mono-split relation: when exactly one channel of `pre` carries
/// signal, every channel of `post` is a copy of it; otherwise `post` is
/// `pre` unchanged.
pub open spec fn split_applied(pre: Seq<Vec<i32>>, post: Seq<Vec<i32>>) -> bool {
    &&& post.len() == pre.len()
    &&& (forall|m: int, c: int|
        #![trigger is_solo(pre, m), post[c]]
        is_solo(pre, m) && 0 <= c < post.len() ==> post[c]@ == pre[m]@)
    &&& ((forall|m: int| !is_solo(pre, m)) ==> post == pre)
}

/// The autocrop relation: `post` is `pre` clipped to the span between the
/// first bin above the noise threshold and the bin closing the last one
/// above it — or `pre` unchanged when every bin is noise.
pub open spec fn crop_applied(
    pre: Seq<Vec<i32>>,
    post: Seq<Vec<i32>>,
    len: int,
    bin_len: int,
    percentile: int,
) -> bool {
    let bins = bins_spec(pre, len, bin_len);
    let thr = noise_threshold_spec(bins, percentile);
    &&& post.len() == pre.len()
    &&& ((forall|k: int| 0 <= k < bins.len() ==> (#[trigger] bins[k]).1 <= thr) ==> post == pre)
    &&& ((exists|k: int| 0 <= k < bins.len() && (#[trigger] bins[k]).1 > thr) ==> exists|
    i: int,
    j: int,
|
        #![trigger crop_witness(bins, thr, i, j)]
        crop_witness(bins, thr, i, j) && (forall|c: int|
            0 <= c < pre.len() ==> (#[trigger] post[c])@ == pre[c]@.subrange(
                bins[i].0 as int,
                bins[crop_end(bins, j)].0 as int,
            )))
}

/// Crop a recording to the span its per-bin levels mark as the subject:
/// everything before the first bin above the noise threshold and after
/// the bin closing the last one above it is cut away. A recording that is
/// all noise is left untouched.
pub fn autocrop_audio(audio: &mut Audio<i32>, analysis_window: TimeSpan, threshold_percentile: usize)
    requires
        old(audio).wf(),
        old(audio).data@.len() >= 1,
        old(audio).channel_len() >= 1,
        1 <= span_samples(analysis_window.nanos as int, old(audio).spec.sample_rate as int)
            <= usize::MAX,
        threshold_percentile < 100,
    ensures
        final(audio).wf(),
        final(audio).spec == old(audio).spec,
        final(audio).data@.len() == old(audio).data@.len(),
        crop_applied(
            old(audio).data@,
            final(audio).data@,
            old(audio).channel_len() as int,
            span_samples(analysis_window.nanos as int, old(audio).spec.sample_rate as int),
            threshold_percentile as int,
        ),
{
    let amplitudes = chunked_audio_power(audio, analysis_window);
    let channel_len_exec = audio.data[0].len();
    proof {
        assert(channel_len_exec == old(audio).channel_len());
        let bl = span_samples(analysis_window.nanos as int, old(audio).spec.sample_rate as int);
        vstd::arithmetic::div_mod::lemma_div_pos_is_pos(old(audio).channel_len() - 1, bl);
    }
    let autocrop_points = determine_autocrop_points(&amplitudes, threshold_percentile);
    match autocrop_points {
        Option::None => {},
        Option::Some((start, end)) => {
            proof {
                let bl = span_samples(
                    analysis_window.nanos as int,
                    old(audio).spec.sample_rate as int,
                );
                let bins = bins_spec(old(audio).data@, old(audio).channel_len() as int, bl);
                let thr = noise_threshold_spec(bins, threshold_percentile as int);
                let (i, j) = choose|i: int, j: int|
                    #![trigger crop_witness(bins, thr, i, j)]
                    crop_witness(bins, thr, i, j) && start == bins[i].0 && end == bins[
                        crop_end(bins, j)].0;
                let e = crop_end(bins, j);
                let len = old(audio).channel_len() as int;
                assert(len <= usize::MAX);
                vstd::arithmetic::div_mod::lemma_fundamental_div_mod(len - 1, bl);
                assert(e <= (len - 1) / bl);
                assert(0 <= e * bl && e * bl <= ((len - 1) / bl) * bl) by (nonlinear_arith)
                    requires
                        0 <= e <= (len - 1) / bl,
                        bl >= 1,
                ;
                assert(((len - 1) / bl) * bl <= len - 1) by (nonlinear_arith)
                    requires
                        len - 1 == bl * ((len - 1) / bl) + (len - 1) % bl,
                        (len - 1) % bl >= 0,
                ;
                assert(0 <= i * bl && i * bl <= e * bl) by (nonlinear_arith)
                    requires
                        0 <= i <= e,
                        bl >= 1,
                ;
                assert(bins[i].0 == i * bl && bins[e].0 == e * bl);
            }
            audio.clip_samples(start, end);
        },
    }
}


/// Analysis window for the noise floor of a finished recording.
pub const NOISE_ANALYSIS_WINDOW_MILLIS: u64 = 100;

/// Percentile of the per-bin levels taken as the noise threshold.
pub const NOISE_THRESHOLD_PERCENTILE: usize = 30;

/// The full treatment of a finished recording: collapse a one-channel
/// take onto every channel, then crop around the subject with a 100 ms
/// analysis window and the 30th-percentile noise floor.
pub fn prepare_recording(audio: &mut Audio<i32>)
    requires
        old(audio).wf(),
        old(audio).data@.len() >= 1,
        old(audio).channel_len() >= 1,
        old(audio).spec.valid(),
        old(audio).spec.sample_rate >= 10,
    ensures
        final(audio).wf(),
        final(audio).spec == old(audio).spec,
        final(audio).data@.len() == old(audio).data@.len(),
        exists|mid: Seq<Vec<i32>>|
            #![trigger split_applied(old(audio).data@, mid)]
            split_applied(old(audio).data@, mid) && crop_applied(
                mid,
                final(audio).data@,
                old(audio).channel_len() as int,
                span_samples(
                    NOISE_ANALYSIS_WINDOW_MILLIS * crate::audio::NANOS_PER_MILLI,
                    old(audio).spec.sample_rate as int,
                ),
                NOISE_THRESHOLD_PERCENTILE as int,
            ),
{
    auto_split_mono(audio);
    let ghost mid = audio.data@;
    proof {
        if exists|m: int| is_solo(old(audio).data@, m) {
            let m = choose|m: int| is_solo(old(audio).data@, m);
            assert(audio.data@[0]@ == old(audio).data@[m]@);
        } else {
            assert(forall|m: int| !is_solo(old(audio).data@, m));
            assert(audio.data@ == old(audio).data@);
        }
        assert(audio.channel_len() == old(audio).channel_len());
        assert(split_applied(old(audio).data@, mid));
        let r = audio.spec.sample_rate as int;
        assert(100_000_000 * r >= 1_000_000_000 && 100_000_000 * r <= 1_000_000_000 * r)
            by (nonlinear_arith)
            requires
                r >= 10,
        ;
        vstd::arithmetic::div_mod::lemma_div_is_ordered(
            1_000_000_000,
            100_000_000 * r,
            1_000_000_000,
        );
        vstd::arithmetic::div_mod::lemma_div_multiples_vanish(1, 1_000_000_000);
        vstd::arithmetic::div_mod::lemma_div_is_ordered(
            100_000_000 * r,
            1_000_000_000 * r,
            1_000_000_000,
        );
        vstd::arithmetic::div_mod::lemma_div_multiples_vanish(r, 1_000_000_000);
        assert(1 <= span_samples(100_000_000, r) <= usize::MAX);
    }
    autocrop_audio(
        audio,
        TimeSpan::from_millis(NOISE_ANALYSIS_WINDOW_MILLIS),
        NOISE_THRESHOLD_PERCENTILE,
    );
}

} // verus!
