//! De-interleaving of a sample sequence into per-channel line series,
//! with shared y-axis bounds and palette colors.

use vstd::prelude::*;

use vstd::arithmetic::div_mod::lemma_fundamental_div_mod;
use vstd::arithmetic::mul::lemma_mul_inequality;

use crate::ChartError;
use crate::codec::decoded;

verus! {

/// How many distinguishable palette colors exist, and so how many
/// channels one chart can show.
pub const MAX_CHANNELS: usize = 5;

/// The sub-sequence of `s` that belongs to channel `c` out of `n`:
/// the samples at indices `c`, `c + n`, `c + 2n`, ...; a final partial
/// round across the channels is dropped.
pub open spec fn channel_of(s: Seq<u16>, n: int, c: int) -> Seq<u16>
    recommends
        1 <= n,
        0 <= c < n,
{
    Seq::new((s.len() as int / n) as nat, |i: int| s[c + i * n])
}

/// Every index a channel reads lies inside the sample sequence.
proof fn lemma_stride_in_bounds(len: int, n: int, c: int, i: int)
    requires
        1 <= n,
        0 <= c < n,
        0 <= i < len / n,
    ensures
        0 <= c + i * n < len,
{
    lemma_fundamental_div_mod(len, n);
    lemma_mul_inequality(i, len / n - 1, n);
    assert((len / n - 1) * n == (len / n) * n - n) by (nonlinear_arith);
}

/// The least sample of a non-empty sequence.
pub open spec fn seq_min(s: Seq<u16>) -> u16
    recommends
        s.len() > 0,
    decreases s.len(),
{
    if s.len() <= 1 {
        s[0]
    } else {
        let m = seq_min(s.drop_last());
        if s.last() < m {
            s.last()
        } else {
            m
        }
    }
}

/// The greatest sample of a non-empty sequence.
pub open spec fn seq_max(s: Seq<u16>) -> u16
    recommends
        s.len() > 0,
    decreases s.len(),
{
    if s.len() <= 1 {
        s[0]
    } else {
        let m = seq_max(s.drop_last());
        if s.last() > m {
            s.last()
        } else {
            m
        }
    }
}

/// `seq_min` occurs in the sequence and no sample lies below it.
pub proof fn lemma_seq_min_is_min(s: Seq<u16>)
    requires
        s.len() > 0,
    ensures
        s.contains(seq_min(s)),
        forall|i: int| 0 <= i < s.len() ==> seq_min(s) <= s[i],
    decreases s.len(),
{
    if s.len() > 1 {
        lemma_seq_min_is_min(s.drop_last());
        if seq_min(s) == s.last() {
            assert(s[s.len() - 1] == seq_min(s));
        } else {
            let j = choose|j: int| 0 <= j < s.drop_last().len()
                && s.drop_last()[j] == seq_min(s.drop_last());
            assert(s[j] == seq_min(s));
        }
        assert forall|i: int| 0 <= i < s.len() implies seq_min(s) <= s[i] by {
            if i < s.len() - 1 {
                assert(s.drop_last()[i] == s[i]);
            }
        }
    }
}

/// `seq_max` occurs in the sequence and no sample lies above it.
pub proof fn lemma_seq_max_is_max(s: Seq<u16>)
    requires
        s.len() > 0,
    ensures
        s.contains(seq_max(s)),
        forall|i: int| 0 <= i < s.len() ==> s[i] <= seq_max(s),
    decreases s.len(),
{
    if s.len() > 1 {
        lemma_seq_max_is_max(s.drop_last());
        if seq_max(s) == s.last() {
            assert(s[s.len() - 1] == seq_max(s));
        } else {
            let j = choose|j: int| 0 <= j < s.drop_last().len()
                && s.drop_last()[j] == seq_max(s.drop_last());
            assert(s[j] == seq_max(s));
        }
        assert forall|i: int| 0 <= i < s.len() implies s[i] <= seq_max(s) by {
            if i < s.len() - 1 {
                assert(s.drop_last()[i] == s[i]);
            }
        }
    }
}

/// The least sample of a non-empty buffer.
pub fn min_sample(samples: &Vec<u16>) -> (r: u16)
    requires
        samples@.len() > 0,
    ensures
        r == seq_min(samples@),
{
    let mut m: u16 = samples[0];
    let mut i: usize = 1;
    proof {
        assert(samples@.take(1) =~= seq![samples@[0]]);
    }
    while i < samples.len()
        invariant
            1 <= i <= samples@.len(),
            m == seq_min(samples@.take(i as int)),
        decreases samples@.len() - i,
    {
        proof {
            assert(samples@.take(i + 1).drop_last() =~= samples@.take(i as int));
            assert(samples@.take(i + 1).last() == samples@[i as int]);
        }
        if samples[i] < m {
            m = samples[i];
        }
        i = i + 1;
    }
    proof {
        assert(samples@.take(samples@.len() as int) =~= samples@);
    }
    m
}

/// The greatest sample of a non-empty buffer.
pub fn max_sample(samples: &Vec<u16>) -> (r: u16)
    requires
        samples@.len() > 0,
    ensures
        r == seq_max(samples@),
{
    let mut m: u16 = samples[0];
    let mut i: usize = 1;
    proof {
        assert(samples@.take(1) =~= seq![samples@[0]]);
    }
    while i < samples.len()
        invariant
            1 <= i <= samples@.len(),
            m == seq_max(samples@.take(i as int)),
        decreases samples@.len() - i,
    {
        proof {
            assert(samples@.take(i + 1).drop_last() =~= samples@.take(i as int));
            assert(samples@.take(i + 1).last() == samples@[i as int]);
        }
        if samples[i] > m {
            m = samples[i];
        }
        i = i + 1;
    }
    proof {
        assert(samples@.take(samples@.len() as int) =~= samples@);
    }
    m
}

/// The shared y-axis lower bound: a margin of 200 below the least
/// sample, clamped at zero rather than wrapping below it.
pub open spec fn lower_bound(s: Seq<u16>) -> u32 {
    if seq_min(s) >= 200 {
        (seq_min(s) - 200) as u32
    } else {
        0
    }
}

/// The shared y-axis upper bound: a margin of 200 above the greatest
/// sample.
pub open spec fn upper_bound(s: Seq<u16>) -> u32 {
    (seq_max(s) + 200) as u32
}

/// The y-axis bounds shared by every channel of one chart. Every sample
/// lies between the two bounds.
pub fn y_bounds(samples: &Vec<u16>) -> (r: (u32, u32))
    requires
        samples@.len() > 0,
    ensures
        r.0 == lower_bound(samples@),
        r.1 == upper_bound(samples@),
        forall|i: int| 0 <= i < samples@.len() ==> r.0 <= samples@[i] && samples@[i] <= r.1,
{
    let lo = min_sample(samples);
    let hi = max_sample(samples);
    proof {
        lemma_seq_min_is_min(samples@);
        lemma_seq_max_is_max(samples@);
    }
    let lower: u32 = if lo >= 200 {
        (lo - 200) as u32
    } else {
        0
    };
    (lower, hi as u32 + 200)
}

/// A palette color, by red, green and blue intensity.
#[derive(Clone, Copy, Debug, PartialEq, Eq, Structural)]
pub struct Rgb {
    pub red: u8,
    pub green: u8,
    pub blue: u8,
}

/// The fixed palette, cycled by channel index: red, green, blue, cyan,
/// magenta.
pub open spec fn palette_rgb(c: int) -> Rgb {
    if c % 5 == 0 {
        Rgb { red: 255, green: 0, blue: 0 }
    } else if c % 5 == 1 {
        Rgb { red: 0, green: 255, blue: 0 }
    } else if c % 5 == 2 {
        Rgb { red: 0, green: 0, blue: 255 }
    } else if c % 5 == 3 {
        Rgb { red: 0, green: 255, blue: 255 }
    } else {
        Rgb { red: 255, green: 0, blue: 255 }
    }
}

/// The palette color assigned to a channel.
pub fn palette_color(c: usize) -> (r: Rgb)
    ensures
        r == palette_rgb(c as int),
{
    let slot: usize = c % 5;
    if slot == 0 {
        Rgb { red: 255, green: 0, blue: 0 }
    } else if slot == 1 {
        Rgb { red: 0, green: 255, blue: 0 }
    } else if slot == 2 {
        Rgb { red: 0, green: 0, blue: 255 }
    } else if slot == 3 {
        Rgb { red: 0, green: 255, blue: 255 }
    } else {
        Rgb { red: 255, green: 0, blue: 255 }
    }
}

/// One channel's drawable line series: its index, its palette color, and
/// its samples in order. The x-coordinate of the i-th point is i.
#[derive(Debug)]
pub struct ChannelSeries {
    pub channel: usize,
    pub color: Rgb,
    pub values: Vec<u16>,
}

/// A channel series carries exactly the channel's sub-sequence of the
/// samples, under the channel's own index and palette color.
pub open spec fn series_matches(cs: ChannelSeries, s: Seq<u16>, n: int, c: int) -> bool {
    &&& cs.channel == c
    &&& cs.color == palette_rgb(c)
    &&& cs.values@ == channel_of(s, n, c)
}

impl ChannelSeries {
    /// The series as explicit (x, y) points, the i-th point at x = i.
    pub fn points(&self) -> (r: Vec<(u32, u32)>)
        requires
            self.values@.len() <= u32::MAX,
        ensures
            r@.len() == self.values@.len(),
            forall|i: int| 0 <= i < r@.len() ==> r@[i].0 == i && r@[i].1 == self.values@[i],
    {
        let mut r: Vec<(u32, u32)> = Vec::new();
        let mut i: usize = 0;
        while i < self.values.len()
            invariant
                i <= self.values@.len(),
                self.values@.len() <= u32::MAX,
                r@.len() == i,
                forall|j: int| 0 <= j < i ==> #[trigger] r@[j] == (j as u32, self.values@[j] as u32),
            decreases self.values@.len() - i,
        {
            let x: u32 = i as u32;
            let y: u32 = self.values[i] as u32;
            r.push((x, y));
            i = i + 1;
        }
        proof {
            assert forall|k: int| 0 <= k < r@.len() implies r@[k].0 == k && r@[k].1
                == self.values@[k] by {
                assert(r@[k] == (k as u32, self.values@[k] as u32));
            }
        }
        r
    }
}

/// Everything one chart needs besides a drawing surface: the per-channel
/// line series, the shared x-axis length, and the shared y-axis bounds.
#[derive(Debug)]
pub struct ChartPlan {
    pub series: Vec<ChannelSeries>,
    pub x_len: usize,
    pub y_min: u32,
    pub y_max: u32,
}

/// A plan shows exactly the given samples across the given channels:
/// one matching series per channel, the shared x-axis as long as each
/// channel, and y-axis bounds with a margin of 200 around all samples,
/// clamped at zero.
pub open spec fn plan_matches(p: ChartPlan, s: Seq<u16>, n: int) -> bool {
    &&& p.series@.len() == n
    &&& forall|c: int| 0 <= c < n ==> series_matches(#[trigger] p.series@[c], s, n, c)
    &&& p.x_len == s.len() as int / n
    &&& p.y_min == lower_bound(s)
    &&& p.y_max == upper_bound(s)
    &&& forall|i: int| 0 <= i < s.len() ==> p.y_min <= s[i] && s[i] <= p.y_max
}

/// De-interleave a sample sequence into one line series per channel and
/// choose the shared axis bounds.
///
/// Sample i belongs to channel i mod `channels`; a final partial round
/// is dropped from every channel alike. The call fails exactly when the
/// channel count is zero or exceeds the palette, or no sample is given.
pub fn render(samples: &Vec<u16>, channels: usize) -> (r: Result<ChartPlan, ChartError>)
    ensures
        r is Ok <==> (1 <= channels <= MAX_CHANNELS && samples@.len() > 0),
        r matches Ok(p) ==> plan_matches(p, samples@, channels as int),
        r matches Err(e) ==> e == ChartError::ConfigError,
{
    if channels == 0 || channels > MAX_CHANNELS || samples.len() == 0 {
        return Err(ChartError::ConfigError);
    }
    let total: usize = samples.len();
    let per_channel: usize = total / channels;
    let (y_min, y_max) = y_bounds(samples);
    let mut series: Vec<ChannelSeries> = Vec::new();
    let mut c: usize = 0;
    while c < channels
        invariant
            1 <= channels <= MAX_CHANNELS,
            samples@.len() > 0,
            total == samples@.len(),
            per_channel == samples@.len() as int / channels as int,
            c <= channels,
            series@.len() == c,
            forall|j: int| 0 <= j < c ==> series_matches(
                #[trigger] series@[j],
                samples@,
                channels as int,
                j,
            ),
        decreases channels - c,
    {
        let color = palette_color(c);
        let mut values: Vec<u16> = Vec::new();
        let mut i: usize = 0;
        while i < per_channel
            invariant
                1 <= channels <= MAX_CHANNELS,
                c < channels,
                total == samples@.len(),
                per_channel == samples@.len() as int / channels as int,
                i <= per_channel,
                values@.len() == i,
                forall|j: int| 0 <= j < i ==> values@[j] == channel_of(
                    samples@,
                    channels as int,
                    c as int,
                )[j],
            decreases per_channel - i,
        {
            proof {
                lemma_stride_in_bounds(total as int, channels as int, c as int, i as int);
            }
            let pos: usize = c + i * channels;
            values.push(samples[pos]);
            i = i + 1;
        }
        proof {
            assert(values@ =~= channel_of(samples@, channels as int, c as int));
        }
        series.push(ChannelSeries { channel: c, color, values });
        c = c + 1;
    }
    Ok(ChartPlan { series, x_len: per_channel, y_min, y_max })
}

/// The channel sub-sequences put back in channel-major round-robin
/// order: element j comes from channel j mod n, at position j div n.
pub open spec fn reinterleaved(s: Seq<u16>, n: int) -> Seq<u16>
    recommends
        1 <= n,
{
    Seq::new((n * (s.len() as int / n)) as nat, |j: int| channel_of(s, n, j % n)[j / n])
}

/// Reconstruction: interleaving the n channel sub-sequences round-robin
/// reproduces the sample sequence, truncated to its last full round
/// across the channels.
pub proof fn lemma_deinterleave_reconstruction(s: Seq<u16>, n: int)
    requires
        1 <= n,
    ensures
        reinterleaved(s, n) == s.take(n * (s.len() as int / n)),
{
    let k = s.len() as int / n;
    lemma_fundamental_div_mod(s.len() as int, n);
    assert forall|j: int| 0 <= j < n * k implies reinterleaved(s, n)[j] == s[j] by {
        lemma_fundamental_div_mod(j, n);
        assert(j / n < k) by {
            if j / n >= k {
                lemma_mul_inequality(k, j / n, n);
            }
        }
        assert(j % n + (j / n) * n == j);
        lemma_stride_in_bounds(s.len() as int, n, j % n, j / n);
        assert(channel_of(s, n, j % n)[j / n] == s[j % n + (j / n) * n]);
    }
    assert(reinterleaved(s, n) =~= s.take(n * k));
}

/// Lay out a chart for a raw byte buffer: decode its little-endian
/// 16-bit samples, then de-interleave them across the channels.
///
/// A buffer without one complete sample fails decoding; a channel count
/// of zero or beyond the palette fails configuration.
pub fn plan_chart(bytes: &Vec<u8>, channels: usize) -> (r: Result<ChartPlan, ChartError>)
    ensures
        r is Ok <==> (bytes@.len() >= 2 && 1 <= channels <= MAX_CHANNELS),
        r matches Ok(p) ==> plan_matches(p, decoded(bytes@), channels as int),
        bytes@.len() < 2 ==> r == Result::<ChartPlan, ChartError>::Err(ChartError::DecodeError),
        bytes@.len() >= 2 && !(1 <= channels <= MAX_CHANNELS) ==> r == Result::<
            ChartPlan,
            ChartError,
        >::Err(ChartError::ConfigError),
{
    let samples = match crate::codec::decode(bytes) {
        Ok(samples) => samples,
        Err(e) => {
            return Err(e);
        },
    };
    render(&samples, channels)
}

} // verus!
