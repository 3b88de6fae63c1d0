//! Per-key statistics engine: the figures of one key's samples.
//!
//! Every figure is a whole number, computed exactly and rounded toward zero;
//! whether a sample lies within a tolerance of the mean is decided without
//! rounding at all.

use vstd::prelude::*;

verus! {

/// Fewest samples for which statistics are reported.
pub const MIN_SAMPLES: usize = 5;

/// The narrow jitter tolerance, in microseconds.
pub const TOLERANCE_NARROW_US: u64 = 1000;

/// The wide jitter tolerance, in microseconds.
pub const TOLERANCE_WIDE_US: u64 = 2000;

/// The sum of the samples.
pub open spec fn sum(samples: Seq<u64>) -> int
    decreases samples.len(),
{
    if samples.len() == 0 {
        0
    } else {
        sum(samples.drop_last()) + samples.last()
    }
}

/// The sum of the squares of the samples.
pub open spec fn sum_of_squares(samples: Seq<u64>) -> int
    decreases samples.len(),
{
    if samples.len() == 0 {
        0
    } else {
        sum_of_squares(samples.drop_last()) + samples.last() * samples.last()
    }
}

/// The population variance, rounded toward zero. With `n` samples, sum `s`
/// and sum of squares `q`, the variance is `(n * q - s * s) / (n * n)`.
pub open spec fn variance_floor(samples: Seq<u64>) -> int {
    let n = samples.len() as int;
    (n * sum_of_squares(samples) - sum(samples) * sum(samples)) / (n * n)
}

/// The population variance in square nanoseconds, rounded toward zero.
pub open spec fn variance_ns_floor(samples: Seq<u64>) -> int {
    let n = samples.len() as int;
    (1_000_000 * (n * sum_of_squares(samples) - sum(samples) * sum(samples))) / (n * n)
}

/// Whether `root` is the square root of `value`, rounded toward zero.
pub open spec fn is_floor_sqrt(root: int, value: int) -> bool {
    0 <= root && root * root <= value < (root + 1) * (root + 1)
}

/// Whether the sample at `index` deviates from the mean of all samples by
/// at most `tolerance`. Both sides are scaled by the number of samples, so
/// that the mean need not be rounded.
pub open spec fn deviates_within(samples: Seq<u64>, index: int, tolerance: int) -> bool {
    let n = samples.len() as int;
    let scaled = n * samples[index] - sum(samples);
    -(tolerance * n) <= scaled <= tolerance * n
}

/// How many of the first `upto` samples deviate from the mean of all
/// samples by at most `tolerance`.
pub open spec fn count_within(samples: Seq<u64>, upto: int, tolerance: int) -> int
    decreases upto,
{
    if upto <= 0 {
        0
    } else if deviates_within(samples, upto - 1, tolerance) {
        count_within(samples, upto - 1, tolerance) + 1
    } else {
        count_within(samples, upto - 1, tolerance)
    }
}

/// Repeat-interval statistics of one key.
#[derive(Clone, Copy, Debug, PartialEq, Eq, Structural)]
pub struct KeyIntervalStats {
    /// Number of press-to-press samples.
    pub sample_count: usize,
    /// Sum of the samples, in microseconds.
    pub total_us: u128,
    /// Arithmetic mean, in whole microseconds.
    pub mean_us: u64,
    pub min_us: u64,
    pub max_us: u64,
    /// Population standard deviation, in whole microseconds. It is absent
    /// where the number of samples times their range (the largest less the
    /// smallest) exceeds 64 bits. One key has at most 65,535 samples in a
    /// snapshot of the ring buffer, so this takes two gaps between presses
    /// that differ by nearly nine years.
    pub std_dev_us: Option<u64>,
    /// Population standard deviation, in whole nanoseconds. It is absent
    /// where the number of samples times their range times 1000 exceeds 64
    /// bits: with 65,535 samples, where two gaps between presses differ by
    /// more than three days; with 100 samples, by more than five years.
    pub std_dev_ns: Option<u64>,
    /// Repeat frequency, in thousandths of a hertz; absent where every
    /// sample is zero.
    pub frequency_millihertz: Option<u128>,
    /// Number of samples within the narrow tolerance of the mean.
    pub within_1ms: usize,
    /// Number of samples within the wide tolerance of the mean.
    pub within_2ms: usize,
    /// Share of samples within the narrow tolerance, in hundredths of a percent.
    pub pct_within_1ms_bp: u32,
    /// Share of samples within the wide tolerance, in hundredths of a percent.
    pub pct_within_2ms_bp: u32,
}

/// Whether `stats` are the statistics of `samples`.
pub open spec fn describes(stats: KeyIntervalStats, samples: Seq<u64>) -> bool {
    let n = samples.len() as int;
    let total = sum(samples);
    &&& stats.sample_count == n
    &&& stats.total_us == total
    &&& stats.mean_us == total / n
    &&& samples.contains(stats.min_us)
    &&& samples.contains(stats.max_us)
    &&& forall|i: int| 0 <= i < n ==> stats.min_us <= #[trigger] samples[i] <= stats.max_us
    &&& stats.std_dev_us is Some <==> n * (stats.max_us - stats.min_us) <= u64::MAX
    &&& stats.std_dev_us is Some ==> is_floor_sqrt(
        stats.std_dev_us->0 as int,
        variance_floor(samples),
    )
    &&& stats.std_dev_ns is Some <==> n * (stats.max_us - stats.min_us) * 1000 <= u64::MAX
    &&& stats.std_dev_ns is Some ==> is_floor_sqrt(
        stats.std_dev_ns->0 as int,
        variance_ns_floor(samples),
    )
    &&& stats.frequency_millihertz is Some <==> total > 0
    &&& stats.frequency_millihertz is Some ==> stats.frequency_millihertz->0 == (1_000_000_000
        * n) / total
    &&& stats.within_1ms == count_within(samples, n, 1000)
    &&& stats.within_2ms == count_within(samples, n, 2000)
    &&& stats.pct_within_1ms_bp == (stats.within_1ms * 10_000) / n
    &&& stats.pct_within_2ms_bp == (stats.within_2ms * 10_000) / n
}

/// The square root of `value`, rounded toward zero.
pub fn floor_sqrt(value: u128) -> (root: u64)
    ensures
        is_floor_sqrt(root as int, value as int),
{
    let mut low: u128 = 0;
    let mut high: u128 = 0x1_0000_0000_0000_0000;
    assert(value < 0x1_0000_0000_0000_0000int * 0x1_0000_0000_0000_0000int);
    while high - low > 1
        invariant
            low < high <= 0x1_0000_0000_0000_0000,
            low * low <= value < high * high,
        decreases high - low,
    {
        let middle: u128 = low + (high - low) / 2;
        assert(middle * middle <= 0xFFFF_FFFF_FFFF_FFFF * 0xFFFF_FFFF_FFFF_FFFF)
            by (nonlinear_arith)
            requires
                0 <= middle <= 0xFFFF_FFFF_FFFF_FFFF,
        ;
        if middle * middle <= value {
            low = middle;
        } else {
            high = middle;
        }
    }
    low as u64
}

/// The sum of the squares of the distances of the samples from `center`.
spec fn squared_deviations(samples: Seq<u64>, center: int) -> int
    decreases samples.len(),
{
    if samples.len() == 0 {
        0
    } else {
        squared_deviations(samples.drop_last(), center) + (samples.last() - center) * (
        samples.last() - center)
    }
}

/// The sum of samples between two bounds lies between the bounds times the
/// number of samples.
proof fn lemma_sum_bounds(samples: Seq<u64>, low: int, high: int)
    requires
        forall|i: int| 0 <= i < samples.len() ==> low <= #[trigger] samples[i] <= high,
    ensures
        samples.len() * low <= sum(samples) <= samples.len() * high,
    decreases samples.len(),
{
    if samples.len() > 0 {
        let rest = samples.drop_last();
        let n = rest.len() as int;
        lemma_sum_bounds(rest, low, high);
        assert(low <= samples[samples.len() - 1] <= high);
        assert((n + 1) * low == n * low + low) by (nonlinear_arith);
        assert((n + 1) * high == n * high + high) by (nonlinear_arith);
    } else {
        assert(0 * low == 0 && 0 * high == 0);
    }
}

/// Moving the centre does not change the variance: the squared distances
/// from `center` are the squares less twice `center` times the sum, plus
/// `center` squared for each sample. They are no less than the distance of
/// the sum from `center` times the number of samples.
proof fn lemma_squared_deviations(samples: Seq<u64>, center: int)
    ensures
        squared_deviations(samples, center) == sum_of_squares(samples) - 2 * center * sum(samples)
            + samples.len() * center * center,
        squared_deviations(samples, center) >= sum(samples) - samples.len() * center,
        squared_deviations(samples, center) >= samples.len() * center - sum(samples),
    decreases samples.len(),
{
    if samples.len() > 0 {
        let rest = samples.drop_last();
        let n = rest.len() as int;
        let x = samples.last() as int;
        let q = sum_of_squares(rest);
        let s = sum(rest);
        let d = squared_deviations(rest, center);
        lemma_squared_deviations(rest, center);
        assert(d + (x - center) * (x - center) == (q + x * x) - 2 * center * (s + x) + (n + 1)
            * center * center) by (nonlinear_arith)
            requires
                d == q - 2 * center * s + n * center * center,
        ;
        assert((x - center) * (x - center) >= x - center && (x - center) * (x - center) >= center
            - x) by (nonlinear_arith);
        assert((n + 1) * center == n * center + center) by (nonlinear_arith);
    } else {
        assert(0 * center * center == 0) by (nonlinear_arith);
        assert(0 * center == 0);
    }
}

/// The population standard deviation in microseconds and in nanoseconds,
/// each where the arithmetic fits.
fn spread(samples: &Vec<u64>, total: u128, mean_us: u64, min_us: u64, max_us: u64) -> (std_dev: (
    Option<u64>,
    Option<u64>,
))
    requires
        samples@.len() > 0,
        total == sum(samples@),
        mean_us == total / (samples@.len() as u128),
        min_us <= mean_us <= max_us,
        forall|i: int| 0 <= i < samples@.len() ==> min_us <= #[trigger] samples@[i] <= max_us,
    ensures
        std_dev.0 is Some <==> samples@.len() * (max_us - min_us) <= u64::MAX,
        std_dev.0 is Some ==> is_floor_sqrt(std_dev.0->0 as int, variance_floor(samples@)),
        std_dev.1 is Some <==> samples@.len() * (max_us - min_us) * 1000 <= u64::MAX,
        std_dev.1 is Some ==> is_floor_sqrt(std_dev.1->0 as int, variance_ns_floor(samples@)),
{
    let count: usize = samples.len();
    let n: u128 = count as u128;
    let range: u64 = max_us - min_us;
    assert(0 <= n * range <= 0xFFFF_FFFF_FFFF_FFFF * 0xFFFF_FFFF_FFFF_FFFF) by (nonlinear_arith)
        requires
            0 <= n <= 0xFFFF_FFFF_FFFF_FFFF,
            0 <= range <= 0xFFFF_FFFF_FFFF_FFFF,
    ;
    let reach: u128 = n * (range as u128);
    if reach > u64::MAX as u128 {
        return (None, None);
    }
    let ghost center: int = mean_us as int;
    let ghost cap: int = range * range;
    assert(n * cap == reach * range) by (nonlinear_arith)
        requires
            cap == range * range,
            reach == n * range,
    ;
    assert(0 <= reach * range <= 0xFFFF_FFFF_FFFF_FFFF * 0xFFFF_FFFF_FFFF_FFFF)
        by (nonlinear_arith)
        requires
            0 <= reach <= 0xFFFF_FFFF_FFFF_FFFF,
            0 <= range <= 0xFFFF_FFFF_FFFF_FFFF,
    ;
    let mut squares: u128 = 0;
    let mut index: usize = 0;
    assert(samples@.take(0) =~= Seq::<u64>::empty());
    while index < count
        invariant
            count == samples@.len(),
            n == count,
            index <= count,
            center == mean_us,
            range == max_us - min_us,
            cap == range * range,
            min_us <= mean_us <= max_us,
            forall|i: int| 0 <= i < samples@.len() ==> min_us <= #[trigger] samples@[i] <= max_us,
            0 <= n * cap <= 0xFFFF_FFFF_FFFF_FFFF * 0xFFFF_FFFF_FFFF_FFFF,
            squares == squared_deviations(samples@.take(index as int), center),
            squares <= index * cap,
        decreases count - index,
    {
        let sample: u64 = samples[index];
        let deviation: u64 = if sample >= mean_us {
            sample - mean_us
        } else {
            mean_us - sample
        };
        proof {
            assert(samples@.take(index + 1).drop_last() =~= samples@.take(index as int));
            assert(min_us <= samples@[index as int] <= max_us);
            assert(deviation * deviation == (sample - center) * (sample - center))
                by (nonlinear_arith)
                requires
                    deviation == sample - center || deviation == center - sample,
            ;
            assert(0 <= deviation * deviation <= cap) by (nonlinear_arith)
                requires
                    0 <= deviation <= range,
                    cap == range * range,
            ;
            assert((index + 1) * cap <= n * cap) by (nonlinear_arith)
                requires
                    index + 1 <= n,
                    0 <= cap,
            ;
            assert((index + 1) * cap == index * cap + cap) by (nonlinear_arith);
        }
        let square: u128 = (deviation as u128) * (deviation as u128);
        squares = squares + square;
        index = index + 1;
    }
    assert(samples@.take(count as int) =~= samples@);
    proof {
        lemma_squared_deviations(samples@, center);
        assert(n * mean_us <= total && total - n * mean_us < n) by (nonlinear_arith)
            requires
                n > 0,
                total >= 0,
                mean_us == total / n,
        ;
    }
    let remainder: u128 = total - n * (mean_us as u128);
    proof {
        assert(remainder * remainder <= n * remainder) by (nonlinear_arith)
            requires
                0 <= remainder < n,
        ;
        assert(n * remainder <= n * squares) by (nonlinear_arith)
            requires
                0 <= remainder <= squares,
                0 <= n,
        ;
        assert(n * squares <= n * (n * cap)) by (nonlinear_arith)
            requires
                0 <= squares <= n * cap,
                0 <= n,
        ;
        assert(n * (n * cap) == reach * reach) by (nonlinear_arith)
            requires
                cap == range * range,
                reach == n * range,
        ;
        assert(0 <= reach * reach <= 0xFFFF_FFFF_FFFF_FFFF * 0xFFFF_FFFF_FFFF_FFFF)
            by (nonlinear_arith)
            requires
                0 <= reach <= 0xFFFF_FFFF_FFFF_FFFF,
        ;
        assert(0 < n * n <= 0xFFFF_FFFF_FFFF_FFFF * 0xFFFF_FFFF_FFFF_FFFF) by (nonlinear_arith)
            requires
                0 < n <= 0xFFFF_FFFF_FFFF_FFFF,
        ;
    }
    let numerator: u128 = n * squares - remainder * remainder;
    let variance: u128 = numerator / (n * n);
    proof {
        let q = sum_of_squares(samples@);
        let s = sum(samples@);
        assert(n * squares - remainder * remainder == n * q - s * s) by (nonlinear_arith)
            requires
                squares == q - 2 * center * s + n * center * center,
                remainder == s - n * center,
        ;
        assert(variance == variance_floor(samples@));
    }
    let std_dev_us = Some(floor_sqrt(variance));
    if reach > (u64::MAX / 1000) as u128 {
        return (std_dev_us, None);
    }
    proof {
        let scaled = reach * 1000;
        assert(numerator * 1_000_000 <= scaled * scaled) by (nonlinear_arith)
            requires
                0 <= numerator <= reach * reach,
                scaled == reach * 1000,
        ;
        assert(0 <= scaled * scaled <= 0xFFFF_FFFF_FFFF_FFFF * 0xFFFF_FFFF_FFFF_FFFF)
            by (nonlinear_arith)
            requires
                0 <= scaled <= 0xFFFF_FFFF_FFFF_FFFF,
        ;
    }
    let variance_ns: u128 = (numerator * 1_000_000) / (n * n);
    assert(variance_ns == variance_ns_floor(samples@));
    (std_dev_us, Some(floor_sqrt(variance_ns)))
}

/// Counts the samples that deviate from the mean by at most `tolerance`.
fn count_samples_within(samples: &Vec<u64>, total: u128, tolerance: u64) -> (within: usize)
    requires
        total == sum(samples@),
    ensures
        within == count_within(samples@, samples@.len() as int, tolerance as int),
        within <= samples@.len(),
{
    let count: usize = samples.len();
    let n: u128 = count as u128;
    assert(0 <= tolerance * n <= 0xFFFF_FFFF_FFFF_FFFF * 0xFFFF_FFFF_FFFF_FFFF)
        by (nonlinear_arith)
        requires
            0 <= n <= 0xFFFF_FFFF_FFFF_FFFF,
            0 <= tolerance <= 0xFFFF_FFFF_FFFF_FFFF,
    ;
    let bound: u128 = (tolerance as u128) * n;
    let mut within: usize = 0;
    let mut index: usize = 0;
    while index < count
        invariant
            count == samples@.len(),
            n == count,
            total == sum(samples@),
            bound == tolerance * n,
            index <= count,
            within <= index,
            within == count_within(samples@, index as int, tolerance as int),
        decreases count - index,
    {
        let sample: u64 = samples[index];
        assert(0 <= n * sample <= 0xFFFF_FFFF_FFFF_FFFF * 0xFFFF_FFFF_FFFF_FFFF)
            by (nonlinear_arith)
            requires
                0 <= n <= 0xFFFF_FFFF_FFFF_FFFF,
                0 <= sample <= 0xFFFF_FFFF_FFFF_FFFF,
        ;
        let scaled: u128 = n * (sample as u128);
        let deviation: u128 = if scaled >= total {
            scaled - total
        } else {
            total - scaled
        };
        if deviation <= bound {
            within = within + 1;
        }
        index = index + 1;
    }
    within
}

/// The share `part` of `whole`, in hundredths of a percent.
fn basis_points(part: usize, whole: usize) -> (share: u32)
    requires
        part <= whole,
        whole > 0,
    ensures
        share == (part * 10_000) / (whole as int),
{
    let scaled: u128 = (part as u128) * 10_000;
    let share: u128 = scaled / (whole as u128);
    assert(share <= 10_000) by (nonlinear_arith)
        requires
            share == scaled / (whole as u128),
            scaled == part * 10_000,
            0 <= part <= whole,
            whole > 0,
    ;
    share as u32
}

/// The statistics of one key's samples; none for fewer than `MIN_SAMPLES`.
pub fn interval_stats(samples: &Vec<u64>) -> (stats: Option<KeyIntervalStats>)
    ensures
        stats is Some <==> samples@.len() >= MIN_SAMPLES,
        stats is Some ==> describes(stats->0, samples@),
{
    let count: usize = samples.len();
    if count < MIN_SAMPLES {
        return None;
    }
    let mut total: u128 = 0;
    let mut min_us: u64 = samples[0];
    let mut max_us: u64 = samples[0];
    let ghost mut min_at: int = 0;
    let ghost mut max_at: int = 0;
    let mut index: usize = 0;
    assert(samples@.take(0) =~= Seq::<u64>::empty());
    while index < count
        invariant
            count == samples@.len(),
            count > 0,
            index <= count,
            total == sum(samples@.take(index as int)),
            total <= index * u64::MAX,
            0 <= min_at < count,
            0 <= max_at < count,
            samples@[min_at] == min_us,
            samples@[max_at] == max_us,
            forall|k: int| 0 <= k < index ==> min_us <= #[trigger] samples@[k] <= max_us,
        decreases count - index,
    {
        let sample: u64 = samples[index];
        proof {
            assert(samples@.take(index + 1).drop_last() =~= samples@.take(index as int));
        }
        total = total + sample as u128;
        if sample < min_us {
            min_us = sample;
            proof {
                min_at = index as int;
            }
        }
        if sample > max_us {
            max_us = sample;
            proof {
                max_at = index as int;
            }
        }
        index = index + 1;
    }
    assert(samples@.take(count as int) =~= samples@);
    let n: u128 = count as u128;
    proof {
        lemma_sum_bounds(samples@, min_us as int, max_us as int);
        assert(min_us <= total / n <= max_us) by (nonlinear_arith)
            requires
                n > 0,
                n * min_us <= total <= n * max_us,
        ;
    }
    let mean_us: u64 = (total / n) as u64;
    let (std_dev_us, std_dev_ns) = spread(samples, total, mean_us, min_us, max_us);
    let frequency_millihertz: Option<u128> = if total == 0 {
        None
    } else {
        Some((1_000_000_000u128 * n) / total)
    };
    let within_1ms = count_samples_within(samples, total, TOLERANCE_NARROW_US);
    let within_2ms = count_samples_within(samples, total, TOLERANCE_WIDE_US);
    let stats = KeyIntervalStats {
        sample_count: count,
        total_us: total,
        mean_us,
        min_us,
        max_us,
        std_dev_us,
        std_dev_ns,
        frequency_millihertz,
        within_1ms,
        within_2ms,
        pct_within_1ms_bp: basis_points(within_1ms, count),
        pct_within_2ms_bp: basis_points(within_2ms, count),
    };
    proof {
        assert(samples@[min_at] == min_us);
        assert(samples@[max_at] == max_us);
    }
    Some(stats)
}

/// The sums of samples that are all alike.
proof fn lemma_uniform_sums(samples: Seq<u64>, value: u64)
    requires
        forall|i: int| 0 <= i < samples.len() ==> #[trigger] samples[i] == value,
    ensures
        sum(samples) == samples.len() * value,
        sum_of_squares(samples) == samples.len() * (value * value),
    decreases samples.len(),
{
    if samples.len() > 0 {
        let rest = samples.drop_last();
        let n = rest.len() as int;
        lemma_uniform_sums(rest, value);
        assert(samples[samples.len() - 1] == value);
        assert((n + 1) * value == n * value + value) by (nonlinear_arith);
        assert((n + 1) * (value * value) == n * (value * value) + value * value)
            by (nonlinear_arith);
    } else {
        assert(0 * value == 0);
        assert(0 * (value * value) == 0);
    }
}

/// Samples that are all alike lie within every tolerance of their mean.
proof fn lemma_uniform_within(samples: Seq<u64>, value: u64, upto: int, tolerance: int)
    requires
        forall|i: int| 0 <= i < samples.len() ==> #[trigger] samples[i] == value,
        0 <= upto <= samples.len(),
        0 <= tolerance,
    ensures
        count_within(samples, upto, tolerance) == upto,
    decreases upto,
{
    if upto > 0 {
        lemma_uniform_sums(samples, value);
        lemma_uniform_within(samples, value, upto - 1, tolerance);
        let n = samples.len() as int;
        assert(samples[upto - 1] == value);
        assert(0 <= tolerance * n) by (nonlinear_arith)
            requires
                0 <= tolerance,
                0 <= n,
        ;
        assert(deviates_within(samples, upto - 1, tolerance));
    }
}

/// Samples that are all alike have their value as mean, minimum and
/// maximum and no spread, and all of them lie within both tolerances:
/// five intervals of 100 microseconds have a mean of 100, a standard
/// deviation of 0, and 100 percent within a millisecond.
pub proof fn lemma_uniform_samples(stats: KeyIntervalStats, samples: Seq<u64>, value: u64)
    requires
        samples.len() > 0,
        forall|i: int| 0 <= i < samples.len() ==> #[trigger] samples[i] == value,
        describes(stats, samples),
    ensures
        stats.mean_us == value,
        stats.min_us == value,
        stats.max_us == value,
        stats.std_dev_us == Some(0u64),
        stats.std_dev_ns == Some(0u64),
        stats.within_1ms == samples.len(),
        stats.within_2ms == samples.len(),
        stats.pct_within_1ms_bp == 10_000,
        stats.pct_within_2ms_bp == 10_000,
{
    let n = samples.len() as int;
    let v = value as int;
    lemma_uniform_sums(samples, value);
    lemma_uniform_within(samples, value, n, 1000);
    lemma_uniform_within(samples, value, n, 2000);
    assert(samples[0] == value);
    assert((n * v) / n == v) by (nonlinear_arith)
        requires
            n > 0,
    ;
    assert((n * 10_000) / n == 10_000) by (nonlinear_arith)
        requires
            n > 0,
    ;
    assert(n * (n * (v * v)) - (n * v) * (n * v) == 0) by (nonlinear_arith);
    assert(0int / (n * n) == 0) by (nonlinear_arith)
        requires
            n > 0,
    ;
    assert(variance_floor(samples) == 0);
    assert(variance_ns_floor(samples) == 0);
    assert(n * (stats.max_us - stats.min_us) == 0) by (nonlinear_arith)
        requires
            stats.max_us - stats.min_us == 0,
    ;
    let root = stats.std_dev_us->0 as int;
    assert(root == 0) by (nonlinear_arith)
        requires
            0 <= root,
            root * root <= 0,
    ;
    let root_ns = stats.std_dev_ns->0 as int;
    assert(root_ns == 0) by (nonlinear_arith)
        requires
            0 <= root_ns,
            root_ns * root_ns <= 0,
    ;
}

} // verus!
