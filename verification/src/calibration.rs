//! Cycle clock calibrator: converts raw cycle-counter ticks to microseconds.
//!
//! The rate of the cycle counter is kept exactly, as a fraction. A
//! conversion is rounded once, toward zero, at its end.

use vstd::arithmetic::div_mod::lemma_div_multiples_vanish_quotient;
use vstd::prelude::*;

verus! {

/// Microseconds in one second.
pub const MICROS_PER_SECOND: u64 = 1_000_000;

/// The most counts of the trusted timer that a sampling window may span:
/// its microseconds must fit in 64 bits.
pub const MAX_TRUSTED_DELTA: u64 = 18_446_744_073_709;

/// A rate in ticks per second, as the fraction `numerator / denominator`.
pub struct Rate {
    pub numerator: int,
    pub denominator: int,
}

impl Rate {
    /// Whether the rate is a positive number.
    pub open spec fn is_positive(self) -> bool {
        self.numerator > 0 && self.denominator > 0
    }
}

/// Ticks of the cycle counter per second, from the ticks and the trusted
/// timer's counts over one sampling window and the trusted timer's
/// frequency: `tick_delta * trusted_frequency / trusted_delta`, unrounded.
pub open spec fn rate_of(tick_delta: int, trusted_delta: int, trusted_frequency: int) -> Rate {
    Rate { numerator: tick_delta * trusted_frequency, denominator: trusted_delta }
}

/// A whole number of ticks per second.
pub open spec fn whole_rate_of(ticks_per_second: int) -> Rate {
    Rate { numerator: ticks_per_second, denominator: 1 }
}

/// Whole microseconds that `ticks` last at `rate`: `ticks * 1_000_000 /
/// rate`, rounded toward zero and capped at `u64::MAX`.
pub open spec fn micros_of(ticks: int, rate: Rate) -> int {
    let exact = (ticks * 1_000_000 * rate.denominator) / rate.numerator;
    if exact > u64::MAX {
        u64::MAX as int
    } else {
        exact
    }
}

/// Why a calibration was refused.
#[derive(Clone, Copy, Debug, PartialEq, Eq, Structural)]
pub enum CalibrationError {
    /// The trusted timer reported no usable frequency.
    TimerUnavailable,
    /// The trusted timer did not advance over the sampling window.
    ZeroDelta,
    /// The trusted timer advanced by more than `MAX_TRUSTED_DELTA` counts.
    WindowTooLong,
    /// The cycle counter read lower at the end of the window than at its start.
    CounterWentBackwards,
    /// The cycle counter did not advance: no tick lasts any time.
    ZeroTicks,
}

/// A tick-to-microsecond conversion factor: a positive rate.
#[derive(Clone, Copy, Debug)]
pub struct Calibration {
    /// Ticks over the sampling window times the trusted timer's frequency.
    scaled_ticks: u128,
    /// Counts of the trusted timer over the sampling window.
    trusted_delta: u64,
}

impl View for Calibration {
    type V = Rate;

    /// The calibrated rate.
    closed spec fn view(&self) -> Rate {
        Rate { numerator: self.scaled_ticks as int, denominator: self.trusted_delta as int }
    }
}

impl Calibration {
    #[verifier::type_invariant]
    spec fn usable(self) -> bool {
        &&& self.scaled_ticks > 0
        &&& 0 < self.trusted_delta <= MAX_TRUSTED_DELTA
    }

    /// The numerator of the calibrated rate.
    pub fn rate_numerator(&self) -> (numerator: u128)
        ensures
            numerator == self@.numerator,
            self@.is_positive(),
    {
        proof {
            use_type_invariant(self);
        }
        self.scaled_ticks
    }

    /// The denominator of the calibrated rate.
    pub fn rate_denominator(&self) -> (denominator: u64)
        ensures
            denominator == self@.denominator,
            self@.is_positive(),
    {
        proof {
            use_type_invariant(self);
        }
        self.trusted_delta
    }

    /// The calibrated rate in ticks per second, where it is a whole number.
    pub fn whole_rate(&self) -> (whole: Option<u128>)
        ensures
            whole is Some <==> self@.numerator % self@.denominator == 0,
            whole is Some ==> whole->0 * self@.denominator == self@.numerator,
    {
        proof {
            use_type_invariant(self);
        }
        let denominator: u128 = self.trusted_delta as u128;
        if self.scaled_ticks % denominator == 0 {
            let whole: u128 = self.scaled_ticks / denominator;
            assert(whole * denominator == self.scaled_ticks) by (nonlinear_arith)
                requires
                    denominator > 0,
                    self.scaled_ticks % denominator == 0,
                    whole == self.scaled_ticks / denominator,
            ;
            Some(whole)
        } else {
            None
        }
    }

    /// A calibration with a known whole rate; there is none for a rate of zero.
    pub fn from_ticks_per_second(ticks_per_second: u64) -> (cal: Option<Calibration>)
        ensures
            cal is Some <==> ticks_per_second > 0,
            cal is Some ==> cal->0@ == whole_rate_of(ticks_per_second as int),
    {
        if ticks_per_second == 0 {
            None
        } else {
            Some(Calibration { scaled_ticks: ticks_per_second as u128, trusted_delta: 1 })
        }
    }

    /// The calibration for one sampling window in which the cycle counter
    /// advanced by `tick_delta` while the trusted timer, which counts
    /// `trusted_frequency` times per second, advanced by `trusted_delta`.
    pub fn from_deltas(tick_delta: u64, trusted_delta: u64, trusted_frequency: u64) -> (res: Result<
        Calibration,
        CalibrationError,
    >)
        ensures
            res is Ok <==> trusted_frequency > 0 && 0 < trusted_delta <= MAX_TRUSTED_DELTA
                && tick_delta > 0,
            res is Ok ==> res->Ok_0@ == rate_of(
                tick_delta as int,
                trusted_delta as int,
                trusted_frequency as int,
            ),
            res == Err::<Calibration, CalibrationError>(CalibrationError::TimerUnavailable)
                <==> trusted_frequency == 0,
            res == Err::<Calibration, CalibrationError>(CalibrationError::ZeroDelta)
                <==> trusted_frequency > 0 && trusted_delta == 0,
            res == Err::<Calibration, CalibrationError>(CalibrationError::WindowTooLong)
                <==> trusted_frequency > 0 && trusted_delta > MAX_TRUSTED_DELTA,
            res == Err::<Calibration, CalibrationError>(CalibrationError::ZeroTicks)
                <==> trusted_frequency > 0 && 0 < trusted_delta <= MAX_TRUSTED_DELTA && tick_delta
                == 0,
    {
        if trusted_frequency == 0 {
            return Err(CalibrationError::TimerUnavailable);
        }
        if trusted_delta == 0 {
            return Err(CalibrationError::ZeroDelta);
        }
        if trusted_delta > MAX_TRUSTED_DELTA {
            return Err(CalibrationError::WindowTooLong);
        }
        if tick_delta == 0 {
            return Err(CalibrationError::ZeroTicks);
        }
        assert(0 < tick_delta * trusted_frequency <= u64::MAX * u64::MAX) by (nonlinear_arith)
            requires
                0 < tick_delta <= u64::MAX,
                0 < trusted_frequency <= u64::MAX,
        ;
        let scaled_ticks: u128 = (tick_delta as u128) * (trusted_frequency as u128);
        Ok(Calibration { scaled_ticks, trusted_delta })
    }

    /// The calibration from the two clocks read together at the start and at
    /// the end of one sampling window.
    pub fn from_readings(
        tick_start: u64,
        tick_end: u64,
        trusted_start: i64,
        trusted_end: i64,
        trusted_frequency: i64,
    ) -> (res: Result<Calibration, CalibrationError>)
        ensures
            res is Ok <==> trusted_frequency > 0 && 0 < trusted_end - trusted_start
                <= MAX_TRUSTED_DELTA && tick_start < tick_end,
            res is Ok ==> res->Ok_0@ == rate_of(
                tick_end - tick_start,
                trusted_end - trusted_start,
                trusted_frequency as int,
            ),
            res == Err::<Calibration, CalibrationError>(CalibrationError::TimerUnavailable)
                <==> trusted_frequency <= 0,
            res == Err::<Calibration, CalibrationError>(CalibrationError::ZeroDelta)
                <==> trusted_frequency > 0 && trusted_end <= trusted_start,
            res == Err::<Calibration, CalibrationError>(CalibrationError::WindowTooLong)
                <==> trusted_frequency > 0 && trusted_end - trusted_start > MAX_TRUSTED_DELTA,
            res == Err::<Calibration, CalibrationError>(CalibrationError::CounterWentBackwards)
                <==> trusted_frequency > 0 && 0 < trusted_end - trusted_start
                <= MAX_TRUSTED_DELTA && tick_end < tick_start,
            res == Err::<Calibration, CalibrationError>(CalibrationError::ZeroTicks)
                <==> trusted_frequency > 0 && 0 < trusted_end - trusted_start
                <= MAX_TRUSTED_DELTA && tick_end == tick_start,
    {
        if trusted_frequency <= 0 {
            return Err(CalibrationError::TimerUnavailable);
        }
        if trusted_end <= trusted_start {
            return Err(CalibrationError::ZeroDelta);
        }
        let trusted_delta: u64 = ((trusted_end as i128) - (trusted_start as i128)) as u64;
        if trusted_delta > MAX_TRUSTED_DELTA {
            return Err(CalibrationError::WindowTooLong);
        }
        if tick_end < tick_start {
            return Err(CalibrationError::CounterWentBackwards);
        }
        Calibration::from_deltas(tick_end - tick_start, trusted_delta, trusted_frequency as u64)
    }

    /// Converts a span of raw ticks to whole microseconds, rounding toward
    /// zero; a span too long for 64 bits of microseconds gives `u64::MAX`.
    pub fn ticks_to_micros(&self, ticks: u64) -> (micros: u64)
        ensures
            micros == micros_of(ticks as int, self@),
    {
        proof {
            use_type_invariant(self);
        }
        let per_tick: u64 = MICROS_PER_SECOND * self.trusted_delta;
        assert(ticks * 1_000_000 * self.trusted_delta == ticks * per_tick) by (nonlinear_arith)
            requires
                per_tick == 1_000_000 * self.trusted_delta,
        ;
        assert(0 <= ticks * per_tick <= u64::MAX * u64::MAX) by (nonlinear_arith)
            requires
                0 <= ticks <= u64::MAX,
                0 <= per_tick <= u64::MAX,
        ;
        let scaled: u128 = (ticks as u128) * (per_tick as u128);
        let exact: u128 = scaled / self.scaled_ticks;
        if exact > u64::MAX as u128 {
            u64::MAX
        } else {
            exact as u64
        }
    }
}

/// A rate that is a whole number of ticks per second converts as that
/// number does.
pub proof fn lemma_whole_rate(ticks: int, rate: Rate, ticks_per_second: int)
    requires
        0 <= ticks,
        rate.denominator > 0,
        ticks_per_second > 0,
        rate.numerator == ticks_per_second * rate.denominator,
    ensures
        micros_of(ticks, rate) == micros_of(ticks, whole_rate_of(ticks_per_second)),
        micros_of(ticks, whole_rate_of(ticks_per_second)) == micros_of(
            ticks,
            Rate { numerator: ticks_per_second, denominator: 1 },
        ),
{
    let d = rate.denominator;
    let a = ticks * 1_000_000;
    lemma_div_multiples_vanish_quotient(d, a, ticks_per_second);
    assert(ticks * 1_000_000 * d == d * a) by (nonlinear_arith)
        requires
            a == ticks * 1_000_000,
    ;
    assert(ticks_per_second * d == d * ticks_per_second) by (nonlinear_arith);
    assert(ticks * 1_000_000 * 1 == a);
}

/// A counter that advances a whole number of times for each count of the
/// trusted timer runs at that multiple of the trusted frequency: twice the
/// ticks of a 1000 Hz timer are 2000 ticks per second.
pub proof fn lemma_rate_of_multiple(factor: nat, trusted_delta: nat, trusted_frequency: nat)
    requires
        trusted_delta > 0,
    ensures
        rate_of(
            (factor * trusted_delta) as int,
            trusted_delta as int,
            trusted_frequency as int,
        ).numerator == (factor * trusted_frequency) * trusted_delta,
        rate_of(
            (factor * trusted_delta) as int,
            trusted_delta as int,
            trusted_frequency as int,
        ).denominator == trusted_delta,
        forall|ticks: int|
            0 <= ticks && factor * trusted_frequency > 0 ==> #[trigger] micros_of(
                ticks,
                rate_of(
                    (factor * trusted_delta) as int,
                    trusted_delta as int,
                    trusted_frequency as int,
                ),
            ) == micros_of(ticks, whole_rate_of((factor * trusted_frequency) as int)),
{
    let rate = rate_of(
        (factor * trusted_delta) as int,
        trusted_delta as int,
        trusted_frequency as int,
    );
    let whole = (factor * trusted_frequency) as int;
    assert((factor * trusted_delta) * trusted_frequency == whole * trusted_delta)
        by (nonlinear_arith)
        requires
            whole == factor * trusted_frequency,
    ;
    assert forall|ticks: int| 0 <= ticks && whole > 0 implies #[trigger] micros_of(ticks, rate)
        == micros_of(ticks, whole_rate_of(whole)) by {
        lemma_whole_rate(ticks, rate, whole);
    }
}

/// Longer spans never convert to fewer microseconds.
pub proof fn lemma_micros_monotonic(shorter: int, longer: int, rate: Rate)
    requires
        0 <= shorter <= longer,
        rate.is_positive(),
    ensures
        0 <= micros_of(shorter, rate) <= micros_of(longer, rate),
{
    let a = shorter * 1_000_000 * rate.denominator;
    let b = longer * 1_000_000 * rate.denominator;
    assert(0 <= a <= b) by (nonlinear_arith)
        requires
            0 <= shorter <= longer,
            rate.denominator > 0,
            a == shorter * 1_000_000 * rate.denominator,
            b == longer * 1_000_000 * rate.denominator,
    ;
    assert(0 <= a / rate.numerator <= b / rate.numerator) by (nonlinear_arith)
        requires
            0 <= a <= b,
            rate.numerator > 0,
    ;
}

/// A span of no ticks lasts no time.
pub proof fn lemma_micros_of_zero(rate: Rate)
    requires
        rate.is_positive(),
    ensures
        micros_of(0, rate) == 0,
{
    assert(0 * 1_000_000 * rate.denominator == 0) by (nonlinear_arith);
    assert(0int / rate.numerator == 0) by (nonlinear_arith)
        requires
            rate.numerator > 0,
    ;
}

} // verus!
