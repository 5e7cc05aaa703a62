use vstd::prelude::*;

use crate::cw::shared::CWAlphabet;

verus! {

/// The level of one baseband sample against the detection threshold.
#[derive(Clone, Copy, Debug, PartialEq, Eq, Structural)]
pub enum SignalLevel {
    /// The magnitude is above the threshold: the carrier is present.
    Present,
    /// The magnitude is at or below the threshold: no carrier.
    Absent,
    /// The magnitude compares neither way with the threshold (it is not a number).
    Undefined,
}

/// The level of a sample that has the carrier (`true`) or not (`false`).
pub open spec fn level_of(v: bool) -> SignalLevel {
    if v {
        SignalLevel::Present
    } else {
        SignalLevel::Absent
    }
}

/// Whether a duration of `x` samples lies within `tol` samples of `k` dots of `spd` samples.
pub open spec fn near(x: int, k: int, spd: int, tol: int) -> bool {
    k * spd - tol <= x <= k * spd + tol
}

/// The symbol read when the signal starts after a pause of `x` samples: a word space for
/// about seven dots, a letter space for about three, nothing otherwise.
pub open spec fn rise_symbols(spd: int, tol: int, x: int) -> Seq<CWAlphabet> {
    if near(x, 7, spd, tol) {
        seq![CWAlphabet::WordSpace]
    } else if near(x, 3, spd, tol) {
        seq![CWAlphabet::LetterSpace]
    } else {
        seq![]
    }
}

/// The symbol read when the signal stops after a pulse of `x` samples: a dot for about one
/// dot, a dash for about three, nothing otherwise.
pub open spec fn fall_symbols(spd: int, tol: int, x: int) -> Seq<CWAlphabet> {
    if near(x, 1, spd, tol) {
        seq![CWAlphabet::Dot]
    } else if near(x, 3, spd, tol) {
        seq![CWAlphabet::Dash]
    } else {
        seq![]
    }
}

/// The end of a transmission, as reported by the detector.
pub open spec fn end_symbols() -> Seq<CWAlphabet> {
    seq![CWAlphabet::LetterSpace, CWAlphabet::WordSpace]
}

/// One sample through the detector. `count` is the number of samples since the signal last
/// started or stopped, `before` the level of the previous sample, `ended` whether the end of
/// the transmission was already reported, and `now` the level of this sample. Returns the new
/// count, the new `ended`, and the symbols found.
///
/// The signal starts when a present sample follows an absent one, and stops when an absent
/// sample follows a present one; a start or stop is read by the length of the pause or pulse
/// it ends. After a start, a count that passes seven dots and the tolerance reports the end of
/// the transmission, once, as a letter space and a word space.
pub open spec fn detect_step(spd: int, tol: int, count: int, before: SignalLevel, ended: bool, now: SignalLevel) -> (int, bool, Seq<CWAlphabet>) {
    let rising = now == SignalLevel::Present && before == SignalLevel::Absent;
    let falling = now == SignalLevel::Absent && before == SignalLevel::Present;
    let sym: Seq<CWAlphabet> = if rising {
        rise_symbols(spd, tol, count)
    } else if falling {
        fall_symbols(spd, tol, count)
    } else {
        seq![]
    };
    let c1 = if rising || falling { 0 } else { count };
    let e1 = if rising { false } else { ended };
    let stop = c1 > tol + 7 * spd && !e1;
    let emitted = if stop { sym + end_symbols() } else { sym };
    let c2 = (if c1 == usize::MAX { 0 } else { c1 }) + 1;
    (c2, e1 || stop, emitted)
}

/// The samples `input` through the detector, with `room` free output places, stopping after
/// the first sample that leaves two places or fewer. Returns the final count, the level of the
/// last sample taken, the symbols found, and the number of samples taken.
pub open spec fn detect_run(spd: int, tol: int, count: int, before: SignalLevel, ended: bool, input: Seq<SignalLevel>, room: int) -> (int, SignalLevel, Seq<CWAlphabet>, nat)
    decreases input.len(),
{
    if input.len() == 0 {
        (count, before, seq![], 0)
    } else {
        let st = detect_step(spd, tol, count, before, ended, input[0]);
        if st.2.len() >= room - 2 {
            (st.0, input[0], st.2, 1)
        } else {
            let r = detect_run(spd, tol, st.0, input[0], st.1, input.drop_first(), room - st.2.len());
            (r.0, r.1, st.2 + r.2, r.3 + 1)
        }
    }
}

/// One sample gives at most two symbols, and the count stays a positive `usize`.
pub proof fn lemma_step_bounds(spd: int, tol: int, count: int, before: SignalLevel, ended: bool, now: SignalLevel)
    requires
        0 <= count <= usize::MAX,
        0 <= tol,
        0 <= spd,
    ensures
        detect_step(spd, tol, count, before, ended, now).2.len() <= 2,
        1 <= detect_step(spd, tol, count, before, ended, now).0 <= usize::MAX,
{
}

/// A run with at least two free places takes at least one sample of a non-empty input, takes
/// no more than the input holds, and fills no more than the free places.
pub proof fn lemma_run_bounds(spd: int, tol: int, count: int, before: SignalLevel, ended: bool, input: Seq<SignalLevel>, room: int)
    requires
        0 <= count <= usize::MAX,
        0 <= tol,
        0 <= spd,
        room >= 2,
    ensures
        detect_run(spd, tol, count, before, ended, input, room).2.len() <= room,
        detect_run(spd, tol, count, before, ended, input, room).3 <= input.len(),
        input.len() > 0 ==> detect_run(spd, tol, count, before, ended, input, room).3 >= 1,
        0 <= detect_run(spd, tol, count, before, ended, input, room).0 <= usize::MAX,
    decreases input.len(),
{
    if input.len() > 0 {
        let st = detect_step(spd, tol, count, before, ended, input[0]);
        lemma_step_bounds(spd, tol, count, before, ended, input[0]);
        if st.2.len() < room - 2 {
            lemma_run_bounds(spd, tol, st.0, input[0], st.1, input.drop_first(), room - st.2.len());
        }
    }
}

/// While the level stays the same, samples count up, and the end of the transmission is
/// reported once, if not yet reported, when the count passes seven dots and the tolerance.
pub proof fn lemma_steady(spd: int, tol: int, v: bool, c: int, ended: bool, k: nat, rest: Seq<SignalLevel>, room: int)
    requires
        0 <= tol,
        0 <= spd,
        0 <= c,
        c + k < usize::MAX,
        room >= if ended { 3int } else { 5int },
    ensures
        ({
            let fires = k > 0 && !ended && c + k - 1 > tol + 7 * spd;
            let whole = detect_run(spd, tol, c, level_of(v), ended, Seq::new(k, |i: int| level_of(v)) + rest, room);
            let after = detect_run(spd, tol, c + k, level_of(v), ended || fires, rest, room - (if fires { 2int } else { 0int }));
            &&& whole.0 == after.0
            &&& whole.1 == after.1
            &&& whole.2 == (if fires { end_symbols() } else { Seq::<CWAlphabet>::empty() }) + after.2
            &&& whole.3 == after.3 + k
        }),
    decreases k,
{
    let lv = level_of(v);
    let input = Seq::new(k, |i: int| lv) + rest;
    if k == 0 {
        assert(input =~= rest);
        let after = detect_run(spd, tol, c + k, lv, ended, rest, room);
        assert(Seq::<CWAlphabet>::empty() + after.2 =~= after.2);
    } else {
        assert(input[0] == lv);
        let tail = Seq::new((k - 1) as nat, |i: int| lv) + rest;
        assert(input.drop_first() =~= tail);
        let st = detect_step(spd, tol, c, lv, ended, lv);
        let stop = c > tol + 7 * spd && !ended;
        if stop {
            assert(st.2 == end_symbols() && st.1 && st.0 == c + 1);
            lemma_steady(spd, tol, v, c + 1, true, (k - 1) as nat, rest, room - 2);
            let after = detect_run(spd, tol, c + k, lv, true, rest, room - 2);
            let mid = detect_run(spd, tol, c + 1, lv, true, tail, room - 2);
            assert(mid.2 == Seq::<CWAlphabet>::empty() + after.2);
            assert(Seq::<CWAlphabet>::empty() + after.2 =~= after.2);
        } else {
            assert(st.2 =~= Seq::<CWAlphabet>::empty() && st.1 == ended && st.0 == c + 1);
            lemma_steady(spd, tol, v, c + 1, ended, (k - 1) as nat, rest, room);
            let fires = !ended && c + k - 1 > tol + 7 * spd;
            let after = detect_run(spd, tol, c + k, lv, ended || fires, rest, room - (if fires { 2int } else { 0int }));
            let mid = detect_run(spd, tol, c + 1, lv, ended, tail, room);
            assert(Seq::<CWAlphabet>::empty() + mid.2 =~= mid.2);
        }
    }
}

/// A signal made of runs: a run of `lens[0]` samples at the level `first`, then one of
/// `lens[1]` samples at the other level, and so on, alternating.
pub open spec fn runs_signal(first: bool, lens: Seq<nat>) -> Seq<SignalLevel>
    decreases lens.len(),
{
    if lens.len() == 0 {
        seq![]
    } else {
        Seq::new(lens[0], |i: int| level_of(first)) + runs_signal(!first, lens.drop_first())
    }
}

/// The symbols read from a signal of runs, given the length `c` of the run before the first
/// one and whether the end of the transmission was already reported. Each run begins with a
/// change of level, read by the length of the run it ends (a start of the carrier by the pause
/// before it, a stop by the pulse before it). Then, where the end was not reported since the
/// last start, a run longer than seven dots, the tolerance and one sample reports it.
pub open spec fn runs_symbols(spd: int, tol: int, first: bool, c: int, ended: bool, lens: Seq<nat>) -> Seq<CWAlphabet>
    decreases lens.len(),
{
    if lens.len() == 0 {
        seq![]
    } else {
        let e1 = if first { false } else { ended };
        let fires = !e1 && lens[0] > tol + 7 * spd + 1;
        let edge = if first { rise_symbols(spd, tol, c) } else { fall_symbols(spd, tol, c) };
        edge + ((if fires { end_symbols() } else { Seq::<CWAlphabet>::empty() }) + runs_symbols(spd, tol, !first, lens[0] as int, e1 || fires, lens.drop_first()))
    }
}

/// Run-length reading: a signal of runs, each at least one sample long, that begins with a
/// change of level, is read with room enough as `runs_symbols` says, all of it taken. So each
/// start or stop of the carrier gives the symbol for the length of the run it ends, in sample
/// order, with the end of the transmission reported once after a start, during a run (pause or
/// carrier) that outlasts seven dots and the tolerance.
pub proof fn lemma_runs(spd: int, tol: int, first: bool, c: int, ended: bool, lens: Seq<nat>, room: int)
    requires
        0 <= tol,
        0 <= spd,
        0 <= c <= usize::MAX,
        forall|k: int| 0 <= k < lens.len() ==> 1 <= #[trigger] lens[k] && lens[k] + 1 < usize::MAX,
        room >= 3 * lens.len() + 5,
    ensures
        detect_run(spd, tol, c, level_of(!first), ended, runs_signal(first, lens), room).2
            == runs_symbols(spd, tol, first, c, ended, lens),
        detect_run(spd, tol, c, level_of(!first), ended, runs_signal(first, lens), room).3
            == runs_signal(first, lens).len(),
    decreases lens.len(),
{
    if lens.len() > 0 {
        let len0 = lens[0];
        let rest = lens.drop_first();
        assert forall|k: int| 0 <= k < rest.len() implies 1 <= #[trigger] rest[k] && rest[k] + 1 < usize::MAX by {
            assert(rest[k] == lens[k + 1]);
        }
        assert(1 <= len0 && len0 + 1 < usize::MAX);
        let lf = level_of(first);
        let r = runs_signal(!first, rest);
        let input = runs_signal(first, lens);
        assert(input == Seq::new(len0, |i: int| lf) + r);
        assert(input[0] == lf);
        let e1 = if first { false } else { ended };
        let edge = if first { rise_symbols(spd, tol, c) } else { fall_symbols(spd, tol, c) };
        let st = detect_step(spd, tol, c, level_of(!first), ended, lf);
        assert(st.0 == 1 && st.1 == e1 && st.2 == edge);
        let in1 = input.drop_first();
        assert(in1 =~= Seq::new((len0 - 1) as nat, |i: int| lf) + r);
        let room1 = room - edge.len();
        lemma_steady(spd, tol, first, 1, e1, (len0 - 1) as nat, r, room1);
        let fires = !e1 && len0 > tol + 7 * spd + 1;
        let room2 = room1 - (if fires { 2int } else { 0int });
        assert(level_of(!!first) == lf);
        lemma_runs(spd, tol, !first, len0 as int, e1 || fires, rest, room2);
        let after = detect_run(spd, tol, len0 as int, lf, e1 || fires, r, room2);
        let mid = detect_run(spd, tol, 1, lf, e1, in1, room1);
        assert(mid.2 == (if fires { end_symbols() } else { Seq::<CWAlphabet>::empty() }) + after.2);
        assert(input.len() == len0 + r.len());
    }
}

/// Run-length reading from any state: a signal of carrier and pause that stays for `k` samples
/// (possibly none) at the level of the sample before it, then changes level in runs of
/// `lens`, each at least one sample long, is read with room enough as follows, all of it
/// taken: the first `k` samples lengthen the current pulse or pause, reporting the end of the
/// transmission if it was not reported and the count passes seven dots and the tolerance;
/// then each change of level gives the symbol for the length of the run it ends, as
/// `runs_symbols` says.
pub proof fn lemma_signal_runs(spd: int, tol: int, v: bool, c: int, ended: bool, k: nat, lens: Seq<nat>, room: int)
    requires
        0 <= tol,
        0 <= spd,
        0 <= c,
        c + k < usize::MAX,
        forall|i: int| 0 <= i < lens.len() ==> 1 <= #[trigger] lens[i] && lens[i] + 1 < usize::MAX,
        room >= 3 * lens.len() + 7,
    ensures
        ({
            let fires = k > 0 && !ended && c + k - 1 > tol + 7 * spd;
            let input = Seq::new(k, |i: int| level_of(v)) + runs_signal(!v, lens);
            let run = detect_run(spd, tol, c, level_of(v), ended, input, room);
            &&& run.2 == (if fires { end_symbols() } else { Seq::<CWAlphabet>::empty() })
                + runs_symbols(spd, tol, !v, c + k, ended || fires, lens)
            &&& run.3 == input.len()
        }),
{
    let fires = k > 0 && !ended && c + k - 1 > tol + 7 * spd;
    let rest = runs_signal(!v, lens);
    lemma_steady(spd, tol, v, c, ended, k, rest, room);
    assert(level_of(!!v) == level_of(v));
    lemma_runs(spd, tol, !v, c + k, ended || fires, lens, room - (if fires { 2int } else { 0int }));
}

/// Each change of level is read by the length of the pulse or pause it ends, within the
/// tolerance on either side. A start of the carrier after a pause of `x` samples gives a word
/// space where `7 * spd - tol <= x <= 7 * spd + tol`, otherwise a letter space where
/// `3 * spd - tol <= x <= 3 * spd + tol`, otherwise nothing. A stop after a pulse of `x`
/// samples gives a dot where `spd - tol <= x <= spd + tol`, otherwise a dash where
/// `3 * spd - tol <= x <= 3 * spd + tol`, otherwise nothing. The sample is taken, and the
/// count starts again from one.
pub proof fn lemma_edge_symbols(spd: int, tol: int, x: int, ended: bool, rise: bool, room: int)
    requires
        0 <= tol,
        0 <= spd,
        0 <= x <= usize::MAX,
        room >= 3,
    ensures
        ({
            let run = detect_run(spd, tol, x, level_of(!rise), ended, seq![level_of(rise)], room);
            let word = 7 * spd - tol <= x <= 7 * spd + tol;
            let three = 3 * spd - tol <= x <= 3 * spd + tol;
            let one = spd - tol <= x <= spd + tol;
            &&& run.0 == 1
            &&& run.1 == level_of(rise)
            &&& run.3 == 1
            &&& rise && word ==> run.2 == seq![CWAlphabet::WordSpace]
            &&& rise && !word && three ==> run.2 == seq![CWAlphabet::LetterSpace]
            &&& rise && !word && !three ==> run.2 == Seq::<CWAlphabet>::empty()
            &&& !rise && one ==> run.2 == seq![CWAlphabet::Dot]
            &&& !rise && !one && three ==> run.2 == seq![CWAlphabet::Dash]
            &&& !rise && !one && !three ==> run.2 == Seq::<CWAlphabet>::empty()
        }),
{
    let input = seq![level_of(rise)];
    let st = detect_step(spd, tol, x, level_of(!rise), ended, level_of(rise));
    assert(input[0] == level_of(rise));
    assert(input.drop_first() =~= Seq::<SignalLevel>::empty());
    if st.2.len() < room - 2 {
        let rest = detect_run(spd, tol, st.0, level_of(rise), st.1, input.drop_first(), room - st.2.len());
        assert(st.2 + rest.2 =~= st.2);
    }
}

/// Reads Morse symbols from the levels of baseband samples.
pub struct BaseBandToCW {
    samples_per_dot: usize,
    sample_count: usize,
    /// The level of the previous sample.
    power_before: SignalLevel,
    /// How many samples a symbol may miss its nominal length by.
    tolerance_per_dot: usize,
    dot_range: (usize, usize),
    dash_range: (usize, usize),
    letterspace_range: (usize, usize),
    wordspace_range: (usize, usize),
}

impl BaseBandToCW {
    #[verifier::type_invariant]
    closed spec fn inv(self) -> bool {
        &&& self.tolerance_per_dot <= self.samples_per_dot
        &&& 7 * self.samples_per_dot + self.tolerance_per_dot <= usize::MAX
        &&& self.dot_range == (
            (self.samples_per_dot - self.tolerance_per_dot) as usize,
            (self.samples_per_dot + self.tolerance_per_dot) as usize,
        )
        &&& self.dash_range == (
            (3 * self.samples_per_dot - self.tolerance_per_dot) as usize,
            (3 * self.samples_per_dot + self.tolerance_per_dot) as usize,
        )
        &&& self.letterspace_range == self.dash_range
        &&& self.wordspace_range == (
            (7 * self.samples_per_dot - self.tolerance_per_dot) as usize,
            (7 * self.samples_per_dot + self.tolerance_per_dot) as usize,
        )
    }

    /// Nominal length of a dot, in samples.
    pub closed spec fn dot_samples(&self) -> nat {
        self.samples_per_dot as nat
    }

    /// How many samples a symbol may miss its nominal length by.
    pub closed spec fn tolerance(&self) -> nat {
        self.tolerance_per_dot as nat
    }

    /// The lengths, first and last, of a pulse read as a dot.
    pub closed spec fn dot_range(&self) -> (int, int) {
        (self.dot_range.0 as int, self.dot_range.1 as int)
    }

    /// The lengths, first and last, of a pulse read as a dash.
    pub closed spec fn dash_range(&self) -> (int, int) {
        (self.dash_range.0 as int, self.dash_range.1 as int)
    }

    /// The lengths, first and last, of a pause read as a letter space.
    pub closed spec fn letterspace_range(&self) -> (int, int) {
        (self.letterspace_range.0 as int, self.letterspace_range.1 as int)
    }

    /// The lengths, first and last, of a pause read as a word space.
    pub closed spec fn wordspace_range(&self) -> (int, int) {
        (self.wordspace_range.0 as int, self.wordspace_range.1 as int)
    }

    /// Samples since the signal last started or stopped, counted from one.
    pub closed spec fn sample_count(&self) -> nat {
        self.sample_count as nat
    }

    /// The level of the last sample taken.
    pub closed spec fn signal_before(&self) -> SignalLevel {
        self.power_before
    }

    /// A detector for dots of `samples_per_dot` samples, where a symbol may miss its nominal
    /// length by `tolerance_per_dot` samples.
    pub fn with_tolerance(samples_per_dot: usize, tolerance_per_dot: usize) -> (d: Self)
        requires
            tolerance_per_dot <= samples_per_dot,
            7 * samples_per_dot + tolerance_per_dot <= usize::MAX,
        ensures
            d.dot_samples() == samples_per_dot,
            d.tolerance() == tolerance_per_dot,
            d.dot_range() == (samples_per_dot - tolerance_per_dot, samples_per_dot + tolerance_per_dot),
            d.dash_range() == (3 * samples_per_dot - tolerance_per_dot, 3 * samples_per_dot + tolerance_per_dot),
            d.letterspace_range() == d.dash_range(),
            d.wordspace_range() == (7 * samples_per_dot - tolerance_per_dot, 7 * samples_per_dot + tolerance_per_dot),
            d.sample_count() == 0,
            d.signal_before() == SignalLevel::Absent,
    {
        BaseBandToCW {
            samples_per_dot,
            sample_count: 0,
            power_before: SignalLevel::Absent,
            tolerance_per_dot,
            dot_range: (samples_per_dot - tolerance_per_dot, samples_per_dot + tolerance_per_dot),
            dash_range: (3 * samples_per_dot - tolerance_per_dot, 3 * samples_per_dot + tolerance_per_dot),
            letterspace_range: (3 * samples_per_dot - tolerance_per_dot, 3 * samples_per_dot + tolerance_per_dot),
            wordspace_range: (7 * samples_per_dot - tolerance_per_dot, 7 * samples_per_dot + tolerance_per_dot),
        }
    }

    /// Takes samples from `input`, each given by its level against the detection threshold,
    /// and returns how many it took and the symbols found for an
    /// output with `cap` free places. With fewer than two free places nothing happens, since
    /// one sample may give two symbols.
    pub fn work(&mut self, input: &[SignalLevel], cap: usize) -> (r: (usize, Vec<CWAlphabet>))
        ensures
            final(self).dot_samples() == old(self).dot_samples(),
            final(self).tolerance() == old(self).tolerance(),
            final(self).sample_count() <= usize::MAX,
            r.0 <= input@.len(),
            r.1@.len() <= cap,
            cap < 2 ==> r.0 == 0 && r.1@ == Seq::<CWAlphabet>::empty()
                && final(self).sample_count() == old(self).sample_count()
                && final(self).signal_before() == old(self).signal_before(),
            cap >= 2 ==> ({
                let run = detect_run(
                    old(self).dot_samples() as int,
                    old(self).tolerance() as int,
                    old(self).sample_count() as int,
                    old(self).signal_before(),
                    true,
                    input@,
                    cap as int,
                );
                &&& final(self).sample_count() == run.0
                &&& final(self).signal_before() == run.1
                &&& r.1@ == run.2
                &&& r.0 == run.3
            }),
    {
        proof { use_type_invariant(&*self); }
        if cap < 2 {
            return (0, Vec::new());
        }
        let spd = self.samples_per_dot;
        let tol = self.tolerance_per_dot;
        let limit = tol + 7 * spd;
        let dot = self.dot_range;
        let dash = self.dash_range;
        let letter = self.letterspace_range;
        let word = self.wordspace_range;
        let ghost full = detect_run(spd as int, tol as int, self.sample_count as int, self.power_before, true, input@, cap as int);
        proof {
            lemma_run_bounds(spd as int, tol as int, self.sample_count as int, self.power_before, true, input@, cap as int);
        }
        let mut count = self.sample_count;
        let mut before = self.power_before;
        let mut ended = true;
        let mut out: Vec<CWAlphabet> = Vec::new();
        let mut i: usize = 0;
        assert(input@.skip(0) =~= input@);
        while i < input.len()
            invariant_except_break
                out@.len() + 2 <= cap,
                full == ({
                    let r = detect_run(spd as int, tol as int, count as int, before, ended, input@.skip(i as int), cap - out@.len());
                    (r.0, r.1, out@ + r.2, (i + r.3) as nat)
                }),
            invariant
                i <= input@.len(),
                limit == tol + 7 * spd,
                dot == ((spd - tol) as usize, (spd + tol) as usize),
                dash == ((3 * spd - tol) as usize, (3 * spd + tol) as usize),
                letter == dash,
                word == ((7 * spd - tol) as usize, (7 * spd + tol) as usize),
                tol <= spd,
                7 * spd + tol <= usize::MAX,
            ensures
                full == (count as int, before, out@, i as nat),
            decreases input@.len() - i,
        {
            let ghost rest = input@.skip(i as int);
            let ghost room = cap - out@.len();
            let ghost prev = out@;
            let ghost st = detect_step(spd as int, tol as int, count as int, before, ended, input@[i as int]);
            assert(rest[0] == input@[i as int]);
            assert(rest.drop_first() =~= input@.skip(i + 1));
            let now = input[i];
            let mut symbol: Option<CWAlphabet> = None;
            if now == SignalLevel::Present && before == SignalLevel::Absent {
                if word.0 <= count && count <= word.1 {
                    symbol = Some(CWAlphabet::WordSpace);
                } else if letter.0 <= count && count <= letter.1 {
                    symbol = Some(CWAlphabet::LetterSpace);
                }
                count = 0;
                ended = false;
            }
            if now == SignalLevel::Absent && before == SignalLevel::Present {
                if dot.0 <= count && count <= dot.1 {
                    symbol = Some(CWAlphabet::Dot);
                } else if dash.0 <= count && count <= dash.1 {
                    symbol = Some(CWAlphabet::Dash);
                }
                count = 0;
            }
            if let Some(v) = symbol {
                out.push(v);
            }
            if count > limit && !ended {
                ended = true;
                out.push(CWAlphabet::LetterSpace);
                out.push(CWAlphabet::WordSpace);
            }
            if count == usize::MAX {
                count = 0;
            }
            count = count + 1;
            before = now;
            i = i + 1;
            assert(out@ =~= prev + st.2);
            if out.len() >= cap - 2 {
                break;
            }
            proof {
                let r2 = detect_run(spd as int, tol as int, count as int, before, ended, input@.skip(i as int), cap - out@.len());
                assert(prev + (st.2 + r2.2) =~= out@ + r2.2);
            }
        }
        proof {
            if i == input@.len() && !(out@.len() >= cap - 2) {
                assert(input@.skip(i as int) =~= Seq::<SignalLevel>::empty());
                assert(out@ + Seq::<CWAlphabet>::empty() =~= out@);
            }
        }
        self.sample_count = count;
        self.power_before = before;
        (i, out)
    }
}

} // verus!
