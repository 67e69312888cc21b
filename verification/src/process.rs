//! The batch processor: validation of one batch of samples and the update
//! of the owning session.

use vstd::prelude::*;
use vstd::string::*;
use crate::binary64::{lemma_small_integers, unit, Binary64};
use crate::state::{registry_advanced, session_of, AppState, SessionState};
use crate::text::{decimal, labelled_number};

verus! {

/// One waveform reading.
#[derive(Clone, Copy, Debug)]
pub struct Sample {
    /// Sequence number given by the producer; 0 stands for "not set".
    pub seq: u64,
    /// Timestamp in seconds.
    pub t_s: Binary64,
    /// Measured value.
    pub mv: Binary64,
}

/// One transmitted unit of samples, in the order of transmission.
pub struct SampleBatch {
    pub session_id: String,
    /// Sampling rate that the producer declares, in samples per second.
    pub fs_hz: Binary64,
    pub samples: Vec<Sample>,
}

/// What the comparison of declared and observed sampling rate measured on a
/// batch. The caller does the arithmetic on the raw batch; what follows
/// from the numbers is decided here.
pub struct DriftReading {
    /// Timestamp of the last sample minus timestamp of the first.
    pub dt: Binary64,
    /// Distance of the observed rate from the declared one, in percent of
    /// the declared one.
    pub drift_pct: Binary64,
    /// `drift_pct` written with one decimal.
    pub drift_text: String,
}

/// What the scan decides about one sample.
pub enum Verdict {
    Accepted,
    NonFinite,
    SeqNotIncreasing,
    TimeNotIncreasing,
}

/// The single advisory that a batch can carry.
pub enum Advisory {
    /// Nothing to report.
    Clear,
    /// The batch held no sample.
    EmptyBatch,
    /// The batch held this many samples, more than the configured limit.
    TooLarge(usize),
    /// The sample at this index has a timestamp or a value that is not finite.
    NonFinite(usize),
    /// The sample at this index does not raise the sequence number.
    SeqNotIncreasing(usize),
    /// The sample at this index does not raise the timestamp.
    TimeNotIncreasing(usize),
    /// The observed sampling rate is off by this many percent.
    Drift(String),
}

impl Advisory {
    /// The advisory as it is written into an acknowledgment.
    pub open spec fn text(self) -> Seq<char> {
        match self {
            Advisory::Clear => Seq::<char>::empty(),
            Advisory::EmptyBatch => "empty batch"@,
            Advisory::TooLarge(n) => "batch too large: "@ + decimal(n as nat),
            Advisory::NonFinite(i) => "non-finite at index "@ + decimal(i as nat),
            Advisory::SeqNotIncreasing(i) => "non-monotonic seq at index "@ + decimal(i as nat),
            Advisory::TimeNotIncreasing(i) => "non-monotonic t_s at index "@ + decimal(i as nat),
            Advisory::Drift(t) => "fs drift "@ + t@ + "%"@,
        }
    }

    /// Writes the advisory out.
    pub fn message(&self) -> (r: String)
        ensures
            r@ == self.text(),
    {
        match self {
            Advisory::Clear => String::new(),
            Advisory::EmptyBatch => String::from_str("empty batch"),
            Advisory::TooLarge(n) => labelled_number("batch too large: ", *n as u64),
            Advisory::NonFinite(i) => labelled_number("non-finite at index ", *i as u64),
            Advisory::SeqNotIncreasing(i) => labelled_number(
                "non-monotonic seq at index ",
                *i as u64,
            ),
            Advisory::TimeNotIncreasing(i) => labelled_number(
                "non-monotonic t_s at index ",
                *i as u64,
            ),
            Advisory::Drift(t) => {
                let mut out = String::from_str("fs drift ");
                out.append(t.as_str());
                out.append("%");
                out
            },
        }
    }
}

/// The verdict on `s` when `prev` is the last sample accepted before it.
/// The checks are made in this order and the first that fails decides.
pub open spec fn judge(prev: Option<Sample>, s: Sample) -> Verdict {
    if !s.t_s.finite() || !s.mv.finite() {
        Verdict::NonFinite
    } else if prev is Some && s.seq <= prev->0.seq {
        Verdict::SeqNotIncreasing
    } else if prev is Some && s.t_s.le_spec(prev->0.t_s) {
        Verdict::TimeNotIncreasing
    } else {
        Verdict::Accepted
    }
}

/// Where a scan stands after some samples.
pub struct Tally {
    /// Samples accepted.
    pub received: nat,
    /// Samples rejected.
    pub dropped: nat,
    /// The last accepted sample.
    pub prev: Option<Sample>,
    /// The latest rejection, `Clear` when there was none.
    pub finding: Advisory,
}

/// The scan of `samples` in transmitted order. Each sample is judged against
/// the last one accepted before it; a rejected sample is counted and
/// reported and changes nothing else.
pub open spec fn scan(samples: Seq<Sample>) -> Tally
    decreases samples.len(),
{
    if samples.len() == 0 {
        Tally { received: 0, dropped: 0, prev: None, finding: Advisory::Clear }
    } else {
        let t = scan(samples.drop_last());
        let i = (samples.len() - 1) as usize;
        match judge(t.prev, samples.last()) {
            Verdict::Accepted => Tally {
                received: t.received + 1,
                prev: Some(samples.last()),
                ..t
            },
            Verdict::NonFinite => Tally {
                dropped: t.dropped + 1,
                finding: Advisory::NonFinite(i),
                ..t
            },
            Verdict::SeqNotIncreasing => Tally {
                dropped: t.dropped + 1,
                finding: Advisory::SeqNotIncreasing(i),
                ..t
            },
            Verdict::TimeNotIncreasing => Tally {
                dropped: t.dropped + 1,
                finding: Advisory::TimeNotIncreasing(i),
                ..t
            },
        }
    }
}

/// Whether the scan accepts the sample at index `i`.
pub open spec fn accepted_at(samples: Seq<Sample>, i: int) -> bool {
    judge(scan(samples.take(i)).prev, samples[i]) is Accepted
}

/// The largest sequence number in the batch, 0 for a batch without samples.
pub open spec fn highest_seq(samples: Seq<Sample>) -> u64
    decreases samples.len(),
{
    if samples.len() == 0 {
        0
    } else {
        let h = highest_seq(samples.drop_last());
        if samples.last().seq > h {
            samples.last().seq
        } else {
            h
        }
    }
}

/// The sequence number that the batch offers to its session: the largest
/// one among the samples whose sequence number is set, if there is any.
pub open spec fn candidate_of(samples: Seq<Sample>) -> Option<u64> {
    if highest_seq(samples) > 0 {
        Some(highest_seq(samples))
    } else {
        None
    }
}

/// The encoding of the number 2: the drift, in percent, that is still let pass.
pub const DRIFT_LIMIT_BITS: u64 = 0x4000_0000_0000_0000;

/// Whether the drift check has a finding: the batch has two samples or
/// more, the time it spans is above zero and the drift is above the limit.
pub open spec fn drift_found(len: nat, reading: Option<DriftReading>) -> bool {
    &&& len >= 2
    &&& reading is Some
    &&& (Binary64 { bits: 0 }).lt_spec(reading->0.dt)
    &&& (Binary64 { bits: DRIFT_LIMIT_BITS }).lt_spec(reading->0.drift_pct)
}

/// The advisory of a batch. The size check writes first, the scan after it
/// and over it; the drift check comes last and writes only where nothing
/// is written yet.
pub open spec fn batch_advisory(
    samples: Seq<Sample>,
    max_batch_samples: usize,
    reading: Option<DriftReading>,
) -> Advisory {
    if samples.len() == 0 {
        Advisory::EmptyBatch
    } else if !(scan(samples).finding is Clear) {
        scan(samples).finding
    } else if samples.len() > max_batch_samples {
        Advisory::TooLarge(samples.len() as usize)
    } else if drift_found(samples.len(), reading) {
        Advisory::Drift(reading->0.drift_text)
    } else {
        Advisory::Clear
    }
}

/// Every sample is either accepted or rejected.
pub proof fn lemma_every_sample_is_counted(samples: Seq<Sample>)
    ensures
        scan(samples).received + scan(samples).dropped == samples.len(),
    decreases samples.len(),
{
    if samples.len() > 0 {
        lemma_every_sample_is_counted(samples.drop_last());
    }
}

/// The last accepted sample is finite and bounds every accepted sample
/// before it; where there is none, nothing was accepted.
pub proof fn lemma_prev_bounds_accepted(samples: Seq<Sample>)
    ensures
        scan(samples).prev is None ==> forall|i: int|
            0 <= i < samples.len() ==> !accepted_at(samples, i),
        scan(samples).prev is Some ==> {
            let p = scan(samples).prev->0;
            &&& p.t_s.finite()
            &&& p.mv.finite()
            &&& forall|i: int|
                0 <= i < samples.len() && #[trigger] accepted_at(samples, i) ==> {
                    &&& samples[i].seq <= p.seq
                    &&& samples[i].t_s.scaled() <= p.t_s.scaled()
                }
        },
    decreases samples.len(),
{
    if samples.len() > 0 {
        let front = samples.drop_last();
        let n = samples.len() - 1;
        lemma_prev_bounds_accepted(front);
        assert forall|i: int| 0 <= i < n implies accepted_at(samples, i) == accepted_at(
            front,
            i,
        ) by {
            assert(samples.take(i) =~= front.take(i));
        }
    }
}

/// What the scan accepts is strictly increasing, in sequence number and in
/// time, and finite throughout.
pub proof fn lemma_accepted_samples_increase(samples: Seq<Sample>, i: int, j: int)
    requires
        0 <= i < j < samples.len(),
        accepted_at(samples, i),
        accepted_at(samples, j),
    ensures
        samples[i].seq < samples[j].seq,
        samples[i].t_s.lt_spec(samples[j].t_s),
        samples[i].t_s.finite() && samples[i].mv.finite(),
        samples[j].t_s.finite() && samples[j].mv.finite(),
{
    let front = samples.take(j);
    lemma_prev_bounds_accepted(front);
    assert(front.take(i) =~= samples.take(i));
    assert(accepted_at(front, i));
}

/// The last accepted sample is one of the samples that the scan accepted.
pub proof fn lemma_prev_was_accepted(samples: Seq<Sample>)
    ensures
        scan(samples).prev is Some ==> exists|j: int|
            0 <= j < samples.len() && #[trigger] accepted_at(samples, j) && samples[j] == scan(
                samples,
            ).prev->0,
    decreases samples.len(),
{
    if samples.len() > 0 {
        let front = samples.drop_last();
        let n = samples.len() - 1;
        assert(samples.take(n) =~= front);
        if judge(scan(front).prev, samples.last()) is Accepted {
            assert(accepted_at(samples, n));
        } else if scan(front).prev is Some {
            lemma_prev_was_accepted(front);
            let j = choose|j: int|
                0 <= j < front.len() && #[trigger] accepted_at(front, j) && front[j] == scan(
                    front,
                ).prev->0;
            assert(samples.take(j) =~= front.take(j));
            assert(accepted_at(samples, j));
        }
    }
}

/// No sample is rejected without a reason: it is not finite, or a sample
/// accepted before it has a sequence number or a timestamp that it does
/// not exceed.
pub proof fn lemma_rejected_for_a_reason(samples: Seq<Sample>, i: int)
    requires
        0 <= i < samples.len(),
        !accepted_at(samples, i),
    ensures
        !samples[i].t_s.finite() || !samples[i].mv.finite() || exists|j: int|
            0 <= j < i && #[trigger] accepted_at(samples, j) && (samples[i].seq <= samples[j].seq
                || samples[i].t_s.le_spec(samples[j].t_s)),
{
    let front = samples.take(i);
    if samples[i].t_s.finite() && samples[i].mv.finite() {
        lemma_prev_was_accepted(front);
        let j = choose|j: int|
            0 <= j < front.len() && #[trigger] accepted_at(front, j) && front[j] == scan(
                front,
            ).prev->0;
        assert(front.take(j) =~= samples.take(j));
        assert(accepted_at(samples, j));
    }
}

/// The drift check in numbers: it has a finding exactly when the batch has
/// two samples or more, the time it spans is a number above zero and the
/// drift is a number above two.
pub proof fn lemma_drift_found_in_numbers(len: nat, reading: DriftReading)
    ensures
        drift_found(len, Some(reading)) <==> {
            &&& len >= 2
            &&& !reading.dt.nan()
            &&& reading.dt.scaled() > 0
            &&& !reading.drift_pct.nan()
            &&& reading.drift_pct.scaled() > 2 * unit()
        },
        !drift_found(len, None),
{
    lemma_small_integers();
}

/// A sample that is not finite is rejected and leaves no trace in what
/// follows: the samples around it are judged as if it had not been sent.
pub proof fn lemma_non_finite_sample_is_passed_over(
    before: Seq<Sample>,
    x: Sample,
    after: Seq<Sample>,
)
    requires
        !x.t_s.finite() || !x.mv.finite(),
    ensures
        scan(before.push(x) + after).received == scan(before + after).received,
        scan(before.push(x) + after).dropped == scan(before + after).dropped + 1,
        scan(before.push(x) + after).prev == scan(before + after).prev,
    decreases after.len(),
{
    if after.len() == 0 {
        assert(before.push(x).drop_last() =~= before);
    } else {
        lemma_non_finite_sample_is_passed_over(before, x, after.drop_last());
        assert((before.push(x) + after).drop_last() =~= before.push(x) + after.drop_last());
        assert((before + after).drop_last() =~= before + after.drop_last());
    }
}

/// The highest sequence number bounds all of them and, where it is set,
/// belongs to one of the samples.
pub proof fn lemma_highest_seq(samples: Seq<Sample>)
    ensures
        forall|i: int| 0 <= i < samples.len() ==> (#[trigger] samples[i]).seq <= highest_seq(samples),
        highest_seq(samples) > 0 ==> exists|i: int|
            0 <= i < samples.len() && (#[trigger] samples[i]).seq == highest_seq(samples),
    decreases samples.len(),
{
    if samples.len() > 0 {
        let front = samples.drop_last();
        lemma_highest_seq(front);
        assert forall|i: int| 0 <= i < samples.len() implies (#[trigger] samples[i]).seq
            <= highest_seq(samples) by {
            if i < front.len() {
                assert(samples[i] == front[i]);
            }
        }
    }
}

/// What validation finds in a batch, before the registry is asked.
pub struct BatchOutcome {
    /// Samples accepted.
    pub received: u64,
    /// Samples rejected.
    pub dropped: u64,
    /// The sequence number to offer to the session; `None` where no sample
    /// has its sequence number set, and the session is then only read.
    pub candidate: Option<u64>,
    /// The advisory, empty for none.
    pub warning: String,
}

/// Validates a batch: scans the samples, finds the sequence number to
/// offer and settles the advisory.
pub fn validate_batch(
    batch: &SampleBatch,
    max_batch_samples: usize,
    reading: Option<DriftReading>,
) -> (out: BatchOutcome)
    ensures
        out.received == scan(batch.samples@).received,
        out.dropped == scan(batch.samples@).dropped,
        out.received + out.dropped == batch.samples@.len(),
        out.candidate == candidate_of(batch.samples@),
        out.warning@ == batch_advisory(batch.samples@, max_batch_samples, reading).text(),
{
    let n = batch.samples.len();
    let ghost all = batch.samples@;
    let mut received: u64 = 0;
    let mut dropped: u64 = 0;
    let mut highest: u64 = 0;
    let mut prev: Option<Sample> = None;
    let mut finding = Advisory::Clear;
    let mut i: usize = 0;
    while i < n
        invariant
            i <= n,
            n == all.len(),
            all == batch.samples@,
            received == scan(all.take(i as int)).received,
            dropped == scan(all.take(i as int)).dropped,
            prev == scan(all.take(i as int)).prev,
            finding == scan(all.take(i as int)).finding,
            highest == highest_seq(all.take(i as int)),
            received + dropped == i,
        decreases n - i,
    {
        let s: Sample = batch.samples[i];
        proof {
            let next = all.take(i + 1);
            assert(next.drop_last() =~= all.take(i as int));
        }
        if s.seq > highest {
            highest = s.seq;
        }
        if !s.t_s.is_finite() || !s.mv.is_finite() {
            finding = Advisory::NonFinite(i);
            dropped = dropped + 1;
        } else {
            match prev {
                Some(p) if s.seq <= p.seq => {
                    finding = Advisory::SeqNotIncreasing(i);
                    dropped = dropped + 1;
                },
                Some(p) if s.t_s.le(&p.t_s) => {
                    finding = Advisory::TimeNotIncreasing(i);
                    dropped = dropped + 1;
                },
                _ => {
                    prev = Some(s);
                    received = received + 1;
                },
            }
        }
        i = i + 1;
    }
    assert(all.take(n as int) =~= all);
    let advisory = if n == 0 {
        Advisory::EmptyBatch
    } else {
        match finding {
            Advisory::Clear => {
                if n > max_batch_samples {
                    Advisory::TooLarge(n)
                } else {
                    match reading {
                        Some(r) => {
                            if n >= 2 && Binary64::from_bits(0).lt(&r.dt) && Binary64::from_bits(
                                DRIFT_LIMIT_BITS,
                            ).lt(&r.drift_pct) {
                                Advisory::Drift(r.drift_text)
                            } else {
                                Advisory::Clear
                            }
                        },
                        None => Advisory::Clear,
                    }
                }
            },
            found => found,
        }
    };
    let candidate = if highest > 0 {
        Some(highest)
    } else {
        None
    };
    BatchOutcome { received, dropped, candidate, warning: advisory.message() }
}

/// The registry after the batch has been processed: advanced for the
/// batch's session where the batch offers a sequence number, untouched
/// where it does not.
pub open spec fn registry_after(
    sessions: Map<Seq<char>, SessionState>,
    batch: SampleBatch,
) -> Map<Seq<char>, SessionState> {
    match candidate_of(batch.samples@) {
        Some(c) => registry_advanced(
            sessions,
            batch.session_id@,
            c,
            scan(batch.samples@).received as u64,
            scan(batch.samples@).dropped as u64,
        ),
        None => sessions,
    }
}

/// Processes one batch: validates it, records it with its session and
/// returns how many samples were accepted, how many were rejected, the
/// session's sequence number afterwards and the advisory.
pub fn process_batch(
    state: &mut AppState,
    batch: SampleBatch,
    max_batch_samples: usize,
    reading: Option<DriftReading>,
) -> (r: (u64, u64, u64, String))
    ensures
        final(state)@ == registry_after(old(state)@, batch),
        r.0 == scan(batch.samples@).received,
        r.1 == scan(batch.samples@).dropped,
        r.0 + r.1 == batch.samples@.len(),
        r.2 == session_of(final(state)@, batch.session_id@).last_seq,
        r.2 >= session_of(old(state)@, batch.session_id@).last_seq,
        r.3@ == batch_advisory(batch.samples@, max_batch_samples, reading).text(),
{
    let out = validate_batch(&batch, max_batch_samples, reading);
    let last_seq = match out.candidate {
        Some(c) => state.advance(batch.session_id.as_str(), c, out.received, out.dropped),
        None => state.get_last_seq(batch.session_id.as_str()),
    };
    (out.received, out.dropped, last_seq, out.warning)
}

} // verus!
