//! The ingest endpoint: one acknowledgment per batch, or one per stream of
//! batches.

use vstd::prelude::*;
use vstd::string::*;
use crate::process::{
    batch_advisory, lemma_every_sample_is_counted, process_batch, registry_after, scan,
    DriftReading, SampleBatch,
};
use crate::state::{session_of, AppState, SessionState};

verus! {

/// The answer to a call.
#[derive(Clone, Debug, PartialEq, Eq)]
pub struct Ack {
    /// Samples accepted in this call.
    pub received: u64,
    /// Samples rejected in this call.
    pub dropped: u64,
    /// The session's highest sequence number after this call.
    pub last_seq: u64,
    /// The advisory; empty for none.
    pub warning: String,
}

/// An acknowledgment as a mathematical value.
pub struct AckView {
    pub received: nat,
    pub dropped: nat,
    pub last_seq: u64,
    pub warning: Seq<char>,
}

impl View for Ack {
    type V = AckView;

    open spec fn view(&self) -> AckView {
        AckView {
            received: self.received as nat,
            dropped: self.dropped as nat,
            last_seq: self.last_seq,
            warning: self.warning@,
        }
    }
}

/// One message of a stream: a batch and what was measured on it.
pub type Message = (SampleBatch, Option<DriftReading>);

/// How a stream came to its end.
pub enum StreamEnd {
    /// The producer closed the stream.
    Closed,
    /// Reading the stream failed, with this description.
    Failed(String),
}

impl AckView {
    /// The acknowledgment of a stream in which no batch has arrived.
    pub open spec fn start() -> AckView {
        AckView { received: 0, dropped: 0, last_seq: 0, warning: Seq::<char>::empty() }
    }

    /// The running acknowledgment `self` with the acknowledgment of one
    /// more batch folded in: the counts add up, the sequence number is the
    /// higher of the two, and the advisory is the newer one unless that is
    /// empty.
    pub open spec fn folded(self, one: AckView) -> AckView {
        AckView {
            received: self.received + one.received,
            dropped: self.dropped + one.dropped,
            last_seq: if one.last_seq > self.last_seq {
                one.last_seq
            } else {
                self.last_seq
            },
            warning: if one.warning.len() > 0 {
                one.warning
            } else {
                self.warning
            },
        }
    }
}

/// The acknowledgments `acks`, folded first to last.
pub open spec fn fold_all(acks: Seq<AckView>) -> AckView
    decreases acks.len(),
{
    if acks.len() == 0 {
        AckView::start()
    } else {
        fold_all(acks.drop_last()).folded(acks.last())
    }
}

/// Sum of the accepted counts.
pub open spec fn sum_received(acks: Seq<AckView>) -> nat
    decreases acks.len(),
{
    if acks.len() == 0 {
        0
    } else {
        sum_received(acks.drop_last()) + acks.last().received
    }
}

/// Sum of the rejected counts.
pub open spec fn sum_dropped(acks: Seq<AckView>) -> nat
    decreases acks.len(),
{
    if acks.len() == 0 {
        0
    } else {
        sum_dropped(acks.drop_last()) + acks.last().dropped
    }
}

/// The aggregate of a stream sums the counts of its batches, carries the
/// highest sequence number that any batch reported, and carries the last
/// advisory that was not empty.
pub proof fn lemma_fold_all_aggregates(acks: Seq<AckView>)
    ensures
        fold_all(acks).received == sum_received(acks),
        fold_all(acks).dropped == sum_dropped(acks),
        forall|i: int| 0 <= i < acks.len() ==> (#[trigger] acks[i]).last_seq <= fold_all(acks).last_seq,
        fold_all(acks).last_seq == 0 || exists|i: int|
            0 <= i < acks.len() && (#[trigger] acks[i]).last_seq == fold_all(acks).last_seq,
        forall|i: int|
            0 <= i < acks.len() && (#[trigger] acks[i]).warning.len() > 0 && (forall|j: int|
                i < j < acks.len() ==> (#[trigger] acks[j]).warning.len() == 0) ==> fold_all(
                acks,
            ).warning == acks[i].warning,
        (forall|i: int| 0 <= i < acks.len() ==> (#[trigger] acks[i]).warning.len() == 0)
            ==> fold_all(acks).warning.len() == 0,
    decreases acks.len(),
{
    if acks.len() > 0 {
        let front = acks.drop_last();
        let n = acks.len() - 1;
        lemma_fold_all_aggregates(front);
        assert forall|i: int| 0 <= i < acks.len() implies (#[trigger] acks[i]).last_seq
            <= fold_all(acks).last_seq by {
            if i < n {
                assert(front[i] == acks[i]);
            }
        }
        if fold_all(acks).last_seq != 0 && acks[n].last_seq <= fold_all(front).last_seq {
            let i = choose|i: int|
                0 <= i < front.len() && (#[trigger] front[i]).last_seq == fold_all(front).last_seq;
            assert(acks[i] == front[i]);
        }
        assert forall|i: int|
            0 <= i < acks.len() && (#[trigger] acks[i]).warning.len() > 0 && (forall|j: int|
                i < j < acks.len() ==> (#[trigger] acks[j]).warning.len() == 0) implies fold_all(
            acks,
        ).warning == acks[i].warning by {
            if i < n {
                assert(front[i] == acks[i]);
                assert forall|j: int| i < j < front.len() implies (#[trigger] front[j]).warning.len()
                    == 0 by {
                    assert(front[j] == acks[j]);
                }
            }
        }
        if forall|i: int| 0 <= i < acks.len() ==> (#[trigger] acks[i]).warning.len() == 0 {
            assert forall|i: int| 0 <= i < front.len() implies (#[trigger] front[i]).warning.len()
                == 0 by {
                assert(front[i] == acks[i]);
            }
        }
    }
}

/// The acknowledgment of one batch that arrives when the registry holds
/// `sessions`.
pub open spec fn batch_ack(
    sessions: Map<Seq<char>, SessionState>,
    batch: SampleBatch,
    max_batch_samples: usize,
    reading: Option<DriftReading>,
) -> AckView {
    AckView {
        received: scan(batch.samples@).received,
        dropped: scan(batch.samples@).dropped,
        last_seq: session_of(registry_after(sessions, batch), batch.session_id@).last_seq,
        warning: batch_advisory(batch.samples@, max_batch_samples, reading).text(),
    }
}

/// The registry after every batch of a stream has been processed, first to last.
pub open spec fn registry_after_all(
    sessions: Map<Seq<char>, SessionState>,
    messages: Seq<Message>,
) -> Map<Seq<char>, SessionState>
    decreases messages.len(),
{
    if messages.len() == 0 {
        sessions
    } else {
        registry_after(registry_after_all(sessions, messages.drop_last()), messages.last().0)
    }
}

/// The acknowledgments of the batches of a stream, each taken against the
/// registry that the batches before it have left.
pub open spec fn batch_acks(
    sessions: Map<Seq<char>, SessionState>,
    messages: Seq<Message>,
    max_batch_samples: usize,
) -> Seq<AckView>
    decreases messages.len(),
{
    if messages.len() == 0 {
        Seq::<AckView>::empty()
    } else {
        batch_acks(sessions, messages.drop_last(), max_batch_samples).push(
            batch_ack(
                registry_after_all(sessions, messages.drop_last()),
                messages.last().0,
                max_batch_samples,
                messages.last().1,
            ),
        )
    }
}

/// The number of samples in all batches of a stream.
pub open spec fn total_samples(messages: Seq<Message>) -> nat
    decreases messages.len(),
{
    if messages.len() == 0 {
        0
    } else {
        total_samples(messages.drop_last()) + messages.last().0.samples@.len()
    }
}

/// The counts of a stream's aggregate add up to the number of samples sent.
pub proof fn lemma_stream_counts_every_sample(
    sessions: Map<Seq<char>, SessionState>,
    messages: Seq<Message>,
    max_batch_samples: usize,
)
    ensures
        batch_acks(sessions, messages, max_batch_samples).len() == messages.len(),
        fold_all(batch_acks(sessions, messages, max_batch_samples)).received + fold_all(
            batch_acks(sessions, messages, max_batch_samples),
        ).dropped == total_samples(messages),
    decreases messages.len(),
{
    if messages.len() > 0 {
        lemma_stream_counts_every_sample(sessions, messages.drop_last(), max_batch_samples);
        lemma_every_sample_is_counted(messages.last().0.samples@);
        assert(batch_acks(sessions, messages, max_batch_samples).drop_last() =~= batch_acks(
            sessions,
            messages.drop_last(),
            max_batch_samples,
        ));
    }
}

/// A longer stream holds no fewer samples than its beginning.
pub proof fn lemma_total_samples_grows(messages: Seq<Message>, k: int)
    requires
        0 <= k <= messages.len(),
    ensures
        total_samples(messages.take(k)) <= total_samples(messages),
    decreases messages.len(),
{
    if k == messages.len() {
        assert(messages.take(k) =~= messages);
    } else {
        lemma_total_samples_grows(messages.drop_last(), k);
        assert(messages.drop_last().take(k) =~= messages.take(k));
    }
}

/// The text of the failure that a read error ends a stream with.
pub open spec fn stream_error_text(description: Seq<char>) -> Seq<char> {
    "stream error: "@ + description
}

/// Writes the failure for a read error with the given description.
pub fn map_status(description: &str) -> (r: String)
    ensures
        r@ == stream_error_text(description@),
{
    let mut out = String::from_str("stream error: ");
    out.append(description);
    out
}

impl Ack {
    /// The running acknowledgment of a stream before its first batch.
    pub fn start() -> (r: Ack)
        ensures
            r@ == AckView::start(),
    {
        Ack { received: 0, dropped: 0, last_seq: 0, warning: String::new() }
    }

    /// The acknowledgment of one processed batch.
    pub fn of_batch(result: (u64, u64, u64, String)) -> (r: Ack)
        ensures
            r.received == result.0,
            r.dropped == result.1,
            r.last_seq == result.2,
            r.warning == result.3,
    {
        Ack { received: result.0, dropped: result.1, last_seq: result.2, warning: result.3 }
    }

    /// Folds the acknowledgment of one more batch into the running one.
    pub fn fold(self, one: Ack) -> (r: Ack)
        requires
            self.received + one.received <= u64::MAX,
            self.dropped + one.dropped <= u64::MAX,
        ensures
            r@ == self@.folded(one@),
    {
        let warning_is_empty = one.warning.as_str().unicode_len() == 0;
        Ack {
            received: self.received + one.received,
            dropped: self.dropped + one.dropped,
            last_seq: if one.last_seq > self.last_seq {
                one.last_seq
            } else {
                self.last_seq
            },
            warning: if warning_is_empty {
                self.warning
            } else {
                one.warning
            },
        }
    }
}

/// The endpoint: a registry and the batch size above which the "too large"
/// advisory is given.
pub struct IngestService {
    pub state: AppState,
    pub max_batch_samples: usize,
}

impl IngestService {
    /// An endpoint over the given registry.
    pub fn new(state: AppState, max_batch_samples: usize) -> (r: Self)
        ensures
            r.state == state,
            r.max_batch_samples == max_batch_samples,
    {
        IngestService { state, max_batch_samples }
    }

    /// The single-batch call: processes the batch and acknowledges it.
    pub fn ingest_once(&mut self, batch: SampleBatch, reading: Option<DriftReading>) -> (ack: Ack)
        ensures
            final(self).max_batch_samples == old(self).max_batch_samples,
            final(self).state@ == registry_after(old(self).state@, batch),
            ack@ == batch_ack(old(self).state@, batch, old(self).max_batch_samples, reading),
            ack@.received + ack@.dropped == batch.samples@.len(),
    {
        let result = process_batch(&mut self.state, batch, self.max_batch_samples, reading);
        Ack::of_batch(result)
    }

    /// The streaming call over the messages that a stream delivered before
    /// it ended. Every batch is processed in order of arrival, whatever the
    /// end of the stream. A stream that was closed is answered with the
    /// aggregate of its batches, one that failed with the failure text.
    pub fn ingest(&mut self, messages: Vec<Message>, end: StreamEnd) -> (r: Result<Ack, String>)
        requires
            total_samples(messages@) <= u64::MAX,
        ensures
            final(self).max_batch_samples == old(self).max_batch_samples,
            final(self).state@ == registry_after_all(old(self).state@, messages@),
            match end {
                StreamEnd::Closed => r is Ok && r->Ok_0@ == fold_all(
                    batch_acks(old(self).state@, messages@, old(self).max_batch_samples),
                ),
                StreamEnd::Failed(description) => r is Err && r->Err_0@ == stream_error_text(
                    description@,
                ),
            },
    {
        let ghost before = self.state@;
        let ghost all = messages@;
        let max = self.max_batch_samples;
        let mut total = Ack::start();
        for message in it: messages.into_iter()
            invariant
                it.seq() == all,
                total_samples(all) <= u64::MAX,
                self.max_batch_samples == max,
                self.state@ == registry_after_all(before, all.take(it.index() as int)),
                total@ == fold_all(batch_acks(before, all.take(it.index() as int), max)),
        {
            let ghost k = it.index() as int;
            proof {
                let next = all.take(k + 1);
                assert(next.drop_last() =~= all.take(k));
                lemma_total_samples_grows(all, k + 1);
                lemma_stream_counts_every_sample(before, next, max);
            }
            let (batch, reading) = message;
            let one = self.ingest_once(batch, reading);
            proof {
                let acks = batch_acks(before, all.take(k + 1), max);
                assert(acks.drop_last() =~= batch_acks(before, all.take(k), max));
            }
            total = total.fold(one);
        }
        assert(all.take(all.len() as int) =~= all);
        match end {
            StreamEnd::Closed => Ok(total),
            StreamEnd::Failed(description) => Err(map_status(description.as_str())),
        }
    }
}

} // verus!
