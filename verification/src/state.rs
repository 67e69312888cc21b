//! The session registry: one record of ingest progress per session identifier.

use vstd::prelude::*;
use vstd::hash_map::StringHashMap;
use vstd::string::*;

verus! {

/// Per-session bookkeeping.
#[derive(Clone, Copy, Debug, PartialEq, Eq, Structural)]
pub struct SessionState {
    /// Highest sequence number ever taken for the session.
    pub last_seq: u64,
    /// Samples accepted so far; stays at the maximum once it is reached.
    pub received: u64,
    /// Samples rejected so far; stays at the maximum once it is reached.
    pub dropped: u64,
}

/// A count that can grow no further than the largest `u64`.
pub open spec fn clamp(x: int) -> u64 {
    if x > u64::MAX {
        u64::MAX
    } else if x < 0 {
        0
    } else {
        x as u64
    }
}

impl SessionState {
    /// The record of a session that has not been heard of.
    pub open spec fn fresh() -> SessionState {
        SessionState { last_seq: 0, received: 0, dropped: 0 }
    }

    /// The record after one batch: the counters grow by the deltas and the
    /// sequence number moves to the candidate unless that would lower it.
    pub open spec fn advanced(self, candidate: u64, accepted: u64, rejected: u64) -> SessionState {
        SessionState {
            last_seq: if candidate < self.last_seq {
                self.last_seq
            } else {
                candidate
            },
            received: clamp(self.received + accepted),
            dropped: clamp(self.dropped + rejected),
        }
    }

    /// The record after a run of batches, applied first to last.
    pub open spec fn advanced_by(self, deltas: Seq<(u64, u64, u64)>) -> SessionState
        decreases deltas.len(),
    {
        if deltas.len() == 0 {
            self
        } else {
            let d = deltas.last();
            self.advanced_by(deltas.drop_last()).advanced(d.0, d.1, d.2)
        }
    }

    /// Applies one batch to the record.
    pub fn advance(&self, candidate: u64, accepted: u64, rejected: u64) -> (r: SessionState)
        ensures
            r == self.advanced(candidate, accepted, rejected),
    {
        SessionState {
            last_seq: if candidate < self.last_seq {
                self.last_seq
            } else {
                candidate
            },
            received: self.received.saturating_add(accepted),
            dropped: self.dropped.saturating_add(rejected),
        }
    }
}

impl Default for SessionState {
    fn default() -> (r: Self)
        ensures
            r == SessionState::fresh(),
    {
        SessionState { last_seq: 0, received: 0, dropped: 0 }
    }
}

/// Sum of the accepted counts of a run of batches.
pub open spec fn total_accepted(deltas: Seq<(u64, u64, u64)>) -> int
    decreases deltas.len(),
{
    if deltas.len() == 0 {
        0
    } else {
        total_accepted(deltas.drop_last()) + deltas.last().1
    }
}

/// Sum of the rejected counts of a run of batches.
pub open spec fn total_rejected(deltas: Seq<(u64, u64, u64)>) -> int
    decreases deltas.len(),
{
    if deltas.len() == 0 {
        0
    } else {
        total_rejected(deltas.drop_last()) + deltas.last().2
    }
}

/// Largest candidate sequence number of a run of batches, and no less than `floor`.
pub open spec fn highest_candidate(floor: u64, deltas: Seq<(u64, u64, u64)>) -> u64
    decreases deltas.len(),
{
    if deltas.len() == 0 {
        floor
    } else {
        let h = highest_candidate(floor, deltas.drop_last());
        if deltas.last().0 < h {
            h
        } else {
            deltas.last().0
        }
    }
}

/// No update is lost: after any run of batches a session's counters hold the
/// sums of everything submitted, capped at the largest `u64`, and its
/// sequence number is the highest ever offered.
pub proof fn lemma_no_update_is_lost(start: SessionState, deltas: Seq<(u64, u64, u64)>)
    ensures
        start.advanced_by(deltas).received == clamp(start.received + total_accepted(deltas)),
        start.advanced_by(deltas).dropped == clamp(start.dropped + total_rejected(deltas)),
        start.advanced_by(deltas).last_seq == highest_candidate(start.last_seq, deltas),
        total_accepted(deltas) >= 0,
        total_rejected(deltas) >= 0,
    decreases deltas.len(),
{
    if deltas.len() > 0 {
        lemma_no_update_is_lost(start, deltas.drop_last());
    }
}

/// Two batches leave the same record whichever is applied first.
pub proof fn lemma_advance_commutes(
    start: SessionState,
    first: (u64, u64, u64),
    second: (u64, u64, u64),
)
    ensures
        start.advanced(first.0, first.1, first.2).advanced(second.0, second.1, second.2)
            == start.advanced(second.0, second.1, second.2).advanced(first.0, first.1, first.2),
{
}

/// A batch never lowers a session's sequence number or its counters.
pub proof fn lemma_advance_never_regresses(
    start: SessionState,
    candidate: u64,
    accepted: u64,
    rejected: u64,
)
    ensures
        start.advanced(candidate, accepted, rejected).last_seq >= start.last_seq,
        start.advanced(candidate, accepted, rejected).last_seq >= candidate,
        start.advanced(candidate, accepted, rejected).received >= start.received,
        start.advanced(candidate, accepted, rejected).dropped >= start.dropped,
        candidate < start.last_seq ==> start.advanced(candidate, accepted, rejected).last_seq
            == start.last_seq,
{
}

/// The record that a registry holds for `id`: the stored one, or the fresh
/// record when the session is unknown.
pub open spec fn session_of(sessions: Map<Seq<char>, SessionState>, id: Seq<char>) -> SessionState {
    if sessions.contains_key(id) {
        sessions[id]
    } else {
        SessionState::fresh()
    }
}

/// The registry after `id` has taken one batch.
pub open spec fn registry_advanced(
    sessions: Map<Seq<char>, SessionState>,
    id: Seq<char>,
    candidate: u64,
    accepted: u64,
    rejected: u64,
) -> Map<Seq<char>, SessionState> {
    sessions.insert(id, session_of(sessions, id).advanced(candidate, accepted, rejected))
}

/// Batches for different sessions do not touch each other's records, so
/// they can be applied in either order.
pub proof fn lemma_sessions_are_independent(
    sessions: Map<Seq<char>, SessionState>,
    a: Seq<char>,
    da: (u64, u64, u64),
    b: Seq<char>,
    db: (u64, u64, u64),
)
    requires
        a != b,
    ensures
        session_of(registry_advanced(sessions, a, da.0, da.1, da.2), b) == session_of(sessions, b),
        registry_advanced(registry_advanced(sessions, a, da.0, da.1, da.2), b, db.0, db.1, db.2)
            == registry_advanced(
            registry_advanced(sessions, b, db.0, db.1, db.2),
            a,
            da.0,
            da.1,
            da.2,
        ),
{
    assert(registry_advanced(registry_advanced(sessions, a, da.0, da.1, da.2), b, db.0, db.1, db.2)
        =~= registry_advanced(
        registry_advanced(sessions, b, db.0, db.1, db.2),
        a,
        da.0,
        da.1,
        da.2,
    ));
}

/// One call of `advance`: the session it is for, the candidate sequence
/// number, the accepted count and the rejected count.
pub type Update = (Seq<char>, u64, u64, u64);

/// The registry after a run of updates, applied first to last.
pub open spec fn registry_advanced_by(
    sessions: Map<Seq<char>, SessionState>,
    updates: Seq<Update>,
) -> Map<Seq<char>, SessionState>
    decreases updates.len(),
{
    if updates.len() == 0 {
        sessions
    } else {
        let u = updates.last();
        registry_advanced(registry_advanced_by(sessions, updates.drop_last()), u.0, u.1, u.2, u.3)
    }
}

/// The updates that are for session `id`, in their order.
pub open spec fn updates_for(updates: Seq<Update>, id: Seq<char>) -> Seq<(u64, u64, u64)>
    decreases updates.len(),
{
    if updates.len() == 0 {
        Seq::<(u64, u64, u64)>::empty()
    } else {
        let u = updates.last();
        let front = updates_for(updates.drop_last(), id);
        if u.0 == id {
            front.push((u.1, u.2, u.3))
        } else {
            front
        }
    }
}

/// However the updates of different sessions are interleaved, each
/// session ends with exactly its own updates applied to it, in their
/// order, and with nothing else.
pub proof fn lemma_each_session_takes_its_own_updates(
    sessions: Map<Seq<char>, SessionState>,
    updates: Seq<Update>,
    id: Seq<char>,
)
    ensures
        session_of(registry_advanced_by(sessions, updates), id) == session_of(
            sessions,
            id,
        ).advanced_by(updates_for(updates, id)),
    decreases updates.len(),
{
    if updates.len() > 0 {
        lemma_each_session_takes_its_own_updates(sessions, updates.drop_last(), id);
        let u = updates.last();
        if u.0 == id {
            assert(updates_for(updates, id).drop_last() =~= updates_for(updates.drop_last(), id));
        }
    }
}

/// All sessions known to the process, keyed by session identifier.
pub struct AppState {
    pub sessions: StringHashMap<SessionState>,
}

impl View for AppState {
    type V = Map<Seq<char>, SessionState>;

    open spec fn view(&self) -> Map<Seq<char>, SessionState> {
        self.sessions@
    }
}

impl AppState {
    /// A registry that knows no session.
    pub fn new() -> (r: Self)
        ensures
            r@ == Map::<Seq<char>, SessionState>::empty(),
    {
        AppState { sessions: StringHashMap::new() }
    }

    /// The highest sequence number taken for the session, 0 for a session
    /// that is unknown. The registry is only read: asking about an unknown
    /// session does not enter it.
    pub fn get_last_seq(&self, session_id: &str) -> (r: u64)
        ensures
            r == session_of(self@, session_id@).last_seq,
            !self@.contains_key(session_id@) ==> r == 0,
    {
        match self.sessions.get(session_id) {
            Some(s) => s.last_seq,
            None => 0,
        }
    }

    /// Records one batch for the session and returns the session's sequence
    /// number afterwards. An unknown session is entered with the batch's
    /// numbers. A candidate below the current sequence number leaves that
    /// number as it is; the counters grow all the same.
    pub fn advance(
        &mut self,
        session_id: &str,
        candidate_last_seq: u64,
        accepted_delta: u64,
        rejected_delta: u64,
    ) -> (r: u64)
        ensures
            final(self)@ == registry_advanced(
                old(self)@,
                session_id@,
                candidate_last_seq,
                accepted_delta,
                rejected_delta,
            ),
            r == session_of(final(self)@, session_id@).last_seq,
            r >= session_of(old(self)@, session_id@).last_seq,
            r >= candidate_last_seq,
            candidate_last_seq < session_of(old(self)@, session_id@).last_seq ==> r == session_of(
                old(self)@,
                session_id@,
            ).last_seq,
            candidate_last_seq >= session_of(old(self)@, session_id@).last_seq ==> r
                == candidate_last_seq,
    {
        let current = match self.sessions.get(session_id) {
            Some(s) => *s,
            None => SessionState::default(),
        };
        let next = current.advance(candidate_last_seq, accepted_delta, rejected_delta);
        self.sessions.insert(String::from_str(session_id), next);
        next.last_seq
    }
}

impl Default for AppState {
    fn default() -> (r: Self)
        ensures
            r@ == Map::<Seq<char>, SessionState>::empty(),
    {
        AppState::new()
    }
}

} // verus!
