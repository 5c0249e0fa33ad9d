//! The participant queue together with the timed single-slot contributor lock.

use crate::error::CeremonyError;
use crate::participant::{lowered, Identifier, Participant};
use crate::queue::{front_of, popped, Queue};
use crate::registry::{holds, position_of, record_of, Registry};
use vstd::prelude::*;

verus! {

/// Whether a lock taken at `acquired_at` by `holder` has run out at `now`.
pub open spec fn lock_expired(
    holder: Option<Identifier>,
    acquired_at: u64,
    now: u64,
    limit: u64,
) -> bool {
    holder is Some && now - acquired_at > limit
}

/// The registry once the priority of `holder`, if registered, is lowered.
pub open spec fn demoted(s: Seq<Participant>, holder: Option<Identifier>) -> Seq<Participant> {
    match holder {
        Some(h) => if holds(s, h@) {
            s.update(position_of(s, h@), lowered(record_of(s, h@)))
        } else {
            s
        },
        None => s,
    }
}

/// The outcome of the lock rules for a request from `lhs`, the identifier
/// that the lock held: a timed-out holder is told so, another participant
/// is told that it is not its turn.
pub open spec fn lock_update_outcome(
    has_expired: bool,
    lhs: Option<Identifier>,
    rhs: Seq<u8>,
) -> Result<(), CeremonyError> {
    match lhs {
        Some(l) => if l@ == rhs && has_expired {
            Err(CeremonyError::Timeout)
        } else if l@ != rhs {
            Err(CeremonyError::NotYourTurn)
        } else {
            Ok(())
        },
        None => Ok(()),
    }
}

/// Whether the lock rules turn `id` away as the holder of an expired lock.
pub open spec fn times_out(lq: LockQueue, id: Seq<u8>, limit: u64, now: u64) -> bool {
    lock_expired(lq.participant_lock, lq.acquired_at, now, limit) && lq.participant_lock->0@ == id
}

/// The holder after an expired lock is rotated.
pub open spec fn rotated_holder(lq: LockQueue, limit: u64, now: u64) -> Option<Identifier> {
    if lock_expired(lq.participant_lock, lq.acquired_at, now, limit) {
        front_of(lq.queue@)
    } else {
        lq.participant_lock
    }
}

/// The queue after an expired lock is rotated.
pub open spec fn rotated_queue(lq: LockQueue, limit: u64, now: u64) -> Seq<Seq<Identifier>> {
    if lock_expired(lq.participant_lock, lq.acquired_at, now, limit) {
        popped(lq.queue@)
    } else {
        lq.queue@
    }
}

/// The holder once the lock rules have run for a request from `id`.
pub open spec fn lock_check_holder(
    lq: LockQueue,
    id: Seq<u8>,
    limit: u64,
    now: u64,
) -> Option<Identifier> {
    let h1 = rotated_holder(lq, limit, now);
    if !times_out(lq, id, limit, now) && h1 is None {
        front_of(rotated_queue(lq, limit, now))
    } else {
        h1
    }
}

/// The queue once the lock rules have run for a request from `id`.
pub open spec fn lock_check_queue(
    lq: LockQueue,
    id: Seq<u8>,
    limit: u64,
    now: u64,
) -> Seq<Seq<Identifier>> {
    let q1 = rotated_queue(lq, limit, now);
    if !times_out(lq, id, limit, now) && rotated_holder(lq, limit, now) is None {
        popped(q1)
    } else {
        q1
    }
}

/// What the lock rules answer to a request from `id`.
pub open spec fn lock_check_outcome(
    lq: LockQueue,
    id: Seq<u8>,
    limit: u64,
    now: u64,
) -> Result<(), CeremonyError> {
    if times_out(lq, id, limit, now) {
        Err(CeremonyError::Timeout)
    } else if lock_check_holder(lq, id, limit, now) matches Some(h) && h@ == id {
        Ok(())
    } else {
        Err(CeremonyError::NotYourTurn)
    }
}

/// The queue of waiting participants and the lock that admits one of them.
pub struct LockQueue {
    pub queue: Queue,
    pub participant_lock: Option<Identifier>,
    pub acquired_at: u64,
}

impl LockQueue {
    /// The queue is well formed and does not hold the lock holder.
    pub open spec fn wf(&self) -> bool {
        &&& self.queue.wf()
        &&& self.participant_lock matches Some(h) ==> !self.queue.contains(h@)
    }

    /// An empty queue with `level_count` levels and a free lock.
    pub fn new(level_count: usize) -> (r: Self)
        requires
            level_count >= 1,
        ensures
            r.wf(),
            r.queue@.len() == level_count,
            r.queue.flat() == Seq::<Identifier>::empty(),
            r.participant_lock is None,
    {
        LockQueue { queue: Queue::new(level_count), participant_lock: None, acquired_at: 0 }
    }

    /// The queue.
    pub fn queue(&self) -> (r: &Queue)
        ensures
            *r == self.queue,
    {
        &self.queue
    }

    /// The queue, to change it.
    pub fn queue_mut(&mut self) -> (r: &mut Queue)
        ensures
            *r == old(self).queue,
            final(self).queue == *final(r),
            final(self).participant_lock == old(self).participant_lock,
            final(self).acquired_at == old(self).acquired_at,
    {
        &mut self.queue
    }

    /// The identifier that holds the lock.
    pub fn holder(&self) -> (r: Option<Identifier>)
        ensures
            r == self.participant_lock,
    {
        self.participant_lock
    }

    /// Whether the lock is held by `id`.
    pub fn is_held_by(&self, id: &Identifier) -> (r: bool)
        ensures
            r == (self.participant_lock matches Some(h) && h@ == id@),
    {
        match &self.participant_lock {
            Some(h) => h.equals(id),
            None => false,
        }
    }

    /// Whether the lock is held and was taken more than `limit` before `now`.
    pub fn has_expired(&self, now: u64, limit: u64) -> (r: bool)
        ensures
            r == lock_expired(self.participant_lock, self.acquired_at, now, limit),
    {
        self.participant_lock.is_some() && now > self.acquired_at && now - self.acquired_at > limit
    }

    /// Checks the lock rules for a request from `rhs`, given what the lock held.
    pub fn check_lock_update_errors(
        has_expired: bool,
        lhs: &Option<Identifier>,
        rhs: &Identifier,
    ) -> (r: Result<(), CeremonyError>)
        ensures
            r == lock_update_outcome(has_expired, *lhs, rhs@),
    {
        match lhs {
            Some(l) => {
                let same = l.equals(rhs);
                if same && has_expired {
                    Err(CeremonyError::Timeout)
                } else if !same {
                    Err(CeremonyError::NotYourTurn)
                } else {
                    Ok(())
                }
            },
            None => Ok(()),
        }
    }

    /// Hands the lock to the front of the queue, taken at `now`.
    pub fn release(&mut self, now: u64)
        requires
            old(self).wf(),
        ensures
            final(self).wf(),
            final(self).participant_lock == front_of(old(self).queue@),
            final(self).queue@ == popped(old(self).queue@),
            final(self).acquired_at == now,
            forall|x: Seq<u8>| #[trigger]
                final(self).queue.contains(x) ==> old(self).queue.contains(x),
            final(self).participant_lock matches Some(h) ==> old(self).queue.contains(h@),
    {
        proof {
            self.queue.lemma_front_waits();
        }
        self.participant_lock = self.queue.pop_front();
        self.acquired_at = now;
    }

    /// Takes the front of the queue into a free lock; returns the holder.
    pub fn acquire(&mut self, now: u64) -> (r: Option<Identifier>)
        requires
            old(self).wf(),
        ensures
            final(self).wf(),
            r == final(self).participant_lock,
            old(self).participant_lock is Some ==> *final(self) == *old(self),
            old(self).participant_lock is None ==> {
                &&& final(self).participant_lock == front_of(old(self).queue@)
                &&& final(self).queue@ == popped(old(self).queue@)
                &&& final(self).acquired_at == now
            },
            forall|x: Seq<u8>| #[trigger]
                final(self).queue.contains(x) ==> old(self).queue.contains(x),
            final(self).participant_lock matches Some(h) ==> (old(self).participant_lock == Some(h)
                || old(self).queue.contains(h@)),
    {
        if self.participant_lock.is_none() {
            self.release(now);
        }
        self.participant_lock
    }

    /// Lowers the priority of the holder of an expired lock and hands the
    /// lock to the front of the queue; returns the former holder.
    pub fn update_expired_lock(
        &mut self,
        registry: &mut Registry,
        now: u64,
    ) -> (r: Option<Identifier>)
        requires
            old(self).wf(),
            old(registry).wf(),
        ensures
            final(self).wf(),
            final(registry).wf(),
            r == old(self).participant_lock,
            final(registry)@ == demoted(old(registry)@, old(self).participant_lock),
            final(self).participant_lock == front_of(old(self).queue@),
            final(self).queue@ == popped(old(self).queue@),
            final(self).acquired_at == now,
            forall|x: Seq<u8>| #[trigger]
                final(self).queue.contains(x) ==> old(self).queue.contains(x),
            final(self).participant_lock matches Some(h) ==> old(self).queue.contains(h@),
    {
        let previous = self.participant_lock;
        if let Some(h) = &previous {
            match registry.find(h) {
                Some(i) => registry.reduce_priority_at(i),
                None => {},
            }
        }
        self.release(now);
        previous
    }

    /// Applies the lock rules to a request from `participant` at `now`: an
    /// expired lock is rotated first, which its holder learns as a timeout;
    /// a free lock is taken by the front of the queue; then the request
    /// passes only if `participant` holds the lock.
    pub fn check_lock(
        &mut self,
        participant: &Identifier,
        registry: &mut Registry,
        limit: u64,
        now: u64,
    ) -> (r: Result<(), CeremonyError>)
        requires
            old(self).wf(),
            old(registry).wf(),
        ensures
            final(self).wf(),
            final(registry).wf(),
            r == lock_check_outcome(*old(self), participant@, limit, now),
            final(self).participant_lock == lock_check_holder(*old(self), participant@, limit, now),
            final(self).queue@ == lock_check_queue(*old(self), participant@, limit, now),
            final(self).acquired_at == if lock_expired(
                old(self).participant_lock,
                old(self).acquired_at,
                now,
                limit,
            ) || old(self).participant_lock is None {
                now
            } else {
                old(self).acquired_at
            },
            final(registry)@ == if lock_expired(
                old(self).participant_lock,
                old(self).acquired_at,
                now,
                limit,
            ) {
                demoted(old(registry)@, old(self).participant_lock)
            } else {
                old(registry)@
            },
            forall|x: Seq<u8>| #[trigger]
                final(self).queue.contains(x) ==> old(self).queue.contains(x),
            final(self).participant_lock matches Some(h) ==> (old(self).participant_lock == Some(h)
                || old(self).queue.contains(h@)),
    {
        if self.has_expired(now, limit) {
            let previous = self.update_expired_lock(registry, now);
            let outcome = Self::check_lock_update_errors(true, &previous, participant);
            if let Err(CeremonyError::Timeout) = outcome {
                return outcome;
            }
        }
        self.acquire(now);
        if self.is_held_by(participant) {
            Ok(())
        } else {
            Err(CeremonyError::NotYourTurn)
        }
    }
}

} // verus!
