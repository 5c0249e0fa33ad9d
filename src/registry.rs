//! The participant registry: identifier to participant record.

use crate::participant::{advanced, lowered, marked, Identifier, Participant};
use vstd::prelude::*;

verus! {

/// Whether no two records share an identifier.
pub open spec fn unique_ids(s: Seq<Participant>) -> bool {
    forall|i: int, j: int|
        0 <= i < s.len() && 0 <= j < s.len() && i != j ==> #[trigger] s[i].identifier@
            != #[trigger] s[j].identifier@
}

/// Whether some record carries `id`.
pub open spec fn holds(s: Seq<Participant>, id: Seq<u8>) -> bool {
    exists|i: int| 0 <= i < s.len() && #[trigger] s[i].identifier@ == id
}

/// The position of the record of `id`.
pub open spec fn position_of(s: Seq<Participant>, id: Seq<u8>) -> int {
    choose|i: int| 0 <= i < s.len() && #[trigger] s[i].identifier@ == id
}

/// The record of `id`.
pub open spec fn record_of(s: Seq<Participant>, id: Seq<u8>) -> Participant {
    s[position_of(s, id)]
}

/// Number of records that have contributed.
pub open spec fn contributed_count(s: Seq<Participant>) -> nat
    decreases s.len(),
{
    if s.len() == 0 {
        0
    } else {
        contributed_count(s.drop_last()) + if s.last().contributed {
            1nat
        } else {
            0nat
        }
    }
}

/// With unique identifiers, the record of an identifier found at `i` is the one at `i`.
pub proof fn lemma_position(s: Seq<Participant>, i: int)
    requires
        unique_ids(s),
        0 <= i < s.len(),
    ensures
        holds(s, s[i].identifier@),
        position_of(s, s[i].identifier@) == i,
        record_of(s, s[i].identifier@) == s[i],
{
    let id = s[i].identifier@;
    assert(s[i].identifier@ == id);
    let j = position_of(s, id);
    assert(s[j].identifier@ == id);
}

/// Replacing the record at `i` by one with the same identifier changes what
/// the registry says of that identifier only.
pub proof fn lemma_replace(s: Seq<Participant>, i: int, p: Participant)
    requires
        unique_ids(s),
        0 <= i < s.len(),
        p.identifier@ == s[i].identifier@,
    ensures
        unique_ids(s.update(i, p)),
        forall|id: Seq<u8>| #[trigger] holds(s.update(i, p), id) == holds(s, id),
        forall|id: Seq<u8>|
            holds(s, id) ==> #[trigger] record_of(s.update(i, p), id) == if id == p.identifier@ {
                p
            } else {
                record_of(s, id)
            },
        contributed_count(s.update(i, p)) == contributed_count(s) - (if s[i].contributed {
            1int
        } else {
            0int
        }) + (if p.contributed {
            1int
        } else {
            0int
        }),
{
    let t = s.update(i, p);
    assert forall|a: int, b: int|
        0 <= a < t.len() && 0 <= b < t.len() && a != b implies #[trigger] t[a].identifier@
        != #[trigger] t[b].identifier@ by {
        assert(t[a].identifier@ == s[a].identifier@);
        assert(t[b].identifier@ == s[b].identifier@);
    }
    assert forall|id: Seq<u8>| #[trigger] holds(t, id) == holds(s, id) by {
        if holds(s, id) {
            let k = choose|k: int| 0 <= k < s.len() && #[trigger] s[k].identifier@ == id;
            assert(t[k].identifier@ == id);
        }
        if holds(t, id) {
            let k = choose|k: int| 0 <= k < t.len() && #[trigger] t[k].identifier@ == id;
            assert(s[k].identifier@ == id);
        }
    }
    assert forall|id: Seq<u8>| holds(s, id) implies #[trigger] record_of(t, id) == if id
        == p.identifier@ {
        p
    } else {
        record_of(s, id)
    } by {
        let k = choose|k: int| 0 <= k < s.len() && #[trigger] s[k].identifier@ == id;
        lemma_position(s, k);
        assert(t[k].identifier@ == id);
        lemma_position(t, k);
    }
    lemma_count_update(s, i, p);
}

/// How the number of contributed records changes when one record is replaced.
pub proof fn lemma_count_update(s: Seq<Participant>, i: int, p: Participant)
    requires
        0 <= i < s.len(),
    ensures
        contributed_count(s.update(i, p)) == contributed_count(s) - (if s[i].contributed {
            1int
        } else {
            0int
        }) + (if p.contributed {
            1int
        } else {
            0int
        }),
    decreases s.len(),
{
    let t = s.update(i, p);
    if i == s.len() - 1 {
        assert(t.drop_last() =~= s.drop_last());
    } else {
        assert(t.drop_last() =~= s.drop_last().update(i, p));
        lemma_count_update(s.drop_last(), i, p);
    }
}

/// No more records have contributed than there are records.
pub proof fn lemma_count_bound(s: Seq<Participant>)
    ensures
        contributed_count(s) <= s.len(),
    decreases s.len(),
{
    if s.len() > 0 {
        lemma_count_bound(s.drop_last());
    }
}

/// A participant registered with nonce 1 holds, at every point, 1 plus the
/// number of its requests whose signature was accepted.
pub proof fn lemma_nonce_counts_accepted(registry: &Registry, id: Seq<u8>)
    requires
        registry.wf(),
        registry.has(id),
        registry.record(id).registered_nonce@ == 1,
    ensures
        registry.record(id).nonce == 1 + registry.record(id).accepted_requests@,
{
    let s = registry@;
    let i = position_of(s, id);
    assert(s[i].wf());
}

/// The records of the registered participants, at most one per identifier.
pub struct Registry {
    entries: Vec<Participant>,
}

impl View for Registry {
    type V = Seq<Participant>;

    closed spec fn view(&self) -> Seq<Participant> {
        self.entries@
    }
}

impl Registry {
    /// Identifiers are unique and every record keeps its nonce accounting.
    pub open spec fn wf(&self) -> bool {
        &&& unique_ids(self@)
        &&& forall|i: int| 0 <= i < self@.len() ==> (#[trigger] self@[i]).wf()
    }

    /// Whether `id` is registered.
    pub open spec fn has(&self, id: Seq<u8>) -> bool {
        holds(self@, id)
    }

    /// The record of a registered `id`.
    pub open spec fn record(&self, id: Seq<u8>) -> Participant {
        record_of(self@, id)
    }

    /// An empty registry.
    pub fn new() -> (r: Self)
        ensures
            r.wf(),
            r@ == Seq::<Participant>::empty(),
    {
        Registry { entries: Vec::new() }
    }

    /// Number of registered participants.
    pub fn len(&self) -> (r: usize)
        ensures
            r == self@.len(),
    {
        self.entries.len()
    }

    /// The position of the record of `id`, if it is registered.
    pub fn find(&self, id: &Identifier) -> (r: Option<usize>)
        requires
            self.wf(),
        ensures
            r is None <==> !self.has(id@),
            r matches Some(i) ==> i < self@.len() && self@[i as int].identifier@ == id@
                && position_of(self@, id@) == i && self.record(id@) == self@[i as int],
    {
        let mut i: usize = 0;
        while i < self.entries.len()
            invariant
                self.wf(),
                0 <= i <= self.entries@.len(),
                forall|j: int| 0 <= j < i ==> self.entries@[j].identifier@ != id@,
            decreases self.entries@.len() - i,
        {
            if self.entries[i].identifier.equals(id) {
                proof {
                    lemma_position(self@, i as int);
                }
                return Some(i);
            }
            i = i + 1;
        }
        None
    }

    /// Registers `participant` unless its identifier is registered already;
    /// says whether it was added.
    pub fn insert(&mut self, participant: Participant) -> (r: bool)
        requires
            old(self).wf(),
            participant.wf(),
        ensures
            final(self).wf(),
            r == !old(self).has(participant.identifier@),
            r ==> final(self)@ == old(self)@.push(participant),
            !r ==> final(self)@ == old(self)@,
    {
        match self.find(&participant.identifier) {
            Some(_) => false,
            None => {
                self.entries.push(participant);
                proof {
                    let s = self@;
                    assert forall|i: int, j: int|
                        0 <= i < s.len() && 0 <= j < s.len() && i != j implies #[trigger] s[i].identifier@
                        != #[trigger] s[j].identifier@ by {
                        if i == s.len() - 1 {
                            assert(old(self)@[j].identifier@ == s[j].identifier@);
                        } else if j == s.len() - 1 {
                            assert(old(self)@[i].identifier@ == s[i].identifier@);
                        }
                    }
                }
                true
            }
        }
    }

    /// The record of `id`, if it is registered.
    pub fn get(&self, id: &Identifier) -> (r: Option<&Participant>)
        requires
            self.wf(),
        ensures
            r is None <==> !self.has(id@),
            r matches Some(p) ==> *p == self.record(id@),
    {
        match self.find(id) {
            Some(i) => Some(&self.entries[i]),
            None => None,
        }
    }

    /// The record of `id`, if it is registered, to change it.
    pub fn get_mut(&mut self, id: &Identifier) -> (r: Option<&mut Participant>)
        requires
            old(self).wf(),
        ensures
            r is None <==> !old(self).has(id@),
            r is None ==> *final(self) == *old(self),
            r matches Some(p) ==> *p == old(self).record(id@) && final(self)@ == old(self)@.update(
                position_of(old(self)@, id@),
                *final(p),
            ),
    {
        match self.find(id) {
            Some(i) => Some(&mut self.entries[i]),
            None => None,
        }
    }

    /// The record at position `i`.
    pub fn at(&self, i: usize) -> (r: &Participant)
        requires
            i < self@.len(),
        ensures
            *r == self@[i as int],
    {
        &self.entries[i]
    }

    /// Whether `id` is registered and has contributed.
    pub fn has_contributed(&self, id: &Identifier) -> (r: bool)
        requires
            self.wf(),
        ensures
            r == (self.has(id@) && self.record(id@).contributed),
    {
        match self.find(id) {
            Some(i) => self.entries[i].has_contributed(),
            None => false,
        }
    }

    /// Records an accepted request of the participant at `i`.
    pub fn increment_nonce_at(&mut self, i: usize)
        requires
            old(self).wf(),
            i < old(self)@.len(),
            crate::participant::nonce_is_valid(old(self)@[i as int].nonce),
        ensures
            final(self).wf(),
            final(self)@ == old(self)@.update(i as int, advanced(old(self)@[i as int])),
    {
        let mut p = self.entries.remove(i);
        p.increment_nonce();
        self.entries.insert(i, p);
        proof {
            assert(self@ =~= old(self)@.update(i as int, p));
            lemma_replace(old(self)@, i as int, p);
        }
    }

    /// Lowers the priority of the participant at `i` by one level.
    pub fn reduce_priority_at(&mut self, i: usize)
        requires
            old(self).wf(),
            i < old(self)@.len(),
        ensures
            final(self).wf(),
            final(self)@ == old(self)@.update(i as int, lowered(old(self)@[i as int])),
    {
        let mut p = self.entries.remove(i);
        p.reduce_priority();
        self.entries.insert(i, p);
        proof {
            assert(self@ =~= old(self)@.update(i as int, p));
            lemma_replace(old(self)@, i as int, p);
        }
    }

    /// Marks the participant at `i` as having contributed.
    pub fn set_contributed_at(&mut self, i: usize)
        requires
            old(self).wf(),
            i < old(self)@.len(),
        ensures
            final(self).wf(),
            final(self)@ == old(self)@.update(i as int, marked(old(self)@[i as int])),
    {
        let mut p = self.entries.remove(i);
        p.set_contributed();
        self.entries.insert(i, p);
        proof {
            assert(self@ =~= old(self)@.update(i as int, p));
            lemma_replace(old(self)@, i as int, p);
        }
    }
}

} // verus!
