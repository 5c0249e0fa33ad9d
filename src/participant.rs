//! Participant identifiers and registration records.

use vstd::prelude::*;

verus! {

/// Number of bytes in a participant identifier.
pub const IDENTIFIER_SIZE: usize = 32;

/// A participant identifier: an opaque fixed-size byte value.
#[derive(Clone, Copy, Debug)]
pub struct Identifier {
    pub bytes: [u8; 32],
}

impl View for Identifier {
    type V = Seq<u8>;

    open spec fn view(&self) -> Seq<u8> {
        self.bytes@
    }
}

impl Identifier {
    /// Builds an identifier from its bytes.
    pub fn new(bytes: [u8; 32]) -> (r: Self)
        ensures
            r@ == bytes@,
    {
        Identifier { bytes }
    }

    /// Whether `self` and `other` are the same identifier.
    pub fn equals(&self, other: &Identifier) -> (r: bool)
        ensures
            r == (self@ == other@),
    {
        let mut i: usize = 0;
        while i < IDENTIFIER_SIZE
            invariant
                0 <= i <= IDENTIFIER_SIZE,
                self@.len() == IDENTIFIER_SIZE,
                other@.len() == IDENTIFIER_SIZE,
                forall|j: int| 0 <= j < i ==> self@[j] == other@[j],
            decreases IDENTIFIER_SIZE - i,
        {
            if self.bytes[i] != other.bytes[i] {
                return false;
            }
            i = i + 1;
        }
        assert(self@ =~= other@);
        true
    }
}

/// Whether a nonce may still sign a request: the largest value is spent.
pub open spec fn nonce_is_valid(n: u64) -> bool {
    n < u64::MAX
}

/// Whether `n` may still sign a request.
pub fn is_valid_nonce(n: u64) -> (r: bool)
    ensures
        r == nonce_is_valid(n),
{
    n < u64::MAX
}

/// A registered participant.
///
/// `priority` counts up from the lowest level, 0, which is where a priority
/// reduction stops. The two ghost fields keep the nonce that registration
/// gave and the number of requests whose signature was accepted since.
pub struct Participant {
    pub identifier: Identifier,
    pub verifying_key: Vec<u8>,
    pub twitter: String,
    pub email: String,
    pub priority: u8,
    pub nonce: u64,
    pub contributed: bool,
    pub registered_nonce: Ghost<u64>,
    pub accepted_requests: Ghost<nat>,
}

/// `p` one priority level lower, stopping at 0.
pub open spec fn lowered(p: Participant) -> Participant {
    Participant { priority: if p.priority == 0 { 0 } else { (p.priority - 1) as u8 }, ..p }
}

/// `p` after a request signed with its nonce was accepted.
pub open spec fn advanced(p: Participant) -> Participant {
    Participant {
        nonce: (p.nonce + 1) as u64,
        accepted_requests: Ghost(p.accepted_requests@ + 1),
        ..p
    }
}

/// `p` once it has contributed.
pub open spec fn marked(p: Participant) -> Participant {
    Participant { contributed: true, ..p }
}

impl Participant {
    /// The nonce is the registered one, advanced once per accepted request.
    pub open spec fn wf(&self) -> bool {
        self.nonce == self.registered_nonce@ + self.accepted_requests@
    }

    /// Registers a participant that has not contributed yet.
    pub fn new(
        identifier: Identifier,
        verifying_key: Vec<u8>,
        twitter: String,
        email: String,
        priority: u8,
        nonce: u64,
    ) -> (r: Self)
        ensures
            r.wf(),
            r.identifier == identifier,
            r.verifying_key == verifying_key,
            r.twitter == twitter,
            r.email == email,
            r.priority == priority,
            r.nonce == nonce,
            !r.contributed,
            r.registered_nonce@ == nonce,
            r.accepted_requests@ == 0,
    {
        Participant {
            identifier,
            verifying_key,
            twitter,
            email,
            priority,
            nonce,
            contributed: false,
            registered_nonce: Ghost(nonce),
            accepted_requests: Ghost(0),
        }
    }

    /// Whether the participant has contributed.
    pub fn has_contributed(&self) -> (r: bool)
        ensures
            r == self.contributed,
    {
        self.contributed
    }

    /// The nonce that the next request must carry.
    pub fn nonce(&self) -> (r: u64)
        ensures
            r == self.nonce,
    {
        self.nonce
    }

    /// The priority level, 0 being the lowest.
    pub fn priority(&self) -> (r: u8)
        ensures
            r == self.priority,
    {
        self.priority
    }

    /// The key that checks the participant's signatures.
    pub fn verifying_key(&self) -> (r: &Vec<u8>)
        ensures
            r == &self.verifying_key,
    {
        &self.verifying_key
    }

    /// Lowers the priority by one level, stopping at 0.
    pub fn reduce_priority(&mut self)
        ensures
            *final(self) == lowered(*old(self)),
    {
        if self.priority > 0 {
            self.priority = self.priority - 1;
        }
    }

    /// Records that a request signed with the current nonce was accepted.
    pub fn increment_nonce(&mut self)
        requires
            old(self).wf(),
            nonce_is_valid(old(self).nonce),
        ensures
            final(self).wf(),
            *final(self) == advanced(*old(self)),
    {
        self.nonce = self.nonce + 1;
        self.accepted_requests = Ghost(self.accepted_requests@ + 1);
    }

    /// Marks the participant as having contributed.
    pub fn set_contributed(&mut self)
        ensures
            *final(self) == marked(*old(self)),
    {
        self.contributed = true;
    }
}

} // verus!
