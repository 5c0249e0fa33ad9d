//! The ceremony coordinator: request preprocessing, the lock rules, state
//! updates and the round counter.

use crate::encoding::{le_bytes, push_u64};
use crate::error::{CeremonyError, UnexpectedError};
use crate::lock::{
    demoted, lock_check_holder, lock_check_outcome, lock_check_queue, lock_expired, LockQueue,
};
use crate::mpc::{
    copy_proof, copy_state, next_challenge, proof_bytes, push_proof, push_state, state_bytes,
    transform_valid, verify_transform, Challenge, PairingEngine, Proof, ProofModel, State,
    StateModel,
};
use crate::participant::{advanced, lowered, marked, nonce_is_valid, Identifier, Participant};
use crate::queue::{front_of, level_for, level_of, no_repeats, popped};
use crate::registry::{
    contributed_count, holds, lemma_count_bound, lemma_position, lemma_replace, position_of,
    record_of, Registry,
};
use crate::signature::{SignatureScheme, SignedMessage};
use vstd::prelude::*;

verus! {

/// Whether `request` carries the stored nonce of `p` and a signature that
/// verifies over it and `payload`.
pub open spec fn signature_ok<S: SignatureScheme>(
    scheme: &S,
    p: Participant,
    request: SignedMessage,
    payload: Seq<u8>,
) -> bool {
    request.nonce == p.nonce && scheme.accepts(p.verifying_key@, p.nonce, payload, request.signature@)
}

/// What preprocessing answers to `request` over the registry records `s`:
/// the sender's priority, or why the request is refused.
pub open spec fn preprocess_outcome<S: SignatureScheme>(
    s: Seq<Participant>,
    scheme: &S,
    request: SignedMessage,
    payload: Seq<u8>,
) -> Result<u8, CeremonyError> {
    let id = request.identifier@;
    if !crate::registry::holds(s, id) {
        Err(CeremonyError::NotRegistered)
    } else {
        let p = record_of(s, id);
        if p.contributed {
            Err(CeremonyError::AlreadyContributed)
        } else if !nonce_is_valid(p.nonce) {
            Err(CeremonyError::Unexpected(UnexpectedError::AllNoncesUsed))
        } else if !signature_ok(scheme, p, request, payload) {
            Err(CeremonyError::InvalidSignature { expected_nonce: p.nonce })
        } else {
            Ok(p.priority)
        }
    }
}

/// The registry records after preprocessing `request`: an accepted request
/// advances its sender's nonce, a refused one changes nothing.
pub open spec fn preprocessed<S: SignatureScheme>(
    s: Seq<Participant>,
    scheme: &S,
    request: SignedMessage,
    payload: Seq<u8>,
) -> Seq<Participant> {
    if preprocess_outcome(s, scheme, request, payload) is Ok {
        s.update(position_of(s, request.identifier@), advanced(record_of(s, request.identifier@)))
    } else {
        s
    }
}

/// The registry as the coordinator uses it.
pub struct CoordinatorRegistry {
    pub registry: Registry,
}

impl CoordinatorRegistry {
    /// Wraps `registry`.
    pub fn new(registry: Registry) -> (r: Self)
        ensures
            r.registry == registry,
    {
        CoordinatorRegistry { registry }
    }

    /// The registry.
    pub fn registry(&self) -> (r: &Registry)
        ensures
            *r == self.registry,
    {
        &self.registry
    }

    /// The record of `id`, if it is registered.
    pub fn participant(&self, id: &Identifier) -> (r: Option<&Participant>)
        requires
            self.registry.wf(),
        ensures
            r is None <==> !self.registry.has(id@),
            r matches Some(p) ==> *p == self.registry.record(id@),
    {
        self.registry.get(id)
    }

    /// The record of `id`, if it is registered, to change it.
    pub fn participant_mut(&mut self, id: &Identifier) -> (r: Option<&mut Participant>)
        requires
            old(self).registry.wf(),
        ensures
            r is None <==> !old(self).registry.has(id@),
            r is None ==> *final(self) == *old(self),
            r matches Some(p) ==> *p == old(self).registry.record(id@)
                && final(self).registry@ == old(self).registry@.update(
                position_of(old(self).registry@, id@),
                *final(p),
            ),
    {
        self.registry.get_mut(id)
    }

    /// Checks that the sender of `request` is registered, has not
    /// contributed, has a nonce left, and signed the stored nonce and
    /// `payload`; then advances the nonce and returns the sender's priority.
    pub fn preprocess_request<S: SignatureScheme>(
        &mut self,
        scheme: &S,
        request: &SignedMessage,
        payload: &[u8],
    ) -> (r: Result<u8, CeremonyError>)
        requires
            old(self).registry.wf(),
        ensures
            final(self).registry.wf(),
            r == preprocess_outcome(old(self).registry@, scheme, *request, payload@),
            final(self).registry@ == preprocessed(old(self).registry@, scheme, *request, payload@),
    {
        let i = match self.registry.find(request.identifier()) {
            Some(i) => i,
            None => return Err(CeremonyError::NotRegistered),
        };
        let participant = self.registry.at(i);
        if participant.has_contributed() {
            return Err(CeremonyError::AlreadyContributed);
        }
        let nonce = participant.nonce();
        if !crate::participant::is_valid_nonce(nonce) {
            return Err(CeremonyError::Unexpected(UnexpectedError::AllNoncesUsed));
        }
        if request.nonce != nonce || !scheme.verify(
            participant.verifying_key().as_slice(),
            nonce,
            payload,
            request.signature.as_slice(),
        ) {
            return Err(CeremonyError::InvalidSignature { expected_nonce: nonce });
        }
        let priority = participant.priority();
        self.registry.increment_nonce_at(i);
        Ok(priority)
    }
}

/// The number of query points of one circuit.
#[derive(Clone, Copy, Debug, PartialEq, Eq)]
pub struct CircuitSize {
    pub h_query: usize,
    pub l_query: usize,
}

/// What a client learns of the ceremony.
pub struct Metadata {
    pub contribution_time_limit: u64,
    pub ceremony_size: Vec<CircuitSize>,
}

/// Whether the states have the sizes that `sizes` gives, circuit by circuit.
pub open spec fn sizes_match(sizes: Seq<CircuitSize>, states: Seq<State>) -> bool {
    &&& sizes.len() == states.len()
    &&& forall|i: int|
        0 <= i < states.len() ==> (#[trigger] states[i]).h_query@.len() == sizes[i].h_query
            && states[i].l_query@.len() == sizes[i].l_query
}

impl Metadata {
    /// Number of circuits.
    pub fn circuit_count(&self) -> (r: usize)
        ensures
            r == self.ceremony_size@.len(),
    {
        self.ceremony_size.len()
    }

    /// A copy of the metadata.
    pub fn copy(&self) -> (r: Metadata)
        ensures
            r.contribution_time_limit == self.contribution_time_limit,
            r.ceremony_size@ == self.ceremony_size@,
    {
        let mut sizes: Vec<CircuitSize> = Vec::new();
        let mut i: usize = 0;
        while i < self.ceremony_size.len()
            invariant
                0 <= i <= self.ceremony_size@.len(),
                sizes@ == self.ceremony_size@.take(i as int),
            decreases self.ceremony_size@.len() - i,
        {
            let size = self.ceremony_size[i];
            sizes.push(CircuitSize { h_query: size.h_query, l_query: size.l_query });
            i = i + 1;
            assert(sizes@ =~= self.ceremony_size@.take(i as int));
        }
        assert(self.ceremony_size@.take(self.ceremony_size@.len() as int) =~= self.ceremony_size@);
        Metadata { contribution_time_limit: self.contribution_time_limit, ceremony_size: sizes }
    }
}

/// The models of a list of states.
pub open spec fn state_models(v: Seq<State>) -> Seq<StateModel> {
    v.map_values(|s: State| s@)
}

/// The models of a list of proofs.
pub open spec fn proof_models(v: Seq<Proof>) -> Seq<ProofModel> {
    v.map_values(|p: Proof| p@)
}

/// The byte strings of a list of challenges.
pub open spec fn challenge_bytes(v: Seq<Challenge>) -> Seq<Seq<u8>> {
    v.map_values(|c: Challenge| c@)
}

/// Whether every circuit's proof takes its state to the submitted one.
pub open spec fn all_transforms_valid<E: PairingEngine>(
    e: &E,
    challenges: Seq<Challenge>,
    prev: Seq<State>,
    next: Seq<State>,
    proofs: Seq<Proof>,
) -> bool {
    &&& next.len() == prev.len()
    &&& proofs.len() == prev.len()
    &&& forall|i: int|
        0 <= i < prev.len() ==> transform_valid(
            e,
            challenges[i]@,
            prev[i]@,
            (#[trigger] next[i])@,
            proofs[i]@,
        )
}

/// The challenges that follow the given ones, circuit by circuit.
pub open spec fn next_challenges(
    challenges: Seq<Challenge>,
    prev: Seq<State>,
    next: Seq<State>,
    proofs: Seq<Proof>,
) -> Seq<Seq<u8>> {
    Seq::new(
        prev.len(),
        |i: int| next_challenge(challenges[i]@, prev[i]@, next[i]@, proofs[i]@),
    )
}

/// The states and challenges of a round.
pub struct Round {
    pub state: Vec<State>,
    pub challenge: Vec<Challenge>,
}

/// The current states and challenges, and the proofs of the latest contribution.
pub struct StateChallengeProof {
    pub state: Vec<State>,
    pub challenge: Vec<Challenge>,
    pub latest_proof: Option<Vec<Proof>>,
}

/// A copy of a list of states.
fn copy_states(v: &Vec<State>) -> (r: Vec<State>)
    ensures
        state_models(r@) == state_models(v@),
{
    let mut out: Vec<State> = Vec::new();
    let mut i: usize = 0;
    while i < v.len()
        invariant
            0 <= i <= v@.len(),
            out@.len() == i,
            forall|j: int| 0 <= j < i ==> #[trigger] out@[j]@ == v@[j]@,
        decreases v@.len() - i,
    {
        out.push(copy_state(&v[i]));
        i = i + 1;
    }
    assert(state_models(out@) =~= state_models(v@));
    out
}

/// A copy of a list of challenges.
fn copy_challenges(v: &Vec<Challenge>) -> (r: Vec<Challenge>)
    ensures
        challenge_bytes(r@) == challenge_bytes(v@),
{
    let mut out: Vec<Challenge> = Vec::new();
    let mut i: usize = 0;
    while i < v.len()
        invariant
            0 <= i <= v@.len(),
            out@.len() == i,
            forall|j: int| 0 <= j < i ==> #[trigger] out@[j]@ == v@[j]@,
        decreases v@.len() - i,
    {
        let c: Challenge = v[i];
        out.push(c);
        i = i + 1;
    }
    assert(challenge_bytes(out@) =~= challenge_bytes(v@));
    out
}

impl StateChallengeProof {
    /// A copy of the current states and challenges.
    pub fn round_state(&self) -> (r: Round)
        ensures
            state_models(r.state@) == state_models(self.state@),
            challenge_bytes(r.challenge@) == challenge_bytes(self.challenge@),
    {
        Round { state: copy_states(&self.state), challenge: copy_challenges(&self.challenge) }
    }

    /// Verifies the contribution of every circuit and, only if all verify,
    /// replaces each state and challenge by its successor and keeps `proof`
    /// as the latest proof.
    pub fn update<E: PairingEngine>(
        &mut self,
        e: &E,
        state: Vec<State>,
        proof: Vec<Proof>,
    ) -> (r: Result<(), CeremonyError>)
        requires
            old(self).state@.len() == old(self).challenge@.len(),
        ensures
            final(self).state@.len() == final(self).challenge@.len(),
            final(self).state@.len() == old(self).state@.len(),
            r is Ok <==> all_transforms_valid(e, old(self).challenge@, old(self).state@, state@, proof@),
            r is Err ==> r == Err::<(), CeremonyError>(CeremonyError::BadRequest) && *final(self) == *old(self),
            r is Ok ==> {
                &&& state_models(final(self).state@) == state_models(state@)
                &&& challenge_bytes(final(self).challenge@) == next_challenges(
                    old(self).challenge@,
                    old(self).state@,
                    state@,
                    proof@,
                )
                &&& final(self).latest_proof matches Some(p) && proof_models(p@) == proof_models(proof@)
            },
    {
        let n = self.state.len();
        if state.len() != n || proof.len() != n {
            return Err(CeremonyError::BadRequest);
        }
        let mut next_states: Vec<State> = Vec::new();
        let mut next_challenges_v: Vec<Challenge> = Vec::new();
        let mut i: usize = 0;
        while i < n
            invariant
                n == self.state@.len(),
                n == self.challenge@.len(),
                n == state@.len(),
                n == proof@.len(),
                *self == *old(self),
                0 <= i <= n,
                next_states@.len() == i,
                next_challenges_v@.len() == i,
                forall|j: int| 0 <= j < i ==> (#[trigger] next_states@[j])@ == state@[j]@,
                forall|j: int|
                    0 <= j < i ==> transform_valid(
                        e,
                        self.challenge@[j]@,
                        self.state@[j]@,
                        (#[trigger] state@[j])@,
                        proof@[j]@,
                    ),
                forall|j: int|
                    0 <= j < i ==> (#[trigger] next_challenges_v@[j])@ == next_challenge(
                        self.challenge@[j]@,
                        self.state@[j]@,
                        state@[j]@,
                        proof@[j]@,
                    ),
            decreases n - i,
        {
            match verify_transform(e, &self.challenge[i], &self.state[i], copy_state(&state[i]), copy_proof(&proof[i])) {
                Ok((c, s)) => {
                    next_states.push(s);
                    next_challenges_v.push(c);
                },
                Err(_) => {
                    return Err(CeremonyError::BadRequest);
                },
            }
            i = i + 1;
        }
        proof {
            assert(state_models(next_states@) =~= state_models(state@));
            assert(challenge_bytes(next_challenges_v@) =~= next_challenges(
                self.challenge@,
                self.state@,
                state@,
                proof@,
            ));
        }
        self.state = next_states;
        self.challenge = next_challenges_v;
        self.latest_proof = Some(proof);
        Ok(())
    }
}

/// The encodings of a list of states, one after another.
pub open spec fn states_bytes(v: Seq<State>) -> Seq<u8>
    decreases v.len(),
{
    if v.len() == 0 {
        Seq::empty()
    } else {
        states_bytes(v.drop_last()) + state_bytes(v.last()@)
    }
}

/// The encodings of a list of proofs, one after another.
pub open spec fn proofs_bytes(v: Seq<Proof>) -> Seq<u8>
    decreases v.len(),
{
    if v.len() == 0 {
        Seq::empty()
    } else {
        proofs_bytes(v.drop_last()) + proof_bytes(v.last()@)
    }
}

/// The bytes that a contribution request is signed over: the number of
/// states, the states, the number of proofs and the proofs.
pub open spec fn contribution_payload(state: Seq<State>, proof: Seq<Proof>) -> Seq<u8> {
    le_bytes(state.len(), 8) + states_bytes(state) + le_bytes(proof.len(), 8) + proofs_bytes(proof)
}

/// The bytes that a contribution request is signed over.
pub fn contribution_payload_bytes(state: &Vec<State>, proof: &Vec<Proof>) -> (r: Vec<u8>)
    ensures
        r@ == contribution_payload(state@, proof@),
{
    let mut out: Vec<u8> = Vec::new();
    push_u64(&mut out, state.len() as u64);
    let ghost mark = out@;
    let mut i: usize = 0;
    while i < state.len()
        invariant
            0 <= i <= state@.len(),
            out@ == mark + states_bytes(state@.take(i as int)),
        decreases state@.len() - i,
    {
        push_state(&mut out, &state[i]);
        proof {
            assert(state@.take(i as int + 1).drop_last() =~= state@.take(i as int));
        }
        i = i + 1;
        assert(out@ =~= mark + states_bytes(state@.take(i as int)));
    }
    assert(state@.take(state@.len() as int) =~= state@);
    push_u64(&mut out, proof.len() as u64);
    let ghost mark2 = out@;
    let mut j: usize = 0;
    while j < proof.len()
        invariant
            0 <= j <= proof@.len(),
            out@ == mark2 + proofs_bytes(proof@.take(j as int)),
        decreases proof@.len() - j,
    {
        push_proof(&mut out, &proof[j]);
        proof {
            assert(proof@.take(j as int + 1).drop_last() =~= proof@.take(j as int));
        }
        j = j + 1;
        assert(out@ =~= mark2 + proofs_bytes(proof@.take(j as int)));
    }
    assert(proof@.take(proof@.len() as int) =~= proof@);
    assert(out@ =~= contribution_payload(state@, proof@));
    out
}

/// The answer to an enqueue request.
pub struct EnqueueResponse {
    /// The sender's place in the queue; `None` while it holds the lock.
    pub position: Option<usize>,
    pub metadata: Metadata,
}

/// The answer to a query.
pub enum QueryResponse {
    /// The sender waits at this place in the queue.
    Queued(usize),
    /// The sender holds the lock and contributes to this round.
    YourTurn(Round),
}

/// The answer to an accepted contribution.
pub struct ContributeResponse {
    /// The round that the contribution made.
    pub index: u64,
    /// The challenges that follow it, circuit by circuit.
    pub challenge: Vec<Challenge>,
}

/// The ceremony coordinator: registry, queue and lock, the current round's
/// states and challenges, and the round counter.
pub struct Coordinator<E: PairingEngine, S: SignatureScheme> {
    pub lock_queue: LockQueue,
    pub coordinator_registry: CoordinatorRegistry,
    pub sclp: StateChallengeProof,
    pub metadata: Metadata,
    pub round: u64,
    pub engine: E,
    pub scheme: S,
}

impl<E: PairingEngine, S: SignatureScheme> Coordinator<E, S> {
    /// The registry records.
    pub open spec fn records(&self) -> Seq<Participant> {
        self.coordinator_registry.registry@
    }

    /// Whether `id` is registered and has not contributed.
    pub open spec fn eligible(&self, id: Seq<u8>) -> bool {
        holds(self.records(), id) && !record_of(self.records(), id).contributed
    }

    /// The coordinator's invariant: the parts are well formed, every circuit
    /// has a state and a challenge, no more rounds were made than there are
    /// contributors, and whoever waits in the queue or holds the lock is
    /// registered and has not contributed.
    pub open spec fn wf(&self) -> bool {
        &&& self.coordinator_registry.registry.wf()
        &&& self.lock_queue.wf()
        &&& self.sclp.state@.len() == self.sclp.challenge@.len()
        &&& self.sclp.state@.len() == self.metadata.ceremony_size@.len()
        &&& self.round <= contributed_count(self.records())
        &&& forall|x: Seq<u8>| #[trigger] self.lock_queue.queue.contains(x) ==> self.eligible(x)
        &&& self.lock_queue.participant_lock matches Some(h) ==> self.eligible(h@)
    }

    /// Builds a coordinator at round 0 with an empty queue and a free lock.
    pub fn new(
        registry: Registry,
        state: Vec<State>,
        challenge: Vec<Challenge>,
        metadata: Metadata,
        level_count: usize,
        engine: E,
        scheme: S,
    ) -> (r: Self)
        requires
            registry.wf(),
            challenge@.len() == state@.len(),
            sizes_match(metadata.ceremony_size@, state@),
            level_count >= 1,
        ensures
            r.wf(),
            r.round == 0,
            r.records() == registry@,
            r.lock_queue.participant_lock is None,
            r.lock_queue.queue.flat() == Seq::<Identifier>::empty(),
            r.lock_queue.queue@.len() == level_count,
            r.sclp.state@ == state@,
            r.sclp.challenge@ == challenge@,
            r.sclp.latest_proof is None,
    {
        Coordinator {
            lock_queue: LockQueue::new(level_count),
            coordinator_registry: CoordinatorRegistry::new(registry),
            sclp: StateChallengeProof { state, challenge, latest_proof: None },
            metadata,
            round: 0,
            engine,
            scheme,
        }
    }

    /// The number of contributions accepted so far.
    pub fn round(&self) -> (r: u64)
        ensures
            r == self.round,
    {
        self.round
    }

    /// The ceremony metadata.
    pub fn metadata(&self) -> (r: &Metadata)
        ensures
            *r == self.metadata,
    {
        &self.metadata
    }

    /// The registry changed only in nonces and priorities keeps the invariant.
    proof fn lemma_records_replaced(old_c: &Self, new_c: &Self, i: int, p: Participant)
        requires
            old_c.wf(),
            0 <= i < old_c.records().len(),
            p.identifier@ == old_c.records()[i].identifier@,
            p.contributed == old_c.records()[i].contributed,
            p.wf(),
            new_c.records() == old_c.records().update(i, p),
        ensures
            forall|x: Seq<u8>| #[trigger] holds(new_c.records(), x) == holds(old_c.records(), x),
            forall|x: Seq<u8>|
                holds(old_c.records(), x) ==> #[trigger] record_of(new_c.records(), x).contributed
                    == record_of(old_c.records(), x).contributed,
            contributed_count(new_c.records()) == contributed_count(old_c.records()),
    {
        lemma_replace(old_c.records(), i, p);
        lemma_position(old_c.records(), i);
    }

    /// Checks a request's sender and signature and advances its nonce.
    pub fn preprocess_request(
        &mut self,
        request: &SignedMessage,
        payload: &[u8],
    ) -> (r: Result<u8, CeremonyError>)
        requires
            old(self).wf(),
        ensures
            final(self).wf(),
            r == preprocess_outcome(old(self).records(), &old(self).scheme, *request, payload@),
            final(self).records() == preprocessed(old(self).records(), &old(self).scheme, *request, payload@),
            final(self).lock_queue == old(self).lock_queue,
            final(self).sclp == old(self).sclp,
            final(self).round == old(self).round,
            final(self).metadata == old(self).metadata,
            final(self).engine == old(self).engine,
            final(self).scheme == old(self).scheme,
    {
        let ghost before = *self;
        let r = self.coordinator_registry.preprocess_request(&self.scheme, request, payload);
        proof {
            if r is Ok {
                let s = before.records();
                let id = request.identifier@;
                let i = position_of(s, id);
                lemma_position(s, i);
                Self::lemma_records_replaced(&before, self, i, advanced(record_of(s, id)));
            }
        }
        r
    }

    /// Lowering the priority of a lock holder keeps the invariant's view of the registry.
    proof fn lemma_demoted(old_c: &Self, new_c: &Self, holder: Option<Identifier>)
        requires
            old_c.wf(),
            new_c.records() == demoted(old_c.records(), holder),
        ensures
            forall|x: Seq<u8>| #[trigger] holds(new_c.records(), x) == holds(old_c.records(), x),
            forall|x: Seq<u8>|
                holds(old_c.records(), x) ==> #[trigger] record_of(new_c.records(), x).contributed
                    == record_of(old_c.records(), x).contributed,
            contributed_count(new_c.records()) == contributed_count(old_c.records()),
    {
        let s = old_c.records();
        if let Some(h) = holder {
            if holds(s, h@) {
                let i = position_of(s, h@);
                lemma_position(s, i);
                assert(s[i].wf());
                Self::lemma_records_replaced(old_c, new_c, i, lowered(record_of(s, h@)));
            }
        }
    }

    /// Places the sender of `request` in the queue at the level of its
    /// priority, unless it waits already or holds the lock, and returns its
    /// place with the ceremony metadata.
    pub fn enqueue(
        &mut self,
        request: &SignedMessage,
    ) -> (r: Result<EnqueueResponse, CeremonyError>)
        requires
            old(self).wf(),
        ensures
            final(self).wf(),
            final(self).records() == preprocessed(old(self).records(), &old(self).scheme, *request, Seq::empty()),
            final(self).lock_queue.participant_lock == old(self).lock_queue.participant_lock,
            final(self).sclp == old(self).sclp,
            final(self).round == old(self).round,
            ({
                let id = request.identifier@;
                let pre = preprocess_outcome(old(self).records(), &old(self).scheme, *request, Seq::empty());
                let held = old(self).lock_queue.participant_lock matches Some(h) && h@ == id;
                let q = old(self).lock_queue.queue;
                let level = level_for(pre->Ok_0, q@.len()) as int;
                let added = !held && !q.contains(id) && q.flat().len() < usize::MAX;
                &&& pre matches Err(e) ==> (r == Err::<EnqueueResponse, CeremonyError>(e)
                    && final(self).lock_queue == old(self).lock_queue)
                &&& pre is Ok ==> {
                    &&& r matches Ok(resp)
                    &&& final(self).lock_queue.queue@ == if added {
                        q@.update(level, q@[level].push(request.identifier))
                    } else {
                        q@
                    }
                    &&& resp.position is None <==> (held || !final(self).lock_queue.queue.contains(id))
                    &&& resp.position matches Some(p) ==> (p < final(self).lock_queue.queue.flat().len()
                        && final(self).lock_queue.queue.flat()[p as int]@ == id)
                    &&& resp.metadata.contribution_time_limit == old(self).metadata.contribution_time_limit
                    &&& resp.metadata.ceremony_size@ == old(self).metadata.ceremony_size@
                }
            }),
    {
        let ghost before = *self;
        let empty: Vec<u8> = Vec::new();
        let priority = match self.preprocess_request(request, empty.as_slice()) {
            Ok(p) => p,
            Err(e) => return Err(e),
        };
        assert(empty@ =~= Seq::<u8>::empty());
        let ghost mid = *self;
        let id = request.identifier;
        let position = if self.lock_queue.is_held_by(&id) {
            None
        } else {
            let level = level_of(priority, self.lock_queue.queue.level_count());
            self.lock_queue.queue.push(id, level);
            self.lock_queue.queue.position(&id)
        };
        proof {
            let s0 = before.records();
            let i0 = position_of(s0, id@);
            lemma_position(s0, i0);
            lemma_replace(s0, i0, advanced(record_of(s0, id@)));
            assert forall|x: Seq<u8>| #[trigger] self.lock_queue.queue.contains(x) implies self.eligible(x) by {
                if x != id@ {
                    assert(mid.lock_queue.queue.contains(x));
                }
            }
        }
        Ok(EnqueueResponse { position, metadata: self.metadata.copy() })
    }

    /// Answers a query of the sender of `request` at time `now`: after the
    /// lock rules have run, the current round if it holds the lock, else
    /// its place in the queue. A holder whose time ran out is told so, and
    /// a sender that neither holds the lock nor waits is told that it is
    /// not its turn.
    pub fn query(
        &mut self,
        request: &SignedMessage,
        now: u64,
    ) -> (r: Result<QueryResponse, CeremonyError>)
        requires
            old(self).wf(),
        ensures
            final(self).wf(),
            final(self).sclp == old(self).sclp,
            final(self).round == old(self).round,
            ({
                let id = request.identifier@;
                let pre = preprocess_outcome(old(self).records(), &old(self).scheme, *request, Seq::empty());
                let after = preprocessed(old(self).records(), &old(self).scheme, *request, Seq::empty());
                let lq = old(self).lock_queue;
                let limit = old(self).metadata.contribution_time_limit;
                let lock = lock_check_outcome(lq, id, limit, now);
                &&& pre matches Err(e) ==> (r == Err::<QueryResponse, CeremonyError>(e)
                    && final(self).lock_queue == lq && final(self).records() == after)
                &&& pre is Ok ==> {
                    &&& final(self).lock_queue.participant_lock == lock_check_holder(lq, id, limit, now)
                    &&& final(self).lock_queue.queue@ == lock_check_queue(lq, id, limit, now)
                    &&& final(self).records() == if lock_expired(lq.participant_lock, lq.acquired_at, now, limit) {
                        demoted(after, lq.participant_lock)
                    } else {
                        after
                    }
                    &&& lock is Ok ==> (r matches Ok(QueryResponse::YourTurn(round)) && state_models(
                        round.state@,
                    ) == state_models(old(self).sclp.state@) && challenge_bytes(round.challenge@)
                        == challenge_bytes(old(self).sclp.challenge@))
                    &&& lock == Err::<(), CeremonyError>(CeremonyError::Timeout) ==> r == Err::<
                        QueryResponse,
                        CeremonyError,
                    >(CeremonyError::Timeout)
                    &&& lock == Err::<(), CeremonyError>(CeremonyError::NotYourTurn) ==> {
                        ||| (r matches Ok(QueryResponse::Queued(p)) && p < final(self).lock_queue.queue.flat().len()
                            && final(self).lock_queue.queue.flat()[p as int]@ == id)
                        ||| r == Err::<QueryResponse, CeremonyError>(CeremonyError::NotYourTurn)
                            && !final(self).lock_queue.queue.contains(id)
                    }
                }
            }),
    {
        let empty: Vec<u8> = Vec::new();
        match self.preprocess_request(request, empty.as_slice()) {
            Ok(_) => {},
            Err(e) => return Err(e),
        }
        assert(empty@ =~= Seq::<u8>::empty());
        let ghost mid = *self;
        let id = request.identifier;
        let limit = self.metadata.contribution_time_limit;
        let checked = self.lock_queue.check_lock(&id, &mut self.coordinator_registry.registry, limit, now);
        proof {
            let lq = mid.lock_queue;
            let expired = lock_expired(lq.participant_lock, lq.acquired_at, now, limit);
            Self::lemma_demoted(&mid, self, if expired { lq.participant_lock } else { None });
            assert forall|x: Seq<u8>| #[trigger] self.lock_queue.queue.contains(x) implies self.eligible(x) by {
                assert(mid.lock_queue.queue.contains(x));
            }
            if let Some(h) = self.lock_queue.participant_lock {
                if mid.lock_queue.participant_lock != Some(h) {
                    assert(mid.lock_queue.queue.contains(h@));
                }
            }
        }
        match checked {
            Ok(()) => Ok(QueryResponse::YourTurn(self.sclp.round_state())),
            Err(CeremonyError::Timeout) => Err(CeremonyError::Timeout),
            Err(_) => match self.lock_queue.queue.position(&id) {
                Some(p) => Ok(QueryResponse::Queued(p)),
                None => Err(CeremonyError::NotYourTurn),
            },
        }
    }

    /// Accepts the contribution of the sender of `request` at time `now`:
    /// after preprocessing and the lock rules, every circuit's transform is
    /// verified; only if all verify are the states and challenges replaced,
    /// the sender marked as contributed and the round counter advanced. The
    /// lock passes to the front of the queue whether or not the
    /// contribution verifies.
    pub fn update(
        &mut self,
        request: &SignedMessage,
        state: Vec<State>,
        proof: Vec<Proof>,
        now: u64,
    ) -> (r: Result<ContributeResponse, CeremonyError>)
        requires
            old(self).wf(),
        ensures
            final(self).wf(),
            r is Err ==> final(self).round == old(self).round && final(self).sclp == old(self).sclp,
            ({
                let id = request.identifier@;
                let payload = contribution_payload(state@, proof@);
                let pre = preprocess_outcome(old(self).records(), &old(self).scheme, *request, payload);
                let lq = old(self).lock_queue;
                let limit = old(self).metadata.contribution_time_limit;
                let lock = lock_check_outcome(lq, id, limit, now);
                let valid = all_transforms_valid(
                    &old(self).engine,
                    old(self).sclp.challenge@,
                    old(self).sclp.state@,
                    state@,
                    proof@,
                );
                let next_front = front_of(lock_check_queue(lq, id, limit, now));
                &&& pre matches Err(e) ==> (r == Err::<ContributeResponse, CeremonyError>(e)
                    && final(self).lock_queue == lq)
                &&& pre is Ok ==> (lock matches Err(e) ==> r == Err::<ContributeResponse, CeremonyError>(e)
                    && final(self).lock_queue.participant_lock == lock_check_holder(lq, id, limit, now)
                    && final(self).lock_queue.queue@ == lock_check_queue(lq, id, limit, now))
                &&& (pre is Ok && lock is Ok) ==> final(self).lock_queue.queue@ == popped(
                    lock_check_queue(lq, id, limit, now),
                )
                &&& (pre is Ok && lock is Ok && !valid) ==> {
                    &&& r == Err::<ContributeResponse, CeremonyError>(CeremonyError::BadRequest)
                    &&& final(self).lock_queue.participant_lock == next_front
                    &&& final(self).eligible(id)
                }
                &&& (pre is Ok && lock is Ok && valid) ==> {
                    &&& r matches Ok(resp)
                    &&& final(self).round == old(self).round + 1
                    &&& resp.index == final(self).round
                    &&& state_models(final(self).sclp.state@) == state_models(state@)
                    &&& challenge_bytes(final(self).sclp.challenge@) == next_challenges(
                        old(self).sclp.challenge@,
                        old(self).sclp.state@,
                        state@,
                        proof@,
                    )
                    &&& challenge_bytes(resp.challenge@) == challenge_bytes(final(self).sclp.challenge@)
                    &&& final(self).sclp.latest_proof matches Some(p) && proof_models(p@) == proof_models(proof@)
                    &&& final(self).lock_queue.participant_lock == next_front
                    &&& holds(final(self).records(), id)
                    &&& record_of(final(self).records(), id).contributed
                }
            }),
    {
        let payload = contribution_payload_bytes(&state, &proof);
        let ghost before = *self;
        match self.preprocess_request(request, payload.as_slice()) {
            Ok(_) => {},
            Err(e) => return Err(e),
        }
        let ghost mid = *self;
        let id = request.identifier;
        let limit = self.metadata.contribution_time_limit;
        let checked = self.lock_queue.check_lock(&id, &mut self.coordinator_registry.registry, limit, now);
        proof {
            let lq = mid.lock_queue;
            let expired = lock_expired(lq.participant_lock, lq.acquired_at, now, limit);
            Self::lemma_demoted(&mid, self, if expired { lq.participant_lock } else { None });
            assert forall|x: Seq<u8>| #[trigger] self.lock_queue.queue.contains(x) implies self.eligible(x) by {
                assert(mid.lock_queue.queue.contains(x));
            }
            if let Some(h) = self.lock_queue.participant_lock {
                if mid.lock_queue.participant_lock != Some(h) {
                    assert(mid.lock_queue.queue.contains(h@));
                }
            }
        }
        match checked {
            Ok(()) => {},
            Err(e) => return Err(e),
        }
        let ghost locked = *self;
        assert(self.eligible(id@));
        match self.sclp.update(&self.engine, state, proof) {
            Ok(()) => {},
            Err(e) => {
                self.lock_queue.release(now);
                proof {
                    assert forall|x: Seq<u8>| #[trigger] self.lock_queue.queue.contains(x) implies self.eligible(x) by {
                        assert(locked.lock_queue.queue.contains(x));
                    }
                }
                return Err(e);
            },
        }
        self.lock_queue.release(now);
        let ghost released = *self;
        proof {
            assert(!locked.lock_queue.queue.contains(id@));
            assert(!self.lock_queue.queue.contains(id@));
            if let Some(h) = self.lock_queue.participant_lock {
                assert(locked.lock_queue.queue.contains(h@));
                assert(h@ != id@);
            }
        }
        let i = match self.coordinator_registry.registry.find(&id) {
            Some(i) => i,
            None => return Err(CeremonyError::Unexpected(UnexpectedError::MissingRegisteredParticipant)),
        };
        self.coordinator_registry.registry.set_contributed_at(i);
        proof {
            let s = released.records();
            lemma_position(s, i as int);
            lemma_replace(s, i as int, marked(s[i as int]));
            lemma_count_bound(self.records());
            assert forall|x: Seq<u8>| #[trigger] self.lock_queue.queue.contains(x) implies self.eligible(x) by {
                assert(locked.lock_queue.queue.contains(x));
                assert(released.eligible(x));
            }
        }
        let n = self.coordinator_registry.registry.len();
        assert(self.round < n);
        self.round = self.round + 1;
        Ok(ContributeResponse { index: self.round, challenge: copy_challenges(&self.sclp.challenge) })
    }
}

/// In every state the coordinator reaches, no identifier waits twice in
/// the queue, and everyone who waits is registered and has not contributed.
pub proof fn lemma_queue_holds_no_contributor<E: PairingEngine, S: SignatureScheme>(
    c: &Coordinator<E, S>,
)
    requires
        c.wf(),
    ensures
        no_repeats(c.lock_queue.queue.flat()),
        forall|i: int|
            0 <= i < c.lock_queue.queue.flat().len() ==> #[trigger] c.eligible(
                c.lock_queue.queue.flat()[i]@,
            ),
{
    c.lock_queue.queue.lemma_no_repeats();
    assert forall|i: int| 0 <= i < c.lock_queue.queue.flat().len() implies #[trigger] c.eligible(
        c.lock_queue.queue.flat()[i]@,
    ) by {
        assert(c.lock_queue.queue.contains(c.lock_queue.queue.flat()[i]@));
    }
}

/// In every state the coordinator reaches, the lock holds at most one
/// identifier, which is registered, has not contributed, and does not wait
/// in the queue.
pub proof fn lemma_lock_holder_eligible<E: PairingEngine, S: SignatureScheme>(c: &Coordinator<E, S>)
    requires
        c.wf(),
    ensures
        c.lock_queue.participant_lock matches Some(h) ==> holds(c.records(), h@) && !record_of(
            c.records(),
            h@,
        ).contributed && !c.lock_queue.queue.contains(h@),
{
}

} // verus!
