//! The contribution transform of the phase-2 structured reference string and
//! its verification.

use crate::encoding::{copy_bytes, list_bytes, push_bytes, push_list, views};
use crate::hashing::{blake2b_512_of, hash_bytes};
use vstd::prelude::*;

verus! {

/// The transcript digest that binds a round to everything before it.
pub type Challenge = [u8; 64];

/// The pairing-friendly groups that the ceremony runs over, with points and
/// scalars given by their canonical compressed encodings.
///
/// The spec functions are provided so that an implementation outside
/// verified code compiles; a verified implementation defines them. What a
/// bilinear pairing satisfies is stated by [`pairing_laws`].
pub trait PairingEngine {
    /// Whether `p` encodes a point of G1 on the curve and in the prime-order subgroup.
    open spec fn g1_valid(&self, p: Seq<u8>) -> bool {
        false
    }

    /// Whether `p` encodes a point of G2 on the curve and in the prime-order subgroup.
    open spec fn g2_valid(&self, p: Seq<u8>) -> bool {
        false
    }

    /// Whether `p` encodes the identity of G1.
    open spec fn g1_zero(&self, p: Seq<u8>) -> bool {
        true
    }

    /// Whether `k` encodes the scalar zero.
    open spec fn scalar_zero(&self, k: Seq<u8>) -> bool {
        true
    }

    /// `[k]·p` in G1.
    open spec fn g1_mul(&self, p: Seq<u8>, k: Seq<u8>) -> Seq<u8> {
        Seq::empty()
    }

    /// `[k]·p` in G2.
    open spec fn g2_mul(&self, p: Seq<u8>, k: Seq<u8>) -> Seq<u8> {
        Seq::empty()
    }

    /// The multiplicative inverse of a scalar.
    open spec fn inverse(&self, k: Seq<u8>) -> Seq<u8> {
        Seq::empty()
    }

    /// The generator of G2.
    open spec fn g2_generator(&self) -> Seq<u8> {
        Seq::empty()
    }

    /// The domain-separated Fiat-Shamir point of a challenge and a ratio.
    open spec fn hash_to_g1(&self, challenge: Seq<u8>, s: Seq<u8>, s_delta: Seq<u8>) -> Seq<u8> {
        Seq::empty()
    }

    /// Whether `e(a, b) == e(c, d)`.
    open spec fn same_pairing(&self, a: Seq<u8>, b: Seq<u8>, c: Seq<u8>, d: Seq<u8>) -> bool {
        false
    }

    fn is_valid_g1(&self, p: &[u8]) -> (r: bool)
        ensures
            r == self.g1_valid(p@),
    ;

    fn is_valid_g2(&self, p: &[u8]) -> (r: bool)
        ensures
            r == self.g2_valid(p@),
    ;

    fn is_zero_g1(&self, p: &[u8]) -> (r: bool)
        ensures
            r == self.g1_zero(p@),
    ;

    fn is_zero_scalar(&self, k: &[u8]) -> (r: bool)
        ensures
            r == self.scalar_zero(k@),
    ;

    fn mul_g1(&self, p: &[u8], k: &[u8]) -> (r: Vec<u8>)
        ensures
            r@ == self.g1_mul(p@, k@),
    ;

    fn mul_g2(&self, p: &[u8], k: &[u8]) -> (r: Vec<u8>)
        ensures
            r@ == self.g2_mul(p@, k@),
    ;

    fn invert(&self, k: &[u8]) -> (r: Vec<u8>)
        requires
            !self.scalar_zero(k@),
        ensures
            r@ == self.inverse(k@),
    ;

    fn generator_g2(&self) -> (r: Vec<u8>)
        ensures
            r@ == self.g2_generator(),
    ;

    fn hash_g1(&self, challenge: &[u8], s: &[u8], s_delta: &[u8]) -> (r: Vec<u8>)
        ensures
            r@ == self.hash_to_g1(challenge@, s@, s_delta@),
    ;

    fn pairing_eq(&self, a: &[u8], b: &[u8], c: &[u8], d: &[u8]) -> (r: bool)
        ensures
            r == self.same_pairing(a@, b@, c@, d@),
    ;
}

/// The laws of a bilinear pairing on prime-order groups that the round trip
/// of a contribution rests on: nonzero multiples of valid points are valid
/// (and nonzero when the point is), inverses of nonzero scalars are
/// nonzero, the generator and the Fiat-Shamir points are valid,
/// `e([k]·a, b) == e(a, [k]·b)`, `e([k⁻¹]·a, [k]·b) == e(a, b)`, and
/// equality of pairings is symmetric.
pub open spec fn pairing_laws<E: PairingEngine>(e: &E) -> bool {
    &&& forall|p: Seq<u8>, k: Seq<u8>|
        #![trigger e.g1_mul(p, k)]
        !e.scalar_zero(k) && e.g1_valid(p) ==> e.g1_valid(e.g1_mul(p, k)) && (!e.g1_zero(p)
            ==> !e.g1_zero(e.g1_mul(p, k)))
    &&& forall|q: Seq<u8>, k: Seq<u8>|
        #![trigger e.g2_mul(q, k)]
        !e.scalar_zero(k) && e.g2_valid(q) ==> e.g2_valid(e.g2_mul(q, k))
    &&& forall|k: Seq<u8>| #![trigger e.inverse(k)] !e.scalar_zero(k) ==> !e.scalar_zero(e.inverse(k))
    &&& e.g2_valid(e.g2_generator())
    &&& forall|c: Seq<u8>, s: Seq<u8>, t: Seq<u8>| #![trigger e.hash_to_g1(c, s, t)] e.g1_valid(e.hash_to_g1(c, s, t))
    &&& forall|a: Seq<u8>, b: Seq<u8>, k: Seq<u8>|
        #![trigger e.g1_mul(a, k), e.g2_mul(b, k)]
        e.g1_valid(a) && e.g2_valid(b) ==> e.same_pairing(e.g1_mul(a, k), b, a, e.g2_mul(b, k))
    &&& forall|a: Seq<u8>, b: Seq<u8>, k: Seq<u8>|
        #![trigger e.g1_mul(a, e.inverse(k)), e.g2_mul(b, k)]
        e.g1_valid(a) && e.g2_valid(b) && !e.scalar_zero(k) ==> e.same_pairing(
            e.g1_mul(a, e.inverse(k)),
            e.g2_mul(b, k),
            a,
            b,
        )
    &&& forall|a: Seq<u8>, b: Seq<u8>, c: Seq<u8>, d: Seq<u8>|
        #![trigger e.same_pairing(a, b, c, d)]
        e.same_pairing(a, b, c, d) ==> e.same_pairing(c, d, a, b)
}

/// The structured reference string of one circuit.
pub struct State {
    pub delta_g1: Vec<u8>,
    pub delta_g2: Vec<u8>,
    pub h_query: Vec<Vec<u8>>,
    pub l_query: Vec<Vec<u8>>,
}

/// What a [`State`] holds, as byte strings.
pub struct StateModel {
    pub delta_g1: Seq<u8>,
    pub delta_g2: Seq<u8>,
    pub h_query: Seq<Seq<u8>>,
    pub l_query: Seq<Seq<u8>>,
}

impl View for State {
    type V = StateModel;

    open spec fn view(&self) -> StateModel {
        StateModel {
            delta_g1: self.delta_g1@,
            delta_g2: self.delta_g2@,
            h_query: views(self.h_query@),
            l_query: views(self.l_query@),
        }
    }
}

/// The proof that a contribution knows its scalar.
pub struct Proof {
    pub s: Vec<u8>,
    pub s_delta: Vec<u8>,
    pub r_delta: Vec<u8>,
    pub transcript_g2: Vec<u8>,
}

/// What a [`Proof`] holds, as byte strings.
pub struct ProofModel {
    pub s: Seq<u8>,
    pub s_delta: Seq<u8>,
    pub r_delta: Seq<u8>,
    pub transcript_g2: Seq<u8>,
}

impl View for Proof {
    type V = ProofModel;

    open spec fn view(&self) -> ProofModel {
        ProofModel {
            s: self.s@,
            s_delta: self.s_delta@,
            r_delta: self.r_delta@,
            transcript_g2: self.transcript_g2@,
        }
    }
}

/// Why a transform was refused.
#[derive(Clone, Copy, Debug, PartialEq, Eq)]
pub enum VerifyError {
    InvalidProof,
}

/// The canonical encoding of a state.
pub open spec fn state_bytes(s: StateModel) -> Seq<u8> {
    s.delta_g1 + s.delta_g2 + list_bytes(s.h_query) + list_bytes(s.l_query)
}

/// The canonical encoding of a proof.
pub open spec fn proof_bytes(p: ProofModel) -> Seq<u8> {
    p.s + p.s_delta + p.r_delta + p.transcript_g2
}

/// The challenge that follows `prev_challenge` when `proof` takes `prev` to `next`.
pub open spec fn next_challenge(
    prev_challenge: Seq<u8>,
    prev: StateModel,
    next: StateModel,
    proof: ProofModel,
) -> Seq<u8> {
    blake2b_512_of(prev_challenge + state_bytes(prev) + state_bytes(next) + proof_bytes(proof))
}

/// Whether every point of `s` is valid.
pub open spec fn state_valid<E: PairingEngine>(e: &E, s: StateModel) -> bool {
    &&& e.g1_valid(s.delta_g1)
    &&& e.g2_valid(s.delta_g2)
    &&& forall|i: int| 0 <= i < s.h_query.len() ==> e.g1_valid(#[trigger] s.h_query[i])
    &&& forall|i: int| 0 <= i < s.l_query.len() ==> e.g1_valid(#[trigger] s.l_query[i])
}

/// Whether every point of `p` is valid.
pub open spec fn proof_points_valid<E: PairingEngine>(e: &E, p: ProofModel) -> bool {
    &&& e.g1_valid(p.s)
    &&& e.g1_valid(p.s_delta)
    &&& e.g1_valid(p.r_delta)
    &&& e.g2_valid(p.transcript_g2)
}

/// Whether each point of `next` times the new delta pairs like the point of
/// `prev` at the same place times the old delta.
pub open spec fn queries_rescaled<E: PairingEngine>(
    e: &E,
    prev_query: Seq<Seq<u8>>,
    next_query: Seq<Seq<u8>>,
    prev_delta_g2: Seq<u8>,
    next_delta_g2: Seq<u8>,
) -> bool {
    &&& prev_query.len() == next_query.len()
    &&& forall|i: int|
        0 <= i < next_query.len() ==> e.same_pairing(
            #[trigger] next_query[i],
            next_delta_g2,
            prev_query[i],
            prev_delta_g2,
        )
}

/// Whether `proof` shows that `next` follows from `prev` under `challenge`.
pub open spec fn transform_valid<E: PairingEngine>(
    e: &E,
    challenge: Seq<u8>,
    prev: StateModel,
    next: StateModel,
    proof: ProofModel,
) -> bool {
    let g2 = e.g2_generator();
    let r = e.hash_to_g1(challenge, proof.s, proof.s_delta);
    &&& state_valid(e, next)
    &&& proof_points_valid(e, proof)
    &&& !e.g1_zero(proof.s)
    &&& !e.g1_zero(proof.s_delta)
    &&& e.same_pairing(proof.s_delta, g2, proof.s, proof.transcript_g2)
    &&& e.same_pairing(proof.r_delta, g2, r, proof.transcript_g2)
    &&& e.same_pairing(prev.delta_g1, proof.transcript_g2, next.delta_g1, g2)
    &&& queries_rescaled(e, prev.h_query, next.h_query, prev.delta_g2, next.delta_g2)
    &&& queries_rescaled(e, prev.l_query, next.l_query, prev.delta_g2, next.delta_g2)
}

/// Each point of `q` times `k` in G1.
pub open spec fn scaled<E: PairingEngine>(e: &E, q: Seq<Seq<u8>>, k: Seq<u8>) -> Seq<Seq<u8>> {
    q.map_values(|p: Seq<u8>| e.g1_mul(p, k))
}

/// The state that the scalar `delta` makes of `s`.
pub open spec fn contributed_state<E: PairingEngine>(
    e: &E,
    s: StateModel,
    delta: Seq<u8>,
) -> StateModel {
    StateModel {
        delta_g1: e.g1_mul(s.delta_g1, delta),
        delta_g2: e.g2_mul(s.delta_g2, delta),
        h_query: scaled(e, s.h_query, e.inverse(delta)),
        l_query: scaled(e, s.l_query, e.inverse(delta)),
    }
}

/// The proof of a contribution of `delta` with the random point `s`.
pub open spec fn contribution_proof<E: PairingEngine>(
    e: &E,
    challenge: Seq<u8>,
    s: Seq<u8>,
    delta: Seq<u8>,
) -> ProofModel {
    let s_delta = e.g1_mul(s, delta);
    ProofModel {
        s,
        s_delta,
        r_delta: e.g1_mul(e.hash_to_g1(challenge, s, s_delta), delta),
        transcript_g2: e.g2_mul(e.g2_generator(), delta),
    }
}

/// Whether `delta` and `s` may serve as the randomness of a contribution.
pub open spec fn randomness_ok<E: PairingEngine>(e: &E, delta: Seq<u8>, s: Seq<u8>) -> bool {
    !e.scalar_zero(delta) && e.g1_valid(s) && !e.g1_zero(s)
}

/// A copy of a state.
pub fn copy_state(s: &State) -> (r: State)
    ensures
        r@ == s@,
{
    State {
        delta_g1: copy_bytes(s.delta_g1.as_slice()),
        delta_g2: copy_bytes(s.delta_g2.as_slice()),
        h_query: copy_points(&s.h_query),
        l_query: copy_points(&s.l_query),
    }
}

/// A copy of a proof.
pub fn copy_proof(p: &Proof) -> (r: Proof)
    ensures
        r@ == p@,
{
    Proof {
        s: copy_bytes(p.s.as_slice()),
        s_delta: copy_bytes(p.s_delta.as_slice()),
        r_delta: copy_bytes(p.r_delta.as_slice()),
        transcript_g2: copy_bytes(p.transcript_g2.as_slice()),
    }
}

/// A copy of a list of points.
pub fn copy_points(v: &Vec<Vec<u8>>) -> (r: Vec<Vec<u8>>)
    ensures
        views(r@) == views(v@),
{
    let mut out: Vec<Vec<u8>> = Vec::new();
    let mut i: usize = 0;
    while i < v.len()
        invariant
            0 <= i <= v@.len(),
            out@.len() == i,
            forall|j: int| 0 <= j < i ==> #[trigger] out@[j]@ == v@[j]@,
        decreases v@.len() - i,
    {
        out.push(copy_bytes(v[i].as_slice()));
        i = i + 1;
    }
    assert(views(out@) =~= views(v@));
    out
}

/// Appends the canonical encoding of `s` to `out`.
pub fn push_state(out: &mut Vec<u8>, s: &State)
    ensures
        final(out)@ == old(out)@ + state_bytes(s@),
{
    push_bytes(out, s.delta_g1.as_slice());
    push_bytes(out, s.delta_g2.as_slice());
    push_list(out, &s.h_query);
    push_list(out, &s.l_query);
    assert(out@ =~= old(out)@ + state_bytes(s@));
}

/// Appends the canonical encoding of `p` to `out`.
pub fn push_proof(out: &mut Vec<u8>, p: &Proof)
    ensures
        final(out)@ == old(out)@ + proof_bytes(p@),
{
    push_bytes(out, p.s.as_slice());
    push_bytes(out, p.s_delta.as_slice());
    push_bytes(out, p.r_delta.as_slice());
    push_bytes(out, p.transcript_g2.as_slice());
    assert(out@ =~= old(out)@ + proof_bytes(p@));
}

/// The challenge that follows `prev_challenge` when `proof` takes `prev` to
/// `next`: Blake2b-512 over the previous challenge and the canonical
/// encodings of both states and of the proof.
pub fn challenge(
    prev_challenge: &Challenge,
    prev: &State,
    next: &State,
    proof: &Proof,
) -> (r: Challenge)
    ensures
        r@ == next_challenge(prev_challenge@, prev@, next@, proof@),
{
    let mut data: Vec<u8> = Vec::new();
    push_bytes(&mut data, prev_challenge);
    push_state(&mut data, prev);
    push_state(&mut data, next);
    push_proof(&mut data, proof);
    assert(data@ =~= prev_challenge@ + state_bytes(prev@) + state_bytes(next@) + proof_bytes(proof@));
    hash_bytes(data.as_slice())
}

/// Each point of `q` times `k` in G1.
fn scale_points<E: PairingEngine>(e: &E, q: &Vec<Vec<u8>>, k: &[u8]) -> (r: Vec<Vec<u8>>)
    ensures
        views(r@) == scaled(e, views(q@), k@),
{
    let mut out: Vec<Vec<u8>> = Vec::new();
    let mut i: usize = 0;
    while i < q.len()
        invariant
            0 <= i <= q@.len(),
            out@.len() == i,
            forall|j: int| 0 <= j < i ==> #[trigger] out@[j]@ == e.g1_mul(q@[j]@, k@),
        decreases q@.len() - i,
    {
        out.push(e.mul_g1(q[i].as_slice(), k));
        i = i + 1;
    }
    assert(views(out@) =~= scaled(e, views(q@), k@));
    out
}

/// Applies the secret scalar `delta` to `state`: both deltas are multiplied
/// by it, every query point by its inverse, and the proof is built with the
/// random point `s`. Returns `None` where `delta` is zero or `s` is not a
/// valid nonzero point of G1.
pub fn contribute<E: PairingEngine>(
    e: &E,
    state: &State,
    challenge: &Challenge,
    delta: &[u8],
    s: &[u8],
) -> (r: Option<(State, Proof)>)
    ensures
        r is Some <==> randomness_ok(e, delta@, s@),
        r matches Some((n, p)) ==> n@ == contributed_state(e, state@, delta@)
            && p@ == contribution_proof(e, challenge@, s@, delta@),
{
    if e.is_zero_scalar(delta) || !e.is_valid_g1(s) || e.is_zero_g1(s) {
        return None;
    }
    let inverse = e.invert(delta);
    let next = State {
        delta_g1: e.mul_g1(state.delta_g1.as_slice(), delta),
        delta_g2: e.mul_g2(state.delta_g2.as_slice(), delta),
        h_query: scale_points(e, &state.h_query, inverse.as_slice()),
        l_query: scale_points(e, &state.l_query, inverse.as_slice()),
    };
    let s_delta = e.mul_g1(s, delta);
    let r = e.hash_g1(challenge, s, s_delta.as_slice());
    let r_delta = e.mul_g1(r.as_slice(), delta);
    let g2 = e.generator_g2();
    let transcript_g2 = e.mul_g2(g2.as_slice(), delta);
    let proof = Proof { s: copy_bytes(s), s_delta, r_delta, transcript_g2 };
    Some((next, proof))
}

/// Whether every point of `q` is a valid point of G1.
fn all_valid_g1<E: PairingEngine>(e: &E, q: &Vec<Vec<u8>>) -> (r: bool)
    ensures
        r == forall|i: int| 0 <= i < q@.len() ==> e.g1_valid(#[trigger] views(q@)[i]),
{
    let mut i: usize = 0;
    while i < q.len()
        invariant
            0 <= i <= q@.len(),
            forall|j: int| 0 <= j < i ==> e.g1_valid(#[trigger] views(q@)[j]),
        decreases q@.len() - i,
    {
        if !e.is_valid_g1(q[i].as_slice()) {
            assert(views(q@)[i as int] == q@[i as int]@);
            return false;
        }
        i = i + 1;
    }
    true
}

/// Whether each point of `next` times `next_delta` pairs like the point of
/// `prev` at the same place times `prev_delta`.
fn check_rescaled<E: PairingEngine>(
    e: &E,
    prev: &Vec<Vec<u8>>,
    next: &Vec<Vec<u8>>,
    prev_delta: &[u8],
    next_delta: &[u8],
) -> (r: bool)
    ensures
        r == queries_rescaled(e, views(prev@), views(next@), prev_delta@, next_delta@),
{
    if prev.len() != next.len() {
        return false;
    }
    let mut i: usize = 0;
    while i < next.len()
        invariant
            prev@.len() == next@.len(),
            0 <= i <= next@.len(),
            forall|j: int|
                0 <= j < i ==> e.same_pairing(
                    #[trigger] views(next@)[j],
                    next_delta@,
                    views(prev@)[j],
                    prev_delta@,
                ),
        decreases next@.len() - i,
    {
        if !e.pairing_eq(next[i].as_slice(), next_delta, prev[i].as_slice(), prev_delta) {
            assert(views(next@)[i as int] == next@[i as int]@);
            return false;
        }
        i = i + 1;
    }
    true
}

/// Checks that `proof` takes `prev` to `next` under `prev_challenge`: all
/// points valid, the ratio nonzero, the ratio, the Fiat-Shamir point and
/// the delta consistent in G2, and every query point rescaled by the
/// inverse. On success returns the next challenge and `next`.
pub fn verify_transform<E: PairingEngine>(
    e: &E,
    prev_challenge: &Challenge,
    prev: &State,
    next: State,
    proof: Proof,
) -> (r: Result<(Challenge, State), VerifyError>)
    ensures
        r is Ok <==> transform_valid(e, prev_challenge@, prev@, next@, proof@),
        r is Err ==> r == Err::<(Challenge, State), VerifyError>(VerifyError::InvalidProof),
        r matches Ok((c, n)) ==> c@ == next_challenge(prev_challenge@, prev@, next@, proof@)
            && n@ == next@,
{
    let points_ok = e.is_valid_g1(next.delta_g1.as_slice()) && e.is_valid_g2(next.delta_g2.as_slice())
        && all_valid_g1(e, &next.h_query) && all_valid_g1(e, &next.l_query)
        && e.is_valid_g1(proof.s.as_slice()) && e.is_valid_g1(proof.s_delta.as_slice())
        && e.is_valid_g1(proof.r_delta.as_slice()) && e.is_valid_g2(proof.transcript_g2.as_slice());
    if !points_ok {
        return Err(VerifyError::InvalidProof);
    }
    if e.is_zero_g1(proof.s.as_slice()) || e.is_zero_g1(proof.s_delta.as_slice()) {
        return Err(VerifyError::InvalidProof);
    }
    let g2 = e.generator_g2();
    let r = e.hash_g1(prev_challenge, proof.s.as_slice(), proof.s_delta.as_slice());
    if !e.pairing_eq(proof.s_delta.as_slice(), g2.as_slice(), proof.s.as_slice(), proof.transcript_g2.as_slice()) {
        return Err(VerifyError::InvalidProof);
    }
    if !e.pairing_eq(proof.r_delta.as_slice(), g2.as_slice(), r.as_slice(), proof.transcript_g2.as_slice()) {
        return Err(VerifyError::InvalidProof);
    }
    if !e.pairing_eq(prev.delta_g1.as_slice(), proof.transcript_g2.as_slice(), next.delta_g1.as_slice(), g2.as_slice()) {
        return Err(VerifyError::InvalidProof);
    }
    if !check_rescaled(e, &prev.h_query, &next.h_query, prev.delta_g2.as_slice(), next.delta_g2.as_slice()) {
        return Err(VerifyError::InvalidProof);
    }
    if !check_rescaled(e, &prev.l_query, &next.l_query, prev.delta_g2.as_slice(), next.delta_g2.as_slice()) {
        return Err(VerifyError::InvalidProof);
    }
    let c = challenge(prev_challenge, prev, &next, &proof);
    Ok((c, next))
}

/// Over a bilinear pairing, a contribution made with proper randomness to a
/// state whose points are all valid passes verification: `verify_transform` on the state and proof
/// that `contribute` returns yields the challenge of that transform and the
/// new state.
pub proof fn lemma_contribution_verifies<E: PairingEngine>(
    e: &E,
    challenge: Seq<u8>,
    s: StateModel,
    delta: Seq<u8>,
    point: Seq<u8>,
)
    requires
        pairing_laws(e),
        state_valid(e, s),
        randomness_ok(e, delta, point),
    ensures
        transform_valid(
            e,
            challenge,
            s,
            contributed_state(e, s, delta),
            contribution_proof(e, challenge, point, delta),
        ),
{
    let next = contributed_state(e, s, delta);
    let proof = contribution_proof(e, challenge, point, delta);
    let g2 = e.g2_generator();
    let inv = e.inverse(delta);
    let r = e.hash_to_g1(challenge, point, proof.s_delta);
    assert(!e.scalar_zero(inv));
    assert(e.g1_valid(r));
    assert(e.g1_valid(e.g1_mul(s.delta_g1, delta)));
    assert(e.g2_valid(e.g2_mul(s.delta_g2, delta)));
    assert(e.g1_valid(e.g1_mul(point, delta)) && !e.g1_zero(e.g1_mul(point, delta)));
    assert(e.g1_valid(e.g1_mul(r, delta)));
    assert(e.g2_valid(e.g2_mul(g2, delta)));
    assert forall|i: int| 0 <= i < next.h_query.len() implies e.g1_valid(#[trigger] next.h_query[i]) by {
        assert(e.g1_valid(e.g1_mul(s.h_query[i], inv)));
    }
    assert forall|i: int| 0 <= i < next.l_query.len() implies e.g1_valid(#[trigger] next.l_query[i]) by {
        assert(e.g1_valid(e.g1_mul(s.l_query[i], inv)));
    }
    assert(e.same_pairing(e.g1_mul(point, delta), g2, point, e.g2_mul(g2, delta)));
    assert(e.same_pairing(e.g1_mul(r, delta), g2, r, e.g2_mul(g2, delta)));
    assert(e.same_pairing(e.g1_mul(s.delta_g1, delta), g2, s.delta_g1, e.g2_mul(g2, delta)));
    assert(e.same_pairing(s.delta_g1, e.g2_mul(g2, delta), e.g1_mul(s.delta_g1, delta), g2));
    assert forall|i: int| 0 <= i < next.h_query.len() implies e.same_pairing(
        #[trigger] next.h_query[i],
        next.delta_g2,
        s.h_query[i],
        s.delta_g2,
    ) by {
        assert(e.same_pairing(e.g1_mul(s.h_query[i], inv), e.g2_mul(s.delta_g2, delta), s.h_query[i], s.delta_g2));
    }
    assert forall|i: int| 0 <= i < next.l_query.len() implies e.same_pairing(
        #[trigger] next.l_query[i],
        next.delta_g2,
        s.l_query[i],
        s.delta_g2,
    ) by {
        assert(e.same_pairing(e.g1_mul(s.l_query[i], inv), e.g2_mul(s.delta_g2, delta), s.l_query[i], s.delta_g2));
    }
}

/// In a transform that verifies, the scalar that takes the old `delta_g1`
/// to the new one (witnessed in G2 by the proof's transcript point) is the
/// one whose inverse takes every old query point to the new one: each new
/// query point paired with the new delta equals the old point paired with
/// the old delta, and the proof's ratio is taken by that same scalar.
pub proof fn lemma_delta_consistent<E: PairingEngine>(
    e: &E,
    challenge: Seq<u8>,
    prev: StateModel,
    next: StateModel,
    proof: ProofModel,
)
    requires
        transform_valid(e, challenge, prev, next, proof),
    ensures
        e.same_pairing(prev.delta_g1, proof.transcript_g2, next.delta_g1, e.g2_generator()),
        e.same_pairing(proof.s_delta, e.g2_generator(), proof.s, proof.transcript_g2),
        next.h_query.len() == prev.h_query.len(),
        next.l_query.len() == prev.l_query.len(),
        forall|i: int|
            0 <= i < next.h_query.len() ==> e.same_pairing(
                #[trigger] next.h_query[i],
                next.delta_g2,
                prev.h_query[i],
                prev.delta_g2,
            ),
        forall|i: int|
            0 <= i < next.l_query.len() ==> e.same_pairing(
                #[trigger] next.l_query[i],
                next.delta_g2,
                prev.l_query[i],
                prev.delta_g2,
            ),
{
}

} // verus!
