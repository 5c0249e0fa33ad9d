use trusted_setup::codec::{encode_proof, encode_state};
use trusted_setup::coordinator::{
    contribution_payload_bytes, CircuitSize, Coordinator, Metadata, QueryResponse,
};
use trusted_setup::error::{CeremonyError, UnexpectedError};
use trusted_setup::hashing::hash_bytes;
use trusted_setup::lock::LockQueue;
use trusted_setup::mpc::{
    challenge, contribute, copy_proof, copy_state, verify_transform, Challenge, PairingEngine,
    Proof, State, VerifyError,
};
use trusted_setup::participant::{Identifier, Participant};
use trusted_setup::queue::{level_of, Queue};
use trusted_setup::registry::Registry;
use trusted_setup::signature::{SignatureScheme, SignedMessage};
use trusted_setup::transcript::{contribution_hash_line, Replay, ReplayStep};

// A toy bilinear group: G1, G2 and the target group are all the integers
// modulo a prime, and the pairing is multiplication.
const P: u128 = (1u128 << 61) - 1;

fn enc(x: u128) -> Vec<u8> {
    ((x % P) as u64).to_le_bytes().to_vec()
}

fn dec(b: &[u8]) -> u128 {
    let mut a = [0u8; 8];
    a.copy_from_slice(&b[..8]);
    u64::from_le_bytes(a) as u128
}

fn pow(mut b: u128, mut e: u128) -> u128 {
    let mut r = 1u128;
    b %= P;
    while e > 0 {
        if e & 1 == 1 {
            r = r * b % P;
        }
        b = b * b % P;
        e >>= 1;
    }
    r
}

struct Toy;

impl PairingEngine for Toy {
    fn is_valid_g1(&self, p: &[u8]) -> bool {
        p.len() == 8 && dec(p) < P
    }
    fn is_valid_g2(&self, p: &[u8]) -> bool {
        p.len() == 8 && dec(p) < P
    }
    fn is_zero_g1(&self, p: &[u8]) -> bool {
        dec(p) % P == 0
    }
    fn is_zero_scalar(&self, k: &[u8]) -> bool {
        dec(k) % P == 0
    }
    fn mul_g1(&self, p: &[u8], k: &[u8]) -> Vec<u8> {
        enc(dec(p) % P * (dec(k) % P) % P)
    }
    fn mul_g2(&self, p: &[u8], k: &[u8]) -> Vec<u8> {
        enc(dec(p) % P * (dec(k) % P) % P)
    }
    fn invert(&self, k: &[u8]) -> Vec<u8> {
        enc(pow(dec(k), P - 2))
    }
    fn generator_g2(&self) -> Vec<u8> {
        enc(1)
    }
    fn hash_g1(&self, challenge: &[u8], s: &[u8], s_delta: &[u8]) -> Vec<u8> {
        let mut data = b"fiat-shamir".to_vec();
        data.extend_from_slice(challenge);
        data.extend_from_slice(s);
        data.extend_from_slice(s_delta);
        let h = hash_bytes(&data);
        let v = dec(&h[..8]) % P;
        enc(if v == 0 { 1 } else { v })
    }
    fn pairing_eq(&self, a: &[u8], b: &[u8], c: &[u8], d: &[u8]) -> bool {
        dec(a) * dec(b) % P == dec(c) * dec(d) % P
    }
}

struct ToySignature;

fn sign(key: &[u8], nonce: u64, message: &[u8]) -> Vec<u8> {
    let mut data = key.to_vec();
    data.extend_from_slice(&nonce.to_le_bytes());
    data.extend_from_slice(message);
    hash_bytes(&data)[..32].to_vec()
}

impl SignatureScheme for ToySignature {
    fn verify(&self, verifying_key: &[u8], nonce: u64, message: &[u8], signature: &[u8]) -> bool {
        sign(verifying_key, nonce, message) == signature
    }
}

fn id(n: u8) -> Identifier {
    Identifier::new([n; 32])
}

fn key(n: u8) -> Vec<u8> {
    vec![n, 0xAA, n]
}

fn participant(n: u8, priority: u8, nonce: u64) -> Participant {
    Participant::new(id(n), key(n), format!("@p{n}"), format!("p{n}@example.org"), priority, nonce)
}

fn genesis() -> State {
    State {
        delta_g1: enc(1),
        delta_g2: enc(1),
        h_query: vec![enc(2), enc(3)],
        l_query: vec![enc(5), enc(7)],
    }
}

fn coordinator(participants: Vec<Participant>, limit: u64) -> Coordinator<Toy, ToySignature> {
    let mut registry = Registry::new();
    for p in participants {
        assert!(registry.insert(p));
    }
    let metadata = Metadata {
        contribution_time_limit: limit,
        ceremony_size: vec![CircuitSize { h_query: 2, l_query: 2 }],
    };
    Coordinator::new(registry, vec![genesis()], vec![[0u8; 64]], metadata, 2, Toy, ToySignature)
}

fn record(c: &Coordinator<Toy, ToySignature>, n: u8) -> (u64, u8, bool) {
    let p = c.coordinator_registry.registry.get(&id(n)).unwrap();
    (p.nonce, p.priority, p.contributed)
}

fn signed(c: &Coordinator<Toy, ToySignature>, n: u8, payload: &[u8]) -> SignedMessage {
    let nonce = record(c, n).0;
    SignedMessage::new(id(n), nonce, sign(&key(n), nonce, payload))
}

const SEED: u64 = 0xA1A1_A1A1_A1A1_A1A1;

fn randomness(k: u64) -> (Vec<u8>, Vec<u8>) {
    let delta = (SEED.wrapping_mul(k + 1) as u128) % P;
    let s = ((SEED ^ (k << 7)) as u128) % P;
    (enc(delta), enc(s))
}

fn your_turn(c: &mut Coordinator<Toy, ToySignature>, n: u8, now: u64) -> (State, Challenge) {
    let msg = signed(c, n, &[]);
    match c.query(&msg, now) {
        Ok(QueryResponse::YourTurn(round)) => (copy_state(&round.state[0]), round.challenge[0]),
        Ok(QueryResponse::Queued(p)) => panic!("queued at {p}"),
        Err(e) => panic!("query refused: {e:?}"),
    }
}

fn contribution(state: &State, chal: &Challenge, k: u64) -> (State, Proof) {
    let (delta, s) = randomness(k);
    contribute(&Toy, state, chal, &delta, &s).unwrap()
}

fn submit(
    c: &mut Coordinator<Toy, ToySignature>,
    n: u8,
    state: State,
    proof: Proof,
    now: u64,
) -> Result<trusted_setup::coordinator::ContributeResponse, CeremonyError> {
    let states = vec![state];
    let proofs = vec![proof];
    let payload = contribution_payload_bytes(&states, &proofs);
    let msg = signed(c, n, &payload);
    c.update(&msg, states, proofs, now)
}

#[test]
fn single_contribution() {
    let mut c = coordinator(vec![participant(1, 1, 0)], 100);
    let enq = c.enqueue(&signed(&c, 1, &[])).unwrap();
    assert_eq!(enq.position, Some(0));
    assert_eq!(enq.metadata.contribution_time_limit, 100);
    let (state, chal) = your_turn(&mut c, 1, 10);
    assert_eq!(chal, [0u8; 64]);
    assert_eq!(state.h_query, genesis().h_query);
    let (next, proof) = contribution(&state, &chal, 0);
    let expected = challenge(&chal, &state, &next, &proof);
    let resp = submit(&mut c, 1, next, proof, 20).unwrap();
    assert_eq!(resp.index, 1);
    assert_eq!(resp.challenge, vec![expected]);
    assert_eq!(c.round(), 1);
    assert_eq!(record(&c, 1), (3, 1, true));
    assert!(c.lock_queue.participant_lock.is_none());
}

#[test]
fn replayed_contribution_is_refused() {
    let mut c = coordinator(vec![participant(1, 1, 0)], 100);
    c.enqueue(&signed(&c, 1, &[])).unwrap();
    let (state, chal) = your_turn(&mut c, 1, 10);
    let (next, proof) = contribution(&state, &chal, 0);
    let states = vec![copy_state(&next)];
    let proofs = vec![copy_proof(&proof)];
    let payload = contribution_payload_bytes(&states, &proofs);
    let msg = signed(&c, 1, &payload);
    c.update(&msg, states, proofs, 20).unwrap();
    let again = c.update(&msg, vec![next], vec![proof], 21);
    assert_eq!(again.err(), Some(CeremonyError::AlreadyContributed));
    assert_eq!(c.round(), 1);
}

#[test]
fn tampered_proof_is_refused() {
    let mut c = coordinator(vec![participant(1, 1, 0), participant(2, 1, 0)], 100);
    c.enqueue(&signed(&c, 1, &[])).unwrap();
    c.enqueue(&signed(&c, 2, &[])).unwrap();
    let (state, chal) = your_turn(&mut c, 1, 10);
    let (next, mut proof) = contribution(&state, &chal, 0);
    proof.s_delta[0] ^= 1;
    let r = submit(&mut c, 1, next, proof, 20);
    assert_eq!(r.err(), Some(CeremonyError::BadRequest));
    assert_eq!(record(&c, 1), (3, 1, false));
    assert_eq!(c.round(), 0);
    assert!(c.lock_queue.is_held_by(&id(2)));
    let (_, chal_after) = your_turn(&mut c, 2, 30);
    assert_eq!(chal_after, [0u8; 64]);
}

#[test]
fn expired_lock_passes_to_the_next_participant() {
    let mut c = coordinator(vec![participant(1, 1, 0), participant(2, 1, 0)], 100);
    c.enqueue(&signed(&c, 1, &[])).unwrap();
    c.enqueue(&signed(&c, 2, &[])).unwrap();
    your_turn(&mut c, 1, 1000);
    let queued = c.query(&signed(&c, 2, &[]), 1050);
    assert!(matches!(queued, Ok(QueryResponse::Queued(0))));
    your_turn(&mut c, 2, 1101);
    assert_eq!(record(&c, 1).1, 0);
    assert_eq!(c.round(), 0);
    assert!(c.lock_queue.is_held_by(&id(2)));
    let late = c.query(&signed(&c, 1, &[]), 1102);
    assert!(late.is_err());
}

#[test]
fn timed_out_holder_is_told_so() {
    let mut c = coordinator(vec![participant(1, 1, 0)], 100);
    c.enqueue(&signed(&c, 1, &[])).unwrap();
    let (state, chal) = your_turn(&mut c, 1, 0);
    let (next, proof) = contribution(&state, &chal, 0);
    let r = submit(&mut c, 1, next, proof, 101);
    assert_eq!(r.err(), Some(CeremonyError::Timeout));
    assert_eq!(record(&c, 1).1, 0);
    assert!(c.lock_queue.participant_lock.is_none());
}

#[test]
fn higher_priority_is_served_first() {
    let mut c = coordinator(vec![participant(1, 0, 0), participant(2, 1, 0)], 100);
    assert_eq!(c.enqueue(&signed(&c, 1, &[])).unwrap().position, Some(0));
    assert_eq!(c.enqueue(&signed(&c, 2, &[])).unwrap().position, Some(0));
    assert_eq!(c.lock_queue.queue.position(&id(1)), Some(1));
    let mut q = Queue::new(2);
    assert!(q.push(id(1), level_of(0, 2)));
    assert!(q.push(id(2), level_of(1, 2)));
    assert!(q.pop_front().unwrap().equals(&id(2)));
    // The low-priority participant is served once the other has contributed.
    let (state, chal) = your_turn(&mut c, 2, 5);
    let (next, proof) = contribution(&state, &chal, 1);
    submit(&mut c, 2, next, proof, 6).unwrap();
    assert!(c.lock_queue.is_held_by(&id(1)));
    your_turn(&mut c, 1, 7);
}

#[test]
fn transcript_replay_verifies_every_round() {
    let mut c = coordinator(vec![participant(1, 1, 0), participant(2, 1, 0), participant(3, 1, 0)], 100);
    let mut states = vec![genesis()];
    let mut proofs = Vec::new();
    let mut lines = Vec::new();
    for n in 1..=3u8 {
        c.enqueue(&signed(&c, n, &[])).unwrap();
        let (state, chal) = your_turn(&mut c, n, 10 * n as u64);
        let (next, proof) = contribution(&state, &chal, n as u64);
        states.push(copy_state(&next));
        proofs.push(copy_proof(&proof));
        let resp = submit(&mut c, n, next, proof, 10 * n as u64 + 1).unwrap();
        assert_eq!(resp.index, n as u64);
    }
    let mut replay = Replay::new(copy_state(&states[0]), [0u8; 64], 0);
    for r in 1..=3usize {
        match replay.advance(&Toy, Some((copy_state(&states[r]), copy_proof(&proofs[r - 1])))) {
            ReplayStep::Verified { round, line } => {
                assert_eq!(round, r as u64);
                lines.push(line);
            }
            _ => panic!("round {r} did not verify"),
        }
    }
    assert!(matches!(replay.advance(&Toy, None), ReplayStep::Finished { last_round: 3 }));
    let mut hashes = Vec::new();
    for line in &lines {
        hashes.push(contribution_hash_line(line, line, line).unwrap());
    }
    assert_eq!(hashes.len(), 3);
    for (i, h) in hashes.iter().enumerate() {
        let text = String::from_utf8(h.clone()).unwrap();
        assert!(text.ends_with(&format!(" round {}", i + 1)));
        assert_eq!(text.len(), 128 + 7 + 1);
    }
}

#[test]
fn replay_rejects_a_bad_round() {
    let state = genesis();
    let chal = [7u8; 64];
    let (next, mut proof) = contribution(&state, &chal, 4);
    proof.r_delta = enc(12345);
    let mut replay = Replay::new(copy_state(&state), chal, 5);
    assert!(matches!(replay.advance(&Toy, Some((next, proof))), ReplayStep::Rejected { round: 6 }));
    assert_eq!(replay.round, 5);
}

#[test]
fn contribution_round_trip() {
    let state = genesis();
    let chal = [3u8; 64];
    let (delta, s) = randomness(9);
    let (next, proof) = contribute(&Toy, &state, &chal, &delta, &s).unwrap();
    assert_eq!(next.delta_g1, Toy.mul_g1(&state.delta_g1, &delta));
    assert_eq!(proof.transcript_g2, Toy.mul_g2(&enc(1), &delta));
    let expected = challenge(&chal, &state, &next, &proof);
    let (c, n) = verify_transform(&Toy, &chal, &state, copy_state(&next), copy_proof(&proof)).unwrap();
    assert_eq!(c, expected);
    assert_eq!(n.h_query, next.h_query);
    assert_ne!(c, chal);
}

#[test]
fn zero_randomness_is_refused() {
    let state = genesis();
    assert!(contribute(&Toy, &state, &[0u8; 64], &enc(0), &enc(5)).is_none());
    assert!(contribute(&Toy, &state, &[0u8; 64], &enc(5), &enc(0)).is_none());
}

#[test]
fn rescaled_queries_are_checked() {
    let state = genesis();
    let chal = [1u8; 64];
    let (mut next, proof) = contribution(&state, &chal, 2);
    next.l_query[1] = enc(99);
    let r = verify_transform(&Toy, &chal, &state, next, proof);
    assert_eq!(r.err(), Some(VerifyError::InvalidProof));
}

#[test]
fn nonce_counts_accepted_requests() {
    let mut c = coordinator(vec![participant(1, 1, 1)], 100);
    c.enqueue(&signed(&c, 1, &[])).unwrap();
    c.enqueue(&signed(&c, 1, &[])).unwrap();
    assert_eq!(c.lock_queue.queue.len(), 1);
    c.query(&signed(&c, 1, &[]), 0).unwrap();
    assert_eq!(record(&c, 1).0, 4);
    let stale = SignedMessage::new(id(1), 3, sign(&key(1), 3, &[]));
    assert_eq!(c.query(&stale, 1).err(), Some(CeremonyError::InvalidSignature { expected_nonce: 4 }));
    assert_eq!(record(&c, 1).0, 4);
}

#[test]
fn unregistered_sender_is_refused() {
    let mut c = coordinator(vec![participant(1, 1, 0)], 100);
    let msg = SignedMessage::new(id(9), 0, sign(&key(9), 0, &[]));
    assert_eq!(c.enqueue(&msg).err(), Some(CeremonyError::NotRegistered));
}

#[test]
fn spent_nonces_are_refused() {
    let mut c = coordinator(vec![participant(1, 1, u64::MAX)], 100);
    let msg = signed(&c, 1, &[]);
    assert_eq!(
        c.enqueue(&msg).err(),
        Some(CeremonyError::Unexpected(UnexpectedError::AllNoncesUsed))
    );
}

#[test]
fn waiting_participant_cannot_contribute() {
    let mut c = coordinator(vec![participant(1, 1, 0), participant(2, 1, 0)], 100);
    c.enqueue(&signed(&c, 1, &[])).unwrap();
    c.enqueue(&signed(&c, 2, &[])).unwrap();
    let (state, chal) = your_turn(&mut c, 1, 0);
    let (next, proof) = contribution(&state, &chal, 3);
    assert_eq!(submit(&mut c, 2, next, proof, 1).err(), Some(CeremonyError::NotYourTurn));
}

#[test]
fn lock_update_errors() {
    let a = Some(id(1));
    assert_eq!(LockQueue::check_lock_update_errors(true, &a, &id(1)), Err(CeremonyError::Timeout));
    assert_eq!(LockQueue::check_lock_update_errors(false, &a, &id(1)), Ok(()));
    assert_eq!(LockQueue::check_lock_update_errors(false, &a, &id(2)), Err(CeremonyError::NotYourTurn));
    assert_eq!(LockQueue::check_lock_update_errors(true, &None, &id(2)), Ok(()));
}

#[test]
fn queue_levels_and_positions() {
    assert_eq!(level_of(0, 2), 1);
    assert_eq!(level_of(1, 2), 0);
    assert_eq!(level_of(7, 2), 0);
    assert_eq!(level_of(0, 1), 0);
    assert_eq!(level_of(1, 4), 2);
    let mut q = Queue::new(3);
    assert!(q.push(id(1), 2));
    assert!(q.push(id(2), 1));
    assert!(q.push(id(3), 2));
    assert!(!q.push(id(1), 0));
    assert_eq!(q.len(), 3);
    assert_eq!(q.position(&id(2)), Some(0));
    assert_eq!(q.position(&id(1)), Some(1));
    assert_eq!(q.position(&id(3)), Some(2));
    assert_eq!(q.position(&id(4)), None);
    assert!(q.pop_front().unwrap().equals(&id(2)));
    assert!(q.pop_front().unwrap().equals(&id(1)));
    assert!(q.pop_front().unwrap().equals(&id(3)));
    assert!(q.pop_front().is_none());
}

#[test]
fn registry_keeps_one_record_per_identifier() {
    let mut r = Registry::new();
    assert!(r.insert(participant(1, 1, 0)));
    assert!(!r.insert(participant(1, 0, 5)));
    assert_eq!(r.len(), 1);
    assert_eq!(r.get(&id(1)).unwrap().priority, 1);
    assert!(r.get(&id(2)).is_none());
    assert!(!r.has_contributed(&id(1)));
    let mut p = participant(4, 2, 0);
    p.reduce_priority();
    p.reduce_priority();
    p.reduce_priority();
    assert_eq!(p.priority, 0);
}

#[test]
fn challenge_hashes_the_transcript() {
    let state = genesis();
    let chal = [9u8; 64];
    let (next, proof) = contribution(&state, &chal, 5);
    let mut data = chal.to_vec();
    data.extend_from_slice(&encode_state(&state));
    data.extend_from_slice(&encode_state(&next));
    data.extend_from_slice(&encode_proof(&proof));
    assert_eq!(challenge(&chal, &state, &next, &proof), hash_bytes(&data));
}
