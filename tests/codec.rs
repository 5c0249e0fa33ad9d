use trusted_setup::codec::{decode_proof, decode_state, encode_proof, encode_state};
use trusted_setup::config::{Config, CIRCUIT_COUNT, LEVEL_COUNT};
use trusted_setup::coordinator::CircuitSize;
use trusted_setup::mpc::{Proof, State};
use trusted_setup::transcript::{recovery_round, RoundFiles};

fn state() -> State {
    State {
        delta_g1: vec![1, 2],
        delta_g2: vec![3, 4, 5],
        h_query: vec![vec![6, 7], vec![8, 9]],
        l_query: vec![vec![10, 11]],
    }
}

#[test]
fn state_encoding_round_trip() {
    let bytes = encode_state(&state());
    let mut expected = vec![1, 2, 3, 4, 5];
    expected.extend_from_slice(&2u64.to_le_bytes());
    expected.extend_from_slice(&[6, 7, 8, 9]);
    expected.extend_from_slice(&1u64.to_le_bytes());
    expected.extend_from_slice(&[10, 11]);
    assert_eq!(bytes, expected);
    let shape = CircuitSize { h_query: 2, l_query: 1 };
    let back = decode_state(&bytes, 2, 3, shape).unwrap();
    assert_eq!(back.delta_g1, vec![1, 2]);
    assert_eq!(back.delta_g2, vec![3, 4, 5]);
    assert_eq!(back.h_query, vec![vec![6, 7], vec![8, 9]]);
    assert_eq!(back.l_query, vec![vec![10, 11]]);
}

#[test]
fn malformed_states_are_refused() {
    let bytes = encode_state(&state());
    assert!(decode_state(&bytes, 2, 3, CircuitSize { h_query: 1, l_query: 1 }).is_none());
    assert!(decode_state(&bytes[..bytes.len() - 1], 2, 3, CircuitSize { h_query: 2, l_query: 1 }).is_none());
    let mut wrong_count = bytes.clone();
    wrong_count[5] = 3;
    assert!(decode_state(&wrong_count, 2, 3, CircuitSize { h_query: 2, l_query: 1 }).is_none());
    assert!(decode_state(&[], usize::MAX, 1, CircuitSize { h_query: usize::MAX, l_query: 1 }).is_none());
}

#[test]
fn proof_encoding_round_trip() {
    let p = Proof { s: vec![1], s_delta: vec![2], r_delta: vec![3], transcript_g2: vec![4, 5] };
    let bytes = encode_proof(&p);
    assert_eq!(bytes, vec![1, 2, 3, 4, 5]);
    let back = decode_proof(&bytes, 1, 2).unwrap();
    assert_eq!((back.s, back.s_delta, back.r_delta, back.transcript_g2), (vec![1], vec![2], vec![3], vec![4, 5]));
    assert!(decode_proof(&bytes, 2, 2).is_none());
}

#[test]
fn canonical_configuration() {
    let names = Config::circuit_names();
    assert_eq!(names, vec!["to_private".to_string(), "private_transfer".to_string(), "to_public".to_string()]);
    assert_eq!(names.len(), CIRCUIT_COUNT);
    assert_eq!(Config::level_count(), LEVEL_COUNT);
}

fn files(state: bool, challenge: bool, proof: bool) -> RoundFiles {
    RoundFiles { state, challenge, proof }
}

#[test]
fn recovery_adopts_last_complete_round() {
    assert_eq!(recovery_round(&vec![]), None);
    assert_eq!(recovery_round(&vec![files(true, false, false)]), None);
    assert_eq!(recovery_round(&vec![files(true, true, false)]), Some(0));
    let rounds = vec![
        files(true, true, false),
        files(true, true, true),
        files(true, true, true),
        files(true, true, false),
        files(true, true, true),
    ];
    assert_eq!(recovery_round(&rounds), Some(2));
}
