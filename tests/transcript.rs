use trusted_setup::coordinator::ContributeResponse;
use trusted_setup::hashing::{from_hex, hash_bytes, to_hex};
use trusted_setup::registration::{Record, RegistrationInfoV1, RegistrationInfoV2};
use trusted_setup::transcript::{
    computed_challenge_line, contribution_hash, contribution_hash_line, parse_u64, pretty_print,
    round_file_name, split_fields, to_decimal, TranscriptError,
};

#[test]
fn pretty_print_test() {
    let bytes: [u8; 64] = [
        220, 248, 105, 124, 232, 227, 221, 85, 193, 241, 139, 77, 12, 246, 118, 0, 46, 13, 226, 42,
        38, 70, 243, 207, 223, 13, 247, 152, 201, 220, 59, 135, 207, 150, 232, 113, 213, 128, 122,
        129, 156, 150, 223, 86, 61, 238, 118, 186, 148, 55, 59, 247, 38, 229, 155, 13, 32, 213,
        104, 174, 167, 1, 224, 26,
    ];
    let lines = pretty_print(&bytes);
    assert_eq!(lines.len(), 4);
    assert_eq!(lines[0], b"\tdcf8697c e8e3dd55 c1f18b4d 0cf67600 ".to_vec());
    assert_eq!(lines[3], b"\t94373bf7 26e59b0d 20d568ae a701e01a ".to_vec());
}

#[test]
fn short_printout() {
    assert_eq!(pretty_print(&[1, 2, 3, 4, 5]), vec![b"\t01020304 05 ".to_vec()]);
    assert!(pretty_print(&[]).is_empty());
}

#[test]
fn blake2b_of_empty_input() {
    let expected = "786a02f742015903c6c6fd852552d272912f4740e15847618a86e217f71f5419d25e1031afee585313896444934eb04b903a685b1448b755d56f701afe9be2ce";
    assert_eq!(to_hex(&hash_bytes(&[])), expected.as_bytes().to_vec());
}

#[test]
fn hex_round_trip() {
    assert_eq!(to_hex(&[0, 15, 16, 255]), b"000f10ff".to_vec());
    assert_eq!(from_hex(b"000F10ff"), Some(vec![0, 15, 16, 255]));
    assert_eq!(from_hex(b"123"), None);
    assert_eq!(from_hex(b"zz"), None);
}

#[test]
fn decimal_numbers() {
    assert_eq!(to_decimal(0), b"0".to_vec());
    assert_eq!(to_decimal(1207), b"1207".to_vec());
    assert_eq!(parse_u64(b"1207"), Some(1207));
    assert_eq!(parse_u64(b"18446744073709551615"), Some(u64::MAX));
    assert_eq!(parse_u64(b"18446744073709551616"), None);
    assert_eq!(parse_u64(b""), None);
    assert_eq!(parse_u64(b"12a"), None);
}

#[test]
fn fields_between_spaces() {
    assert_eq!(split_fields(b"ab round 3"), vec![b"ab".to_vec(), b"round".to_vec(), b"3".to_vec()]);
    assert_eq!(split_fields(b""), vec![Vec::<u8>::new()]);
    assert_eq!(split_fields(b"a  b"), vec![b"a".to_vec(), vec![], b"b".to_vec()]);
}

#[test]
fn round_file_names() {
    assert_eq!(round_file_name(b"to_private", b"state", 12), b"to_private_state_12".to_vec());
    assert_eq!(round_file_name(b"to_public", b"proof", 0), b"to_public_proof_0".to_vec());
}

#[test]
fn challenge_lines() {
    let c = [0xabu8; 64];
    let line = computed_challenge_line(&c, 42);
    let mut expected = "ab".repeat(64).into_bytes();
    expected.extend_from_slice(b" round 42");
    assert_eq!(line, expected);
}

#[test]
fn contribution_hash_of_three_lines() {
    let a = computed_challenge_line(&[1u8; 64], 7);
    let b = computed_challenge_line(&[2u8; 64], 7);
    let c = computed_challenge_line(&[3u8; 64], 7);
    let line = contribution_hash_line(&a, &b, &c).unwrap();
    let response = ContributeResponse { index: 7, challenge: vec![[1u8; 64], [2u8; 64], [3u8; 64]] };
    let hash = contribution_hash(&response);
    let mut joined = vec![1u8; 64];
    joined.extend_from_slice(&[2u8; 64]);
    joined.extend_from_slice(&[3u8; 64]);
    assert_eq!(hash, hash_bytes(&joined));
    let mut expected = to_hex(&hash);
    expected.extend_from_slice(b" round 7");
    assert_eq!(line, expected);
}

#[test]
fn contribution_hash_errors() {
    let a = computed_challenge_line(&[1u8; 64], 7);
    let b = computed_challenge_line(&[2u8; 64], 8);
    assert_eq!(contribution_hash_line(&a, &b, &a), Err(TranscriptError::RoundMismatch));
    assert_eq!(contribution_hash_line(b"ab round", &a, &a), Err(TranscriptError::MalformedLine));
    assert_eq!(contribution_hash_line(b"ab round x", b"ab round x", b"ab round x"), Err(TranscriptError::BadRoundNumber));
    assert_eq!(contribution_hash_line(b"ab round 1", b"ab round 1", b"ab round 1"), Err(TranscriptError::BadChallenge));
}

fn text(s: &str) -> String {
    s.to_string()
}

#[test]
fn registration_entries_become_records() {
    let v1 = RegistrationInfoV1 {
        name: text("n"),
        email: text("e@x"),
        signature: text("sig"),
        verifying_key: text("vk"),
        twitter: text("@t"),
        why_privacy: text(""),
        wallet: text(""),
        score: text("1"),
        twitter_null: text(""),
        verifying_key_null: text(""),
        discord: text(""),
        motivation: text(""),
        where_from: text(""),
        twitter_hidden: text(""),
        email_hidden: text(""),
        verifying_key_hidden: text(""),
        signature_hidden: text(""),
        submission_time: text(""),
        submission_token: text(""),
    };
    let r = Record::from(v1);
    assert_eq!((r.twitter.as_str(), r.email.as_str(), r.made_contribution), ("@t", "e@x", true));
    assert_eq!((r.public_key.as_str(), r.signature.as_str()), ("vk", "sig"));
    let v2 = RegistrationInfoV2 {
        name: text("n"),
        comms_email: text("comms@x"),
        unused_signature: text(""),
        unused_verifying_key: text(""),
        discord: text(""),
        unused_twitter: text(""),
        why_privacy: text(""),
        motivation: text(""),
        where_from: text(""),
        wallet: text(""),
        heard_where: text(""),
        twitter: text("@u"),
        email: text("sign@x"),
        verifying_key: text("vk2"),
        signature: text("sig2"),
        submission_time: text(""),
        submission_token: text(""),
    };
    let r = Record::from(v2);
    assert_eq!((r.twitter.as_str(), r.email.as_str()), ("@u", "sign@x"));
    assert_eq!((r.public_key.as_str(), r.signature.as_str()), ("vk2", "sig2"));
}
