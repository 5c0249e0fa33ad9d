//! The text of the ceremony transcript: round file names, the lines of
//! recomputed challenges, contribution hashes, and the replay of rounds.

use crate::codec::slice_to_vec;
use crate::coordinator::{challenge_bytes, ContributeResponse};
use crate::encoding::{joined, push_bytes, views};
use crate::hashing::{blake2b_512_of, from_hex, hash_bytes, hex_bytes, hex_text, is_hex_text, to_hex};
use crate::mpc::{next_challenge, transform_valid, verify_transform, Challenge, PairingEngine, Proof, State};
use vstd::prelude::*;

verus! {

/// The space character.
pub const SPACE: u8 = 32;

/// The decimal digits of `n`, most significant first.
pub open spec fn decimal(n: nat) -> Seq<u8>
    decreases n,
{
    if n < 10 {
        seq![(48 + n) as u8]
    } else {
        decimal(n / 10) + seq![(48 + n % 10) as u8]
    }
}

/// Whether every byte of `s` is a decimal digit.
pub open spec fn all_digits(s: Seq<u8>) -> bool {
    forall|i: int| 0 <= i < s.len() ==> 48 <= #[trigger] s[i] <= 57
}

/// The number that the decimal digits `s` write.
pub open spec fn digits_value(s: Seq<u8>) -> nat
    decreases s.len(),
{
    if s.len() == 0 {
        0
    } else {
        digits_value(s.drop_last()) * 10 + (s.last() - 48) as nat
    }
}

/// The number that `s` writes in decimal, if it writes one that fits in 64 bits.
pub open spec fn parsed_u64(s: Seq<u8>) -> Option<u64> {
    if s.len() > 0 && all_digits(s) && digits_value(s) <= u64::MAX {
        Some(digits_value(s) as u64)
    } else {
        None
    }
}

/// The fields of `t` between single spaces; text without a space is one field.
pub open spec fn fields(t: Seq<u8>) -> Seq<Seq<u8>>
    decreases t.len(),
{
    if t.len() == 0 {
        seq![Seq::<u8>::empty()]
    } else {
        let r = fields(t.drop_last());
        if t.last() == SPACE {
            r.push(Seq::empty())
        } else {
            r.drop_last().push(r.last().push(t.last()))
        }
    }
}

/// The text ` round `.
pub open spec fn round_word() -> Seq<u8> {
    seq![SPACE, 114u8, 111u8, 117u8, 110u8, 100u8, SPACE]
}

/// A line of recomputed challenges: the challenge in hexadecimal, the word
/// `round`, and the round number, separated by spaces.
pub open spec fn challenge_line(challenge: Seq<u8>, round: Seq<u8>) -> Seq<u8> {
    hex_text(challenge) + round_word() + round
}

/// The name of a round file: circuit, kind and decimal round joined by `_`.
pub open spec fn round_file(circuit: Seq<u8>, kind: Seq<u8>, round: u64) -> Seq<u8> {
    circuit + seq![95u8] + kind + seq![95u8] + decimal(round as nat)
}

/// Appends the decimal digits of `n` to `out`.
pub fn push_decimal(out: &mut Vec<u8>, n: u64)
    ensures
        final(out)@ == old(out)@ + decimal(n as nat),
    decreases n,
{
    if n >= 10 {
        push_decimal(out, n / 10);
    }
    out.push((48 + n % 10) as u8);
    assert(out@ =~= old(out)@ + decimal(n as nat));
}

/// The decimal digits of `n`.
pub fn to_decimal(n: u64) -> (r: Vec<u8>)
    ensures
        r@ == decimal(n as nat),
{
    let mut out: Vec<u8> = Vec::new();
    push_decimal(&mut out, n);
    assert(out@ =~= decimal(n as nat));
    out
}

/// The number written in decimal by `s`, if it is one that fits in 64 bits.
pub fn parse_u64(s: &[u8]) -> (r: Option<u64>)
    ensures
        r == parsed_u64(s@),
{
    if s.len() == 0 {
        return None;
    }
    let mut value: u128 = 0;
    let mut i: usize = 0;
    while i < s.len()
        invariant
            0 <= i <= s@.len(),
            all_digits(s@.take(i as int)),
            value == digits_value(s@.take(i as int)),
            value <= u64::MAX,
        decreases s@.len() - i,
    {
        let c = s[i];
        if c < 48 || c > 57 {
            assert(!all_digits(s@));
            return None;
        }
        proof {
            assert(s@.take(i as int + 1).drop_last() =~= s@.take(i as int));
            assert(value * 10 + (c - 48) <= 0xffff_ffff_ffff_ffff_fu128 * 10 + 9) by (nonlinear_arith)
                requires
                    value <= u64::MAX,
                    c <= 57,
                    c >= 48,
            ;
        }
        value = value * 10 + (c - 48) as u128;
        i = i + 1;
        assert(all_digits(s@.take(i as int))) by {
            assert forall|j: int| 0 <= j < i implies 48 <= #[trigger] s@.take(i as int)[j] <= 57 by {
                if j < i - 1 {
                    assert(s@.take(i as int)[j] == s@.take(i as int - 1)[j]);
                }
            }
        }
        if value > 0xffff_ffff_ffff_ffffu128 {
            proof {
                lemma_digits_grow(s@, i as int);
            }
            return None;
        }
    }
    assert(s@.take(s@.len() as int) =~= s@);
    Some(value as u64)
}

/// The value of a prefix of digits bounds the value of the whole.
proof fn lemma_digits_grow(s: Seq<u8>, i: int)
    requires
        0 <= i <= s.len(),
    ensures
        all_digits(s) ==> digits_value(s.take(i)) <= digits_value(s),
    decreases s.len() - i,
{
    if i < s.len() && all_digits(s) {
        lemma_digits_grow(s, i + 1);
        assert(s.take(i + 1).drop_last() =~= s.take(i));
        assert(48 <= s[i] <= 57);
    } else if i == s.len() {
        assert(s.take(i) =~= s);
    }
}

/// The fields of `t` between single spaces.
pub fn split_fields(t: &[u8]) -> (r: Vec<Vec<u8>>)
    ensures
        views(r@) == fields(t@),
{
    let mut done: Vec<Vec<u8>> = Vec::new();
    let mut current: Vec<u8> = Vec::new();
    let mut i: usize = 0;
    assert(views(done@).push(current@) =~= fields(t@.take(0)));
    while i < t.len()
        invariant
            0 <= i <= t@.len(),
            views(done@).push(current@) == fields(t@.take(i as int)),
        decreases t@.len() - i,
    {
        let ghost before = views(done@).push(current@);
        proof {
            assert(t@.take(i as int + 1).drop_last() =~= t@.take(i as int));
        }
        if t[i] == SPACE {
            done.push(current);
            current = Vec::new();
            assert(views(done@).push(current@) =~= before.push(Seq::empty()));
        } else {
            current.push(t[i]);
            assert(views(done@).push(current@) =~= before.drop_last().push(before.last().push(t@[i as int])));
        }
        i = i + 1;
    }
    assert(t@.take(t@.len() as int) =~= t@);
    done.push(current);
    assert(views(done@) =~= fields(t@));
    done
}

/// Whether `a` and `b` hold the same bytes.
pub fn same_bytes(a: &[u8], b: &[u8]) -> (r: bool)
    ensures
        r == (a@ == b@),
{
    if a.len() != b.len() {
        return false;
    }
    let mut i: usize = 0;
    while i < a.len()
        invariant
            a@.len() == b@.len(),
            0 <= i <= a@.len(),
            forall|j: int| 0 <= j < i ==> a@[j] == b@[j],
        decreases a@.len() - i,
    {
        if a[i] != b[i] {
            return false;
        }
        i = i + 1;
    }
    assert(a@ =~= b@);
    true
}

/// The name of the file of `kind` of `circuit` in `round`.
pub fn round_file_name(circuit: &[u8], kind: &[u8], round: u64) -> (r: Vec<u8>)
    ensures
        r@ == round_file(circuit@, kind@, round),
{
    let mut out: Vec<u8> = Vec::new();
    push_bytes(&mut out, circuit);
    out.push(95u8);
    push_bytes(&mut out, kind);
    out.push(95u8);
    push_decimal(&mut out, round);
    assert(out@ =~= round_file(circuit@, kind@, round));
    out
}

/// Appends ` round ` to `out`.
fn push_round_word(out: &mut Vec<u8>)
    ensures
        final(out)@ == old(out)@ + round_word(),
{
    out.push(SPACE);
    out.push(114u8);
    out.push(111u8);
    out.push(117u8);
    out.push(110u8);
    out.push(100u8);
    out.push(SPACE);
    assert(out@ =~= old(out)@ + round_word());
}

/// The line that records the challenge recomputed for `round`.
pub fn computed_challenge_line(challenge: &Challenge, round: u64) -> (r: Vec<u8>)
    ensures
        r@ == challenge_line(challenge@, decimal(round as nat)),
{
    let mut out = to_hex(challenge);
    push_round_word(&mut out);
    push_decimal(&mut out, round);
    assert(out@ =~= challenge_line(challenge@, decimal(round as nat)));
    out
}

/// The contribution hash that a participant announced: Blake2b-512 of the
/// challenges of the response, one after another.
pub fn contribution_hash(response: &ContributeResponse) -> (r: [u8; 64])
    ensures
        r@ == blake2b_512_of(joined(challenge_bytes(response.challenge@))),
{
    let mut data: Vec<u8> = Vec::new();
    let ghost s = challenge_bytes(response.challenge@);
    let mut i: usize = 0;
    while i < response.challenge.len()
        invariant
            0 <= i <= response.challenge@.len(),
            s == challenge_bytes(response.challenge@),
            data@ == joined(s.take(i as int)),
        decreases response.challenge@.len() - i,
    {
        push_bytes(&mut data, &response.challenge[i]);
        proof {
            assert(s.take(i as int + 1).drop_last() =~= s.take(i as int));
        }
        i = i + 1;
        assert(data@ =~= joined(s.take(i as int)));
    }
    assert(s.take(s.len() as int) =~= s);
    hash_bytes(data.as_slice())
}

/// Why the lines of recomputed challenges could not be combined.
#[derive(Clone, Copy, Debug, PartialEq, Eq)]
pub enum TranscriptError {
    /// A line has fewer than three fields.
    MalformedLine,
    /// The lines name different rounds.
    RoundMismatch,
    /// The round is not a decimal number that fits in 64 bits.
    BadRoundNumber,
    /// A challenge is not 64 bytes of hexadecimal text.
    BadChallenge,
}

/// Whether a field holds the hexadecimal text of a 64-byte challenge.
pub open spec fn challenge_text(t: Seq<u8>) -> bool {
    is_hex_text(t) && hex_bytes(t).len() == 64
}

/// What combining three lines of recomputed challenges, for the circuits
/// `to_private`, `to_public` and `private_transfer` in that order, gives.
pub open spec fn contribution_hash_outcome(
    a: Seq<u8>,
    b: Seq<u8>,
    c: Seq<u8>,
) -> Result<Seq<u8>, TranscriptError> {
    let fa = fields(a);
    let fb = fields(b);
    let fc = fields(c);
    if fa.len() < 3 || fb.len() < 3 || fc.len() < 3 {
        Err(TranscriptError::MalformedLine)
    } else if fa[2] != fb[2] || fa[2] != fc[2] {
        Err(TranscriptError::RoundMismatch)
    } else if parsed_u64(fa[2]) is None {
        Err(TranscriptError::BadRoundNumber)
    } else if !challenge_text(fa[0]) || !challenge_text(fb[0]) || !challenge_text(fc[0]) {
        Err(TranscriptError::BadChallenge)
    } else {
        Ok(challenge_line(
            blake2b_512_of(hex_bytes(fa[0]) + hex_bytes(fb[0]) + hex_bytes(fc[0])),
            fc[2],
        ))
    }
}

/// A challenge read from hexadecimal text, if it holds 64 bytes.
fn read_challenge(t: &[u8]) -> (r: Option<Challenge>)
    ensures
        r is Some <==> challenge_text(t@),
        r matches Some(c) ==> c@ == hex_bytes(t@),
{
    match from_hex(t) {
        Some(v) => {
            if v.len() != 64 {
                return None;
            }
            let mut c: Challenge = [0u8; 64];
            let mut i: usize = 0;
            while i < 64
                invariant
                    0 <= i <= 64,
                    v@.len() == 64,
                    c@.len() == 64,
                    forall|j: int| 0 <= j < i ==> c@[j] == v@[j],
                decreases 64 - i,
            {
                c[i] = v[i];
                i = i + 1;
            }
            assert(c@ =~= v@);
            Some(c)
        },
        None => None,
    }
}

/// Combines the lines of recomputed challenges of one round, for the
/// circuits `to_private`, `to_public` and `private_transfer`, into the line
/// of its contribution hash.
pub fn contribution_hash_line(
    to_private: &[u8],
    to_public: &[u8],
    private_transfer: &[u8],
) -> (r: Result<Vec<u8>, TranscriptError>)
    ensures
        r matches Ok(v) ==> contribution_hash_outcome(to_private@, to_public@, private_transfer@)
            == Ok::<Seq<u8>, TranscriptError>(v@),
        r matches Err(e) ==> contribution_hash_outcome(to_private@, to_public@, private_transfer@)
            == Err::<Seq<u8>, TranscriptError>(e),
{
    let a = split_fields(to_private);
    let b = split_fields(to_public);
    let c = split_fields(private_transfer);
    if a.len() < 3 || b.len() < 3 || c.len() < 3 {
        return Err(TranscriptError::MalformedLine);
    }
    assert(views(a@)[2] == a@[2]@ && views(b@)[2] == b@[2]@ && views(c@)[2] == c@[2]@);
    assert(views(a@)[0] == a@[0]@ && views(b@)[0] == b@[0]@ && views(c@)[0] == c@[0]@);
    if !same_bytes(a[2].as_slice(), b[2].as_slice()) || !same_bytes(a[2].as_slice(), c[2].as_slice()) {
        return Err(TranscriptError::RoundMismatch);
    }
    if parse_u64(a[2].as_slice()).is_none() {
        return Err(TranscriptError::BadRoundNumber);
    }
    let ca = read_challenge(a[0].as_slice());
    let cb = read_challenge(b[0].as_slice());
    let cc = read_challenge(c[0].as_slice());
    match (ca, cb, cc) {
        (Some(x), Some(y), Some(z)) => {
            let response = ContributeResponse { index: 0, challenge: vec![x, y, z] };
            let hash = contribution_hash(&response);
            proof {
                let s = challenge_bytes(response.challenge@);
                assert(s.len() == 3);
                assert(s[0] == x@ && s[1] == y@ && s[2] == z@);
                let s1 = s.drop_last();
                let s0 = s1.drop_last();
                assert(s0.len() == 1 && s0[0] == x@);
                assert(s0.drop_last() =~= Seq::<Seq<u8>>::empty());
                assert(joined(s0.drop_last()) =~= Seq::<u8>::empty());
                assert(s0.last() == x@);
                assert(joined(s0) =~= x@);
                assert(joined(s1) =~= x@ + y@);
                assert(joined(s) =~= x@ + y@ + z@);
            }
            let mut line = to_hex(&hash);
            push_round_word(&mut line);
            push_bytes(&mut line, c[2].as_slice());
            assert(line@ =~= challenge_line(hash@, c@[2]@));
            Ok(line)
        },
        _ => Err(TranscriptError::BadChallenge),
    }
}

/// How the offline verifier is invoked: the directory of the transcript
/// and the round to start from.
pub struct Arguments {
    pub path: String,
    pub start: u64,
}

/// What one step of a replay found.
pub enum ReplayStep {
    /// The round verified; `line` records its recomputed challenge.
    Verified { round: u64, line: Vec<u8> },
    /// No further round exists; `last_round` is the last one verified, or
    /// the starting round.
    Finished { last_round: u64 },
    /// The round does not verify.
    Rejected { round: u64 },
}

/// A replay of the transcript of one circuit from a starting round.
pub struct Replay {
    pub state: State,
    pub challenge: Challenge,
    pub round: u64,
}

impl Replay {
    /// Starts a replay at `round` with its state and challenge.
    pub fn new(state: State, challenge: Challenge, round: u64) -> (r: Self)
        ensures
            r.state == state,
            r.challenge == challenge,
            r.round == round,
    {
        Replay { state, challenge, round }
    }

    /// Takes the state and proof of the next round, if both exist, and
    /// verifies it against the current round; a verified round becomes the
    /// current one. A replay at the largest round number has no next round.
    pub fn advance<E: PairingEngine>(
        &mut self,
        e: &E,
        next: Option<(State, Proof)>,
    ) -> (r: ReplayStep)
        ensures
            (next is None || old(self).round == u64::MAX) ==> r == (ReplayStep::Finished {
                last_round: old(self).round,
            }) && *final(self) == *old(self),
            next matches Some((s, p)) ==> old(self).round < u64::MAX ==> {
                let n = (old(self).round + 1) as u64;
                let c = next_challenge(old(self).challenge@, old(self).state@, s@, p@);
                if transform_valid(e, old(self).challenge@, old(self).state@, s@, p@) {
                    &&& r matches ReplayStep::Verified { round, line } && round == n && line@
                        == challenge_line(c, decimal(n as nat))
                    &&& final(self).state@ == s@
                    &&& final(self).challenge@ == c
                    &&& final(self).round == n
                } else {
                    &&& r == (ReplayStep::Rejected { round: n })
                    &&& *final(self) == *old(self)
                }
            },
    {
        if self.round == u64::MAX {
            return ReplayStep::Finished { last_round: self.round };
        }
        match next {
            None => ReplayStep::Finished { last_round: self.round },
            Some((state, proof)) => {
                let round = self.round + 1;
                match verify_transform(e, &self.challenge, &self.state, state, proof) {
                    Ok((challenge, state)) => {
                        self.state = state;
                        self.challenge = challenge;
                        self.round = round;
                        let line = computed_challenge_line(&challenge, round);
                        ReplayStep::Verified { round, line }
                    },
                    Err(_) => ReplayStep::Rejected { round },
                }
            },
        }
    }
}

/// Groups of at most four bytes in hexadecimal, each followed by a space.
pub open spec fn sections_text(c: Seq<u8>) -> Seq<u8>
    decreases c.len(),
{
    if c.len() == 0 {
        Seq::empty()
    } else if c.len() <= 4 {
        hex_text(c) + seq![SPACE]
    } else {
        hex_text(c.take(4)) + seq![SPACE] + sections_text(c.skip(4))
    }
}

/// One line of a digest printout: a tab, then the groups of its bytes.
pub open spec fn printout_line(c: Seq<u8>) -> Seq<u8> {
    seq![9u8] + sections_text(c)
}

/// The printout of `b`: one line per sixteen bytes.
pub open spec fn printout(b: Seq<u8>) -> Seq<Seq<u8>>
    decreases b.len(),
{
    if b.len() == 0 {
        Seq::empty()
    } else if b.len() <= 16 {
        seq![printout_line(b)]
    } else {
        seq![printout_line(b.take(16))] + printout(b.skip(16))
    }
}

/// One line of a digest printout.
fn pretty_line(c: &[u8]) -> (r: Vec<u8>)
    ensures
        r@ == printout_line(c@),
{
    let mut out: Vec<u8> = Vec::new();
    out.push(9u8);
    let mut i: usize = 0;
    assert(c@.skip(0) =~= c@);
    while i < c.len()
        invariant
            0 <= i <= c@.len(),
            out@ + sections_text(c@.skip(i as int)) == printout_line(c@),
        decreases c@.len() - i,
    {
        let end = if c.len() - i <= 4 { c.len() } else { i + 4 };
        let section = slice_to_vec(c, i, end);
        let text = to_hex(section.as_slice());
        let ghost before = out@;
        push_bytes(&mut out, text.as_slice());
        out.push(SPACE);
        proof {
            let rest = c@.skip(i as int);
            assert(section@ =~= rest.take((end - i) as int));
            if end == c.len() {
                assert(rest.take((end - i) as int) =~= rest);
                assert(c@.skip(end as int) =~= Seq::<u8>::empty());
            } else {
                assert(rest.skip(4) =~= c@.skip(end as int));
            }
            assert(out@ =~= before + hex_text(section@) + seq![SPACE]);
        }
        i = end;
    }
    assert(c@.skip(c@.len() as int) =~= Seq::<u8>::empty());
    assert(out@ =~= out@ + sections_text(c@.skip(c@.len() as int)));
    out
}

/// The printout of a digest: lines of sixteen bytes, each a tab and groups
/// of four bytes in hexadecimal followed by a space.
pub fn pretty_print(bytes: &[u8]) -> (r: Vec<Vec<u8>>)
    ensures
        views(r@) == printout(bytes@),
{
    let mut lines: Vec<Vec<u8>> = Vec::new();
    let mut i: usize = 0;
    assert(bytes@.skip(0) =~= bytes@);
    assert(views(lines@) + printout(bytes@) =~= printout(bytes@));
    while i < bytes.len()
        invariant
            0 <= i <= bytes@.len(),
            views(lines@) + printout(bytes@.skip(i as int)) == printout(bytes@),
        decreases bytes@.len() - i,
    {
        let end = if bytes.len() - i <= 16 { bytes.len() } else { i + 16 };
        let chunk = slice_to_vec(bytes, i, end);
        let line = pretty_line(chunk.as_slice());
        let ghost before = views(lines@);
        lines.push(line);
        proof {
            let rest = bytes@.skip(i as int);
            assert(chunk@ =~= rest.take((end - i) as int));
            if end == bytes.len() {
                assert(rest.take((end - i) as int) =~= rest);
                assert(bytes@.skip(end as int) =~= Seq::<u8>::empty());
            } else {
                assert(rest.skip(16) =~= bytes@.skip(end as int));
            }
            assert(views(lines@) =~= before.push(printout_line(chunk@)));
            assert(views(lines@) + printout(bytes@.skip(end as int)) =~= before + printout(rest));
        }
        i = end;
    }
    assert(bytes@.skip(bytes@.len() as int) =~= Seq::<u8>::empty());
    assert(views(lines@) =~= views(lines@) + printout(bytes@.skip(bytes@.len() as int)));
    lines
}

/// Which artifacts of one round exist on disk.
#[derive(Clone, Copy, Debug, PartialEq, Eq)]
pub struct RoundFiles {
    pub state: bool,
    pub challenge: bool,
    pub proof: bool,
}

/// Whether round `r` has all its artifacts: a state and a challenge, and a
/// proof for every round after the first.
pub open spec fn round_complete(f: RoundFiles, r: int) -> bool {
    f.state && f.challenge && (r == 0 || f.proof)
}

/// The round that a restarted coordinator adopts: the highest one up to
/// which every round, from round 0 on, has all its artifacts; `None` where
/// round 0 itself is incomplete. `files[r]` describes round `r`.
pub fn recovery_round(files: &Vec<RoundFiles>) -> (r: Option<usize>)
    ensures
        r is None <==> (files@.len() == 0 || !round_complete(files@[0], 0)),
        r matches Some(n) ==> {
            &&& n < files@.len()
            &&& forall|i: int| 0 <= i <= n ==> round_complete(#[trigger] files@[i], i)
            &&& n + 1 == files@.len() || !round_complete(files@[n + 1], n + 1)
        },
{
    let mut n: usize = 0;
    while n < files.len()
        invariant
            0 <= n <= files@.len(),
            forall|i: int| 0 <= i < n ==> round_complete(#[trigger] files@[i], i),
        ensures
            0 <= n <= files@.len(),
            forall|i: int| 0 <= i < n ==> round_complete(#[trigger] files@[i], i),
            n == files@.len() || !round_complete(files@[n as int], n as int),
        decreases files@.len() - n,
    {
        let f = files[n];
        if !(f.state && f.challenge && (n == 0 || f.proof)) {
            break;
        }
        n = n + 1;
    }
    if n == 0 {
        None
    } else {
        Some(n - 1)
    }
}

} // verus!
