//! Reading and writing states and proofs in their canonical encoding, for
//! round files of known point sizes.

use crate::coordinator::CircuitSize;
use crate::encoding::{joined, le_bytes, push_u64, views};
use crate::mpc::{proof_bytes, push_proof, push_state, state_bytes, Proof, ProofModel, State, StateModel};
use crate::transcript::same_bytes;
use vstd::prelude::*;

verus! {

/// Whether `q` holds `n` points of `size` bytes each.
pub open spec fn points_sized(q: Seq<Seq<u8>>, n: nat, size: nat) -> bool {
    &&& q.len() == n
    &&& forall|i: int| 0 <= i < q.len() ==> (#[trigger] q[i]).len() == size
}

/// Whether `s` has G1 points of `g1` bytes, G2 points of `g2` bytes, and
/// the numbers of query points that `size` gives.
pub open spec fn state_shaped(s: StateModel, g1: nat, g2: nat, size: CircuitSize) -> bool {
    &&& s.delta_g1.len() == g1
    &&& s.delta_g2.len() == g2
    &&& points_sized(s.h_query, size.h_query as nat, g1)
    &&& points_sized(s.l_query, size.l_query as nat, g1)
}

/// Whether `p` has G1 points of `g1` bytes and a G2 point of `g2` bytes.
pub open spec fn proof_shaped(p: ProofModel, g1: nat, g2: nat) -> bool {
    &&& p.s.len() == g1
    &&& p.s_delta.len() == g1
    &&& p.r_delta.len() == g1
    &&& p.transcript_g2.len() == g2
}

/// The points of equal size, one after another, take `n * size` bytes.
pub proof fn lemma_joined_len(q: Seq<Seq<u8>>, n: nat, size: nat)
    requires
        points_sized(q, n, size),
    ensures
        joined(q).len() == n * size,
    decreases q.len(),
{
    if q.len() > 0 {
        let m = (n - 1) as nat;
        assert(points_sized(q.drop_last(), m, size));
        lemma_joined_len(q.drop_last(), m, size);
        assert(q.last().len() == size);
        assert(m * size + size == n * size) by (nonlinear_arith)
            requires
                m + 1 == n,
        ;
    } else {
        assert(n * size == 0) by (nonlinear_arith)
            requires
                n == 0,
        ;
    }
}

/// The canonical encoding of a state.
pub fn encode_state(s: &State) -> (r: Vec<u8>)
    ensures
        r@ == state_bytes(s@),
{
    let mut out: Vec<u8> = Vec::new();
    push_state(&mut out, s);
    assert(out@ =~= state_bytes(s@));
    out
}

/// The canonical encoding of a proof.
pub fn encode_proof(p: &Proof) -> (r: Vec<u8>)
    ensures
        r@ == proof_bytes(p@),
{
    let mut out: Vec<u8> = Vec::new();
    push_proof(&mut out, p);
    assert(out@ =~= proof_bytes(p@));
    out
}

/// The bytes of `b` from `from` up to `to`.
pub fn slice_to_vec(b: &[u8], from: usize, to: usize) -> (r: Vec<u8>)
    requires
        from <= to <= b@.len(),
    ensures
        r@ == b@.subrange(from as int, to as int),
{
    let mut out: Vec<u8> = Vec::new();
    let mut i: usize = from;
    while i < to
        invariant
            from <= i <= to,
            to <= b@.len(),
            out@ == b@.subrange(from as int, i as int),
        decreases to - i,
    {
        out.push(b[i]);
        i = i + 1;
        assert(out@ =~= b@.subrange(from as int, i as int));
    }
    out
}

/// `n` points of `size` bytes read from `b` at `at`.
fn read_points(b: &[u8], at: usize, n: usize, size: usize) -> (r: Vec<Vec<u8>>)
    requires
        at + n * size <= b@.len(),
    ensures
        points_sized(views(r@), n as nat, size as nat),
        joined(views(r@)) == b@.subrange(at as int, at + n * size),
{
    let mut out: Vec<Vec<u8>> = Vec::new();
    let mut i: usize = 0;
    let mut pos: usize = at;
    let blen = b.len();
    assert(joined(views(out@)) =~= b@.subrange(at as int, at as int));
    while i < n
        invariant
            at + n * size <= b@.len(),
            blen == b@.len(),
            0 <= i <= n,
            pos == at + i * size,
            out@.len() == i,
            forall|j: int| 0 <= j < i ==> (#[trigger] out@[j])@.len() == size,
            joined(views(out@)) == b@.subrange(at as int, pos as int),
        decreases n - i,
    {
        proof {
            assert(i * size + size <= n * size) by (nonlinear_arith)
                requires
                    i < n,
                    size >= 0,
            ;
            assert(pos + size <= at + n * size);
            assert(pos + size <= blen);
        }
        let point = slice_to_vec(b, pos, pos + size);
        let ghost before = views(out@);
        out.push(point);
        proof {
            assert(views(out@).drop_last() =~= before);
            assert(joined(views(out@)) =~= b@.subrange(at as int, pos + size));
            assert((i + 1) * size == i * size + size) by (nonlinear_arith);
        }
        pos = pos + size;
        i = i + 1;
    }
    assert(points_sized(views(out@), n as nat, size as nat));
    out
}

/// Where the parts of the encoding of a shaped state lie.
proof fn lemma_state_layout(s: StateModel, g1: nat, g2: nat, size: CircuitSize)
    requires
        state_shaped(s, g1, g2, size),
    ensures
        ({
            let b = state_bytes(s);
            let hn: int = size.h_query as int * g1 as int;
            let ln: int = size.l_query as int * g1 as int;
            let a: int = g1 as int + g2 as int;
            &&& b.len() == a + 8 + hn + 8 + ln
            &&& b.subrange(0, g1 as int) == s.delta_g1
            &&& b.subrange(g1 as int, a) == s.delta_g2
            &&& b.subrange(a, a + 8) == le_bytes(size.h_query as nat, 8)
            &&& b.subrange(a + 8, a + 8 + hn) == joined(s.h_query)
            &&& b.subrange(a + 8 + hn, a + 16 + hn) == le_bytes(size.l_query as nat, 8)
            &&& b.subrange(a + 16 + hn, a + 16 + hn + ln) == joined(s.l_query)
        }),
{
    lemma_joined_len(s.h_query, size.h_query as nat, g1);
    lemma_joined_len(s.l_query, size.l_query as nat, g1);
    lemma_le_len(size.h_query as nat, 8);
    lemma_le_len(size.l_query as nat, 8);
    let b = state_bytes(s);
    let hn: int = size.h_query as int * g1 as int;
    let ln: int = size.l_query as int * g1 as int;
    let a: int = g1 as int + g2 as int;
    assert(b.subrange(0, g1 as int) =~= s.delta_g1);
    assert(b.subrange(g1 as int, a) =~= s.delta_g2);
    assert(b.subrange(a, a + 8) =~= le_bytes(size.h_query as nat, 8));
    assert(b.subrange(a + 8, a + 8 + hn) =~= joined(s.h_query));
    assert(b.subrange(a + 8 + hn, a + 16 + hn) =~= le_bytes(size.l_query as nat, 8));
    assert(b.subrange(a + 16 + hn, a + 16 + hn + ln) =~= joined(s.l_query));
}

/// `le_bytes` has the length it is asked for.
proof fn lemma_le_len(n: nat, k: nat)
    ensures
        le_bytes(n, k).len() == k,
    decreases k,
{
    if k > 0 {
        lemma_le_len(n / 256, (k - 1) as nat);
    }
}

/// The eight little-endian bytes of `n`.
fn le_u64(n: u64) -> (r: Vec<u8>)
    ensures
        r@ == le_bytes(n as nat, 8),
{
    let mut out: Vec<u8> = Vec::new();
    push_u64(&mut out, n);
    assert(out@ =~= le_bytes(n as nat, 8));
    out
}

/// Reads a state of the given point sizes and query counts from its
/// canonical encoding; `None` where `b` encodes no such state.
pub fn decode_state(b: &[u8], g1: usize, g2: usize, size: CircuitSize) -> (r: Option<State>)
    ensures
        r matches Some(s) ==> state_shaped(s@, g1 as nat, g2 as nat, size) && state_bytes(s@) == b@,
        r is None ==> forall|s: StateModel| #[trigger] state_shaped(s, g1 as nat, g2 as nat, size) ==> state_bytes(s) != b@,
{
    let len = b.len() as u128;
    proof {
        let h = size.h_query as int;
        let l = size.l_query as int;
        let g = g1 as int;
        assert(h * g <= 0xffff_ffff_ffff_ffff * 0xffff_ffff_ffff_ffff) by (nonlinear_arith)
            requires
                0 <= h <= 0xffff_ffff_ffff_ffff,
                0 <= g <= 0xffff_ffff_ffff_ffff,
        ;
        assert(l * g <= 0xffff_ffff_ffff_ffff * 0xffff_ffff_ffff_ffff) by (nonlinear_arith)
            requires
                0 <= l <= 0xffff_ffff_ffff_ffff,
                0 <= g <= 0xffff_ffff_ffff_ffff,
        ;
    }
    let hn_wide = size.h_query as u128 * g1 as u128;
    let ln_wide = size.l_query as u128 * g1 as u128;
    let fits = hn_wide <= len && ln_wide <= len;
    if !fits || g1 as u128 + g2 as u128 + 16 + hn_wide + ln_wide != len {
        proof {
            assert forall|s: StateModel| #[trigger]
                state_shaped(s, g1 as nat, g2 as nat, size) implies state_bytes(s) != b@ by {
                lemma_state_layout(s, g1 as nat, g2 as nat, size);
            }
        }
        return None;
    }
    let hn = hn_wide as usize;
    let ln = ln_wide as usize;
    let a = g1 + g2;
    let h_count = le_u64(size.h_query as u64);
    let l_count = le_u64(size.l_query as u64);
    let h_prefix = slice_to_vec(b, a, a + 8);
    let l_prefix = slice_to_vec(b, a + 8 + hn, a + 16 + hn);
    if !same_bytes(h_prefix.as_slice(), h_count.as_slice()) || !same_bytes(l_prefix.as_slice(), l_count.as_slice()) {
        proof {
            assert forall|s: StateModel| #[trigger]
                state_shaped(s, g1 as nat, g2 as nat, size) implies state_bytes(s) != b@ by {
                lemma_state_layout(s, g1 as nat, g2 as nat, size);
            }
        }
        return None;
    }
    let delta_g1 = slice_to_vec(b, 0, g1);
    let delta_g2 = slice_to_vec(b, g1, a);
    let h_query = read_points(b, a + 8, size.h_query, g1);
    let l_query = read_points(b, a + 16 + hn, size.l_query, g1);
    let s = State { delta_g1, delta_g2, h_query, l_query };
    proof {
        lemma_state_layout(s@, g1 as nat, g2 as nat, size);
        let e = state_bytes(s@);
        assert(e.len() == b@.len());
        assert forall|i: int| 0 <= i < e.len() implies e[i] == b@[i] by {
            if i < g1 {
                assert(e[i] == e.subrange(0, g1 as int)[i]);
                assert(b@[i] == b@.subrange(0, g1 as int)[i]);
            } else if i < a {
                assert(e[i] == e.subrange(g1 as int, a as int)[i - g1]);
                assert(b@[i] == b@.subrange(g1 as int, a as int)[i - g1]);
            } else if i < a + 8 {
                assert(e[i] == e.subrange(a as int, a + 8)[i - a]);
                assert(b@[i] == b@.subrange(a as int, a + 8)[i - a]);
            } else if i < a + 8 + hn {
                assert(e[i] == e.subrange(a + 8, a + 8 + hn)[i - a - 8]);
                assert(b@[i] == b@.subrange(a + 8, a + 8 + hn)[i - a - 8]);
            } else if i < a + 16 + hn {
                assert(e[i] == e.subrange(a + 8 + hn, a + 16 + hn)[i - a - 8 - hn]);
                assert(b@[i] == b@.subrange(a + 8 + hn, a + 16 + hn)[i - a - 8 - hn]);
            } else {
                assert(e[i] == e.subrange(a + 16 + hn, a + 16 + hn + ln)[i - a - 16 - hn]);
                assert(b@[i] == b@.subrange(a + 16 + hn, a + 16 + hn + ln)[i - a - 16 - hn]);
            }
        }
        assert(e =~= b@);
    }
    Some(s)
}

/// Reads a proof of the given point sizes from its canonical encoding;
/// `None` where `b` encodes no such proof.
pub fn decode_proof(b: &[u8], g1: usize, g2: usize) -> (r: Option<Proof>)
    ensures
        r matches Some(p) ==> proof_shaped(p@, g1 as nat, g2 as nat) && proof_bytes(p@) == b@,
        r is None ==> forall|p: ProofModel| #[trigger] proof_shaped(p, g1 as nat, g2 as nat) ==> proof_bytes(p) != b@,
{
    let total = 3 * (g1 as u128) + g2 as u128;
    if total != b.len() as u128 {
        return None;
    }
    let p = Proof {
        s: slice_to_vec(b, 0, g1),
        s_delta: slice_to_vec(b, g1, 2 * g1),
        r_delta: slice_to_vec(b, 2 * g1, 3 * g1),
        transcript_g2: slice_to_vec(b, 3 * g1, b.len()),
    };
    assert(proof_bytes(p@) =~= b@);
    Some(p)
}

} // verus!
