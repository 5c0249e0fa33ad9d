//! Canonical byte encodings that the transcript digests are taken over.

use vstd::prelude::*;

verus! {

/// The `k` low bytes of `n`, least significant first.
pub open spec fn le_bytes(n: nat, k: nat) -> Seq<u8>
    decreases k,
{
    if k == 0 {
        Seq::empty()
    } else {
        seq![(n % 256) as u8] + le_bytes(n / 256, (k - 1) as nat)
    }
}

/// The byte strings of `s` one after another.
pub open spec fn joined(s: Seq<Seq<u8>>) -> Seq<u8>
    decreases s.len(),
{
    if s.len() == 0 {
        Seq::empty()
    } else {
        joined(s.drop_last()) + s.last()
    }
}

/// The views of a vector of byte vectors.
pub open spec fn views(v: Seq<Vec<u8>>) -> Seq<Seq<u8>> {
    v.map_values(|b: Vec<u8>| b@)
}

/// A list of byte strings: its length as eight little-endian bytes, then
/// the strings one after another.
pub open spec fn list_bytes(s: Seq<Seq<u8>>) -> Seq<u8> {
    le_bytes(s.len(), 8) + joined(s)
}

/// Appends `b` to `out`.
pub fn push_bytes(out: &mut Vec<u8>, b: &[u8])
    ensures
        final(out)@ == old(out)@ + b@,
{
    let mut i: usize = 0;
    while i < b.len()
        invariant
            0 <= i <= b@.len(),
            out@ == old(out)@ + b@.take(i as int),
        decreases b@.len() - i,
    {
        out.push(b[i]);
        i = i + 1;
        assert(out@ =~= old(out)@ + b@.take(i as int));
    }
    assert(b@.take(b@.len() as int) =~= b@);
}

/// Appends the eight little-endian bytes of `n` to `out`.
pub fn push_u64(out: &mut Vec<u8>, n: u64)
    ensures
        final(out)@ == old(out)@ + le_bytes(n as nat, 8),
{
    let mut x: u64 = n;
    let mut i: usize = 0;
    while i < 8
        invariant
            0 <= i <= 8,
            out@ + le_bytes(x as nat, (8 - i) as nat) == old(out)@ + le_bytes(n as nat, 8),
        decreases 8 - i,
    {
        let ghost before = out@;
        out.push((x % 256) as u8);
        proof {
            assert(le_bytes(x as nat, (8 - i) as nat) == seq![(x as nat % 256) as u8] + le_bytes(
                x as nat / 256,
                (8 - i - 1) as nat,
            ));
            assert(out@ + le_bytes(x as nat / 256, (8 - i - 1) as nat) =~= before + le_bytes(
                x as nat,
                (8 - i) as nat,
            ));
        }
        x = x / 256;
        i = i + 1;
    }
    assert(le_bytes(x as nat, 0) =~= Seq::<u8>::empty());
    assert(out@ =~= out@ + le_bytes(x as nat, 0));
}

/// Appends the list encoding of `v` to `out`.
pub fn push_list(out: &mut Vec<u8>, v: &Vec<Vec<u8>>)
    ensures
        final(out)@ == old(out)@ + list_bytes(views(v@)),
{
    push_u64(out, v.len() as u64);
    let ghost start = out@;
    let ghost s = views(v@);
    let mut i: usize = 0;
    while i < v.len()
        invariant
            0 <= i <= v@.len(),
            s == views(v@),
            start == old(out)@ + le_bytes(v@.len() as nat, 8),
            out@ == start + joined(s.take(i as int)),
        decreases v@.len() - i,
    {
        push_bytes(out, v[i].as_slice());
        proof {
            assert(s.take(i as int + 1).drop_last() =~= s.take(i as int));
            assert(s[i as int] == v@[i as int]@);
        }
        i = i + 1;
        assert(out@ =~= start + joined(s.take(i as int)));
    }
    assert(s.take(v@.len() as int) =~= s);
    assert(s.len() == v@.len());
    assert(out@ =~= old(out)@ + list_bytes(s));
}

/// A copy of `b`.
pub fn copy_bytes(b: &[u8]) -> (r: Vec<u8>)
    ensures
        r@ == b@,
{
    let mut out: Vec<u8> = Vec::new();
    push_bytes(&mut out, b);
    assert(out@ =~= b@);
    out
}

} // verus!
