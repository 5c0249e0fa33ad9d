//! Multi-level FIFO queue of participant identifiers.

use crate::participant::Identifier;
use vstd::prelude::*;

verus! {

/// The levels in order, each from front to back, as one sequence.
pub open spec fn flat_of(s: Seq<Seq<Identifier>>) -> Seq<Identifier>
    decreases s.len(),
{
    if s.len() == 0 {
        Seq::empty()
    } else {
        flat_of(s.drop_last()) + s.last()
    }
}

/// Whether no identifier occurs twice in `q`.
pub open spec fn no_repeats(q: Seq<Identifier>) -> bool {
    forall|i: int, j: int|
        0 <= i < q.len() && 0 <= j < q.len() && i != j ==> #[trigger] q[i]@ != #[trigger] q[j]@
}

/// Whether `id` occurs in `q`.
pub open spec fn occurs(q: Seq<Identifier>, id: Seq<u8>) -> bool {
    exists|i: int| 0 <= i < q.len() && #[trigger] q[i]@ == id
}

/// The queue level of a priority: the highest priority is served first at
/// level 0, priority 0 waits at the last level.
pub open spec fn level_for(priority: u8, level_count: nat) -> nat {
    if priority as nat + 1 >= level_count {
        0
    } else {
        (level_count - 1 - priority) as nat
    }
}

/// The first level that holds an identifier.
pub open spec fn first_filled(s: Seq<Seq<Identifier>>) -> int {
    choose|i: int| 0 <= i < s.len() && s[i].len() > 0 && forall|k: int| 0 <= k < i ==> #[trigger] s[k].len() == 0
}

/// What the front of the queue is, if anything waits.
pub open spec fn front_of(s: Seq<Seq<Identifier>>) -> Option<Identifier> {
    if flat_of(s).len() == 0 {
        None
    } else {
        Some(flat_of(s)[0])
    }
}

/// The levels once the front is taken off.
pub open spec fn popped(s: Seq<Seq<Identifier>>) -> Seq<Seq<Identifier>> {
    if flat_of(s).len() == 0 {
        s
    } else {
        s.update(first_filled(s), s[first_filled(s)].drop_first())
    }
}

/// Flattening `s` concatenates its levels.
pub proof fn lemma_flat_append(a: Seq<Seq<Identifier>>, b: Seq<Seq<Identifier>>)
    ensures
        flat_of(a + b) == flat_of(a) + flat_of(b),
    decreases b.len(),
{
    if b.len() == 0 {
        assert(a + b =~= a);
        assert(flat_of(a) + flat_of(b) =~= flat_of(a));
    } else {
        assert((a + b).drop_last() =~= a + b.drop_last());
        lemma_flat_append(a, b.drop_last());
        assert(flat_of(a + b) =~= flat_of(a) + flat_of(b));
    }
}

/// A single level flattens to itself.
pub proof fn lemma_flat_single(x: Seq<Identifier>)
    ensures
        flat_of(seq![x]) == x,
{
    let s = seq![x];
    assert(s.drop_last() =~= Seq::<Seq<Identifier>>::empty());
    assert(flat_of(s.drop_last()) =~= Seq::<Identifier>::empty());
    assert(flat_of(s) =~= x);
}

/// The levels split around level `l`.
pub proof fn lemma_flat_split(s: Seq<Seq<Identifier>>, l: int)
    requires
        0 <= l < s.len(),
    ensures
        flat_of(s) == flat_of(s.take(l)) + s[l] + flat_of(s.skip(l + 1)),
{
    assert(s =~= (s.take(l) + seq![s[l]]) + s.skip(l + 1));
    lemma_flat_append(s.take(l) + seq![s[l]], s.skip(l + 1));
    lemma_flat_append(s.take(l), seq![s[l]]);
    lemma_flat_single(s[l]);
}

/// Levels that are all empty flatten to nothing.
pub proof fn lemma_flat_empty(s: Seq<Seq<Identifier>>)
    requires
        forall|k: int| 0 <= k < s.len() ==> #[trigger] s[k].len() == 0,
    ensures
        flat_of(s) == Seq::<Identifier>::empty(),
    decreases s.len(),
{
    if s.len() > 0 {
        lemma_flat_empty(s.drop_last());
        assert(s.last().len() == 0);
        assert(flat_of(s) =~= Seq::<Identifier>::empty());
    }
}

/// Participant identifiers waiting in levels, level 0 served first, each
/// level in order of arrival.
pub struct Queue {
    levels: Vec<Vec<Identifier>>,
    len: usize,
}

impl View for Queue {
    type V = Seq<Seq<Identifier>>;

    closed spec fn view(&self) -> Seq<Seq<Identifier>> {
        Seq::new(self.levels@.len(), |i: int| self.levels@[i]@)
    }
}

impl Queue {
    /// All identifiers in the order in which they will be served.
    pub open spec fn flat(&self) -> Seq<Identifier> {
        flat_of(self@)
    }

    /// At least one level, no identifier twice, and the cached length.
    pub closed spec fn wf(&self) -> bool {
        &&& self.levels@.len() >= 1
        &&& no_repeats(self.flat())
        &&& self.len == self.flat().len()
    }

    /// Whether `id` is waiting.
    pub open spec fn contains(&self, id: Seq<u8>) -> bool {
        occurs(self.flat(), id)
    }

    /// An empty queue with `level_count` levels.
    pub fn new(level_count: usize) -> (r: Self)
        requires
            level_count >= 1,
        ensures
            r.wf(),
            r@.len() == level_count,
            r.flat() == Seq::<Identifier>::empty(),
            forall|i: int| 0 <= i < level_count ==> #[trigger] r@[i].len() == 0,
    {
        let mut levels: Vec<Vec<Identifier>> = Vec::new();
        let mut i: usize = 0;
        while i < level_count
            invariant
                0 <= i <= level_count,
                levels@.len() == i,
                forall|k: int| 0 <= k < i ==> #[trigger] levels@[k]@.len() == 0,
            decreases level_count - i,
        {
            levels.push(Vec::new());
            i = i + 1;
        }
        let r = Queue { levels, len: 0 };
        proof {
            lemma_flat_empty(r@);
        }
        r
    }

    /// Number of levels.
    pub fn level_count(&self) -> (r: usize)
        requires
            self.wf(),
        ensures
            r == self@.len(),
            r >= 1,
    {
        self.levels.len()
    }

    /// No identifier waits twice.
    pub proof fn lemma_no_repeats(&self)
        requires
            self.wf(),
        ensures
            no_repeats(self.flat()),
    {
    }

    /// The front of the queue is waiting in it.
    pub proof fn lemma_front_waits(&self)
        ensures
            front_of(self@) matches Some(f) ==> self.contains(f@),
    {
        if self.flat().len() > 0 {
            assert(self.flat()[0]@ == self.flat()[0]@);
        }
    }

    /// Number of waiting identifiers.
    pub fn len(&self) -> (r: usize)
        requires
            self.wf(),
        ensures
            r == self.flat().len(),
    {
        self.len
    }

    /// The position of `id` across all levels, counted from the front.
    pub fn position(&self, id: &Identifier) -> (r: Option<usize>)
        requires
            self.wf(),
        ensures
            r is None <==> !self.contains(id@),
            r matches Some(p) ==> p < self.flat().len() && self.flat()[p as int]@ == id@,
    {
        let ghost s = self@;
        let mut count: usize = 0;
        let mut l: usize = 0;
        while l < self.levels.len()
            invariant
                self.wf(),
                s == self@,
                0 <= l <= s.len(),
                count == flat_of(s.take(l as int)).len(),
                !occurs(flat_of(s.take(l as int)), id@),
            decreases s.len() - l,
        {
            proof {
                lemma_flat_split(s, l as int);
                assert(s.take(l as int + 1) =~= s.take(l as int) + seq![s[l as int]]);
                lemma_flat_append(s.take(l as int), seq![s[l as int]]);
                lemma_flat_single(s[l as int]);
            }
            let level = &self.levels[l];
            let mut j: usize = 0;
            while j < level.len()
                invariant
                    self.wf(),
                    s == self@,
                    0 <= l < s.len(),
                    *level == self.levels@[l as int],
                    s[l as int] == level@,
                    0 <= j <= level@.len(),
                    count == flat_of(s.take(l as int)).len(),
                    flat_of(s) == flat_of(s.take(l as int)) + s[l as int] + flat_of(
                        s.skip(l as int + 1),
                    ),
                    forall|k: int| 0 <= k < j ==> level@[k]@ != id@,
                decreases level@.len() - j,
            {
                if level[j].equals(id) {
                    assert(self.flat()[count + j] == level@[j as int]);
                    return Some(count + j);
                }
                j = j + 1;
            }
            proof {
                let f = flat_of(s.take(l as int + 1));
                assert(f =~= flat_of(s.take(l as int)) + s[l as int]);
                assert forall|k: int| 0 <= k < f.len() implies #[trigger] f[k]@ != id@ by {
                    if k >= flat_of(s.take(l as int)).len() {
                        assert(f[k] == level@[k - flat_of(s.take(l as int)).len()]);
                    } else {
                        assert(f[k] == flat_of(s.take(l as int))[k]);
                    }
                }
                assert(f.len() <= self.flat().len());
            }
            count = count + level.len();
            l = l + 1;
        }
        assert(s.take(s.len() as int) =~= s);
        None
    }

    /// Appends `id` to the back of `level` unless it is waiting already;
    /// says whether it was added. A queue holding `usize::MAX` identifiers
    /// takes no more.
    pub fn push(&mut self, id: Identifier, level: usize) -> (r: bool)
        requires
            old(self).wf(),
            level < old(self)@.len(),
        ensures
            final(self).wf(),
            final(self)@.len() == old(self)@.len(),
            r == (!old(self).contains(id@) && old(self).flat().len() < usize::MAX),
            r ==> final(self)@ == old(self)@.update(level as int, old(self)@[level as int].push(id)),
            !r ==> final(self)@ == old(self)@,
            forall|x: Seq<u8>| #[trigger]
                final(self).contains(x) <==> (old(self).contains(x) || (r && x == id@)),
    {
        if self.len == usize::MAX {
            return false;
        }
        match self.position(&id) {
            Some(_) => false,
            None => {
                let ghost s = self@;
                let mut lv = self.levels.remove(level);
                lv.push(id);
                self.levels.insert(level, lv);
                self.len = self.len + 1;
                proof {
                    let t = s.update(level as int, s[level as int].push(id));
                    assert(self@ =~= t);
                    lemma_flat_split(s, level as int);
                    lemma_flat_split(t, level as int);
                    assert(t.take(level as int) =~= s.take(level as int));
                    assert(t.skip(level as int + 1) =~= s.skip(level as int + 1));
                    let a = flat_of(s.take(level as int));
                    let b = flat_of(s.skip(level as int + 1));
                    let q = flat_of(s);
                    let q2 = flat_of(t);
                    assert(q2 =~= a + s[level as int].push(id) + b);
                    let n: int = (a.len() + s[level as int].len()) as int;
                    assert forall|k: int| 0 <= k < q2.len() && k != n implies #[trigger] q2[k]
                        == q[if k < n {
                        k
                    } else {
                        k - 1
                    }] by {}
                    assert(q2[n] == id);
                    assert forall|x: Seq<u8>| #[trigger]
                        occurs(q2, x) <==> (occurs(q, x) || x == id@) by {
                        if occurs(q2, x) {
                            let k = choose|k: int| 0 <= k < q2.len() && #[trigger] q2[k]@ == x;
                            if k != n {
                                let kk = if k < n { k } else { k - 1 };
                                assert(q[kk]@ == x);
                            }
                        }
                        if occurs(q, x) {
                            let k = choose|k: int| 0 <= k < q.len() && #[trigger] q[k]@ == x;
                            let kk = if k < n { k } else { k + 1 };
                            assert(q2[kk] == q[k]);
                        }
                        if x == id@ {
                            assert(q2[n]@ == x);
                        }
                    }
                    assert forall|i: int, j: int|
                        0 <= i < q2.len() && 0 <= j < q2.len() && i != j implies #[trigger] q2[i]@
                        != #[trigger] q2[j]@ by {
                        if i == n {
                            let jj = if j < n { j } else { j - 1 };
                            assert(q2[j] == q[jj]);
                        } else if j == n {
                            let ii = if i < n { i } else { i - 1 };
                            assert(q2[i] == q[ii]);
                        } else {
                            let ii = if i < n { i } else { i - 1 };
                            let jj = if j < n { j } else { j - 1 };
                            assert(q2[i] == q[ii]);
                            assert(q2[j] == q[jj]);
                        }
                    }
                }
                true
            }
        }
    }

    /// Removes and returns the front of the first level that holds an identifier.
    pub fn pop_front(&mut self) -> (r: Option<Identifier>)
        requires
            old(self).wf(),
        ensures
            final(self).wf(),
            final(self)@.len() == old(self)@.len(),
            r == front_of(old(self)@),
            final(self)@ == popped(old(self)@),
            old(self).flat().len() == 0 ==> r is None && final(self)@ == old(self)@,
            old(self).flat().len() > 0 ==> r == Some(old(self).flat()[0]) && final(self).flat()
                == old(self).flat().drop_first(),
            forall|x: Seq<u8>| #[trigger]
                final(self).contains(x) <==> (old(self).contains(x) && !(r matches Some(f) && f@
                    == x)),
            old(self).flat().len() > 0 ==> ({
                let l = first_filled(old(self)@);
                &&& 0 <= l < old(self)@.len()
                &&& final(self)@ == old(self)@.update(l, old(self)@[l].drop_first())
            }),
    {
        let ghost s = self@;
        let mut l: usize = 0;
        while l < self.levels.len()
            invariant
                self.wf(),
                s == self@,
                s == old(self)@,
                self.flat() == old(self).flat(),
                0 <= l <= s.len(),
                forall|k: int| 0 <= k < l ==> #[trigger] s[k].len() == 0,
            decreases s.len() - l,
        {
            if self.levels[l].len() > 0 {
                proof {
                    lemma_flat_split(s, l as int);
                }
                let mut lv = self.levels.remove(l);
                let front = lv.remove(0);
                self.levels.insert(l, lv);
                self.len = self.len - 1;
                proof {
                    let li = l as int;
                    let t = s.update(li, s[li].drop_first());
                    assert(self@ =~= t);
                    lemma_flat_split(s, li);
                    lemma_flat_split(t, li);
                    assert(t.take(li) =~= s.take(li));
                    assert(t.skip(li + 1) =~= s.skip(li + 1));
                    lemma_flat_empty(s.take(li));
                    let q = flat_of(s);
                    assert(q =~= s[li] + flat_of(s.skip(li + 1)));
                    assert(flat_of(t) =~= q.drop_first());
                    assert(front == q[0]);
                    let q2 = flat_of(t);
                    assert forall|i: int, j: int|
                        0 <= i < q2.len() && 0 <= j < q2.len() && i != j implies #[trigger] q2[i]@
                        != #[trigger] q2[j]@ by {
                        assert(q2[i] == q[i + 1]);
                        assert(q2[j] == q[j + 1]);
                    }
                    assert forall|x: Seq<u8>| #[trigger]
                        occurs(q2, x) <==> (occurs(q, x) && front@ != x) by {
                        if occurs(q2, x) {
                            let k = choose|k: int| 0 <= k < q2.len() && #[trigger] q2[k]@ == x;
                            assert(q[k + 1]@ == x);
                            assert(q[0]@ != q[k + 1]@);
                        }
                        if occurs(q, x) && front@ != x {
                            let k = choose|k: int| 0 <= k < q.len() && #[trigger] q[k]@ == x;
                            assert(k != 0);
                            assert(q2[k - 1] == q[k]);
                        }
                    }
                    let f = first_filled(s);
                    assert(0 <= li < s.len() && s[li].len() > 0 && forall|k: int|
                        0 <= k < li ==> #[trigger] s[k].len() == 0);
                    if f < li {
                        assert(s[f].len() == 0);
                    } else if f > li {
                        assert(s[li].len() == 0);
                    }
                }
                return Some(front);
            }
            l = l + 1;
        }
        proof {
            assert(s.take(s.len() as int) =~= s);
            lemma_flat_empty(s);
        }
        None
    }
}

/// The queue level of `priority` among `level_count` levels.
pub fn level_of(priority: u8, level_count: usize) -> (r: usize)
    requires
        level_count >= 1,
    ensures
        r == level_for(priority, level_count as nat),
        r < level_count,
{
    if priority as usize + 1 >= level_count {
        0
    } else {
        level_count - 1 - priority as usize
    }
}

} // verus!
