//! The set of consumer sinks that broadcasts go to.
//!
//! A sink is known here by an identifier that the transport hands out. Every
//! operation is one call on `&mut self`, so whoever holds the registry behind
//! a lock keeps adding, broadcasting with eviction, and removing indivisible.
use vstd::prelude::*;

verus! {

/// Identifier of one consumer sink.
pub type SinkId = u64;

/// The sinks of `s` whose write was delivered, in their order.
pub open spec fn kept(s: Seq<SinkId>, delivered: Seq<bool>) -> Seq<SinkId>
    recommends
        s.len() == delivered.len(),
    decreases s.len(),
{
    if s.len() == 0 || delivered.len() == 0 {
        Seq::empty()
    } else {
        let front = kept(s.drop_last(), delivered.drop_last());
        if delivered.last() {
            front.push(s.last())
        } else {
            front
        }
    }
}

/// The registered consumer sinks.
pub struct ConnectionRegistry {
    sinks: Vec<SinkId>,
}

impl View for ConnectionRegistry {
    type V = Seq<SinkId>;

    closed spec fn view(&self) -> Seq<SinkId> {
        self.sinks@
    }
}

impl ConnectionRegistry {
    /// No sink is registered twice.
    pub open spec fn wf(&self) -> bool {
        self@.no_duplicates()
    }

    /// An empty registry.
    pub fn new() -> (r: Self)
        ensures
            r.wf(),
            r@ == Seq::<SinkId>::empty(),
    {
        ConnectionRegistry { sinks: Vec::new() }
    }

    /// Number of registered sinks.
    pub fn len(&self) -> (r: usize)
        ensures
            r == self@.len(),
    {
        self.sinks.len()
    }

    /// Whether `id` is registered.
    pub fn contains(&self, id: SinkId) -> (r: bool)
        ensures
            r == self@.contains(id),
    {
        self.position(id).is_some()
    }

    fn position(&self, id: SinkId) -> (r: Option<usize>)
        ensures
            match r {
                Some(i) => i < self@.len() && self@[i as int] == id,
                None => !self@.contains(id),
            },
    {
        let mut i: usize = 0;
        while i < self.sinks.len()
            invariant
                i <= self@.len(),
                self@ == self.sinks@,
                forall|j: int| 0 <= j < i ==> self@[j] != id,
            decreases self@.len() - i,
        {
            if self.sinks[i] == id {
                return Some(i);
            }
            i = i + 1;
        }
        None
    }

    /// Registers `id`; a sink already present stays as it is.
    pub fn add(&mut self, id: SinkId)
        requires
            old(self).wf(),
        ensures
            final(self).wf(),
            old(self)@.contains(id) ==> final(self)@ == old(self)@,
            !old(self)@.contains(id) ==> final(self)@ == old(self)@.push(id),
    {
        if self.position(id).is_none() {
            self.sinks.push(id);
            proof {
                assert forall|a: int, b: int|
                    0 <= a < b < self@.len() implies self@[a] != self@[b] by {
                    if b == self@.len() - 1 {
                        assert(old(self)@.contains(old(self)@[a]));
                    } else {
                        assert(old(self)@[a] != old(self)@[b]);
                    }
                }
            }
        }
    }

    /// Unregisters `id`; removing a sink that is not there changes nothing.
    pub fn remove(&mut self, id: SinkId)
        requires
            old(self).wf(),
        ensures
            final(self).wf(),
            !final(self)@.contains(id),
            !old(self)@.contains(id) ==> final(self)@ == old(self)@,
            old(self)@.contains(id) ==> final(self)@ == old(self)@.remove(
                old(self)@.index_of(id),
            ),
    {
        match self.position(id) {
            Some(i) => {
                proof {
                    let s0 = old(self)@;
                    assert(0 <= i < s0.len() && s0[i as int] == id);
                    let c = s0.index_of(id);
                    assert(0 <= c < s0.len() && s0[c] == id);
                    assert(c == i);
                }
                self.sinks.remove(i);
                proof {
                    assert forall|a: int, b: int|
                        0 <= a < b < self@.len() implies self@[a] != self@[b] by {
                        let a0 = if a < i { a } else { a + 1 };
                        let b0 = if b < i { b } else { b + 1 };
                        assert(old(self)@[a0] != old(self)@[b0]);
                    }
                    assert forall|j: int| 0 <= j < self@.len() implies self@[j] != id by {
                        let j0 = if j < i { j } else { j + 1 };
                        assert(old(self)@[j0] != old(self)@[i as int]);
                    }
                }
            },
            None => {},
        }
    }

    /// The sinks a broadcast writes to, in registry order.
    pub fn broadcast_targets(&self) -> (r: Vec<SinkId>)
        ensures
            r@ == self@,
    {
        self.sinks.clone()
    }

    /// Ends a broadcast: the sink at each position whose write failed is
    /// evicted, the others stay in their order.
    pub fn evict_failed(&mut self, delivered: &[bool])
        requires
            old(self).wf(),
            delivered@.len() == old(self)@.len(),
        ensures
            final(self).wf(),
            final(self)@ == kept(old(self)@, delivered@),
    {
        let ghost s = self@;
        let mut out: Vec<SinkId> = Vec::new();
        let mut i: usize = 0;
        while i < self.sinks.len()
            invariant
                s == self@,
                self@ == self.sinks@,
                delivered@.len() == s.len(),
                i <= s.len(),
                out@ == kept(s.take(i as int), delivered@.take(i as int)),
            decreases s.len() - i,
        {
            proof {
                assert(s.take(i + 1).drop_last() =~= s.take(i as int));
                assert(delivered@.take(i + 1).drop_last() =~= delivered@.take(i as int));
            }
            if delivered[i] {
                out.push(self.sinks[i]);
            }
            i = i + 1;
        }
        proof {
            assert(s.take(s.len() as int) =~= s);
            assert(delivered@.take(s.len() as int) =~= delivered@);
            lemma_kept_members(s, delivered@);
            lemma_kept_no_duplicates(s, delivered@);
        }
        self.sinks = out;
    }
}

/// A sink stays after a broadcast exactly when it was a target and its
/// write was delivered.
pub proof fn lemma_kept_members(s: Seq<SinkId>, delivered: Seq<bool>)
    requires
        s.len() == delivered.len(),
    ensures
        forall|x: SinkId|
            kept(s, delivered).contains(x) <==> exists|i: int|
                0 <= i < s.len() && s[i] == x && delivered[i],
    decreases s.len(),
{
    if s.len() > 0 {
        let (s0, d0) = (s.drop_last(), delivered.drop_last());
        lemma_kept_members(s0, d0);
        let n = s.len() - 1;
        assert forall|x: SinkId|
            kept(s, delivered).contains(x) <==> exists|i: int|
                0 <= i < s.len() && s[i] == x && delivered[i] by {
            if kept(s, delivered).contains(x) {
                if kept(s0, d0).contains(x) {
                    let i = choose|i: int| 0 <= i < s0.len() && s0[i] == x && d0[i];
                    assert(0 <= i < s.len() && s[i] == x && delivered[i]);
                } else {
                    let k = choose|k: int| 0 <= k < kept(s, delivered).len() &&
                        kept(s, delivered)[k] == x;
                    assert(k == kept(s0, d0).len());
                    assert(0 <= n < s.len() && s[n] == x && delivered[n]);
                }
            }
            if exists|i: int| 0 <= i < s.len() && s[i] == x && delivered[i] {
                let i = choose|i: int| 0 <= i < s.len() && s[i] == x && delivered[i];
                if i < n {
                    assert(0 <= i < s0.len() && s0[i] == x && d0[i]);
                    assert(kept(s0, d0).contains(x));
                    let k = choose|k: int| 0 <= k < kept(s0, d0).len() && kept(s0, d0)[k] == x;
                    if delivered.last() {
                        assert(kept(s, delivered) == kept(s0, d0).push(s.last()));
                        assert(kept(s, delivered)[k] == x);
                    }
                } else {
                    assert(kept(s, delivered).last() == x);
                    assert(kept(s, delivered)[kept(s, delivered).len() - 1] == x);
                }
            }
        }
    }
}

/// Eviction never registers a sink twice.
pub proof fn lemma_kept_no_duplicates(s: Seq<SinkId>, delivered: Seq<bool>)
    requires
        s.len() == delivered.len(),
        s.no_duplicates(),
    ensures
        kept(s, delivered).no_duplicates(),
    decreases s.len(),
{
    if s.len() > 0 {
        let (s0, d0) = (s.drop_last(), delivered.drop_last());
        assert(s0.no_duplicates());
        lemma_kept_no_duplicates(s0, d0);
        if delivered.last() {
            lemma_kept_members(s0, d0);
            assert(!kept(s0, d0).contains(s.last()));
        }
    }
}

/// A broadcast to `n` sinks in which exactly the write to sink `k` fails
/// leaves `n - 1` sinks: every other one stays and sink `k` is gone.
pub proof fn lemma_one_failed_write_evicts_one(s: Seq<SinkId>, delivered: Seq<bool>, k: int)
    requires
        s.no_duplicates(),
        s.len() == delivered.len(),
        0 <= k < s.len(),
        !delivered[k],
        forall|i: int| 0 <= i < s.len() && i != k ==> delivered[i],
    ensures
        kept(s, delivered).len() == s.len() - 1,
        !kept(s, delivered).contains(s[k]),
        forall|i: int| 0 <= i < s.len() && i != k ==> kept(s, delivered).contains(s[i]),
    decreases s.len(),
{
    lemma_kept_members(s, delivered);
    lemma_kept_len_one_fails(s, delivered, k);
    assert forall|i: int| 0 <= i < s.len() && i != k implies kept(s, delivered).contains(
        s[i],
    ) by {
        assert(s[i] == s[i] && delivered[i]);
    }
}

proof fn lemma_kept_all_delivered(s: Seq<SinkId>, delivered: Seq<bool>)
    requires
        s.len() == delivered.len(),
        forall|i: int| 0 <= i < s.len() ==> delivered[i],
    ensures
        kept(s, delivered) == s,
    decreases s.len(),
{
    if s.len() > 0 {
        lemma_kept_all_delivered(s.drop_last(), delivered.drop_last());
        assert(s.drop_last().push(s.last()) =~= s);
    }
}

proof fn lemma_kept_len_one_fails(s: Seq<SinkId>, delivered: Seq<bool>, k: int)
    requires
        s.len() == delivered.len(),
        0 <= k < s.len(),
        !delivered[k],
        forall|i: int| 0 <= i < s.len() && i != k ==> delivered[i],
    ensures
        kept(s, delivered).len() == s.len() - 1,
    decreases s.len(),
{
    let (s0, d0) = (s.drop_last(), delivered.drop_last());
    if k == s.len() - 1 {
        lemma_kept_all_delivered(s0, d0);
    } else {
        lemma_kept_len_one_fails(s0, d0, k);
    }
}

} // verus!
