//! A set of unsigned integers, and its members in ascending order.

use std::collections::HashSet;
use vstd::prelude::*;
use vstd::std_specs::iter::IteratorSpec;

verus! {

/// Whether `s` lists its members in strictly ascending order.
pub open spec fn ascending(s: Seq<u64>) -> bool {
    forall|i: int, j: int| 0 <= i < j < s.len() ==> s[i] < s[j]
}

/// The members of a finite set in ascending order.
pub open spec fn sorted(s: Set<u64>) -> Seq<u64> {
    choose|l: Seq<u64>| ascending(l) && l.to_set() == s
}

/// An ascending sequence holds no number twice, so it is as long as the set
/// of its members is large.
pub proof fn lemma_ascending_len(s: Seq<u64>)
    requires
        ascending(s),
    ensures
        s.no_duplicates(),
        s.to_set().finite(),
        s.to_set().len() == s.len(),
{
    vstd::seq_lib::seq_to_set_is_finite(s);
    s.unique_seq_to_set();
}

/// Two ascending sequences with the same members are the same sequence: a set
/// has exactly one ascending listing.
pub proof fn lemma_ascending_unique(a: Seq<u64>, b: Seq<u64>)
    requires
        ascending(a),
        ascending(b),
        a.to_set() == b.to_set(),
    ensures
        a == b,
    decreases a.len(),
{
    if a.len() == 0 {
        if b.len() > 0 {
            assert(b.contains(b[0]));
            assert(b.to_set().contains(b[0]));
            assert(a.contains(b[0]));
        }
        assert(a =~= b);
    } else {
        assert(a.contains(a.last()));
        assert(a.to_set().contains(a.last()));
        assert(b.contains(a.last()));
        assert(b.len() > 0);
        assert(b.contains(b.last()));
        assert(b.to_set().contains(b.last()));
        assert(a.contains(b.last()));
        assert(a.last() == b.last());
        assert forall|x: u64| a.drop_last().to_set().contains(x) == b.drop_last().to_set().contains(
            x,
        ) by {
            lemma_drop_last_members(a, x);
            lemma_drop_last_members(b, x);
            assert(a.to_set().contains(x) == b.to_set().contains(x));
            assert(a.to_set().contains(x) == a.contains(x));
            assert(b.to_set().contains(x) == b.contains(x));
            assert(a.drop_last().to_set().contains(x) == a.drop_last().contains(x));
            assert(b.drop_last().to_set().contains(x) == b.drop_last().contains(x));
        }
        assert(a.drop_last().to_set() =~= b.drop_last().to_set());
        lemma_ascending_unique(a.drop_last(), b.drop_last());
        assert(a =~= a.drop_last().push(a.last()));
        assert(b =~= b.drop_last().push(b.last()));
    }
}

/// The ascending listing of the members of an ascending sequence is that
/// sequence.
pub proof fn lemma_sorted(l: Seq<u64>)
    requires
        ascending(l),
    ensures
        sorted(l.to_set()) == l,
{
    let found = sorted(l.to_set());
    assert(ascending(l) && l.to_set() == l.to_set());
    lemma_ascending_unique(found, l);
}

/// A finite set that is not empty has a largest member.
proof fn lemma_largest(s: Set<u64>) -> (m: u64)
    requires
        s.finite(),
        !s.is_empty(),
    ensures
        s.contains(m),
        forall|x: u64| s.contains(x) ==> x <= m,
    decreases s.len(),
{
    let e = s.choose();
    let rest = s.remove(e);
    if rest.is_empty() {
        assert forall|x: u64| s.contains(x) implies x <= e by {
            if x != e {
                assert(rest.contains(x));
            }
        }
        e
    } else {
        let m = lemma_largest(rest);
        let larger = if e > m { e } else { m };
        assert forall|x: u64| s.contains(x) implies x <= larger by {
            if x != e {
                assert(rest.contains(x));
            }
        }
        larger
    }
}

/// Every finite set has an ascending listing, which holds the members of the
/// set and nothing else, and is as long as the set is large.
pub proof fn lemma_sorted_members(s: Set<u64>)
    requires
        s.finite(),
    ensures
        ascending(sorted(s)),
        sorted(s).to_set() == s,
        sorted(s).len() == s.len(),
    decreases s.len(),
{
    if s.is_empty() {
        let l = Seq::<u64>::empty();
        assert(l.to_set() =~= s);
        lemma_sorted(l);
    } else {
        let m = lemma_largest(s);
        let rest = s.remove(m);
        lemma_sorted_members(rest);
        let l = sorted(rest).push(m);
        assert forall|i: int, j: int| 0 <= i < j < l.len() implies l[i] < l[j] by {
            if j == l.len() - 1 {
                assert(sorted(rest).contains(l[i]));
                assert(rest.contains(l[i]));
            }
        }
        sorted(rest).lemma_push_to_set_commute(m);
        assert(l.to_set() =~= s);
        lemma_sorted(l);
    }
    lemma_ascending_len(sorted(s));
}

/// Without its last member, an ascending sequence holds what it held before
/// except that member.
proof fn lemma_drop_last_members(s: Seq<u64>, x: u64)
    requires
        ascending(s),
        s.len() > 0,
    ensures
        s.drop_last().contains(x) <==> s.contains(x) && x != s.last(),
{
    if s.drop_last().contains(x) {
        let i = choose|i: int| 0 <= i < s.drop_last().len() && s.drop_last()[i] == x;
        assert(s[i] == x);
    }
    if s.contains(x) && x != s.last() {
        let i = choose|i: int| 0 <= i < s.len() && s[i] == x;
        assert(s.drop_last()[i] == x);
    }
}

/// Taking the member at position `k` out of an ascending sequence leaves the
/// ascending listing of the other members.
pub proof fn lemma_remove_members(s: Seq<u64>, k: int)
    requires
        ascending(s),
        0 <= k < s.len(),
    ensures
        ascending(s.remove(k)),
        s.remove(k).to_set() == s.to_set().remove(s[k]),
        s.remove(k) == sorted(s.to_set().remove(s[k])),
{
    let r = s.remove(k);
    assert forall|a: int, b: int| 0 <= a < b < r.len() implies r[a] < r[b] by {
        let a0 = if a < k { a } else { a + 1 };
        let b0 = if b < k { b } else { b + 1 };
        assert(r[a] == s[a0] && r[b] == s[b0]);
    }
    assert forall|x: u64| r.to_set().contains(x) == s.to_set().remove(s[k]).contains(x) by {
        if r.contains(x) {
            let j = choose|j: int| 0 <= j < r.len() && r[j] == x;
            let j0 = if j < k { j } else { j + 1 };
            assert(s[j0] == x);
        }
        if s.contains(x) && x != s[k] {
            let j = choose|j: int| 0 <= j < s.len() && s[j] == x;
            let j0 = if j < k { j } else { j - 1 };
            assert(r[j0] == x);
        }
    }
    assert(r.to_set() =~= s.to_set().remove(s[k]));
    lemma_sorted(r);
}

/// Puts `e` into the ascending vector `v` at its place.
fn insert_ascending(v: &mut Vec<u64>, e: u64)
    requires
        ascending(old(v)@),
        !old(v)@.contains(e),
    ensures
        ascending(final(v)@),
        final(v)@.to_set() == old(v)@.to_set().insert(e),
{
    let mut i: usize = 0;
    while i < v.len() && v[i] < e
        invariant
            v@ == old(v)@,
            i <= v@.len(),
            forall|j: int| 0 <= j < i ==> v@[j] < e,
        decreases v@.len() - i,
    {
        i += 1;
    }
    assert(i < v@.len() ==> v@[i as int] > e) by {
        if i < v@.len() {
            assert(v@.contains(v@[i as int]));
        }
    }
    v.insert(i, e);
    proof {
        let before = old(v)@;
        let after = v@;
        assert forall|a: int, b: int| 0 <= a < b < after.len() implies after[a] < after[b] by {
            if b < i {
                assert(after[a] == before[a] && after[b] == before[b]);
            } else if b == i {
                assert(after[a] == before[a]);
            } else if a < i {
                assert(after[a] == before[a] && after[b] == before[b - 1]);
            } else if a == i {
                assert(after[b] == before[b - 1]);
            } else {
                assert(after[a] == before[a - 1] && after[b] == before[b - 1]);
            }
        }
        assert forall|x: u64| after.to_set().contains(x) == before.to_set().insert(e).contains(
            x,
        ) by {
            if after.contains(x) {
                let k = choose|k: int| 0 <= k < after.len() && after[k] == x;
                if k < i {
                    assert(before[k] == x);
                } else if k > i {
                    assert(before[k - 1] == x);
                }
            }
            if before.contains(x) {
                let k = choose|k: int| 0 <= k < before.len() && before[k] == x;
                if k < i {
                    assert(after[k] == x);
                } else {
                    assert(after[k + 1] == x);
                }
            }
            if x == e {
                assert(after[i as int] == x);
            }
        }
        assert(after.to_set() =~= before.to_set().insert(e));
    }
}

/// Thin wrapper around a set of numbers, primarily for listing them in
/// ascending order.
#[derive(Debug, PartialEq, Eq)]
pub struct Numbers {
    set: HashSet<u64>,
}

impl View for Numbers {
    type V = Set<u64>;

    closed spec fn view(&self) -> Set<u64> {
        self.set@
    }
}

impl Clone for Numbers {
    fn clone(&self) -> (r: Self)
        ensures
            r@ == self@,
    {
        let mut set: HashSet<u64> = HashSet::new();
        for x in it: self.set.iter()
            invariant
                it.seq().unref().to_set() == self.set@,
                set@ == it.seq().unref().take(it.index()).to_set(),
        {
            proof {
                let all = it.seq().unref();
                assert(all.take(it.index() + 1) =~= all.take(it.index()).push(*x));
                all.take(it.index()).lemma_push_to_set_commute(*x);
            }
            set.insert(*x);
        }
        proof {
            let all = self.set.iter().remaining().unref();
            assert(all.take(all.len() as int) =~= all);
        }
        Numbers { set }
    }
}

impl Numbers {
    /// There are finitely many numbers.
    pub proof fn lemma_finite(&self)
        ensures
            self@.finite(),
    {
        vstd::std_specs::hash::axiom_spec_hash_keys_iter(&self.set);
        vstd::seq_lib::seq_to_set_is_finite(self.set.iter().remaining().unref());
    }

    /// Create a new empty set of numbers.
    pub fn new() -> (r: Numbers)
        ensures
            r@ == Set::<u64>::empty(),
    {
        Numbers { set: HashSet::new() }
    }

    /// Insert a number into the current numbers. The number must not be
    /// among them already.
    pub fn insert(&mut self, e: u64)
        requires
            !old(self)@.contains(e),
        ensures
            final(self)@ == old(self)@.insert(e),
    {
        let fresh = self.set.insert(e);
        assert(fresh);
    }

    /// Remove a number from the current numbers, and say whether it was
    /// among them.
    pub fn remove(&mut self, e: u64) -> (b: bool)
        ensures
            b == old(self)@.contains(e),
            final(self)@ == old(self)@.remove(e),
    {
        self.set.remove(&e)
    }

    /// Is `e` one of the numbers?
    pub fn contains(&self, e: u64) -> (b: bool)
        ensures
            b == self@.contains(e),
    {
        self.set.contains(&e)
    }

    /// Are there no numbers?
    pub fn is_empty(&self) -> (b: bool)
        ensures
            b == self@.is_empty(),
    {
        self.set.is_empty()
    }

    /// How many numbers there are.
    pub fn len(&self) -> (n: usize)
        ensures
            n == self@.len(),
    {
        self.set.len()
    }

    /// The numbers, smallest first.
    pub fn to_vec(&self) -> (v: Vec<u64>)
        ensures
            v@ == sorted(self@),
            ascending(v@),
            v@.to_set() == self@,
            v@.len() == self@.len(),
    {
        let mut v: Vec<u64> = Vec::new();
        for x in it: self.set.iter()
            invariant
                it.seq().unref().to_set() == self.set@,
                it.seq().no_duplicates(),
                ascending(v@),
                v@.to_set() == it.seq().unref().take(it.index()).to_set(),
        {
            proof {
                let all = it.seq().unref();
                let k = it.index();
                if v@.contains(*x) {
                    assert(v@.to_set().contains(*x));
                    assert(all.take(k).contains(*x));
                    let j = choose|j: int| 0 <= j < all.take(k).len() && all.take(k)[j] == *x;
                    assert(all[j] == *x);
                    assert(it.seq()[j] == it.seq()[k]);
                }
                assert(all.take(k + 1) =~= all.take(k).push(*x));
                all.take(k).lemma_push_to_set_commute(*x);
            }
            insert_ascending(&mut v, *x);
        }
        proof {
            let all = self.set.iter().remaining().unref();
            assert(all.take(all.len() as int) =~= all);
            lemma_sorted(v@);
            lemma_ascending_len(v@);
        }
        v
    }

    /// A copy of the set without the number `e`.
    pub fn without(&self, e: u64) -> (r: Numbers)
        ensures
            r@ == self@.remove(e),
    {
        let mut rest = self.clone();
        rest.remove(e);
        rest
    }
}

} // verus!
