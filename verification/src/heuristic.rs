//! Move selection for the automated player.
//!
//! The centre of the magic square, 5, is taken whenever it is available.
//! Otherwise the choice falls on one of the corners 2, 4, 6 and 8 that are
//! available, and where none is, on any available number.

use crate::numbers::{lemma_sorted_members, sorted, Numbers};
use crate::random::random_usize;
use vstd::prelude::*;

verus! {

/// Whether `c` is a corner of the magic square.
pub open spec fn is_corner(c: u64) -> bool {
    c == 2 || c == 4 || c == 6 || c == 8
}

/// `c` alone if it is available, nothing otherwise.
pub open spec fn if_available(avail: Set<u64>, c: u64) -> Seq<u64> {
    if avail.contains(c) {
        seq![c]
    } else {
        Seq::empty()
    }
}

/// The corners that are available, in ascending order.
pub open spec fn available_corners(avail: Set<u64>) -> Seq<u64> {
    if_available(avail, 2) + if_available(avail, 4) + if_available(avail, 6) + if_available(
        avail,
        8,
    )
}

/// The numbers among which the automated player picks when the numbers of
/// `avail` are available, in ascending order.
pub open spec fn candidates(avail: Set<u64>) -> Seq<u64> {
    if avail.contains(5) {
        seq![5u64]
    } else if available_corners(avail).len() > 0 {
        available_corners(avail)
    } else {
        sorted(avail)
    }
}

/// The pick that the draw `r` stands for.
pub open spec fn pick(avail: Set<u64>, r: usize) -> u64 {
    candidates(avail)[r as int % candidates(avail).len() as int]
}

/// Every candidate is available. With 5 available it is the only candidate;
/// without it, and with a corner available, every candidate is a corner.
pub proof fn lemma_candidates(avail: Set<u64>, c: u64)
    requires
        avail.finite(),
        candidates(avail).contains(c),
    ensures
        avail.contains(c),
        avail.contains(5) ==> c == 5,
        !avail.contains(5) && (exists|k: u64| is_corner(k) && avail.contains(k)) ==> is_corner(c),
{
    let found = candidates(avail);
    let i = choose|i: int| 0 <= i < found.len() && found[i] == c;
    lemma_sorted_members(avail);
    if avail.contains(5) {
    } else {
        let corners = available_corners(avail);
        if exists|k: u64| is_corner(k) && avail.contains(k) {
            let k = choose|k: u64| is_corner(k) && avail.contains(k);
            assert(if_available(avail, k).len() == 1);
            assert(corners.len() > 0);
        }
        if corners.len() > 0 {
            lemma_corner_members(avail, c);
        } else {
            assert(sorted(avail).to_set().contains(c));
        }
    }
}

/// Where a number is available there is a candidate.
pub proof fn lemma_candidates_exist(avail: Set<u64>)
    requires
        avail.finite(),
        !avail.is_empty(),
    ensures
        candidates(avail).len() > 0,
{
    lemma_sorted_members(avail);
}

/// The available corners are the corners that are available.
proof fn lemma_corner_members(avail: Set<u64>, c: u64)
    ensures
        available_corners(avail).contains(c) <==> is_corner(c) && avail.contains(c),
{
    let a = if_available(avail, 2);
    let b = if_available(avail, 4);
    let d = if_available(avail, 6);
    let e = if_available(avail, 8);
    let all = available_corners(avail);
    if all.contains(c) {
        let i = choose|i: int| 0 <= i < all.len() && all[i] == c;
        if i < a.len() {
            assert(a[i] == c);
        } else if i < a.len() + b.len() {
            assert(b[i - a.len()] == c);
        } else if i < a.len() + b.len() + d.len() {
            assert(d[i - a.len() - b.len()] == c);
        } else {
            assert(e[i - a.len() - b.len() - d.len()] == c);
        }
    }
    if is_corner(c) && avail.contains(c) {
        if c == 2 {
            assert(all[0] == c);
        } else if c == 4 {
            assert(all[a.len() as int] == c);
        } else if c == 6 {
            assert(all[(a.len() + b.len()) as int] == c);
        } else {
            assert(all[(a.len() + b.len() + d.len()) as int] == c);
        }
    }
}

impl Numbers {
    /// Adds `c` to `found` if it is one of the numbers.
    fn collect_if_available(&self, c: u64, found: &mut Vec<u64>)
        ensures
            final(found)@ == old(found)@ + if_available(self@, c),
    {
        if self.contains(c) {
            found.push(c);
            assert(old(found)@.push(c) =~= old(found)@ + seq![c]);
        } else {
            assert(old(found)@ =~= old(found)@ + Seq::<u64>::empty());
        }
    }

    /// The number that the heuristic selects when the random draw is `r`.
    /// There must be a number to select.
    pub fn heuristic_pick(&self, r: usize) -> (c: u64)
        requires
            !self@.is_empty(),
        ensures
            c == pick(self@, r),
            self@.contains(c),
    {
        proof {
            self.lemma_finite();
            lemma_candidates_exist(self@);
            let found = candidates(self@);
            lemma_candidates(self@, found[r as int % found.len() as int]);
        }
        if self.contains(5) {
            return 5;
        }
        let mut choices: Vec<u64> = Vec::new();
        self.collect_if_available(2, &mut choices);
        self.collect_if_available(4, &mut choices);
        self.collect_if_available(6, &mut choices);
        self.collect_if_available(8, &mut choices);
        assert(choices@ =~= available_corners(self@));
        if choices.len() == 0 {
            choices = self.to_vec();
        }
        choices[r % choices.len()]
    }

    /// Use a randomized heuristic to select a next number. There must be a
    /// number to select.
    pub fn heuristic_choice(&self) -> (c: u64)
        requires
            !self@.is_empty(),
        ensures
            candidates(self@).contains(c),
            self@.contains(c),
            self@.contains(5) ==> c == 5,
            !self@.contains(5) && (exists|k: u64| is_corner(k) && self@.contains(k)) ==> is_corner(
                c,
            ),
    {
        let r = random_usize();
        let c = self.heuristic_pick(r);
        proof {
            self.lemma_finite();
            lemma_candidates_exist(self@);
            let found = candidates(self@);
            assert(found[r as int % found.len() as int] == c);
            lemma_candidates(self@, c);
        }
        c
    }
}

} // verus!
