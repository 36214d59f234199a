//! Winning: three of a player's numbers sum to 15.

use crate::numbers::{
    ascending, lemma_ascending_len, lemma_ascending_unique, lemma_sorted, lemma_sorted_members,
    sorted, Numbers,
};
use crate::selection::{
    is_selection, lemma_selections_complete, lemma_selections_sound, selections, set_views,
};
use vstd::prelude::*;

verus! {

/// The set of three numbers `a`, `b` and `c`.
pub open spec fn triple(a: u64, b: u64, c: u64) -> Set<u64> {
    set![a, b, c]
}

/// Whether `t` consists of three different numbers whose sum is 15.
pub open spec fn is_winning(t: Set<u64>) -> bool {
    exists|a: u64, b: u64, c: u64| a < b < c && a + b + c == 15 && t == #[trigger] triple(a, b, c)
}

/// Whether three different numbers of `s` sum to 15.
pub open spec fn has_win(s: Set<u64>) -> bool {
    exists|a: u64, b: u64, c: u64|
        a < b < c && a + b + c == 15 && #[trigger] triple(a, b, c).subset_of(s)
}

/// The first winning set of a list, if it has one.
pub open spec fn first_winning(sel: Seq<Set<u64>>) -> Option<Set<u64>>
    decreases sel.len(),
{
    if sel.len() == 0 {
        None
    } else if is_winning(sel[0]) {
        Some(sel[0])
    } else {
        first_winning(sel.drop_first())
    }
}

/// The winning set that is reported for a player who holds `held`: the first
/// one among the ways of choosing three of the numbers held.
pub open spec fn winning_triple(held: Set<u64>) -> Option<Set<u64>> {
    first_winning(selections(sorted(held), 3))
}

/// The set that an optional `Numbers` stands for.
pub open spec fn option_view(w: Option<Numbers>) -> Option<Set<u64>> {
    match w {
        Some(w) => Some(w@),
        None => None,
    }
}

/// The digits of the game, 1 to 9.
pub open spec fn digits() -> Set<u64> {
    Set::new(|d: u64| 1 <= d <= 9)
}

/// The eight lines of the magic square of order 3.
pub open spec fn magic_lines() -> Seq<Set<u64>> {
    seq![
        triple(1, 5, 9),
        triple(1, 6, 8),
        triple(2, 4, 9),
        triple(2, 5, 8),
        triple(2, 6, 7),
        triple(3, 4, 8),
        triple(3, 5, 7),
        triple(4, 5, 6),
    ]
}

/// Among the digits 1 to 9 the winning sets are the eight lines of the magic
/// square, and nothing else.
pub proof fn lemma_winning_sets_are_magic_lines(t: Set<u64>)
    requires
        t.subset_of(digits()),
    ensures
        is_winning(t) <==> magic_lines().contains(t),
{
    let lines = magic_lines();
    if is_winning(t) {
        let (a, b, c) = choose|a: u64, b: u64, c: u64|
            a < b < c && a + b + c == 15 && t == #[trigger] triple(a, b, c);
        assert(t.contains(a) && t.contains(b) && t.contains(c));
        assert(digits().contains(a) && digits().contains(b) && digits().contains(c));
        if a == 1 && b == 5 {
            assert(lines[0] == t);
        } else if a == 1 {
            assert(lines[1] == t);
        } else if a == 2 && b == 4 {
            assert(lines[2] == t);
        } else if a == 2 && b == 5 {
            assert(lines[3] == t);
        } else if a == 2 {
            assert(lines[4] == t);
        } else if a == 3 && b == 4 {
            assert(lines[5] == t);
        } else if a == 3 {
            assert(lines[6] == t);
        } else {
            assert(lines[7] == t);
        }
    }
    if lines.contains(t) {
        let i = choose|i: int| 0 <= i < lines.len() && lines[i] == t;
        if i == 0 {
            assert(t == triple(1, 5, 9));
        } else if i == 1 {
            assert(t == triple(1, 6, 8));
        } else if i == 2 {
            assert(t == triple(2, 4, 9));
        } else if i == 3 {
            assert(t == triple(2, 5, 8));
        } else if i == 4 {
            assert(t == triple(2, 6, 7));
        } else if i == 5 {
            assert(t == triple(3, 4, 8));
        } else if i == 6 {
            assert(t == triple(3, 5, 7));
        } else {
            assert(t == triple(4, 5, 6));
        }
    }
}

/// The digits in ascending order. There are nine of them.
pub proof fn lemma_sorted_digits()
    ensures
        sorted(digits()) == seq![1u64, 2, 3, 4, 5, 6, 7, 8, 9],
        digits().finite(),
        digits().len() == 9,
{
    let l = seq![1u64, 2, 3, 4, 5, 6, 7, 8, 9];
    assert(ascending(l));
    assert forall|d: u64| l.to_set().contains(d) == digits().contains(d) by {
        if digits().contains(d) {
            assert(l[d - 1] == d);
        }
    }
    assert(l.to_set() =~= digits());
    lemma_sorted(l);
    lemma_ascending_len(l);
}

/// The winning ways of choosing three of the digits 1 to 9 are the eight
/// lines of the magic square, and nothing else.
pub proof fn lemma_winning_selections_of_digits(t: Set<u64>)
    ensures
        selections(sorted(digits()), 3).contains(t) && is_winning(t) <==> magic_lines().contains(t),
{
    let l = sorted(digits());
    let all = selections(l, 3);
    lemma_sorted_digits();
    assert(l.to_set() =~= digits()) by {
        assert forall|d: u64| l.to_set().contains(d) == digits().contains(d) by {
            if digits().contains(d) {
                assert(l[d - 1] == d);
            }
        }
    }
    if all.contains(t) && is_winning(t) {
        let i = choose|i: int| 0 <= i < all.len() && all[i] == t;
        lemma_selections_sound(l, 3, i);
        lemma_winning_sets_are_magic_lines(t);
    }
    if magic_lines().contains(t) {
        let lines = magic_lines();
        let i = choose|i: int| 0 <= i < lines.len() && lines[i] == t;
        assert(t.subset_of(digits()) && t.finite() && t.len() == 3) by {
            if i == 0 {
                assert(t == triple(1, 5, 9));
            } else if i == 1 {
                assert(t == triple(1, 6, 8));
            } else if i == 2 {
                assert(t == triple(2, 4, 9));
            } else if i == 3 {
                assert(t == triple(2, 5, 8));
            } else if i == 4 {
                assert(t == triple(2, 6, 7));
            } else if i == 5 {
                assert(t == triple(3, 4, 8));
            } else if i == 6 {
                assert(t == triple(3, 5, 7));
            } else {
                assert(t == triple(4, 5, 6));
            }
        }
        lemma_winning_sets_are_magic_lines(t);
        lemma_selections_complete(l, 3, t);
    }
}

/// Who holds no number has not won.
pub proof fn lemma_no_win_without_numbers()
    ensures
        !has_win(Set::<u64>::empty()),
{
    if has_win(Set::<u64>::empty()) {
        let (a, b, c) = choose|a: u64, b: u64, c: u64|
            a < b < c && a + b + c == 15 && #[trigger] triple(a, b, c).subset_of(
                Set::<u64>::empty(),
            );
        assert(triple(a, b, c).contains(a));
    }
}

/// A list has a first winning set exactly if it has a winning set, and the
/// first one is a member of the list.
pub proof fn lemma_first_winning(sel: Seq<Set<u64>>)
    ensures
        first_winning(sel) is Some <==> exists|i: int|
            0 <= i < sel.len() && is_winning(#[trigger] sel[i]),
        first_winning(sel) matches Some(w) ==> is_winning(w) && sel.contains(w),
    decreases sel.len(),
{
    if sel.len() > 0 {
        let tail = sel.drop_first();
        lemma_first_winning(tail);
        if is_winning(sel[0]) {
        } else {
            if first_winning(tail) is Some {
                let i = choose|i: int| 0 <= i < tail.len() && is_winning(#[trigger] tail[i]);
                assert(is_winning(sel[i + 1]));
                let w = first_winning(tail)->0;
                let j = choose|j: int| 0 <= j < tail.len() && tail[j] == w;
                assert(sel[j + 1] == w);
            }
            if exists|i: int| 0 <= i < sel.len() && is_winning(#[trigger] sel[i]) {
                let i = choose|i: int| 0 <= i < sel.len() && is_winning(#[trigger] sel[i]);
                assert(is_winning(tail[i - 1]));
            }
        }
    }
}

/// A set of numbers holds a win exactly if one of the ways of choosing three
/// of its numbers is a winning set.
pub proof fn lemma_win_iff_selection_wins(s: Seq<u64>)
    requires
        ascending(s),
    ensures
        has_win(s.to_set()) <==> first_winning(selections(s, 3)) is Some,
{
    let sel = selections(s, 3);
    lemma_first_winning(sel);
    if has_win(s.to_set()) {
        let (a, b, c) = choose|a: u64, b: u64, c: u64|
            a < b < c && a + b + c == 15 && #[trigger] triple(a, b, c).subset_of(s.to_set());
        let t = triple(a, b, c);
        assert(is_selection(s, 3, t));
        lemma_selections_complete(s, 3, t);
        let i = choose|i: int| 0 <= i < sel.len() && sel[i] == t;
        assert(is_winning(sel[i]));
    }
    if first_winning(sel) is Some {
        let i = choose|i: int| 0 <= i < sel.len() && is_winning(#[trigger] sel[i]);
        lemma_selections_sound(s, 3, i);
        let (a, b, c) = choose|a: u64, b: u64, c: u64|
            a < b < c && a + b + c == 15 && sel[i] == #[trigger] triple(a, b, c);
        assert(triple(a, b, c).subset_of(s.to_set()));
    }
}

impl Numbers {
    /// Do the three numbers held sum to 15?
    fn is_winning_triple(&self) -> (b: bool)
        requires
            self@.len() == 3,
        ensures
            b == is_winning(self@),
    {
        let members = self.to_vec();
        let x = members[0];
        let y = members[1];
        let z = members[2];
        proof {
            let s = members@;
            assert(s =~= seq![x, y, z]);
            assert(s.to_set() =~= triple(x, y, z)) by {
                assert forall|e: u64| s.to_set().contains(e) == triple(x, y, z).contains(e) by {
                    if s.contains(e) {
                        let i = choose|i: int| 0 <= i < s.len() && s[i] == e;
                    }
                    assert(s[0] == x && s[1] == y && s[2] == z);
                }
            }
            if is_winning(self@) {
                let (a, b, c) = choose|a: u64, b: u64, c: u64|
                    a < b < c && a + b + c == 15 && self@ == #[trigger] triple(a, b, c);
                let t = seq![a, b, c];
                assert(t.to_set() =~= triple(a, b, c)) by {
                    assert forall|e: u64| t.to_set().contains(e) == triple(a, b, c).contains(e) by {
                        if t.contains(e) {
                            let i = choose|i: int| 0 <= i < t.len() && t[i] == e;
                        }
                        assert(t[0] == a && t[1] == b && t[2] == c);
                    }
                }
                lemma_ascending_unique(t, s);
                assert(t[0] == x && t[1] == y && t[2] == z);
            }
        }
        z <= 15 && x + y + z == 15
    }

    /// Do the current numbers contain a win? If so, the first way of
    /// choosing three of them that sums to 15 is returned.
    pub fn won(&self) -> (r: Option<Numbers>)
        ensures
            option_view(r) == winning_triple(self@),
            r is Some <==> has_win(self@),
    {
        let mut all = self.choose_n(3);
        let ghost sel = selections(sorted(self@), 3);
        let mut i: usize = 0;
        proof {
            self.lemma_finite();
            lemma_sorted_members(self@);
            lemma_win_iff_selection_wins(sorted(self@));
            assert(sel.skip(0) =~= sel);
        }
        while i < all.len()
            invariant
                ascending(sorted(self@)),
                sel == selections(sorted(self@), 3),
                set_views(all@) == sel,
                i <= all@.len(),
                first_winning(sel) == first_winning(sel.skip(i as int)),
                has_win(self@) <==> first_winning(sel) is Some,
            decreases all@.len() - i,
        {
            proof {
                lemma_selections_sound(sorted(self@), 3, i as int);
                assert(sel[i as int] == all@[i as int]@);
                assert(sel.skip(i as int)[0] == sel[i as int]);
                assert(sel.skip(i as int).drop_first() =~= sel.skip(i + 1));
            }
            if all[i].is_winning_triple() {
                return Some(all.swap_remove(i));
            }
            i += 1;
        }
        None
    }
}

} // verus!
