//! Every way of choosing `n` numbers out of a set.
//!
//! The enumeration sets each number aside in turn, smallest first. With a
//! number set aside it lists the selections among the other numbers, then
//! those that hold it. Every number gets its turn, so a selection can be
//! listed more than once, and selecting nothing yields no selection at all.

use crate::numbers::{ascending, lemma_ascending_len, lemma_remove_members, sorted, Numbers};
use vstd::prelude::*;

verus! {

/// The ways of choosing `n` of the numbers listed in `s`, in the order in
/// which they are enumerated.
pub open spec fn selections(s: Seq<u64>, n: nat) -> Seq<Set<u64>>
    decreases s.len(), s.len() + 1,
{
    if n == 0 || s.len() < n {
        Seq::empty()
    } else if s.len() == n {
        seq![s.to_set()]
    } else {
        selections_upto(s, n, s.len())
    }
}

/// The selections listed while the first `k` numbers of `s` are set aside
/// one after the other.
pub open spec fn selections_upto(s: Seq<u64>, n: nat, k: nat) -> Seq<Set<u64>>
    decreases s.len(), k,
{
    if k == 0 || k > s.len() {
        Seq::empty()
    } else {
        selections_upto(s, n, (k - 1) as nat) + selections_setting_aside(s, n, k - 1)
    }
}

/// The selections listed with the number at position `i` of `s` set aside:
/// those among the other numbers, then those that hold it.
pub open spec fn selections_setting_aside(s: Seq<u64>, n: nat, i: int) -> Seq<Set<u64>>
    decreases s.len(), 0nat,
{
    if 0 <= i < s.len() && n >= 1 {
        selections(s.remove(i), n) + selections(s.remove(i), (n - 1) as nat).map_values(
            |w: Set<u64>| w.insert(s[i]),
        )
    } else {
        Seq::empty()
    }
}

/// The sets that a sequence of `Numbers` stands for.
pub open spec fn set_views(v: Seq<Numbers>) -> Seq<Set<u64>> {
    v.map_values(|w: Numbers| w@)
}

/// Whether `t` is a way of choosing `n` of the numbers listed in `s`.
pub open spec fn is_selection(s: Seq<u64>, n: nat, t: Set<u64>) -> bool {
    t.subset_of(s.to_set()) && t.finite() && t.len() == n
}

/// Only selections are listed: each listed set holds exactly `n` numbers,
/// all of them from `s`.
pub proof fn lemma_selections_sound(s: Seq<u64>, n: nat, i: int)
    requires
        ascending(s),
        0 <= i < selections(s, n).len(),
    ensures
        is_selection(s, n, selections(s, n)[i]),
    decreases s.len(), s.len() + 1,
{
    if s.len() == n {
        lemma_ascending_len(s);
    } else {
        lemma_upto_sound(s, n, s.len(), i);
    }
}

/// What is listed while numbers are set aside one after the other is a
/// selection.
proof fn lemma_upto_sound(s: Seq<u64>, n: nat, k: nat, i: int)
    requires
        ascending(s),
        0 <= i < selections_upto(s, n, k).len(),
    ensures
        is_selection(s, n, selections_upto(s, n, k)[i]),
    decreases s.len(), k,
{
    let earlier = selections_upto(s, n, (k - 1) as nat);
    if i < earlier.len() {
        lemma_upto_sound(s, n, (k - 1) as nat, i);
    } else {
        lemma_setting_aside_sound(s, n, k - 1, i - earlier.len());
    }
}

/// What is listed with one number set aside is a selection.
proof fn lemma_setting_aside_sound(s: Seq<u64>, n: nat, at: int, i: int)
    requires
        ascending(s),
        0 <= i < selections_setting_aside(s, n, at).len(),
    ensures
        is_selection(s, n, selections_setting_aside(s, n, at)[i]),
    decreases s.len(), 0nat,
{
    let rest = s.remove(at);
    let without = selections(rest, n);
    lemma_remove_members(s, at);
    lemma_ascending_len(s);
    if i < without.len() {
        lemma_selections_sound(rest, n, i);
        assert(selections_setting_aside(s, n, at)[i] == without[i]);
        assert(without[i].subset_of(s.to_set()));
    } else {
        let j = i - without.len();
        let w = selections(rest, (n - 1) as nat)[j];
        lemma_selections_sound(rest, (n - 1) as nat, j);
        assert(!w.contains(s[at]));
        assert(selections_setting_aside(s, n, at)[i] == w.insert(s[at]));
        assert(s.to_set().contains(s[at]));
        assert(w.insert(s[at]).subset_of(s.to_set()));
        assert(w.insert(s[at]).len() == n);
    }
}

/// No selection of one number or more is left out: whatever holds exactly
/// `n` of the numbers of `s` is listed.
pub proof fn lemma_selections_complete(s: Seq<u64>, n: nat, t: Set<u64>)
    requires
        ascending(s),
        n >= 1,
        is_selection(s, n, t),
    ensures
        selections(s, n).contains(t),
    decreases s.len(),
{
    lemma_ascending_len(s);
    vstd::set_lib::lemma_len_subset(t, s.to_set());
    if s.len() == n {
        vstd::set_lib::lemma_subset_equality(t, s.to_set());
        assert(selections(s, n)[0] == t);
    } else {
        if forall|k: int| 0 <= k < s.len() ==> t.contains(#[trigger] s[k]) {
            assert(s.to_set().subset_of(t));
            vstd::set_lib::lemma_len_subset(s.to_set(), t);
        }
        let at = choose|k: int| 0 <= k < s.len() && !t.contains(#[trigger] s[k]);
        let rest = s.remove(at);
        lemma_remove_members(s, at);
        assert(t.subset_of(rest.to_set()));
        lemma_selections_complete(rest, n, t);
        let j = choose|j: int| 0 <= j < selections(rest, n).len() && selections(rest, n)[j] == t;
        assert(selections_setting_aside(s, n, at)[j] == t);
        lemma_upto_block(s, n, s.len(), at, j);
    }
}

/// What is listed with the number at position `at` set aside stands in the
/// list as a block, after what was listed for the numbers before it.
proof fn lemma_upto_block(s: Seq<u64>, n: nat, k: nat, at: int, j: int)
    requires
        0 <= at < k <= s.len(),
        0 <= j < selections_setting_aside(s, n, at).len(),
    ensures
        selections_upto(s, n, at as nat).len() + j < selections_upto(s, n, k).len(),
        selections_upto(s, n, k)[selections_upto(s, n, at as nat).len() + j]
            == selections_setting_aside(s, n, at)[j],
    decreases k,
{
    if at < k - 1 {
        lemma_upto_block(s, n, (k - 1) as nat, at, j);
    }
}

/// Where no number can be set aside without falling short of `n`, and where
/// one number is chosen out of two, no selection is listed twice.
pub proof fn lemma_selections_distinct(s: Seq<u64>, n: nat)
    requires
        ascending(s),
        n == 0 || s.len() <= n || (s.len() == 2 && n == 1),
    ensures
        selections(s, n).no_duplicates(),
{
    if s.len() == 2 && n == 1 {
        reveal_with_fuel(selections, 2);
        reveal_with_fuel(selections_upto, 3);
        reveal_with_fuel(selections_setting_aside, 2);
        let all = selections(s, n);
        assert(s.remove(0) =~= seq![s[1]]);
        assert(s.remove(1) =~= seq![s[0]]);
        assert(selections(s.remove(0), 0).map_values(|w: Set<u64>| w.insert(s[0])).len() == 0);
        assert(selections(s.remove(1), 0).map_values(|w: Set<u64>| w.insert(s[1])).len() == 0);
        assert(selections_setting_aside(s, 1, 0) =~= seq![seq![s[1]].to_set()]);
        assert(selections_setting_aside(s, 1, 1) =~= seq![seq![s[0]].to_set()]);
        assert(all =~= seq![seq![s[1]].to_set(), seq![s[0]].to_set()]);
        assert(seq![s[1]].to_set().contains(s[1])) by {
            assert(seq![s[1]][0] == s[1]);
        }
        assert(!seq![s[0]].to_set().contains(s[1]));
    }
}

/// In every other case a selection is listed twice: with more numbers than
/// are chosen, and unless one is chosen out of two, the list repeats itself.
pub proof fn lemma_selections_repeat(s: Seq<u64>, n: nat)
    requires
        ascending(s),
        1 <= n < s.len(),
        !(s.len() == 2 && n == 1),
    ensures
        !selections(s, n).no_duplicates(),
{
    let all = selections(s, n);
    let first = selections_setting_aside(s, n, 0);
    let second = selections_setting_aside(s, n, 1);
    let without_first = s.remove(0);
    let without_second = s.remove(1);
    lemma_ascending_len(s);
    lemma_remove_members(s, 0);
    lemma_remove_members(s, 1);
    // A selection `t`, and where it stands in the two blocks.
    let (t, i, j) = if s.len() >= n + 2 {
        let chosen = s.subrange(2, 2 + n as int);
        let t = chosen.to_set();
        lemma_ascending_len(chosen);
        assert forall|e: u64| t.contains(e) implies e != s[0] && e != s[1] && s.to_set().contains(
            e,
        ) by {
            let k = choose|k: int| 0 <= k < chosen.len() && chosen[k] == e;
            assert(s[k + 2] == e);
        }
        assert(is_selection(without_first, n, t));
        assert(is_selection(without_second, n, t));
        lemma_selections_complete(without_first, n, t);
        lemma_selections_complete(without_second, n, t);
        let i = choose|i: int|
            0 <= i < selections(without_first, n).len() && selections(without_first, n)[i] == t;
        let j = choose|j: int|
            0 <= j < selections(without_second, n).len() && selections(without_second, n)[j] == t;
        (t, i, j)
    } else {
        let t = without_second.to_set();
        let rest = t.remove(s[0]);
        lemma_ascending_len(without_second);
        assert(t.contains(s[0]));
        assert(is_selection(without_first, (n - 1) as nat, rest));
        lemma_selections_complete(without_first, (n - 1) as nat, rest);
        let held = selections(without_first, (n - 1) as nat);
        let k = choose|k: int| 0 <= k < held.len() && held[k] == rest;
        assert(rest.insert(s[0]) =~= t);
        assert(selections(without_second, n)[0] == t);
        (t, selections(without_first, n).len() + k, 0int)
    };
    assert(first[i] == t);
    assert(second[j] == t);
    lemma_upto_block(s, n, s.len(), 0, i);
    lemma_upto_block(s, n, s.len(), 1, j);
    assert(selections_upto(s, n, 1) =~= first);
    assert(all[i] == t);
    assert(all[first.len() + j] == t);
}

impl Numbers {
    /// List every way in which `n` numbers can be chosen from the current
    /// numbers.
    pub fn choose_n(&self, n: u64) -> (r: Vec<Numbers>)
        ensures
            set_views(r@) == selections(sorted(self@), n as nat),
        decreases self@.len(),
    {
        let members = self.to_vec();
        let len = members.len();
        if n == 0 || (len as u64) < n {
            return Vec::new();
        }
        if len as u64 == n {
            let mut whole: Vec<Numbers> = Vec::new();
            whole.push(self.clone());
            assert(set_views(whole@) =~= selections(members@, n as nat));
            return whole;
        }
        let mut result: Vec<Numbers> = Vec::new();
        let mut k: usize = 0;
        assert(set_views(result@) =~= selections_upto(members@, n as nat, 0));
        while k < len
            invariant
                members@ == sorted(self@),
                ascending(members@),
                members@.to_set() == self@,
                len == members@.len(),
                len == self@.len(),
                0 < n < len,
                k <= len,
                set_views(result@) == selections_upto(members@, n as nat, k as nat),
            decreases len - k,
        {
            let e = members[k];
            let rest = self.without(e);
            proof {
                self.lemma_finite();
                assert(self@.contains(e)) by {
                    assert(members@.contains(members@[k as int]));
                }
                lemma_remove_members(members@, k as int);
                assert(sorted(rest@) == members@.remove(k as int));
            }
            let mut without = rest.choose_n(n);
            let mut with = rest.choose_n(n - 1);
            let ghost chosen = selections(sorted(rest@), (n - 1) as nat);
            let mut j: usize = 0;
            while j < with.len()
                invariant
                    ascending(sorted(rest@)),
                    sorted(rest@).to_set() == rest@,
                    !rest@.contains(e),
                    chosen == selections(sorted(rest@), (n - 1) as nat),
                    with@.len() == chosen.len(),
                    j <= with@.len(),
                    forall|i: int| 0 <= i < j ==> (#[trigger] with@[i])@ == chosen[i].insert(e),
                    forall|i: int| j <= i < with@.len() ==> (#[trigger] with@[i])@ == chosen[i],
                decreases with@.len() - j,
            {
                proof {
                    lemma_selections_sound(sorted(rest@), (n - 1) as nat, j as int);
                }
                with[j].insert(e);
                j += 1;
            }
            proof {
                let s = members@;
                let held = chosen.map_values(|w: Set<u64>| w.insert(s[k as int]));
                assert(set_views(with@) =~= held);
                assert(set_views(result@ + without@ + with@) =~= set_views(result@) + set_views(
                    without@,
                ) + set_views(with@));
                assert(selections_setting_aside(s, n as nat, k as int) =~= selections(
                    sorted(rest@),
                    n as nat,
                ) + held);
                assert(selections_upto(s, n as nat, (k + 1) as nat) =~= selections_upto(
                    s,
                    n as nat,
                    k as nat,
                ) + (selections(sorted(rest@), n as nat) + held));
            }
            result.append(&mut without);
            result.append(&mut with);
            k += 1;
        }
        result
    }
}

} // verus!
