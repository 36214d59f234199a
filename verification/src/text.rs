//! Numbers as text: decimal digits, and a set as its members in ascending
//! order with a space between them.

use crate::numbers::{sorted, Numbers};
use vstd::prelude::*;
use vstd::string::StringExecFns;

verus! {

/// The character that stands for the decimal digit `d`.
pub open spec fn digit_char(d: int) -> char {
    if d == 0 {
        '0'
    } else if d == 1 {
        '1'
    } else if d == 2 {
        '2'
    } else if d == 3 {
        '3'
    } else if d == 4 {
        '4'
    } else if d == 5 {
        '5'
    } else if d == 6 {
        '6'
    } else if d == 7 {
        '7'
    } else if d == 8 {
        '8'
    } else {
        '9'
    }
}

/// `n` in decimal, without leading zeros.
pub open spec fn decimal(n: nat) -> Seq<char>
    decreases n,
{
    if n < 10 {
        seq![digit_char(n as int)]
    } else {
        decimal(n / 10).push(digit_char((n % 10) as int))
    }
}

/// The numbers of `s` in decimal, in the order of `s`, with one space between
/// neighbours.
pub open spec fn listing(s: Seq<u64>) -> Seq<char>
    decreases s.len(),
{
    if s.len() == 0 {
        Seq::empty()
    } else if s.len() == 1 {
        decimal(s[0] as nat)
    } else {
        listing(s.drop_last()) + seq![' '] + decimal(s.last() as nat)
    }
}

/// The text of one decimal digit.
fn digit_text(d: u64) -> (text: &'static str)
    requires
        d < 10,
    ensures
        text@ == seq![digit_char(d as int)],
{
    proof {
        reveal_strlit("0");
        reveal_strlit("1");
        reveal_strlit("2");
        reveal_strlit("3");
        reveal_strlit("4");
        reveal_strlit("5");
        reveal_strlit("6");
        reveal_strlit("7");
        reveal_strlit("8");
        reveal_strlit("9");
    }
    let text = if d == 0 {
        "0"
    } else if d == 1 {
        "1"
    } else if d == 2 {
        "2"
    } else if d == 3 {
        "3"
    } else if d == 4 {
        "4"
    } else if d == 5 {
        "5"
    } else if d == 6 {
        "6"
    } else if d == 7 {
        "7"
    } else if d == 8 {
        "8"
    } else {
        "9"
    };
    assert(text@ =~= seq![digit_char(d as int)]);
    text
}

/// Appends `n` in decimal to `out`.
pub fn push_decimal(out: &mut String, n: u64)
    ensures
        final(out)@ == old(out)@ + decimal(n as nat),
    decreases n,
{
    if n >= 10 {
        push_decimal(out, n / 10);
    }
    out.append(digit_text(n % 10));
    assert(final(out)@ =~= old(out)@ + decimal(n as nat));
}

impl Numbers {
    /// The numbers in ascending order, in decimal, separated by spaces.
    pub fn render(&self) -> (text: String)
        ensures
            text@ == listing(sorted(self@)),
    {
        let members = self.to_vec();
        let mut text = String::new();
        let mut i: usize = 0;
        assert(members@.take(0) =~= Seq::<u64>::empty());
        while i < members.len()
            invariant
                i <= members@.len(),
                text@ == listing(members@.take(i as int)),
            decreases members@.len() - i,
        {
            if i > 0 {
                text.append(" ");
            }
            push_decimal(&mut text, members[i]);
            proof {
                reveal_strlit(" ");
                let s = members@;
                assert(s.take(i + 1).drop_last() =~= s.take(i as int));
                assert(s.take(i + 1).last() == s[i as int]);
                assert(" "@ =~= seq![' ']);
                if i == 0 {
                    assert(s.take(1)[0] == s[0]);
                    assert(text@ =~= decimal(s[0] as nat));
                }
            }
            i += 1;
        }
        assert(members@.take(i as int) =~= members@);
        text
    }
}

} // verus!
