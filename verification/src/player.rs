//! The two players and their moves.

use crate::heuristic::{candidates, is_corner, pick};
use crate::input::{choice, parse_choice};
use crate::numbers::{sorted, Numbers};
use crate::text::{decimal, listing, push_decimal};
use vstd::prelude::*;
use vstd::string::StringExecFns;

verus! {

/// Who moves: the player at the other end of the connection, or the
/// automated one.
#[derive(Clone, Copy, Debug, PartialEq, Eq, Structural)]
pub enum Player {
    Human,
    Machine,
}

impl Player {
    /// The player who moves after this one.
    pub open spec fn opponent(self) -> Player {
        match self {
            Player::Human => Player::Machine,
            Player::Machine => Player::Human,
        }
    }

    /// The name under which the player appears in the transcript.
    pub open spec fn title(self) -> Seq<char> {
        match self {
            Player::Human => "you"@,
            Player::Machine => "I"@,
        }
    }

    /// The player who moves after this one.
    pub fn other(self) -> (p: Player)
        ensures
            p == self.opponent(),
    {
        match self {
            Player::Human => Player::Machine,
            Player::Machine => Player::Human,
        }
    }

    /// The name under which the player appears in the transcript.
    pub fn name(self) -> (text: &'static str)
        ensures
            text@ == self.title(),
    {
        match self {
            Player::Human => "you",
            Player::Machine => "I",
        }
    }
}

/// Both the computer and human players carry the same state.
pub struct PlayerState {
    pub numbers: Numbers,
    pub name: &'static str,
}

/// What reading a line from the other end gave: the line, or bytes that are
/// no text.
pub enum Input {
    Line(String),
    Garbled,
}

/// What an input of the human player comes to.
#[derive(Clone, Copy, Debug, PartialEq, Eq, Structural)]
pub enum Answer {
    /// The input names an available number, which the player now holds.
    Claimed(u64),
    /// The input is no text.
    Garbled,
    /// The input is no number.
    BadChoice,
    /// The input is a number that is not available.
    Unavailable,
}

/// What `input` comes to when the numbers of `board` are available.
pub open spec fn answer_to(board: Set<u64>, input: Input) -> Answer {
    match input {
        Input::Garbled => Answer::Garbled,
        Input::Line(line) => match choice(line@) {
            None => Answer::BadChoice,
            Some(n) => if board.contains(n) {
                Answer::Claimed(n)
            } else {
                Answer::Unavailable
            },
        },
    }
}

/// What the session says to an input before it prompts again; nothing where
/// the input was a move.
pub open spec fn answer_text(answer: Answer) -> Seq<char> {
    match answer {
        Answer::Claimed(_) => Seq::empty(),
        Answer::Garbled => "\r\ngarbled input\r\n"@,
        Answer::BadChoice => "bad choice try again\r\n"@,
        Answer::Unavailable => "unavailable choice try again\r\n"@,
    }
}

/// A player's name and numbers as a line of the transcript.
pub open spec fn status_text(name: Seq<char>, held: Seq<u64>) -> Seq<char> {
    name + ": "@ + listing(held) + "\r\n"@
}

/// What the human player is shown before a move: the opponent's numbers,
/// the player's own, the available ones, and the request for a move, which
/// no line ending follows.
pub open spec fn prompt_text(
    opponent_name: Seq<char>,
    opponent_held: Seq<u64>,
    name: Seq<char>,
    held: Seq<u64>,
    available: Seq<u64>,
) -> Seq<char> {
    status_text(opponent_name, opponent_held) + status_text(name, held) + "available: "@ + listing(
        available,
    ) + "\r\n"@ + "move: "@
}

/// The line that tells of the automated player's choice.
pub open spec fn choice_text(name: Seq<char>, c: u64) -> Seq<char> {
    name + " choose "@ + decimal(c as nat) + "\r\n"@
}

/// The text of `answer_text`.
pub fn answer_message(answer: Answer) -> (text: &'static str)
    ensures
        text@ == answer_text(answer),
{
    match answer {
        Answer::Claimed(_) => {
            proof {
                reveal_strlit("");
            }
            assert(""@ =~= Seq::<char>::empty());
            ""
        },
        Answer::Garbled => "\r\ngarbled input\r\n",
        Answer::BadChoice => "bad choice try again\r\n",
        Answer::Unavailable => "unavailable choice try again\r\n",
    }
}

/// Appends a player's name and numbers to `out` as a line.
fn push_status(out: &mut String, name: &str, held: &Numbers)
    ensures
        final(out)@ == old(out)@ + status_text(name@, sorted(held@)),
{
    out.append(name);
    out.append(": ");
    let listed = held.render();
    out.append(listed.as_str());
    out.append("\r\n");
    assert(final(out)@ =~= old(out)@ + status_text(name@, sorted(held@)));
}

impl PlayerState {
    /// Create a new player state.
    pub fn new(name: &'static str) -> (r: Self)
        ensures
            r.name == name,
            r.numbers@ == Set::<u64>::empty(),
    {
        PlayerState { numbers: Numbers::new(), name }
    }

    /// Appends to `out` what the player is shown before a move.
    pub fn push_prompt(&self, opponent: &PlayerState, board: &Numbers, out: &mut String)
        ensures
            final(out)@ == old(out)@ + prompt_text(
                opponent.name@,
                sorted(opponent.numbers@),
                self.name@,
                sorted(self.numbers@),
                sorted(board@),
            ),
    {
        push_status(out, opponent.name, &opponent.numbers);
        push_status(out, self.name, &self.numbers);
        out.append("available: ");
        let listed = board.render();
        out.append(listed.as_str());
        out.append("\r\n");
        out.append("move: ");
        assert(final(out)@ =~= old(out)@ + prompt_text(
            opponent.name@,
            sorted(opponent.numbers@),
            self.name@,
            sorted(self.numbers@),
            sorted(board@),
        ));
    }

    /// Takes `n` from the board for this player if it is available there,
    /// and says whether it was. The player must hold no number that is still
    /// on the board.
    pub fn claim(&mut self, board: &mut Numbers, n: u64) -> (taken: bool)
        requires
            old(self).numbers@.disjoint(old(board)@),
        ensures
            final(self).name == old(self).name,
            taken == old(board)@.contains(n),
            final(board)@ == old(board)@.remove(n),
            final(self).numbers@ == if taken {
                old(self).numbers@.insert(n)
            } else {
                old(self).numbers@
            },
    {
        if board.remove(n) {
            self.numbers.insert(n);
            true
        } else {
            false
        }
    }

    /// Get a human move and make it: the input is read as a number, and the
    /// number is claimed if it is available. Any other input changes nothing.
    pub fn human_move(&mut self, board: &mut Numbers, input: &Input) -> (answer: Answer)
        requires
            old(self).numbers@.disjoint(old(board)@),
        ensures
            final(self).name == old(self).name,
            answer == answer_to(old(board)@, *input),
            final(board)@ == match answer {
                Answer::Claimed(n) => old(board)@.remove(n),
                _ => old(board)@,
            },
            final(self).numbers@ == match answer {
                Answer::Claimed(n) => old(self).numbers@.insert(n),
                _ => old(self).numbers@,
            },
    {
        match input {
            Input::Garbled => Answer::Garbled,
            Input::Line(line) => match parse_choice(line.as_str()) {
                None => Answer::BadChoice,
                Some(n) => {
                    if self.claim(board, n) {
                        Answer::Claimed(n)
                    } else {
                        assert(final(board)@ =~= old(board)@);
                        Answer::Unavailable
                    }
                },
            },
        }
    }

    /// Select the machine move that the random draw `r` stands for, and make
    /// it. A number must be available.
    pub fn machine_move_with(&mut self, board: &mut Numbers, r: usize) -> (c: u64)
        requires
            old(self).numbers@.disjoint(old(board)@),
            !old(board)@.is_empty(),
        ensures
            final(self).name == old(self).name,
            c == pick(old(board)@, r),
            old(board)@.contains(c),
            final(board)@ == old(board)@.remove(c),
            final(self).numbers@ == old(self).numbers@.insert(c),
    {
        let c = board.heuristic_pick(r);
        let taken = self.claim(board, c);
        c
    }

    /// Select a machine move and make it. A number must be available.
    pub fn machine_move(&mut self, board: &mut Numbers) -> (c: u64)
        requires
            old(self).numbers@.disjoint(old(board)@),
            !old(board)@.is_empty(),
        ensures
            final(self).name == old(self).name,
            candidates(old(board)@).contains(c),
            old(board)@.contains(c),
            old(board)@.contains(5) ==> c == 5,
            !old(board)@.contains(5) && (exists|k: u64| is_corner(k) && old(board)@.contains(k))
                ==> is_corner(c),
            final(board)@ == old(board)@.remove(c),
            final(self).numbers@ == old(self).numbers@.insert(c),
    {
        let c = board.heuristic_choice();
        let taken = self.claim(board, c);
        c
    }

    /// Appends to `out` the line that tells of this player's choice of `c`.
    pub fn push_choice(&self, c: u64, out: &mut String)
        ensures
            final(out)@ == old(out)@ + choice_text(self.name@, c),
    {
        out.append(self.name);
        out.append(" choose ");
        push_decimal(out, c);
        out.append("\r\n");
        assert(final(out)@ =~= old(out)@ + choice_text(self.name@, c));
    }
}

} // verus!
