//! One game between the human and the automated player, as a state machine.
//!
//! The session never reads or writes. It is handed what was read and
//! answers with the text to send next and with what to do after sending it:
//! read a line, or close.

use crate::heuristic::{candidates, lemma_candidates, lemma_candidates_exist, pick};
use crate::numbers::{sorted, Numbers};
use crate::player::{
    answer_message, answer_text, answer_to, choice_text, prompt_text, Answer, Input, Player,
    PlayerState,
};
use crate::random::{random_bool, random_usize};
use crate::text::listing;
use crate::win::{
    digits, has_win, lemma_no_win_without_numbers, lemma_sorted_digits, winning_triple,
};
use vstd::prelude::*;
use vstd::string::StringExecFns;

verus! {

/// Where a game stands.
#[derive(Clone, Copy, Debug, PartialEq, Eq, Structural)]
pub enum Phase {
    /// It is the player's turn.
    AwaitingMove(Player),
    /// The player holds three numbers that sum to 15.
    Won(Player),
    /// No number is left, and nobody has won.
    Draw,
}

/// What is to be done once a reply's text has been sent.
#[derive(Clone, Copy, Debug, PartialEq, Eq, Structural)]
pub enum Action {
    /// Read a line and hand it to the session.
    ReadLine,
    /// The game is over.
    Close,
}

/// What the session answers.
pub struct Reply {
    /// The text to send to the other end.
    pub text: String,
    /// What to tell the operator, if anything.
    pub diagnostic: Option<&'static str>,
    /// What to do after sending the text.
    pub action: Action,
}

/// Whether the three sets share no number and together hold the digits 1
/// to 9.
pub open spec fn is_partition(board: Set<u64>, human: Set<u64>, machine: Set<u64>) -> bool {
    &&& board.union(human).union(machine) == digits()
    &&& board.disjoint(human)
    &&& board.disjoint(machine)
    &&& human.disjoint(machine)
}

/// In a partition every digit is in exactly one of the three sets.
pub proof fn lemma_partition_exactly_one(
    board: Set<u64>,
    human: Set<u64>,
    machine: Set<u64>,
    d: u64,
)
    requires
        is_partition(board, human, machine),
        1 <= d <= 9,
    ensures
        board.contains(d) || human.contains(d) || machine.contains(d),
        !(board.contains(d) && human.contains(d)),
        !(board.contains(d) && machine.contains(d)),
        !(human.contains(d) && machine.contains(d)),
{
    assert(digits().contains(d));
    assert(board.union(human).union(machine).contains(d));
}

/// The phase after `mover` has made a move, holds `held`, and `board` is
/// left.
pub open spec fn phase_after(mover: Player, held: Set<u64>, board: Set<u64>) -> Phase {
    if has_win(held) {
        Phase::Won(mover)
    } else if board == Set::<u64>::empty() {
        Phase::Draw
    } else {
        Phase::AwaitingMove(mover.opponent())
    }
}

/// What is announced after the player called `name` has made a move, holds
/// `held`, and `board` is left: the winning numbers and the winner, or a
/// draw, or nothing.
pub open spec fn announcement(name: Seq<char>, held: Set<u64>, board: Set<u64>) -> Seq<char> {
    if has_win(held) {
        "\r\n"@ + listing(sorted(winning_triple(held)->0)) + "\r\n"@ + name + " win\r\n"@
    } else if board == Set::<u64>::empty() {
        "\r\n"@ + "draw\r\n"@
    } else {
        Seq::empty()
    }
}

/// A game as the rules see it: who holds which numbers, and the phase.
pub struct Position {
    /// The numbers that nobody has claimed.
    pub board: Set<u64>,
    /// The numbers of the human player.
    pub human: Set<u64>,
    /// The numbers of the automated player.
    pub machine: Set<u64>,
    pub phase: Phase,
}

/// What a step of the session leads to.
pub struct Step {
    pub position: Position,
    /// The text to send.
    pub text: Seq<char>,
    pub action: Action,
}

impl Position {
    /// The start of a game in which `first` moves first.
    pub open spec fn start(first: Player) -> Position {
        Position {
            board: digits(),
            human: Set::empty(),
            machine: Set::empty(),
            phase: Phase::AwaitingMove(first),
        }
    }

    /// The numbers are a partition of the digits, and the phase is the one
    /// that they call for.
    pub open spec fn valid(self) -> bool {
        &&& is_partition(self.board, self.human, self.machine)
        &&& match self.phase {
            Phase::AwaitingMove(_) => !has_win(self.human) && !has_win(self.machine) && self.board
                != Set::<u64>::empty(),
            Phase::Won(Player::Human) => has_win(self.human) && !has_win(self.machine),
            Phase::Won(Player::Machine) => has_win(self.machine) && !has_win(self.human),
            Phase::Draw => !has_win(self.human) && !has_win(self.machine) && self.board
                == Set::<u64>::empty(),
        }
    }

    /// The position after the human player has claimed `n`.
    pub open spec fn human_claims(self, n: u64) -> Position {
        Position {
            board: self.board.remove(n),
            human: self.human.insert(n),
            machine: self.machine,
            phase: phase_after(Player::Human, self.human.insert(n), self.board.remove(n)),
        }
    }

    /// The position after the automated player has claimed `n`.
    pub open spec fn machine_claims(self, n: u64) -> Position {
        Position {
            board: self.board.remove(n),
            human: self.human,
            machine: self.machine.insert(n),
            phase: phase_after(Player::Machine, self.machine.insert(n), self.board.remove(n)),
        }
    }

    /// What the human player is shown before a move.
    pub open spec fn prompt(self) -> Seq<char> {
        prompt_text(
            Player::Machine.title(),
            sorted(self.machine),
            Player::Human.title(),
            sorted(self.human),
            sorted(self.board),
        )
    }

    /// The game goes on until the human player has to move or the game is
    /// over. On the human player's turn an empty line and the prompt are
    /// sent. On the automated player's turn, after an empty line, the number
    /// that the draw `r` selects is claimed and announced, then what comes
    /// of it, and, where the game goes on, an empty line and the prompt.
    /// Once the game is over nothing more is sent.
    pub open spec fn advance(self, r: usize) -> Step {
        match self.phase {
            Phase::AwaitingMove(Player::Human) => Step {
                position: self,
                text: "\r\n"@ + self.prompt(),
                action: Action::ReadLine,
            },
            Phase::AwaitingMove(Player::Machine) => {
                let c = pick(self.board, r);
                let next = self.machine_claims(c);
                let said = "\r\n"@ + choice_text(Player::Machine.title(), c) + announcement(
                    Player::Machine.title(),
                    next.machine,
                    next.board,
                );
                if next.phase == Phase::AwaitingMove(Player::Human) {
                    Step {
                        position: next,
                        text: said + "\r\n"@ + next.prompt(),
                        action: Action::ReadLine,
                    }
                } else {
                    Step { position: next, text: said, action: Action::Close }
                }
            },
            _ => Step { position: self, text: Seq::empty(), action: Action::Close },
        }
    }

    /// The answer to an input on the human player's turn. An input that is
    /// no move changes nothing: the session says what was wrong with it and
    /// prompts again. A move is made, what comes of it is announced, and the
    /// game goes on as `advance` says.
    pub open spec fn respond(self, input: Input, r: usize) -> Step {
        match answer_to(self.board, input) {
            Answer::Claimed(n) => {
                let next = self.human_claims(n);
                let then = next.advance(r);
                Step {
                    position: then.position,
                    text: announcement(Player::Human.title(), next.human, next.board) + then.text,
                    action: then.action,
                }
            },
            answer => Step {
                position: self,
                text: answer_text(answer) + self.prompt(),
                action: Action::ReadLine,
            },
        }
    }
}

impl Position {
    /// A game starts in a valid position: all digits are on the board.
    pub proof fn lemma_start_valid(first: Player)
        ensures
            Position::start(first).valid(),
    {
        let p = Position::start(first);
        assert(p.board.union(p.human).union(p.machine) =~= digits());
        assert(digits().contains(1));
        lemma_no_win_without_numbers();
    }

    /// In a valid position the board is a finite set.
    pub proof fn lemma_board_finite(self)
        requires
            self.valid(),
        ensures
            self.board.finite(),
    {
        lemma_sorted_digits();
        assert(self.board.subset_of(digits())) by {
            assert forall|d: u64| self.board.contains(d) implies digits().contains(d) by {
                assert(self.board.union(self.human).union(self.machine).contains(d));
            }
        }
        vstd::set_lib::lemma_len_subset(self.board, digits());
    }

    /// The claim of an available number by the player whose turn it is
    /// leads from a valid position to a valid position: the numbers stay a
    /// partition of the digits, and the turn passes to the opponent unless
    /// the game is over.
    pub proof fn lemma_claim_valid(self, n: u64)
        requires
            self.valid(),
            self.board.contains(n),
        ensures
            self.phase == Phase::AwaitingMove(Player::Human) ==> self.human_claims(n).valid(),
            self.phase == Phase::AwaitingMove(Player::Machine) ==> self.machine_claims(n).valid(),
    {
        if self.phase == Phase::AwaitingMove(Player::Human) {
            let next = self.human_claims(n);
            assert(next.board.union(next.human).union(next.machine) =~= digits()) by {
                assert forall|d: u64|
                    next.board.union(next.human).union(next.machine).contains(d)
                        == digits().contains(d) by {
                    assert(self.board.union(self.human).union(self.machine).contains(d)
                        == digits().contains(d));
                }
            }
        }
        if self.phase == Phase::AwaitingMove(Player::Machine) {
            let next = self.machine_claims(n);
            assert(next.board.union(next.human).union(next.machine) =~= digits()) by {
                assert forall|d: u64|
                    next.board.union(next.human).union(next.machine).contains(d)
                        == digits().contains(d) by {
                    assert(self.board.union(self.human).union(self.machine).contains(d)
                        == digits().contains(d));
                }
            }
        }
    }

    /// Going on from a valid position leads to a valid position, in which
    /// it is the human player's turn if a line is to be read, and the game
    /// is over if the session is to close.
    pub proof fn lemma_advance_valid(self, r: usize)
        requires
            self.valid(),
        ensures
            self.advance(r).position.valid(),
            action_fits(self.advance(r).action, self.advance(r).position.phase),
    {
        if self.phase == Phase::AwaitingMove(Player::Machine) {
            self.lemma_board_finite();
            lemma_candidates_exist(self.board);
            let found = candidates(self.board);
            let c = pick(self.board, r);
            assert(found[r as int % found.len() as int] == c);
            lemma_candidates(self.board, c);
            self.lemma_claim_valid(c);
        }
    }

    /// Answering an input on the human player's turn leads from a valid
    /// position to a valid position, in which it is the human player's turn
    /// if a line is to be read, and the game is over if the session is to
    /// close.
    pub proof fn lemma_respond_valid(self, input: Input, r: usize)
        requires
            self.valid(),
            self.phase == Phase::AwaitingMove(Player::Human),
        ensures
            self.respond(input, r).position.valid(),
            action_fits(self.respond(input, r).action, self.respond(input, r).position.phase),
    {
        match answer_to(self.board, input) {
            Answer::Claimed(n) => {
                self.lemma_claim_valid(n);
                self.human_claims(n).lemma_advance_valid(r);
            },
            _ => {},
        }
    }
}

/// One game: the numbers that are left, the two players, and the phase.
pub struct GameSession {
    /// The numbers that nobody has claimed.
    pub board: Numbers,
    pub human: PlayerState,
    pub machine: PlayerState,
    pub phase: Phase,
}

impl View for GameSession {
    type V = Position;

    open spec fn view(&self) -> Position {
        Position {
            board: self.board@,
            human: self.human.numbers@,
            machine: self.machine.numbers@,
            phase: self.phase,
        }
    }
}

/// A line is read on the human player's turn and at no other time, and the
/// session closes once the game is won or drawn and at no other time.
pub open spec fn action_fits(action: Action, phase: Phase) -> bool {
    match action {
        Action::ReadLine => phase == Phase::AwaitingMove(Player::Human),
        Action::Close => phase is Won || phase is Draw,
    }
}

/// Whether `session` and `reply` are what `step` describes.
pub open spec fn reached(session: GameSession, reply: Reply, step: Step) -> bool {
    &&& session@ == step.position
    &&& reply.text@ == step.text
    &&& reply.action == step.action
}

/// Decides what follows a move of `mover`, whose state is now `state`, with
/// `board` left, and appends the announcement of it to `out`.
pub fn conclude(mover: Player, state: &PlayerState, board: &Numbers, out: &mut String) -> (phase:
    Phase)
    ensures
        phase == phase_after(mover, state.numbers@, board@),
        final(out)@ == old(out)@ + announcement(state.name@, state.numbers@, board@),
{
    match state.numbers.won() {
        Some(win) => {
            out.append("\r\n");
            let listed = win.render();
            out.append(listed.as_str());
            out.append("\r\n");
            out.append(state.name);
            out.append(" win\r\n");
            proof {
                assert(final(out)@ =~= old(out)@ + announcement(
                    state.name@,
                    state.numbers@,
                    board@,
                ));
            }
            Phase::Won(mover)
        },
        None => {
            if board.is_empty() {
                out.append("\r\n");
                out.append("draw\r\n");
                proof {
                    assert(final(out)@ =~= old(out)@ + announcement(
                        state.name@,
                        state.numbers@,
                        board@,
                    ));
                }
                Phase::Draw
            } else {
                proof {
                    assert(final(out)@ =~= old(out)@ + announcement(
                        state.name@,
                        state.numbers@,
                        board@,
                    ));
                }
                Phase::AwaitingMove(mover.other())
            }
        },
    }
}

impl GameSession {
    /// The players bear their names, the numbers are a partition of the
    /// digits 1 to 9, and the phase is the one that they call for.
    pub open spec fn wf(&self) -> bool {
        &&& self.human.name@ == Player::Human.title()
        &&& self.machine.name@ == Player::Machine.title()
        &&& self@.valid()
    }

    /// Every digit from 1 to 9 is on the board or with one of the players,
    /// and in one of these places only.
    pub proof fn lemma_one_holder(&self, d: u64)
        requires
            self.wf(),
            1 <= d <= 9,
        ensures
            self.board@.contains(d) || self.human.numbers@.contains(d)
                || self.machine.numbers@.contains(d),
            !(self.board@.contains(d) && self.human.numbers@.contains(d)),
            !(self.board@.contains(d) && self.machine.numbers@.contains(d)),
            !(self.human.numbers@.contains(d) && self.machine.numbers@.contains(d)),
    {
        lemma_partition_exactly_one(self.board@, self.human.numbers@, self.machine.numbers@, d);
    }

    /// The line that greets a new connection.
    pub fn banner() -> (text: &'static str)
        ensures
            text@ == "n15 v0.0.0.1\r\n"@,
    {
        "n15 v0.0.0.1\r\n"
    }

    /// A new game in which `first` moves first: the digits 1 to 9 are
    /// available, and the players hold nothing.
    pub fn new(first: Player) -> (session: GameSession)
        ensures
            session.wf(),
            session@ == Position::start(first),
    {
        let mut board = Numbers::new();
        let mut d: u64 = 1;
        while d <= 9
            invariant
                1 <= d <= 10,
                board@ == Set::new(|e: u64| 1 <= e < d),
            decreases 10 - d,
        {
            board.insert(d);
            assert(board@ =~= Set::new(|e: u64| 1 <= e < d + 1));
            d += 1;
        }
        let session = GameSession {
            board,
            human: PlayerState::new(Player::Human.name()),
            machine: PlayerState::new(Player::Machine.name()),
            phase: Phase::AwaitingMove(first),
        };
        proof {
            assert(session.board@ =~= digits());
            assert(session@ == Position::start(first));
            Position::lemma_start_valid(first);
        }
        session
    }

    /// A new game in which a coin decides who moves first.
    pub fn start() -> (session: GameSession)
        ensures
            session.wf(),
            session@ == Position::start(Player::Human) || session@ == Position::start(
                Player::Machine,
            ),
    {
        if random_bool() {
            GameSession::new(Player::Human)
        } else {
            GameSession::new(Player::Machine)
        }
    }

    /// Appends to `out` what the human player is shown before a move.
    fn push_prompt(&self, out: &mut String)
        requires
            self.wf(),
        ensures
            final(out)@ == old(out)@ + self@.prompt(),
    {
        self.human.push_prompt(&self.machine, &self.board, out);
    }

    /// Goes on as `Position::advance` says, and appends the text to `out`.
    fn push_advance(&mut self, r: usize, out: &mut String) -> (action: Action)
        requires
            old(self).wf(),
        ensures
            final(self).wf(),
            final(self)@ == old(self)@.advance(r).position,
            final(out)@ == old(out)@ + old(self)@.advance(r).text,
            action == old(self)@.advance(r).action,
            action_fits(action, final(self).phase),
    {
        match self.phase {
            Phase::AwaitingMove(Player::Human) => {
                out.append("\r\n");
                self.push_prompt(out);
                assert(final(out)@ =~= old(out)@ + old(self)@.advance(r).text);
                Action::ReadLine
            },
            Phase::AwaitingMove(Player::Machine) => {
                out.append("\r\n");
                let c = self.machine.machine_move_with(&mut self.board, r);
                self.machine.push_choice(c, out);
                self.phase = conclude(Player::Machine, &self.machine, &self.board, out);
                proof {
                    let next = old(self)@.machine_claims(c);
                    assert(self@.board =~= next.board);
                    assert(self@.machine =~= next.machine);
                    assert(self@ == next);
                    old(self)@.lemma_claim_valid(c);
                }
                if self.phase == Phase::AwaitingMove(Player::Human) {
                    out.append("\r\n");
                    self.push_prompt(out);
                    assert(final(out)@ =~= old(out)@ + old(self)@.advance(r).text);
                    Action::ReadLine
                } else {
                    assert(final(out)@ =~= old(out)@ + old(self)@.advance(r).text);
                    Action::Close
                }
            },
            _ => {
                assert(final(out)@ =~= old(out)@ + old(self)@.advance(r).text);
                Action::Close
            },
        }
    }

    /// The game goes on until the human player has to move or the game is
    /// over, with `r` as the random draw for the automated player's move.
    pub fn advance_with(&mut self, r: usize) -> (reply: Reply)
        requires
            old(self).wf(),
        ensures
            final(self).wf(),
            reached(*final(self), reply, old(self)@.advance(r)),
            action_fits(reply.action, final(self).phase),
            reply.diagnostic is None,
    {
        let mut text = String::new();
        let action = self.push_advance(r, &mut text);
        assert(text@ =~= old(self)@.advance(r).text);
        Reply { text, diagnostic: None, action }
    }

    /// The game goes on until the human player has to move or the game is
    /// over. The automated player's move hangs on a random draw.
    pub fn advance(&mut self) -> (reply: Reply)
        requires
            old(self).wf(),
        ensures
            final(self).wf(),
            exists|r: usize| reached(*final(self), reply, #[trigger] old(self)@.advance(r)),
            action_fits(reply.action, final(self).phase),
            reply.diagnostic is None,
    {
        let r = random_usize();
        self.advance_with(r)
    }

    /// Answers an input on the human player's turn, with `r` as the random
    /// draw for the move of the automated player that may follow.
    pub fn respond_with(&mut self, input: &Input, r: usize) -> (reply: Reply)
        requires
            old(self).wf(),
            old(self).phase == Phase::AwaitingMove(Player::Human),
        ensures
            final(self).wf(),
            reached(*final(self), reply, old(self)@.respond(*input, r)),
            action_fits(reply.action, final(self).phase),
            reply.diagnostic is Some <==> *input is Garbled,
            reply.diagnostic matches Some(told) ==> told@ == "garbled input"@,
    {
        let mut text = String::new();
        let answer = self.human.human_move(&mut self.board, input);
        match answer {
            Answer::Claimed(n) => {
                self.phase = conclude(Player::Human, &self.human, &self.board, &mut text);
                proof {
                    let next = old(self)@.human_claims(n);
                    assert(self@.board =~= next.board);
                    assert(self@.human =~= next.human);
                    assert(self@ == next);
                    old(self)@.lemma_claim_valid(n);
                }
                let action = self.push_advance(r, &mut text);
                assert(text@ =~= old(self)@.respond(*input, r).text);
                Reply { text, diagnostic: None, action }
            },
            _ => {
                text.append(answer_message(answer));
                self.push_prompt(&mut text);
                assert(self@.board =~= old(self)@.board);
                assert(self@.human =~= old(self)@.human);
                assert(text@ =~= old(self)@.respond(*input, r).text);
                let diagnostic = match answer {
                    Answer::Garbled => Some("garbled input"),
                    _ => None,
                };
                Reply { text, diagnostic, action: Action::ReadLine }
            },
        }
    }

    /// Answers an input on the human player's turn. A move of the automated
    /// player that follows hangs on a random draw.
    pub fn respond(&mut self, input: &Input) -> (reply: Reply)
        requires
            old(self).wf(),
            old(self).phase == Phase::AwaitingMove(Player::Human),
        ensures
            final(self).wf(),
            exists|r: usize| reached(*final(self), reply, #[trigger] old(self)@.respond(*input, r)),
            action_fits(reply.action, final(self).phase),
            reply.diagnostic is Some <==> *input is Garbled,
            reply.diagnostic matches Some(told) ==> told@ == "garbled input"@,
    {
        let r = random_usize();
        self.respond_with(input, r)
    }
}

} // verus!
