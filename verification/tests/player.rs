use net15::numbers::Numbers;
use net15::player::{answer_message, Answer, Input, Player, PlayerState};
use net15::session::{conclude, Phase};

fn full_board() -> Numbers {
    let mut board = Numbers::new();
    for d in 1..=9 {
        board.insert(d);
    }
    board
}

fn line(text: &str) -> Input {
    Input::Line(String::from(text))
}

#[test]
fn a_new_player_holds_nothing() {
    let you = PlayerState::new("you");
    assert_eq!(you.name, "you");
    assert!(you.numbers.is_empty());
}

#[test]
fn players_take_turns() {
    assert_eq!(Player::Human.other(), Player::Machine);
    assert_eq!(Player::Machine.other(), Player::Human);
}

#[test]
fn players_have_their_names() {
    assert_eq!(Player::Human.name(), "you");
    assert_eq!(Player::Machine.name(), "I");
}

#[test]
fn claim_moves_an_available_number_to_the_player() {
    let mut board = full_board();
    let mut you = PlayerState::new("you");
    assert!(you.claim(&mut board, 4));
    assert_eq!(board.to_vec(), vec![1, 2, 3, 5, 6, 7, 8, 9]);
    assert_eq!(you.numbers.to_vec(), vec![4]);
}

#[test]
fn claim_of_an_unavailable_number_changes_nothing() {
    let mut board = full_board();
    let mut you = PlayerState::new("you");
    assert!(you.claim(&mut board, 4));
    assert!(!you.claim(&mut board, 4));
    assert!(!you.claim(&mut board, 0));
    assert!(!you.claim(&mut board, 10));
    assert_eq!(board.to_vec(), vec![1, 2, 3, 5, 6, 7, 8, 9]);
    assert_eq!(you.numbers.to_vec(), vec![4]);
}

#[test]
fn a_human_move_is_read_from_the_line() {
    let mut board = full_board();
    let mut you = PlayerState::new("you");
    assert_eq!(you.human_move(&mut board, &line("7\r\n")), Answer::Claimed(7));
    assert_eq!(board.to_vec(), vec![1, 2, 3, 4, 5, 6, 8, 9]);
    assert_eq!(you.numbers.to_vec(), vec![7]);
    assert_eq!(you.name, "you");
}

#[test]
fn a_line_that_is_no_number_is_a_bad_choice() {
    let mut board = full_board();
    let mut you = PlayerState::new("you");
    assert_eq!(you.human_move(&mut board, &line("abc\r\n")), Answer::BadChoice);
    assert_eq!(you.human_move(&mut board, &line("\r\n")), Answer::BadChoice);
    assert_eq!(you.human_move(&mut board, &line("")), Answer::BadChoice);
    assert_eq!(you.human_move(&mut board, &line("-3\r\n")), Answer::BadChoice);
    assert_eq!(board.to_vec(), vec![1, 2, 3, 4, 5, 6, 7, 8, 9]);
    assert!(you.numbers.is_empty());
}

#[test]
fn a_number_that_is_not_on_the_board_is_unavailable() {
    let mut board = full_board();
    let mut you = PlayerState::new("you");
    let mut me = PlayerState::new("I");
    assert!(me.claim(&mut board, 5));
    assert!(you.claim(&mut board, 1));
    assert_eq!(you.human_move(&mut board, &line("5\r\n")), Answer::Unavailable);
    assert_eq!(you.human_move(&mut board, &line("1\r\n")), Answer::Unavailable);
    assert_eq!(you.human_move(&mut board, &line("0\r\n")), Answer::Unavailable);
    assert_eq!(you.human_move(&mut board, &line("10\r\n")), Answer::Unavailable);
    assert_eq!(
        you.human_move(&mut board, &line("18446744073709551615\r\n")),
        Answer::Unavailable
    );
    assert_eq!(board.to_vec(), vec![2, 3, 4, 6, 7, 8, 9]);
    assert_eq!(you.numbers.to_vec(), vec![1]);
    assert_eq!(me.numbers.to_vec(), vec![5]);
}

#[test]
fn garbled_input_changes_nothing() {
    let mut board = full_board();
    let mut you = PlayerState::new("you");
    assert_eq!(you.human_move(&mut board, &Input::Garbled), Answer::Garbled);
    assert_eq!(board.to_vec(), vec![1, 2, 3, 4, 5, 6, 7, 8, 9]);
    assert!(you.numbers.is_empty());
}

#[test]
fn answers_have_their_messages() {
    assert_eq!(answer_message(Answer::Claimed(3)), "");
    assert_eq!(answer_message(Answer::Garbled), "\r\ngarbled input\r\n");
    assert_eq!(answer_message(Answer::BadChoice), "bad choice try again\r\n");
    assert_eq!(answer_message(Answer::Unavailable), "unavailable choice try again\r\n");
}

#[test]
fn the_prompt_shows_the_opponent_first() {
    let mut board = full_board();
    let mut you = PlayerState::new("you");
    let mut me = PlayerState::new("I");
    let mut out = String::new();
    you.push_prompt(&me, &board, &mut out);
    assert_eq!(out, "I: \r\nyou: \r\navailable: 1 2 3 4 5 6 7 8 9\r\nmove: ");
    assert!(me.claim(&mut board, 5));
    assert!(you.claim(&mut board, 9));
    assert!(me.claim(&mut board, 2));
    let mut out = String::from(">");
    you.push_prompt(&me, &board, &mut out);
    assert_eq!(out, ">I: 2 5\r\nyou: 9\r\navailable: 1 3 4 6 7 8\r\nmove: ");
}

#[test]
fn the_machine_takes_five_first() {
    let mut board = full_board();
    let mut me = PlayerState::new("I");
    assert_eq!(me.machine_move(&mut board), 5);
    assert_eq!(board.to_vec(), vec![1, 2, 3, 4, 6, 7, 8, 9]);
    assert_eq!(me.numbers.to_vec(), vec![5]);
    assert_eq!(me.name, "I");
}

#[test]
fn the_machine_takes_what_the_draw_selects() {
    let mut board = full_board();
    let mut me = PlayerState::new("I");
    assert_eq!(me.machine_move_with(&mut board, 7), 5);
    assert_eq!(me.machine_move_with(&mut board, 7), 8);
    assert_eq!(me.machine_move_with(&mut board, 7), 4);
    assert_eq!(me.machine_move_with(&mut board, 7), 6);
    assert_eq!(me.machine_move_with(&mut board, 7), 2);
    assert_eq!(me.machine_move_with(&mut board, 7), 9);
    assert_eq!(board.to_vec(), vec![1, 3, 7]);
    assert_eq!(me.numbers.to_vec(), vec![2, 4, 5, 6, 8, 9]);
}

#[test]
fn the_machine_moves_until_the_board_is_empty() {
    let mut board = full_board();
    let mut me = PlayerState::new("I");
    let mut taken = Vec::new();
    while !board.is_empty() {
        let before = board.to_vec();
        let c = me.machine_move(&mut board);
        assert!(before.contains(&c));
        assert!(!board.contains(c));
        taken.push(c);
    }
    assert_eq!(taken[0], 5);
    assert!(taken[1..5].iter().all(|c| [2, 4, 6, 8].contains(c)));
    assert!(taken[5..].iter().all(|c| [1, 3, 7, 9].contains(c)));
    assert_eq!(me.numbers.to_vec(), vec![1, 2, 3, 4, 5, 6, 7, 8, 9]);
}

#[test]
fn the_choice_of_the_machine_is_told() {
    let me = PlayerState::new("I");
    let mut out = String::new();
    me.push_choice(5, &mut out);
    assert_eq!(out, "I choose 5\r\n");
}

#[test]
fn human_wins_with_five_one_nine_when_moving_every_turn() {
    let mut board = full_board();
    let mut you = PlayerState::new("you");

    assert_eq!(you.human_move(&mut board, &line("5\r\n")), Answer::Claimed(5));
    let mut out = String::new();
    let phase = conclude(Player::Human, &you, &board, &mut out);
    assert_eq!(phase, Phase::AwaitingMove(Player::Machine));
    assert_eq!(out, "");

    assert_eq!(you.human_move(&mut board, &line("1\r\n")), Answer::Claimed(1));
    let mut out = String::new();
    let phase = conclude(Player::Human, &you, &board, &mut out);
    assert_eq!(phase, Phase::AwaitingMove(Player::Machine));
    assert_eq!(out, "");

    assert_eq!(you.human_move(&mut board, &line("9\r\n")), Answer::Claimed(9));
    let mut out = String::new();
    let phase = conclude(Player::Human, &you, &board, &mut out);
    assert_eq!(phase, Phase::Won(Player::Human));
    assert_eq!(out, "\r\n1 5 9\r\nyou win\r\n");
    assert_eq!(you.numbers.won().map(|w| w.to_vec()), Some(vec![1, 5, 9]));
    assert_eq!(board.to_vec(), vec![2, 3, 4, 6, 7, 8]);
}

#[test]
fn an_empty_board_without_a_win_is_a_draw() {
    let board = Numbers::new();
    let mut you = PlayerState::new("you");
    for d in [1, 2, 3, 6, 9] {
        you.numbers.insert(d);
    }
    let mut out = String::new();
    assert_eq!(conclude(Player::Human, &you, &board, &mut out), Phase::Draw);
    assert_eq!(out, "\r\ndraw\r\n");
}

#[test]
fn a_win_on_the_last_number_is_no_draw() {
    let board = Numbers::new();
    let mut me = PlayerState::new("I");
    for d in [1, 2, 3, 4, 8] {
        me.numbers.insert(d);
    }
    let mut out = String::new();
    assert_eq!(conclude(Player::Machine, &me, &board, &mut out), Phase::Won(Player::Machine));
    assert_eq!(out, "\r\n3 4 8\r\nI win\r\n");
}
