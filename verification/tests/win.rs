use net15::numbers::Numbers;

fn set_of(members: &[u64]) -> Numbers {
    let mut ns = Numbers::new();
    for &m in members {
        ns.insert(m);
    }
    ns
}

fn won(members: &[u64]) -> Option<Vec<u64>> {
    set_of(members).won().map(|w| w.to_vec())
}

/// Whether three different members sum to 15, by trying every triple.
fn holds_fifteen(members: &[u64]) -> bool {
    for i in 0..members.len() {
        for j in i + 1..members.len() {
            for k in j + 1..members.len() {
                if members[i] as u128 + members[j] as u128 + members[k] as u128 == 15 {
                    return true;
                }
            }
        }
    }
    false
}

#[test]
fn nobody_wins_with_fewer_than_three_numbers() {
    assert_eq!(won(&[]), None);
    assert_eq!(won(&[15]), None);
    assert_eq!(won(&[7, 8]), None);
}

#[test]
fn three_numbers_that_sum_to_fifteen_win() {
    assert_eq!(won(&[1, 5, 9]), Some(vec![1, 5, 9]));
    assert_eq!(won(&[9, 1, 5]), Some(vec![1, 5, 9]));
}

#[test]
fn three_numbers_that_miss_fifteen_do_not_win() {
    assert_eq!(won(&[1, 5, 8]), None);
    assert_eq!(won(&[4, 5, 7]), None);
}

#[test]
fn two_numbers_that_sum_to_fifteen_do_not_win() {
    assert_eq!(won(&[6, 9]), None);
    assert_eq!(won(&[6, 9, 1]), None);
}

#[test]
fn four_numbers_that_sum_to_fifteen_do_not_win() {
    assert_eq!(won(&[1, 2, 3, 9]), None);
}

#[test]
fn the_win_is_found_among_other_numbers() {
    assert_eq!(won(&[1, 2, 6, 7, 9]), Some(vec![2, 6, 7]));
    assert_eq!(won(&[3, 4, 7, 8]), Some(vec![3, 4, 8]));
}

#[test]
fn the_first_win_of_the_enumeration_is_reported() {
    assert_eq!(won(&[1, 2, 5, 8, 9]), Some(vec![2, 5, 8]));
    assert_eq!(won(&[1, 5, 6, 8, 9]), Some(vec![1, 6, 8]));
    assert_eq!(won(&[2, 4, 5, 8, 9]), Some(vec![2, 5, 8]));
    assert_eq!(won(&[3, 4, 5, 6, 8]), Some(vec![4, 5, 6]));
}

#[test]
fn won_agrees_with_the_first_winning_selection() {
    let ns = set_of(&[1, 5, 6, 8, 9]);
    let first = ns
        .choose_n(3)
        .into_iter()
        .map(|w| w.to_vec())
        .find(|w| w.iter().sum::<u64>() == 15);
    assert_eq!(ns.won().map(|w| w.to_vec()), first);
}

#[test]
fn won_iff_some_triple_sums_to_fifteen() {
    for mask in 0u32..512 {
        if mask.count_ones() > 5 {
            continue;
        }
        let members: Vec<u64> = (1..=9u64).filter(|d| mask & (1 << (d - 1)) != 0).collect();
        let reported = won(&members);
        assert_eq!(reported.is_some(), holds_fifteen(&members));
        if let Some(triple) = reported {
            assert_eq!(triple.len(), 3);
            assert_eq!(triple.iter().sum::<u64>(), 15);
            assert!(triple.iter().all(|d| members.contains(d)));
        }
    }
}

#[test]
fn the_winning_triples_of_the_digits_are_the_lines_of_the_magic_square() {
    let mut winning: Vec<Vec<u64>> = Vec::new();
    for a in 1..=9u64 {
        for b in a + 1..=9 {
            for c in b + 1..=9 {
                if let Some(triple) = won(&[a, b, c]) {
                    assert_eq!(triple, vec![a, b, c]);
                    winning.push(triple);
                }
            }
        }
    }
    let lines: Vec<Vec<u64>> = vec![
        vec![1, 5, 9],
        vec![1, 6, 8],
        vec![2, 4, 9],
        vec![2, 5, 8],
        vec![2, 6, 7],
        vec![3, 4, 8],
        vec![3, 5, 7],
        vec![4, 5, 6],
    ];
    assert_eq!(winning, lines);
}

#[test]
fn the_winning_selections_of_seven_digits_are_lines_of_the_magic_square() {
    let mut winning: Vec<Vec<u64>> = set_of(&[1, 2, 3, 4, 5, 6, 7])
        .choose_n(3)
        .into_iter()
        .map(|w| w.to_vec())
        .filter(|w| w.iter().sum::<u64>() == 15)
        .collect();
    winning.sort();
    winning.dedup();
    let lines: Vec<Vec<u64>> = vec![vec![2, 6, 7], vec![3, 5, 7], vec![4, 5, 6]];
    assert_eq!(winning, lines);
}

#[test]
fn large_numbers_neither_win_nor_overflow() {
    assert_eq!(won(&[1, u64::MAX - 1, u64::MAX]), None);
    assert_eq!(won(&[7, 8, u64::MAX]), None);
    assert_eq!(won(&[0, 15, u64::MAX]), None);
    assert_eq!(won(&[0, 1, 14]), Some(vec![0, 1, 14]));
}
