use net15::numbers::Numbers;

fn set_of(members: &[u64]) -> Numbers {
    let mut ns = Numbers::new();
    for &m in members {
        ns.insert(m);
    }
    ns
}

#[test]
fn new_set_is_empty() {
    let ns = Numbers::new();
    assert!(ns.is_empty());
    assert_eq!(ns.len(), 0);
    assert_eq!(ns.to_vec(), Vec::<u64>::new());
}

#[test]
fn numbers_are_listed_in_ascending_order() {
    let mut ns = Numbers::new();
    ns.insert(7);
    ns.insert(3);
    ns.insert(4);
    assert!(!ns.is_empty());
    assert_eq!(ns.len(), 3);
    assert_eq!(ns.to_vec(), vec![3, 4, 7]);
}

#[test]
fn insert_at_both_ends() {
    let mut ns = set_of(&[5]);
    ns.insert(0);
    ns.insert(u64::MAX);
    assert_eq!(ns.to_vec(), vec![0, 5, u64::MAX]);
}

#[test]
fn remove_reports_membership() {
    let mut ns = set_of(&[2, 9]);
    assert!(ns.remove(2));
    assert!(!ns.remove(2));
    assert!(!ns.remove(5));
    assert_eq!(ns.to_vec(), vec![9]);
    assert!(ns.contains(9));
    assert!(!ns.contains(2));
}

#[test]
fn remove_of_a_number_outside_the_pool_changes_nothing() {
    let mut board = set_of(&[1, 2, 3, 4, 5, 6, 7, 8, 9]);
    assert!(!board.remove(0));
    assert!(!board.remove(10));
    assert!(!board.remove(u64::MAX));
    assert_eq!(board.to_vec(), vec![1, 2, 3, 4, 5, 6, 7, 8, 9]);
}

#[test]
fn removed_number_can_be_inserted_again() {
    let mut ns = set_of(&[1, 2, 3]);
    assert!(ns.remove(2));
    ns.insert(2);
    assert_eq!(ns.to_vec(), vec![1, 2, 3]);
}

#[test]
fn without_leaves_the_set_untouched() {
    let ns = set_of(&[4, 6, 8]);
    let rest = ns.without(6);
    assert_eq!(rest.to_vec(), vec![4, 8]);
    assert_eq!(ns.without(5).to_vec(), vec![4, 6, 8]);
    assert_eq!(ns.to_vec(), vec![4, 6, 8]);
}

#[test]
fn clone_is_equal_and_independent() {
    let ns = set_of(&[1, 5]);
    let mut copy = ns.clone();
    assert_eq!(copy, ns);
    copy.insert(9);
    assert_ne!(copy, ns);
    assert_eq!(ns.to_vec(), vec![1, 5]);
}

#[test]
fn sets_are_equal_whatever_the_order_of_insertion() {
    assert_eq!(set_of(&[3, 1, 2]), set_of(&[2, 3, 1]));
}

#[test]
fn many_numbers_are_listed_in_ascending_order() {
    let mut ns = Numbers::new();
    let mut n: u64 = 12345;
    let mut expected = Vec::new();
    for _ in 0..300 {
        n = n.wrapping_mul(6364136223846793005).wrapping_add(1442695040888963407);
        if !ns.contains(n) {
            ns.insert(n);
            expected.push(n);
        }
    }
    expected.sort();
    assert_eq!(ns.to_vec(), expected);
    assert_eq!(ns.len(), expected.len());
}
