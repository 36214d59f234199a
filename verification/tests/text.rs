use net15::input::parse_choice;
use net15::numbers::Numbers;
use net15::text::push_decimal;

fn set_of(members: &[u64]) -> Numbers {
    let mut ns = Numbers::new();
    for &m in members {
        ns.insert(m);
    }
    ns
}

fn decimal(n: u64) -> String {
    let mut out = String::new();
    push_decimal(&mut out, n);
    out
}

#[test]
fn decimal_of_single_digits() {
    for (n, text) in ["0", "1", "2", "3", "4", "5", "6", "7", "8", "9"].iter().enumerate() {
        assert_eq!(decimal(n as u64), *text);
    }
}

#[test]
fn decimal_of_longer_numbers() {
    assert_eq!(decimal(10), "10");
    assert_eq!(decimal(15), "15");
    assert_eq!(decimal(109), "109");
    assert_eq!(decimal(1000), "1000");
    assert_eq!(decimal(u64::MAX), "18446744073709551615");
}

#[test]
fn decimal_agrees_with_the_standard_library() {
    let mut n: u64 = 1;
    for _ in 0..200 {
        assert_eq!(decimal(n), n.to_string());
        n = n.wrapping_mul(6364136223846793005).wrapping_add(1442695040888963407);
    }
}

#[test]
fn decimal_is_appended_to_what_is_there() {
    let mut out = String::from("I choose ");
    push_decimal(&mut out, 5);
    assert_eq!(out, "I choose 5");
}

#[test]
fn an_empty_set_renders_as_nothing() {
    assert_eq!(Numbers::new().render(), "");
}

#[test]
fn a_single_number_renders_without_spaces() {
    assert_eq!(set_of(&[7]).render(), "7");
}

#[test]
fn numbers_render_in_ascending_order_with_spaces() {
    assert_eq!(set_of(&[9, 1, 5]).render(), "1 5 9");
    assert_eq!(set_of(&[3, 2, 1, 6, 5, 4, 9, 8, 7]).render(), "1 2 3 4 5 6 7 8 9");
    assert_eq!(set_of(&[200, 3, 10]).render(), "3 10 200");
}

#[test]
fn a_digit_is_a_move() {
    assert_eq!(parse_choice("5"), Some(5));
    assert_eq!(parse_choice("0"), Some(0));
    assert_eq!(parse_choice("9"), Some(9));
}

#[test]
fn the_line_ending_does_not_count() {
    assert_eq!(parse_choice("5\r\n"), Some(5));
    assert_eq!(parse_choice("5\n"), Some(5));
    assert_eq!(parse_choice("  7 \t\r\n"), Some(7));
    assert_eq!(parse_choice("\u{a0}3\u{2003}\u{3000}"), Some(3));
}

#[test]
fn numbers_of_several_digits_are_read() {
    assert_eq!(parse_choice("12"), Some(12));
    assert_eq!(parse_choice("007"), Some(7));
    assert_eq!(parse_choice("+4"), Some(4));
    assert_eq!(parse_choice("18446744073709551615"), Some(u64::MAX));
    assert_eq!(parse_choice("00000000000000000000000000000000000000019"), Some(19));
}

#[test]
fn what_is_no_number_is_no_move() {
    assert_eq!(parse_choice("abc"), None);
    assert_eq!(parse_choice(""), None);
    assert_eq!(parse_choice("\r\n"), None);
    assert_eq!(parse_choice("   "), None);
    assert_eq!(parse_choice("-1"), None);
    assert_eq!(parse_choice("+"), None);
    assert_eq!(parse_choice("++1"), None);
    assert_eq!(parse_choice("+-1"), None);
    assert_eq!(parse_choice("1 2"), None);
    assert_eq!(parse_choice("5x"), None);
    assert_eq!(parse_choice("x5"), None);
    assert_eq!(parse_choice("5.0"), None);
    assert_eq!(parse_choice("0x5"), None);
    assert_eq!(parse_choice("\u{663}"), None);
    assert_eq!(parse_choice("\u{ff15}"), None);
    assert_eq!(parse_choice("5\u{200b}"), None);
}

#[test]
fn a_number_that_does_not_fit_is_no_move() {
    assert_eq!(parse_choice("18446744073709551616"), None);
    assert_eq!(parse_choice("18446744073709551620"), None);
    assert_eq!(parse_choice("99999999999999999999"), None);
    assert_eq!(parse_choice("184467440737095516150"), None);
    assert_eq!(parse_choice("18446744073709551616x"), None);
}

#[test]
fn parsing_agrees_with_the_standard_library() {
    let lines = [
        "5", " 5", "5 ", "\t5\r\n", "+5", "-5", "+ 5", "5+", "", " ", "+", "-", "٥", "５", "1e3",
        "1_000", "0", "00", "+0", "-0", "18446744073709551615", "18446744073709551616",
        "+18446744073709551615", "\u{85}8\u{85}", "\u{1680}8", "8\u{2028}", "8\u{2029}",
        "\u{202f}8\u{205f}", "\u{180e}8", "\u{feff}8", "\u{b}8\u{c}", "8\u{1c}", "a", "5a5",
        "\u{0}5", "5\u{0}",
    ];
    for line in lines {
        assert_eq!(parse_choice(line), line.trim().parse::<u64>().ok(), "line {:?}", line);
    }
}

/// Every character of the basic plane, and every 17th beyond it.
fn sample_of_characters() -> Vec<char> {
    let basic = 0..=0xFFFFu32;
    let beyond = (0x10000..=0x10FFFFu32).step_by(17);
    basic.chain(beyond).filter_map(char::from_u32).collect()
}

#[test]
fn characters_are_trimmed_or_kept_as_the_standard_library_does() {
    for c in sample_of_characters() {
        let line = format!("{}5{}", c, c);
        assert_eq!(parse_choice(&line), line.trim().parse::<u64>().ok(), "{:?}", c);
    }
}

#[test]
fn single_characters_are_read_as_the_standard_library_does() {
    for c in sample_of_characters() {
        let line = c.to_string();
        assert_eq!(parse_choice(&line), line.parse::<u64>().ok(), "{:?}", c);
    }
}

#[test]
fn a_number_written_in_decimal_is_read_back() {
    let mut n: u64 = 7;
    for _ in 0..500 {
        assert_eq!(parse_choice(&decimal(n)), Some(n));
        assert_eq!(parse_choice(&format!(" {}\r\n", decimal(n))), Some(n));
        n = n.wrapping_mul(6364136223846793005).wrapping_add(1442695040888963407);
    }
    for n in [0, 9, 10, u64::MAX] {
        assert_eq!(parse_choice(&decimal(n)), Some(n));
    }
}
