use stobot::registry::{render_channels, Registry};
use stobot::text::{chars_of, parse_digits, parse_unsigned, push_decimal};

#[test]
fn parse_unsigned_reads_plain_numerals() {
    assert_eq!(parse_unsigned("100"), Some(100));
    assert_eq!(parse_unsigned("0"), Some(0));
    assert_eq!(parse_unsigned("007"), Some(7));
}

#[test]
fn parse_unsigned_takes_one_plus_sign() {
    assert_eq!(parse_unsigned("+5"), Some(5));
    assert_eq!(parse_unsigned("++5"), None);
    assert_eq!(parse_unsigned("+"), None);
    assert_eq!(parse_unsigned("-5"), None);
}

#[test]
fn parse_unsigned_refuses_what_is_no_numeral() {
    assert_eq!(parse_unsigned(""), None);
    assert_eq!(parse_unsigned("notanumber"), None);
    assert_eq!(parse_unsigned(" 1"), None);
    assert_eq!(parse_unsigned("1 "), None);
    assert_eq!(parse_unsigned("12a"), None);
    assert_eq!(parse_unsigned("١٢"), None);
}

#[test]
fn parse_unsigned_stops_at_the_largest_number() {
    assert_eq!(parse_unsigned("18446744073709551615"), Some(u64::MAX));
    assert_eq!(parse_unsigned("18446744073709551616"), None);
    assert_eq!(parse_unsigned("99999999999999999999999"), None);
    assert_eq!(parse_unsigned("00000000000000000000000001"), Some(1));
}

#[test]
fn parse_unsigned_agrees_with_std() {
    for text in ["0", "1", "+17", "4096", "x", "", "+", "18446744073709551615", "1e3", "0x10"] {
        assert_eq!(parse_unsigned(text), text.parse::<u64>().ok());
    }
}

#[test]
fn parse_digits_reads_a_part_of_the_text() {
    let chars = chars_of("ab123cd");
    assert_eq!(parse_digits(&chars, 2, 5), Some(123));
    assert_eq!(parse_digits(&chars, 2, 2), None);
    assert_eq!(parse_digits(&chars, 1, 5), None);
    assert_eq!(parse_digits(&chars, 4, 5), Some(3));
}

#[test]
fn chars_of_gives_every_character() {
    assert_eq!(chars_of("aé漢"), vec!['a', 'é', '漢']);
    assert_eq!(chars_of(""), Vec::<char>::new());
}

#[test]
fn push_decimal_writes_the_shortest_numeral() {
    for n in [0u64, 7, 10, 99, 100, 12345, u64::MAX] {
        let mut out = String::from("id ");
        push_decimal(&mut out, n);
        assert_eq!(out, format!("id {}", n));
    }
}

#[test]
fn registry_starts_empty() {
    let registry = Registry::new();
    assert_eq!(registry.len(), 0);
    assert_eq!(registry.snapshot(), Vec::<u64>::new());
    assert_eq!(registry.file_text(), "");
}

#[test]
fn registry_add_is_idempotent() {
    let mut registry = Registry::new();
    assert!(registry.add(42));
    assert!(!registry.add(42));
    assert_eq!(registry.len(), 1);
    assert_eq!(registry.snapshot(), vec![42]);
    assert_eq!(registry.file_text(), "42\n");
    assert_eq!(registry.file_text().lines().count(), 1);
}

#[test]
fn registry_keeps_the_order_of_registration() {
    let mut registry = Registry::new();
    registry.add(30);
    registry.add(10);
    registry.add(20);
    registry.add(10);
    assert_eq!(registry.snapshot(), vec![30, 10, 20]);
    assert_eq!(registry.file_text(), "30\n10\n20\n");
}

#[test]
fn registry_remove_takes_out_one_channel() {
    let mut registry = Registry::new();
    registry.add(1);
    registry.add(2);
    registry.add(3);
    assert!(registry.remove(2));
    assert!(!registry.remove(2));
    assert!(!registry.remove(99));
    assert_eq!(registry.snapshot(), vec![1, 3]);
    assert!(registry.contains(1));
    assert!(!registry.contains(2));
    assert_eq!(registry.file_text(), "1\n3\n");
}

#[test]
fn registry_snapshot_is_a_copy() {
    let mut registry = Registry::new();
    registry.add(5);
    let before = registry.snapshot();
    registry.add(6);
    registry.remove(5);
    assert_eq!(before, vec![5]);
    assert_eq!(registry.snapshot(), vec![6]);
}

#[test]
fn registry_load_skips_malformed_lines() {
    let registry = Registry::load("100\n200\nnotanumber\n300");
    assert_eq!(registry.snapshot(), vec![100, 200, 300]);
    assert_eq!(registry.len(), 3);
}

#[test]
fn registry_load_of_nothing_is_empty() {
    assert_eq!(Registry::load("").snapshot(), Vec::<u64>::new());
    assert_eq!(Registry::load("\n\n\n").snapshot(), Vec::<u64>::new());
}

#[test]
fn registry_load_drops_repeated_lines() {
    let registry = Registry::load("7\n8\n7\n+7\n8\n");
    assert_eq!(registry.snapshot(), vec![7, 8]);
}

#[test]
fn registry_load_reads_lines_that_end_in_cr_lf() {
    assert_eq!(Registry::load("1\r\n2\r\n3").snapshot(), vec![1, 2, 3]);
    assert_eq!(Registry::load("1\r").snapshot(), Vec::<u64>::new());
    assert_eq!(Registry::load("1\r\r\n2\n").snapshot(), vec![2]);
}

#[test]
fn registry_load_takes_no_blanks_or_signs() {
    let registry = Registry::load(" 1\n2 \n-3\n4.0\n5\n99999999999999999999\n");
    assert_eq!(registry.snapshot(), vec![5]);
}

#[test]
fn registry_file_restores_the_registry() {
    let mut registry = Registry::new();
    for id in [u64::MAX, 0, 17, 1234567890123] {
        registry.add(id);
    }
    let file = registry.file_text();
    assert_eq!(file, "18446744073709551615\n0\n17\n1234567890123\n");
    assert_eq!(Registry::load(&file).snapshot(), registry.snapshot());
}

#[test]
fn registry_add_lines_joins_a_file_to_what_is_there() {
    let mut registry = Registry::new();
    registry.add(2);
    registry.add_lines("1\n2\n3\n");
    assert_eq!(registry.snapshot(), vec![2, 1, 3]);
}

#[test]
fn registry_duplicate_is_independent() {
    let mut registry = Registry::new();
    registry.add(1);
    let mut copy = registry.duplicate();
    copy.add(2);
    assert_eq!(registry.snapshot(), vec![1]);
    assert_eq!(copy.snapshot(), vec![1, 2]);
}

#[test]
fn render_channels_writes_one_line_each() {
    assert_eq!(render_channels(&vec![]), "");
    assert_eq!(render_channels(&vec![3, 1, 2]), "3\n1\n2\n");
}
