use num_bigint::BigUint;
use std::time::Duration;
use syracuse::{
    compose_summary, crop_biguint, csv_line, decimal_string, describe_results, format_results,
};

const SENTINEL: &str = "Too big... representation would take some time we don't have...";

fn two_to(exponent: u32) -> BigUint {
    BigUint::from(2u32).pow(exponent)
}

#[test]
fn short_numbers_come_back_whole() {
    assert_eq!(crop_biguint(&BigUint::from(0u32), 100), "0");
    assert_eq!(crop_biguint(&BigUint::from(7u32), 1), "7");
    assert_eq!(crop_biguint(&BigUint::from(999u32), 3), "999");
    assert_eq!(crop_biguint(&BigUint::from(999u32), usize::MAX), "999");
}

#[test]
fn numbers_below_the_cutoff_are_grouped() {
    assert_eq!(crop_biguint(&BigUint::from(1000u32), 100), "1\u{202f}000");
    assert_eq!(crop_biguint(&BigUint::from(1234567u32), 100), "1\u{202f}234\u{202f}567");
    assert_eq!(crop_biguint(&BigUint::from(123456u32), 7), "123\u{202f}456");
}

#[test]
fn long_texts_keep_their_last_characters() {
    let n = BigUint::from(1234567u32);
    assert_eq!(crop_biguint(&n, 3), "..567");
    assert_eq!(crop_biguint(&n, 5), "..4\u{202f}567");
    assert_eq!(crop_biguint(&n, 8), "..\u{202f}234\u{202f}567");
    assert_eq!(crop_biguint(&n, 9), "1\u{202f}234\u{202f}567");
    assert_eq!(crop_biguint(&n, 0), "..");
}

#[test]
fn a_cut_text_is_two_characters_longer_than_asked() {
    let n = two_to(200);
    let digits = n.to_str_radix(10);
    for size in [0usize, 1, 10, 60] {
        let cut = crop_biguint(&n, size);
        assert_eq!(cut.chars().count(), size + 2);
        assert!(cut.starts_with(".."));
        assert_eq!(&cut[2..], &digits[digits.len() - size..]);
    }
    assert_eq!(crop_biguint(&n, digits.len()), digits);
    assert_eq!(crop_biguint(&n, digits.len() + 1), digits);
}

#[test]
fn grouping_stops_at_two_to_the_169() {
    let below = two_to(169) - 1u32;
    let text = crop_biguint(&below, 1000);
    assert_eq!(text.replace('\u{202f}', ""), below.to_str_radix(10));
    assert_eq!(text.chars().filter(|c| *c == '\u{202f}').count(), 16);
    let at = two_to(169);
    assert_eq!(crop_biguint(&at, 1000), at.to_str_radix(10));
    assert_eq!(crop_biguint(&at, 1000), "748288838313422294120286634350736906063837462003712");
}

#[test]
fn numbers_above_the_threshold_give_the_sentinel() {
    let n = two_to(300_000);
    for size in [0usize, 1, 100, usize::MAX] {
        assert_eq!(crop_biguint(&n, size), SENTINEL);
    }
    assert_eq!(crop_biguint(&(two_to(250_000) + 1u32), 100), SENTINEL);
}

#[test]
fn the_threshold_itself_is_written_out() {
    let n = two_to(250_000);
    let digits = n.to_str_radix(10);
    let cut = crop_biguint(&n, 100);
    assert_eq!(cut.len(), 102);
    assert_eq!(&cut[2..], &digits[digits.len() - 100..]);
}

#[test]
fn decimal_digits_of_machine_integers() {
    assert_eq!(decimal_string(0), "0");
    assert_eq!(decimal_string(9), "9");
    assert_eq!(decimal_string(10), "10");
    assert_eq!(decimal_string(1234567890), "1234567890");
    assert_eq!(decimal_string(u128::MAX), u128::MAX.to_string());
}

#[test]
fn the_machine_line_has_three_fields() {
    assert_eq!(csv_line(41, 70, 1234), "41,70,1234");
    assert_eq!(csv_line(0, 0, 0), "0,0,0");
    assert_eq!(
        csv_line(u64::MAX, u64::MAX, u128::MAX),
        format!("{},{},{}", u64::MAX, u64::MAX, u128::MAX)
    );
}

#[test]
fn format_results_writes_whole_milliseconds() {
    assert_eq!(format_results((41, 70, Duration::from_micros(1_234_567))), "41,70,1234");
    assert_eq!(format_results((41, 70, Duration::from_micros(999))), "41,70,0");
    assert_eq!(format_results((1, 2, Duration::from_secs(3))), "1,2,3000");
}

#[test]
fn the_summary_has_two_lines() {
    assert_eq!(
        compose_summary("111", "41", "70", "1.23s"),
        "Iterations = 111 : * 41, / 70\nComputation time: 1.23s"
    );
}

#[test]
fn describe_results_groups_the_counters() {
    assert_eq!(
        describe_results((41, 70, Duration::from_millis(1234))),
        "Iterations = 111 : * 41, / 70\nComputation time: 1.23s"
    );
    assert_eq!(
        describe_results((1_000_000, 2_345_678, Duration::from_micros(1500))),
        "Iterations = 3\u{202f}345\u{202f}678 : * 1\u{202f}000\u{202f}000, / 2\u{202f}345\u{202f}678\nComputation time: 1.50ms"
    );
}

#[test]
fn describe_results_adds_without_overflow() {
    let text = describe_results((u64::MAX, u64::MAX, Duration::from_secs(0)));
    assert!(text.starts_with("Iterations = 36\u{202f}893\u{202f}488\u{202f}147\u{202f}419\u{202f}103\u{202f}230 : * 18\u{202f}446"));
}
