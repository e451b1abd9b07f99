use cellular_automata::rule::Value;

fn value_of(counts: &[usize]) -> Value {
    Value::from(counts.to_vec())
}

fn counts_of(value: &Value) -> Vec<usize> {
    (0..27usize).filter(|&count| *value.at(26 - count)).collect()
}

#[test]
fn empty_text_is_the_empty_set() {
    assert_eq!(Value::try_parse(""), Some(Value::default()));
    assert_eq!(counts_of(&Value::default()), Vec::<usize>::new());
}

#[test]
fn single_count_is_read() {
    let value = Value::try_parse("4").unwrap();
    assert_eq!(counts_of(&value), vec![4]);
}

#[test]
fn range_is_read_with_both_ends() {
    let value = Value::try_parse("4-7").unwrap();
    assert_eq!(counts_of(&value), vec![4, 5, 6, 7]);
}

#[test]
fn range_with_two_dots_is_read_with_both_ends() {
    let value = Value::try_parse("4..7").unwrap();
    assert_eq!(counts_of(&value), vec![4, 5, 6, 7]);
    assert_eq!(Value::try_parse("4..7"), Value::try_parse("4-7"));
    assert_eq!(Value::try_parse("0..0,25 .. 26"), Some(value_of(&[0, 25, 26])));
    assert_eq!(Value::try_parse("7..4"), None);
    assert_eq!(Value::try_parse("20..27"), None);
}

#[test]
fn single_count_equals_range_of_one() {
    assert_eq!(Value::try_parse("4"), Value::try_parse("4-4"));
    assert!(Value::try_parse("4").is_some());
}

#[test]
fn list_of_tokens_is_read() {
    let value = Value::try_parse("4,5,6-7").unwrap();
    assert_eq!(counts_of(&value), vec![4, 5, 6, 7]);
    let value = Value::try_parse("12,0-2,26").unwrap();
    assert_eq!(counts_of(&value), vec![0, 1, 2, 12, 26]);
}

#[test]
fn tokens_may_overlap_and_repeat() {
    let value = Value::try_parse("3-6,5-8,4,4").unwrap();
    assert_eq!(counts_of(&value), vec![3, 4, 5, 6, 7, 8]);
}

#[test]
fn white_space_around_tokens_and_dashes_is_skipped() {
    assert_eq!(Value::try_parse(" 4 , 6 - 9 "), Some(value_of(&[4, 6, 7, 8, 9])));
    assert_eq!(Value::try_parse("\t4\n,\u{a0}5\u{3000}"), Some(value_of(&[4, 5])));
    assert_eq!(Value::try_parse("4 -\u{2003}7"), Some(value_of(&[4, 5, 6, 7])));
}

#[test]
fn white_space_within_a_number_is_refused() {
    assert_eq!(Value::try_parse("1 2"), None);
    assert_eq!(Value::try_parse("+ 4"), None);
}

#[test]
fn plus_sign_and_leading_zeros_are_read() {
    assert_eq!(Value::try_parse("+4"), Some(value_of(&[4])));
    assert_eq!(Value::try_parse("007"), Some(value_of(&[7])));
    assert_eq!(Value::try_parse("+3-+5"), Some(value_of(&[3, 4, 5])));
    assert_eq!(Value::try_parse("000000000000000000000000000000000000026"), Some(value_of(&[26])));
}

#[test]
fn whole_domain_is_read() {
    let value = Value::try_parse("0-26").unwrap();
    assert_eq!(counts_of(&value), (0..27).collect::<Vec<usize>>());
}

#[test]
fn count_above_26_is_refused() {
    assert_eq!(Value::try_parse("27"), None);
    assert_eq!(Value::try_parse("4,27"), None);
    assert_eq!(Value::try_parse("25-27"), None);
    assert_eq!(Value::try_parse("30-2"), None);
    assert_eq!(Value::try_parse("99999999999999999999999999999999999999"), None);
}

#[test]
fn falling_range_is_refused() {
    assert_eq!(Value::try_parse("7-4"), None);
    assert_eq!(Value::try_parse("1,7-4"), None);
}

#[test]
fn malformed_tokens_are_refused() {
    assert_eq!(Value::try_parse(" "), None);
    assert_eq!(Value::try_parse(","), None);
    assert_eq!(Value::try_parse("4,"), None);
    assert_eq!(Value::try_parse(",4"), None);
    assert_eq!(Value::try_parse("4,,5"), None);
    assert_eq!(Value::try_parse("x"), None);
    assert_eq!(Value::try_parse("4x"), None);
    assert_eq!(Value::try_parse("-"), None);
    assert_eq!(Value::try_parse("-4"), None);
    assert_eq!(Value::try_parse("4-"), None);
    assert_eq!(Value::try_parse("4-5-6"), None);
    assert_eq!(Value::try_parse("4.7"), None);
    assert_eq!(Value::try_parse("4...7"), None);
    assert_eq!(Value::try_parse("4. .7"), None);
    assert_eq!(Value::try_parse("4..7..9"), None);
    assert_eq!(Value::try_parse("4..7-9"), None);
    assert_eq!(Value::try_parse("4-7..9"), None);
    assert_eq!(Value::try_parse("4.."), None);
    assert_eq!(Value::try_parse("..7"), None);
    assert_eq!(Value::try_parse(".."), None);
    assert_eq!(Value::try_parse("."), None);
    assert_eq!(Value::try_parse("+"), None);
    assert_eq!(Value::try_parse("++4"), None);
    assert_eq!(Value::try_parse("4_0"), None);
    assert_eq!(Value::try_parse("\u{664}"), None);
}

#[test]
fn one_bad_token_fails_the_whole_text() {
    assert_eq!(Value::try_parse("1,2,3,x"), None);
    assert_eq!(Value::try_parse("x,1,2,3"), None);
}

#[test]
fn text_of_the_empty_set_is_empty() {
    assert_eq!(Value::default().to_string(), "");
}

#[test]
fn text_of_single_counts() {
    assert_eq!(value_of(&[4]).to_string(), "4");
    assert_eq!(value_of(&[0]).to_string(), "0");
    assert_eq!(value_of(&[26]).to_string(), "26");
    assert_eq!(value_of(&[9, 11]).to_string(), "9,11");
}

#[test]
fn text_joins_runs_in_rising_order() {
    assert_eq!(value_of(&[7, 6, 5, 4]).to_string(), "4-7");
    assert_eq!(value_of(&[4, 6, 7]).to_string(), "4,6-7");
    assert_eq!(value_of(&[4, 5]).to_string(), "4-5");
    assert_eq!(value_of(&[0, 1, 2, 12, 25, 26]).to_string(), "0-2,12,25-26");
    assert_eq!(Value::try_parse("0-26").unwrap().to_string(), "0-26");
    assert_eq!(value_of(&[0, 2, 4, 6, 8, 10, 12, 14, 16, 18, 20, 22, 24, 26]).to_string(),
        "0,2,4,6,8,10,12,14,16,18,20,22,24,26");
}

#[test]
fn text_of_a_read_list_is_its_shortest_form() {
    assert_eq!(Value::try_parse("4,5,6-7").unwrap().to_string(), "4-7");
    assert_eq!(Value::try_parse(" 9 , 3 - 5 ").unwrap().to_string(), "3-5,9");
}

#[test]
fn reading_the_text_gives_the_value_back() {
    let texts = ["", "4", "4-7", "0", "26", "0-26", "1,3,5", "0-2,12,25-26", "9,10,11", "13,2-4,20-26"];
    for text in texts {
        let value = Value::try_parse(text).unwrap();
        assert_eq!(Value::try_parse(&value.to_string()), Some(value));
    }
}

#[test]
fn reading_the_text_gives_every_single_run_back() {
    for first in 0..27usize {
        for last in first..27usize {
            let value = value_of(&(first..=last).collect::<Vec<usize>>());
            let text = value.to_string();
            if first == last {
                assert_eq!(text, format!("{}", first));
            } else {
                assert_eq!(text, format!("{}-{}", first, last));
            }
            assert_eq!(Value::try_parse(&text), Some(value));
        }
    }
}

#[test]
fn reading_the_text_gives_scattered_values_back() {
    let mut seed: u32 = 0x2545_f491;
    for _ in 0..2000 {
        seed ^= seed << 13;
        seed ^= seed >> 17;
        seed ^= seed << 5;
        let counts: Vec<usize> = (0..27usize).filter(|&count| (seed >> count) & 1 == 1).collect();
        let value = value_of(&counts);
        assert_eq!(counts_of(&value), counts);
        assert_eq!(Value::try_parse(&value.to_string()), Some(value));
        assert_eq!(value.to_bitmask(), seed & 0x7ff_ffff);
    }
}

#[test]
fn slots_hold_the_counts_from_26_down() {
    let value = value_of(&[4]);
    assert!(*value.at(22));
    assert!(!*value.at(4));
    let value = value_of(&[0, 26]);
    assert!(*value.at(0));
    assert!(*value.at(26));
    assert!(!*value.at(13));
}

#[test]
fn slot_can_be_written() {
    let mut value = Value::default();
    *value.at_mut(22) = true;
    assert_eq!(value, value_of(&[4]));
    *value.at_mut(22) = false;
    assert_eq!(value, Value::default());
}

#[test]
fn bitmask_has_one_bit_for_each_count() {
    assert_eq!(Value::default().to_bitmask(), 0);
    assert_eq!(value_of(&[0]).to_bitmask(), 1);
    assert_eq!(value_of(&[4]).to_bitmask(), 16);
    assert_eq!(value_of(&[4, 5, 6, 7]).to_bitmask(), 0xf0);
    assert_eq!(value_of(&[26]).to_bitmask(), 1 << 26);
    assert_eq!(Value::try_parse("0-26").unwrap().to_bitmask(), 0x7ff_ffff);
}

#[test]
fn bitmask_puts_slot_0_in_the_highest_place() {
    let mut value = Value::default();
    *value.at_mut(0) = true;
    assert_eq!(value.to_bitmask(), 0x400_0000);
    let mut value = Value::default();
    *value.at_mut(26) = true;
    assert_eq!(value.to_bitmask(), 1);
    for slot in 0..27usize {
        let mut value = Value::default();
        *value.at_mut(slot) = true;
        assert_eq!(value.to_bitmask(), 1u32 << (26 - slot));
    }
}

#[test]
fn bitmask_does_not_depend_on_how_the_value_was_made() {
    let parsed = Value::try_parse("4-7").unwrap();
    let listed = value_of(&[7, 5, 4, 6, 4]);
    let mut written = Value::default();
    for slot in 19..23 {
        *written.at_mut(slot) = true;
    }
    assert_eq!(parsed.to_bitmask(), listed.to_bitmask());
    assert_eq!(parsed.to_bitmask(), written.to_bitmask());
    assert_eq!(parsed, listed);
    assert_eq!(parsed, written);
}

#[test]
fn different_values_have_different_bitmasks() {
    assert_ne!(value_of(&[4]).to_bitmask(), value_of(&[5]).to_bitmask());
    assert_ne!(value_of(&[4]).to_bitmask(), value_of(&[4, 5]).to_bitmask());
}

#[test]
fn conversion_to_u32_is_the_bitmask() {
    let value = value_of(&[1, 3]);
    assert_eq!(u32::from(value), 0b1010);
    let mask: u32 = value.into();
    assert_eq!(mask, value.to_bitmask());
}

#[test]
fn value_from_no_counts_is_empty() {
    assert_eq!(Value::from(Vec::new()), Value::default());
}
