use cellular_automaton::rule::{apply, build, rules_to_bools, RuleError};

#[test]
fn table_of_rule_30() {
    assert_eq!(
        rules_to_bools(30),
        [false, false, false, true, true, true, true, false]
    );
}

#[test]
fn table_of_rule_102() {
    assert_eq!(
        rules_to_bools(102),
        [false, true, true, false, false, true, true, false]
    );
}

#[test]
fn table_of_rule_0_is_all_inactive() {
    assert_eq!(rules_to_bools(0), [false; 8]);
}

#[test]
fn table_of_rule_255_is_all_active() {
    assert_eq!(rules_to_bools(255), [true; 8]);
}

#[test]
fn table_of_rule_1_has_only_the_last_entry() {
    assert_eq!(
        rules_to_bools(1),
        [false, false, false, false, false, false, false, true]
    );
}

#[test]
fn table_of_rule_128_has_only_the_first_entry() {
    assert_eq!(
        rules_to_bools(128),
        [true, false, false, false, false, false, false, false]
    );
}

#[test]
fn every_table_spells_its_code_in_binary() {
    for code in 0..=255u8 {
        let digits = format!("{:08b}", code);
        let expected: Vec<bool> = digits.chars().map(|digit| digit == '1').collect();
        assert_eq!(rules_to_bools(code).to_vec(), expected, "rule {}", code);
    }
}

#[test]
fn every_table_gives_its_code_back() {
    for code in 0..=255u8 {
        let table = rules_to_bools(code);
        let mut value: u32 = 0;
        for entry in table {
            value = value * 2 + u32::from(entry);
        }
        assert_eq!(value, u32::from(code));
    }
}

#[test]
fn build_accepts_the_whole_range() {
    assert_eq!(build(0), Ok([false; 8]));
    assert_eq!(build(255), Ok([true; 8]));
    for code in 0..=255i64 {
        assert_eq!(build(code), Ok(rules_to_bools(code as u8)));
    }
}

#[test]
fn build_rejects_codes_out_of_range() {
    assert_eq!(build(256), Err(RuleError::OutOfRange));
    assert_eq!(build(-1), Err(RuleError::OutOfRange));
    assert_eq!(build(i64::MAX), Err(RuleError::OutOfRange));
    assert_eq!(build(i64::MIN), Err(RuleError::OutOfRange));
    // 286 is 30 modulo 256: it must not be taken for rule 30.
    assert_eq!(build(286), Err(RuleError::OutOfRange));
}

#[test]
fn apply_reads_the_entry_of_the_triple() {
    let rule = rules_to_bools(0b1010_0110);
    assert_eq!(apply(&rule, true, true, true), true);
    assert_eq!(apply(&rule, true, true, false), false);
    assert_eq!(apply(&rule, true, false, true), true);
    assert_eq!(apply(&rule, true, false, false), false);
    assert_eq!(apply(&rule, false, true, true), false);
    assert_eq!(apply(&rule, false, true, false), true);
    assert_eq!(apply(&rule, false, false, true), true);
    assert_eq!(apply(&rule, false, false, false), false);
}

#[test]
fn rule_102_activates_a_cell_below_a_lone_active_cell() {
    let rule = rules_to_bools(102);
    assert!(rule[5]);
    assert!(apply(&rule, false, true, false));
}
