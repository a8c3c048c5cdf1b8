//! Rule tables: the eight outcomes of an elementary automaton, one for each
//! state of a cell's three ancestors.

use vstd::arithmetic::power2::{lemma2_to64, pow2};
use vstd::prelude::*;

verus! {

/// The outcome for each triple of ancestors. Entry 0 answers the triple
/// (active, active, active), entry 7 the triple (inactive, inactive, inactive).
pub type Rule = [bool; 8];

/// Why a rule table could not be built.
#[derive(Clone, Copy, Debug, PartialEq, Eq, Structural)]
pub enum RuleError {
    /// The code does not lie between 0 and 255.
    OutOfRange,
}

/// Digit `index` of the eight binary digits of `code`, counted from the most
/// significant one.
pub open spec fn binary_digit(code: int, index: int) -> bool {
    (code / pow2((7 - index) as nat) as int) % 2 == 1
}

/// The eight binary digits of `code`, most significant first.
pub open spec fn binary_digits(code: int) -> Seq<bool> {
    Seq::new(8, |index: int| binary_digit(code, index))
}

/// The number that eight binary digits, most significant first, stand for.
pub open spec fn digits_value(digits: Seq<bool>) -> int {
    128 * weight(digits[0]) + 64 * weight(digits[1]) + 32 * weight(digits[2]) + 16 * weight(
        digits[3],
    ) + 8 * weight(digits[4]) + 4 * weight(digits[5]) + 2 * weight(digits[6]) + weight(digits[7])
}

/// One for an active cell, zero for an inactive one.
pub open spec fn weight(active: bool) -> int {
    if active {
        1
    } else {
        0
    }
}

/// The number that a triple of ancestors stands for when it is read as three
/// binary digits, the left ancestor being the most significant.
pub open spec fn triple_value(left: bool, center: bool, right: bool) -> int {
    4 * weight(left) + 2 * weight(center) + weight(right)
}

/// The next state of a cell whose ancestors are `left`, `center` and `right`.
pub open spec fn outcome(rule: Seq<bool>, left: bool, center: bool, right: bool) -> bool {
    rule[7 - triple_value(left, center, right)]
}

/// Builds the table of the rule numbered `rule`: its entries are the binary
/// digits of the number, most significant first.
pub fn rules_to_bools(rule: u8) -> (table: Rule)
    ensures
        table@ == binary_digits(rule as int),
{
    let table: Rule = [
        (rule / 128) % 2 == 1,
        (rule / 64) % 2 == 1,
        (rule / 32) % 2 == 1,
        (rule / 16) % 2 == 1,
        (rule / 8) % 2 == 1,
        (rule / 4) % 2 == 1,
        (rule / 2) % 2 == 1,
        rule % 2 == 1,
    ];
    proof {
        lemma2_to64();
        assert(table@[0] == binary_digit(rule as int, 0));
        assert(table@[1] == binary_digit(rule as int, 1));
        assert(table@[2] == binary_digit(rule as int, 2));
        assert(table@[3] == binary_digit(rule as int, 3));
        assert(table@[4] == binary_digit(rule as int, 4));
        assert(table@[5] == binary_digit(rule as int, 5));
        assert(table@[6] == binary_digit(rule as int, 6));
        assert(table@[7] == binary_digit(rule as int, 7)) by {
            assert(pow2(0) == 1);
            assert(rule as int / 1 == rule as int);
        }
        assert(table@ =~= binary_digits(rule as int));
    }
    table
}

/// Builds the table of the rule numbered `code`, or rejects a code outside
/// 0..=255.
pub fn build(code: i64) -> (result: Result<Rule, RuleError>)
    ensures
        0 <= code <= 255 <==> result is Ok,
        result matches Ok(table) ==> table@ == binary_digits(code as int),
        result matches Err(error) ==> error == RuleError::OutOfRange,
{
    if 0 <= code && code <= 255 {
        Ok(rules_to_bools(code as u8))
    } else {
        Err(RuleError::OutOfRange)
    }
}

/// Looks up the next state of a cell whose ancestors are `left`, `center`
/// and `right`.
pub fn apply(rule: &Rule, left: bool, center: bool, right: bool) -> (next: bool)
    ensures
        next == outcome(rule@, left, center, right),
{
    match (left, center, right) {
        (true, true, true) => rule[0],
        (true, true, false) => rule[1],
        (true, false, true) => rule[2],
        (true, false, false) => rule[3],
        (false, true, true) => rule[4],
        (false, true, false) => rule[5],
        (false, false, true) => rule[6],
        (false, false, false) => rule[7],
    }
}

/// The outcome for a triple of ancestors is the binary digit of the code whose
/// place is the number that the triple stands for: the units for three
/// inactive ancestors, the place of 128 for three active ones.
pub proof fn lemma_outcome_is_digit(code: int, left: bool, center: bool, right: bool)
    ensures
        outcome(binary_digits(code), left, center, right) == ((code / pow2(
            triple_value(left, center, right) as nat,
        ) as int) % 2 == 1),
{
    let place = triple_value(left, center, right);
    assert(binary_digits(code)[7 - place] == binary_digit(code, 7 - place));
}

/// A rule table determines its number: the digits of a code in 0..=255 stand
/// for that code again.
pub proof fn lemma_digits_value(code: int)
    requires
        0 <= code <= 255,
    ensures
        digits_value(binary_digits(code)) == code,
{
    lemma2_to64();
    let byte = code as u8;
    assert(128 * ((byte / 128) % 2) + 64 * ((byte / 64) % 2) + 32 * ((byte / 32) % 2) + 16 * ((byte
        / 16) % 2) + 8 * ((byte / 8) % 2) + 4 * ((byte / 4) % 2) + 2 * ((byte / 2) % 2) + (byte / 1)
        % 2 == byte) by (bit_vector);
    let digits = binary_digits(code);
    assert(weight(digits[0]) == (byte / 128) % 2);
    assert(weight(digits[1]) == (byte / 64) % 2);
    assert(weight(digits[2]) == (byte / 32) % 2);
    assert(weight(digits[3]) == (byte / 16) % 2);
    assert(weight(digits[4]) == (byte / 8) % 2);
    assert(weight(digits[5]) == (byte / 4) % 2);
    assert(weight(digits[6]) == (byte / 2) % 2);
    assert(weight(digits[7]) == (byte / 1) % 2);
}

/// Two different codes in 0..=255 never share a table.
pub proof fn lemma_digits_injective(first: int, second: int)
    requires
        0 <= first <= 255,
        0 <= second <= 255,
        binary_digits(first) == binary_digits(second),
    ensures
        first == second,
{
    lemma_digits_value(first);
    lemma_digits_value(second);
}

} // verus!
