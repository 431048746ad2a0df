//! The tuning knobs of the walk through the windows. Each is read from a
//! variable of the environment; the library is handed the text found there.

use vstd::prelude::*;
use crate::text::{digit_value, is_digit, to_chars};

verus! {

/// The variable that holds the number of database threads to use for one
/// query of the walk.
pub const ENV_NAME_CELLWALK_NUM_CLICKHOUSE_THREADS: &'static str =
    "BAMBOO_CELLWALK_NUM_CLICKHOUSE_THREADS";

pub const DEFAULT_CELLWALK_NUM_CLICKHOUSE_THREADS: u8 = 2;

/// The variable that holds the number of queries that load the data of
/// the windows to come at one time.
pub const ENV_NAME_CELLWALK_NUM_CONCURRENT_PRELOAD_QUERIES: &'static str =
    "BAMBOO_CELLWALK_NUM_CONCURRENT_PRELOAD_QUERIES";

pub const DEFAULT_CELLWALK_NUM_CONCURRENT_PRELOAD_QUERIES: u8 = 3;

/// The number that a run of decimal digits denotes.
pub open spec fn number_of(digits: Seq<char>) -> nat
    decreases digits.len(),
{
    if digits.len() == 0 {
        0
    } else {
        10 * number_of(digits.drop_last()) + digit_value(digits.last()) as nat
    }
}

/// Whether `s` is a run of decimal digits that is not empty.
pub open spec fn is_digits(s: Seq<char>) -> bool {
    s.len() >= 1 && forall|i: int| 0 <= i < s.len() ==> is_digit(#[trigger] s[i])
}

/// The digits of a number text: the text without a leading `+`.
pub open spec fn unsigned_part(s: Seq<char>) -> Seq<char> {
    if s.len() > 0 && s[0] == '+' {
        s.skip(1)
    } else {
        s
    }
}

/// The number up to 255 that `s` writes in decimal, with or without a
/// leading `+`; `None` where `s` writes none.
pub open spec fn parsed_u8(s: Seq<char>) -> Option<u8> {
    if is_digits(unsigned_part(s)) && number_of(unsigned_part(s)) <= 255 {
        Some(number_of(unsigned_part(s)) as u8)
    } else {
        None
    }
}

/// The value of a knob: the number that the text writes, but `min_value`
/// at least; the default where there is no text or it writes no number.
pub open spec fn knob_value(value: Option<Seq<char>>, default: u8, min_value: u8) -> u8 {
    match value {
        Some(s) => match parsed_u8(s) {
            Some(v) => if v < min_value {
                min_value
            } else {
                v
            },
            None => default,
        },
        None => default,
    }
}

/// The number of a run of digits does not fall when digits are added.
proof fn lemma_number_rises(digits: Seq<char>, n: int)
    requires
        0 <= n <= digits.len(),
        forall|i: int| 0 <= i < digits.len() ==> is_digit(#[trigger] digits[i]),
    ensures
        number_of(digits.take(n)) <= number_of(digits),
    decreases digits.len() - n,
{
    if n < digits.len() {
        assert(digits.take(n + 1).drop_last() =~= digits.take(n));
        assert(digits.take(n + 1).last() == digits[n]);
        lemma_number_rises(digits, n + 1);
    } else {
        assert(digits.take(n) =~= digits);
    }
}

/// Reads a number up to 255.
pub fn parse_u8(s: &str) -> (r: Option<u8>)
    ensures
        r == parsed_u8(s@),
{
    let v = to_chars(s);
    let start: usize = if v.len() > 0 && v[0] == '+' {
        1
    } else {
        0
    };
    let ghost digits = unsigned_part(v@);
    assert(digits =~= v@.skip(start as int));
    if start == v.len() {
        return None;
    }
    let mut value: u16 = 0;
    let mut i: usize = start;
    assert(digits.take(0) =~= Seq::<char>::empty());
    while i < v.len()
        invariant
            start <= i <= v.len(),
            start < v.len(),
            digits == v@.skip(start as int),
            digits == unsigned_part(s@),
            forall|j: int| 0 <= j < i - start ==> is_digit(#[trigger] digits[j]),
            value == number_of(digits.take(i - start)),
            value <= 255,
        decreases v.len() - i,
    {
        let c = v[i];
        assert(digits[i - start] == c);
        if !crate::table::is_digit_char(c) {
            return None;
        }
        assert(digits.take(i - start + 1).drop_last() =~= digits.take(i - start));
        assert(digits.take(i - start + 1).last() == c);
        value = value * 10 + crate::table::digit_of(c) as u16;
        i += 1;
        if value > 255 {
            proof {
                if is_digits(digits) {
                    lemma_number_rises(digits, i - start);
                }
            }
            return None;
        }
    }
    assert(digits.take(digits.len() as int) =~= digits);
    Some(value as u8)
}

/// The value of a knob, from the text found in its variable.
pub fn get_numeric_env_with_default_and_min(value: Option<&str>, default: u8, min_value: u8) -> (v:
    u8)
    ensures
        v == knob_value(
            match value {
                Some(s) => Some(s@),
                None => None,
            },
            default,
            min_value,
        ),
{
    match value {
        Some(text) => match parse_u8(text) {
            Some(v) => if v < min_value {
                min_value
            } else {
                v
            },
            None => default,
        },
        None => default,
    }
}

/// The number of database threads to use for one query of the walk: what
/// `BAMBOO_CELLWALK_NUM_CLICKHOUSE_THREADS` holds, 1 at least; 2 by default.
pub fn cellwalk_num_clickhouse_threads(value: Option<&str>) -> (n: u8)
    ensures
        n == knob_value(
            match value {
                Some(s) => Some(s@),
                None => None,
            },
            2,
            1,
        ),
        n >= 1,
{
    get_numeric_env_with_default_and_min(value, DEFAULT_CELLWALK_NUM_CLICKHOUSE_THREADS, 1)
}

/// The number of queries that load the data of the windows to come at
/// one time: what `BAMBOO_CELLWALK_NUM_CONCURRENT_PRELOAD_QUERIES` holds,
/// 1 at least; 3 by default.
pub fn cellwalk_num_concurrent_queries(value: Option<&str>) -> (n: u8)
    ensures
        n == knob_value(
            match value {
                Some(s) => Some(s@),
                None => None,
            },
            3,
            1,
        ),
        n >= 1,
{
    get_numeric_env_with_default_and_min(value, DEFAULT_CELLWALK_NUM_CONCURRENT_PRELOAD_QUERIES, 1)
}

} // verus!
