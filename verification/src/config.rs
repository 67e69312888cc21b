//! Process configuration: where to listen and how large a batch may be
//! before it is remarked upon.

use vstd::prelude::*;
use vstd::string::*;
use crate::text::{digit_value, is_digit, numeral_value};

verus! {

/// The batch size limit that holds where none is configured.
pub const DEFAULT_MAX_BATCH_SAMPLES: usize = 2000;

/// The address that is listened on where none is configured.
pub open spec fn default_bind_addr() -> Seq<char> {
    "127.0.0.1:50051"@
}

/// Settings of the ingest process.
#[derive(Clone, Debug)]
pub struct Config {
    pub bind_addr: String,
    pub max_batch_samples: usize,
}

/// The part of a count's text that must be digits: all of it, or what
/// follows one leading plus sign.
pub open spec fn digits_of(s: Seq<char>) -> Seq<char> {
    if s.len() > 0 && s[0] == '+' {
        s.subrange(1, s.len() as int)
    } else {
        s
    }
}

/// True when every character is an ASCII digit.
pub open spec fn all_digits(s: Seq<char>) -> bool {
    forall|i: int| 0 <= i < s.len() ==> is_digit(#[trigger] s[i])
}

/// The count that a text writes: decimal digits, at least one, after at
/// most one plus sign, and nothing else; `None` for any other text and for
/// a number that does not fit.
pub open spec fn parse_count(s: Seq<char>) -> Option<usize> {
    let digits = digits_of(s);
    if digits.len() > 0 && all_digits(digits) && numeral_value(digits) <= usize::MAX {
        Some(numeral_value(digits) as usize)
    } else {
        None
    }
}

/// A numeral is worth no less than any of its beginnings.
pub proof fn lemma_numeral_value_grows(digits: Seq<char>, k: int)
    requires
        0 <= k <= digits.len(),
    ensures
        numeral_value(digits.take(k)) <= numeral_value(digits),
    decreases digits.len(),
{
    if k == digits.len() {
        assert(digits.take(k) =~= digits);
    } else {
        lemma_numeral_value_grows(digits.drop_last(), k);
        assert(digits.drop_last().take(k) =~= digits.take(k));
    }
}

/// Reads a count.
pub fn parse_usize(s: &str) -> (r: Option<usize>)
    ensures
        r == parse_count(s@),
{
    let ghost digits = digits_of(s@);
    if !s.is_ascii() {
        proof {
            let i = choose|i: int| 0 <= i < s@.len() && !('\0' <= #[trigger] s@[i] <= '\u{7f}');
            if digits.len() == s@.len() {
                assert(!is_digit(digits[i]));
            } else {
                assert(!is_digit(digits[i - 1]));
            }
        }
        return None;
    }
    let n = s.unicode_len();
    let start: usize = if n > 0 && s.get_ascii(0) == 43 {
        1
    } else {
        0
    };
    if start == n {
        return None;
    }
    let mut value: usize = 0;
    let mut i: usize = start;
    while i < n
        invariant
            start <= i <= n,
            n == s@.len(),
            s.is_ascii(),
            digits == digits_of(s@),
            digits == s@.subrange(start as int, n as int),
            all_digits(digits.take(i - start)),
            value == numeral_value(digits.take(i - start)),
        decreases n - i,
    {
        let b = s.get_ascii(i);
        let ghost k = i - start;
        proof {
            assert(digits.take(k + 1).drop_last() =~= digits.take(k));
            lemma_numeral_value_grows(digits, k + 1);
        }
        if b < 48 || b > 57 {
            return None;
        }
        let next = match value.checked_mul(10) {
            Some(tens) => tens.checked_add((b - 48) as usize),
            None => None,
        };
        match next {
            Some(v) => {
                value = v;
            },
            None => {
                return None;
            },
        }
        i = i + 1;
    }
    assert(digits.take(n - start) =~= digits);
    Some(value)
}

impl Config {
    /// The configuration for the given settings, each as the text that was
    /// found for it, if any was. A setting that is absent takes its
    /// default, and so does a batch size limit that is no count.
    pub fn from_env(bind_addr: Option<String>, max_batch_samples: Option<String>) -> (r: Self)
        ensures
            r.bind_addr@ == match bind_addr {
                Some(a) => a@,
                None => default_bind_addr(),
            },
            r.max_batch_samples == match max_batch_samples {
                Some(m) => match parse_count(m@) {
                    Some(n) => n,
                    None => DEFAULT_MAX_BATCH_SAMPLES,
                },
                None => DEFAULT_MAX_BATCH_SAMPLES,
            },
    {
        let bind_addr = match bind_addr {
            Some(a) => a,
            None => String::from_str("127.0.0.1:50051"),
        };
        let max_batch_samples = match max_batch_samples {
            Some(m) => match parse_usize(m.as_str()) {
                Some(n) => n,
                None => DEFAULT_MAX_BATCH_SAMPLES,
            },
            None => DEFAULT_MAX_BATCH_SAMPLES,
        };
        Config { bind_addr, max_batch_samples }
    }
}

} // verus!
