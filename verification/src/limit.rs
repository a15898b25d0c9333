//! A bounded limit read from text.
//!
//! A limit is a number from 0 to `Limit::MAX`. Every route that builds one — the
//! constructor, decimal text, and a JSON number — takes the same check, and agrees on which
//! inputs it accepts.
use vstd::prelude::*;

use crate::framecodec::Delta;
use crate::text::{decimal, digit};

verus! {

/// The error `serde_json` gives for a text it does not read.
#[verifier::external_type_specification]
#[verifier::external_body]
pub struct ExJsonError(serde_json::Error);

/// The error std gives for a text that is not a number of the asked type.
#[verifier::external_type_specification]
#[verifier::external_body]
pub struct ExParseIntError(std::num::ParseIntError);

/// Reads `raw` as a JSON number into a `u8` with `serde_json::from_str`.
///
/// This claims what `serde_json`'s number parser and serde's `u8` visitor do with a text:
/// it is read exactly when `json_u8` gives a number, and then as that number.
#[verifier::external_body]
fn json_to_u8(raw: &str) -> (r: Result<u8, serde_json::Error>)
    ensures
        r is Ok <==> json_u8(raw@) is Some,
        r matches Ok(v) ==> json_u8(raw@) == Some(v),
{
    serde_json::from_str::<u8>(raw)
}

/// Whether `c` is a decimal digit.
pub open spec fn decimal_digit(c: char) -> bool {
    '0' <= c <= '9'
}

/// The value of the decimal digits `d`.
pub open spec fn digits_value(d: Seq<char>) -> int
    decreases d.len(),
{
    if d.len() == 0 {
        0
    } else {
        digits_value(d.drop_last()) * 10 + (d.last() as int - '0' as int)
    }
}

/// The number a decimal text denotes: an optional `+` followed by one or more decimal
/// digits, and nothing else; `None` for any other text.
pub open spec fn decimal_text(s: Seq<char>) -> Option<int> {
    let d = if s.len() > 0 && s[0] == '+' {
        s.drop_first()
    } else {
        s
    };
    if d.len() > 0 && forall|i: int| 0 <= i < d.len() ==> decimal_digit(#[trigger] d[i]) {
        Some(digits_value(d))
    } else {
        None
    }
}

/// Whether `c` is JSON whitespace: a space, a tab, a line feed or a carriage return.
pub open spec fn json_white(c: char) -> bool {
    c == ' ' || c == '\t' || c == '\n' || c == '\r'
}

/// `s` without the JSON whitespace it starts with.
pub open spec fn json_trim_start(s: Seq<char>) -> Seq<char>
    decreases s.len(),
{
    if s.len() > 0 && json_white(s[0]) {
        json_trim_start(s.drop_first())
    } else {
        s
    }
}

/// `s` without the JSON whitespace it ends with.
pub open spec fn json_trim_end(s: Seq<char>) -> Seq<char>
    decreases s.len(),
{
    if s.len() > 0 && json_white(s.last()) {
        json_trim_end(s.drop_last())
    } else {
        s
    }
}

/// The value of a JSON number without sign, fraction or exponent: `0`, or a nonzero digit
/// followed by digits. `None` for any other text, a leading zero before a digit among them.
pub open spec fn json_unsigned(d: Seq<char>) -> Option<int> {
    if d == seq!['0'] {
        Some(0)
    } else if d.len() > 0 && '1' <= d[0] <= '9' && forall|i: int|
        0 <= i < d.len() ==> decimal_digit(#[trigger] d[i]) {
        Some(digits_value(d))
    } else {
        None
    }
}

/// The number `serde_json` reads from a JSON text into a `u8`: JSON whitespace around a
/// JSON number without sign, fraction or exponent whose value is at most 255. A sign, a
/// fraction or an exponent (`-0`, `1.0`, `1e0`), a leading zero before another digit, and
/// any other character before or after the number make the text fail.
pub open spec fn json_u8(text: Seq<char>) -> Option<u8> {
    match json_unsigned(json_trim_end(json_trim_start(text))) {
        Some(v) => if v <= u8::MAX {
            Some(v as u8)
        } else {
            None
        },
        None => None,
    }
}

/// Reads `raw` as a decimal `u8` with `str::parse`.
///
/// This claims what the documentation of `u8::from_str_radix` says: the text is an
/// optional `+` followed by only digits, and the value fits in a `u8`.
#[verifier::external_body]
fn text_to_u8(raw: &str) -> (r: Result<u8, std::num::ParseIntError>)
    ensures
        r is Ok <==> (decimal_text(raw@) matches Some(v) && v <= u8::MAX),
        r matches Ok(v) ==> decimal_text(raw@) == Some(v as int),
{
    raw.parse::<u8>()
}

/// The limit the number `v` gives: `v` itself when it is at most `Limit::MAX`.
pub open spec fn limit_of_value(v: u8) -> Option<u8> {
    if v <= Limit::MAX {
        Some(v)
    } else {
        None
    }
}

/// The limit a decimal text gives: the number it denotes, when that is at most `Limit::MAX`.
pub open spec fn limit_of_decimal(raw: Seq<char>) -> Option<u8> {
    match decimal_text(raw) {
        Some(v) => if 0 <= v <= u8::MAX {
            limit_of_value(v as u8)
        } else {
            None
        },
        None => None,
    }
}

/// The limit a JSON text gives: the number `serde_json` reads from it, when that is at most
/// `Limit::MAX`.
pub open spec fn limit_of_json(raw: Seq<char>) -> Option<u8> {
    match json_u8(raw) {
        Some(v) => limit_of_value(v),
        None => None,
    }
}

/// A limit from 0 to `Limit::MAX`.
#[derive(Clone, Copy, Debug, PartialEq, Eq, Structural)]
pub struct Limit(u8);

impl View for Limit {
    type V = u8;

    closed spec fn view(&self) -> u8 {
        self.0
    }
}

/// Why a text did not give a limit.
#[derive(Debug)]
pub enum LimitError {
    /// The text is not a JSON number from 0 to 255.
    Json(serde_json::Error),
    /// The text is not a decimal number from 0 to 255.
    Number(std::num::ParseIntError),
    /// The number is above `Limit::MAX`.
    AboveMax(u8),
}

impl Limit {
    /// The largest limit.
    pub const MAX: u8 = 10;

    #[verifier::type_invariant]
    closed spec fn in_range(self) -> bool {
        self.0 <= Self::MAX
    }

    /// Returns the limit, or `None` above `Limit::MAX`.
    pub fn new(value: u8) -> (r: Option<Self>)
        ensures
            r is Some <==> value <= Self::MAX,
            r matches Some(l) ==> l@ == value,
            r is Some <==> limit_of_value(value) is Some,
            r matches Some(l) ==> limit_of_value(value) == Some(l@),
    {
        if value <= Self::MAX {
            Some(Limit(value))
        } else {
            None
        }
    }

    /// The limit as a number.
    pub fn get(self) -> (r: u8)
        ensures
            r == self@,
            r <= Self::MAX,
    {
        proof {
            use_type_invariant(&self);
        }
        self.0
    }

    /// The limit `value`, or why it is not one.
    pub fn checked(value: u8) -> (r: Result<Self, LimitError>)
        ensures
            r is Ok <==> value <= Self::MAX,
            r matches Ok(l) ==> l@ == value,
            r matches Err(e) ==> e matches LimitError::AboveMax(v) && v == value,
    {
        match Self::new(value) {
            Some(l) => Ok(l),
            None => Err(LimitError::AboveMax(value)),
        }
    }

    /// Reads a limit written in decimal.
    pub fn parse(raw: &str) -> (r: Result<Self, LimitError>)
        ensures
            match decimal_text(raw@) {
                Some(v) => if v <= Self::MAX {
                    r matches Ok(l) && l@ == v
                } else if v <= u8::MAX {
                    r matches Err(LimitError::AboveMax(w)) && w == v
                } else {
                    r matches Err(LimitError::Number(_))
                },
                None => r matches Err(LimitError::Number(_)),
            },
            r is Ok <==> limit_of_decimal(raw@) is Some,
            r matches Ok(l) ==> limit_of_decimal(raw@) == Some(l@),
    {
        match text_to_u8(raw) {
            Ok(value) => Self::checked(value),
            Err(e) => Err(LimitError::Number(e)),
        }
    }
}

impl std::str::FromStr for Limit {
    type Err = LimitError;

    fn from_str(raw: &str) -> (r: Result<Self, Self::Err>)
        ensures
            match decimal_text(raw@) {
                Some(v) => if v <= Limit::MAX {
                    r matches Ok(l) && l@ == v
                } else if v <= u8::MAX {
                    r matches Err(LimitError::AboveMax(w)) && w == v
                } else {
                    r matches Err(LimitError::Number(_))
                },
                None => r matches Err(LimitError::Number(_)),
            },
            r is Ok <==> limit_of_decimal(raw@) is Some,
            r matches Ok(l) ==> limit_of_decimal(raw@) == Some(l@),
    {
        Self::parse(raw)
    }
}

/// Reads a limit written as a JSON number.
pub fn decode(raw: &str) -> (r: Result<Limit, LimitError>)
    ensures
        match json_u8(raw@) {
            Some(v) => if v <= Limit::MAX {
                r matches Ok(l) && l@ == v
            } else {
                r matches Err(LimitError::AboveMax(w)) && w == v
            },
            None => r matches Err(LimitError::Json(_)),
        },
        r is Ok <==> limit_of_json(raw@) is Some,
        r matches Ok(l) ==> limit_of_json(raw@) == Some(l@),
{
    match json_to_u8(raw) {
        Ok(value) => Limit::checked(value),
        Err(e) => Err(LimitError::Json(e)),
    }
}

/// The opposite of `value`, or `None` when it does not fit: the opposite of `i32::MIN`.
pub fn negate(value: Delta) -> (r: Option<Delta>)
    ensures
        r == if value@ == i32::MIN {
            None
        } else {
            Some(Delta::from_value((-value@) as i32))
        },
{
    value.checked_invert()
}

/// The digit of `d` denotes `d`.
proof fn lemma_digit_value(d: int)
    requires
        0 <= d < 10,
    ensures
        decimal_digit(digit(d)),
        digit(d) as int - '0' as int == d,
        d > 0 ==> '1' <= digit(d),
{
}

/// The decimal numeral of `n` is digits, with no leading zero, and denotes `n`.
proof fn lemma_decimal_numeral(n: nat)
    ensures
        decimal(n).len() > 0,
        forall|i: int| 0 <= i < decimal(n).len() ==> decimal_digit(#[trigger] decimal(n)[i]),
        n == 0 ==> decimal(n) == seq!['0'],
        n > 0 ==> '1' <= decimal(n)[0] <= '9',
        digits_value(decimal(n)) == n,
    decreases n,
{
    lemma_digit_value((n % 10) as int);
    if n < 10 {
        assert(decimal(n).drop_last() == Seq::<char>::empty());
        assert(decimal(n).last() == digit(n as int));
        assert(digits_value(decimal(n)) == digits_value(decimal(n).drop_last()) * 10 + (
        decimal(n).last() as int - '0' as int));
    } else {
        let s = decimal(n / 10);
        let d = seq![digit((n % 10) as int)];
        lemma_decimal_numeral(n / 10);
        assert(decimal(n) == s + d);
        assert((s + d).drop_last() == s);
        assert(n == (n / 10) * 10 + n % 10);
        assert((s + d).last() == digit((n % 10) as int));
        assert(digits_value(s + d) == digits_value((s + d).drop_last()) * 10 + ((s + d).last() as int
            - '0' as int));
        assert forall|i: int| 0 <= i < decimal(n).len() implies decimal_digit(
            #[trigger] decimal(n)[i],
        ) by {
            if i < s.len() {
                assert(decimal(n)[i] == s[i]);
            }
        }
        assert(decimal(n)[0] == s[0]);
    }
}

/// Every route that builds a limit takes the same check. A text that the decimal route and
/// the JSON route both read as the number `v` gives, by either route, the limit that the
/// constructor gives for `v`, or none by both; and the decimal numeral of any `u8` is such a
/// text.
pub proof fn law_entry_paths_agree(raw: Seq<char>, v: u8)
    ensures
        decimal_text(raw) == Some(v as int) ==> limit_of_decimal(raw) == limit_of_value(v),
        json_u8(raw) == Some(v) ==> limit_of_json(raw) == limit_of_value(v),
        decimal_text(raw) == Some(v as int) && json_u8(raw) == Some(v) ==> limit_of_decimal(raw)
            == limit_of_json(raw),
        decimal_text(decimal(v as nat)) == Some(v as int),
        json_u8(decimal(v as nat)) == Some(v),
        limit_of_decimal(decimal(v as nat)) == limit_of_value(v),
        limit_of_json(decimal(v as nat)) == limit_of_value(v),
{
    let s = decimal(v as nat);
    lemma_decimal_numeral(v as nat);
    assert(!json_white(s[0]));
    assert(!json_white(s.last())) by {
        assert(decimal_digit(s[s.len() - 1]));
    }
    assert(json_trim_start(s) == s);
    assert(json_trim_end(s) == s);
    assert(s[0] != '+');
}

} // verus!
