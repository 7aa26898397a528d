//! Quantities and nutrient values as decimal numbers with three fractional
//! digits.

use vstd::prelude::*;
use crate::decimal::{
    all_digits, digit_char, digit_of, digit_value, digits_value, is_digit, lemma_digit_char,
    lemma_nat_text, nat_text, push_nat, read_digits,
};
use crate::text::{find_from, first_index, lemma_first_index_is, lemma_index_from, to_chars, to_text};

verus! {

/// A decimal number with three fractional digits, held as a count of
/// thousandths.
#[derive(Clone, Copy, Debug, PartialEq, Eq, Structural)]
pub struct Amount {
    pub millis: i32,
}

/// Thousandths denoted by the fractional digits `frac`: its first three
/// digits, with zeros for the missing ones. Further digits are not counted.
pub open spec fn frac_millis(frac: Seq<char>) -> nat {
    (if frac.len() > 0 { digit_value(frac[0]) * 100 } else { 0 })
    + (if frac.len() > 1 { digit_value(frac[1]) * 10 } else { 0 })
    + (if frac.len() > 2 { digit_value(frac[2]) } else { 0 })
}

/// The thousandths that `text` denotes as a decimal number, if it is one that
/// an `Amount` can hold.
///
/// A decimal number is an optional sign, `+` or `-`, then digits with at most
/// one `.` among them, and at least one digit in all. Fractional digits past
/// the third are dropped.
pub open spec fn parse_millis(text: Seq<char>) -> Option<int> {
    let negative = text.len() > 0 && text[0] == '-';
    let body = if text.len() > 0 && (text[0] == '-' || text[0] == '+') {
        text.skip(1)
    } else {
        text
    };
    let dot = first_index(body, '.');
    let whole = body.take(dot);
    let frac = if dot < body.len() {
        body.skip(dot + 1)
    } else {
        Seq::empty()
    };
    let magnitude = digits_value(whole) * 1000 + frac_millis(frac);
    let value = if negative {
        -magnitude
    } else {
        magnitude as int
    };
    if all_digits(whole) && all_digits(frac) && whole.len() + frac.len() > 0 && i32::MIN <= value
        <= i32::MAX {
        Some(value)
    } else {
        None
    }
}

/// The fractional part of a decimal number with `f` thousandths, `f` below
/// 1000: nothing for 0, else a `.` and the digits up to the last one that is
/// not 0.
pub open spec fn frac_text(f: nat) -> Seq<char> {
    let d1 = digit_char(f / 100);
    let d2 = digit_char((f / 10) % 10);
    let d3 = digit_char(f % 10);
    if f == 0 {
        Seq::empty()
    } else if f % 100 == 0 {
        seq!['.', d1]
    } else if f % 10 == 0 {
        seq!['.', d1, d2]
    } else {
        seq!['.', d1, d2, d3]
    }
}

/// The decimal number of `millis` thousandths: a `-` when it is negative, the
/// whole part without leading zeros, and the fractional part without
/// trailing zeros.
pub open spec fn millis_text(millis: int) -> Seq<char> {
    let magnitude = if millis < 0 {
        (-millis) as nat
    } else {
        millis as nat
    };
    let sign = if millis < 0 {
        seq!['-']
    } else {
        Seq::empty()
    };
    sign + nat_text(magnitude / 1000) + frac_text(magnitude % 1000)
}

/// Whether `s` is made of digits, `-` and `.` alone.
pub open spec fn is_number_text(s: Seq<char>) -> bool {
    forall|i: int| 0 <= i < s.len() ==> is_digit(#[trigger] s[i]) || s[i] == '-' || s[i] == '.'
}

/// The text of a number holds nothing but digits, `-` and `.`.
pub proof fn lemma_millis_text_chars(millis: int)
    ensures
        is_number_text(millis_text(millis)),
        millis_text(millis).len() > 0,
{
    let magnitude = if millis < 0 {
        (-millis) as nat
    } else {
        millis as nat
    };
    lemma_nat_text(magnitude / 1000);
    let f = magnitude % 1000;
    lemma_digit_char(f / 100);
    lemma_digit_char((f / 10) % 10);
    lemma_digit_char(f % 10);
}

/// Reading the text of a number gives the number back.
pub proof fn lemma_parse_millis_text(millis: int)
    requires
        i32::MIN <= millis <= i32::MAX,
    ensures
        parse_millis(millis_text(millis)) == Some(millis),
{
    let magnitude = if millis < 0 {
        (-millis) as nat
    } else {
        millis as nat
    };
    let w = magnitude / 1000;
    let f = magnitude % 1000;
    let text = millis_text(millis);
    let digits = nat_text(w);
    let body = digits + frac_text(f);
    lemma_nat_text(w);
    lemma_digit_char(f / 100);
    lemma_digit_char((f / 10) % 10);
    lemma_digit_char(f % 10);
    assert(is_digit(digits[0]));
    if millis < 0 {
        assert(text[0] == '-');
        assert(text.skip(1) =~= body);
    } else {
        assert(text =~= body);
        assert(text[0] == digits[0]);
    }
    let dot = digits.len() as int;
    assert forall|j: int| 0 <= j < dot implies #[trigger] body[j] != '.' by {
        assert(is_digit(digits[j]));
    }
    lemma_first_index_is(body, '.', dot);
    assert(body.take(dot) =~= digits);
    let frac = if dot < body.len() {
        body.skip(dot + 1)
    } else {
        Seq::empty()
    };
    assert(frac =~= if f == 0 {
        Seq::<char>::empty()
    } else {
        frac_text(f).skip(1)
    });
    assert(frac_millis(frac) == f);
}

/// Reads the fractional digits `s[from..]` as thousandths; `None` when one
/// of the characters is not a digit.
fn read_frac(s: &[char], from: usize) -> (r: Option<u64>)
    requires
        from <= s.len(),
    ensures
        r == if all_digits(s@.subrange(from as int, s.len() as int)) {
            Some(frac_millis(s@.subrange(from as int, s.len() as int)) as u64)
        } else {
            None
        },
        r matches Some(f) ==> f < 1000,
{
    let ghost frac = s@.subrange(from as int, s.len() as int);
    let mut i: usize = from;
    while i < s.len()
        invariant
            from <= i <= s.len(),
            frac == s@.subrange(from as int, s.len() as int),
            forall|j: int| 0 <= j < i - from ==> is_digit(#[trigger] frac[j]),
        decreases s.len() - i,
    {
        let c: char = s[i];
        if !('0' <= c && c <= '9') {
            assert(frac[i - from] == c);
            return None;
        }
        i += 1;
    }
    let n: usize = s.len() - from;
    let mut millis: u64 = 0;
    if n > 0 {
        assert(frac[0] == s[from as int] && is_digit(frac[0]));
        millis = millis + (s[from] as u32 - 48) as u64 * 100;
    }
    if n > 1 {
        assert(frac[1] == s[from + 1] && is_digit(frac[1]));
        millis = millis + (s[from + 1] as u32 - 48) as u64 * 10;
    }
    if n > 2 {
        assert(frac[2] == s[from + 2] && is_digit(frac[2]));
        millis = millis + (s[from + 2] as u32 - 48) as u64;
    }
    Some(millis)
}

impl Amount {
    /// The number of thousandths.
    pub open spec fn value(self) -> int {
        self.millis as int
    }

    /// The amount 0.
    pub fn zero() -> (a: Amount)
        ensures
            a.millis == 0,
    {
        Amount { millis: 0 }
    }

    /// The amount 1.
    pub fn one() -> (a: Amount)
        ensures
            a.millis == 1000,
    {
        Amount { millis: 1000 }
    }

    /// The amount of `millis` thousandths.
    pub fn from_millis(millis: i32) -> (a: Amount)
        ensures
            a.millis == millis,
    {
        Amount { millis }
    }

    /// Whether the amount is greater than 0.
    pub fn is_positive(&self) -> (r: bool)
        ensures
            r == (self.millis > 0),
    {
        self.millis > 0
    }

    /// Reads a decimal number from `s`.
    pub fn read(s: &[char]) -> (r: Option<Amount>)
        ensures
            r == match parse_millis(s@) {
                Some(v) => Some(Amount { millis: v as i32 }),
                None => None,
            },
    {
        let negative: bool = s.len() > 0 && s[0] == '-';
        let start: usize = if s.len() > 0 && (s[0] == '-' || s[0] == '+') {
            1
        } else {
            0
        };
        let ghost body = s@.subrange(start as int, s.len() as int);
        assert(body =~= if start == 1 {
            s@.skip(1)
        } else {
            s@
        });
        let dot: usize = find_from(s, '.', start);
        proof {
            lemma_index_from(s@, '.', start as int);
            lemma_first_index_is(body, '.', dot - start);
            assert(body.take(dot - start) =~= s@.subrange(start as int, dot as int));
        }
        let frac_start: usize = if dot < s.len() {
            dot + 1
        } else {
            dot
        };
        assert(s@.subrange(frac_start as int, s.len() as int) =~= if dot - start < body.len() {
            body.skip(dot - start + 1)
        } else {
            Seq::empty()
        });
        if (dot - start) + (s.len() - frac_start) == 0 {
            return None;
        }
        let whole: u64 = match read_digits(s, start, dot, 2147483) {
            Some(w) => w,
            None => {
                return None;
            },
        };
        let part: u64 = match read_frac(s, frac_start) {
            Some(f) => f,
            None => {
                return None;
            },
        };
        let magnitude: i64 = (whole * 1000 + part) as i64;
        let value: i64 = if negative {
            -magnitude
        } else {
            magnitude
        };
        if value < -2147483648 || value > 2147483647 {
            return None;
        }
        Some(Amount { millis: value as i32 })
    }

    /// Reads a decimal number from `text`.
    pub fn parse(text: &str) -> (r: Option<Amount>)
        ensures
            r == match parse_millis(text@) {
                Some(v) => Some(Amount { millis: v as i32 }),
                None => None,
            },
    {
        let chars = to_chars(text);
        Amount::read(chars.as_slice())
    }

    /// Reads a decimal number from `text`, with `fallback` for a text that
    /// is none.
    pub fn parse_or(text: &str, fallback: Amount) -> (a: Amount)
        ensures
            a == match parse_millis(text@) {
                Some(v) => Amount { millis: v as i32 },
                None => fallback,
            },
    {
        match Amount::parse(text) {
            Some(a) => a,
            None => fallback,
        }
    }

    /// Appends the decimal number of the amount to `out`.
    pub fn write(&self, out: &mut Vec<char>)
        ensures
            final(out)@ == old(out)@ + millis_text(self.value()),
    {
        let wide: i64 = self.millis as i64;
        let magnitude: u64 = if wide < 0 {
            (-wide) as u64
        } else {
            wide as u64
        };
        if wide < 0 {
            out.push('-');
        }
        push_nat(out, magnitude / 1000);
        let f: u64 = magnitude % 1000;
        if f != 0 {
            out.push('.');
            out.push(digit_of((f / 100) as u8));
            if f % 100 != 0 {
                out.push(digit_of(((f / 10) % 10) as u8));
                if f % 10 != 0 {
                    out.push(digit_of((f % 10) as u8));
                }
            }
        }
        assert(out@ =~= old(out)@ + millis_text(self.value()));
    }

    /// The decimal number of the amount.
    pub fn to_text(&self) -> (text: String)
        ensures
            text@ == millis_text(self.value()),
    {
        let mut out: Vec<char> = Vec::new();
        self.write(&mut out);
        to_text(out.as_slice())
    }
}

} // verus!
