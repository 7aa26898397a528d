//! Decimal digits: the value of a digit string and the digit string of a
//! natural number.

use vstd::prelude::*;

verus! {

/// Whether `c` is one of the ten ASCII digits.
pub open spec fn is_digit(c: char) -> bool {
    '0' <= c && c <= '9'
}

/// The number a digit stands for; 0 for any other character.
pub open spec fn digit_value(c: char) -> nat {
    if is_digit(c) {
        (c as u32 - 48) as nat
    } else {
        0
    }
}

/// The digit that stands for `d`, for `d` below ten.
pub open spec fn digit_char(d: nat) -> char {
    (d + 48) as u8 as char
}

/// Whether every character of `s` is a digit.
pub open spec fn all_digits(s: Seq<char>) -> bool {
    forall|i: int| 0 <= i < s.len() ==> is_digit(#[trigger] s[i])
}

/// The number that a digit string denotes in base ten; the empty string
/// denotes 0.
pub open spec fn digits_value(s: Seq<char>) -> nat
    decreases s.len(),
{
    if s.len() == 0 {
        0
    } else {
        digits_value(s.drop_last()) * 10 + digit_value(s.last())
    }
}

/// The shortest digit string that denotes `n`.
pub open spec fn nat_text(n: nat) -> Seq<char>
    decreases n,
{
    if n < 10 {
        seq![digit_char(n)]
    } else {
        nat_text(n / 10).push(digit_char(n % 10))
    }
}

pub proof fn lemma_digit_char(d: nat)
    requires
        d < 10,
    ensures
        is_digit(digit_char(d)),
        digit_value(digit_char(d)) == d,
{
}

/// A digit string denotes at least what any of its prefixes denotes.
pub proof fn lemma_digits_value_prefix(s: Seq<char>, k: int)
    requires
        0 <= k <= s.len(),
    ensures
        digits_value(s.take(k)) <= digits_value(s),
    decreases s.len() - k,
{
    if k == s.len() {
        assert(s.take(k) =~= s);
    } else {
        lemma_digits_value_prefix(s, k + 1);
        assert(s.take(k + 1).drop_last() =~= s.take(k));
    }
}

/// The digit string of `n` is made of digits, is not empty, and denotes `n`.
pub proof fn lemma_nat_text(n: nat)
    ensures
        nat_text(n).len() > 0,
        all_digits(nat_text(n)),
        digits_value(nat_text(n)) == n,
    decreases n,
{
    if n < 10 {
        lemma_digit_char(n);
        let s = nat_text(n);
        assert(s.drop_last() =~= Seq::<char>::empty());
        assert(digits_value(s) == digits_value(s.drop_last()) * 10 + digit_value(s.last()));
    } else {
        lemma_nat_text(n / 10);
        lemma_digit_char(n % 10);
        let s = nat_text(n);
        assert(s.drop_last() =~= nat_text(n / 10));
        assert(digits_value(s) == digits_value(s.drop_last()) * 10 + digit_value(s.last()));
    }
}

/// The digit of `d`.
pub fn digit_of(d: u8) -> (c: char)
    requires
        d < 10,
    ensures
        c == digit_char(d as nat),
{
    (d + 48) as char
}

/// Appends the digit string of `n` to `out`.
pub fn push_nat(out: &mut Vec<char>, n: u64)
    ensures
        final(out)@ == old(out)@ + nat_text(n as nat),
    decreases n,
{
    if n >= 10 {
        push_nat(out, n / 10);
    }
    out.push(digit_of((n % 10) as u8));
    proof {
        if n >= 10 {
            assert(final(out)@ =~= old(out)@ + nat_text(n as nat));
        } else {
            assert(final(out)@ =~= old(out)@ + nat_text(n as nat));
        }
    }
}

/// Reads the digits `s[from..to]` as a number no greater than `cap`.
///
/// The result is `None` when a character in the range is not a digit or the
/// number is greater than `cap`.
pub fn read_digits(s: &[char], from: usize, to: usize, cap: u64) -> (r: Option<u64>)
    requires
        from <= to <= s.len(),
    ensures
        r == if all_digits(s@.subrange(from as int, to as int)) && digits_value(
            s@.subrange(from as int, to as int),
        ) <= cap {
            Some(digits_value(s@.subrange(from as int, to as int)) as u64)
        } else {
            None
        },
{
    let ghost range = s@.subrange(from as int, to as int);
    let mut acc: u64 = 0;
    let mut i: usize = from;
    while i < to
        invariant
            from <= i <= to <= s.len(),
            range == s@.subrange(from as int, to as int),
            all_digits(range.take(i - from)),
            acc == digits_value(range.take(i - from)),
            acc <= cap,
        decreases to - i,
    {
        let c: char = s[i];
        proof {
            assert(range.take(i - from + 1).drop_last() =~= range.take(i - from));
            assert(range.take(i - from + 1).last() == c);
            lemma_digits_value_prefix(range, i - from + 1);
        }
        if !('0' <= c && c <= '9') {
            assert(range[i - from] == c);
            return None;
        }
        let next: u128 = acc as u128 * 10 + (c as u32 - 48) as u128;
        if next > cap as u128 {
            return None;
        }
        acc = next as u64;
        i += 1;
        proof {
            assert forall|j: int| 0 <= j < range.take(i - from).len() implies is_digit(
                #[trigger] range.take(i - from)[j],
            ) by {
                if j < i - from - 1 {
                    assert(range.take(i - from - 1)[j] == range.take(i - from)[j]);
                }
            }
        }
    }
    proof {
        assert(range.take(to - from) =~= range);
    }
    Some(acc)
}

/// What `text` denotes as an unsigned decimal number of at most `max`: an
/// optional `+`, then one or more digits.
pub open spec fn parse_nat(text: Seq<char>, max: nat) -> Option<nat> {
    let body = if text.len() > 0 && text[0] == '+' {
        text.skip(1)
    } else {
        text
    };
    if body.len() > 0 && all_digits(body) && digits_value(body) <= max {
        Some(digits_value(body))
    } else {
        None
    }
}

/// Reads `s` as an unsigned decimal number of at most `max`.
pub fn read_nat(s: &[char], max: u64) -> (r: Option<u64>)
    ensures
        r == match parse_nat(s@, max as nat) {
            Some(n) => Some(n as u64),
            None => None,
        },
{
    let start: usize = if s.len() > 0 && s[0] == '+' {
        1
    } else {
        0
    };
    assert(s@.subrange(start as int, s.len() as int) =~= if start == 1 {
        s@.skip(1)
    } else {
        s@
    });
    if start == s.len() {
        return None;
    }
    read_digits(s, start, s.len(), max)
}

/// The digit string of `n` denotes `n` again, whatever bound at least `n`
/// it is read under.
pub proof fn lemma_parse_nat_text(n: nat, max: nat)
    requires
        n <= max,
    ensures
        parse_nat(nat_text(n), max) == Some(n),
{
    lemma_nat_text(n);
    assert(is_digit(nat_text(n)[0]));
}

} // verus!
