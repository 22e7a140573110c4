//! Decimal integer literals: what counts as a base-10 signed 64-bit literal
//! (an optional `+`/`-` sign followed by one or more digits, with the value
//! in range), its value, and a verified parser for it.

use vstd::prelude::*;
use vstd::string::StrSliceExecFns;

verus! {

/// Whether `c` is an ASCII decimal digit.
pub open spec fn is_decimal_digit(c: char) -> bool {
    48 <= c as int <= 57
}

/// The numeric value of a decimal digit character.
pub open spec fn digit_value(c: char) -> int
    recommends
        is_decimal_digit(c),
{
    c as int - 48
}

/// The value of a digit string read in base 10, most significant digit first.
pub open spec fn digits_value(s: Seq<char>) -> int
    decreases s.len(),
{
    if s.len() == 0 {
        0
    } else {
        digits_value(s.drop_last()) * 10 + digit_value(s.last())
    }
}

/// Whether every character of `s` is a decimal digit.
pub open spec fn all_decimal_digits(s: Seq<char>) -> bool {
    forall|i: int| 0 <= i < s.len() ==> is_decimal_digit(#[trigger] s[i])
}

/// Whether `s` opens with an explicit sign character.
pub open spec fn has_sign(s: Seq<char>) -> bool {
    s.len() >= 1 && (s[0] == '+' || s[0] == '-')
}

/// The digits of a literal: all of `s` but an optional leading sign.
pub open spec fn digits_part(s: Seq<char>) -> Seq<char> {
    if has_sign(s) {
        s.skip(1)
    } else {
        s
    }
}

/// The signed value denoted by a literal.
pub open spec fn literal_value(s: Seq<char>) -> int
    recommends
        all_decimal_digits(digits_part(s)),
{
    if s.len() >= 1 && s[0] == '-' {
        -digits_value(digits_part(s))
    } else {
        digits_value(digits_part(s))
    }
}

/// Whether `s` is a well-formed base-10 literal whose value fits in a signed
/// 64-bit integer: an optional sign, at least one digit, nothing else.
pub open spec fn is_i64_literal(s: Seq<char>) -> bool {
    &&& digits_part(s).len() >= 1
    &&& all_decimal_digits(digits_part(s))
    &&& i64::MIN <= literal_value(s) <= i64::MAX
}

/// A digit string denotes a nonnegative value.
pub proof fn lemma_digits_value_nonneg(s: Seq<char>)
    requires
        all_decimal_digits(s),
    ensures
        digits_value(s) >= 0,
    decreases s.len(),
{
    if s.len() > 0 {
        assert(all_decimal_digits(s.drop_last())) by {
            assert(forall|i: int|
                0 <= i < s.len() - 1 ==> #[trigger] s.drop_last()[i] == s[i]);
        }
        lemma_digits_value_nonneg(s.drop_last());
    }
}

/// Extending a digit string to the right never decreases its value.
pub proof fn lemma_digits_value_prefix(s: Seq<char>, k: int)
    requires
        all_decimal_digits(s),
        0 <= k <= s.len(),
    ensures
        digits_value(s) >= digits_value(s.subrange(0, k)),
    decreases s.len() - k,
{
    if k == s.len() {
        assert(s.subrange(0, k) =~= s);
    } else {
        let p = s.subrange(0, k);
        let q = s.subrange(0, k + 1);
        assert(q.drop_last() =~= p);
        assert(all_decimal_digits(p));
        lemma_digits_value_nonneg(p);
        assert(digits_value(q) == digits_value(p) * 10 + digit_value(q.last()));
        assert(digits_value(q) >= digits_value(p)) by {
            assert(digits_value(p) * 10 >= digits_value(p)) by (nonlinear_arith)
                requires
                    digits_value(p) >= 0,
            ;
            assert(digit_value(q.last()) >= 0);
        }
        lemma_digits_value_prefix(s, k + 1);
    }
}

/// The decimal digit character for `d`.
pub open spec fn decimal_digit_char(d: int) -> char
    recommends
        0 <= d <= 9,
{
    if d == 0 {
        '0'
    } else if d == 1 {
        '1'
    } else if d == 2 {
        '2'
    } else if d == 3 {
        '3'
    } else if d == 4 {
        '4'
    } else if d == 5 {
        '5'
    } else if d == 6 {
        '6'
    } else if d == 7 {
        '7'
    } else if d == 8 {
        '8'
    } else {
        '9'
    }
}

/// The digit string of a nonnegative number in base 10, without a sign.
pub open spec fn decimal_digits_of(n: int) -> Seq<char>
    recommends
        n >= 0,
    decreases n,
{
    if n < 10 {
        seq![decimal_digit_char(n)]
    } else {
        decimal_digits_of(n / 10) + seq![decimal_digit_char(n % 10)]
    }
}

/// The decimal rendering of an integer: a `-` sign for negative numbers,
/// then the digits of its magnitude.
pub open spec fn decimal_string_of(n: int) -> Seq<char> {
    if n < 0 {
        seq!['-'] + decimal_digits_of(-n)
    } else {
        decimal_digits_of(n)
    }
}

proof fn lemma_decimal_digits_of(n: int)
    requires
        n >= 0,
    ensures
        decimal_digits_of(n).len() >= 1,
        all_decimal_digits(decimal_digits_of(n)),
        digits_value(decimal_digits_of(n)) == n,
    decreases n,
{
    if n < 10 {
        let s = decimal_digits_of(n);
        assert(s == seq![decimal_digit_char(n)]);
        assert(s.len() == 1);
        assert(s.last() == decimal_digit_char(n));
        assert(s.drop_last() =~= Seq::<char>::empty());
        assert(digits_value(s.drop_last()) == 0);
        assert(digits_value(s) == digit_value(decimal_digit_char(n)));
    } else {
        lemma_decimal_digits_of(n / 10);
        let a = decimal_digits_of(n / 10);
        let s = decimal_digits_of(n);
        assert(s == a + seq![decimal_digit_char(n % 10)]);
        assert(s.drop_last() =~= a);
        assert(s.last() == decimal_digit_char(n % 10));
        vstd::arithmetic::div_mod::lemma_fundamental_div_mod(n, 10);
        assert(digits_value(s) == digits_value(a) * 10 + digit_value(s.last()));
        assert forall|i: int| 0 <= i < s.len() implies is_decimal_digit(#[trigger] s[i]) by {
            if i < a.len() {
                assert(s[i] == a[i]);
            } else {
                assert(s[i] == decimal_digit_char(n % 10));
            }
        }
    }
}

/// The decimal rendering of any signed 64-bit integer is a well-formed
/// 64-bit literal, denotes that integer, and is not a quoted token.
pub proof fn lemma_decimal_string_i64_literal(n: i64)
    ensures
        is_i64_literal(decimal_string_of(n as int)),
        literal_value(decimal_string_of(n as int)) == n as int,
        decimal_string_of(n as int).len() >= 1,
        decimal_string_of(n as int)[0] != '"',
{
    let s = decimal_string_of(n as int);
    if n >= 0 {
        lemma_decimal_digits_of(n as int);
        assert(s == decimal_digits_of(n as int));
        assert(is_decimal_digit(s[0]));
        assert(!has_sign(s));
        assert(digits_part(s) == s);
        assert(s[0] != '-');
        assert(literal_value(s) == digits_value(s));
    } else {
        let m = -(n as int);
        lemma_decimal_digits_of(m);
        let d = decimal_digits_of(m);
        assert(s == seq!['-'] + d);
        assert(s[0] == '-');
        assert(has_sign(s));
        assert(s.skip(1) =~= d);
        assert(digits_part(s) == d);
        assert(literal_value(s) == -digits_value(d));
    }
}

/// Parse `string` as a base-10 signed 64-bit integer: an optional `+`/`-`
/// sign followed by one or more decimal digits, the value in range, and no
/// other characters tolerated.
pub fn parse_i64(string: &str) -> (r: Option<i64>)
    ensures
        r == (if is_i64_literal(string@) {
            Some(literal_value(string@) as i64)
        } else {
            None::<i64>
        }),
{
    let n = string.unicode_len();
    if n == 0 {
        return None;
    }
    let first = string.get_char(0);
    let negative = first == '-';
    let start: usize = if first == '-' || first == '+' {
        1
    } else {
        0
    };
    if start == n {
        proof {
            assert(digits_part(string@) =~= string@.skip(1));
        }
        return None;
    }
    let limit: u128 = if negative {
        9223372036854775808
    } else {
        9223372036854775807
    };
    let ghost digits = digits_part(string@);
    proof {
        assert(digits =~= string@.subrange(start as int, n as int));
    }
    let mut acc: u128 = 0;
    let mut i: usize = start;
    while i < n
        invariant
            start <= i <= n,
            n == string@.len(),
            start == 0 || start == 1,
            start == 1 <==> has_sign(string@),
            negative <==> (string@.len() >= 1 && string@[0] == '-'),
            limit == (if negative {
                0x8000_0000_0000_0000u128
            } else {
                0x7fff_ffff_ffff_ffffu128
            }),
            digits == digits_part(string@),
            digits =~= string@.subrange(start as int, n as int),
            forall|j: int| 0 <= j < i - start ==> is_decimal_digit(#[trigger] digits[j]),
            acc == digits_value(digits.subrange(0, i - start)),
            acc <= limit,
        decreases n - i,
    {
        let c = string.get_char(i);
        let code = c as u32;
        if code < 48 || code > 57 {
            proof {
                assert(digits[i - start] == string@[i as int]);
                assert(!is_decimal_digit(digits[i - start]));
            }
            return None;
        }
        let d: u128 = (code - 48) as u128;
        let ghost prefix = digits.subrange(0, i - start);
        let ghost prefix1 = digits.subrange(0, i + 1 - start);
        proof {
            assert(prefix1.drop_last() =~= prefix);
            assert(prefix1.last() == string@[i as int]);
            assert(digits_value(prefix1) == digits_value(prefix) * 10 + digit_value(
                prefix1.last(),
            ));
            assert(acc * 10 + d <= limit * 10 + 9) by (nonlinear_arith)
                requires
                    acc <= limit,
                    d <= 9,
                    limit <= 0x8000_0000_0000_0000u128,
            ;
        }
        acc = acc * 10 + d;
        i = i + 1;
        if acc > limit {
            proof {
                assert(forall|j: int| 0 <= j < prefix1.len() ==> is_decimal_digit(
                    #[trigger] prefix1[j],
                ));
                if all_decimal_digits(digits) {
                    lemma_digits_value_prefix(digits, i - start);
                    assert(digits_value(digits) >= digits_value(prefix1));
                    assert(digits_value(digits) > limit);
                    if negative {
                        assert(literal_value(string@) == -digits_value(digits));
                        assert(literal_value(string@) < i64::MIN);
                    } else {
                        assert(literal_value(string@) == digits_value(digits));
                        assert(literal_value(string@) > i64::MAX);
                    }
                }
                assert(!is_i64_literal(string@));
            }
            return None;
        }
    }
    proof {
        assert(digits.subrange(0, i - start) =~= digits);
        assert(all_decimal_digits(digits));
        lemma_digits_value_nonneg(digits);
        assert(is_i64_literal(string@));
    }
    if negative {
        if acc == 9223372036854775808 {
            Some(i64::MIN)
        } else {
            Some(-(acc as i64))
        }
    } else {
        Some(acc as i64)
    }
}

} // verus!
