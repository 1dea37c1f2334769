//! Decimal text of integers: what `{}` prints and what `str::parse` reads.
use vstd::prelude::*;
use crate::text::{is_ascii_digit, is_digit};

verus! {

/// The character of a decimal digit.
pub open spec fn digit_char(d: int) -> char {
    if d == 0 {
        '0'
    } else if d == 1 {
        '1'
    } else if d == 2 {
        '2'
    } else if d == 3 {
        '3'
    } else if d == 4 {
        '4'
    } else if d == 5 {
        '5'
    } else if d == 6 {
        '6'
    } else if d == 7 {
        '7'
    } else if d == 8 {
        '8'
    } else {
        '9'
    }
}

pub fn digit_to_char(d: u64) -> (c: char)
    requires
        d < 10,
    ensures
        c == digit_char(d as int),
        c as u32 == d + 48,
{
    if d == 0 {
        '0'
    } else if d == 1 {
        '1'
    } else if d == 2 {
        '2'
    } else if d == 3 {
        '3'
    } else if d == 4 {
        '4'
    } else if d == 5 {
        '5'
    } else if d == 6 {
        '6'
    } else if d == 7 {
        '7'
    } else if d == 8 {
        '8'
    } else {
        '9'
    }
}

/// The decimal digits of `n`, most significant first, without leading zeros.
pub open spec fn digits_of(n: nat) -> Seq<char>
    decreases n,
{
    if n < 10 {
        seq![digit_char(n as int)]
    } else {
        digits_of(n / 10).push(digit_char((n % 10) as int))
    }
}

/// The text `{}` prints for a signed integer.
pub open spec fn int_text(x: int) -> Seq<char> {
    if x < 0 {
        seq!['-'] + digits_of((-x) as nat)
    } else {
        digits_of(x as nat)
    }
}

/// The value of a run of decimal digits.
pub open spec fn digits_value(s: Seq<char>) -> int
    decreases s.len(),
{
    if s.len() == 0 {
        0
    } else {
        digits_value(s.drop_last()) * 10 + ((s.last() as u32) as int - 48)
    }
}

pub open spec fn all_digits(s: Seq<char>) -> bool {
    forall|i: int| 0 <= i < s.len() ==> is_digit(#[trigger] s[i])
}

/// What `str::parse::<i64>` gives back: an optional sign, then at least one
/// digit and nothing else, in range.
pub open spec fn parse_i64_spec(s: Seq<char>) -> Option<i64> {
    let neg = s.len() > 0 && s[0] == '-';
    let body = if s.len() > 0 && (s[0] == '-' || s[0] == '+') {
        s.drop_first()
    } else {
        s
    };
    if body.len() > 0 && all_digits(body) {
        let v = if neg {
            -digits_value(body)
        } else {
            digits_value(body)
        };
        if i64::MIN <= v <= i64::MAX {
            Some(v as i64)
        } else {
            None
        }
    } else {
        None
    }
}

/// What `str::parse::<u32>` gives back: an optional `+`, then at least one
/// digit and nothing else, in range.
pub open spec fn parse_u32_spec(s: Seq<char>) -> Option<u32> {
    let body = if s.len() > 0 && s[0] == '+' {
        s.drop_first()
    } else {
        s
    };
    if body.len() > 0 && all_digits(body) && digits_value(body) <= u32::MAX {
        Some(digits_value(body) as u32)
    } else {
        None
    }
}

pub proof fn lemma_digit_char(d: int)
    requires
        0 <= d < 10,
    ensures
        digit_char(d) as u32 == d + 48,
        is_digit(digit_char(d)),
{
}

pub proof fn lemma_digits_of(n: nat)
    ensures
        digits_of(n).len() > 0,
        all_digits(digits_of(n)),
        digits_value(digits_of(n)) == n,
        digits_of(n)[0] != '-' && digits_of(n)[0] != '+',
    decreases n,
{
    if n >= 10 {
        lemma_digits_of(n / 10);
        lemma_digit_char((n % 10) as int);
        let s = digits_of(n);
        assert(s.drop_last() =~= digits_of(n / 10));
        assert(s.last() == digit_char((n % 10) as int));
        assert(digits_value(s) == digits_value(s.drop_last()) * 10 + ((s.last() as u32) as int - 48));
        assert forall|i: int| 0 <= i < s.len() implies is_digit(#[trigger] s[i]) by {
            if i < s.len() - 1 {
                assert(s[i] == digits_of(n / 10)[i]);
            }
        }
    } else {
        lemma_digit_char(n as int);
        let s = digits_of(n);
        assert(s.drop_last() =~= Seq::<char>::empty());
        assert(digits_value(Seq::<char>::empty()) == 0);
        assert(digits_value(s) == digits_value(s.drop_last()) * 10 + ((s.last() as u32) as int - 48));
    }
}

/// Reading back the text of an integer gives the integer.
pub proof fn lemma_parse_int_text(x: i64)
    ensures
        parse_i64_spec(int_text(x as int)) == Some(x),
{
    if x < 0 {
        lemma_digits_of((-x) as nat);
        let s = int_text(x as int);
        assert(s.drop_first() =~= digits_of((-x) as nat));
    } else {
        lemma_digits_of(x as nat);
    }
}

pub proof fn lemma_digits_value_monotone(s: Seq<char>, j: int, k: int)
    requires
        0 <= j <= k <= s.len(),
        all_digits(s),
    ensures
        digits_value(s.take(j)) <= digits_value(s.take(k)),
        digits_value(s.take(j)) >= 0,
    decreases k - j,
{
    if j < k {
        lemma_digits_value_monotone(s, j, k - 1);
        assert(s.take(k).drop_last() =~= s.take(k - 1));
        assert(is_digit(s[k - 1]));
    } else if j > 0 {
        lemma_digits_value_nonneg(s.take(j));
    } else {
        assert(s.take(0) =~= Seq::<char>::empty());
    }
}

pub proof fn lemma_digits_value_nonneg(s: Seq<char>)
    requires
        all_digits(s),
    ensures
        digits_value(s) >= 0,
    decreases s.len(),
{
    if s.len() > 0 {
        assert(all_digits(s.drop_last())) by {
            assert forall|i: int| 0 <= i < s.drop_last().len() implies is_digit(
                #[trigger] s.drop_last()[i],
            ) by {
                assert(s.drop_last()[i] == s[i]);
            }
        }
        lemma_digits_value_nonneg(s.drop_last());
        assert(is_digit(s[s.len() - 1]));
    }
}

/// Reads the value of `v[a..b]` as digits; `None` when it is not all digits
/// or exceeds `bound`.
pub fn digits_value_upto(v: &[char], a: usize, b: usize, bound: u64) -> (r: Option<u64>)
    requires
        a <= b <= v@.len(),
    ensures
        match r {
            Some(x) => all_digits(v@.subrange(a as int, b as int)) && x == digits_value(
                v@.subrange(a as int, b as int),
            ) && x <= bound,
            None => !all_digits(v@.subrange(a as int, b as int)) || digits_value(
                v@.subrange(a as int, b as int),
            ) > bound,
        },
{
    let ghost s = v@.subrange(a as int, b as int);
    let mut acc: u64 = 0;
    let mut i = a;
    while i < b
        invariant
            a <= i <= b,
            b <= v@.len(),
            s == v@.subrange(a as int, b as int),
            all_digits(s.take(i - a)),
            acc == digits_value(s.take(i - a)),
            acc <= bound,
        decreases b - i,
    {
        let c = v[i];
        if !is_ascii_digit(c) {
            proof {
                assert(s[i - a] == c);
            }
            return None;
        }
        let d = (c as u32 - 48) as u64;
        proof {
            assert(s.take(i - a + 1).drop_last() =~= s.take(i - a));
            assert(s.take(i - a + 1).last() == c);
            assert(all_digits(s.take(i - a + 1))) by {
                assert forall|k: int| 0 <= k < s.take(i - a + 1).len() implies is_digit(
                    #[trigger] s.take(i - a + 1)[k],
                ) by {
                    if k < i - a {
                        assert(s.take(i - a + 1)[k] == s.take(i - a)[k]);
                    }
                }
            }
        }
        if d > bound {
            proof {
                if all_digits(s) {
                    lemma_digits_value_monotone(s, i - a + 1, s.len() as int);
                    assert(s.take(s.len() as int) =~= s);
                    lemma_digits_value_nonneg(s.take(i - a));
                }
            }
            return None;
        }
        if acc > (bound - d) / 10 {
            proof {
                assert(acc * 10 + d > bound) by (nonlinear_arith)
                    requires
                        acc > (bound - d) / 10,
                        d <= 9,
                        d <= bound,
                ;
                let i2 = i - a + 1;
                assert forall|k: int| 0 <= k < b - a implies is_digit(#[trigger] s[k]) || !all_digits(s) by {}
                if all_digits(s) {
                    lemma_digits_value_monotone(s, i2, s.len() as int);
                    assert(s.take(s.len() as int) =~= s);
                }
            }
            return None;
        }
        proof {
            assert(acc * 10 + d <= bound) by (nonlinear_arith)
                requires
                    acc <= (bound - d) / 10,
                    d <= bound,
            ;
        }
        acc = acc * 10 + d;
        i = i + 1;
    }
    proof {
        assert(s.take(b - a) =~= s);
    }
    Some(acc)
}

/// `str::parse::<i64>` on characters.
pub fn parse_i64(v: &[char]) -> (r: Option<i64>)
    ensures
        r == parse_i64_spec(v@),
{
    let neg = v.len() > 0 && v[0] == '-';
    let start: usize = if v.len() > 0 && (v[0] == '-' || v[0] == '+') {
        1
    } else {
        0
    };
    let ghost body = if v@.len() > 0 && (v@[0] == '-' || v@[0] == '+') {
        v@.drop_first()
    } else {
        v@
    };
    proof {
        assert(body =~= v@.subrange(start as int, v@.len() as int));
    }
    if start == v.len() {
        return None;
    }
    let bound: u64 = if neg {
        9223372036854775808
    } else {
        9223372036854775807
    };
    match digits_value_upto(v, start, v.len(), bound) {
        Some(x) => {
            if neg {
                if x == 9223372036854775808 {
                    Some(i64::MIN)
                } else {
                    Some(-(x as i64))
                }
            } else {
                Some(x as i64)
            }
        },
        None => None,
    }
}

/// `str::parse::<u32>` on characters.
pub fn parse_u32(v: &[char]) -> (r: Option<u32>)
    ensures
        r == parse_u32_spec(v@),
{
    let start: usize = if v.len() > 0 && v[0] == '+' {
        1
    } else {
        0
    };
    let ghost body = if v@.len() > 0 && v@[0] == '+' {
        v@.drop_first()
    } else {
        v@
    };
    proof {
        assert(body =~= v@.subrange(start as int, v@.len() as int));
    }
    if start == v.len() {
        return None;
    }
    match digits_value_upto(v, start, v.len(), 4294967295) {
        Some(x) => Some(x as u32),
        None => None,
    }
}

/// Appends the decimal digits of `n`.
pub fn push_digits(out: &mut Vec<char>, n: u64)
    ensures
        final(out)@ == old(out)@ + digits_of(n as nat),
    decreases n,
{
    if n < 10 {
        let c = digit_to_char(n);
        out.push(c);
        proof {
            assert(final(out)@ =~= old(out)@ + digits_of(n as nat));
        }
    } else {
        push_digits(out, n / 10);
        let c = digit_to_char(n % 10);
        out.push(c);
        proof {
            assert(digits_of(n as nat) == digits_of((n / 10) as nat).push(
                digit_char((n % 10) as int),
            ));
        }
    }
}

/// Appends the text `{}` prints for `x`.
pub fn push_i64(out: &mut Vec<char>, x: i64)
    ensures
        final(out)@ == old(out)@ + int_text(x as int),
{
    if x < 0 {
        out.push('-');
        let m: u64 = if x == i64::MIN {
            9223372036854775808
        } else {
            (-x) as u64
        };
        push_digits(out, m);
    } else {
        push_digits(out, x as u64);
    }
}

} // verus!
