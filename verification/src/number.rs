//! Decimal integers written as text, read as `str::parse::<i32>` reads them.

use vstd::prelude::*;

verus! {

/// `c` is one of the ASCII digits `0` to `9`.
pub open spec fn is_digit(c: char) -> bool {
    '0' <= c && c <= '9'
}

/// Every character of `s` is a digit.
pub open spec fn all_digits(s: Seq<char>) -> bool {
    forall|i: int| 0 <= i < s.len() ==> is_digit(#[trigger] s[i])
}

/// The number the digits `s` denote in base ten.
pub open spec fn digits_value(s: Seq<char>) -> int
    decreases s.len(),
{
    if s.len() == 0 {
        0
    } else {
        digits_value(s.drop_last()) * 10 + ((s.last() as int) - ('0' as int))
    }
}

/// The integer that `s` writes: an optional sign `+` or `-`, then one digit or more.
pub open spec fn signed_value(s: Seq<char>) -> Option<int> {
    if s.len() > 0 && (s[0] == '-' || s[0] == '+') {
        let body = s.drop_first();
        if body.len() > 0 && all_digits(body) {
            Some(
                if s[0] == '-' {
                    -digits_value(body)
                } else {
                    digits_value(body)
                },
            )
        } else {
            None
        }
    } else if s.len() > 0 && all_digits(s) {
        Some(digits_value(s))
    } else {
        None
    }
}

/// What `str::parse::<i32>` gives for `s`: the integer it writes, where it fits in `i32`.
pub open spec fn parse_i32_spec(s: Seq<char>) -> Option<i32> {
    match signed_value(s) {
        Some(v) => if i32::MIN <= v <= i32::MAX {
            Some(v as i32)
        } else {
            None
        },
        None => None,
    }
}

/// Digits never denote less than a prefix of them does.
pub proof fn lemma_digits_value_grows(s: Seq<char>, k: int)
    requires
        0 <= k <= s.len(),
        all_digits(s),
    ensures
        digits_value(s.subrange(0, k)) <= digits_value(s),
        0 <= digits_value(s),
    decreases s.len(),
{
    if s.len() > 0 {
        let t = s.drop_last();
        assert(all_digits(t)) by {
            assert forall|i: int| 0 <= i < t.len() implies is_digit(#[trigger] t[i]) by {
                assert(t[i] == s[i]);
            }
        }
        assert(is_digit(s[s.len() - 1]));
        if k < s.len() {
            lemma_digits_value_grows(t, k);
            assert(t.subrange(0, k) =~= s.subrange(0, k));
        } else {
            lemma_digits_value_grows(t, 0);
            assert(s.subrange(0, k) =~= s);
        }
    }
}

/// Reads `s` as `str::parse::<i32>` does.
pub fn parse_i32(s: &Vec<char>) -> (r: Option<i32>)
    ensures
        r == parse_i32_spec(s@),
{
    let len = s.len();
    if len == 0 {
        return None;
    }
    let negative = s[0] == '-';
    let start: usize = if s[0] == '-' || s[0] == '+' {
        1
    } else {
        0
    };
    if start == len {
        return None;
    }
    let ghost body = s@.subrange(start as int, len as int);
    assert(start == 1 ==> body =~= s@.drop_first());
    assert(start == 0 ==> body =~= s@);
    let mut acc: i64 = 0;
    let mut i = start;
    while i < len
        invariant
            start <= i <= len == s.len(),
            start < len,
            body == s@.subrange(start as int, len as int),
            start == 1 <==> (s@[0] == '-' || s@[0] == '+'),
            start <= 1,
            negative == (s@[0] == '-'),
            start == 1 ==> body == s@.drop_first(),
            start == 0 ==> body == s@,
            all_digits(body.subrange(0, i - start)),
            acc == digits_value(body.subrange(0, i - start)),
            0 <= acc <= 2147483648,
        decreases len - i,
    {
        let c = s[i];
        if !('0' <= c && c <= '9') {
            assert(body[i - start] == c);
            assert(!is_digit(body[i - start]));
            assert(!all_digits(body));
            assert(signed_value(s@) is None);
            return None;
        }
        let d = (c as u32 - '0' as u32) as i64;
        assert(body.subrange(0, i + 1 - start).drop_last() =~= body.subrange(0, i - start));
        acc = acc * 10 + d;
        i = i + 1;
        assert(all_digits(body.subrange(0, i - start))) by {
            let p = body.subrange(0, i - start);
            assert forall|j: int| 0 <= j < p.len() implies is_digit(#[trigger] p[j]) by {
                if j < p.len() - 1 {
                    assert(p[j] == body.subrange(0, i - 1 - start)[j]);
                }
            }
        }
        if acc > 2147483648 {
            proof {
                if all_digits(body) {
                    lemma_digits_value_grows(body, i - start);
                    assert(digits_value(body) > 2147483648);
                }
                assert(signed_value(s@) is None || signed_value(s@).unwrap() > 2147483647 || signed_value(s@).unwrap() < -2147483648);
            }
            return None;
        }
    }
    assert(body.subrange(0, len - start) =~= body);
    if negative {
        Some((0 - acc) as i32)
    } else if acc > 2147483647 {
        None
    } else {
        Some(acc as i32)
    }
}

} // verus!
