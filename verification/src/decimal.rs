//! Decimal numbers written as text.
use vstd::prelude::*;

use crate::text::chars_of;

verus! {

/// Whether `c` is an ASCII decimal digit.
pub open spec fn is_digit(c: char) -> bool {
    '0' <= c <= '9'
}

/// The value of the ASCII digit `c`.
pub open spec fn digit_value(c: char) -> int {
    (c as u32) - ('0' as u32)
}

/// Whether every char of `cs` is an ASCII digit.
pub open spec fn all_digits(cs: Seq<char>) -> bool {
    forall|i: int| 0 <= i < cs.len() ==> is_digit(#[trigger] cs[i])
}

/// The number that the decimal digits `cs` write, most significant first.
pub open spec fn decimal_value(cs: Seq<char>) -> int
    decreases cs.len(),
{
    if cs.len() == 0 {
        0
    } else {
        10 * decimal_value(cs.drop_last()) + digit_value(cs.last())
    }
}

/// What `str::parse::<usize>` gives for `cs`: an optional `+`, then at least
/// one digit, with a value that fits in `usize`.
pub open spec fn parse_usize_spec(cs: Seq<char>) -> Option<usize> {
    let body = if cs.len() > 0 && cs[0] == '+' {
        cs.drop_first()
    } else {
        cs
    };
    if body.len() > 0 && all_digits(body) && decimal_value(body) <= usize::MAX {
        Some(decimal_value(body) as usize)
    } else {
        None
    }
}

/// A longer run of digits never writes a smaller number.
pub proof fn lemma_decimal_prefix(cs: Seq<char>, i: int)
    requires
        all_digits(cs),
        0 <= i <= cs.len(),
    ensures
        0 <= decimal_value(cs.take(i)) <= decimal_value(cs),
    decreases cs.len(),
{
    if cs.len() > 0 {
        let init = cs.drop_last();
        assert(all_digits(init)) by {
            assert forall|k: int| 0 <= k < init.len() implies is_digit(#[trigger] init[k]) by {
                assert(init[k] == cs[k]);
            }
        }
        assert(is_digit(cs[cs.len() - 1]));
        if i == cs.len() {
            assert(cs.take(i) =~= cs);
            lemma_decimal_prefix(init, 0);
        } else {
            lemma_decimal_prefix(init, i);
            assert(init.take(i) =~= cs.take(i));
        }
    }
}

/// Parses a decimal `usize` the way `str::parse::<usize>` does.
pub fn parse_usize(s: &str) -> (r: Option<usize>)
    ensures
        r == parse_usize_spec(s@),
{
    let cs = chars_of(s);
    let n = cs.len();
    let start: usize = if n > 0 && cs[0] == '+' {
        1
    } else {
        0
    };
    let ghost body = if s@.len() > 0 && s@[0] == '+' {
        s@.drop_first()
    } else {
        s@
    };
    assert(body =~= s@.subrange(start as int, n as int));
    if start == n {
        return None;
    }
    let mut i = start;
    let mut value: usize = 0;
    while i < n
        invariant
            start <= i <= n,
            start < n,
            n == cs@.len(),
            cs@ == s@,
            body == s@.subrange(start as int, n as int),
            body == (if s@.len() > 0 && s@[0] == '+' {
                s@.drop_first()
            } else {
                s@
            }),
            all_digits(s@.subrange(start as int, i as int)),
            value == decimal_value(s@.subrange(start as int, i as int)),
        decreases n - i,
    {
        let c = cs[i];
        let prefix = Ghost(s@.subrange(start as int, i as int));
        let next = Ghost(s@.subrange(start as int, i + 1));
        assert(next@.drop_last() =~= prefix@);
        if !('0' <= c && c <= '9') {
            assert(!all_digits(body)) by {
                assert(body[i - start] == c);
            }
            return None;
        }
        assert(all_digits(next@)) by {
            assert forall|k: int| 0 <= k < next@.len() implies is_digit(#[trigger] next@[k]) by {
                if k < prefix@.len() {
                    assert(next@[k] == prefix@[k]);
                }
            }
        }
        let d = (c as u32 - '0' as u32) as usize;
        let grown = match value.checked_mul(10) {
            Some(v) => v.checked_add(d),
            None => None,
        };
        match grown {
            Some(v) => {
                value = v;
                i = i + 1;
            },
            None => {
                proof {
                    if all_digits(body) {
                        assert(body.take(i + 1 - start) =~= next@);
                        lemma_decimal_prefix(body, i + 1 - start);
                    }
                }
                return None;
            },
        }
    }
    assert(s@.subrange(start as int, n as int) =~= body);
    Some(value)
}

/// The decimal digits of `v`, most significant first.
pub open spec fn decimal_chars(v: nat) -> Seq<char>
    decreases v,
{
    if v < 10 {
        seq![((48 + v) as u8) as char]
    } else {
        decimal_chars(v / 10).push(((48 + v % 10) as u8) as char)
    }
}

/// The digits written for a number read back as that number.
pub proof fn law_decimal_chars_read_back(v: nat)
    ensures
        all_digits(decimal_chars(v)),
        decimal_value(decimal_chars(v)) == v,
        decimal_chars(v).len() > 0,
    decreases v,
{
    if v >= 10 {
        law_decimal_chars_read_back(v / 10);
        let d = decimal_chars(v);
        assert(d.drop_last() =~= decimal_chars(v / 10));
        let k = (48 + v % 10) as u8;
        assert(((k as char) as u32) == k as u32);
        assert(digit_value(d.last()) == v % 10);
        assert(decimal_value(d) == 10 * decimal_value(d.drop_last()) + digit_value(d.last()));
        assert(all_digits(d)) by {
            assert forall|i: int| 0 <= i < d.len() implies is_digit(#[trigger] d[i]) by {
                if i < d.len() - 1 {
                    assert(d[i] == decimal_chars(v / 10)[i]);
                }
            }
        }
    } else {
        let d = decimal_chars(v);
        let k = (48 + v) as u8;
        assert(((k as char) as u32) == k as u32);
        assert(d.drop_last() =~= Seq::<char>::empty());
        assert(decimal_value(d) == 10 * decimal_value(d.drop_last()) + digit_value(d.last()));
    }
}

/// Appends the decimal digits of `value`.
pub fn push_decimal(out: &mut String, value: usize)
    ensures
        final(out)@ == old(out)@ + decimal_chars(value as nat),
    decreases value,
{
    if value >= 10 {
        push_decimal(out, value / 10);
    }
    let digit = (48 + (value % 10) as u8) as char;
    crate::text::string_push(out, digit);
    assert(out@ =~= old(out)@ + decimal_chars(value as nat));
}

} // verus!
