//! The byte-by-byte UTF-8 check inside JSON strings, held against the
//! definition of well-formed UTF-8.
use vstd::prelude::*;

use crate::transform::json::{utf8_idle, utf8_step, Utf8Validator};
use vstd::utf8::{
    codepoint_width_2, codepoint_width_3, codepoint_width_4, leading_bits_width_1,
    length_of_first_scalar, pop_first_scalar, valid_first_scalar, valid_utf8,
};

verus! {

proof fn lemma_ascii_scalar(b0: u8)
    requires
        b0 <= 0x7f,
    ensures
        leading_bits_width_1(b0) <= 0x7f,
{
    assert(b0 <= 0x7f ==> ((b0 & 0x7f) as u32) <= 0x7f) by (bit_vector);
}

proof fn lemma_two_byte_scalar(b0: u8, b1: u8)
    requires
        0xc0 <= b0 <= 0xdf,
        0x80 <= b1 <= 0xbf,
    ensures
        codepoint_width_2(b0, b1) >= 0x80 <==> b0 >= 0xc2,
        codepoint_width_2(b0, b1) < 0x800,
{
    assert(0xc0 <= b0 <= 0xdf && 0x80 <= b1 <= 0xbf ==> ((((b0 & 0x1f) as u32) << 6 | ((b1
        & 0x3f) as u32)) >= 0x80 <==> b0 >= 0xc2) && (((b0 & 0x1f) as u32) << 6 | ((b1
        & 0x3f) as u32)) < 0x800) by (bit_vector);
}

proof fn lemma_three_byte_scalar(b0: u8, b1: u8, b2: u8)
    requires
        0xe0 <= b0 <= 0xef,
        0x80 <= b1 <= 0xbf,
        0x80 <= b2 <= 0xbf,
    ensures
        codepoint_width_3(b0, b1, b2) >= 0x800 <==> (b0 != 0xe0 || b1 >= 0xa0),
        (0xd800 <= codepoint_width_3(b0, b1, b2) <= 0xdfff) <==> (b0 == 0xed && b1 >= 0xa0),
        codepoint_width_3(b0, b1, b2) < 0x10000,
{
    let c = codepoint_width_3(b0, b1, b2);
    assert(c == (((b0 & 0x0f) as u32) << 12) | (((b1 & 0x3f) as u32) << 6) | ((b2 & 0x3f) as u32));
    assert(0xe0 <= b0 <= 0xef && 0x80 <= b1 <= 0xbf && 0x80 <= b2 <= 0xbf && c == (((b0 & 0x0f) as u32) << 12) | (((b1 & 0x3f) as u32) << 6) | ((b2 & 0x3f) as u32) ==> (c >= 0x800 <==> (b0 != 0xe0 || b1 >= 0xa0)) && ((0xd800 <= c <= 0xdfff) <==> (b0 == 0xed && b1 >= 0xa0)) && c < 0x10000) by (bit_vector);
}

proof fn lemma_four_byte_scalar(b0: u8, b1: u8, b2: u8, b3: u8)
    requires
        0xf0 <= b0 <= 0xf7,
        0x80 <= b1 <= 0xbf,
        0x80 <= b2 <= 0xbf,
        0x80 <= b3 <= 0xbf,
    ensures
        (0x10000 <= codepoint_width_4(b0, b1, b2, b3) <= 0x10ffff) <==> ((b0 != 0xf0 || b1 >= 0x90)
            && b0 <= 0xf4 && (b0 != 0xf4 || b1 <= 0x8f)),
{
    let c = codepoint_width_4(b0, b1, b2, b3);
    assert(c == (((b0 & 0x07) as u32) << 18) | (((b1 & 0x3f) as u32) << 12) | (((b2 & 0x3f) as u32) << 6) | ((b3 & 0x3f) as u32));
    assert(0xf0 <= b0 <= 0xf7 && 0x80 <= b1 <= 0xbf && 0x80 <= b2 <= 0xbf && 0x80 <= b3 <= 0xbf && c == (((b0 & 0x07) as u32) << 18) | (((b1 & 0x3f) as u32) << 12) | (((b2 & 0x3f) as u32) << 6) | ((b3 & 0x3f) as u32) ==> ((0x10000 <= c <= 0x10ffff) <==> ((b0 != 0xf0 || b1 >= 0x90) && b0 <= 0xf4 && (b0 != 0xf4 || b1 <= 0x8f)))) by (bit_vector);
}

/// The check's state after `bytes` are fed one by one from `st`; `None` once a
/// byte is refused.
pub open spec fn utf8_run(st: Utf8Validator, bytes: Seq<u8>) -> Option<Utf8Validator>
    decreases bytes.len(),
{
    if bytes.len() == 0 {
        Some(st)
    } else {
        match utf8_step(st, bytes[0]) {
            Some(next) => utf8_run(next, bytes.drop_first()),
            None => None,
        }
    }
}

/// Every byte is accepted and the check ends between two characters, so that
/// finishing it succeeds.
pub open spec fn utf8_accepts(st: Utf8Validator, bytes: Seq<u8>) -> bool {
    utf8_run(st, bytes) matches Some(end) && end.remaining == 0
}

/// The continuation bytes owed in state `s` all stand at the front of `rest`
/// and fall in their ranges.
pub open spec fn continuations_fit(s: Utf8Validator, rest: Seq<u8>) -> bool {
    &&& rest.len() >= s.remaining
    &&& s.min_next <= rest[0] <= s.max_next
    &&& forall|i: int| 1 <= i < s.remaining ==> 0x80 <= #[trigger] rest[i] <= 0xbf
}

proof fn lemma_continuations(s: Utf8Validator, rest: Seq<u8>)
    requires
        1 <= s.remaining <= 3,
    ensures
        continuations_fit(s, rest) ==> utf8_run(s, rest) == utf8_run(
            Utf8Validator { remaining: 0, min_next: 0x80, max_next: 0xbf },
            rest.subrange(s.remaining as int, rest.len() as int),
        ),
        !continuations_fit(s, rest) ==> !utf8_accepts(s, rest),
    decreases s.remaining,
{
    if rest.len() == 0 {
        return;
    }
    let b = rest[0];
    if b < s.min_next || b > s.max_next {
        return;
    }
    let next = Utf8Validator { remaining: (s.remaining - 1) as u8, min_next: 0x80, max_next: 0xbf };
    assert(utf8_step(s, b) == Some(next));
    let tail = rest.drop_first();
    if s.remaining == 1 {
        assert(tail =~= rest.subrange(1, rest.len() as int));
    } else {
        lemma_continuations(next, tail);
        if rest.len() >= s.remaining {
            assert(tail.subrange(next.remaining as int, tail.len() as int) =~= rest.subrange(
                s.remaining as int,
                rest.len() as int,
            ));
        }
        if continuations_fit(s, rest) {
            assert forall|i: int| 1 <= i < next.remaining implies 0x80 <= #[trigger] tail[i] <= 0xbf by {
                assert(tail[i] == rest[i + 1]);
            }
            assert(continuations_fit(next, tail));
        } else {
            if continuations_fit(next, tail) {
                assert forall|i: int| 1 <= i < s.remaining implies 0x80 <= #[trigger] rest[i] <= 0xbf by {
                    assert(rest[i] == tail[i - 1]);
                }
            }
        }
    }
}

/// What the leading byte of `bytes` tells: refused, a whole character, or a
/// state owing continuation bytes that fit exactly when the first character
/// is well formed.
proof fn lemma_first_scalar(st: Utf8Validator, bytes: Seq<u8>)
    requires
        st.remaining == 0,
        bytes.len() > 0,
    ensures
        match utf8_step(st, bytes[0]) {
            None => !valid_first_scalar(bytes),
            Some(s) => if s.remaining == 0 {
                valid_first_scalar(bytes) && length_of_first_scalar(bytes) == 1
            } else {
                &&& 1 <= s.remaining <= 3
                &&& valid_first_scalar(bytes) <==> continuations_fit(s, bytes.drop_first())
                &&& valid_first_scalar(bytes) ==> length_of_first_scalar(bytes) == 1 + s.remaining
            },
        },
{
    let b0 = bytes[0];
    let tail = bytes.drop_first();
    if bytes.len() >= 2 {
        assert(tail[0] == bytes[1]);
    }
    if bytes.len() >= 3 {
        assert(tail[1] == bytes[2]);
    }
    if bytes.len() >= 4 {
        assert(tail[2] == bytes[3]);
    }
    if b0 <= 0x7f {
        lemma_ascii_scalar(b0);
    } else if 0xc0 <= b0 <= 0xdf {
        if bytes.len() >= 2 && 0x80 <= bytes[1] <= 0xbf {
            lemma_two_byte_scalar(b0, bytes[1]);
        }
    } else if 0xe0 <= b0 <= 0xef {
        if bytes.len() >= 3 && 0x80 <= bytes[1] <= 0xbf && 0x80 <= bytes[2] <= 0xbf {
            lemma_three_byte_scalar(b0, bytes[1], bytes[2]);
        }
    } else if 0xf0 <= b0 <= 0xf7 {
        if bytes.len() >= 4 && 0x80 <= bytes[1] <= 0xbf && 0x80 <= bytes[2] <= 0xbf && 0x80
            <= bytes[3] <= 0xbf {
            lemma_four_byte_scalar(b0, bytes[1], bytes[2], bytes[3]);
        }
    }
}

proof fn lemma_accepts_from_boundary(st: Utf8Validator, bytes: Seq<u8>)
    requires
        st.remaining == 0,
    ensures
        utf8_accepts(st, bytes) <==> valid_utf8(bytes),
    decreases bytes.len(),
{
    if bytes.len() == 0 {
        return;
    }
    lemma_first_scalar(st, bytes);
    let tail = bytes.drop_first();
    match utf8_step(st, bytes[0]) {
        None => {},
        Some(s) => {
            assert(utf8_run(st, bytes) == utf8_run(s, tail));
            if s.remaining == 0 {
                assert(pop_first_scalar(bytes) =~= tail);
                lemma_accepts_from_boundary(s, tail);
            } else {
                lemma_continuations(s, tail);
                if continuations_fit(s, tail) {
                    let rest = tail.subrange(s.remaining as int, tail.len() as int);
                    assert(pop_first_scalar(bytes) =~= rest);
                    lemma_accepts_from_boundary(
                        Utf8Validator { remaining: 0, min_next: 0x80, max_next: 0xbf },
                        rest,
                    );
                }
            }
        },
    }
}

/// A fresh check accepts every byte of `bytes` and then finishes cleanly
/// exactly when `bytes` is well-formed UTF-8: no overlong form, no surrogate,
/// nothing above U+10FFFF and no character cut short at the end.
pub proof fn law_utf8_check_matches_well_formedness(bytes: Seq<u8>)
    ensures
        utf8_accepts(utf8_idle(), bytes) <==> valid_utf8(bytes),
{
    lemma_accepts_from_boundary(utf8_idle(), bytes);
}

} // verus!
