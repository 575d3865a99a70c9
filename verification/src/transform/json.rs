//! Token-based JSON pretty printing.
//!
//! Numbers and strings are copied byte for byte, so number tokens stay exact
//! and string values are never rewritten; only the whitespace between tokens
//! changes.
use vstd::prelude::*;

use crate::bytes::{lemma_subrange_concat, lemma_subrange_push, push_bytes};
use crate::text::string_push;

verus! {

// ---------------------------------------------------------------------------
// The grammar and the output, as spec functions over the input bytes.
// ---------------------------------------------------------------------------
/// JSON's insignificant whitespace.
pub open spec fn is_json_ws(b: u8) -> bool {
    b == 0x20 || b == 0x0a || b == 0x0d || b == 0x09
}

/// The first position at or after `p` that is not JSON whitespace.
pub open spec fn skip_ws_spec(s: Seq<u8>, p: int) -> int
    decreases s.len() - p,
{
    if p < s.len() && is_json_ws(s[p]) {
        skip_ws_spec(s, p + 1)
    } else {
        p
    }
}

pub open spec fn is_digit(b: u8) -> bool {
    0x30 <= b <= 0x39
}

pub open spec fn is_hex_digit(b: u8) -> bool {
    is_digit(b) || (0x41 <= b <= 0x46) || (0x61 <= b <= 0x66)
}

/// The end of the run of ASCII digits that starts at `p`.
pub open spec fn digits_end(s: Seq<u8>, p: int) -> int
    decreases s.len() - p,
{
    if 0 <= p < s.len() && is_digit(s[p]) {
        digits_end(s, p + 1)
    } else {
        p
    }
}

/// The state of the UTF-8 check inside a JSON string: how many continuation
/// bytes are still owed, and the range the next one must fall in.
pub struct Utf8Validator {
    pub remaining: u8,
    pub min_next: u8,
    pub max_next: u8,
}

/// One step of the UTF-8 check (the well-formed byte sequences of the Unicode
/// standard, table 3-7); `None` when `b` cannot come next.
pub open spec fn utf8_step(st: Utf8Validator, b: u8) -> Option<Utf8Validator> {
    if st.remaining == 0 {
        if b <= 0x7f {
            Some(st)
        } else if 0xc2 <= b <= 0xdf {
            Some(Utf8Validator { remaining: 1, min_next: 0x80, max_next: 0xbf })
        } else if b == 0xe0 {
            Some(Utf8Validator { remaining: 2, min_next: 0xa0, max_next: 0xbf })
        } else if (0xe1 <= b <= 0xec) || (0xee <= b <= 0xef) {
            Some(Utf8Validator { remaining: 2, min_next: 0x80, max_next: 0xbf })
        } else if b == 0xed {
            Some(Utf8Validator { remaining: 2, min_next: 0x80, max_next: 0x9f })
        } else if b == 0xf0 {
            Some(Utf8Validator { remaining: 3, min_next: 0x90, max_next: 0xbf })
        } else if 0xf1 <= b <= 0xf3 {
            Some(Utf8Validator { remaining: 3, min_next: 0x80, max_next: 0xbf })
        } else if b == 0xf4 {
            Some(Utf8Validator { remaining: 3, min_next: 0x80, max_next: 0x8f })
        } else {
            None
        }
    } else if b < st.min_next || b > st.max_next {
        None
    } else {
        Some(Utf8Validator { remaining: (st.remaining - 1) as u8, min_next: 0x80, max_next: 0xbf })
    }
}

pub open spec fn utf8_idle() -> Utf8Validator {
    Utf8Validator { remaining: 0, min_next: 0, max_next: 0 }
}

pub open spec fn is_simple_escape(e: u8) -> bool {
    e == 0x22 || e == 0x5c || e == 0x2f || e == 0x62 || e == 0x66 || e == 0x6e || e == 0x72
        || e == 0x74
}

/// The rest of a JSON string whose opening quote came before `p`: where it
/// ends (after the closing quote) and what is written for it, which is the
/// same bytes.  `None` when the string is malformed.
pub open spec fn string_rest(s: Seq<u8>, p: int, st: Utf8Validator) -> Option<int>
    decreases s.len() - p,
{
    if p < 0 || p >= s.len() {
        None
    } else {
        let b = s[p];
        if b == 0x22 {
            if st.remaining == 0 {
                Some(p + 1)
            } else {
                None
            }
        } else if b == 0x5c {
            if p + 1 >= s.len() {
                None
            } else if is_simple_escape(s[p + 1]) {
                string_rest(s, p + 2, st)
            } else if s[p + 1] == 0x75 {
                if p + 6 <= s.len() && is_hex_digit(s[p + 2]) && is_hex_digit(s[p + 3])
                    && is_hex_digit(s[p + 4]) && is_hex_digit(s[p + 5]) {
                    string_rest(s, p + 6, st)
                } else {
                    None
                }
            } else {
                None
            }
        } else if b <= 0x1f {
            None
        } else {
            match utf8_step(st, b) {
                Some(next) => string_rest(s, p + 1, next),
                None => None,
            }
        }
    }
}

/// Where the optional minus sign of a number ends.
pub open spec fn sign_end(s: Seq<u8>, p: int) -> int {
    if 0 <= p < s.len() && s[p] == 0x2d {
        p + 1
    } else {
        p
    }
}

/// The end of the integer part of a number: `0`, or a non-zero digit and
/// any digits after it.
pub open spec fn int_part_end(s: Seq<u8>, p: int) -> Option<int> {
    if p < 0 || p >= s.len() {
        None
    } else if s[p] == 0x30 {
        Some(p + 1)
    } else if 0x31 <= s[p] <= 0x39 {
        Some(digits_end(s, p + 1))
    } else {
        None
    }
}

/// The end of the optional fraction: a `.` and at least one digit.
pub open spec fn frac_part_end(s: Seq<u8>, p: int) -> Option<int> {
    if 0 <= p < s.len() && s[p] == 0x2e {
        if digits_end(s, p + 1) == p + 1 {
            None
        } else {
            Some(digits_end(s, p + 1))
        }
    } else {
        Some(p)
    }
}

/// The end of the optional exponent: `e` or `E`, an optional sign, and at
/// least one digit.
pub open spec fn exp_part_end(s: Seq<u8>, p: int) -> Option<int> {
    if 0 <= p < s.len() && (s[p] == 0x65 || s[p] == 0x45) {
        let q = if p + 1 < s.len() && (s[p + 1] == 0x2b || s[p + 1] == 0x2d) {
            p + 2
        } else {
            p + 1
        };
        if digits_end(s, q) == q {
            None
        } else {
            Some(digits_end(s, q))
        }
    } else {
        Some(p)
    }
}

/// The end of a JSON number token that starts at `p`.
pub open spec fn number_end(s: Seq<u8>, p: int) -> Option<int> {
    match int_part_end(s, sign_end(s, p)) {
        None => None,
        Some(p2) => match frac_part_end(s, p2) {
            None => None,
            Some(p3) => exp_part_end(s, p3),
        },
    }
}

pub open spec fn lit_true() -> Seq<u8> {
    seq![0x74u8, 0x72u8, 0x75u8, 0x65u8]
}

pub open spec fn lit_false() -> Seq<u8> {
    seq![0x66u8, 0x61u8, 0x6cu8, 0x73u8, 0x65u8]
}

pub open spec fn lit_null() -> Seq<u8> {
    seq![0x6eu8, 0x75u8, 0x6cu8, 0x6cu8]
}

/// `ind` written `d` times.
pub open spec fn indent_spec(ind: Seq<u8>, d: nat) -> Seq<u8>
    decreases d,
{
    if d == 0 {
        Seq::empty()
    } else {
        indent_spec(ind, (d - 1) as nat) + ind
    }
}

/// A new line followed by the indentation of depth `d`.
pub open spec fn newline_indent(ind: Seq<u8>, d: nat) -> Seq<u8> {
    seq![0x0au8] + indent_spec(ind, d)
}

/// A JSON value at `p` (after optional whitespace), nested `d` deep: the
/// position after it and its pretty form.
pub open spec fn value_spec(s: Seq<u8>, p: int, d: nat, ind: Seq<u8>) -> Option<(int, Seq<u8>)>
    decreases s.len() - p, 0int,
{
    let q = skip_ws_spec(s, p);
    if p < 0 || q >= s.len() {
        None
    } else if q < p {
        None
    } else {
        let b = s[q];
        if b == 0x7b {
            object_spec(s, q + 1, d, ind)
        } else if b == 0x5b {
            array_spec(s, q + 1, d, ind)
        } else if b == 0x22 {
            match string_rest(s, q + 1, utf8_idle()) {
                Some(e) => Some((e, s.subrange(q, e))),
                None => None,
            }
        } else if b == 0x74 {
            literal_spec(s, q, lit_true())
        } else if b == 0x66 {
            literal_spec(s, q, lit_false())
        } else if b == 0x6e {
            literal_spec(s, q, lit_null())
        } else if b == 0x2d || is_digit(b) {
            match number_end(s, q) {
                Some(e) => Some((e, s.subrange(q, e))),
                None => None,
            }
        } else {
            None
        }
    }
}

pub open spec fn literal_spec(s: Seq<u8>, q: int, lit: Seq<u8>) -> Option<(int, Seq<u8>)> {
    if q + lit.len() <= s.len() && s.subrange(q, q + lit.len() as int) == lit {
        Some((q + lit.len(), lit))
    } else {
        None
    }
}

/// An object whose `{` came before `p`.
pub open spec fn object_spec(s: Seq<u8>, p: int, d: nat, ind: Seq<u8>) -> Option<(int, Seq<u8>)>
    decreases s.len() - p, 2int,
{
    let q = skip_ws_spec(s, p);
    if p < 1 || q < p || q > s.len() {
        None
    } else if q < s.len() && s[q] == 0x7d {
        Some((q + 1, seq![0x7bu8, 0x7du8]))
    } else {
        match members_spec(s, q, d, ind) {
            Some((e, out)) => Some((e, seq![0x7bu8] + out)),
            None => None,
        }
    }
}

/// The members of a non-empty object, from the first key at or after `p`
/// through the closing `}`.
pub open spec fn members_spec(s: Seq<u8>, p: int, d: nat, ind: Seq<u8>) -> Option<
    (int, Seq<u8>),
>
    decreases s.len() - p, 1int,
{
    let k = skip_ws_spec(s, p);
    if p < 0 || k < p || k >= s.len() || s[k] != 0x22 {
        None
    } else {
        match string_rest(s, k + 1, utf8_idle()) {
            None => None,
            Some(key_end) => {
                let c = skip_ws_spec(s, key_end);
                if key_end <= k || c < key_end || c >= s.len() || s[c] != 0x3a {
                    None
                } else {
                    match value_spec(s, c + 1, d + 1, ind) {
                        None => None,
                        Some((v_end, v_out)) => {
                            let head = newline_indent(ind, d + 1) + s.subrange(k, key_end) + seq![
                                0x3au8,
                                0x20u8,
                            ] + v_out;
                            let t = skip_ws_spec(s, v_end);
                            if v_end <= c || t < v_end || t >= s.len() {
                                None
                            } else if s[t] == 0x2c {
                                match members_spec(s, t + 1, d, ind) {
                                    Some((e, rest)) => Some((e, head + seq![0x2cu8] + rest)),
                                    None => None,
                                }
                            } else if s[t] == 0x7d {
                                Some((t + 1, head + newline_indent(ind, d) + seq![0x7du8]))
                            } else {
                                None
                            }
                        },
                    }
                }
            },
        }
    }
}

/// An array whose `[` came before `p`.
pub open spec fn array_spec(s: Seq<u8>, p: int, d: nat, ind: Seq<u8>) -> Option<(int, Seq<u8>)>
    decreases s.len() - p, 2int,
{
    let q = skip_ws_spec(s, p);
    if p < 1 || q < p || q > s.len() {
        None
    } else if q < s.len() && s[q] == 0x5d {
        Some((q + 1, seq![0x5bu8, 0x5du8]))
    } else {
        match elements_spec(s, q, d, ind) {
            Some((e, out)) => Some((e, seq![0x5bu8] + out)),
            None => None,
        }
    }
}

/// The elements of a non-empty array, from the first value at or after `p`
/// through the closing `]`.
pub open spec fn elements_spec(s: Seq<u8>, p: int, d: nat, ind: Seq<u8>) -> Option<
    (int, Seq<u8>),
>
    decreases s.len() - p, 1int,
{
    if p < 0 {
        None
    } else {
        match value_spec(s, p, d + 1, ind) {
            None => None,
            Some((v_end, v_out)) => {
                let head = newline_indent(ind, d + 1) + v_out;
                let t = skip_ws_spec(s, v_end);
                if v_end <= p || t < v_end || t >= s.len() {
                    None
                } else if s[t] == 0x2c {
                    match elements_spec(s, t + 1, d, ind) {
                        Some((e, rest)) => Some((e, head + seq![0x2cu8] + rest)),
                        None => None,
                    }
                } else if s[t] == 0x5d {
                    Some((t + 1, head + newline_indent(ind, d) + seq![0x5du8]))
                } else {
                    None
                }
            },
        }
    }
}

/// The pretty form of the whole input: one JSON value with nothing but
/// whitespace around it, indented with `indent` spaces per level.
pub open spec fn format_json_spec(s: Seq<u8>, indent: nat) -> Option<Seq<u8>> {
    let ind = Seq::new(indent, |i: int| 0x20u8);
    match value_spec(s, 0, 0, ind) {
        Some((e, out)) => if skip_ws_spec(s, e) == s.len() {
            Some(out)
        } else {
            None
        },
        None => None,
    }
}

} // verus!

verus! {

pub proof fn lemma_skip_ws_bounds(s: Seq<u8>, p: int)
    requires
        0 <= p <= s.len(),
    ensures
        p <= skip_ws_spec(s, p) <= s.len(),
        skip_ws_spec(s, p) < s.len() ==> !is_json_ws(s[skip_ws_spec(s, p)]),
    decreases s.len() - p,
{
    if p < s.len() && is_json_ws(s[p]) {
        lemma_skip_ws_bounds(s, p + 1);
    }
}

pub proof fn lemma_digits_end_bounds(s: Seq<u8>, p: int)
    requires
        0 <= p <= s.len(),
    ensures
        p <= digits_end(s, p) <= s.len(),
        forall|i: int| p <= i < digits_end(s, p) ==> is_digit(#[trigger] s[i]),
        digits_end(s, p) < s.len() ==> !is_digit(s[digits_end(s, p)]),
    decreases s.len() - p,
{
    if 0 <= p < s.len() && is_digit(s[p]) {
        lemma_digits_end_bounds(s, p + 1);
    }
}

/// Why a JSON document could not be formatted.
#[derive(Debug, Clone, Copy, PartialEq, Eq)]
pub enum JsonError {
    /// The input ended where more JSON was required.
    UnexpectedEnd,
    /// `found` stood at `offset` where `expected` (when known) was required.
    UnexpectedByte { offset: usize, expected: Option<u8>, found: u8 },
    /// Something other than whitespace followed the value.
    TrailingCharacters { offset: usize },
    /// A backslash was followed by a byte that starts no escape.
    InvalidEscape { found: u8 },
    /// A `\u` escape had a byte that is not a hex digit.
    InvalidUnicodeEscape { found: u8 },
    /// A string held an unescaped control byte.
    ControlByte,
    /// A string held bytes that are not UTF-8.
    InvalidUtf8,
    /// A number had no digit where one was required.
    ExpectedDigit,
}

#[derive(Debug, Clone, Copy, PartialEq, Eq)]
pub enum JsonSeparator {
    Comma,
    End,
}

impl Utf8Validator {
    pub fn new() -> (v: Self)
        ensures
            v == utf8_idle(),
    {
        Utf8Validator { remaining: 0, min_next: 0, max_next: 0 }
    }

    pub fn is_idle(&self) -> (r: bool)
        ensures
            r == (self.remaining == 0),
    {
        self.remaining == 0
    }

    pub fn accept(&mut self, byte: u8) -> (r: Result<(), JsonError>)
        ensures
            r is Ok <==> utf8_step(*old(self), byte) is Some,
            r is Ok ==> *final(self) == utf8_step(*old(self), byte)->0,
    {
        if self.remaining == 0 {
            if byte <= 0x7f {
            } else if 0xc2 <= byte && byte <= 0xdf {
                self.expect_continuations(1, 0x80, 0xbf);
            } else if byte == 0xe0 {
                self.expect_continuations(2, 0xa0, 0xbf);
            } else if (0xe1 <= byte && byte <= 0xec) || (0xee <= byte && byte <= 0xef) {
                self.expect_continuations(2, 0x80, 0xbf);
            } else if byte == 0xed {
                self.expect_continuations(2, 0x80, 0x9f);
            } else if byte == 0xf0 {
                self.expect_continuations(3, 0x90, 0xbf);
            } else if 0xf1 <= byte && byte <= 0xf3 {
                self.expect_continuations(3, 0x80, 0xbf);
            } else if byte == 0xf4 {
                self.expect_continuations(3, 0x80, 0x8f);
            } else {
                return Err(JsonError::InvalidUtf8);
            }
            return Ok(());
        }
        if byte < self.min_next || byte > self.max_next {
            return Err(JsonError::InvalidUtf8);
        }
        self.remaining = self.remaining - 1;
        self.min_next = 0x80;
        self.max_next = 0xbf;
        Ok(())
    }

    pub fn finish(&self) -> (r: Result<(), JsonError>)
        ensures
            r is Ok <==> self.remaining == 0,
    {
        if self.remaining == 0 {
            Ok(())
        } else {
            Err(JsonError::InvalidUtf8)
        }
    }

    pub fn expect_continuations(&mut self, remaining: u8, min_next: u8, max_next: u8)
        ensures
            *final(self) == (Utf8Validator { remaining, min_next, max_next }),
    {
        self.remaining = remaining;
        self.min_next = min_next;
        self.max_next = max_next;
    }
}

/// Bytes that may stand in a JSON string as they are and need no UTF-8 check.
pub fn is_safe_json_string_ascii(byte: u8) -> (r: bool)
    ensures
        r == (byte >= 0x20 && byte != 0x22 && byte != 0x5c && byte < 0x80),
{
    byte >= 0x20 && byte != 0x22 && byte != 0x5c && byte < 0x80
}

/// Walks JSON input and writes its pretty form.
pub struct JsonFormatter<'a> {
    pub input: &'a [u8],
    pub indent: Vec<u8>,
    pub offset: usize,
}

impl<'a> JsonFormatter<'a> {
    pub open spec fn wf(&self) -> bool {
        self.offset <= self.input@.len() && self.input@.len() <= usize::MAX
    }

    pub open spec fn same_source(&self, other: &Self) -> bool {
        self.input@ == other.input@ && self.indent@ == other.indent@
    }

    pub fn peek_byte(&self) -> (r: Option<u8>)
        requires
            self.wf(),
        ensures
            r == if self.offset < self.input@.len() {
                Some(self.input@[self.offset as int])
            } else {
                None::<u8>
            },
    {
        if self.offset < self.input.len() {
            Some(self.input[self.offset])
        } else {
            None
        }
    }

    pub fn next_byte(&mut self) -> (r: Option<u8>)
        requires
            old(self).wf(),
        ensures
            final(self).wf(),
            final(self).same_source(old(self)),
            old(self).offset < old(self).input@.len() ==> r == Some(
                old(self).input@[old(self).offset as int],
            ) && final(self).offset == old(self).offset + 1,
            old(self).offset >= old(self).input@.len() ==> r is None && final(self).offset
                == old(self).offset,
    {
        let byte = self.peek_byte();
        if byte.is_some() {
            self.offset = self.offset + 1;
        }
        byte
    }

    pub fn next_required(&mut self) -> (r: Result<u8, JsonError>)
        requires
            old(self).wf(),
        ensures
            final(self).wf(),
            final(self).same_source(old(self)),
            old(self).offset < old(self).input@.len() ==> r == Ok::<u8, JsonError>(
                old(self).input@[old(self).offset as int],
            ) && final(self).offset == old(self).offset + 1,
            old(self).offset >= old(self).input@.len() ==> r is Err,
    {
        match self.next_byte() {
            Some(b) => Ok(b),
            None => Err(JsonError::UnexpectedEnd),
        }
    }

    pub fn skip_ws(&mut self)
        requires
            old(self).wf(),
        ensures
            final(self).wf(),
            final(self).same_source(old(self)),
            final(self).offset == skip_ws_spec(old(self).input@, old(self).offset as int),
    {
        proof {
            lemma_skip_ws_bounds(self.input@, self.offset as int);
        }
        loop
            invariant
                self.wf(),
                self.same_source(old(self)),
                old(self).offset <= self.offset,
                skip_ws_spec(self.input@, self.offset as int) == skip_ws_spec(
                    old(self).input@,
                    old(self).offset as int,
                ),
            ensures
                self.wf(),
                self.same_source(old(self)),
                self.offset == skip_ws_spec(old(self).input@, old(self).offset as int),
            decreases self.input@.len() - self.offset,
        {
            if self.offset >= self.input.len() {
                break;
            }
            let b = self.input[self.offset];
            if !(b == 0x20 || b == 0x0a || b == 0x0d || b == 0x09) {
                break;
            }
            self.offset = self.offset + 1;
        }
    }

    pub fn consume_if(&mut self, expected: u8) -> (r: bool)
        requires
            old(self).wf(),
        ensures
            final(self).wf(),
            final(self).same_source(old(self)),
            r == (old(self).offset < old(self).input@.len() && old(self).input@[old(
                self,
            ).offset as int] == expected),
            r ==> final(self).offset == old(self).offset + 1,
            !r ==> final(self).offset == old(self).offset,
    {
        if self.peek_byte() == Some(expected) {
            self.next_byte();
            true
        } else {
            false
        }
    }

    pub fn expect_byte(&mut self, expected: u8) -> (r: Result<(), JsonError>)
        requires
            old(self).wf(),
        ensures
            final(self).wf(),
            final(self).same_source(old(self)),
            r is Ok <==> (old(self).offset < old(self).input@.len() && old(self).input@[old(
                self,
            ).offset as int] == expected),
            r is Ok ==> final(self).offset == old(self).offset + 1,
    {
        let start = self.offset;
        let byte = self.next_required()?;
        if byte != expected {
            return Err(JsonError::UnexpectedByte { offset: start, expected: Some(expected), found: byte });
        }
        Ok(())
    }

    pub fn write_indent(&self, output: &mut Vec<u8>, depth: usize)
        ensures
            final(output)@ == old(output)@ + indent_spec(self.indent@, depth as nat),
    {
        let mut i: usize = 0;
        while i < depth
            invariant
                i <= depth,
                output@ == old(output)@ + indent_spec(self.indent@, i as nat),
            decreases depth - i,
        {
            push_bytes(output, self.indent.as_slice());
            i += 1;
            assert(output@ =~= old(output)@ + indent_spec(self.indent@, i as nat));
        }
    }

    pub fn read_separator(&mut self, end: u8) -> (r: Result<JsonSeparator, JsonError>)
        requires
            old(self).wf(),
        ensures
            final(self).wf(),
            final(self).same_source(old(self)),
            ({
                let t = skip_ws_spec(old(self).input@, old(self).offset as int);
                &&& (r is Ok <==> t < old(self).input@.len() && (old(self).input@[t] == 0x2c
                    || old(self).input@[t] == end))
                &&& (r is Ok ==> final(self).offset == t + 1)
                &&& (r == Ok::<JsonSeparator, JsonError>(JsonSeparator::Comma) <==> (t
                    < old(self).input@.len() && old(self).input@[t] == 0x2c))
            }),
    {
        self.skip_ws();
        let start = self.offset;
        let byte = self.next_required()?;
        if byte == 0x2c {
            Ok(JsonSeparator::Comma)
        } else if byte == end {
            Ok(JsonSeparator::End)
        } else {
            Err(JsonError::UnexpectedByte { offset: start, expected: Some(end), found: byte })
        }
    }
}

} // verus!

verus! {

pub proof fn lemma_skip_ws_idempotent(s: Seq<u8>, p: int)
    requires
        0 <= p <= s.len(),
    ensures
        skip_ws_spec(s, skip_ws_spec(s, p)) == skip_ws_spec(s, p),
    decreases s.len() - p,
{
    if p < s.len() && is_json_ws(s[p]) {
        lemma_skip_ws_idempotent(s, p + 1);
    }
}

pub proof fn lemma_string_rest_idle(s: Seq<u8>, p: int, st: Utf8Validator)
    requires
        st.remaining == 0,
    ensures
        string_rest(s, p, st) == string_rest(s, p, utf8_idle()),
    decreases s.len() - p,
{
    if 0 <= p < s.len() {
        let b = s[p];
        if b == 0x5c {
            if p + 1 < s.len() {
                if is_simple_escape(s[p + 1]) {
                    lemma_string_rest_idle(s, p + 2, st);
                } else if s[p + 1] == 0x75 && p + 6 <= s.len() {
                    lemma_string_rest_idle(s, p + 6, st);
                }
            }
        } else if b != 0x22 && b > 0x1f && b <= 0x7f {
            lemma_string_rest_idle(s, p + 1, st);
        }
    }
}

/// `res` with `acc` written in front of its output.
pub open spec fn prepend_out(acc: Seq<u8>, res: Option<(int, Seq<u8>)>) -> Option<(int, Seq<u8>)> {
    match res {
        Some((e, out)) => Some((e, acc + out)),
        None => None,
    }
}

/// The first position at or after `p` whose byte is not safe string ASCII.
pub open spec fn safe_span_end(s: Seq<u8>, p: int) -> int
    decreases s.len() - p,
{
    if 0 <= p < s.len() && s[p] >= 0x20 && s[p] != 0x22 && s[p] != 0x5c && s[p] < 0x80 {
        safe_span_end(s, p + 1)
    } else {
        p
    }
}

impl<'a> JsonFormatter<'a> {
    pub fn write_literal(&mut self, output: &mut Vec<u8>, literal: &[u8]) -> (r: Result<
        (),
        JsonError,
    >)
        requires
            old(self).wf(),
            literal@.len() > 0,
        ensures
            final(self).wf(),
            final(self).same_source(old(self)),
            r is Ok ==> final(self).offset > old(self).offset,
            match literal_spec(old(self).input@, old(self).offset as int, literal@) {
                Some((e, out)) => r is Ok && final(self).offset == e && final(output)@ == old(
                    output,
                )@ + out,
                None => r is Err,
            },
    {
        let ghost s = self.input@;
        let ghost o = self.offset as int;
        let mut i: usize = 0;
        while i < literal.len()
            invariant
                self.wf(),
                self.same_source(old(self)),
                s == self.input@,
                o == old(self).offset as int,
                i <= literal@.len(),
                self.offset == o + i,
                o + i <= s.len(),
                s.subrange(o, o + i) == literal@.subrange(0, i as int),
                output@ == old(output)@,
            decreases literal.len() - i,
        {
            let start = self.offset;
            let byte = match self.next_required() {
                Ok(b) => b,
                Err(e) => {
                    assert(o + literal@.len() > s.len());
                    return Err(e);
                },
            };
            if byte != literal[i] {
                proof {
                    if o + literal@.len() <= s.len() {
                        assert(s.subrange(o, o + literal@.len())[i as int] != literal@[i as int]);
                    }
                }
                return Err(
                    JsonError::UnexpectedByte { offset: start, expected: Some(literal[i]), found: byte },
                );
            }
            let ghost prev = i as int;
            i += 1;
            assert(s.subrange(o, o + i) =~= s.subrange(o, o + prev).push(byte));
            assert(literal@.subrange(0, i as int) =~= literal@.subrange(0, prev).push(literal@[prev]));
        }
        assert(literal@.subrange(0, literal@.len() as int) =~= literal@);
        push_bytes(output, literal);
        Ok(())
    }

    pub fn write_digits(&mut self, output: &mut Vec<u8>, require_one: bool) -> (r: Result<
        (),
        JsonError,
    >)
        requires
            old(self).wf(),
        ensures
            final(self).wf(),
            final(self).same_source(old(self)),
            final(self).offset == digits_end(old(self).input@, old(self).offset as int),
            final(output)@ == old(output)@ + old(self).input@.subrange(
                old(self).offset as int,
                final(self).offset as int,
            ),
            r is Err <==> (require_one && final(self).offset == old(self).offset),
    {
        let ghost s = self.input@;
        let ghost o = self.offset as int;
        let start = self.offset;
        proof {
            lemma_digits_end_bounds(s, o);
        }
        loop
            invariant
                self.wf(),
                self.same_source(old(self)),
                s == self.input@,
                o == old(self).offset as int,
                o <= self.offset,
                digits_end(s, self.offset as int) == digits_end(s, o),
                output@ == old(output)@ + s.subrange(o, self.offset as int),
            ensures
                self.wf(),
                self.same_source(old(self)),
                self.offset == digits_end(s, o),
                output@ == old(output)@ + s.subrange(o, self.offset as int),
            decreases s.len() - self.offset,
        {
            match self.peek_byte() {
                Some(byte) => {
                    if 0x30 <= byte && byte <= 0x39 {
                        let ghost prev = self.offset as int;
                        let ghost out_before = output@;
                        proof { lemma_subrange_push(s, o, prev); }
                        self.next_byte();
                        output.push(byte);
                        assert(output@ == out_before.push(byte));
                        assert(output@ =~= old(output)@ + s.subrange(o, self.offset as int));
                    } else {
                        break;
                    }
                },
                None => {
                    break;
                },
            }
        }
        if require_one && self.offset == start {
            return Err(JsonError::ExpectedDigit);
        }
        Ok(())
    }

    #[verifier::spinoff_prover]
    #[verifier::rlimit(100)]
    pub fn write_number(&mut self, output: &mut Vec<u8>) -> (r: Result<(), JsonError>)
        requires
            old(self).wf(),
        ensures
            final(self).wf(),
            final(self).same_source(old(self)),
            r is Ok ==> final(self).offset > old(self).offset,
            match number_end(old(self).input@, old(self).offset as int) {
                Some(e) => r is Ok && final(self).offset == e && final(output)@ == old(output)@
                    + old(self).input@.subrange(old(self).offset as int, e),
                None => r is Err,
            },
    {
        let ghost s = self.input@;
        let ghost o = self.offset as int;
        if self.consume_if(0x2d) {
            output.push(0x2d);
            proof {
                lemma_subrange_push(s, o, o);
            }
        }
        let ghost p1 = self.offset as int;
        assert(output@ =~= old(output)@ + s.subrange(o, p1));
        let first_at = self.offset;
        let first = self.next_required()?;
        proof {
            lemma_subrange_push(s, o, p1);
        }
        if first == 0x30 {
            output.push(0x30);
        } else if 0x31 <= first && first <= 0x39 {
            output.push(first);
            let ghost mid = self.offset as int;
            proof {
                lemma_digits_end_bounds(s, mid);
            }
            let _ = self.write_digits(output, false);
            proof {
                lemma_subrange_concat(s, o, mid, self.offset as int);
            }
        } else {
            return Err(
                JsonError::UnexpectedByte { offset: first_at, expected: None, found: first },
            );
        }
        let ghost p2 = self.offset as int;
        assert(output@ == old(output)@ + s.subrange(o, p2));
        if self.consume_if(0x2e) {
            output.push(0x2e);
            proof {
                lemma_subrange_push(s, o, p2);
            }
            let ghost mid = self.offset as int;
            proof {
                lemma_digits_end_bounds(s, mid);
            }
            let r = self.write_digits(output, true);
            proof {
                lemma_subrange_concat(s, o, mid, self.offset as int);
            }
            if r.is_err() {
                return r;
            }
        }
        let ghost p3 = self.offset as int;
        assert(output@ == old(output)@ + s.subrange(o, p3));
        match self.peek_byte() {
            Some(exponent) => {
                if exponent == 0x65 || exponent == 0x45 {
                    self.next_byte();
                    output.push(exponent);
                    proof {
                        lemma_subrange_push(s, o, p3);
                    }
                    let ghost p4a = self.offset as int;
                    match self.peek_byte() {
                        Some(sign) => {
                            if sign == 0x2b || sign == 0x2d {
                                self.next_byte();
                                output.push(sign);
                                proof {
                                    lemma_subrange_push(s, o, p4a);
                                }
                            }
                        },
                        None => {},
                    }
                    let ghost mid = self.offset as int;
                    assert(output@ == old(output)@ + s.subrange(o, mid));
                    proof {
                        lemma_digits_end_bounds(s, mid);
                    }
                    let r = self.write_digits(output, true);
                    proof {
                        lemma_subrange_concat(s, o, mid, self.offset as int);
                    }
                    if r.is_err() {
                        return r;
                    }
                }
            },
            None => {},
        }
        Ok(())
    }

    pub fn write_safe_ascii_string_span(&mut self, output: &mut Vec<u8>) -> (r: bool)
        requires
            old(self).wf(),
        ensures
            final(self).wf(),
            final(self).same_source(old(self)),
            final(self).offset == safe_span_end(old(self).input@, old(self).offset as int),
            final(output)@ == old(output)@ + old(self).input@.subrange(
                old(self).offset as int,
                final(self).offset as int,
            ),
            r == (final(self).offset > old(self).offset),
            final(self).offset >= old(self).offset,
            string_rest(old(self).input@, old(self).offset as int, utf8_idle()) == string_rest(
                old(self).input@,
                final(self).offset as int,
                utf8_idle(),
            ),
    {
        let ghost s = self.input@;
        let ghost o = self.offset as int;
        let start = self.offset;
        loop
            invariant
                self.wf(),
                self.same_source(old(self)),
                s == self.input@,
                o == old(self).offset as int,
                o <= self.offset,
                safe_span_end(s, self.offset as int) == safe_span_end(s, o),
                output@ == old(output)@ + s.subrange(o, self.offset as int),
                string_rest(s, o, utf8_idle()) == string_rest(s, self.offset as int, utf8_idle()),
            ensures
                self.wf(),
                self.same_source(old(self)),
                self.offset == safe_span_end(s, o),
                output@ == old(output)@ + s.subrange(o, self.offset as int),
                string_rest(s, o, utf8_idle()) == string_rest(s, self.offset as int, utf8_idle()),
            decreases s.len() - self.offset,
        {
            if self.offset >= self.input.len() {
                break;
            }
            let byte = self.input[self.offset];
            if !is_safe_json_string_ascii(byte) {
                break;
            }
            proof {
                assert(utf8_step(utf8_idle(), byte) == Some(utf8_idle()));
            }
            self.offset = self.offset + 1;
            output.push(byte);
            assert(output@ =~= old(output)@ + s.subrange(o, self.offset as int));
        }
        self.offset > start
    }

    pub fn write_string(&mut self, output: &mut Vec<u8>) -> (r: Result<(), JsonError>)
        requires
            old(self).wf(),
        ensures
            final(self).wf(),
            final(self).same_source(old(self)),
            r is Ok ==> final(self).offset > old(self).offset,
            ({
                let s = old(self).input@;
                let o = old(self).offset as int;
                if o < s.len() && s[o] == 0x22 && string_rest(s, o + 1, utf8_idle()) is Some {
                    &&& r is Ok
                    &&& final(self).offset == string_rest(s, o + 1, utf8_idle())->0
                    &&& final(output)@ == old(output)@ + s.subrange(o, final(self).offset as int)
                } else {
                    r is Err
                }
            }),
    {
        let ghost s = self.input@;
        let ghost o = self.offset as int;
        self.expect_byte(0x22)?;
        output.push(0x22);
        let mut utf8 = Utf8Validator::new();
        assert(output@ =~= old(output)@ + s.subrange(o, self.offset as int));
        loop
            invariant
                self.wf(),
                self.same_source(old(self)),
                s == self.input@,
                o == old(self).offset as int,
                o < self.offset,
                o < s.len() && s[o] == 0x22,
                output@ == old(output)@ + s.subrange(o, self.offset as int),
                string_rest(s, o + 1, utf8_idle()) == string_rest(s, self.offset as int, utf8),
            ensures
                string_rest(s, o + 1, utf8_idle()) is Some,
                self.wf(),
                self.same_source(old(self)),
                self.offset == string_rest(s, o + 1, utf8_idle())->0,
                output@ == old(output)@ + s.subrange(o, self.offset as int),
            decreases s.len() - self.offset,
        {
            if utf8.is_idle() {
                let ghost before = self.offset as int;
                proof {
                    lemma_string_rest_idle(s, before, utf8);
                }
                if self.write_safe_ascii_string_span(output) {
                    proof {
                        lemma_string_rest_idle(s, self.offset as int, utf8);
                        lemma_subrange_concat(s, o, before, self.offset as int);
                    }
                    continue;
                }
            }
            let at = self.offset;
            let byte = match self.next_required() {
                Ok(b) => b,
                Err(e) => {
                    return Err(e);
                },
            };
            assert(at < s.len());
            output.push(byte);
            proof {
                lemma_subrange_push(s, o, at as int);
            }
            if byte == 0x22 {
                utf8.finish()?;
                return Ok(());
            } else if byte == 0x5c {
                let escaped = match self.next_required() {
                    Ok(b) => b,
                    Err(e) => {
                        return Err(e);
                    },
                };
                assert(at + 1 < s.len());
                output.push(escaped);
                proof {
                    lemma_subrange_push(s, o, at + 1);
                }
                if escaped == 0x22 || escaped == 0x5c || escaped == 0x2f || escaped == 0x62
                    || escaped == 0x66 || escaped == 0x6e || escaped == 0x72 || escaped == 0x74 {
                } else if escaped == 0x75 {
                    let mut k: usize = 0;
                    while k < 4
                        invariant
                            self.wf(),
                            self.same_source(old(self)),
                            s == self.input@,
                            k <= 4,
                            o == old(self).offset as int,
                            o < at,
                            at + 1 < s.len(),
                            s[at as int] == 0x5c && s[at + 1] == 0x75,
                            string_rest(s, o + 1, utf8_idle()) == string_rest(s, at as int, utf8),
                            self.offset == at + 2 + k,
                            forall|j: int| at + 2 <= j < at + 2 + k ==> is_hex_digit(#[trigger] s[j]),
                            output@ == old(output)@ + s.subrange(o, self.offset as int),
                        decreases 4 - k,
                    {
                        let hex_at = self.offset;
                        let hex = self.next_required()?;
                        if !((0x30 <= hex && hex <= 0x39) || (0x41 <= hex && hex <= 0x46) || (0x61
                            <= hex && hex <= 0x66)) {
                            return Err(JsonError::InvalidUnicodeEscape { found: hex });
                        }
                        output.push(hex);
                        proof {
                            lemma_subrange_push(s, o, hex_at as int);
                        }
                        k += 1;
                    }
                    assert(is_hex_digit(s[at + 2]) && is_hex_digit(s[at + 3]) && is_hex_digit(
                        s[at + 4],
                    ) && is_hex_digit(s[at + 5]));
                } else {
                    return Err(JsonError::InvalidEscape { found: escaped });
                }
            } else if byte <= 0x1f {
                return Err(JsonError::ControlByte);
            } else {
                utf8.accept(byte)?;
            }
        }
    }
}


impl<'a> JsonFormatter<'a> {
    pub fn write_value(&mut self, output: &mut Vec<u8>, depth: usize) -> (r: Result<(), JsonError>)
        requires
            old(self).wf(),
            depth <= old(self).offset,
        ensures
            final(self).wf(),
            final(self).same_source(old(self)),
            r is Ok ==> final(self).offset > old(self).offset,
            match value_spec(old(self).input@, old(self).offset as int, depth as nat, old(self).indent@) {
                Some((e, out)) => r is Ok && final(self).offset == e && final(output)@ == old(output)@ + out,
                None => r is Err,
            },
        decreases old(self).input@.len() - old(self).offset, 1int,
    {
        let ghost s = self.input@;
        let ghost o = self.offset as int;
        proof {
            lemma_skip_ws_bounds(s, o);
        }
        self.skip_ws();
        let at = self.offset;
        match self.peek_byte() {
            Some(0x7b) => self.write_object(output, depth),
            Some(0x5b) => self.write_array(output, depth),
            Some(0x22) => self.write_string(output),
            Some(0x74) => {
                let lit: [u8; 4] = [0x74, 0x72, 0x75, 0x65];
                assert(lit@ =~= lit_true());
                self.write_literal(output, lit.as_slice())
            },
            Some(0x66) => {
                let lit: [u8; 5] = [0x66, 0x61, 0x6c, 0x73, 0x65];
                assert(lit@ =~= lit_false());
                self.write_literal(output, lit.as_slice())
            },
            Some(0x6e) => {
                let lit: [u8; 4] = [0x6e, 0x75, 0x6c, 0x6c];
                assert(lit@ =~= lit_null());
                self.write_literal(output, lit.as_slice())
            },
            Some(byte) => {
                if byte == 0x2d || (0x30 <= byte && byte <= 0x39) {
                    self.write_number(output)
                } else {
                    Err(JsonError::UnexpectedByte { offset: at, expected: None, found: byte })
                }
            },
            None => Err(JsonError::UnexpectedEnd),
        }
    }

    pub fn write_object(&mut self, output: &mut Vec<u8>, depth: usize) -> (r: Result<(), JsonError>)
        requires
            old(self).wf(),
            depth <= old(self).offset,
            old(self).offset < old(self).input@.len(),
            old(self).input@[old(self).offset as int] == 0x7b,
        ensures
            final(self).wf(),
            final(self).same_source(old(self)),
            r is Ok ==> final(self).offset > old(self).offset,
            match object_spec(old(self).input@, old(self).offset + 1, depth as nat, old(self).indent@) {
                Some((e, out)) => r is Ok && final(self).offset == e && final(output)@ == old(output)@ + out,
                None => r is Err,
            },
        decreases old(self).input@.len() - old(self).offset, 0int,
    {
        let ghost s = self.input@;
        let ghost o = self.offset as int;
        self.expect_byte(0x7b)?;
        output.push(0x7b);
        proof {
            lemma_skip_ws_bounds(s, o + 1);
        }
        self.skip_ws();
        if self.consume_if(0x7d) {
            output.push(0x7d);
            assert(output@ =~= old(output)@ + seq![0x7bu8, 0x7du8]);
            return Ok(());
        }
        proof {
            lemma_skip_ws_idempotent(s, o + 1);
        }
        let ghost mid = output@;
        let r = self.write_pretty_object(output, depth);
        proof {
            match members_spec(s, skip_ws_spec(s, o + 1), depth as nat, self.indent@) {
                Some((e, out)) => {
                    assert(output@ =~= old(output)@ + (seq![0x7bu8] + out));
                },
                None => {},
            }
        }
        r
    }

    #[verifier::spinoff_prover]
    #[verifier::rlimit(100)]
    pub fn write_pretty_object(&mut self, output: &mut Vec<u8>, depth: usize) -> (r: Result<
        (),
        JsonError,
    >)
        requires
            old(self).wf(),
            depth < old(self).offset,
        ensures
            final(self).wf(),
            final(self).same_source(old(self)),
            r is Ok ==> final(self).offset > old(self).offset,
            match members_spec(old(self).input@, old(self).offset as int, depth as nat, old(self).indent@) {
                Some((e, out)) => r is Ok && final(self).offset == e && final(output)@ == old(output)@ + out,
                None => r is Err,
            },
        decreases old(self).input@.len() - old(self).offset, 2int,
    {
        let ghost s = self.input@;
        let ghost o = self.offset as int;
        let ghost ind = self.indent@;
        let ghost d = depth as nat;
        let ghost mut acc: Seq<u8> = Seq::empty();
        assert(prepend_out(acc, members_spec(s, o, d, ind)) =~= members_spec(s, o, d, ind)) by {
            match members_spec(s, o, d, ind) {
                Some((e, out)) => {
                    assert(acc + out =~= out);
                },
                None => {},
            }
        }
        loop
            invariant
                self.wf(),
                self.same_source(old(self)),
                s == self.input@,
                ind == self.indent@,
                o == old(self).offset as int,
                d == depth as nat,
                depth < o,
                o <= self.offset,
                output@ == old(output)@ + acc,
                members_spec(s, o, d, ind) == prepend_out(acc, members_spec(s, self.offset as int, d, ind)),
            decreases s.len() - self.offset,
        {
            let ghost p = self.offset as int;
            let ghost before = output@;
            output.push(0x0a);
            self.write_indent(output, depth + 1);
            let ghost nl = newline_indent(ind, (d + 1) as nat);
            assert(output@ =~= before + nl);
            proof {
                lemma_skip_ws_bounds(s, p);
            }
            self.skip_ws();
            let ghost k = self.offset as int;
            let ghost before_key = output@;
            let key = self.write_string(output);
            if key.is_err() {
                return key;
            }
            let ghost key_end = self.offset as int;
            proof {
                lemma_skip_ws_bounds(s, key_end);
            }
            self.skip_ws();
            self.expect_byte(0x3a)?;
            output.push(0x3a);
            output.push(0x20);
            let ghost c = key_end;
            let ghost before_value = output@;
            let v = self.write_value(output, depth + 1);
            if v.is_err() {
                return v;
            }
            let ghost v_end = self.offset as int;
            let ghost v_out = output@.subrange(before_value.len() as int, output@.len() as int);
            assert(output@ =~= before_value + v_out);
            let ghost head = nl + s.subrange(k, key_end) + seq![0x3au8, 0x20u8] + v_out;
            assert(output@ =~= before + head);
            proof {
                lemma_skip_ws_bounds(s, v_end);
            }
            let sep = self.read_separator(0x7d);
            match sep {
                Ok(JsonSeparator::Comma) => {
                    output.push(0x2c);
                    proof {
                        assert(output@ =~= old(output)@ + (acc + (head + seq![0x2cu8])));
                        let new_acc = acc + (head + seq![0x2cu8]);
                        match members_spec(s, self.offset as int, d, ind) {
                            Some((e, rest)) => {
                                assert(new_acc + rest =~= acc + (head + seq![0x2cu8] + rest));
                            },
                            None => {},
                        }
                        acc = new_acc;
                    }
                },
                Ok(JsonSeparator::End) => {
                    output.push(0x0a);
                    self.write_indent(output, depth);
                    output.push(0x7d);
                    assert(output@ =~= old(output)@ + (acc + (head + newline_indent(ind, d) + seq![0x7du8])));
                    return Ok(());
                },
                Err(e) => {
                    return Err(e);
                },
            }
        }
    }

    pub fn write_array(&mut self, output: &mut Vec<u8>, depth: usize) -> (r: Result<(), JsonError>)
        requires
            old(self).wf(),
            depth <= old(self).offset,
            old(self).offset < old(self).input@.len(),
            old(self).input@[old(self).offset as int] == 0x5b,
        ensures
            final(self).wf(),
            final(self).same_source(old(self)),
            r is Ok ==> final(self).offset > old(self).offset,
            match array_spec(old(self).input@, old(self).offset + 1, depth as nat, old(self).indent@) {
                Some((e, out)) => r is Ok && final(self).offset == e && final(output)@ == old(output)@ + out,
                None => r is Err,
            },
        decreases old(self).input@.len() - old(self).offset, 0int,
    {
        let ghost s = self.input@;
        let ghost o = self.offset as int;
        self.expect_byte(0x5b)?;
        output.push(0x5b);
        proof {
            lemma_skip_ws_bounds(s, o + 1);
        }
        self.skip_ws();
        if self.consume_if(0x5d) {
            output.push(0x5d);
            assert(output@ =~= old(output)@ + seq![0x5bu8, 0x5du8]);
            return Ok(());
        }
        let r = self.write_pretty_array(output, depth);
        proof {
            match elements_spec(s, skip_ws_spec(s, o + 1), depth as nat, self.indent@) {
                Some((e, out)) => {
                    assert(output@ =~= old(output)@ + (seq![0x5bu8] + out));
                },
                None => {},
            }
        }
        r
    }

    #[verifier::spinoff_prover]
    #[verifier::rlimit(100)]
    pub fn write_pretty_array(&mut self, output: &mut Vec<u8>, depth: usize) -> (r: Result<
        (),
        JsonError,
    >)
        requires
            old(self).wf(),
            depth < old(self).offset,
        ensures
            final(self).wf(),
            final(self).same_source(old(self)),
            r is Ok ==> final(self).offset > old(self).offset,
            match elements_spec(old(self).input@, old(self).offset as int, depth as nat, old(self).indent@) {
                Some((e, out)) => r is Ok && final(self).offset == e && final(output)@ == old(output)@ + out,
                None => r is Err,
            },
        decreases old(self).input@.len() - old(self).offset, 2int,
    {
        let ghost s = self.input@;
        let ghost o = self.offset as int;
        let ghost ind = self.indent@;
        let ghost d = depth as nat;
        let ghost mut acc: Seq<u8> = Seq::empty();
        assert(prepend_out(acc, elements_spec(s, o, d, ind)) =~= elements_spec(s, o, d, ind)) by {
            match elements_spec(s, o, d, ind) {
                Some((e, out)) => {
                    assert(acc + out =~= out);
                },
                None => {},
            }
        }
        loop
            invariant
                self.wf(),
                self.same_source(old(self)),
                s == self.input@,
                ind == self.indent@,
                o == old(self).offset as int,
                d == depth as nat,
                depth < o,
                o <= self.offset,
                output@ == old(output)@ + acc,
                elements_spec(s, o, d, ind) == prepend_out(acc, elements_spec(s, self.offset as int, d, ind)),
            decreases s.len() - self.offset,
        {
            let ghost p = self.offset as int;
            let ghost before = output@;
            output.push(0x0a);
            self.write_indent(output, depth + 1);
            let ghost nl = newline_indent(ind, (d + 1) as nat);
            assert(output@ =~= before + nl);
            let ghost before_value = output@;
            let v = self.write_value(output, depth + 1);
            if v.is_err() {
                return v;
            }
            let ghost v_end = self.offset as int;
            let ghost v_out = output@.subrange(before_value.len() as int, output@.len() as int);
            assert(output@ =~= before_value + v_out);
            let ghost head = nl + v_out;
            assert(output@ =~= before + head);
            proof {
                lemma_skip_ws_bounds(s, v_end);
            }
            let sep = self.read_separator(0x5d);
            match sep {
                Ok(JsonSeparator::Comma) => {
                    output.push(0x2c);
                    proof {
                        assert(output@ =~= old(output)@ + (acc + (head + seq![0x2cu8])));
                        let new_acc = acc + (head + seq![0x2cu8]);
                        match elements_spec(s, self.offset as int, d, ind) {
                            Some((e, rest)) => {
                                assert(new_acc + rest =~= acc + (head + seq![0x2cu8] + rest));
                            },
                            None => {},
                        }
                        acc = new_acc;
                    }
                },
                Ok(JsonSeparator::End) => {
                    output.push(0x0a);
                    self.write_indent(output, depth);
                    output.push(0x5d);
                    assert(output@ =~= old(output)@ + (acc + (head + newline_indent(ind, d) + seq![0x5du8])));
                    return Ok(());
                },
                Err(e) => {
                    return Err(e);
                },
            }
        }
    }
}

pub proof fn lemma_value_spec_skip(s: Seq<u8>, p: int, d: nat, ind: Seq<u8>)
    requires
        0 <= p <= s.len(),
    ensures
        value_spec(s, skip_ws_spec(s, p), d, ind) == value_spec(s, p, d, ind),
{
    lemma_skip_ws_bounds(s, p);
    lemma_skip_ws_idempotent(s, p);
}

impl<'a> JsonFormatter<'a> {
    pub fn format(&mut self, output: &mut Vec<u8>) -> (r: Result<(), JsonError>)
        requires
            old(self).wf(),
            old(self).offset == 0,
        ensures
            match value_spec(old(self).input@, 0, 0, old(self).indent@) {
                Some((e, out)) => if skip_ws_spec(old(self).input@, e) == old(self).input@.len() {
                    r is Ok && final(output)@ == old(output)@ + out
                } else {
                    r is Err
                },
                None => r is Err,
            },
    {
        let ghost s = self.input@;
        proof {
            lemma_value_spec_skip(s, 0, 0, self.indent@);
            lemma_skip_ws_bounds(s, 0);
        }
        self.skip_ws();
        self.write_value(output, 0)?;
        let ghost e = self.offset as int;
        self.skip_ws();
        let at = self.offset;
        if self.peek_byte().is_some() {
            return Err(JsonError::TrailingCharacters { offset: at });
        }
        Ok(())
    }
}

/// The spaces of one indentation level.
pub fn indent_unit(indent: usize) -> (v: Vec<u8>)
    ensures
        v@ == Seq::new(indent as nat, |i: int| 0x20u8),
{
    let mut v: Vec<u8> = Vec::new();
    while v.len() < indent
        invariant
            v.len() <= indent,
            v@ == Seq::new(v.len() as nat, |i: int| 0x20u8),
        decreases indent - v.len(),
    {
        v.push(0x20);
        assert(v@ =~= Seq::new(v.len() as nat, |i: int| 0x20u8));
    }
    v
}

/// Pretty-prints one JSON document, indenting nested values by `indent`
/// spaces per level.  The result is the pretty form exactly when the input
/// is one well-formed JSON value with only whitespace around it.
pub fn format_json_value(input: &[u8], indent: usize) -> (r: Result<Vec<u8>, JsonError>)
    ensures
        match format_json_spec(input@, indent as nat) {
            Some(out) => r is Ok && r->Ok_0@ == out,
            None => r is Err,
        },
{
    let n = input.len();
    assert(input@.len() == n);
    let mut formatter = JsonFormatter { input, indent: indent_unit(indent), offset: 0 };
    let mut output: Vec<u8> = Vec::new();
    formatter.format(&mut output)?;
    assert(output@ =~= Seq::<u8>::empty() + output@);
    Ok(output)
}

/// Pretty-prints a JSON file: its one value, then a new line.
pub fn format_json(input: &[u8], indent: usize) -> (r: Result<Vec<u8>, JsonError>)
    ensures
        match format_json_spec(input@, indent as nat) {
            Some(out) => r is Ok && r->Ok_0@ == out.push(0x0a),
            None => r is Err,
        },
{
    let mut output = format_json_value(input, indent)?;
    output.push(0x0a);
    Ok(output)
}
} // verus!

verus! {

/// `line` without one trailing `\n` and then one trailing `\r`.
pub open spec fn trim_line_end_spec(line: Seq<u8>) -> Seq<u8> {
    let a = if line.len() > 0 && line.last() == 0x0a {
        line.drop_last()
    } else {
        line
    };
    if a.len() > 0 && a.last() == 0x0d {
        a.drop_last()
    } else {
        a
    }
}

/// Drops one line ending: a trailing `\n`, then a trailing `\r`.
pub fn trim_line_end(line: &[u8]) -> (r: &[u8])
    ensures
        r@ == trim_line_end_spec(line@),
{
    let mut end = line.len();
    if end > 0 && line[end - 1] == 0x0a {
        end = end - 1;
    }
    if end > 0 && line[end - 1] == 0x0d {
        end = end - 1;
    }
    let r = &line[0..end];
    assert(r@ =~= trim_line_end_spec(line@));
    r
}

pub open spec fn is_ascii_graphic(b: u8) -> bool {
    0x21 <= b <= 0x7e
}

pub open spec fn hex_digit_char(v: int) -> char {
    if v < 10 {
        ((0x30 + v) as u32) as char
    } else {
        ((0x61 + v - 10) as u32) as char
    }
}

/// How a byte is named in an error message: `'x'` for a printable ASCII
/// byte or space, else `0x` and two lower-case hex digits.
pub open spec fn describe_byte_spec(b: u8) -> Seq<char> {
    if is_ascii_graphic(b) || b == 0x20 {
        seq!['\'', (b as u32) as char, '\'']
    } else {
        seq!['0', 'x', hex_digit_char(b as int / 16), hex_digit_char(b as int % 16)]
    }
}

fn hex_digit(v: u8) -> (c: char)
    requires
        v < 16,
    ensures
        c == hex_digit_char(v as int),
{
    if v < 10 {
        (0x30u8 + v) as char
    } else {
        (0x61u8 + v - 10) as char
    }
}

/// Names a byte for an error message.
pub fn describe_byte(byte: u8) -> (s: String)
    ensures
        s@ == describe_byte_spec(byte),
{
    let mut s = String::new();
    if (0x21 <= byte && byte <= 0x7e) || byte == 0x20 {
        string_push(&mut s, '\'');
        string_push(&mut s, byte as char);
        string_push(&mut s, '\'');
    } else {
        string_push(&mut s, '0');
        string_push(&mut s, 'x');
        string_push(&mut s, hex_digit(byte / 16));
        string_push(&mut s, hex_digit(byte % 16));
    }
    assert(s@ =~= describe_byte_spec(byte));
    s
}

} // verus!

verus! {

/// The first index at or after `p` that holds `\n`, or the length.
pub open spec fn newline_from(s: Seq<u8>, p: int) -> int
    decreases s.len() - p,
{
    if p < 0 || p >= s.len() {
        s.len() as int
    } else if s[p] == 0x0a {
        p
    } else {
        newline_from(s, p + 1)
    }
}

pub open spec fn all_ascii_ws(s: Seq<u8>) -> bool {
    forall|i: int|
        0 <= i < s.len() ==> (#[trigger] s[i] == 0x20 || s[i] == 0x09 || s[i] == 0x0a || s[i]
            == 0x0c || s[i] == 0x0d)
}

/// JSON lines from `p` on: each line (with its `\n`, if any) is formatted
/// as one JSON value and followed by `\n`; a blank line stays one `\n`.
pub open spec fn jsonl_from(s: Seq<u8>, p: int, indent: nat) -> Option<Seq<u8>>
    decreases s.len() - p,
{
    if p < 0 || p >= s.len() {
        Some(Seq::empty())
    } else {
        let nl = newline_from(s, p);
        let end = if nl < s.len() {
            nl + 1
        } else {
            s.len() as int
        };
        if end <= p {
            None
        } else {
            let line = trim_line_end_spec(s.subrange(p, end));
            let head = if all_ascii_ws(line) {
                Some(Seq::<u8>::empty())
            } else {
                format_json_spec(line, indent)
            };
            match head {
                Some(h) => match jsonl_from(s, end, indent) {
                    Some(rest) => Some(h + seq![0x0au8] + rest),
                    None => None,
                },
                None => None,
            }
        }
    }
}

/// The 1-based number of the first line from `p` on whose record does not
/// format, counting the line at `p` as line `line + 1` (0 when all do).
pub open spec fn jsonl_failure(s: Seq<u8>, p: int, indent: nat, line: int) -> int
    decreases s.len() - p,
{
    if p < 0 || p >= s.len() {
        0
    } else {
        let nl = newline_from(s, p);
        let end = if nl < s.len() {
            nl + 1
        } else {
            s.len() as int
        };
        if end <= p {
            0
        } else {
            let record = trim_line_end_spec(s.subrange(p, end));
            if !all_ascii_ws(record) && format_json_spec(record, indent) is None {
                line + 1
            } else {
                jsonl_failure(s, end, indent, line + 1)
            }
        }
    }
}

/// A JSON lines record that failed, and why.
#[derive(Debug, Clone, Copy, PartialEq, Eq)]
pub struct JsonlError {
    /// The 1-based line number.
    pub line: usize,
    pub error: JsonError,
}

pub proof fn lemma_newline_bounds(s: Seq<u8>, p: int)
    requires
        0 <= p <= s.len(),
    ensures
        p <= newline_from(s, p) <= s.len(),
        newline_from(s, p) < s.len() ==> s[newline_from(s, p)] == 0x0a,
    decreases s.len() - p,
{
    if p < s.len() && s[p] != 0x0a {
        lemma_newline_bounds(s, p + 1);
    }
}

/// Formats JSON lines: every line becomes its pretty JSON value followed by
/// a new line, and a blank line stays a blank line.
pub fn format_jsonl(input: &[u8], indent: usize) -> (r: Result<Vec<u8>, JsonlError>)
    ensures
        match jsonl_from(input@, 0, indent as nat) {
            Some(out) => r is Ok && r->Ok_0@ == out,
            None => r is Err && r->Err_0.line == jsonl_failure(input@, 0, indent as nat, 0),
        },
{
    let ghost s = input@;
    let mut output: Vec<u8> = Vec::new();
    let mut p: usize = 0;
    let mut line_number: usize = 0;
    assert(jsonl_from(s, 0, indent as nat) == crate::transform::json::prepend_opt(
        output@,
        jsonl_from(s, 0, indent as nat),
    )) by {
        match jsonl_from(s, 0, indent as nat) {
            Some(o) => assert(output@ + o =~= o),
            None => {},
        }
    }
    while p < input.len()
        invariant
            s == input@,
            p <= input.len(),
            line_number <= p,
            jsonl_from(s, 0, indent as nat) == prepend_opt(output@, jsonl_from(s, p as int, indent as nat)),
            jsonl_failure(s, 0, indent as nat, 0) == jsonl_failure(s, p as int, indent as nat, line_number as int),
        decreases input.len() - p,
    {
        proof {
            lemma_newline_bounds(s, p as int);
        }
        let mut q = p;
        while q < input.len() && input[q] != 0x0a
            invariant
                p <= q <= input.len(),
                s == input@,
                newline_from(s, q as int) == newline_from(s, p as int),
            decreases input.len() - q,
        {
            q += 1;
        }
        let end = if q < input.len() {
            q + 1
        } else {
            q
        };
        line_number += 1;
        let trimmed = trim_line_end(&input[p..end]);
        let mut blank = true;
        let mut i: usize = 0;
        while i < trimmed.len()
            invariant
                i <= trimmed.len(),
                blank == forall|j: int|
                    0 <= j < i ==> (#[trigger] trimmed@[j] == 0x20 || trimmed@[j] == 0x09
                        || trimmed@[j] == 0x0a || trimmed@[j] == 0x0c || trimmed@[j] == 0x0d),
            decreases trimmed.len() - i,
        {
            let b = trimmed[i];
            if !(b == 0x20 || b == 0x09 || b == 0x0a || b == 0x0c || b == 0x0d) {
                blank = false;
            }
            i += 1;
        }
        assert(blank == all_ascii_ws(trimmed@));
        let ghost before = output@;
        if !blank {
            match format_json_value(trimmed, indent) {
                Ok(formatted) => {
                    push_bytes(&mut output, formatted.as_slice());
                },
                Err(error) => {
                    return Err(JsonlError { line: line_number, error });
                },
            }
        }
        output.push(0x0a);
        proof {
            assert(input@.subrange(p as int, end as int) == s.subrange(p as int, end as int));
            match jsonl_from(s, end as int, indent as nat) {
                Some(rest) => {
                    assert(before + (output@.subrange(before.len() as int, output@.len() as int) + rest) =~= output@ + rest);
                },
                None => {},
            }
            assert(output@ =~= before + output@.subrange(before.len() as int, output@.len() as int));
        }
        p = end;
    }
    proof {
        assert(output@ + Seq::<u8>::empty() =~= output@);
    }
    Ok(output)
}

/// `res` with `acc` in front of its output.
pub open spec fn prepend_opt(acc: Seq<u8>, res: Option<Seq<u8>>) -> Option<Seq<u8>> {
    match res {
        Some(out) => Some(acc + out),
        None => None,
    }
}

} // verus!
