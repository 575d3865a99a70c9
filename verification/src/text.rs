use vstd::prelude::*;
use vstd::utf8::*;
use vstd::string::StringSliceAdditionalSpecFns;

verus! {

/// Number of bytes that UTF-8 spends on `c`.
pub open spec fn utf8_len(c: char) -> nat {
    let v = c as u32;
    if v < 0x80 {
        1
    } else if v < 0x800 {
        2
    } else if v < 0x10000 {
        3
    } else {
        4
    }
}

/// Number of bytes that UTF-8 spends on all of `cs`.
pub open spec fn byte_len(cs: Seq<char>) -> nat
    decreases cs.len(),
{
    if cs.len() == 0 {
        0
    } else {
        byte_len(cs.drop_last()) + utf8_len(cs.last())
    }
}

/// No char takes more than four bytes.
pub proof fn lemma_byte_len_bound(cs: Seq<char>)
    ensures
        cs.len() <= byte_len(cs) <= 4 * cs.len(),
    decreases cs.len(),
{
    if cs.len() > 0 {
        lemma_byte_len_bound(cs.drop_last());
    }
}

/// The byte offset at which the `i`-th char of `cs` starts.
pub open spec fn byte_offset(cs: Seq<char>, i: int) -> nat {
    byte_len(cs.take(i))
}

pub proof fn lemma_encode_scalar_len(c: char)
    ensures
        encode_scalar(c as u32).len() == utf8_len(c),
{
    char_is_scalar(c);
}

pub proof fn lemma_encode_utf8_append(a: Seq<char>, b: Seq<char>)
    ensures
        encode_utf8(a + b) == encode_utf8(a) + encode_utf8(b),
    decreases a.len(),
{
    if a.len() == 0 {
        assert(a + b =~= b);
        assert(encode_utf8(a) =~= Seq::<u8>::empty());
        assert(encode_utf8(a) + encode_utf8(b) =~= encode_utf8(b));
    } else {
        assert((a + b).drop_first() =~= a.drop_first() + b);
        lemma_encode_utf8_append(a.drop_first(), b);
        assert(encode_utf8(a + b) =~= encode_scalar(a[0] as u32) + encode_utf8(a.drop_first() + b));
        assert(encode_utf8(a) + encode_utf8(b) =~= encode_scalar(a[0] as u32) + (encode_utf8(
            a.drop_first(),
        ) + encode_utf8(b)));
    }
}

pub proof fn lemma_encode_utf8_len(cs: Seq<char>)
    ensures
        encode_utf8(cs).len() == byte_len(cs),
    decreases cs.len(),
{
    if cs.len() > 0 {
        let init = cs.drop_last();
        assert(cs =~= init + seq![cs.last()]);
        lemma_encode_utf8_append(init, seq![cs.last()]);
        lemma_encode_utf8_len(init);
        let one = seq![cs.last()];
        assert(one.drop_first() =~= Seq::<char>::empty());
        assert(encode_utf8(one) =~= encode_scalar(cs.last() as u32) + encode_utf8(
            Seq::<char>::empty(),
        ));
        lemma_encode_scalar_len(cs.last());
    }
}

/// The bytes of a `&str` are as many as `byte_len` of its chars.
pub proof fn lemma_str_len(s: &str)
    ensures
        s.spec_bytes().len() == byte_len(s@),
{
    lemma_encode_utf8_len(s@);
}

pub proof fn lemma_byte_offset_step(cs: Seq<char>, i: int)
    requires
        0 <= i < cs.len(),
    ensures
        byte_offset(cs, i + 1) == byte_offset(cs, i) + utf8_len(cs[i]),
{
    assert(cs.take(i + 1).drop_last() =~= cs.take(i));
}

pub proof fn lemma_byte_offset_full(cs: Seq<char>)
    ensures
        byte_offset(cs, cs.len() as int) == byte_len(cs),
{
    assert(cs.take(cs.len() as int) =~= cs);
}

/// UTF-8 length of one char.
pub fn char_utf8_len(c: char) -> (n: usize)
    ensures
        n == utf8_len(c),
        1 <= n <= 4,
{
    let v = c as u32;
    if v < 0x80 {
        1
    } else if v < 0x800 {
        2
    } else if v < 0x10000 {
        3
    } else {
        4
    }
}

/// The chars of `s`, in order.
pub fn chars_of(s: &str) -> (v: Vec<char>)
    ensures
        v@ == s@,
{
    let mut v: Vec<char> = Vec::new();
    for c in it: s.chars()
        invariant
            v@ == it.seq().take(it.index() as int),
            it.seq() == s@,
    {
        v.push(c);
    }
    v
}

} // verus!

verus! {

/// Appends `c` to `s` (`String::push`).
#[verifier::external_body]
pub fn string_push(s: &mut String, c: char)
    ensures
        final(s)@ == old(s)@.push(c),
{
    s.push(c);
}

/// Appends all of `cs` to `s`.
pub fn push_chars(s: &mut String, cs: &[char])
    ensures
        final(s)@ == old(s)@ + cs@,
{
    let mut i: usize = 0;
    while i < cs.len()
        invariant
            i <= cs.len(),
            s@ == old(s)@ + cs@.subrange(0, i as int),
        decreases cs.len() - i,
    {
        string_push(s, cs[i]);
        i += 1;
        assert(s@ =~= old(s)@ + cs@.subrange(0, i as int));
    }
    assert(cs@.subrange(0, cs.len() as int) =~= cs@);
}

/// A string holding `cs`.
pub fn string_from_chars(cs: &[char]) -> (s: String)
    ensures
        s@ == cs@,
{
    let mut s = String::new();
    push_chars(&mut s, cs);
    assert(s@ =~= cs@);
    s
}

/// Appends `t` to `s`.
pub fn push_str(s: &mut String, t: &str)
    ensures
        final(s)@ == old(s)@ + t@,
{
    let cs = chars_of(t);
    push_chars(s, cs.as_slice());
}

/// The Unicode `White_Space` property (what `char::is_whitespace` tests).
pub open spec fn is_ws(c: char) -> bool {
    let v = c as u32;
    (0x09 <= v <= 0x0d) || v == 0x20 || v == 0x85 || v == 0xa0 || v == 0x1680 || (0x2000 <= v
        <= 0x200a) || v == 0x2028 || v == 0x2029 || v == 0x202f || v == 0x205f || v == 0x3000
}

/// Whether `c` is Unicode whitespace.
pub fn is_whitespace(c: char) -> (r: bool)
    ensures
        r == is_ws(c),
{
    let v = c as u32;
    (0x09 <= v && v <= 0x0d) || v == 0x20 || v == 0x85 || v == 0xa0 || v == 0x1680 || (0x2000
        <= v && v <= 0x200a) || v == 0x2028 || v == 0x2029 || v == 0x202f || v == 0x205f || v
        == 0x3000
}

} // verus!

verus! {

/// What `String::from_utf8_lossy` makes of `bytes`.
pub uninterp spec fn lossy_utf8(bytes: Seq<u8>) -> Seq<char>;

/// Decodes `bytes` as UTF-8 (`String::from_utf8`); `None` when they are not UTF-8.
#[verifier::external_body]
pub fn string_from_utf8(bytes: Vec<u8>) -> (r: Option<String>)
    ensures
        r is Some <==> vstd::utf8::valid_utf8(bytes@),
        r matches Some(s) ==> s@ == vstd::utf8::decode_utf8(bytes@),
{
    String::from_utf8(bytes).ok()
}

/// Decodes `bytes` as UTF-8, putting U+FFFD where they are not
/// (`String::from_utf8_lossy`).  Valid UTF-8 decodes as it is.
#[verifier::external_body]
pub fn string_from_utf8_lossy(bytes: &[u8]) -> (s: String)
    ensures
        s@ == lossy_utf8(bytes@),
        vstd::utf8::valid_utf8(bytes@) ==> s@ == vstd::utf8::decode_utf8(bytes@),
{
    String::from_utf8_lossy(bytes).into_owned()
}

/// The first index at or after `p` that holds `c`, or the length.
pub open spec fn find_char_from(cs: Seq<char>, p: int, c: char) -> int
    decreases cs.len() - p,
{
    if p < 0 || p >= cs.len() {
        cs.len() as int
    } else if cs[p] == c {
        p
    } else {
        find_char_from(cs, p + 1, c)
    }
}

/// `line` without a trailing `\n`, and then, only if there was one, without
/// a trailing `\r`.
pub open spec fn strip_line_ending(line: Seq<char>) -> Seq<char> {
    if line.len() > 0 && line.last() == '\n' {
        let a = line.drop_last();
        if a.len() > 0 && a.last() == '\r' {
            a.drop_last()
        } else {
            a
        }
    } else {
        line
    }
}

/// The lines of `cs[p..]` as `str::lines` yields them: split after each
/// `\n`, each without its `\n` or `\r\n`.
pub open spec fn lines_from(cs: Seq<char>, p: int) -> Seq<Seq<char>>
    decreases cs.len() - p,
{
    if p < 0 || p >= cs.len() {
        Seq::empty()
    } else {
        let nl = find_char_from(cs, p, '\n');
        let end = if nl < cs.len() {
            nl + 1
        } else {
            cs.len() as int
        };
        if end <= p {
            Seq::empty()
        } else {
            seq![strip_line_ending(cs.subrange(p, end))] + lines_from(cs, end)
        }
    }
}

pub proof fn lemma_find_char_bounds(cs: Seq<char>, p: int, c: char)
    requires
        0 <= p <= cs.len(),
    ensures
        p <= find_char_from(cs, p, c) <= cs.len(),
        find_char_from(cs, p, c) < cs.len() ==> cs[find_char_from(cs, p, c)] == c,
        forall|i: int| p <= i < find_char_from(cs, p, c) ==> cs[i] != c,
    decreases cs.len() - p,
{
    if p < cs.len() && cs[p] != c {
        lemma_find_char_bounds(cs, p + 1, c);
    }
}

/// The lines of `s`, as `str::lines` splits them.
pub fn split_lines(s: &str) -> (lines: Vec<String>)
    ensures
        lines@.len() == lines_from(s@, 0).len(),
        forall|i: int| 0 <= i < lines@.len() ==> #[trigger] lines@[i]@ == lines_from(s@, 0)[i],
{
    let cs = chars_of(s);
    let mut lines: Vec<String> = Vec::new();
    let mut p: usize = 0;
    let ghost mut done: Seq<Seq<char>> = Seq::empty();
    while p < cs.len()
        invariant
            cs@ == s@,
            p <= cs.len(),
            lines@.len() == done.len(),
            forall|i: int| 0 <= i < lines@.len() ==> #[trigger] lines@[i]@ == done[i],
            lines_from(s@, 0) == done + lines_from(s@, p as int),
        decreases cs.len() - p,
    {
        let mut q = p;
        while q < cs.len() && cs[q] != '\n'
            invariant
                p <= q <= cs.len(),
                find_char_from(cs@, q as int, '\n') == find_char_from(cs@, p as int, '\n'),
            decreases cs.len() - q,
        {
            q += 1;
        }
        let end = if q < cs.len() {
            q + 1
        } else {
            q
        };
        let mut line_end = end;
        if line_end > p && cs[line_end - 1] == '\n' {
            line_end -= 1;
            if line_end > p && cs[line_end - 1] == '\r' {
                line_end -= 1;
            }
        }
        let line = string_from_chars(&cs.as_slice()[p..line_end]);
        proof {
            let full = cs@.subrange(p as int, end as int);
            assert(cs@.subrange(p as int, line_end as int) =~= strip_line_ending(full));
            let old_done = done;
            done = done.push(strip_line_ending(full));
            assert(lines_from(s@, p as int) =~= seq![strip_line_ending(full)] + lines_from(
                s@,
                end as int,
            ));
            assert(old_done + lines_from(s@, p as int) =~= done + lines_from(s@, end as int));
        }
        lines.push(line);
        p = end;
    }
    assert(done + lines_from(s@, p as int) =~= done);
    lines
}

} // verus!

verus! {

pub proof fn lemma_byte_offset_mono(cs: Seq<char>, i: int, j: int)
    requires
        0 <= i <= j <= cs.len(),
    ensures
        byte_offset(cs, i) <= byte_offset(cs, j),
        byte_offset(cs, j) <= byte_len(cs),
    decreases cs.len() - i,
{
    if i < j {
        lemma_byte_offset_step(cs, i);
        lemma_byte_offset_mono(cs, i + 1, j);
    } else {
        if j < cs.len() {
            lemma_byte_offset_step(cs, j);
            lemma_byte_offset_mono(cs, j + 1, cs.len() as int);
        } else {
            lemma_byte_offset_full(cs);
        }
    }
}

/// The chars and the UTF-8 bytes of one line.
pub struct LineText {
    pub chars: Vec<char>,
    pub bytes: Vec<u8>,
}

impl LineText {
    pub open spec fn wf(&self) -> bool {
        &&& self.bytes@ == encode_utf8(self.chars@)
        &&& self.bytes@.len() == byte_len(self.chars@)
        &&& self.bytes@.len() <= usize::MAX
    }

    pub fn new(s: &str) -> (t: Self)
        ensures
            t.wf(),
            t.chars@ == s@,
            t.bytes@ == s.spec_bytes(),
    {
        let chars = chars_of(s);
        let bytes = crate::bytes::bytes_to_vec(s.as_bytes());
        proof {
            lemma_encode_utf8_len(s@);
        }
        let n = bytes.len();
        assert(bytes@.len() == n);
        LineText { chars, bytes }
    }
}

} // verus!

verus! {

pub proof fn lemma_byte_offset_strict(cs: Seq<char>, i: int, j: int)
    requires
        0 <= i < j <= cs.len(),
    ensures
        byte_offset(cs, i) < byte_offset(cs, j),
{
    lemma_byte_offset_step(cs, i);
    lemma_byte_offset_mono(cs, i + 1, j);
}

/// The byte at the offset of char `i` is the first byte of that char's encoding.
pub proof fn lemma_byte_at_offset(cs: Seq<char>, i: int)
    requires
        0 <= i < cs.len(),
    ensures
        byte_offset(cs, i) < encode_utf8(cs).len(),
        encode_utf8(cs)[byte_offset(cs, i) as int] == encode_scalar(cs[i] as u32)[0],
{
    let pre = cs.take(i);
    let post = cs.skip(i);
    assert(cs =~= pre + post);
    lemma_encode_utf8_append(pre, post);
    lemma_encode_utf8_len(pre);
    assert(post[0] == cs[i]);
    char_is_scalar(cs[i]);
    assert(encode_utf8(post) == encode_scalar(post[0] as u32) + encode_utf8(post.drop_first()));
    lemma_encode_scalar_len(cs[i]);
}

pub proof fn lemma_leading_byte_ascii(c: char)
    requires
        encode_scalar(c as u32)[0] < 0x80,
    ensures
        utf8_len(c) == 1,
{
    let v = c as u32;
    char_is_scalar(c);
    if has_width_2_encoding(v) {
        assert(leading_byte_width_2(v) >= 0xC0) by (bit_vector)
            requires leading_byte_width_2(v) == (0xC0 | ((v >> 6) & 0x1F) as u8);
    } else if has_width_3_encoding(v) {
        assert(leading_byte_width_3(v) >= 0xE0) by (bit_vector)
            requires leading_byte_width_3(v) == (0xE0 | ((v >> 12) & 0x0F) as u8);
    } else if has_width_4_encoding(v) {
        assert(leading_byte_width_4(v) >= 0xF0) by (bit_vector)
            requires leading_byte_width_4(v) == (0xF0 | ((v >> 18) & 0x7) as u8);
    }
}

/// Within a run of ASCII bytes, bytes and chars advance together.
pub proof fn lemma_ascii_run(cs: Seq<char>, sb: int, sc: int, n: int)
    requires
        0 <= sc <= cs.len(),
        sb == byte_offset(cs, sc),
        0 <= n,
        sb + n <= byte_len(cs),
        forall|k: int| sb <= k < sb + n ==> #[trigger] encode_utf8(cs)[k] < 0x80,
    ensures
        sc + n <= cs.len(),
        byte_offset(cs, sc + n) == sb + n,
    decreases n,
{
    if n > 0 {
        lemma_ascii_run(cs, sb, sc, n - 1);
        let i = sc + n - 1;
        lemma_byte_offset_full(cs);
        if i >= cs.len() {
            assert(byte_offset(cs, i) == byte_len(cs));
        }
        assert(i < cs.len());
        lemma_byte_at_offset(cs, i);
        assert(encode_utf8(cs)[sb + n - 1] < 0x80);
        lemma_leading_byte_ascii(cs[i]);
        lemma_byte_offset_step(cs, i);
    }
}

} // verus!

verus! {

/// `needle` occurs in `hay` starting at char `i`.
pub open spec fn occurs_at(hay: Seq<char>, needle: Seq<char>, i: int) -> bool {
    &&& 0 <= i
    &&& i + needle.len() <= hay.len()
    &&& hay.subrange(i, i + needle.len()) == needle
}

/// `needle` occurs somewhere in `hay` (what `str::contains` tests).
pub open spec fn contains_seq(hay: Seq<char>, needle: Seq<char>) -> bool {
    exists|i: int| occurs_at(hay, needle, i)
}

fn occurs_at_exec(hay: &[char], needle: &[char], i: usize) -> (r: bool)
    requires
        i + needle@.len() <= hay@.len(),
    ensures
        r == occurs_at(hay@, needle@, i as int),
{
    let hay_len = hay.len();
    let mut k: usize = 0;
    while k < needle.len()
        invariant
            k <= needle@.len(),
            i + needle@.len() <= hay@.len(),
            hay_len == hay@.len(),
            forall|j: int| 0 <= j < k ==> hay@[i + j] == needle@[j],
        decreases needle@.len() - k,
    {
        if hay[i + k] != needle[k] {
            assert(hay@.subrange(i as int, i + needle@.len())[k as int] != needle@[k as int]);
            return false;
        }
        k += 1;
    }
    assert(hay@.subrange(i as int, i + needle@.len()) =~= needle@);
    true
}

/// Whether `needle` occurs in `hay`.
pub fn str_contains(hay: &str, needle: &str) -> (r: bool)
    ensures
        r == contains_seq(hay@, needle@),
{
    let h = chars_of(hay);
    let n = chars_of(needle);
    if n.len() > h.len() {
        assert forall|j: int| !occurs_at(hay@, needle@, j) by {}
        return false;
    }
    let limit = h.len() - n.len();
    let mut i: usize = 0;
    loop
        invariant
            n@.len() <= h@.len(),
            limit == h@.len() - n@.len(),
            h@ == hay@,
            n@ == needle@,
            i <= limit,
            forall|j: int| 0 <= j < i ==> !occurs_at(hay@, needle@, j),
        ensures
            forall|j: int| 0 <= j <= limit ==> !occurs_at(hay@, needle@, j),
        decreases limit - i,
    {
        if occurs_at_exec(h.as_slice(), n.as_slice(), i) {
            return true;
        }
        if i == limit {
            break;
        }
        i += 1;
    }
    assert forall|j: int| !occurs_at(hay@, needle@, j) by {
        if 0 <= j <= limit {
        }
    }
    false
}

} // verus!
