//! Soft wrapping of one line into display rows.
use vstd::prelude::*;
use vstd::utf8::encode_utf8;
use vstd::string::StringSliceAdditionalSpecFns;

use crate::text::{
    byte_len, byte_offset, char_utf8_len, is_whitespace, is_ws, lemma_byte_offset_mono,
    lemma_byte_offset_step, lemma_encode_utf8_len, utf8_len, LineText,
};

verus! {

/// The display width that `unicode-width` gives a char (`None` for control
/// characters).
pub uninterp spec fn unicode_width(c: char) -> Option<usize>;

/// `UnicodeWidthChar::width` of `c`: its display width in columns, `None`
/// for a control character.  Printable ASCII is one column and C0/C1
/// controls have no width, as the crate's lookup code shows.
#[verifier::external_body]
fn unicode_char_width(c: char) -> (r: Option<usize>)
    ensures
        r == unicode_width(c),
        0x20 <= (c as u32) < 0x7f ==> r == Some(1usize),
        (c as u32) < 0x20 || (0x7f <= (c as u32) < 0xa0) ==> r is None,
{
    unicode_width::UnicodeWidthChar::width(c)
}

/// Columns a char takes on screen; control characters count as one.
pub open spec fn display_width(c: char) -> int {
    match unicode_width(c) {
        Some(w) => w as int,
        None => 1,
    }
}

pub fn char_display_width(c: char) -> (w: usize)
    ensures
        w == display_width(c),
{
    match unicode_char_width(c) {
        Some(w) => w,
        None => 1,
    }
}

pub open spec fn sat_add(a: int, b: int) -> int {
    if a + b > usize::MAX {
        usize::MAX as int
    } else {
        a + b
    }
}

pub open spec fn is_wrap_boundary_byte(b: u8) -> bool {
    b == 0x20 || b == 0x09 || b == 0x0a || b == 0x0c || b == 0x0d || b == 0x2c || b == 0x3e
        || b == 0x7d || b == 0x5d || b == 0x3b
}

pub open spec fn is_wrap_boundary_char(c: char) -> bool {
    is_ws(c) || c == ',' || c == '>' || c == '}' || c == ']' || c == ';'
}

/// Whether a row may end after this ASCII byte: whitespace or one of `,>}];`.
pub fn is_ascii_wrap_boundary(byte: u8) -> (r: bool)
    ensures
        r == is_wrap_boundary_byte(byte),
{
    byte == 0x20 || byte == 0x09 || byte == 0x0a || byte == 0x0c || byte == 0x0d || byte == 0x2c
        || byte == 0x3e || byte == 0x7d || byte == 0x5d || byte == 0x3b
}

/// The last index in `[lo, hi)` whose byte is a wrap boundary.
pub open spec fn last_boundary(bytes: Seq<u8>, lo: int, hi: int) -> Option<int>
    decreases hi - lo,
{
    if hi <= lo {
        None
    } else if is_wrap_boundary_byte(bytes[hi - 1]) {
        Some(hi - 1)
    } else {
        last_boundary(bytes, lo, hi - 1)
    }
}

pub open spec fn max1(x: int) -> int {
    if x < 1 {
        1
    } else {
        x
    }
}

/// Where a row of at most `row_width` ASCII columns that starts at byte `sb`
/// (char `sc`) ends: at the last boundary in its second half, or at the
/// width.
pub open spec fn ascii_wrap_end(bytes: Seq<u8>, sb: int, sc: int, row_width: int) -> (int, int) {
    let rw = max1(row_width);
    let hard = if sb + rw > bytes.len() {
        bytes.len() as int
    } else {
        sb + rw
    };
    if hard <= sb {
        (sb, sc)
    } else if hard >= bytes.len() {
        (bytes.len() as int, sc + (bytes.len() - sb))
    } else {
        let half = max1(rw / 2);
        let min_byte = sb + if half < hard - sb {
            half
        } else {
            hard - sb
        };
        match last_boundary(bytes, min_byte, hard) {
            Some(idx) => (idx + 1, sc + (idx + 1 - sb)),
            None => (hard, sc + (hard - sb)),
        }
    }
}

pub proof fn lemma_last_boundary(bytes: Seq<u8>, lo: int, hi: int)
    ensures
        last_boundary(bytes, lo, hi) matches Some(i) ==> lo <= i < hi && is_wrap_boundary_byte(
            bytes[i],
        ),
        last_boundary(bytes, lo, hi) is None ==> forall|i: int|
            lo <= i < hi ==> !is_wrap_boundary_byte(#[trigger] bytes[i]),
        forall|i: int|
            lo <= i < hi && is_wrap_boundary_byte(#[trigger] bytes[i]) ==> (last_boundary(
                bytes,
                lo,
                hi,
            ) matches Some(j) && i <= j),
    decreases hi - lo,
{
    if hi > lo && !is_wrap_boundary_byte(bytes[hi - 1]) {
        lemma_last_boundary(bytes, lo, hi - 1);
    }
}

/// An ASCII row that starts at byte `sb` and does not reach the end of the
/// line ends after a boundary byte (whitespace or one of `,>}];`) when one
/// lies in the second half of the row: after the last such byte there. Only
/// when none lies there is the row cut at its full width. The char position
/// moves with the byte position.
pub proof fn law_ascii_rows_break_at_boundaries(bytes: Seq<u8>, sb: int, sc: int, row_width: int)
    requires
        0 <= sb,
        sb + max1(row_width) < bytes.len(),
    ensures
        ({
            let rw = max1(row_width);
            let half = max1(rw / 2);
            let (end, end_char) = ascii_wrap_end(bytes, sb, sc, row_width);
            &&& sb < end <= sb + rw
            &&& end_char == sc + (end - sb)
            &&& (exists|i: int| sb + half <= i < sb + rw && is_wrap_boundary_byte(#[trigger] bytes[i]))
                ==> {
                &&& sb + half < end
                &&& is_wrap_boundary_byte(bytes[end - 1])
                &&& forall|j: int| end <= j < sb + rw ==> !is_wrap_boundary_byte(#[trigger] bytes[j])
            }
            &&& (forall|i: int| sb + half <= i < sb + rw ==> !is_wrap_boundary_byte(#[trigger] bytes[i]))
                ==> end == sb + rw
        }),
{
    let rw = max1(row_width);
    let half = max1(rw / 2);
    let hard = sb + rw;
    let min_byte = sb + if half < hard - sb {
        half
    } else {
        hard - sb
    };
    lemma_last_boundary(bytes, min_byte, hard);
    if half >= rw {
        assert(rw == 1);
    }
}

pub fn next_wrap_end_ascii(bytes: &[u8], start_byte: usize, start_char: usize, row_width_in: usize) -> (r: (
    usize,
    usize,
))
    requires
        start_byte <= bytes@.len(),
        start_char + (bytes@.len() - start_byte) <= usize::MAX,
    ensures
        (r.0 as int, r.1 as int) == ascii_wrap_end(bytes@, start_byte as int, start_char as int, row_width_in as int),
{
    let row_width = if row_width_in < 1 {
        1
    } else {
        row_width_in
    };
    let hard_byte = if start_byte > usize::MAX - row_width || start_byte + row_width > bytes.len() {
        bytes.len()
    } else {
        start_byte + row_width
    };
    if hard_byte <= start_byte {
        return (start_byte, start_char);
    }
    if hard_byte >= bytes.len() {
        return (bytes.len(), start_char + (bytes.len() - start_byte));
    }
    let half = if row_width / 2 < 1 {
        1
    } else {
        row_width / 2
    };
    let min_byte = start_byte + if half < hard_byte - start_byte {
        half
    } else {
        hard_byte - start_byte
    };
    let mut index = hard_byte;
    while index > min_byte
        invariant
            start_byte <= min_byte <= index <= hard_byte < bytes@.len(),
            start_char + (bytes@.len() - start_byte) <= usize::MAX,
            ascii_wrap_end(bytes@, start_byte as int, start_char as int, row_width_in as int) == (
            match last_boundary(bytes@, min_byte as int, hard_byte as int) {
                Some(idx) => (idx + 1, start_char + (idx + 1 - start_byte)),
                None => (hard_byte as int, start_char + (hard_byte - start_byte)),
            }),
            last_boundary(bytes@, min_byte as int, hard_byte as int) == last_boundary(
                bytes@,
                min_byte as int,
                index as int,
            ),
        decreases index - min_byte,
    {
        if is_ascii_wrap_boundary(bytes[index - 1]) {
            let end_byte = index;
            return (end_byte, start_char + (end_byte - start_byte));
        }
        index -= 1;
    }
    (hard_byte, start_char + (hard_byte - start_byte))
}

/// Scans chars from `i` on while they fit in `row_width` columns (the first
/// one always fits): the index after the last char taken, and the index
/// after the last boundary char taken once `min_end` columns were filled.
pub open spec fn scan_wrap(
    cs: Seq<char>,
    i: int,
    row_width: int,
    min_end: int,
    cum: int,
    best: Option<int>,
) -> (int, Option<int>)
    decreases cs.len() - i,
{
    if i < 0 || i >= cs.len() {
        (i, best)
    } else {
        let w = display_width(cs[i]);
        if cum > 0 && sat_add(cum, w) > row_width {
            (i, best)
        } else {
            let cum2 = sat_add(cum, w);
            let best2 = if cum2 >= min_end && is_wrap_boundary_char(cs[i]) {
                Some(i + 1)
            } else {
                best
            };
            scan_wrap(cs, i + 1, row_width, min_end, cum2, best2)
        }
    }
}

/// Where a row that starts at char `sc` ends when its chars are not all
/// ASCII, as a (byte, char) position.
pub open spec fn unicode_wrap_end(cs: Seq<char>, sb: int, sc: int, row_width: int) -> (int, int) {
    let min_end = max1(row_width / 2);
    let (end, best) = scan_wrap(cs, sc, row_width, min_end, 0, None);
    if end <= sc {
        (sb, sc)
    } else if byte_offset(cs, end) >= byte_len(cs) {
        (byte_offset(cs, end) as int, end)
    } else {
        match best {
            Some(b) => (byte_offset(cs, b) as int, b),
            None => (byte_offset(cs, end) as int, end),
        }
    }
}

pub open spec fn all_ascii(bytes: Seq<u8>, lo: int, hi: int) -> bool {
    forall|i: int| lo <= i < hi ==> #[trigger] bytes[i] < 0x80
}

/// Where the row that starts at byte `sb` (char `sc`) ends, for rows of at
/// most `row_width` columns.
pub open spec fn wrap_end_spec(cs: Seq<char>, bytes: Seq<u8>, sb: int, sc: int, row_width: int) -> (
    int,
    int,
) {
    let hard = if sb + max1(row_width) > bytes.len() {
        bytes.len() as int
    } else {
        sb + max1(row_width)
    };
    if all_ascii(bytes, sb, hard) {
        ascii_wrap_end(bytes, sb, sc, row_width)
    } else {
        unicode_wrap_end(cs, sb, sc, row_width)
    }
}

pub proof fn lemma_scan_wrap_bounds(
    cs: Seq<char>,
    i: int,
    row_width: int,
    min_end: int,
    cum: int,
    best: Option<int>,
)
    requires
        0 <= i <= cs.len(),
        best matches Some(b) ==> 0 <= b <= i,
    ensures
        i <= scan_wrap(cs, i, row_width, min_end, cum, best).0 <= cs.len(),
        scan_wrap(cs, i, row_width, min_end, cum, best).1 matches Some(b) ==> (0 <= b <= scan_wrap(
            cs,
            i,
            row_width,
            min_end,
            cum,
            best,
        ).0 && (best matches Some(b0) ==> b0 <= b)),
        scan_wrap(cs, i, row_width, min_end, cum, best).1 matches Some(b) ==> (best == Some(b) || (i
            < b)),
    decreases cs.len() - i,
{
    if i < cs.len() {
        let w = display_width(cs[i]);
        if !(cum > 0 && sat_add(cum, w) > row_width) {
            let cum2 = sat_add(cum, w);
            let best2 = if cum2 >= min_end && is_wrap_boundary_char(cs[i]) {
                Some(i + 1)
            } else {
                best
            };
            lemma_scan_wrap_bounds(cs, i + 1, row_width, min_end, cum2, best2);
        }
    }
}

impl LineText {
    /// The end of the row that starts at byte `start_byte` (char
    /// `start_char`) for rows of at most `row_width` columns.
    pub fn next_wrap_end(&self, start_byte: usize, start_char: usize, row_width: usize) -> (r: (
        usize,
        usize,
    ))
        requires
            self.wf(),
            start_char <= self.chars@.len(),
            start_byte == byte_offset(self.chars@, start_char as int),
        ensures
            (r.0 as int, r.1 as int) == wrap_end_spec(
                self.chars@,
                self.bytes@,
                start_byte as int,
                start_char as int,
                row_width as int,
            ),
    {
        let ghost cs = self.chars@;
        let ghost bs = self.bytes@;
        proof {
            lemma_byte_offset_mono(cs, start_char as int, cs.len() as int);
            lemma_encode_utf8_len(cs);
            crate::text::lemma_byte_offset_full(cs);
        }
        let rw1 = if row_width < 1 {
            1
        } else {
            row_width
        };
        let len = self.bytes.len();
        let hard_byte = if start_byte > usize::MAX - rw1 || start_byte + rw1 > len {
            len
        } else {
            start_byte + rw1
        };
        let mut k = start_byte;
        let mut ascii = true;
        while k < hard_byte
            invariant
                start_byte <= k <= hard_byte <= len == bs.len(),
                bs == self.bytes@,
                ascii == all_ascii(bs, start_byte as int, k as int),
            decreases hard_byte - k,
        {
            if self.bytes[k] >= 0x80 {
                ascii = false;
            }
            k += 1;
        }
        if ascii {
            assert(start_char + (bs.len() - start_byte) <= usize::MAX) by {
                lemma_chars_le_bytes(cs, start_char as int);
            }
            return next_wrap_end_ascii(self.bytes.as_slice(), start_byte, start_char, row_width);
        }
        self.next_wrap_end_unicode(start_byte, start_char, row_width)
    }

    fn next_wrap_end_unicode(&self, start_byte: usize, start_char: usize, row_width: usize) -> (r: (
        usize,
        usize,
    ))
        requires
            self.wf(),
            start_char <= self.chars@.len(),
            start_byte == byte_offset(self.chars@, start_char as int),
        ensures
            (r.0 as int, r.1 as int) == unicode_wrap_end(
                self.chars@,
                start_byte as int,
                start_char as int,
                row_width as int,
            ),
    {
        let ghost cs = self.chars@;
        let min_end = if row_width / 2 < 1 {
            1
        } else {
            row_width / 2
        };
        let mut consumed: usize = 0;
        let mut i = start_char;
        let mut byte = start_byte;
        let mut best: Option<(usize, usize)> = None;
        let ghost mut best_spec: Option<int> = None;
        proof {
            lemma_byte_offset_mono(cs, start_char as int, cs.len() as int);
        }
        while i < self.chars.len()
            invariant_except_break
                self.wf(),
                cs == self.chars@,
                start_char <= i <= cs.len(),
                byte == byte_offset(cs, i as int),
                byte <= byte_len(cs),
                best_spec matches Some(b) ==> start_char < b <= i,
                best == (match best_spec {
                    Some(b) => Some((byte_offset(cs, b) as usize, b as usize)),
                    None => None,
                }),
                scan_wrap(cs, start_char as int, row_width as int, min_end as int, 0, None)
                    == scan_wrap(cs, i as int, row_width as int, min_end as int, consumed as int, best_spec),
            ensures
                start_char <= i <= cs.len(),
                byte == byte_offset(cs, i as int),
                best_spec matches Some(b) ==> start_char < b <= i,
                best == (match best_spec {
                    Some(b) => Some((byte_offset(cs, b) as usize, b as usize)),
                    None => None,
                }),
                scan_wrap(cs, start_char as int, row_width as int, min_end as int, 0, None) == (
                i as int,
                best_spec,
                ),
            decreases cs.len() - i,
        {
            let ch = self.chars[i];
            let w = char_display_width(ch);
            let next = if consumed > usize::MAX - w {
                usize::MAX
            } else {
                consumed + w
            };
            if consumed > 0 && next > row_width {
                break;
            }
            proof {
                lemma_byte_offset_step(cs, i as int);
                lemma_byte_offset_mono(cs, i + 1, cs.len() as int);
            }
            consumed = next;
            byte = byte + char_utf8_len(ch);
            i = i + 1;
            if consumed >= min_end && (is_whitespace(ch) || ch == ',' || ch == '>' || ch == '}'
                || ch == ']' || ch == ';') {
                best = Some((byte, i));
                proof {
                    best_spec = Some(i as int);
                }
            }
        }
        if i == start_char {
            return (start_byte, start_char);
        }
        let len = self.bytes.len();
        if byte >= len {
            return (byte, i);
        }
        proof {
            if let Some(b) = best_spec {
                lemma_byte_offset_mono(cs, b, cs.len() as int);
            }
        }
        match best {
            Some(b) => b,
            None => (byte, i),
        }
    }
}

pub proof fn lemma_chars_le_bytes(cs: Seq<char>, i: int)
    requires
        0 <= i <= cs.len(),
    ensures
        i <= byte_offset(cs, i),
    decreases i,
{
    if i > 0 {
        lemma_chars_le_bytes(cs, i - 1);
        lemma_byte_offset_step(cs, i - 1);
    }
}

} // verus!

verus! {

/// A (byte, char) position of `cs` whose two halves agree.
pub open spec fn consistent(cs: Seq<char>, b: int, c: int) -> bool {
    0 <= c <= cs.len() && b == byte_offset(cs, c)
}

pub proof fn lemma_scan_takes_first(
    cs: Seq<char>,
    i: int,
    row_width: int,
    min_end: int,
)
    requires
        0 <= i < cs.len(),
    ensures
        i < scan_wrap(cs, i, row_width, min_end, 0, None).0 <= cs.len(),
        scan_wrap(cs, i, row_width, min_end, 0, None).1 matches Some(b) ==> i < b <= scan_wrap(
            cs,
            i,
            row_width,
            min_end,
            0,
            None,
        ).0,
{
    let w = display_width(cs[i]);
    let cum2 = sat_add(0, w);
    let best2 = if cum2 >= min_end && is_wrap_boundary_char(cs[i]) {
        Some(i + 1)
    } else {
        None
    };
    lemma_scan_wrap_bounds(cs, i + 1, row_width, min_end, cum2, best2);
}

/// A row that starts inside the line ends after it starts, at a position
/// whose byte and char halves agree.
pub proof fn lemma_wrap_end_progress(cs: Seq<char>, bs: Seq<u8>, sb: int, sc: int, row_width: int)
    requires
        bs == encode_utf8(cs),
        consistent(cs, sb, sc),
        sb < bs.len(),
    ensures
        ({
            let (eb, ec) = wrap_end_spec(cs, bs, sb, sc, row_width);
            &&& sb < eb <= bs.len()
            &&& sc < ec
            &&& consistent(cs, eb, ec)
        }),
{
    lemma_encode_utf8_len(cs);
    crate::text::lemma_byte_offset_full(cs);
    let hard = if sb + max1(row_width) > bs.len() {
        bs.len() as int
    } else {
        sb + max1(row_width)
    };
    if all_ascii(bs, sb, hard) {
        let rw = max1(row_width);
        let half = max1(rw / 2);
        let min_byte = sb + if half < hard - sb {
            half
        } else {
            hard - sb
        };
        lemma_last_boundary(bs, min_byte, hard);
        let (eb, ec) = ascii_wrap_end(bs, sb, sc, row_width);
        assert(sb < eb <= hard);
        crate::text::lemma_ascii_run(cs, sb, sc, eb - sb);
    } else {
        let min_end = max1(row_width / 2);
        lemma_byte_offset_mono(cs, sc, cs.len() as int);
        if sc >= cs.len() {
            assert(false);
        }
        lemma_scan_takes_first(cs, sc, row_width, min_end);
        let (end, best) = scan_wrap(cs, sc, row_width, min_end, 0, None);
        crate::text::lemma_byte_offset_strict(cs, sc, end);
        lemma_byte_offset_mono(cs, end, cs.len() as int);
        if let Some(b) = best {
            crate::text::lemma_byte_offset_strict(cs, sc, b);
            lemma_byte_offset_mono(cs, b, cs.len() as int);
        }
    }
}

/// Columns a continuation row is indented by, given the indentation wanted.
pub open spec fn row_indent(row: int, width: int, continuation_indent: int) -> int {
    if row > 0 {
        let cap = if width >= 1 {
            width - 1
        } else {
            0
        };
        if continuation_indent < cap {
            continuation_indent
        } else {
            cap
        }
    } else {
        0
    }
}

/// Columns available to the text of a row.
pub open spec fn row_text_width(row: int, width: int, continuation_indent: int) -> int {
    max1(width - row_indent(row, width, continuation_indent))
}

/// The (byte, char) where row `k` of the line starts.
pub open spec fn row_start_pos(cs: Seq<char>, bs: Seq<u8>, width: int, ci: int, k: nat) -> (int, int)
    decreases k,
{
    if k == 0 {
        (0, 0)
    } else {
        let (sb, sc) = row_start_pos(cs, bs, width, ci, (k - 1) as nat);
        let (eb, ec) = wrap_end_spec(cs, bs, sb, sc, row_text_width(k - 1, width, ci));
        let nb = if eb > sb + 1 {
            eb
        } else {
            sb + 1
        };
        (
            if nb > bs.len() {
                bs.len() as int
            } else {
                nb
            },
            if ec > sc + 1 {
                ec
            } else {
                sc + 1
            },
        )
    }
}

/// The (byte, char) where row `k` ends.
pub open spec fn row_end(cs: Seq<char>, bs: Seq<u8>, width: int, ci: int, k: nat) -> (int, int) {
    let (sb, sc) = row_start_pos(cs, bs, width, ci, k);
    wrap_end_spec(cs, bs, sb, sc, row_text_width(k as int, width, ci))
}

pub proof fn lemma_row_start(cs: Seq<char>, bs: Seq<u8>, width: int, ci: int, k: nat)
    requires
        bs == encode_utf8(cs),
    ensures
        ({
            let (sb, sc) = row_start_pos(cs, bs, width, ci, k);
            &&& consistent(cs, sb, sc) || sb == bs.len()
            &&& sb <= bs.len()
            &&& (sb < bs.len() ==> k <= sb && consistent(cs, sb, sc))
        }),
    decreases k,
{
    lemma_encode_utf8_len(cs);
    if k > 0 {
        lemma_row_start(cs, bs, width, ci, (k - 1) as nat);
        let (sb, sc) = row_start_pos(cs, bs, width, ci, (k - 1) as nat);
        if sb < bs.len() {
            lemma_wrap_end_progress(cs, bs, sb, sc, row_text_width(k - 1, width, ci));
        }
    } else {
        crate::text::lemma_byte_offset_full(cs);
        assert(cs.take(0) =~= Seq::<char>::empty());
    }
}

/// The number of rows from row `k` (starting at byte `sb`) on.
pub open spec fn rows_after(cs: Seq<char>, bs: Seq<u8>, width: int, ci: int, k: nat) -> nat
    decreases bs.len() - row_start_pos(cs, bs, width, ci, k).0,
{
    if row_start_pos(cs, bs, width, ci, k).0 >= bs.len() {
        k
    } else if bs != encode_utf8(cs) {
        k
    } else {
        proof {
            lemma_row_start(cs, bs, width, ci, k);
            lemma_row_start(cs, bs, width, ci, k + 1);
            let (sb, sc) = row_start_pos(cs, bs, width, ci, k);
            lemma_wrap_end_progress(cs, bs, sb, sc, row_text_width(k as int, width, ci));
        }
        rows_after(cs, bs, width, ci, k + 1)
    }
}

/// The number of rows the line wraps to (at least one).
pub open spec fn row_count(cs: Seq<char>, bs: Seq<u8>, width: int, ci: int) -> nat {
    if bs.len() == 0 || width == 0 {
        1
    } else {
        let n = rows_after(cs, bs, width, ci, 0);
        if n < 1 {
            1
        } else {
            n
        }
    }
}

} // verus!

verus! {

pub const WRAP_CHECKPOINT_INTERVAL_ROWS: usize = 256;

/// Where a row starts, remembered so that a later window can start there.
#[derive(Debug, Clone, Copy, PartialEq, Eq)]
pub struct WrapCheckpoint {
    pub row: usize,
    pub start_byte: usize,
    pub start_char: usize,
}

/// Remembered row starts of one line at one width, sorted by row.
#[derive(Debug)]
pub struct WrapCheckpointIndex {
    pub checkpoints: Vec<WrapCheckpoint>,
}

/// One display row: the chars and bytes it covers, and how far it is indented.
#[derive(Debug, Clone, Copy, PartialEq, Eq)]
pub struct WrapRange {
    pub start_char: usize,
    pub end_char: usize,
    pub start_byte: usize,
    pub end_byte: usize,
    pub continuation_indent: usize,
}

/// Some rows of a line, and the line's row count when the window reached
/// its end.
#[derive(Debug)]
pub struct WrapWindow {
    pub ranges: Vec<WrapRange>,
    pub total_rows: Option<usize>,
}

pub open spec fn zero_checkpoint() -> WrapCheckpoint {
    WrapCheckpoint { row: 0, start_byte: 0, start_char: 0 }
}

/// The last checkpoint at or before `row`, or the start of the line.
pub open spec fn checkpoint_before(cps: Seq<WrapCheckpoint>, row: int) -> WrapCheckpoint
    decreases cps.len(),
{
    if cps.len() == 0 {
        zero_checkpoint()
    } else if cps.last().row <= row {
        cps.last()
    } else {
        checkpoint_before(cps.drop_last(), row)
    }
}

pub open spec fn sorted_rows(cps: Seq<WrapCheckpoint>) -> bool {
    forall|i: int, j: int| 0 <= i < j < cps.len() ==> cps[i].row < cps[j].row
}

/// How many checkpoints lie before row `row`.
pub open spec fn count_before(cps: Seq<WrapCheckpoint>, row: int) -> int
    decreases cps.len(),
{
    if cps.len() == 0 {
        0
    } else if cps.last().row < row {
        cps.len() as int
    } else {
        count_before(cps.drop_last(), row)
    }
}

/// `cps` after remembering `cp`: only rows at the checkpoint interval are
/// kept, each row once, in row order.
pub open spec fn remember_spec(cps: Seq<WrapCheckpoint>, cp: WrapCheckpoint) -> Seq<WrapCheckpoint> {
    if cp.row == 0 || cp.row % WRAP_CHECKPOINT_INTERVAL_ROWS != 0 {
        cps
    } else if exists|i: int| 0 <= i < cps.len() && #[trigger] cps[i].row == cp.row {
        cps
    } else {
        cps.insert(count_before(cps, cp.row as int), cp)
    }
}

pub proof fn lemma_count_before(cps: Seq<WrapCheckpoint>, row: int)
    requires
        sorted_rows(cps),
    ensures
        0 <= count_before(cps, row) <= cps.len(),
        forall|i: int| 0 <= i < count_before(cps, row) ==> cps[i].row < row,
        forall|i: int| count_before(cps, row) <= i < cps.len() ==> cps[i].row >= row,
    decreases cps.len(),
{
    if cps.len() > 0 {
        let n = cps.len() - 1;
        if cps.last().row >= row {
            let d = cps.drop_last();
            assert(sorted_rows(d)) by {
                assert forall|i: int, j: int| 0 <= i < j < d.len() implies d[i].row < d[j].row by {
                    assert(d[i] == cps[i] && d[j] == cps[j]);
                }
            }
            lemma_count_before(d, row);
            assert forall|i: int| count_before(cps, row) <= i < cps.len() implies cps[i].row
                >= row by {
                if i < n {
                    assert(d[i] == cps[i]);
                }
            }
            assert forall|i: int| 0 <= i < count_before(cps, row) implies cps[i].row < row by {
                assert(d[i] == cps[i]);
            }
        } else {
            assert forall|i: int| 0 <= i < count_before(cps, row) implies cps[i].row < row by {
                if i < n {
                    assert(cps[i].row < cps[n].row);
                }
            }
        }
    }
}

pub proof fn lemma_checkpoint_before(cps: Seq<WrapCheckpoint>, row: int)
    ensures
        checkpoint_before(cps, row) == zero_checkpoint() || exists|i: int|
            0 <= i < cps.len() && cps[i] == checkpoint_before(cps, row),
        checkpoint_before(cps, row) == zero_checkpoint() || checkpoint_before(cps, row).row <= row,
    decreases cps.len(),
{
    if cps.len() > 0 && cps.last().row > row {
        lemma_checkpoint_before(cps.drop_last(), row);
        if checkpoint_before(cps.drop_last(), row) != zero_checkpoint() {
            let i = choose|i: int|
                0 <= i < cps.drop_last().len() && cps.drop_last()[i] == checkpoint_before(
                    cps.drop_last(),
                    row,
                );
            assert(cps[i] == checkpoint_before(cps, row));
        }
    } else if cps.len() > 0 {
        assert(cps[cps.len() - 1] == cps.last());
    }
}

impl WrapCheckpointIndex {
    pub fn new() -> (idx: Self)
        ensures
            idx.checkpoints@ == Seq::<WrapCheckpoint>::empty(),
    {
        WrapCheckpointIndex { checkpoints: Vec::new() }
    }

    /// Every checkpoint is a true row start of the line at this width.
    pub open spec fn valid_for(&self, cs: Seq<char>, bs: Seq<u8>, width: int, ci: int) -> bool {
        &&& sorted_rows(self.checkpoints@)
        &&& forall|i: int|
            0 <= i < self.checkpoints@.len() ==> {
                let cp = #[trigger] self.checkpoints@[i];
                &&& cp.row > 0
                &&& (cp.start_byte as int, cp.start_char as int) == row_start_pos(
                    cs,
                    bs,
                    width,
                    ci,
                    cp.row as nat,
                )
                &&& cp.start_byte < bs.len()
            }
    }

    /// The last checkpoint at or before `row_start`, or the line's start.
    pub fn start_for(&self, row_start: usize) -> (cp: WrapCheckpoint)
        ensures
            cp == checkpoint_before(self.checkpoints@, row_start as int),
    {
        let mut i = self.checkpoints.len();
        assert(self.checkpoints@.subrange(0, i as int) =~= self.checkpoints@);
        while i > 0
            invariant
                i <= self.checkpoints@.len(),
                checkpoint_before(self.checkpoints@, row_start as int) == checkpoint_before(
                    self.checkpoints@.subrange(0, i as int),
                    row_start as int,
                ),
            decreases i,
        {
            let cp = self.checkpoints[i - 1];
            assert(self.checkpoints@.subrange(0, i as int).last() == cp);
            if cp.row <= row_start {
                return cp;
            }
            assert(self.checkpoints@.subrange(0, i as int).drop_last() =~= self.checkpoints@.subrange(
                0,
                i - 1,
            ));
            i -= 1;
        }
        WrapCheckpoint { row: 0, start_byte: 0, start_char: 0 }
    }

    /// Remembers a row start if its row is a multiple of the checkpoint
    /// interval and is not remembered yet.
    pub fn remember(&mut self, checkpoint: WrapCheckpoint)
        requires
            sorted_rows(old(self).checkpoints@),
        ensures
            final(self).checkpoints@ == remember_spec(old(self).checkpoints@, checkpoint),
            sorted_rows(final(self).checkpoints@),
    {
        proof {
            lemma_count_before(self.checkpoints@, checkpoint.row as int);
        }
        if checkpoint.row == 0 || checkpoint.row % WRAP_CHECKPOINT_INTERVAL_ROWS != 0 {
            return;
        }
        let mut lo: usize = 0;
        let mut hi: usize = self.checkpoints.len();
        while lo < hi
            invariant
                sorted_rows(self.checkpoints@),
                self.checkpoints@ == old(self).checkpoints@,
                lo <= hi <= self.checkpoints@.len(),
                forall|i: int| 0 <= i < lo ==> self.checkpoints@[i].row < checkpoint.row,
                forall|i: int| hi <= i < self.checkpoints@.len() ==> self.checkpoints@[i].row
                    > checkpoint.row,
            decreases hi - lo,
        {
            let mid = lo + (hi - lo) / 2;
            let row = self.checkpoints[mid].row;
            if row == checkpoint.row {
                return;
            } else if row < checkpoint.row {
                lo = mid + 1;
            } else {
                hi = mid;
            }
        }
        proof {
            assert(!exists|i: int|
                0 <= i < self.checkpoints@.len() && #[trigger] self.checkpoints@[i].row
                    == checkpoint.row);
            if count_before(self.checkpoints@, checkpoint.row as int) < lo {
                let i = count_before(self.checkpoints@, checkpoint.row as int);
                assert(self.checkpoints@[i].row >= checkpoint.row);
            }
            if count_before(self.checkpoints@, checkpoint.row as int) > lo {
                assert(self.checkpoints@[lo as int].row < checkpoint.row);
            }
        }
        self.checkpoints.insert(lo, checkpoint);
        proof {
            let s = self.checkpoints@;
            assert forall|i: int, j: int| 0 <= i < j < s.len() implies s[i].row < s[j].row by {
                if i < lo && j > lo {
                    assert(s[i] == old(self).checkpoints@[i]);
                    assert(s[j] == old(self).checkpoints@[j - 1]);
                }
            }
        }
    }
}

} // verus!

verus! {

/// Row `k` as a range.
pub open spec fn range_at(cs: Seq<char>, bs: Seq<u8>, width: int, ci: int, k: nat) -> WrapRange {
    let (sb, sc) = row_start_pos(cs, bs, width, ci, k);
    let (eb, ec) = row_end(cs, bs, width, ci, k);
    WrapRange {
        start_char: sc as usize,
        end_char: ec as usize,
        start_byte: sb as usize,
        end_byte: eb as usize,
        continuation_indent: row_indent(k as int, width, ci) as usize,
    }
}

pub proof fn lemma_rows_after_step(cs: Seq<char>, bs: Seq<u8>, width: int, ci: int, k: nat)
    requires
        bs == encode_utf8(cs),
    ensures
        row_start_pos(cs, bs, width, ci, k).0 < bs.len() ==> rows_after(cs, bs, width, ci, k)
            == rows_after(cs, bs, width, ci, k + 1),
        row_start_pos(cs, bs, width, ci, k).0 >= bs.len() ==> rows_after(cs, bs, width, ci, k) == k,
{
}

pub proof fn lemma_rows_after_ge(cs: Seq<char>, bs: Seq<u8>, width: int, ci: int, k: nat)
    requires
        bs == encode_utf8(cs),
    ensures
        rows_after(cs, bs, width, ci, k) >= k,
        row_start_pos(cs, bs, width, ci, k).0 < bs.len() ==> rows_after(cs, bs, width, ci, k) > k,
    decreases bs.len() - row_start_pos(cs, bs, width, ci, k).0,
{
    if row_start_pos(cs, bs, width, ci, k).0 < bs.len() {
        lemma_row_start(cs, bs, width, ci, k);
        lemma_row_start(cs, bs, width, ci, k + 1);
        let (sb, sc) = row_start_pos(cs, bs, width, ci, k);
        lemma_wrap_end_progress(cs, bs, sb, sc, row_text_width(k as int, width, ci));
        lemma_rows_after_ge(cs, bs, width, ci, k + 1);
    }
}

pub proof fn lemma_rows_after_const(cs: Seq<char>, bs: Seq<u8>, width: int, ci: int, k: nat)
    requires
        bs == encode_utf8(cs),
        row_start_pos(cs, bs, width, ci, k).0 < bs.len(),
    ensures
        rows_after(cs, bs, width, ci, k) == rows_after(cs, bs, width, ci, 0),
    decreases k,
{
    if k > 0 {
        lemma_row_start(cs, bs, width, ci, (k - 1) as nat);
        let (sb, sc) = row_start_pos(cs, bs, width, ci, (k - 1) as nat);
        if sb >= bs.len() {
            assert(row_start_pos(cs, bs, width, ci, k).0 == bs.len());
        }
        lemma_rows_after_const(cs, bs, width, ci, (k - 1) as nat);
        lemma_rows_after_step(cs, bs, width, ci, (k - 1) as nat);
    }
}

/// A checkpoint index stays true to the line when it remembers a true row start.
pub proof fn lemma_remember_valid(
    idx_old: Seq<WrapCheckpoint>,
    cp: WrapCheckpoint,
    cs: Seq<char>,
    bs: Seq<u8>,
    width: int,
    ci: int,
)
    requires
        sorted_rows(idx_old),
        forall|i: int|
            0 <= i < idx_old.len() ==> {
                let c = #[trigger] idx_old[i];
                &&& c.row > 0
                &&& (c.start_byte as int, c.start_char as int) == row_start_pos(cs, bs, width, ci, c.row as nat)
                &&& c.start_byte < bs.len()
            },
        (cp.start_byte as int, cp.start_char as int) == row_start_pos(cs, bs, width, ci, cp.row as nat),
        cp.start_byte < bs.len(),
    ensures
        forall|i: int|
            0 <= i < remember_spec(idx_old, cp).len() ==> {
                let c = #[trigger] remember_spec(idx_old, cp)[i];
                &&& c.row > 0
                &&& (c.start_byte as int, c.start_char as int) == row_start_pos(cs, bs, width, ci, c.row as nat)
                &&& c.start_byte < bs.len()
            },
{
    let r = remember_spec(idx_old, cp);
    if r != idx_old {
        lemma_count_before(idx_old, cp.row as int);
        let pos = count_before(idx_old, cp.row as int);
        assert forall|i: int| 0 <= i < r.len() implies ({
            let c = #[trigger] r[i];
            &&& c.row > 0
            &&& (c.start_byte as int, c.start_char as int) == row_start_pos(cs, bs, width, ci, c.row as nat)
            &&& c.start_byte < bs.len()
        }) by {
            if i < pos {
                assert(r[i] == idx_old[i]);
            } else if i > pos {
                assert(r[i] == idx_old[i - 1]);
            }
        }
    }
}

impl LineText {
    /// Rows `row_start .. row_start + max_rows` of the line wrapped at
    /// `width` columns, continuation rows indented by `continuation_indent`
    /// (at most `width - 1`).  `total_rows` is the line's row count when the
    /// window reaches the last row.  Row starts at multiples of the
    /// checkpoint interval are remembered in `checkpoints`, and a remembered
    /// start at or before `row_start` is where the walk begins.
    pub fn wrap_window(
        &self,
        width: usize,
        continuation_indent: usize,
        row_start: usize,
        max_rows: usize,
        checkpoints: &mut WrapCheckpointIndex,
    ) -> (w: WrapWindow)
        requires
            self.wf(),
            old(checkpoints).valid_for(self.chars@, self.bytes@, width as int, continuation_indent as int),
        ensures
            final(checkpoints).valid_for(self.chars@, self.bytes@, width as int, continuation_indent as int),
            ({
                let cs = self.chars@;
                let bs = self.bytes@;
                let total = rows_after(cs, bs, width as int, continuation_indent as int, 0);
                let t = sat_add(row_start as int, max_rows as int);
                if max_rows == 0 {
                    w.ranges@.len() == 0 && w.total_rows is None
                } else if bs.len() == 0 || width == 0 {
                    w.ranges@ == seq![WrapRange { start_char: 0, end_char: 0, start_byte: 0, end_byte: 0, continuation_indent: 0 }]
                        && w.total_rows == Some(1usize)
                } else {
                    let hi = if t < total { t } else { total as int };
                    &&& w.ranges@.len() == if hi > row_start { hi - row_start } else { 0 }
                    &&& forall|j: int| 0 <= j < w.ranges@.len() ==> #[trigger] w.ranges@[j]
                        == range_at(cs, bs, width as int, continuation_indent as int, (row_start + j) as nat)
                    &&& w.total_rows == if t < total { None } else { Some(total as usize) }
                }
            }),
    {
        let ghost cs = self.chars@;
        let ghost bs = self.bytes@;
        let ghost wi = width as int;
        let ghost cii = continuation_indent as int;
        if max_rows == 0 {
            return WrapWindow { ranges: Vec::new(), total_rows: None };
        }
        let len = self.bytes.len();
        if len == 0 || width == 0 {
            let mut ranges = Vec::new();
            ranges.push(
                WrapRange { start_char: 0, end_char: 0, start_byte: 0, end_byte: 0, continuation_indent: 0 },
            );
            return WrapWindow { ranges, total_rows: Some(1) };
        }
        let checkpoint = checkpoints.start_for(row_start);
        proof {
            lemma_checkpoint_before(checkpoints.checkpoints@, row_start as int);
            lemma_rows_after_ge(cs, bs, wi, cii, 0);
        }
        let mut start_byte = checkpoint.start_byte;
        let mut start_char = checkpoint.start_char;
        let mut row = checkpoint.row;
        let target_end = if row_start > usize::MAX - max_rows {
            usize::MAX
        } else {
            row_start + max_rows
        };
        let mut ranges: Vec<WrapRange> = Vec::new();
        let ghost total = rows_after(cs, bs, wi, cii, 0);
        proof {
            let r0 = row_start_pos(cs, bs, wi, cii, row as nat);
            lemma_row_start(cs, bs, wi, cii, row as nat);
            if start_byte < len {
                lemma_rows_after_ge(cs, bs, wi, cii, row as nat);
            }
            if row > 0 {
                lemma_rows_after_const(cs, bs, wi, cii, row as nat);
            }
        }
        while start_byte < len
            invariant
                self.wf(),
                cs == self.chars@,
                bs == self.bytes@,
                len == bs.len(),
                len > 0,
                width > 0,
                max_rows > 0,
                wi == width as int,
                cii == continuation_indent as int,
                target_end == sat_add(row_start as int, max_rows as int),
                row <= target_end,
                start_byte < len ==> row < target_end,
                (start_byte as int, start_char as int) == row_start_pos(cs, bs, wi, cii, row as nat),
                rows_after(cs, bs, wi, cii, row as nat) == total,
                total == rows_after(cs, bs, wi, cii, 0),
                checkpoints.valid_for(cs, bs, wi, cii),
                ranges@.len() == if row > row_start { row - row_start } else { 0 },
                forall|j: int| 0 <= j < ranges@.len() ==> #[trigger] ranges@[j] == range_at(
                    cs,
                    bs,
                    wi,
                    cii,
                    (row_start + j) as nat,
                ),
            decreases len - start_byte,
        {
            proof {
                lemma_row_start(cs, bs, wi, cii, row as nat);
                lemma_row_start(cs, bs, wi, cii, (row + 1) as nat);
                lemma_wrap_end_progress(cs, bs, start_byte as int, start_char as int, row_text_width(row as int, wi, cii));
                lemma_rows_after_step(cs, bs, wi, cii, row as nat);
                lemma_remember_valid(
                    checkpoints.checkpoints@,
                    WrapCheckpoint { row, start_byte, start_char },
                    cs,
                    bs,
                    wi,
                    cii,
                );
            }
            checkpoints.remember(WrapCheckpoint { row, start_byte, start_char });
            let indent = if row > 0 {
                let cap = if width >= 1 {
                    width - 1
                } else {
                    0
                };
                if continuation_indent < cap {
                    continuation_indent
                } else {
                    cap
                }
            } else {
                0
            };
            let row_width = if width - indent < 1 {
                1
            } else {
                width - indent
            };
            let (end_byte, end_char) = self.next_wrap_end(start_byte, start_char, row_width);
            if row >= row_start && row < target_end {
                ranges.push(
                    WrapRange {
                        start_char,
                        end_char,
                        start_byte,
                        end_byte,
                        continuation_indent: indent,
                    },
                );
            }
            start_byte = if end_byte > start_byte + 1 {
                end_byte
            } else {
                start_byte + 1
            };
            if start_byte > len {
                start_byte = len;
            }
            start_char = if end_char > start_char + 1 {
                end_char
            } else {
                start_char + 1
            };
            row = row + 1;
            proof {
                lemma_rows_after_ge(cs, bs, wi, cii, row as nat);
            }
            if row >= target_end && start_byte < len {
                return WrapWindow { ranges, total_rows: None };
            }
        }
        let total_rows = if row < 1 {
            1
        } else {
            row
        };
        WrapWindow { ranges, total_rows: Some(total_rows) }
    }
}

} // verus!

verus! {

/// Columns of the leading whitespace of `cs[i..]` (a tab counts two).
pub open spec fn leading_ws_width(cs: Seq<char>, i: int) -> int
    decreases cs.len() - i,
{
    if i < 0 || i >= cs.len() || !is_ws(cs[i]) {
        0
    } else {
        sat_add(
            if cs[i] == '\t' {
                2
            } else {
                display_width(cs[i])
            },
            leading_ws_width(cs, i + 1),
        )
    }
}

/// How far continuation rows are indented: the line's own indentation plus
/// two, at most 24 and at most half the width; none below 8 columns.
pub open spec fn continuation_indent_spec(cs: Seq<char>, width: int) -> int {
    if width < 8 {
        0
    } else {
        let a = sat_add(leading_ws_width(cs, 0), 2);
        let b = if a < 24 {
            a
        } else {
            24
        };
        if b < width / 2 {
            b
        } else {
            width / 2
        }
    }
}

pub fn continuation_indent(line: &str, width: usize) -> (r: usize)
    ensures
        r == continuation_indent_spec(line@, width as int),
{
    if width < 8 {
        return 0;
    }
    let cs = crate::text::chars_of(line);
    let mut end: usize = 0;
    while end < cs.len() && is_whitespace(cs[end])
        invariant
            end <= cs.len(),
            cs@ == line@,
            forall|j: int| 0 <= j < end ==> is_ws(#[trigger] cs@[j]),
        decreases cs.len() - end,
    {
        end += 1;
    }
    let mut i = end;
    let mut sum: usize = 0;
    while i > 0
        invariant
            i <= end <= cs.len(),
            cs@ == line@,
            forall|j: int| 0 <= j < end ==> is_ws(#[trigger] cs@[j]),
            end < cs.len() ==> !is_ws(cs@[end as int]),
            sum == leading_ws_width(cs@, i as int),
        decreases i,
    {
        i -= 1;
        let c = cs[i];
        let w = if c == '\t' {
            2
        } else {
            char_display_width(c)
        };
        sum = if w > usize::MAX - sum {
            usize::MAX
        } else {
            w + sum
        };
    }
    let a = if sum > usize::MAX - 2 {
        usize::MAX
    } else {
        sum + 2
    };
    let b = if a < 24 {
        a
    } else {
        24
    };
    if b < width / 2 {
        b
    } else {
        width / 2
    }
}

impl LineText {
    /// How many rows the line wraps to.
    pub fn wrapped_row_count(&self, width: usize, continuation_indent: usize) -> (n: usize)
        requires
            self.wf(),
        ensures
            n == row_count(self.chars@, self.bytes@, width as int, continuation_indent as int),
    {
        let ghost cs = self.chars@;
        let ghost bs = self.bytes@;
        let ghost wi = width as int;
        let ghost cii = continuation_indent as int;
        let len = self.bytes.len();
        if len == 0 || width == 0 {
            return 1;
        }
        let mut rows: usize = 0;
        let mut start_byte: usize = 0;
        let mut start_char: usize = 0;
        proof {
            lemma_rows_after_ge(cs, bs, wi, cii, 0);
        }
        while start_byte < len
            invariant
                self.wf(),
                cs == self.chars@,
                bs == self.bytes@,
                len == bs.len(),
                wi == width as int,
                cii == continuation_indent as int,
                (start_byte as int, start_char as int) == row_start_pos(cs, bs, wi, cii, rows as nat),
                rows_after(cs, bs, wi, cii, rows as nat) == rows_after(cs, bs, wi, cii, 0),
            decreases len - start_byte,
        {
            proof {
                lemma_row_start(cs, bs, wi, cii, rows as nat);
                lemma_wrap_end_progress(cs, bs, start_byte as int, start_char as int, row_text_width(rows as int, wi, cii));
                lemma_rows_after_step(cs, bs, wi, cii, rows as nat);
            }
            let indent = if rows > 0 {
                let cap = if width >= 1 {
                    width - 1
                } else {
                    0
                };
                if continuation_indent < cap {
                    continuation_indent
                } else {
                    cap
                }
            } else {
                0
            };
            let row_width = if width - indent < 1 {
                1
            } else {
                width - indent
            };
            let (end_byte, end_char) = self.next_wrap_end(start_byte, start_char, row_width);
            start_byte = if end_byte > start_byte + 1 {
                end_byte
            } else {
                start_byte + 1
            };
            if start_byte > len {
                start_byte = len;
            }
            start_char = if end_char > start_char + 1 {
                end_char
            } else {
                start_char + 1
            };
            rows = rows + 1;
        }
        proof {
            lemma_rows_after_step(cs, bs, wi, cii, rows as nat);
        }
        rows
    }
}

/// The number of rows `line` wraps to at `width` columns.
pub fn wrapped_row_count(line: &str, width: usize, continuation_indent: usize) -> (n: usize)
    ensures
        n == row_count(line@, line.spec_bytes(), width as int, continuation_indent as int),
{
    let text = LineText::new(line);
    text.wrapped_row_count(width, continuation_indent)
}

/// Where the row that starts at `start_byte` (char `start_char`) ends.
pub fn next_wrap_end(line: &str, start_byte: usize, start_char: usize, row_width: usize) -> (r: (
    usize,
    usize,
))
    requires
        start_char <= line@.len(),
        start_byte == byte_offset(line@, start_char as int),
    ensures
        (r.0 as int, r.1 as int) == wrap_end_spec(
            line@,
            line.spec_bytes(),
            start_byte as int,
            start_char as int,
            row_width as int,
        ),
{
    let text = LineText::new(line);
    text.next_wrap_end(start_byte, start_char, row_width)
}

/// Rows `row_start .. row_start + max_rows` of `line`, using and filling
/// `checkpoints`.
pub fn wrap_ranges_window_indexed(
    line: &str,
    width: usize,
    continuation_indent: usize,
    row_start: usize,
    max_rows: usize,
    checkpoints: &mut WrapCheckpointIndex,
) -> (w: WrapWindow)
    requires
        old(checkpoints).valid_for(line@, line.spec_bytes(), width as int, continuation_indent as int),
    ensures
        final(checkpoints).valid_for(line@, line.spec_bytes(), width as int, continuation_indent as int),
        ({
            let cs = line@;
            let bs = line.spec_bytes();
            let total = rows_after(cs, bs, width as int, continuation_indent as int, 0);
            let t = sat_add(row_start as int, max_rows as int);
            if max_rows == 0 {
                w.ranges@.len() == 0 && w.total_rows is None
            } else if bs.len() == 0 || width == 0 {
                w.ranges@ == seq![WrapRange { start_char: 0, end_char: 0, start_byte: 0, end_byte: 0, continuation_indent: 0 }]
                    && w.total_rows == Some(1usize)
            } else {
                let hi = if t < total { t } else { total as int };
                &&& w.ranges@.len() == if hi > row_start { hi - row_start } else { 0 }
                &&& forall|j: int| 0 <= j < w.ranges@.len() ==> #[trigger] w.ranges@[j]
                    == range_at(cs, bs, width as int, continuation_indent as int, (row_start + j) as nat)
                &&& w.total_rows == if t < total { None } else { Some(total as usize) }
            }
        }),
{
    let text = LineText::new(line);
    text.wrap_window(width, continuation_indent, row_start, max_rows, checkpoints)
}

/// Rows `row_start .. row_start + max_rows` of `line`.
pub fn wrap_ranges_window(
    line: &str,
    width: usize,
    continuation_indent: usize,
    row_start: usize,
    max_rows: usize,
) -> (w: WrapWindow)
    ensures
        ({
            let cs = line@;
            let bs = line.spec_bytes();
            let total = rows_after(cs, bs, width as int, continuation_indent as int, 0);
            let t = sat_add(row_start as int, max_rows as int);
            if max_rows == 0 {
                w.ranges@.len() == 0 && w.total_rows is None
            } else if bs.len() == 0 || width == 0 {
                w.ranges@ == seq![WrapRange { start_char: 0, end_char: 0, start_byte: 0, end_byte: 0, continuation_indent: 0 }]
                    && w.total_rows == Some(1usize)
            } else {
                let hi = if t < total { t } else { total as int };
                &&& w.ranges@.len() == if hi > row_start { hi - row_start } else { 0 }
                &&& forall|j: int| 0 <= j < w.ranges@.len() ==> #[trigger] w.ranges@[j]
                    == range_at(cs, bs, width as int, continuation_indent as int, (row_start + j) as nat)
                &&& w.total_rows == if t < total { None } else { Some(total as usize) }
            }
        }),
{
    let mut checkpoints = WrapCheckpointIndex::new();
    wrap_ranges_window_indexed(line, width, continuation_indent, row_start, max_rows, &mut checkpoints)
}

/// The first `max_rows` rows of `line`.
pub fn wrap_ranges(line: &str, width: usize, continuation_indent: usize, max_rows: usize) -> (ranges: Vec<WrapRange>)
    ensures
        ({
            let cs = line@;
            let bs = line.spec_bytes();
            let total = rows_after(cs, bs, width as int, continuation_indent as int, 0);
            if max_rows == 0 {
                ranges@.len() == 0
            } else if bs.len() == 0 || width == 0 {
                ranges@ == seq![WrapRange { start_char: 0, end_char: 0, start_byte: 0, end_byte: 0, continuation_indent: 0 }]
            } else {
                &&& ranges@.len() == if max_rows < total { max_rows as int } else { total as int }
                &&& forall|j: int| 0 <= j < ranges@.len() ==> #[trigger] ranges@[j]
                    == range_at(cs, bs, width as int, continuation_indent as int, j as nat)
            }
        }),
{
    wrap_ranges_window(line, width, continuation_indent, 0, max_rows).ranges
}

} // verus!

verus! {

/// The rows of a wrapped line tile it: the first starts at its beginning,
/// each one ends exactly where the next starts (in bytes and in chars), and
/// the last ends at the line's end.
pub proof fn law_wrap_rows_tile_the_line(line: &str, width: usize, continuation_indent: usize)
    requires
        line@.len() > 0,
        line.spec_bytes().len() <= usize::MAX,
        width > 0,
    ensures
        ({
            let cs = line@;
            let bs = line.spec_bytes();
            let w = width as int;
            let ci = continuation_indent as int;
            let total = rows_after(cs, bs, w, ci, 0);
            &&& total >= 1
            &&& range_at(cs, bs, w, ci, 0).start_byte == 0
            &&& range_at(cs, bs, w, ci, 0).start_char == 0
            &&& forall|k: nat| #![trigger range_at(cs, bs, w, ci, k)]
                k + 1 < total ==> range_at(cs, bs, w, ci, k).end_byte == range_at(cs, bs, w, ci, k + 1).start_byte
                    && range_at(cs, bs, w, ci, k).end_char == range_at(cs, bs, w, ci, k + 1).start_char
                    && range_at(cs, bs, w, ci, k).start_byte < range_at(cs, bs, w, ci, k).end_byte
            &&& range_at(cs, bs, w, ci, (total - 1) as nat).end_byte == bs.len()
            &&& range_at(cs, bs, w, ci, (total - 1) as nat).end_char == cs.len()
        }),
{
    let cs = line@;
    let bs = line.spec_bytes();
    let w = width as int;
    let ci = continuation_indent as int;
    let total = rows_after(cs, bs, w, ci, 0);
    lemma_encode_utf8_len(cs);
    crate::text::lemma_byte_offset_full(cs);
    assert(bs.len() > 0) by {
        crate::text::lemma_byte_offset_strict(cs, 0, cs.len() as int);
        assert(cs.take(0) =~= Seq::<char>::empty());
    }
    lemma_rows_after_ge(cs, bs, w, ci, 0);
    assert(cs.take(0) =~= Seq::<char>::empty());
    assert forall|k: nat| #![trigger range_at(cs, bs, w, ci, k)]
        k + 1 < total implies range_at(cs, bs, w, ci, k).end_byte == range_at(cs, bs, w, ci, k + 1).start_byte
            && range_at(cs, bs, w, ci, k).end_char == range_at(cs, bs, w, ci, k + 1).start_char
            && range_at(cs, bs, w, ci, k).start_byte < range_at(cs, bs, w, ci, k).end_byte by {
        lemma_start_before_total(cs, bs, w, ci, k);
        lemma_row_start(cs, bs, w, ci, k);
        let (sb, sc) = row_start_pos(cs, bs, w, ci, k);
        lemma_wrap_end_progress(cs, bs, sb, sc, row_text_width(k as int, w, ci));
        lemma_row_start(cs, bs, w, ci, k + 1);
    }
    let last = (total - 1) as nat;
    lemma_start_before_total(cs, bs, w, ci, last);
    lemma_row_start(cs, bs, w, ci, last);
    let (sb, sc) = row_start_pos(cs, bs, w, ci, last);
    lemma_wrap_end_progress(cs, bs, sb, sc, row_text_width(last as int, w, ci));
    lemma_rows_after_const(cs, bs, w, ci, last);
    lemma_rows_after_step(cs, bs, w, ci, last);
    lemma_rows_after_ge(cs, bs, w, ci, last + 1);
    lemma_row_start(cs, bs, w, ci, last + 1);
    let (eb, ec) = wrap_end_spec(cs, bs, sb, sc, row_text_width(last as int, w, ci));
    assert(eb == bs.len());
    if ec < cs.len() {
        crate::text::lemma_byte_offset_strict(cs, ec, cs.len() as int);
    }
    assert(ec == cs.len());
    lemma_chars_le_bytes(cs, cs.len() as int);
    assert(range_at(cs, bs, w, ci, last).end_char == cs.len());
    assert(range_at(cs, bs, w, ci, last).end_byte == bs.len());
    assert(total >= 1);
    assert(range_at(cs, bs, w, ci, 0).start_byte == 0);
}

/// Rows before the last one start inside the line.
pub proof fn lemma_start_before_total(cs: Seq<char>, bs: Seq<u8>, width: int, ci: int, k: nat)
    requires
        bs == encode_utf8(cs),
        k < rows_after(cs, bs, width, ci, 0),
    ensures
        row_start_pos(cs, bs, width, ci, k).0 < bs.len(),
    decreases k,
{
    lemma_row_start(cs, bs, width, ci, k);
    if row_start_pos(cs, bs, width, ci, k).0 >= bs.len() {
        if k == 0 {
            lemma_rows_after_step(cs, bs, width, ci, 0);
        } else {
            lemma_start_before_total(cs, bs, width, ci, (k - 1) as nat);
            lemma_rows_after_const(cs, bs, width, ci, (k - 1) as nat);
            lemma_rows_after_step(cs, bs, width, ci, (k - 1) as nat);
            lemma_rows_after_step(cs, bs, width, ci, k);
        }
    }
}

/// Counting the rows of a line gives the row count that a window reaching
/// the line's end reports.
pub proof fn law_row_count_matches_window_total(line: &str, width: usize, continuation_indent: usize)
    requires
        line@.len() > 0,
        width > 0,
    ensures
        row_count(line@, line.spec_bytes(), width as int, continuation_indent as int) == rows_after(
            line@,
            line.spec_bytes(),
            width as int,
            continuation_indent as int,
            0,
        ),
{
    lemma_encode_utf8_len(line@);
    crate::text::lemma_byte_offset_full(line@);
    crate::text::lemma_byte_offset_strict(line@, 0, line@.len() as int);
    assert(line@.take(0) =~= Seq::<char>::empty());
    lemma_rows_after_ge(line@, line.spec_bytes(), width as int, continuation_indent as int, 0);
}

/// Every char of `cs` takes one column.
pub open spec fn all_narrow(cs: Seq<char>) -> bool {
    forall|i: int| 0 <= i < cs.len() ==> display_width(#[trigger] cs[i]) == 1
}

proof fn lemma_scan_narrow(cs: Seq<char>, sc: int, i: int, row_width: int, min_end: int, cum: int, best: Option<int>)
    requires
        all_narrow(cs),
        0 <= sc <= i <= cs.len(),
        cs.len() < usize::MAX,
        cum == i - sc,
        cum <= max1(row_width),
    ensures
        scan_wrap(cs, i, row_width, min_end, cum, best).0 - sc <= max1(row_width),
    decreases cs.len() - i,
{
    if i < cs.len() {
        let w = display_width(cs[i]);
        assert(w == 1);
        if !(cum > 0 && sat_add(cum, w) > row_width) {
            let cum2 = sat_add(cum, w);
            let best2 = if cum2 >= min_end && is_wrap_boundary_char(cs[i]) {
                Some(i + 1)
            } else {
                best
            };
            lemma_scan_narrow(cs, sc, i + 1, row_width, min_end, cum2, best2);
        }
    }
}

/// A row of chars that each take one column holds at most as many chars as
/// the row has columns (and at least one).
pub proof fn lemma_narrow_row_fits(cs: Seq<char>, bs: Seq<u8>, sb: int, sc: int, row_width: int)
    requires
        bs == encode_utf8(cs),
        consistent(cs, sb, sc),
        sb < bs.len(),
        all_narrow(cs),
        cs.len() <= usize::MAX / 8,
    ensures
        wrap_end_spec(cs, bs, sb, sc, row_width).1 - sc <= max1(row_width),
{
    let hard = if sb + max1(row_width) > bs.len() {
        bs.len() as int
    } else {
        sb + max1(row_width)
    };
    if all_ascii(bs, sb, hard) {
        let rw = max1(row_width);
        if hard > sb && hard < bs.len() {
            let half = max1(rw / 2);
            let min_byte = sb + if half < hard - sb {
                half
            } else {
                hard - sb
            };
            lemma_last_boundary(bs, min_byte, hard);
        }
    } else {
        lemma_scan_narrow(cs, sc, sc, row_width, max1(row_width / 2), 0, None);
        lemma_scan_wrap_bounds(cs, sc, row_width, max1(row_width / 2), 0, None);
    }
}

} // verus!
