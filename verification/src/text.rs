//! Byte-level text primitives shared by the two loaders.
//!
//! Text is modelled as the sequence of its UTF-8 bytes. Numbers, separators
//! and the comment sign are ASCII; white space is what Unicode calls so.

use vstd::prelude::*;
use vstd::slice::slice_subrange;
use vstd::utf8::encode_utf8;

verus! {

/// `#`, which starts a comment.
pub const HASH: u8 = 35;

/// `,`, which separates the fields of a line.
pub const COMMA: u8 = 44;

/// `+`, the only sign a number may carry.
pub const PLUS: u8 = 43;

/// `0`, the first decimal digit.
pub const DIGIT_0: u8 = 48;

/// `9`, the last decimal digit.
pub const DIGIT_9: u8 = 57;

/// The UTF-8 bytes of a piece of text.
pub open spec fn bytes_of(s: Seq<char>) -> Seq<u8> {
    encode_utf8(s)
}

/// The lines of a text, each as its UTF-8 bytes.
pub open spec fn lines_bytes(lines: Seq<String>) -> Seq<Seq<u8>> {
    Seq::new(lines.len(), |i: int| bytes_of(lines[i]@))
}

/// `i` is where `b` first occurs in `s`, or the length of `s` if it never does.
pub open spec fn is_first_at(s: Seq<u8>, b: u8, i: int) -> bool {
    &&& 0 <= i <= s.len()
    &&& i < s.len() ==> s[i] == b
    &&& forall|j: int| 0 <= j < i ==> s[j] != b
}

/// Where `b` first occurs in `s`, or the length of `s` if it never does.
pub open spec fn first_at(s: Seq<u8>, b: u8) -> int {
    choose|i: int| is_first_at(s, b, i)
}

/// The position described by `is_first_at` is unique, so it is `first_at`.
pub proof fn lemma_first_at_unique(s: Seq<u8>, b: u8, i: int)
    requires
        is_first_at(s, b, i),
    ensures
        first_at(s, b) == i,
{
}

/// `first_at` always names a position of the kind `is_first_at` describes.
pub proof fn lemma_first_at_exists(s: Seq<u8>, b: u8)
    ensures
        is_first_at(s, b, first_at(s, b)),
    decreases s.len(),
{
    if s.len() == 0 {
        assert(is_first_at(s, b, 0));
    } else if s[0] == b {
        assert(is_first_at(s, b, 0));
    } else {
        let t = s.skip(1);
        lemma_first_at_exists(t, b);
        let k = first_at(t, b);
        assert forall|j: int| 0 <= j < k + 1 implies s[j] != b by {
            if j > 0 {
                assert(t[j - 1] == s[j]);
            }
        }
        assert(is_first_at(s, b, k + 1));
    }
}

/// Finds the first occurrence of a byte.
pub fn find_byte(s: &[u8], b: u8) -> (i: usize)
    ensures
        i == first_at(s@, b),
        is_first_at(s@, b, i as int),
{
    let mut i: usize = 0;
    while i < s.len() && s[i] != b
        invariant
            i <= s.len(),
            forall|j: int| 0 <= j < i ==> s@[j] != b,
        decreases s.len() - i,
    {
        i += 1;
    }
    proof {
        lemma_first_at_unique(s@, b, i as int);
    }
    i
}

/// A decimal digit.
pub open spec fn is_digit(b: u8) -> bool {
    DIGIT_0 <= b <= DIGIT_9
}

/// Every byte of `s` is a decimal digit.
pub open spec fn all_digits(s: Seq<u8>) -> bool {
    forall|i: int| 0 <= i < s.len() ==> is_digit(#[trigger] s[i])
}

/// The number that a run of decimal digits denotes, leading zeros allowed.
pub open spec fn digits_value(s: Seq<u8>) -> nat
    decreases s.len(),
{
    if s.len() == 0 {
        0
    } else {
        10 * digits_value(s.drop_last()) + (s.last() - DIGIT_0) as nat
    }
}

/// A token without its optional leading `+`.
pub open spec fn unsigned_part(s: Seq<u8>) -> Seq<u8> {
    if s.len() > 0 && s[0] == PLUS {
        s.skip(1)
    } else {
        s
    }
}

/// The value of a token as an unsigned 32-bit number.
///
/// A token is a number when it is an optional `+` followed by one or more
/// decimal digits and nothing else, and the digits denote a value that fits
/// in 32 bits. White space, a `-`, an empty token and an overflowing value
/// all give `None`.
pub open spec fn parse_u32_spec(s: Seq<u8>) -> Option<u32> {
    let d = unsigned_part(s);
    if d.len() > 0 && all_digits(d) && digits_value(d) <= u32::MAX {
        Some(digits_value(d) as u32)
    } else {
        None
    }
}

/// A prefix of a run of digits never denotes more than the whole run.
pub proof fn lemma_digits_value_prefix(s: Seq<u8>, k: int)
    requires
        all_digits(s),
        0 <= k <= s.len(),
    ensures
        digits_value(s.take(k)) <= digits_value(s),
    decreases s.len(),
{
    if k == s.len() {
        assert(s.take(k) =~= s);
    } else {
        let t = s.drop_last();
        assert(t.take(k) =~= s.take(k));
        lemma_digits_value_prefix(t, k);
    }
}

/// Reads an unsigned 32-bit number from a token.
pub fn parse_u32(tok: &[u8]) -> (r: Option<u32>)
    ensures
        r == parse_u32_spec(tok@),
{
    let len = tok.len();
    let start: usize = if len > 0 && tok[0] == PLUS { 1 } else { 0 };
    if start == len {
        return None;
    }
    let ghost d = unsigned_part(tok@);
    let mut acc: u64 = 0;
    let mut i: usize = start;
    while i < len
        invariant
            start <= i <= len,
            len == tok@.len(),
            d == unsigned_part(tok@),
            d == tok@.skip(start as int),
            all_digits(d.take(i - start)),
            acc == digits_value(d.take(i - start)),
            acc <= u32::MAX,
        decreases len - i,
    {
        let c = tok[i];
        if c < DIGIT_0 || c > DIGIT_9 {
            assert(!is_digit(d[i - start]));
            return None;
        }
        assert(d.take(i + 1 - start).drop_last() =~= d.take(i - start));
        acc = acc * 10 + (c - DIGIT_0) as u64;
        if acc > u32::MAX as u64 {
            proof {
                if all_digits(d) {
                    lemma_digits_value_prefix(d, i + 1 - start);
                }
            }
            return None;
        }
        i += 1;
    }
    assert(d.take(i - start) =~= d);
    Some(acc as u32)
}

/// Whether two byte strings hold the same bytes.
pub fn bytes_eq(a: &[u8], b: &[u8]) -> (r: bool)
    ensures
        r == (a@ == b@),
{
    if a.len() != b.len() {
        return false;
    }
    let mut i: usize = 0;
    while i < a.len()
        invariant
            i <= a.len(),
            a.len() == b.len(),
            forall|j: int| 0 <= j < i ==> a@[j] == b@[j],
        decreases a.len() - i,
    {
        if a[i] != b[i] {
            return false;
        }
        i += 1;
    }
    assert(a@ =~= b@);
    true
}

/// Whether the bytes `a`, `b`, `c` encode a white-space character of three
/// bytes: U+1680, U+2000 to U+200A, U+2028, U+2029, U+202F, U+205F, U+3000.
pub open spec fn is_space3(a: u8, b: u8, c: u8) -> bool {
    ||| a == 0xe1 && b == 0x9a && c == 0x80
    ||| a == 0xe2 && b == 0x80 && (0x80 <= c <= 0x8a || c == 0xa8 || c == 0xa9 || c == 0xaf)
    ||| a == 0xe2 && b == 0x81 && c == 0x9f
    ||| a == 0xe3 && b == 0x80 && c == 0x80
}

/// Whether the bytes `a`, `b` encode a white-space character of two bytes:
/// U+0085 or U+00A0.
pub open spec fn is_space2(a: u8, b: u8) -> bool {
    a == 0xc2 && (b == 0x85 || b == 0xa0)
}

/// Whether `a` is a white-space character of one byte: a space, or one of
/// U+0009 to U+000D.
pub open spec fn is_space1(a: u8) -> bool {
    a == 0x20 || 0x09 <= a <= 0x0d
}

/// The length in bytes of the white-space character that `s` begins with,
/// and 0 when it begins with none.
pub open spec fn leading_space(s: Seq<u8>) -> int {
    if s.len() >= 1 && is_space1(s[0]) {
        1
    } else if s.len() >= 2 && is_space2(s[0], s[1]) {
        2
    } else if s.len() >= 3 && is_space3(s[0], s[1], s[2]) {
        3
    } else {
        0
    }
}

/// The length in bytes of the white-space character that `s` ends with, and
/// 0 when it ends with none.
pub open spec fn trailing_space(s: Seq<u8>) -> int {
    let n = s.len() as int;
    if n >= 1 && is_space1(s[n - 1]) {
        1
    } else if n >= 2 && is_space2(s[n - 2], s[n - 1]) {
        2
    } else if n >= 3 && is_space3(s[n - 3], s[n - 2], s[n - 1]) {
        3
    } else {
        0
    }
}

/// `s` without the white space that it begins with.
pub open spec fn trim_start_spec(s: Seq<u8>) -> Seq<u8>
    decreases s.len(),
{
    if leading_space(s) == 0 {
        s
    } else {
        trim_start_spec(s.skip(leading_space(s)))
    }
}

/// `s` without the white space that it ends with.
pub open spec fn trim_end_spec(s: Seq<u8>) -> Seq<u8>
    decreases s.len(),
{
    if trailing_space(s) == 0 {
        s
    } else {
        trim_end_spec(s.take(s.len() - trailing_space(s)))
    }
}

/// `s` without the white space around it. White space is what Unicode calls
/// so, in its UTF-8 encoding.
pub open spec fn trim_spec(s: Seq<u8>) -> Seq<u8> {
    trim_end_spec(trim_start_spec(s))
}

/// Measures the white-space character that begins at `at`.
fn space_at(s: &[u8], at: usize) -> (n: usize)
    requires
        at <= s@.len(),
    ensures
        n == leading_space(s@.skip(at as int)),
        at + n <= s@.len(),
{
    let len = s.len();
    let ghost t = s@.skip(at as int);
    if at < len && (s[at] == 0x20 || (0x09 <= s[at] && s[at] <= 0x0d)) {
        assert(t[0] == s@[at as int]);
        return 1;
    }
    if len - at >= 2 && s[at] == 0xc2 && (s[at + 1] == 0x85 || s[at + 1] == 0xa0) {
        assert(t[0] == s@[at as int] && t[1] == s@[at + 1]);
        return 2;
    }
    if len - at >= 3 {
        let a = s[at];
        let b = s[at + 1];
        let c = s[at + 2];
        assert(t[0] == a && t[1] == b && t[2] == c);
        if (a == 0xe1 && b == 0x9a && c == 0x80) || (a == 0xe2 && b == 0x80 && ((0x80 <= c && c
            <= 0x8a) || c == 0xa8 || c == 0xa9 || c == 0xaf)) || (a == 0xe2 && b == 0x81 && c
            == 0x9f) || (a == 0xe3 && b == 0x80 && c == 0x80) {
            return 3;
        }
    }
    proof {
        if t.len() >= 1 {
            assert(t[0] == s@[at as int]);
        }
        if t.len() >= 2 {
            assert(t[1] == s@[at + 1]);
        }
    }
    0
}

/// Measures the white-space character that ends before `end`.
fn space_before(s: &[u8], end: usize) -> (n: usize)
    requires
        end <= s@.len(),
    ensures
        n == trailing_space(s@.take(end as int)),
        n <= end,
{
    let ghost t = s@.take(end as int);
    if end >= 1 && (s[end - 1] == 0x20 || (0x09 <= s[end - 1] && s[end - 1] <= 0x0d)) {
        assert(t[end - 1] == s@[end - 1]);
        return 1;
    }
    if end >= 2 && s[end - 2] == 0xc2 && (s[end - 1] == 0x85 || s[end - 1] == 0xa0) {
        assert(t[end - 1] == s@[end - 1] && t[end - 2] == s@[end - 2]);
        return 2;
    }
    if end >= 3 {
        let a = s[end - 3];
        let b = s[end - 2];
        let c = s[end - 1];
        assert(t[end - 3] == a && t[end - 2] == b && t[end - 1] == c);
        if (a == 0xe1 && b == 0x9a && c == 0x80) || (a == 0xe2 && b == 0x80 && ((0x80 <= c && c
            <= 0x8a) || c == 0xa8 || c == 0xa9 || c == 0xaf)) || (a == 0xe2 && b == 0x81 && c
            == 0x9f) || (a == 0xe3 && b == 0x80 && c == 0x80) {
            return 3;
        }
    }
    proof {
        if t.len() >= 1 {
            assert(t[end - 1] == s@[end - 1]);
        }
        if t.len() >= 2 {
            assert(t[end - 2] == s@[end - 2]);
        }
    }
    0
}

/// Cuts the white space off both ends of a byte string.
pub fn trim(s: &[u8]) -> (r: &[u8])
    ensures
        r@ == trim_spec(s@),
{
    let len = s.len();
    let mut from: usize = 0;
    assert(s@.skip(0) =~= s@);
    loop
        invariant
            from <= len,
            len == s@.len(),
            trim_start_spec(s@) == trim_start_spec(s@.skip(from as int)),
        ensures
            from <= len,
            trim_start_spec(s@) == s@.skip(from as int),
        decreases len - from,
    {
        let n = space_at(s, from);
        if n == 0 {
            break ;
        }
        assert(s@.skip(from as int).skip(n as int) =~= s@.skip(from + n));
        from += n;
    }
    let rest = slice_subrange(s, from, len);
    let mut to: usize = rest.len();
    assert(rest@.take(to as int) =~= rest@);
    loop
        invariant
            to <= rest@.len(),
            trim_end_spec(rest@) == trim_end_spec(rest@.take(to as int)),
        ensures
            to <= rest@.len(),
            trim_end_spec(rest@) == rest@.take(to as int),
        decreases to,
    {
        let n = space_before(rest, to);
        if n == 0 {
            break ;
        }
        assert(rest@.take(to as int).take(to - n) =~= rest@.take(to - n));
        to -= n;
    }
    slice_subrange(rest, 0, to)
}

/// A line without its comment: everything before the first `#`.
pub open spec fn strip_comment_spec(s: Seq<u8>) -> Seq<u8> {
    s.take(first_at(s, HASH))
}

/// Cuts a line at its first `#`. A line without one comes back whole.
pub fn strip_comment(line: String) -> (r: String)
    ensures
        bytes_of(r@) == strip_comment_spec(bytes_of(line@)),
{
    let s = line.as_str();
    let b = s.as_bytes();
    let cut = find_byte(b, HASH);
    if cut == b.len() {
        return line;
    }
    proof {
        vstd::utf8::encode_utf8_valid_utf8(s@);
        vstd::utf8::is_char_boundary_iff_not_is_continuation_byte(b@, cut as int);
    }
    let (head, _) = s.split_at(cut);
    head.to_owned()
}

/// The lines of a text that count: each line loses its comment, and the
/// lines that are empty then are dropped.
pub open spec fn clean(lines: Seq<Seq<u8>>) -> Seq<Seq<u8>>
    decreases lines.len(),
{
    if lines.len() == 0 {
        Seq::empty()
    } else {
        let line = strip_comment_spec(lines[0]);
        if line.len() == 0 {
            clean(lines.skip(1))
        } else {
            seq![line] + clean(lines.skip(1))
        }
    }
}

/// One more line at the end of a text adds its stripped form at the end of
/// the lines that count, unless that form is empty.
pub proof fn lemma_clean_push(lines: Seq<Seq<u8>>, last: Seq<u8>)
    ensures
        clean(lines.push(last)) == if strip_comment_spec(last).len() == 0 {
            clean(lines)
        } else {
            clean(lines).push(strip_comment_spec(last))
        },
    decreases lines.len(),
{
    let all = lines.push(last);
    let e = Seq::<Seq<u8>>::empty();
    if lines.len() == 0 {
        assert(all.skip(1) =~= e);
        assert(clean(e) =~= e);
    } else {
        assert(all.skip(1) =~= lines.skip(1).push(last));
        lemma_clean_push(lines.skip(1), last);
    }
}

/// Every line that counts is the stripped form of a line of the text.
pub proof fn lemma_clean_members(lines: Seq<Seq<u8>>)
    ensures
        forall|j: int|
            0 <= j < clean(lines).len() ==> exists|i: int|
                0 <= i < lines.len() && #[trigger] clean(lines)[j] == strip_comment_spec(lines[i]),
    decreases lines.len(),
{
    if lines.len() > 0 {
        let rest = lines.skip(1);
        let head = strip_comment_spec(lines[0]);
        lemma_clean_members(rest);
        assert forall|j: int| 0 <= j < clean(lines).len() implies exists|i: int|
            0 <= i < lines.len() && #[trigger] clean(lines)[j] == strip_comment_spec(lines[i]) by {
            if head.len() == 0 || j > 0 {
                let back = if head.len() > 0 {
                    j - 1
                } else {
                    j
                };
                let i = choose|i: int|
                    0 <= i < rest.len() && clean(rest)[back] == strip_comment_spec(rest[i]);
                assert(rest[i] == lines[i + 1]);
            }
        }
    }
}

} // verus!
