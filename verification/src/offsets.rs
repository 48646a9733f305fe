//! The two ways of measuring a text: in UTF-16 code units and in UTF-8 bytes.
//!
//! A text is modelled as its sequence of characters. A position given in
//! UTF-16 code units is meaningful only where it falls between two characters;
//! such a position has exactly one matching position in UTF-8 bytes.

use vstd::prelude::*;
use vstd::utf8::*;

verus! {

/// Number of UTF-16 code units that encode `c`: two for a character outside
/// the basic multilingual plane, one otherwise.
pub open spec fn utf16_width(c: char) -> nat {
    if (c as u32) < 0x10000 {
        1
    } else {
        2
    }
}

/// Number of UTF-8 bytes that encode `c`.
pub open spec fn utf8_width(c: char) -> nat {
    if (c as u32) < 0x80 {
        1
    } else if (c as u32) < 0x800 {
        2
    } else if (c as u32) < 0x10000 {
        3
    } else {
        4
    }
}

/// Length of `s` in UTF-16 code units.
pub open spec fn utf16_len(s: Seq<char>) -> nat
    decreases s.len(),
{
    if s.len() == 0 {
        0
    } else {
        utf16_width(s[0]) + utf16_len(s.drop_first())
    }
}

/// Length of `s` in UTF-8 bytes.
pub open spec fn utf8_len(s: Seq<char>) -> nat
    decreases s.len(),
{
    if s.len() == 0 {
        0
    } else {
        utf8_width(s[0]) + utf8_len(s.drop_first())
    }
}

/// The first `k` characters of `s` take exactly `pos` UTF-16 code units.
pub open spec fn boundary_at(s: Seq<char>, k: int, pos: int) -> bool {
    0 <= k <= s.len() && utf16_len(s.take(k)) == pos
}

/// `pos`, counted in UTF-16 code units from the start of `s`, falls between
/// two characters of `s`, before the first one or after the last one.
pub open spec fn is_boundary(s: Seq<char>, pos: int) -> bool {
    exists|k: int| boundary_at(s, k, pos)
}

/// Number of characters of `s` that precede the UTF-16 position `pos`.
pub open spec fn char_index(s: Seq<char>, pos: int) -> int
    recommends
        is_boundary(s, pos),
{
    choose|k: int| boundary_at(s, k, pos)
}

/// The UTF-8 byte position in `s` that matches the UTF-16 position `pos`.
pub open spec fn byte_offset(s: Seq<char>, pos: int) -> int
    recommends
        is_boundary(s, pos),
{
    utf8_len(s.take(char_index(s, pos))) as int
}

/// `char::len_utf8` of std: the number of bytes that the character takes in
/// UTF-8, which is one to four according to the size of its code point.
pub assume_specification[ char::len_utf8 ](c: char) -> (n: usize)
    ensures
        n == utf8_width(c),
;

/// `char::len_utf16` of std: the number of 16-bit code units that the
/// character takes in UTF-16, which is two above the basic multilingual plane
/// and one otherwise.
pub assume_specification[ char::len_utf16 ](c: char) -> (n: usize)
    ensures
        n == utf16_width(c),
;

/// Taking one more character adds that character's widths to both lengths.
pub proof fn lemma_len_step(s: Seq<char>, k: int)
    requires
        0 <= k < s.len(),
    ensures
        utf16_len(s.take(k + 1)) == utf16_len(s.take(k)) + utf16_width(s[k]),
        utf8_len(s.take(k + 1)) == utf8_len(s.take(k)) + utf8_width(s[k]),
    decreases k,
{
    if k == 0 {
        assert(s.take(1).drop_first() =~= s.take(0));
        assert(s.take(0).len() == 0);
    } else {
        let t = s.drop_first();
        lemma_len_step(t, k - 1);
        assert(s.take(k + 1).drop_first() =~= t.take(k));
        assert(s.take(k).drop_first() =~= t.take(k - 1));
        assert(s.take(k + 1)[0] == s[0]);
        assert(s.take(k)[0] == s[0]);
    }
}

/// Both lengths grow strictly with the number of characters taken.
pub proof fn lemma_len_increasing(s: Seq<char>, i: int, j: int)
    requires
        0 <= i < j <= s.len(),
    ensures
        utf16_len(s.take(i)) < utf16_len(s.take(j)),
        utf8_len(s.take(i)) < utf8_len(s.take(j)),
    decreases j - i,
{
    lemma_len_step(s, j - 1);
    if i < j - 1 {
        lemma_len_increasing(s, i, j - 1);
    }
}

/// A UTF-16 position is the boundary of at most one character count, so a
/// known witness determines `char_index` and `byte_offset`.
pub proof fn lemma_boundary_unique(s: Seq<char>, k: int, pos: int)
    requires
        boundary_at(s, k, pos),
    ensures
        is_boundary(s, pos),
        char_index(s, pos) == k,
        byte_offset(s, pos) == utf8_len(s.take(k)),
{
    let c = char_index(s, pos);
    assert(boundary_at(s, c, pos));
    if c < k {
        lemma_len_increasing(s, c, k);
    } else if k < c {
        lemma_len_increasing(s, k, c);
    }
}

/// A position strictly between two neighbouring boundaries, or past the end
/// of the text, is no boundary.
pub proof fn lemma_not_boundary(s: Seq<char>, k: int, pos: int)
    requires
        0 <= k <= s.len(),
        utf16_len(s.take(k)) < pos,
        k < s.len() ==> pos < utf16_len(s.take(k + 1)),
    ensures
        !is_boundary(s, pos),
{
    if is_boundary(s, pos) {
        let c = char_index(s, pos);
        assert(boundary_at(s, c, pos));
        if c <= k {
            if c < k {
                lemma_len_increasing(s, c, k);
            }
        } else {
            if k + 1 < c {
                lemma_len_increasing(s, k + 1, c);
            }
        }
    }
}

/// The first `k` characters of `s` take exactly `pos` UTF-8 bytes.
pub open spec fn byte_boundary_at(s: Seq<char>, k: int, pos: int) -> bool {
    0 <= k <= s.len() && utf8_len(s.take(k)) == pos
}

/// `pos`, counted in UTF-8 bytes from the start of `s`, falls between two
/// characters of `s`, before the first one or after the last one.
pub open spec fn is_byte_boundary(s: Seq<char>, pos: int) -> bool {
    exists|k: int| byte_boundary_at(s, k, pos)
}

/// Number of characters of `s` that precede the UTF-8 byte position `pos`.
pub open spec fn char_count(s: Seq<char>, pos: int) -> int
    recommends
        is_byte_boundary(s, pos),
{
    choose|k: int| byte_boundary_at(s, k, pos)
}

/// A byte position is the boundary of at most one character count.
pub proof fn lemma_byte_boundary_unique(s: Seq<char>, k: int, pos: int)
    requires
        byte_boundary_at(s, k, pos),
    ensures
        is_byte_boundary(s, pos),
        char_count(s, pos) == k,
{
    let c = char_count(s, pos);
    assert(byte_boundary_at(s, c, pos));
    if c < k {
        lemma_len_increasing(s, c, k);
    } else if k < c {
        lemma_len_increasing(s, k, c);
    }
}

/// No prefix is longer than the whole text, in either measure.
pub proof fn lemma_prefix_le(s: Seq<char>, k: int)
    requires
        0 <= k <= s.len(),
    ensures
        utf16_len(s.take(k)) <= utf16_len(s),
        utf8_len(s.take(k)) <= utf8_len(s),
{
    assert(s.take(s.len() as int) =~= s);
    if k < s.len() {
        lemma_len_increasing(s, k, s.len() as int);
    }
}

/// A text never takes more UTF-16 code units than UTF-8 bytes.
pub proof fn lemma_utf16_le_utf8(s: Seq<char>)
    ensures
        utf16_len(s) <= utf8_len(s),
    decreases s.len(),
{
    if s.len() > 0 {
        lemma_utf16_le_utf8(s.drop_first());
    }
}

/// The sum of the characters' widths is the length of the text's UTF-8
/// encoding.
pub proof fn lemma_utf8_len_encoded(s: Seq<char>)
    ensures
        utf8_len(s) == encode_utf8(s).len(),
    decreases s.len(),
{
    if s.len() > 0 {
        char_is_scalar(s[0]);
        lemma_utf8_len_encoded(s.drop_first());
    }
}

/// A boundary lies within the text.
pub proof fn lemma_boundary_bound(s: Seq<char>, pos: int)
    requires
        is_boundary(s, pos),
    ensures
        0 <= pos <= utf16_len(s),
{
    let k = char_index(s, pos);
    assert(boundary_at(s, k, pos));
    lemma_prefix_le(s, k);
}

/// Conversion keeps the order of positions: of two boundaries, the later one
/// in UTF-16 code units is the later one in characters and in bytes, and both
/// byte positions fall between characters.
pub proof fn lemma_offsets_ordered(s: Seq<char>, p: int, q: int)
    requires
        is_boundary(s, p),
        is_boundary(s, q),
        p <= q,
    ensures
        0 <= char_index(s, p) <= char_index(s, q) <= s.len(),
        0 <= byte_offset(s, p) <= byte_offset(s, q) <= utf8_len(s),
        byte_boundary_at(s, char_index(s, p), byte_offset(s, p)),
        byte_boundary_at(s, char_index(s, q), byte_offset(s, q)),
{
    let i = char_index(s, p);
    let j = char_index(s, q);
    assert(boundary_at(s, i, p));
    assert(boundary_at(s, j, q));
    if j < i {
        lemma_len_increasing(s, j, i);
    }
    if i < j {
        lemma_len_increasing(s, i, j);
    }
    lemma_prefix_le(s, j);
}

/// Cutting the UTF-8 encoding of `s` after the bytes of its first `k`
/// characters cuts it at a character boundary, into the encoding of those
/// characters and the encoding of the rest.
pub proof fn lemma_encoding_split(s: Seq<char>, k: int)
    requires
        0 <= k <= s.len(),
    ensures
        utf8_len(s.take(k)) <= encode_utf8(s).len(),
        is_char_boundary(encode_utf8(s), utf8_len(s.take(k)) as int),
        encode_utf8(s).subrange(0, utf8_len(s.take(k)) as int) =~= encode_utf8(s.take(k)),
        encode_utf8(s).subrange(utf8_len(s.take(k)) as int, encode_utf8(s).len() as int)
            =~= encode_utf8(s.skip(k)),
    decreases k,
{
    let bytes = encode_utf8(s);
    encode_utf8_valid_utf8(s);
    lemma_prefix_le(s, k);
    lemma_utf8_len_encoded(s);
    if k == 0 {
        assert(s.take(0).len() == 0);
        assert(s.skip(0) =~= s);
    } else {
        let t = s.drop_first();
        let head = encode_scalar(s[0] as u32);
        lemma_encoding_split(t, k - 1);
        encode_utf8_first_scalar(s);
        char_is_scalar(s[0]);
        assert(pop_first_scalar(bytes) =~= encode_utf8(t));
        assert(s.take(k).drop_first() =~= t.take(k - 1));
        assert(s.take(k)[0] == s[0]);
        assert(s.skip(k) =~= t.skip(k - 1));
        lemma_utf8_len_encoded(t.take(k - 1));
        lemma_utf8_len_encoded(s.take(k));
        lemma_utf8_len_encoded(t);
        assert(encode_utf8(s.take(k)) =~= head + encode_utf8(t.take(k - 1)));
        assert(bytes =~= head + encode_utf8(t));
    }
}

/// The lengths of a stretch of characters are the differences of the lengths
/// of the two prefixes that end where it starts and where it ends.
pub proof fn lemma_len_subrange(s: Seq<char>, i: int, j: int)
    requires
        0 <= i <= j <= s.len(),
    ensures
        utf16_len(s.subrange(i, j)) == utf16_len(s.take(j)) - utf16_len(s.take(i)),
        utf8_len(s.subrange(i, j)) == utf8_len(s.take(j)) - utf8_len(s.take(i)),
    decreases j - i,
{
    let u = s.subrange(i, j);
    if i == j {
        assert(u.len() == 0);
    } else {
        lemma_len_subrange(s, i, j - 1);
        assert(u.take(j - 1 - i) =~= s.subrange(i, j - 1));
        assert(u.take(j - i) =~= u);
        lemma_len_step(u, j - 1 - i);
        lemma_len_step(s, j - 1);
    }
}

/// Conversion is strictly increasing: a later boundary has a later byte
/// position.
pub proof fn lemma_offsets_increasing(s: Seq<char>, p: int, q: int)
    requires
        is_boundary(s, p),
        is_boundary(s, q),
        p < q,
    ensures
        byte_offset(s, p) < byte_offset(s, q),
{
    let i = char_index(s, p);
    let j = char_index(s, q);
    assert(boundary_at(s, i, p));
    assert(boundary_at(s, j, q));
    if j < i {
        lemma_len_increasing(s, j, i);
    }
    if i < j {
        lemma_len_increasing(s, i, j);
    }
}

/// In a text of ASCII characters alone every character takes one code unit
/// and one byte, so positions in characters, code units and bytes agree.
pub proof fn lemma_ascii_positions(s: Seq<char>, k: int)
    requires
        is_ascii_chars(s),
        0 <= k <= s.len(),
    ensures
        utf16_len(s.take(k)) == k,
        utf8_len(s.take(k)) == k,
        boundary_at(s, k, k),
        byte_offset(s, k) == k,
    decreases k,
{
    if k > 0 {
        lemma_ascii_positions(s, k - 1);
        lemma_len_step(s, k - 1);
    } else {
        assert(s.take(0).len() == 0);
    }
    lemma_boundary_unique(s, k, k);
}

/// Two texts with the same UTF-8 encoding are the same text.
pub proof fn lemma_encoding_injective(a: Seq<char>, b: Seq<char>)
    requires
        encode_utf8(a) == encode_utf8(b),
    ensures
        a == b,
{
    encode_utf8_decode_utf8(a);
    encode_utf8_decode_utf8(b);
}

} // verus!
