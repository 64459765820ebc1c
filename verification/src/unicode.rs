//! Character-level model: how many UTF-8 bytes and UTF-16 code units each
//! scalar value takes, and prefix sums of those lengths over a text.

use vstd::prelude::*;
use vstd::utf8::{encode_scalar, encode_utf8, char_is_scalar};

verus! {

/// How the `character` field of a position counts code units: UTF-16 code
/// units (the protocol default) or UTF-8 bytes.
#[derive(Clone, Copy, PartialEq, Eq, Structural, Debug)]
pub enum Encoding {
    Utf16,
    Utf8,
}

/// Number of bytes in the UTF-8 encoding of one scalar value.
pub open spec fn char_utf8_len(c: char) -> int {
    if (c as u32) < 0x80 {
        1
    } else if (c as u32) < 0x800 {
        2
    } else if (c as u32) < 0x10000 {
        3
    } else {
        4
    }
}

/// Number of code units in the UTF-16 encoding of one scalar value:
/// 2 for a scalar outside the Basic Multilingual Plane (a surrogate pair),
/// 1 otherwise.
pub open spec fn char_utf16_len(c: char) -> int {
    if (c as u32) < 0x10000 {
        1
    } else {
        2
    }
}

/// Number of code units one scalar value takes under the given encoding.
pub open spec fn char_units(enc: Encoding, c: char) -> int {
    match enc {
        Encoding::Utf16 => char_utf16_len(c),
        Encoding::Utf8 => char_utf8_len(c),
    }
}

/// Code units of the first `i` scalar values of `s` under `enc`.
pub open spec fn prefix_units(enc: Encoding, s: Seq<char>, i: int) -> int
    recommends
        i <= s.len(),
    decreases i,
{
    if i <= 0 {
        0
    } else {
        prefix_units(enc, s, i - 1) + char_units(enc, s[i - 1])
    }
}

/// Code units of the scalar values of `s` with index in `[i, j)` under `enc`.
pub open spec fn range_units(enc: Encoding, s: Seq<char>, i: int, j: int) -> int {
    prefix_units(enc, s, j) - prefix_units(enc, s, i)
}

/// Bytes of the first `i` scalar values of `s` in UTF-8.
pub open spec fn prefix_bytes(s: Seq<char>, i: int) -> int {
    prefix_units(Encoding::Utf8, s, i)
}

/// Total UTF-8 byte length of `s`.
pub open spec fn byte_length(s: Seq<char>) -> int {
    prefix_bytes(s, s.len() as int)
}

/// Every scalar value takes at least one and at most four code units.
pub broadcast proof fn lemma_char_units_bounds(enc: Encoding, c: char)
    ensures
        1 <= #[trigger] char_units(enc, c) <= 4,
{
}

/// A scalar value never takes more UTF-16 code units than UTF-8 bytes.
pub broadcast proof fn lemma_char_units_le_bytes(enc: Encoding, c: char)
    ensures
        #[trigger] char_units(enc, c) <= char_utf8_len(c),
{
}

/// Prefix sums of unit lengths grow by at least one and at most four per
/// scalar value.
pub proof fn lemma_prefix_units_mono(enc: Encoding, s: Seq<char>, i: int, j: int)
    requires
        0 <= i <= j <= s.len(),
    ensures
        prefix_units(enc, s, i) + (j - i) <= prefix_units(enc, s, j) <= prefix_units(enc, s, i) + 4
            * (j - i),
    decreases j - i,
{
    if i < j {
        lemma_prefix_units_mono(enc, s, i, j - 1);
        lemma_char_units_bounds(enc, s[j - 1]);
    }
}

/// Unit counts under any encoding are bounded by the UTF-8 byte count.
pub proof fn lemma_prefix_units_le_bytes(enc: Encoding, s: Seq<char>, i: int)
    requires
        0 <= i <= s.len(),
    ensures
        prefix_units(enc, s, i) <= prefix_bytes(s, i),
    decreases i,
{
    if i > 0 {
        lemma_prefix_units_le_bytes(enc, s, i - 1);
        lemma_char_units_le_bytes(enc, s[i - 1]);
    }
}

/// `char_utf8_len` agrees with the length of vstd's UTF-8 encoding of the
/// scalar.
proof fn lemma_char_utf8_len_encode(c: char)
    ensures
        char_utf8_len(c) == encode_scalar(c as u32).len(),
{
    char_is_scalar(c);
}

/// Appending one scalar value extends the UTF-8 encoding by its own encoding.
proof fn lemma_encode_utf8_push(s: Seq<char>, c: char)
    ensures
        encode_utf8(s.push(c)) == encode_utf8(s) + encode_scalar(c as u32),
    decreases s.len(),
{
    if s.len() == 0 {
        let sc = s.push(c);
        assert(sc[0] == c);
        assert(sc.drop_first() =~= Seq::<char>::empty());
        assert(encode_utf8(sc) == encode_scalar(c as u32) + encode_utf8(sc.drop_first()));
        assert(encode_utf8(sc) =~= encode_utf8(s) + encode_scalar(c as u32));
    } else {
        lemma_encode_utf8_push(s.drop_first(), c);
        assert(s.push(c).drop_first() =~= s.drop_first().push(c));
        assert(encode_utf8(s.push(c)) == encode_scalar(s[0] as u32) + encode_utf8(
            s.drop_first().push(c),
        ));
        assert(encode_utf8(s.push(c)) =~= encode_utf8(s) + encode_scalar(c as u32));
    }
}

/// `prefix_bytes` counts exactly the bytes of vstd's UTF-8 encoding of the
/// prefix; in particular `byte_length(s)` is the length of the encoded text.
pub proof fn lemma_prefix_bytes_encode(s: Seq<char>, i: int)
    requires
        0 <= i <= s.len(),
    ensures
        prefix_bytes(s, i) == encode_utf8(s.take(i)).len(),
    decreases i,
{
    if i == 0 {
        assert(s.take(0) =~= Seq::<char>::empty());
    } else {
        lemma_prefix_bytes_encode(s, i - 1);
        lemma_char_utf8_len_encode(s[i - 1]);
        assert(s.take(i) =~= s.take(i - 1).push(s[i - 1]));
        lemma_encode_utf8_push(s.take(i - 1), s[i - 1]);
    }
}

/// Total byte length equals the length of vstd's UTF-8 encoding.
pub proof fn lemma_byte_length_encode(s: Seq<char>)
    ensures
        byte_length(s) == encode_utf8(s).len(),
{
    lemma_prefix_bytes_encode(s, s.len() as int);
    assert(s.take(s.len() as int) =~= s);
}

/// Prefix sums over a concatenation: counting within the left part ignores
/// the right part.
pub proof fn lemma_prefix_units_concat_left(enc: Encoding, a: Seq<char>, b: Seq<char>, i: int)
    requires
        0 <= i <= a.len(),
    ensures
        prefix_units(enc, a + b, i) == prefix_units(enc, a, i),
    decreases i,
{
    if i > 0 {
        lemma_prefix_units_concat_left(enc, a, b, i - 1);
        assert((a + b)[i - 1] == a[i - 1]);
    }
}

/// Prefix sums over a concatenation, inside the right part.
pub proof fn lemma_prefix_units_concat_right(enc: Encoding, a: Seq<char>, b: Seq<char>, j: int)
    requires
        0 <= j <= b.len(),
    ensures
        prefix_units(enc, a + b, a.len() + j) == prefix_units(enc, a, a.len() as int)
            + prefix_units(enc, b, j),
    decreases j,
{
    if j == 0 {
        lemma_prefix_units_concat_left(enc, a, b, a.len() as int);
    } else {
        lemma_prefix_units_concat_right(enc, a, b, j - 1);
        assert((a + b)[a.len() + j - 1] == b[j - 1]);
    }
}

/// Counting units within a prefix of `s` ignores what lies beyond it.
pub proof fn lemma_prefix_units_take(enc: Encoding, s: Seq<char>, j: int, i: int)
    requires
        0 <= i <= j <= s.len(),
    ensures
        prefix_units(enc, s.take(j), i) == prefix_units(enc, s, i),
    decreases i,
{
    if i > 0 {
        lemma_prefix_units_take(enc, s, j, i - 1);
        assert(s.take(j)[i - 1] == s[i - 1]);
    }
}

/// Counting units after dropping a prefix of `s` shifts the index.
pub proof fn lemma_prefix_units_skip(enc: Encoding, s: Seq<char>, i: int, k: int)
    requires
        0 <= i,
        0 <= k,
        i + k <= s.len(),
    ensures
        prefix_units(enc, s.skip(i), k) == prefix_units(enc, s, i + k) - prefix_units(enc, s, i),
    decreases k,
{
    if k > 0 {
        lemma_prefix_units_skip(enc, s, i, k - 1);
        assert(s.skip(i)[k - 1] == s[i + k - 1]);
    }
}

/// Number of code units one scalar value takes under the given encoding.
pub fn units_of(enc: Encoding, c: char) -> (r: usize)
    ensures
        r == char_units(enc, c),
{
    let u = c as u32;
    match enc {
        Encoding::Utf16 => {
            if u < 0x10000 {
                1
            } else {
                2
            }
        },
        Encoding::Utf8 => {
            if u < 0x80 {
                1
            } else if u < 0x800 {
                2
            } else if u < 0x10000 {
                3
            } else {
                4
            }
        },
    }
}

/// Number of bytes one scalar value takes in UTF-8.
pub fn utf8_len_of(c: char) -> (r: usize)
    ensures
        r == char_utf8_len(c),
{
    units_of(Encoding::Utf8, c)
}

} // verus!
