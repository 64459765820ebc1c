//! The mutable text of one document: an ordered sequence of Unicode scalar
//! values, addressed from outside by UTF-8 byte offsets that must lie on
//! scalar boundaries.

use vstd::prelude::*;
use crate::unicode::{
    Encoding, byte_length, prefix_bytes, lemma_byte_length_encode, lemma_prefix_units_mono,
    lemma_prefix_units_take, lemma_prefix_units_skip, lemma_prefix_units_concat_right,
    utf8_len_of,
};

verus! {

broadcast use vstd::string::group_string_axioms;

/// `off` lies on a scalar-value boundary of `s` (counting UTF-8 bytes).
pub open spec fn is_boundary(s: Seq<char>, off: int) -> bool {
    exists|i: int| 0 <= i <= s.len() && prefix_bytes(s, i) == off
}

/// The scalar index whose byte prefix is `off`; unique when `off` lies on a
/// boundary.
pub open spec fn boundary_idx(s: Seq<char>, off: int) -> int {
    choose|i: int| 0 <= i <= s.len() && prefix_bytes(s, i) == off
}

/// Distinct scalar indices have distinct byte prefixes, so a boundary
/// determines its scalar index.
pub proof fn lemma_boundary_unique(s: Seq<char>, i: int, j: int)
    requires
        0 <= i <= s.len(),
        0 <= j <= s.len(),
        prefix_bytes(s, i) == prefix_bytes(s, j),
    ensures
        i == j,
{
    if i < j {
        lemma_prefix_units_mono(Encoding::Utf8, s, i, j);
    }
    if j < i {
        lemma_prefix_units_mono(Encoding::Utf8, s, j, i);
    }
}

/// The text of one open document.
pub struct Buffer {
    chars: Vec<char>,
    bytes: usize,
}

impl View for Buffer {
    type V = Seq<char>;

    closed spec fn view(&self) -> Seq<char> {
        self.chars@
    }
}

/// Appends one scalar value to an owned string.
///
/// Relies on std's `String::push`: appends the given `char` to the end of
/// the string.
#[verifier::external_body]
fn push_char(s: &mut String, c: char)
    ensures
        final(s)@ == old(s)@.push(c),
{
    s.push(c)
}

impl Buffer {
    /// The cached byte count is the UTF-8 length of the content.
    #[verifier::type_invariant]
    spec fn wf(self) -> bool {
        self.bytes == byte_length(self.chars@)
    }

    /// The empty text.
    pub fn new() -> (r: Buffer)
        ensures
            r@ == Seq::<char>::empty(),
    {
        let r = Buffer { chars: Vec::new(), bytes: 0 };
        proof {
            assert(r.chars@.len() == 0);
        }
        r
    }

    /// The text holding the scalar values of `s`.
    pub fn from_str(s: &str) -> (r: Buffer)
        ensures
            r@ == s@,
    {
        let byte_count: usize = s.as_bytes().len();
        proof {
            lemma_byte_length_encode(s@);
        }
        let mut chars: Vec<char> = Vec::new();
        let mut it = s.chars();
        loop
            invariant
                chars@ + vstd::std_specs::iter::IteratorSpec::remaining(&it) == s@,
                vstd::std_specs::iter::IteratorSpec::decrease(&it) is Some,
            ensures
                chars@ == s@,
            decreases vstd::std_specs::iter::IteratorSpec::decrease(&it)->0,
        {
            match it.next() {
                Some(c) => {
                    chars.push(c);
                    proof {
                        assert(chars@ + vstd::std_specs::iter::IteratorSpec::remaining(&it)
                            =~= s@);
                    }
                },
                None => {
                    proof {
                        assert(chars@ =~= s@);
                    }
                    break ;
                },
            }
        }
        Buffer { chars, bytes: byte_count }
    }

    /// Byte length of the content in UTF-8.
    pub fn len(&self) -> (r: usize)
        ensures
            r == byte_length(self@),
    {
        proof {
            use_type_invariant(self);
        }
        self.bytes
    }

    /// Number of scalar values in the content.
    pub fn scalar_count(&self) -> (r: usize)
        ensures
            r == self@.len(),
    {
        self.chars.len()
    }

    /// The scalar value at index `i`.
    pub fn char_at(&self, i: usize) -> (c: char)
        requires
            i < self@.len(),
        ensures
            c == self@[i as int],
    {
        self.chars[i]
    }

    /// An owned copy with the same content.
    pub fn snapshot(&self) -> (r: Buffer)
        ensures
            r@ == self@,
    {
        proof {
            use_type_invariant(self);
        }
        let n: usize = self.chars.len();
        let mut chars: Vec<char> = Vec::new();
        let mut k: usize = 0;
        while k < n
            invariant
                k <= n == self.chars@.len(),
                chars@ == self.chars@.take(k as int),
            decreases n - k,
        {
            chars.push(self.chars[k]);
            proof {
                assert(chars@ =~= self.chars@.take(k + 1));
            }
            k = k + 1;
        }
        proof {
            assert(chars@ =~= self.chars@);
        }
        Buffer { chars, bytes: self.bytes }
    }

    /// The content as an owned string.
    pub fn to_string(&self) -> (r: String)
        ensures
            r@ == self@,
    {
        let n: usize = self.chars.len();
        let mut r = String::new();
        let mut k: usize = 0;
        while k < n
            invariant
                k <= n == self.chars@.len(),
                r@ == self.chars@.take(k as int),
            decreases n - k,
        {
            push_char(&mut r, self.chars[k]);
            proof {
                assert(r@ =~= self.chars@.take(k + 1));
            }
            k = k + 1;
        }
        proof {
            assert(r@ =~= self.chars@);
        }
        r
    }

    /// UTF-8 byte count of the first `i` scalar values.
    pub(crate) fn bytes_up_to(&self, i: usize) -> (r: usize)
        requires
            i <= self@.len(),
        ensures
            r == prefix_bytes(self@, i as int),
    {
        proof {
            use_type_invariant(self);
        }
        let mut b: usize = 0;
        let mut k: usize = 0;
        while k < i
            invariant
                k <= i <= self.chars@.len(),
                b == prefix_bytes(self.chars@, k as int),
                self.bytes == byte_length(self.chars@),
            decreases i - k,
        {
            proof {
                lemma_prefix_units_mono(Encoding::Utf8, self.chars@, k + 1, self.chars@.len() as int);
            }
            b = b + utf8_len_of(self.chars[k]);
            k = k + 1;
        }
        b
    }

    /// The scalar index lying at byte offset `off`, which must be a scalar
    /// boundary.
    pub(crate) fn char_index_of(&self, off: usize) -> (r: usize)
        requires
            is_boundary(self@, off as int),
        ensures
            0 <= r <= self@.len(),
            prefix_bytes(self@, r as int) == off,
            r == boundary_idx(self@, off as int),
    {
        proof {
            use_type_invariant(self);
        }
        let n: usize = self.chars.len();
        let ghost t: int = boundary_idx(self@, off as int);
        proof {
            assert(0 <= t <= self@.len() && prefix_bytes(self@, t) == off);
        }
        let mut b: usize = 0;
        let mut k: usize = 0;
        while b < off
            invariant
                0 <= k <= t <= self.chars@.len(),
                n == self.chars@.len(),
                b == prefix_bytes(self.chars@, k as int),
                b <= off,
                prefix_bytes(self.chars@, t) == off,
            decreases off - b,
        {
            proof {
                assert(k < t) by {
                    if k == t {
                        assert(b == off);
                    }
                }
                lemma_prefix_units_mono(Encoding::Utf8, self.chars@, k + 1, t);
            }
            b = b + utf8_len_of(self.chars[k]);
            k = k + 1;
        }
        proof {
            lemma_boundary_unique(self.chars@, k as int, t);
        }
        k
    }

    /// Replaces the scalar values in `[i1, i2)` with the content of `text`.
    pub(crate) fn splice(&mut self, i1: usize, i2: usize, text: &Buffer)
        requires
            i1 <= i2 <= old(self)@.len(),
            byte_length(old(self)@) - prefix_bytes(old(self)@, i2 as int) + prefix_bytes(
                old(self)@,
                i1 as int,
            ) + byte_length(text@) <= usize::MAX,
        ensures
            final(self)@ == old(self)@.take(i1 as int) + text@ + old(self)@.skip(i2 as int),
    {
        proof {
            use_type_invariant(&*self);
            use_type_invariant(text);
        }
        let b1: usize = self.bytes_up_to(i1);
        let b2: usize = self.bytes_up_to(i2);
        proof {
            lemma_prefix_units_mono(Encoding::Utf8, self.chars@, i1 as int, i2 as int);
            lemma_prefix_units_mono(Encoding::Utf8, self.chars@, i2 as int, self.chars@.len() as int);
        }
        let n: usize = self.chars.len();
        let m: usize = text.chars.len();
        let mut chars: Vec<char> = Vec::new();
        let mut k: usize = 0;
        while k < i1
            invariant
                k <= i1 <= self.chars@.len(),
                chars@ == self.chars@.take(k as int),
            decreases i1 - k,
        {
            chars.push(self.chars[k]);
            proof {
                assert(chars@ =~= self.chars@.take(k + 1));
            }
            k = k + 1;
        }
        k = 0;
        while k < m
            invariant
                k <= m == text.chars@.len(),
                i1 <= self.chars@.len(),
                chars@ == self.chars@.take(i1 as int) + text.chars@.take(k as int),
            decreases m - k,
        {
            chars.push(text.chars[k]);
            proof {
                assert(chars@ =~= self.chars@.take(i1 as int) + text.chars@.take(k + 1));
            }
            k = k + 1;
        }
        proof {
            assert(text.chars@.take(m as int) =~= text.chars@);
        }
        k = i2;
        while k < n
            invariant
                i2 <= k <= n == self.chars@.len(),
                i1 <= i2,
                chars@ == self.chars@.take(i1 as int) + text.chars@ + self.chars@.subrange(
                    i2 as int,
                    k as int,
                ),
            decreases n - k,
        {
            chars.push(self.chars[k]);
            proof {
                assert(chars@ =~= self.chars@.take(i1 as int) + text.chars@ + self.chars@.subrange(
                    i2 as int,
                    k + 1,
                ));
            }
            k = k + 1;
        }
        proof {
            assert(self.chars@.subrange(i2 as int, n as int) =~= self.chars@.skip(i2 as int));
        }
        let bytes: usize = self.bytes - (b2 - b1) + text.bytes;
        proof {
            let s = self.chars@;
            let a = s.take(i1 as int);
            let b = text.chars@;
            let c = s.skip(i2 as int);
            lemma_prefix_units_take(Encoding::Utf8, s, i1 as int, i1 as int);
            lemma_prefix_units_skip(Encoding::Utf8, s, i2 as int, s.len() - i2 as int);
            lemma_prefix_units_concat_right(Encoding::Utf8, a, b, b.len() as int);
            lemma_prefix_units_concat_right(Encoding::Utf8, a + b, c, c.len() as int);
            assert((a + b + c).len() == a.len() + b.len() + c.len());
            assert(byte_length(a + b + c) == byte_length(a) + byte_length(b) + byte_length(c));
            assert(chars@ =~= a + b + c);
        }
        *self = Buffer { chars, bytes };
    }

    /// Inserts the scalar values of `text` at byte offset `offset`, which
    /// must lie on a scalar boundary.
    pub fn insert(&mut self, offset: usize, text: &str)
        requires
            is_boundary(old(self)@, offset as int),
            byte_length(old(self)@) + byte_length(text@) <= usize::MAX,
        ensures
            final(self)@ == old(self)@.take(boundary_idx(old(self)@, offset as int)) + text@ + old(
                self,
            )@.skip(boundary_idx(old(self)@, offset as int)),
    {
        let t = Buffer::from_str(text);
        let i: usize = self.char_index_of(offset);
        self.splice(i, i, &t);
    }

    /// Deletes the scalar values between byte offsets `start` and `end`,
    /// both of which must lie on scalar boundaries.
    pub fn delete(&mut self, start: usize, end: usize)
        requires
            is_boundary(old(self)@, start as int),
            is_boundary(old(self)@, end as int),
            start <= end,
        ensures
            final(self)@ == old(self)@.take(boundary_idx(old(self)@, start as int)) + old(self)@.skip(
                boundary_idx(old(self)@, end as int),
            ),
    {
        proof {
            use_type_invariant(&*self);
        }
        let i1: usize = self.char_index_of(start);
        let i2: usize = self.char_index_of(end);
        proof {
            if i2 < i1 {
                lemma_prefix_units_mono(Encoding::Utf8, self@, i2 as int, i1 as int);
            }
            lemma_prefix_units_mono(Encoding::Utf8, self@, i2 as int, self@.len() as int);
        }
        let empty = Buffer::new();
        self.splice(i1, i2, &empty);
        proof {
            assert(old(self)@.take(i1 as int) + Seq::<char>::empty() + old(self)@.skip(i2 as int)
                =~= old(self)@.take(i1 as int) + old(self)@.skip(i2 as int));
        }
    }

    /// An owned copy of the scalar values between byte offsets `start` and
    /// `end`, both of which must lie on scalar boundaries.
    pub fn slice(&self, start: usize, end: usize) -> (r: Buffer)
        requires
            is_boundary(self@, start as int),
            is_boundary(self@, end as int),
            start <= end,
        ensures
            r@ == self@.subrange(
                boundary_idx(self@, start as int),
                boundary_idx(self@, end as int),
            ),
    {
        proof {
            use_type_invariant(self);
        }
        let i1: usize = self.char_index_of(start);
        let i2: usize = self.char_index_of(end);
        proof {
            if i2 < i1 {
                lemma_prefix_units_mono(Encoding::Utf8, self@, i2 as int, i1 as int);
            }
        }
        self.slice_chars(i1, i2)
    }

    /// An owned copy of the scalar values with index in `[i1, i2)`.
    pub(crate) fn slice_chars(&self, i1: usize, i2: usize) -> (r: Buffer)
        requires
            i1 <= i2 <= self@.len(),
        ensures
            r@ == self@.subrange(i1 as int, i2 as int),
    {
        proof {
            use_type_invariant(self);
        }
        let b1: usize = self.bytes_up_to(i1);
        let b2: usize = self.bytes_up_to(i2);
        proof {
            lemma_prefix_units_mono(Encoding::Utf8, self.chars@, i1 as int, i2 as int);
        }
        let mut chars: Vec<char> = Vec::new();
        let mut k: usize = i1;
        while k < i2
            invariant
                i1 <= k <= i2 <= self.chars@.len(),
                chars@ == self.chars@.subrange(i1 as int, k as int),
            decreases i2 - k,
        {
            chars.push(self.chars[k]);
            proof {
                assert(chars@ =~= self.chars@.subrange(i1 as int, k + 1));
            }
            k = k + 1;
        }
        let bytes: usize = b2 - b1;
        proof {
            let s = self.chars@;
            let sub = s.subrange(i1 as int, i2 as int);
            lemma_prefix_units_skip(Encoding::Utf8, s, i1 as int, i2 - i1 as int);
            lemma_prefix_units_take(Encoding::Utf8, s.skip(i1 as int), i2 - i1 as int, i2 - i1 as int);
            assert(sub =~= s.skip(i1 as int).take(i2 - i1 as int));
            assert(byte_length(sub) == prefix_bytes(s, i2 as int) - prefix_bytes(s, i1 as int));
        }
        Buffer { chars, bytes }
    }
}

} // verus!
