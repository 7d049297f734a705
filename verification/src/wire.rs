//! Shared helpers for wire formats: big-endian fields, ASCII text as
//! bytes, and zero padding.

use vstd::prelude::*;

verus! {

use vstd::utf8::is_ascii_chars;

/// The 16-bit big-endian value of two bytes.
pub open spec fn be16(hi: u8, lo: u8) -> u16 {
    (hi * 256 + lo) as u16
}

/// The 32-bit big-endian value of four bytes.
pub open spec fn be32(b0: u8, b1: u8, b2: u8, b3: u8) -> u32 {
    (b0 * 0x1000000 + b1 * 0x10000 + b2 * 256 + b3) as u32
}

/// The two big-endian bytes of a 16-bit value.
pub open spec fn be16_bytes(x: u16) -> Seq<u8> {
    seq![(x / 256) as u8, (x % 256) as u8]
}

/// `n` zero bytes.
pub open spec fn zero_bytes(n: nat) -> Seq<u8> {
    Seq::new(n, |i: int| 0u8)
}

/// The characters denoted by a sequence of ASCII bytes.
pub open spec fn ascii_chars_of(b: Seq<u8>) -> Seq<char> {
    Seq::new(b.len(), |i: int| b[i] as char)
}

/// The bytes denoted by a sequence of ASCII characters.
pub open spec fn ascii_bytes_of(s: Seq<char>) -> Seq<u8> {
    Seq::new(s.len(), |i: int| s[i] as u8)
}

/// True when every byte is an ASCII code point.
pub open spec fn all_ascii(b: Seq<u8>) -> bool {
    forall|i: int| 0 <= i < b.len() ==> b[i] < 128
}

/// The least index of `c` in `s`, if any.
pub open spec fn find_char(s: Seq<char>, c: char) -> Option<int>
    decreases s.len(),
{
    if s.len() == 0 {
        None
    } else if s[0] == c {
        Some(0)
    } else {
        match find_char(s.drop_first(), c) {
            Some(i) => Some(i + 1),
            None => None,
        }
    }
}

/// `find_char` returns the least index holding `c`, and `None` exactly
/// when `c` does not occur.
pub proof fn lemma_find_char(s: Seq<char>, c: char)
    ensures
        match find_char(s, c) {
            Some(i) => 0 <= i < s.len() && s[i] == c && forall|j: int| 0 <= j < i ==> s[j] != c,
            None => forall|j: int| 0 <= j < s.len() ==> s[j] != c,
        },
    decreases s.len(),
{
    if s.len() > 0 && s[0] != c {
        let t = s.drop_first();
        lemma_find_char(t, c);
        assert(forall|j: int| 0 <= j < t.len() ==> t[j] == s[j + 1]);
        match find_char(t, c) {
            Some(i) => {
                assert(s[i + 1] == t[i]);
                assert forall|j: int| 0 <= j < i + 1 implies s[j] != c by {
                    if j > 0 {
                        assert(t[j - 1] != c);
                    }
                }
            },
            None => {
                assert forall|j: int| 0 <= j < s.len() implies s[j] != c by {
                    if j > 0 {
                        assert(t[j - 1] != c);
                    }
                }
            },
        }
    }
}

/// A scan that stopped at the first occurrence of `c` agrees with
/// `find_char`.
pub proof fn lemma_find_char_at(s: Seq<char>, c: char, k: int)
    requires
        0 <= k < s.len(),
        s[k] == c,
        forall|j: int| 0 <= j < k ==> s[j] != c,
    ensures
        find_char(s, c) == Some(k),
{
    lemma_find_char(s, c);
    match find_char(s, c) {
        Some(i) => {
            if i < k {
                assert(s[i] == c);
            } else if i > k {
                assert(s[k] != c);
            }
        },
        None => {
            assert(s[k] != c);
        },
    }
}

/// A scan that found no occurrence of `c` agrees with `find_char`.
pub proof fn lemma_find_char_none(s: Seq<char>, c: char)
    requires
        forall|j: int| 0 <= j < s.len() ==> s[j] != c,
    ensures
        find_char(s, c) is None,
{
    lemma_find_char(s, c);
    if find_char(s, c) is Some {
        let i = find_char(s, c).unwrap();
        assert(s[i] == c);
    }
}

/// Appends the two big-endian bytes of a 16-bit value.
pub fn push_be16(v: &mut Vec<u8>, x: u16)
    ensures
        final(v)@ == old(v)@ + be16_bytes(x),
{
    v.push((x / 256) as u8);
    v.push((x % 256) as u8);
    proof {
        assert(v@ =~= old(v)@ + be16_bytes(x));
    }
}

/// Appends a copy of another byte vector.
pub fn push_bytes(v: &mut Vec<u8>, src: &Vec<u8>)
    requires
        old(v)@.len() + src@.len() <= usize::MAX,
    ensures
        final(v)@ == old(v)@ + src@,
{
    v.extend_from_slice(src.as_slice());
    proof {
        assert(v@ =~= old(v)@ + src@);
    }
}

/// Appends `n` zero bytes.
pub fn push_zeros(v: &mut Vec<u8>, n: usize)
    requires
        old(v)@.len() + n <= usize::MAX,
    ensures
        final(v)@ == old(v)@ + zero_bytes(n as nat),
{
    let mut i: usize = 0;
    while i < n
        invariant
            0 <= i <= n,
            v@ == old(v)@ + zero_bytes(i as nat),
        decreases n - i,
    {
        v.push(0);
        i = i + 1;
        proof {
            assert(v@ =~= old(v)@ + zero_bytes(i as nat));
        }
    }
}

/// Copies `frame[at .. at + count]` out of a byte vector.
pub fn copy_range(frame: &Vec<u8>, at: usize, count: usize) -> (r: Vec<u8>)
    requires
        at + count <= frame@.len(),
    ensures
        r@ == frame@.subrange(at as int, at + count),
{
    let flen = frame.len();
    let mut r: Vec<u8> = Vec::new();
    let mut i: usize = 0;
    while i < count
        invariant
            0 <= i <= count,
            at + count <= flen,
            flen == frame@.len(),
            r@ == frame@.subrange(at as int, at + i),
        decreases count - i,
    {
        r.push(frame[at + i]);
        i = i + 1;
        proof {
            assert(r@ =~= frame@.subrange(at as int, at + i));
        }
    }
    r
}

/// Compares `frame[at .. at + pat.len()]` with a pattern.
pub fn bytes_eq_at(frame: &Vec<u8>, at: usize, pat: &Vec<u8>) -> (r: bool)
    requires
        at + pat@.len() <= frame@.len(),
    ensures
        r == (frame@.subrange(at as int, at + pat@.len()) == pat@),
{
    let n = pat.len();
    let flen = frame.len();
    let mut i: usize = 0;
    while i < n
        invariant
            0 <= i <= n,
            n == pat@.len(),
            at + n <= flen,
            flen == frame@.len(),
            forall|j: int| 0 <= j < i ==> frame@[at + j] == pat@[j],
        decreases n - i,
    {
        if frame[at + i] != pat[i] {
            proof {
                assert(frame@.subrange(at as int, at + pat@.len())[i as int] != pat@[i as int]);
            }
            return false;
        }
        i = i + 1;
    }
    proof {
        assert(frame@.subrange(at as int, at + pat@.len()) =~= pat@);
    }
    true
}

/// Builds the string holding exactly the given ASCII bytes as its
/// characters.
///
/// Relies on `String::from_utf8`: a sequence of bytes below 128 is valid
/// UTF-8 and decodes to the character with each byte's code point.
#[verifier::external_body]
pub fn ascii_to_string(v: &Vec<u8>) -> (r: String)
    requires
        all_ascii(v@),
    ensures
        r@ == ascii_chars_of(v@),
        r@.len() == v@.len(),
{
    String::from_utf8(v.clone()).unwrap()
}

/// Copies the ASCII bytes of a string.
pub fn string_ascii_bytes(s: &str) -> (r: Vec<u8>)
    requires
        s.is_ascii(),
    ensures
        r@ == ascii_bytes_of(s@),
        all_ascii(r@),
{
    broadcast use vstd::string::is_ascii_spec_bytes;
    broadcast use vstd::utf8::is_ascii_chars_nat_bound;

    let r = s.as_bytes_vec();
    proof {
        assert(r@ =~= ascii_bytes_of(s@));
        assert(is_ascii_chars(s@));
        assert forall|i: int| 0 <= i < r@.len() implies r@[i] < 128 by {
            assert((s@[i] as nat) < 128);
        }
    }
    r
}

} // verus!
