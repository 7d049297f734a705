//! Building DNS queries: encoding a dot-separated name as
//! length-prefixed labels and assembling a single-question query
//! message. Oversized names and labels are encodability errors — a
//! programmer error, not untrusted input — and are excluded by
//! precondition; `dns_name_encodable` is the runtime check for names
//! that arrive from elsewhere.

use vstd::prelude::*;

verus! {

use vstd::utf8::is_ascii_chars;
use crate::wire::{
    ascii_bytes_of, ascii_chars_of, be16_bytes, find_char, lemma_find_char, lemma_find_char_at,
    lemma_find_char_none, push_be16, string_ascii_bytes,
};
use crate::dns::parser::{spec_parse_name, spec_parse_name_full};

/// Encodes a name as length-prefixed labels: each run up to a dot
/// becomes its length then its bytes, and the empty run after a
/// terminating dot becomes the closing zero octet. A name without a
/// terminating dot encodes without a closing zero.
pub open spec fn spec_encode_name(s: Seq<char>) -> Seq<u8>
    decreases s.len(),
    via spec_encode_name_decreases
{
    match find_char(s, '.') {
        Some(k) => seq![k as u8] + ascii_bytes_of(s.take(k)) + spec_encode_name(s.skip(k + 1)),
        None => seq![s.len() as u8] + ascii_bytes_of(s),
    }
}

#[via_fn]
proof fn spec_encode_name_decreases(s: Seq<char>) {
    lemma_find_char(s, '.');
}

/// True when every dot-separated run of the name is at most 63
/// characters.
pub open spec fn spec_name_segments_ok(s: Seq<char>) -> bool
    decreases s.len(),
    via spec_name_segments_ok_decreases
{
    match find_char(s, '.') {
        Some(k) => k <= 63 && spec_name_segments_ok(s.skip(k + 1)),
        None => s.len() <= 63,
    }
}

#[via_fn]
proof fn spec_name_segments_ok_decreases(s: Seq<char>) {
    lemma_find_char(s, '.');
}

/// True when a name can be encoded: ASCII, at most 255 characters, and
/// no label longer than 63.
pub open spec fn spec_name_encodable(s: Seq<char>) -> bool {
    is_ascii_chars(s) && s.len() <= 255 && spec_name_segments_ok(s)
}

/// Checks at runtime whether a name can be encoded.
pub fn dns_name_encodable(name_str: &str) -> (r: bool)
    ensures
        r == spec_name_encodable(name_str@),
{
    if !name_str.is_ascii() {
        return false;
    }
    let b = string_ascii_bytes(name_str);
    let n = b.len();
    if n > 255 {
        return false;
    }
    let mut seg_start: usize = 0;
    let mut i: usize = 0;
    proof {
        assert(name_str@.skip(0) =~= name_str@);
    }
    while i < n
        invariant
            0 <= seg_start <= i <= n,
            n == b@.len(),
            b@ == ascii_bytes_of(name_str@),
            is_ascii_chars(name_str@),
            forall|j: int| seg_start <= j < i ==> b@[j] != 46,
            spec_name_segments_ok(name_str@) == spec_name_segments_ok(
                name_str@.skip(seg_start as int),
            ),
        decreases n - i,
    {
        if b[i] == 46 {
            let ghost t = name_str@.skip(seg_start as int);
            let k = i - seg_start;
            proof {
                assert forall|j: int| 0 <= j < k implies t[j] != '.' by {
                    assert(b@[seg_start + j] != 46);
                    assert(t[j] == name_str@[seg_start + j]);
                    assert((t[j] as u8) != 46);
                    assert((t[j] as u32) < 128);
                }
                assert(t[k as int] == name_str@[i as int]);
                assert((name_str@[i as int] as u8) == 46 && (name_str@[i as int] as u32) < 128);
                assert(t[k as int] == '.');
                lemma_find_char_at(t, '.', k as int);
                assert(t.skip(k as int + 1) =~= name_str@.skip(i as int + 1));
            }
            if k > 63 {
                return false;
            }
            seg_start = i + 1;
        }
        i = i + 1;
    }
    let ghost t = name_str@.skip(seg_start as int);
    proof {
        assert forall|j: int| 0 <= j < t.len() implies t[j] != '.' by {
            assert(b@[seg_start + j] != 46);
            assert((t[j] as u8) != 46 && (t[j] as u32) < 128);
        }
        lemma_find_char_none(t, '.');
    }
    n - seg_start <= 63
}

/// Encodes a dot-separated name as length-prefixed label bytes. Names
/// longer than 255 characters or with a label longer than 63 are a
/// programmer error and are excluded.
pub fn parse_dns_name(name_str: &str) -> (r: Vec<u8>)
    requires
        spec_name_encodable(name_str@),
    ensures
        r@ == spec_encode_name(name_str@),
{
    proof {
        assert(name_str.is_ascii());
    }
    let b = string_ascii_bytes(name_str);
    let n = b.len();
    let mut out: Vec<u8> = Vec::new();
    let mut seg_start: usize = 0;
    let mut i: usize = 0;
    proof {
        assert(name_str@.skip(0) =~= name_str@);
        assert(out@ + spec_encode_name(name_str@) =~= spec_encode_name(name_str@));
    }
    while i < n
        invariant
            0 <= seg_start <= i <= n,
            n == b@.len() == name_str@.len(),
            n <= 255,
            b@ == ascii_bytes_of(name_str@),
            is_ascii_chars(name_str@),
            forall|j: int| seg_start <= j < i ==> b@[j] != 46,
            spec_encode_name(name_str@) == out@ + spec_encode_name(
                name_str@.skip(seg_start as int),
            ),
        decreases n - i,
    {
        if b[i] == 46 {
            let ghost t = name_str@.skip(seg_start as int);
            let k = i - seg_start;
            proof {
                assert forall|j: int| 0 <= j < k implies t[j] != '.' by {
                    assert(b@[seg_start + j] != 46);
                    assert((t[j] as u8) != 46 && (t[j] as u32) < 128);
                }
                assert((name_str@[i as int] as u8) == 46 && (name_str@[i as int] as u32) < 128);
                assert(t[k as int] == '.');
                lemma_find_char_at(t, '.', k as int);
                assert(t.skip(k as int + 1) =~= name_str@.skip(i as int + 1));
            }
            let ghost pre = out@;
            out.push(k as u8);
            let mut j: usize = seg_start;
            while j < i
                invariant
                    seg_start <= j <= i <= n,
                    n == b@.len(),
                    n <= 255,
                    k == i - seg_start,
                    out@ == pre + seq![k as u8] + b@.subrange(seg_start as int, j as int),
                decreases i - j,
            {
                out.push(b[j]);
                j = j + 1;
                proof {
                    assert(out@ =~= pre + seq![k as u8] + b@.subrange(
                        seg_start as int,
                        j as int,
                    ));
                }
            }
            proof {
                assert(ascii_bytes_of(t.take(k as int)) =~= b@.subrange(
                    seg_start as int,
                    i as int,
                ));
                assert(out@ =~= pre + (seq![k as u8] + ascii_bytes_of(t.take(k as int))));
            }
            seg_start = i + 1;
        }
        i = i + 1;
    }
    let ghost t = name_str@.skip(seg_start as int);
    proof {
        assert forall|j: int| 0 <= j < t.len() implies t[j] != '.' by {
            assert(b@[seg_start + j] != 46);
            assert((t[j] as u8) != 46 && (t[j] as u32) < 128);
        }
        lemma_find_char_none(t, '.');
    }
    let ghost pre = out@;
    out.push((n - seg_start) as u8);
    let mut j: usize = seg_start;
    while j < n
        invariant
            seg_start <= j <= n,
            n == b@.len(),
            n <= 255,
            out@ == pre + seq![(n - seg_start) as u8] + b@.subrange(seg_start as int, j as int),
        decreases n - j,
    {
        out.push(b[j]);
        j = j + 1;
        proof {
            assert(out@ =~= pre + seq![(n - seg_start) as u8] + b@.subrange(
                seg_start as int,
                j as int,
            ));
        }
    }
    proof {
        assert(ascii_bytes_of(t) =~= b@.subrange(seg_start as int, n as int));
        assert(t.len() == n - seg_start);
        assert(out@ =~= pre + (seq![t.len() as u8] + ascii_bytes_of(t)));
    }
    out
}

/// An encoded name is at most one length byte per character plus one.
pub proof fn lemma_encode_name_len(s: Seq<char>)
    ensures
        spec_encode_name(s).len() <= 2 * s.len() + 1,
    decreases s.len(),
{
    lemma_find_char(s, '.');
    match find_char(s, '.') {
        Some(k) => {
            lemma_encode_name_len(s.skip(k + 1));
        },
        None => {},
    }
}

/// The bytes of a single-question query for an A record of `name`:
/// all flags zero, one question of type A, class IN.
pub open spec fn spec_dns_a_question_message(id: u16, name: Seq<char>) -> Seq<u8> {
    be16_bytes(id) + seq![0u8, 0u8, 0u8, 1u8, 0u8, 0u8, 0u8, 0u8, 0u8, 0u8] + spec_encode_name(
        name,
    ) + seq![0u8, 1u8, 0u8, 1u8]
}

/// Builds a single-question DNS query: `rd` and all other flags zero,
/// one question asking for an A record of `name_str` in class IN. The
/// id doubles as the correlation value for the response.
pub fn create_dns_a_question_message(id_num: u16, name_str: &str) -> (r: Vec<u8>)
    requires
        spec_name_encodable(name_str@),
    ensures
        r@ == spec_dns_a_question_message(id_num, name_str@),
{
    let qname = parse_dns_name(name_str);
    proof {
        lemma_encode_name_len(name_str@);
    }
    let mut r: Vec<u8> = Vec::new();
    push_be16(&mut r, id_num);
    r.push(0);
    r.push(0);
    r.push(0);
    r.push(1);
    r.push(0);
    r.push(0);
    r.push(0);
    r.push(0);
    r.push(0);
    r.push(0);
    crate::wire::push_bytes(&mut r, &qname);
    r.push(0);
    r.push(1);
    r.push(0);
    r.push(1);
    proof {
        assert(r@ =~= spec_dns_a_question_message(id_num, name_str@));
    }
    r
}

/// The well-known IPv4 addresses of the 13 root name servers.
pub fn root_ip_addrs() -> (r: Vec<String>)
    ensures
        r@.len() == 13,
        r@[0]@ == "198.41.0.4"@,
        r@[1]@ == "170.247.170.2"@,
        r@[2]@ == "192.33.4.12"@,
        r@[3]@ == "199.7.91.13"@,
        r@[4]@ == "192.203.230.10"@,
        r@[5]@ == "192.5.5.241"@,
        r@[6]@ == "192.112.36.4"@,
        r@[7]@ == "198.97.190.53"@,
        r@[8]@ == "192.36.148.17"@,
        r@[9]@ == "192.58.128.30"@,
        r@[10]@ == "193.0.14.129"@,
        r@[11]@ == "199.7.83.42"@,
        r@[12]@ == "202.12.27.33"@,
{
    let mut r: Vec<String> = Vec::new();
    r.push(String::from_str("198.41.0.4"));
    r.push(String::from_str("170.247.170.2"));
    r.push(String::from_str("192.33.4.12"));
    r.push(String::from_str("199.7.91.13"));
    r.push(String::from_str("192.203.230.10"));
    r.push(String::from_str("192.5.5.241"));
    r.push(String::from_str("192.112.36.4"));
    r.push(String::from_str("198.97.190.53"));
    r.push(String::from_str("192.36.148.17"));
    r.push(String::from_str("192.58.128.30"));
    r.push(String::from_str("193.0.14.129"));
    r.push(String::from_str("199.7.83.42"));
    r.push(String::from_str("202.12.27.33"));
    r
}

// ---------------------------------------------------------------------
// The round trip between encoding and decompression
// ---------------------------------------------------------------------

/// True for a plain (compression-free, encodable) name: empty, or a
/// label of 1 to 63 ASCII characters, a dot, and a plain name again —
/// that is, a dot-terminated name without empty labels.
pub open spec fn valid_plain_dns_name(s: Seq<char>) -> bool
    decreases s.len(),
    via valid_plain_dns_name_decreases
{
    if s.len() == 0 {
        true
    } else {
        match find_char(s, '.') {
            Some(k) => 1 <= k <= 63 && (forall|i: int|
                0 <= i < k ==> (#[trigger] s[i] as u32) < 128) && valid_plain_dns_name(
                s.skip(k + 1),
            ),
            None => false,
        }
    }
}

#[via_fn]
proof fn valid_plain_dns_name_decreases(s: Seq<char>) {
    lemma_find_char(s, '.');
}

/// The encoding of a plain name parses back, at any offset it is the
/// tail of and with any pointer budget, to the name's own bytes and
/// its full encoded length.
proof fn lemma_parse_encoded_at(buf: Seq<u8>, offset: int, s: Seq<char>, fuel: nat)
    requires
        valid_plain_dns_name(s),
        0 <= offset,
        buf.len() == offset + spec_encode_name(s).len(),
        buf.subrange(offset, buf.len() as int) == spec_encode_name(s),
    ensures
        spec_parse_name(buf, offset, fuel) == Some(
            (ascii_bytes_of(s), spec_encode_name(s).len() as int),
        ),
    decreases s.len(),
{
    lemma_find_char(s, '.');
    let enc = spec_encode_name(s);
    if s.len() == 0 {
        assert(find_char(s, '.') is None);
        assert(enc =~= seq![0u8]);
        assert(buf[offset] == buf.subrange(offset, buf.len() as int)[0]);
        assert(buf[offset] == 0);
        assert(ascii_bytes_of(s) =~= Seq::<u8>::empty());
    } else {
        let k = find_char(s, '.').unwrap();
        let lab = s.take(k);
        let rest = s.skip(k + 1);
        let enc_rest = spec_encode_name(rest);
        assert(enc == seq![k as u8] + ascii_bytes_of(lab) + enc_rest);
        assert(ascii_bytes_of(lab).len() == k);
        assert(buf[offset] == buf.subrange(offset, buf.len() as int)[0]);
        assert(buf[offset] == k as u8);
        let b = buf[offset];
        assert(b == k && 1 <= b <= 63);
        assert(b != 0);
        assert(b & 0xC0 != 0xC0 && b & 0xC0 == 0) by (bit_vector)
            requires 1 <= b <= 63;
        assert(offset + 1 + k <= buf.len());
        assert(buf.subrange(offset + 1, offset + 1 + k) =~= ascii_bytes_of(lab)) by {
            assert forall|i: int| 0 <= i < k implies buf[offset + 1 + i] == ascii_bytes_of(lab)[i]
                by {
                assert(buf.subrange(offset, buf.len() as int)[1 + i] == buf[offset + 1 + i]);
                assert(enc[1 + i] == ascii_bytes_of(lab)[i]);
            }
        }
        assert(crate::wire::all_ascii(ascii_bytes_of(lab))) by {
            assert forall|i: int| 0 <= i < k implies ascii_bytes_of(lab)[i] < 128 by {
                let c = s[i];
                assert(lab[i] == c);
                assert((c as u32) < 128);
                lemma_ascii_char_u8(c);
            }
        }
        assert(buf.subrange(offset + 1 + k, buf.len() as int) =~= enc_rest) by {
            assert forall|i: int| 0 <= i < enc_rest.len() implies buf[offset + 1 + k + i]
                == enc_rest[i] by {
                assert(buf.subrange(offset, buf.len() as int)[1 + k + i] == buf[offset + 1 + k
                    + i]);
                assert(enc[1 + k + i] == enc_rest[i]);
            }
        }
        lemma_parse_encoded_at(buf, offset + 1 + k, rest, fuel);
        assert(spec_parse_name(buf, offset + 1 + k, fuel) == Some(
            (ascii_bytes_of(rest), enc_rest.len() as int),
        ));
        assert(spec_parse_name(buf, offset, fuel) == Some(
            (
                buf.subrange(offset + 1, offset + 1 + k) + seq![46u8] + ascii_bytes_of(rest),
                1 + k + enc_rest.len() as int,
            ),
        ));
        assert(ascii_bytes_of(lab) + seq![46u8] + ascii_bytes_of(rest) =~= ascii_bytes_of(s)) by {
            assert((s[k as int] as u8) == 46);
        }
    }
}

/// The round trip between name encoding and decompression: for any
/// valid name without compression, decompressing its encoding yields
/// the name again, and the consumed length equals the encoded length.
pub proof fn lemma_name_round_trip(s: Seq<char>)
    requires
        valid_plain_dns_name(s),
    ensures
        ({
            let enc = spec_encode_name(s);
            &&& spec_parse_name_full(enc, 0) == Some((ascii_bytes_of(s), enc.len() as int))
            &&& ascii_chars_of(ascii_bytes_of(s)) == s
        }),
{
    let enc = spec_encode_name(s);
    assert(enc.subrange(0, enc.len() as int) =~= enc);
    lemma_parse_encoded_at(enc, 0, s, enc.len());
    lemma_valid_plain_ascii(s);
    assert forall|i: int| 0 <= i < s.len() implies ascii_chars_of(ascii_bytes_of(s))[i] == s[i]
        by {
        let c = s[i];
        assert((c as u32) < 128);
        lemma_ascii_char_u8(c);
        assert(ascii_bytes_of(s)[i] == c as u8);
    }
    assert(ascii_chars_of(ascii_bytes_of(s)) =~= s);
}

/// An ASCII character's byte is below 128 and denotes the character.
proof fn lemma_ascii_char_u8(c: char)
    requires
        (c as u32) < 128,
    ensures
        (c as u8) < 128,
        ((c as u8) as char) == c,
{
}

/// Every character of a valid plain name is ASCII.
proof fn lemma_valid_plain_ascii(s: Seq<char>)
    requires
        valid_plain_dns_name(s),
    ensures
        forall|i: int| 0 <= i < s.len() ==> (#[trigger] s[i] as u32) < 128,
    decreases s.len(),
{
    lemma_find_char(s, '.');
    if s.len() > 0 {
        let k = find_char(s, '.').unwrap();
        let rest = s.skip(k + 1);
        lemma_valid_plain_ascii(rest);
        assert forall|i: int| 0 <= i < s.len() implies (#[trigger] s[i] as u32) < 128 by {
            if i < k {
            } else if i == k {
                assert(s[i] == '.');
            } else {
                assert(rest[i - k - 1] == s[i]);
                assert((rest[i - k - 1] as u32) < 128);
            }
        }
    }
}

} // verus!
