//! Textual MAC and IPv4 address codecs and the internet checksum
//! (RFC 1071).
//!
//! Malformed textual addresses are a configuration error in this stack:
//! only literal constants and text printed from already-validated wire
//! bytes are fed to the builders, so the builders require well-formed
//! text while `parse_macaddr` / `parse_ipaddr` report malformedness.

use vstd::prelude::*;

verus! {

use crate::wire::{ascii_chars_of, all_ascii, ascii_to_string};

// ---------------------------------------------------------------------
// Hexadecimal digits
// ---------------------------------------------------------------------

/// True for an ASCII hexadecimal digit.
pub open spec fn is_hex_digit(c: char) -> bool {
    ('0' <= c && c <= '9') || ('a' <= c && c <= 'f') || ('A' <= c && c <= 'F')
}

/// Value of a hexadecimal digit character.
pub open spec fn hex_val(c: char) -> u8
    recommends
        is_hex_digit(c),
{
    if '0' <= c && c <= '9' {
        (c as u8 - 48) as u8
    } else if 'a' <= c && c <= 'f' {
        (c as u8 - 87) as u8
    } else {
        (c as u8 - 55) as u8
    }
}

/// ASCII byte of the lower-case hexadecimal digit for `n`.
pub open spec fn hex_ascii(n: u8) -> u8
    recommends
        n < 16,
{
    if n < 10 {
        (48 + n) as u8
    } else {
        (87 + n) as u8
    }
}

/// Reads one character, returning the hexadecimal digit value it denotes.
fn hex_digit_value(c: char) -> (r: Option<u8>)
    ensures
        r is Some <==> is_hex_digit(c),
        r is Some ==> r.unwrap() == hex_val(c) && r.unwrap() < 16,
{
    let u = c as u32;
    if 48 <= u && u <= 57 {
        Some((u - 48) as u8)
    } else if 97 <= u && u <= 102 {
        Some((u - 87) as u8)
    } else if 65 <= u && u <= 70 {
        Some((u - 55) as u8)
    } else {
        None
    }
}

// ---------------------------------------------------------------------
// MAC addresses
// ---------------------------------------------------------------------

/// What position `i` of a textual MAC address must hold.
pub open spec fn mac_char_ok(s: Seq<char>, i: int) -> bool {
    if i % 3 == 2 {
        s[i] == ':'
    } else {
        is_hex_digit(s[i])
    }
}

/// True for a well-formed `xx:xx:xx:xx:xx:xx` MAC address.
pub open spec fn mac_str_wf(s: Seq<char>) -> bool {
    &&& s.len() == 17
    &&& forall|i: int| 0 <= i < 17 ==> #[trigger] mac_char_ok(s, i)
}

/// The six bytes denoted by a well-formed textual MAC address.
pub open spec fn spec_parse_macaddr(s: Seq<char>) -> Seq<u8>
    recommends
        mac_str_wf(s),
{
    Seq::new(6, |k: int| (hex_val(s[3 * k]) * 16 + hex_val(s[3 * k + 1])) as u8)
}

/// The ASCII bytes of the canonical lower-case text of a MAC address.
pub open spec fn spec_print_macaddr_bytes(b: Seq<u8>) -> Seq<u8>
    recommends
        b.len() == 6,
{
    Seq::new(
        17,
        |i: int|
            if i % 3 == 2 {
                58u8
            } else if i % 3 == 0 {
                hex_ascii(b[i / 3] / 16)
            } else {
                hex_ascii(b[i / 3] % 16)
            },
    )
}

/// The canonical lower-case text of a MAC address.
pub open spec fn spec_print_macaddr(b: Seq<u8>) -> Seq<char>
    recommends
        b.len() == 6,
{
    ascii_chars_of(spec_print_macaddr_bytes(b))
}

/// Parses `xx:xx:xx:xx:xx:xx` text into six bytes; `None` on malformed
/// text.
pub fn parse_macaddr(s: &str) -> (r: Option<Vec<u8>>)
    ensures
        r is Some <==> mac_str_wf(s@),
        r is Some ==> r.unwrap()@ == spec_parse_macaddr(s@),
{
    if s.unicode_len() != 17 {
        return None;
    }
    let mut out: Vec<u8> = Vec::new();
    let mut k: usize = 0;
    while k < 6
        invariant
            0 <= k <= 6,
            s@.len() == 17,
            out@.len() == k,
            forall|i: int| 0 <= i < 3 * k && i < 17 ==> #[trigger] mac_char_ok(s@, i),
            forall|j: int|
                0 <= j < k ==> out@[j] == (hex_val(s@[3 * j]) * 16 + hex_val(s@[3 * j + 1])) as u8,
        decreases 6 - k,
    {
        proof {
            assert((3 * k) % 3 == 0 && (3 * k + 1) % 3 == 1 && (3 * k + 2) % 3 == 2)
                by (nonlinear_arith)
                requires 0 <= k < 6;
        }
        let c1 = s.get_char(3 * k);
        let c2 = s.get_char(3 * k + 1);
        let v1 = match hex_digit_value(c1) {
            Some(v) => v,
            None => {
                proof {
                    assert(!mac_char_ok(s@, 3 * k as int));
                }
                return None;
            },
        };
        let v2 = match hex_digit_value(c2) {
            Some(v) => v,
            None => {
                proof {
                    assert(!mac_char_ok(s@, 3 * k as int + 1));
                }
                return None;
            },
        };
        if k < 5 {
            let c3 = s.get_char(3 * k + 2);
            if (c3 as u32) != 58 {
                proof {
                    assert(!mac_char_ok(s@, 3 * k as int + 2));
                }
                return None;
            }
        }
        out.push(v1 * 16 + v2);
        k = k + 1;
        proof {
            assert forall|i: int| 0 <= i < 3 * k && i < 17 implies #[trigger] mac_char_ok(s@, i) by {
                if i >= 3 * (k - 1) {
                    assert(i == 3 * (k - 1) || i == 3 * (k - 1) + 1 || i == 3 * (k - 1) + 2);
                }
            }
        }
    }
    proof {
        assert(mac_str_wf(s@));
        assert(out@ =~= spec_parse_macaddr(s@));
    }
    Some(out)
}

/// Formats six bytes as lower-case `xx:xx:xx:xx:xx:xx` text.
pub fn print_macaddr(b: &Vec<u8>) -> (r: String)
    requires
        b@.len() == 6,
    ensures
        r@ == spec_print_macaddr(b@),
{
    let mut v: Vec<u8> = Vec::new();
    let mut k: usize = 0;
    while k < 6
        invariant
            0 <= k <= 6,
            b@.len() == 6,
            v@.len() == (if k < 6 { 3 * k } else { 17int }),
            forall|i: int|
                0 <= i < v@.len() ==> v@[i] == spec_print_macaddr_bytes(b@)[i],
        decreases 6 - k,
    {
        proof {
            assert((3 * k) % 3 == 0 && (3 * k) / 3 == k && (3 * k + 1) % 3 == 1 && (3 * k + 1) / 3
                == k && (3 * k + 2) % 3 == 2) by (nonlinear_arith)
                requires 0 <= k < 6;
        }
        let byte = b[k];
        let hi = byte / 16;
        let lo = byte % 16;
        v.push(if hi < 10 { 48 + hi } else { 87 + hi });
        v.push(if lo < 10 { 48 + lo } else { 87 + lo });
        if k < 5 {
            v.push(58);
        }
        k = k + 1;
    }
    proof {
        assert(v@ =~= spec_print_macaddr_bytes(b@));
        assert forall|i: int| 0 <= i < v@.len() implies v@[i] < 128 by {
            assert(v@[i] == spec_print_macaddr_bytes(b@)[i]);
        }
    }
    let r = ascii_to_string(&v);
    proof {
        assert(r@ =~= spec_print_macaddr(b@));
    }
    r
}

/// Printed MAC text is well formed and parses back to the same bytes.
pub proof fn lemma_macaddr_print_parse(b: Seq<u8>)
    requires
        b.len() == 6,
    ensures
        mac_str_wf(spec_print_macaddr(b)),
        spec_parse_macaddr(spec_print_macaddr(b)) == b,
{
    let s = spec_print_macaddr(b);
    assert forall|i: int| 0 <= i < 17 implies #[trigger] mac_char_ok(s, i) by {
        let pb = spec_print_macaddr_bytes(b)[i];
        assert(s[i] == pb as char);
        if i % 3 == 2 {
            assert(pb == 58);
        } else {
            assert(pb == hex_ascii(b[i / 3] / 16) || pb == hex_ascii(b[i / 3] % 16));
            assert(b[i / 3] / 16 < 16 && b[i / 3] % 16 < 16);
        }
    }
    assert forall|k: int| 0 <= k < 6 implies spec_parse_macaddr(s)[k] == b[k] by {
        assert((3 * k) % 3 == 0 && (3 * k) / 3 == k && (3 * k + 1) % 3 == 1 && (3 * k + 1) / 3
            == k) by (nonlinear_arith)
            requires 0 <= k < 6;
        let hi = b[k] / 16;
        let lo = b[k] % 16;
        assert(s[3 * k] == hex_ascii(hi) as char);
        assert(s[3 * k + 1] == hex_ascii(lo) as char);
        assert(hex_val(hex_ascii(hi) as char) == hi && hex_val(hex_ascii(lo) as char) == lo);
        assert(hi * 16 + lo == b[k]);
    }
    assert(spec_parse_macaddr(s) =~= b);
}

// ---------------------------------------------------------------------
// IPv4 addresses
// ---------------------------------------------------------------------

/// True for an ASCII decimal digit.
pub open spec fn is_digit(c: char) -> bool {
    '0' <= c && c <= '9'
}

/// Value of a decimal digit character.
pub open spec fn digit_val(c: char) -> u8
    recommends
        is_digit(c),
{
    (c as u8 - 48) as u8
}

/// True when every character is a decimal digit.
pub open spec fn all_digits(s: Seq<char>) -> bool {
    forall|i: int| 0 <= i < s.len() ==> is_digit(#[trigger] s[i])
}

/// The number denoted by a run of decimal digits.
pub open spec fn digits_val(s: Seq<char>) -> int
    recommends
        all_digits(s),
    decreases s.len(),
{
    if s.len() == 0 {
        0
    } else {
        digits_val(s.drop_last()) * 10 + digit_val(s.last())
    }
}

/// True for a digit run denoting one octet of a dotted quad.
pub open spec fn octet_wf(s: Seq<char>) -> bool {
    1 <= s.len() <= 3 && all_digits(s) && digits_val(s) <= 255
}

/// The bytes denoted by `n` dot-separated octets, if well formed.
pub open spec fn spec_parse_ip_octets(s: Seq<char>, n: nat) -> Option<Seq<u8>>
    decreases n,
{
    if n == 0 {
        None
    } else if n == 1 {
        if octet_wf(s) {
            Some(seq![digits_val(s) as u8])
        } else {
            None
        }
    } else {
        match crate::wire::find_char(s, '.') {
            Some(k) => if octet_wf(s.take(k)) {
                match spec_parse_ip_octets(s.skip(k + 1), (n - 1) as nat) {
                    Some(r) => Some(seq![digits_val(s.take(k)) as u8] + r),
                    None => None,
                }
            } else {
                None
            },
            None => None,
        }
    }
}

/// The four bytes denoted by dotted-quad text, if well formed.
pub open spec fn spec_parse_ipaddr(s: Seq<char>) -> Option<Seq<u8>> {
    spec_parse_ip_octets(s, 4)
}

/// True for well-formed dotted-quad IPv4 text.
pub open spec fn ipv4_str_wf(s: Seq<char>) -> bool {
    spec_parse_ipaddr(s) is Some
}

/// The four bytes of well-formed dotted-quad IPv4 text.
pub open spec fn ipv4_bytes_of(s: Seq<char>) -> Seq<u8>
    recommends
        ipv4_str_wf(s),
{
    spec_parse_ipaddr(s).unwrap()
}

/// A successful octet-list parse yields one byte per octet.
pub proof fn lemma_parse_ip_octets_len(s: Seq<char>, n: nat)
    ensures
        spec_parse_ip_octets(s, n) is Some ==> spec_parse_ip_octets(s, n).unwrap().len() == n,
    decreases n,
{
    if n > 1 {
        match crate::wire::find_char(s, '.') {
            Some(k) => {
                lemma_parse_ip_octets_len(s.skip(k + 1), (n - 1) as nat);
            },
            None => {},
        }
    }
}

/// Well-formed dotted-quad text denotes four bytes.
pub proof fn lemma_ipv4_bytes_len(s: Seq<char>)
    requires
        ipv4_str_wf(s),
    ensures
        ipv4_bytes_of(s).len() == 4,
{
    lemma_parse_ip_octets_len(s, 4);
}

/// The ASCII bytes of the canonical decimal text of one octet.
pub open spec fn spec_dec_bytes(v: u8) -> Seq<u8> {
    if v < 10 {
        seq![(48 + v) as u8]
    } else if v < 100 {
        seq![(48 + v / 10) as u8, (48 + v % 10) as u8]
    } else {
        seq![(48 + v / 100) as u8, (48 + (v / 10) % 10) as u8, (48 + v % 10) as u8]
    }
}

/// The ASCII bytes of the canonical dotted-quad text of an address.
pub open spec fn spec_print_ipaddr_bytes(b: Seq<u8>) -> Seq<u8>
    recommends
        b.len() == 4,
{
    spec_dec_bytes(b[0]) + seq![46u8] + spec_dec_bytes(b[1]) + seq![46u8] + spec_dec_bytes(b[2])
        + seq![46u8] + spec_dec_bytes(b[3])
}

/// The canonical dotted-quad text of an address.
pub open spec fn spec_print_ipaddr(b: Seq<u8>) -> Seq<char>
    recommends
        b.len() == 4,
{
    ascii_chars_of(spec_print_ipaddr_bytes(b))
}

/// Reads one character, returning the decimal digit value it denotes.
fn dec_digit_value(c: char) -> (r: Option<u8>)
    ensures
        r is Some <==> is_digit(c),
        r is Some ==> r.unwrap() == digit_val(c) && r.unwrap() < 10,
{
    let u = c as u32;
    if 48 <= u && u <= 57 {
        Some((u - 48) as u8)
    } else {
        None
    }
}

/// Parses dotted-quad text into four bytes; `None` on malformed text.
pub fn parse_ipaddr(s: &str) -> (r: Option<Vec<u8>>)
    ensures
        r is Some <==> ipv4_str_wf(s@),
        r is Some ==> r.unwrap()@ == ipv4_bytes_of(s@) && r.unwrap()@.len() == 4,
{
    let len = s.unicode_len();
    let mut out: Vec<u8> = Vec::new();
    let mut pos: usize = 0;
    let mut seg: usize = 0;
    proof {
        assert(s@.skip(0) =~= s@);
    }
    while seg < 4
        invariant
            0 <= seg <= 4,
            pos <= len,
            len == s@.len(),
            out@.len() == seg,
            seg < 4 ==> spec_parse_ipaddr(s@) == match spec_parse_ip_octets(
                s@.skip(pos as int),
                (4 - seg) as nat,
            ) {
                Some(rest) => Some(out@ + rest),
                None => None,
            },
            seg == 4 ==> spec_parse_ipaddr(s@) == Some(out@),
        decreases 4 - seg,
    {
        let ghost t = s@.skip(pos as int);
        let ghost n = (4 - seg) as nat;
        let start = pos;
        let mut val: u16 = 0;
        // Scan the digit run of this octet.
        loop
            invariant
                start <= pos <= len,
                len == s@.len(),
                pos - start <= 3,
                t == s@.skip(start as int),
                out@.len() == seg,
                0 <= seg < 4,
                n == (4 - seg) as nat,
                forall|i: int| start <= i < pos ==> is_digit(#[trigger] s@[i]),
                val == digits_val(s@.subrange(start as int, pos as int)),
                pos - start == 0 ==> val == 0,
                pos - start == 1 ==> val <= 9,
                pos - start == 2 ==> val <= 99,
                pos - start == 3 ==> val <= 999,
                spec_parse_ipaddr(s@) == match spec_parse_ip_octets(t, n) {
                    Some(rest) => Some(out@ + rest),
                    None => None,
                },
            ensures
                start <= pos <= len,
                pos - start <= 3,
                forall|i: int| start <= i < pos ==> is_digit(#[trigger] s@[i]),
                val == digits_val(s@.subrange(start as int, pos as int)),
                val <= 999,
                pos == len || !is_digit(s@[pos as int]),
                spec_parse_ipaddr(s@) == match spec_parse_ip_octets(t, n) {
                    Some(rest) => Some(out@ + rest),
                    None => None,
                },
            decreases len - pos,
        {
            if pos >= len {
                break;
            }
            let c = s.get_char(pos);
            let d = match dec_digit_value(c) {
                Some(d) => d,
                None => {
                    break;
                },
            };
            if pos - start == 3 {
                // A run of four or more digits can never form an octet.
                proof {
                    lemma_ip_head_run_too_long(t, n, s@, start as int, pos as int);
                }
                return None;
            }
            val = val * 10 + d as u16;
            pos = pos + 1;
            proof {
                let sub = s@.subrange(start as int, pos as int);
                assert(sub.drop_last() =~= s@.subrange(start as int, pos - 1));
                assert(sub.last() == s@[pos - 1]);
            }
        }
        let ghost run = s@.subrange(start as int, pos as int);
        let k = pos - start;
        proof {
            assert(run.len() == k);
            assert(forall|i: int| 0 <= i < run.len() ==> is_digit(#[trigger] run[i]));
            assert(forall|i: int| 0 <= i < k ==> t[i] == run[i]);
        }
        if k == 0 || val > 255 {
            proof {
                lemma_ip_head_octet_bad(t, n, s@, start as int, pos as int);
            }
            return None;
        }
        if seg < 3 {
            if pos >= len {
                proof {
                    crate::wire::lemma_find_char_none(t, '.');
                }
                return None;
            }
            let c = s.get_char(pos);
            if (c as u32) != 46 {
                proof {
                    lemma_ip_head_octet_bad(t, n, s@, start as int, pos as int);
                }
                return None;
            }
            proof {
                crate::wire::lemma_find_char_at(t, '.', k as int);
                assert(t.take(k as int) =~= run);
                assert(t.skip(k as int + 1) =~= s@.skip(pos as int + 1));
            }
            out.push(val as u8);
            pos = pos + 1;
            seg = seg + 1;
            proof {
                assert(octet_wf(run));
                assert forall|r2: Seq<u8>|
                    spec_parse_ip_octets(s@.skip(pos as int), (4 - seg) as nat) == Some::<Seq<u8>>(
                        r2,
                    ) implies out@ + r2 =~= out@.drop_last() + (seq![val as u8] + r2) by {}
            }
        } else {
            if pos < len {
                proof {
                    assert(!is_digit(t[k as int]));
                    assert(!octet_wf(t));
                }
                return None;
            }
            proof {
                assert(t =~= run);
                assert(octet_wf(t));
            }
            out.push(val as u8);
            seg = seg + 1;
            proof {
                assert(out@ =~= out@.drop_last() + seq![val as u8]);
            }
        }
    }
    Some(out)
}

/// No octet parse accepts a head whose digit run reaches four digits.
proof fn lemma_ip_head_run_too_long(t: Seq<char>, n: nat, s: Seq<char>, start: int, pos: int)
    requires
        n >= 1,
        0 <= start <= pos,
        pos + 1 <= s.len(),
        pos - start == 3,
        t == s.skip(start),
        forall|i: int| start <= i <= pos ==> is_digit(#[trigger] s[i]),
    ensures
        spec_parse_ip_octets(t, n) is None,
{
    assert(forall|i: int| 0 <= i < t.len() && i <= pos - start ==> is_digit(#[trigger] t[i]));
    if n == 1 {
        assert(t.len() >= 4);
        assert(!octet_wf(t));
    } else {
        crate::wire::lemma_find_char(t, '.');
        match crate::wire::find_char(t, '.') {
            Some(kd) => {
                assert(!is_digit('.'));
                assert(kd > pos - start);
                assert(t.take(kd).len() > 3);
                assert(!octet_wf(t.take(kd)));
            },
            None => {},
        }
    }
}

/// No octet parse accepts a head whose digit run is empty, denotes more
/// than 255, or is followed by a character that is neither a digit nor a
/// dot.
proof fn lemma_ip_head_octet_bad(t: Seq<char>, n: nat, s: Seq<char>, start: int, pos: int)
    requires
        n >= 1,
        0 <= start <= pos <= s.len(),
        t == s.skip(start),
        forall|i: int| start <= i < pos ==> is_digit(#[trigger] s[i]),
        pos < s.len() ==> !is_digit(s[pos]),
        pos - start == 0 || digits_val(s.subrange(start, pos)) > 255 || (pos < s.len() && s[pos]
            != '.'),
    ensures
        spec_parse_ip_octets(t, n) is None,
{
    let run = s.subrange(start, pos);
    let k = pos - start;
    assert(forall|i: int| 0 <= i < k ==> t[i] == run[i]);
    assert(pos < s.len() ==> t[k] == s[pos]);
    if n == 1 {
        if pos < s.len() {
            assert(!is_digit(t[k]));
            assert(!octet_wf(t));
        } else {
            assert(t =~= run);
            assert(!octet_wf(t));
        }
    } else {
        crate::wire::lemma_find_char(t, '.');
        match crate::wire::find_char(t, '.') {
            Some(kd) => {
                assert(!is_digit('.'));
                if kd < k {
                    assert(is_digit(t[kd]));
                    assert(false);
                } else if kd == k {
                    assert(pos < s.len() && t[k] == '.');
                    assert(t.take(kd) =~= run);
                    assert(!octet_wf(t.take(kd)));
                } else {
                    if k == 0 || digits_val(run) > 255 {
                        if pos < s.len() && s[pos] != '.' {
                        }
                        if pos == s.len() {
                            assert(kd < t.len());
                            assert(t.len() == s.len() - start);
                            assert(false);
                        }
                    }
                    if pos < s.len() && s[pos] != '.' {
                        assert(!is_digit(t[k]) && t[k] != '.');
                        assert(0 <= k < kd);
                        assert(t.take(kd)[k] == t[k]);
                        assert(!all_digits(t.take(kd)));
                        assert(!octet_wf(t.take(kd)));
                    } else {
                        assert(k > 0 && digits_val(run) > 255);
                        assert(t.take(kd).len() > 3 || (forall|i: int|
                            0 <= i < t.take(kd).len() ==> #[trigger] is_digit(t.take(kd)[i])));
                        if t.take(kd).len() <= 3 {
                            assert(kd <= 3);
                            assert(kd >= k) by {
                                if kd < k {
                                    assert(is_digit(t[kd]));
                                }
                            }
                            assert(kd == k || !is_digit(t[k]));
                            assert(kd == k);
                            assert(false);
                        }
                        assert(!octet_wf(t.take(kd)));
                    }
                }
            },
            None => {},
        }
    }
}

/// Formats four bytes as canonical dotted-quad text.
pub fn print_ipaddr(b: &Vec<u8>) -> (r: String)
    requires
        b@.len() == 4,
    ensures
        r@ == spec_print_ipaddr(b@),
{
    let mut v: Vec<u8> = Vec::new();
    push_dec_bytes(&mut v, b[0]);
    v.push(46);
    push_dec_bytes(&mut v, b[1]);
    v.push(46);
    push_dec_bytes(&mut v, b[2]);
    v.push(46);
    push_dec_bytes(&mut v, b[3]);
    proof {
        assert(v@ =~= spec_print_ipaddr_bytes(b@));
        assert forall|i: int| 0 <= i < v@.len() implies v@[i] < 128 by {
            lemma_dec_bytes_ascii(b@[0]);
            lemma_dec_bytes_ascii(b@[1]);
            lemma_dec_bytes_ascii(b@[2]);
            lemma_dec_bytes_ascii(b@[3]);
        }
    }
    let r = ascii_to_string(&v);
    proof {
        assert(r@ =~= spec_print_ipaddr(b@));
    }
    r
}

/// Appends the canonical decimal text of one octet.
fn push_dec_bytes(v: &mut Vec<u8>, x: u8)
    ensures
        final(v)@ == old(v)@ + spec_dec_bytes(x),
{
    if x >= 100 {
        v.push(48 + x / 100);
        v.push(48 + (x / 10) % 10);
        v.push(48 + x % 10);
        proof {
            assert(v@ =~= old(v)@ + spec_dec_bytes(x));
        }
    } else if x >= 10 {
        v.push(48 + x / 10);
        v.push(48 + x % 10);
        proof {
            assert(v@ =~= old(v)@ + spec_dec_bytes(x));
        }
    } else {
        v.push(48 + x);
        proof {
            assert(v@ =~= old(v)@ + spec_dec_bytes(x));
        }
    }
}

/// The decimal text of an octet is made of ASCII digits.
proof fn lemma_dec_bytes_ascii(v: u8)
    ensures
        forall|i: int| 0 <= i < spec_dec_bytes(v).len() ==> #[trigger] spec_dec_bytes(v)[i] < 128,
{
}

/// The decimal text of an octet denotes that octet.
proof fn lemma_dec_chars(v: u8)
    ensures
        ({
            let dc = ascii_chars_of(spec_dec_bytes(v));
            &&& octet_wf(dc)
            &&& digits_val(dc) == v
        }),
{
    let dc = ascii_chars_of(spec_dec_bytes(v));
    assert forall|i: int| 0 <= i < dc.len() implies is_digit(#[trigger] dc[i]) by {
        assert(dc[i] == spec_dec_bytes(v)[i] as char);
    }
    if v < 10 {
        assert(dc =~= seq![((48 + v) as u8) as char]);
        assert(digits_val(dc) == digits_val(dc.drop_last()) * 10 + digit_val(dc.last()));
        assert(dc.drop_last() =~= Seq::<char>::empty());
        assert(digits_val(dc) == v);
    } else if v < 100 {
        let d0 = ((48 + v / 10) as u8) as char;
        let d1 = ((48 + v % 10) as u8) as char;
        assert(dc =~= seq![d0, d1]);
        assert(dc.drop_last() =~= seq![d0]);
        assert(seq![d0].drop_last() =~= Seq::<char>::empty());
        assert(digits_val(Seq::<char>::empty()) == 0);
        assert(digits_val(seq![d0]) == v / 10);
        assert(digits_val(dc) == (v / 10) * 10 + v % 10);
        assert((v / 10) * 10 + v % 10 == v) by (bit_vector);
    } else {
        let d0 = ((48 + v / 100) as u8) as char;
        let d1 = ((48 + (v / 10) % 10) as u8) as char;
        let d2 = ((48 + v % 10) as u8) as char;
        assert(dc =~= seq![d0, d1, d2]);
        assert(dc.drop_last() =~= seq![d0, d1]);
        assert(seq![d0, d1].drop_last() =~= seq![d0]);
        assert(seq![d0].drop_last() =~= Seq::<char>::empty());
        assert(digits_val(Seq::<char>::empty()) == 0);
        assert(digits_val(seq![d0]) == v / 100);
        assert(digits_val(seq![d0, d1]) == (v / 100) * 10 + (v / 10) % 10);
        assert(digits_val(dc) == ((v / 100) * 10 + (v / 10) % 10) * 10 + v % 10);
        assert(((v / 100) * 10 + (v / 10) % 10) * 10 + v % 10 == v) by (bit_vector);
    }
}

/// A well-formed octet followed by a dot prefixes an octet-list parse.
proof fn lemma_parse_octets_cons(oct: Seq<char>, rest: Seq<char>, n: nat)
    requires
        n >= 2,
        octet_wf(oct),
    ensures
        spec_parse_ip_octets(oct + seq!['.'] + rest, n) == match spec_parse_ip_octets(
            rest,
            (n - 1) as nat,
        ) {
            Some(r) => Some(seq![digits_val(oct) as u8] + r),
            None => None,
        },
{
    let s = oct + seq!['.'] + rest;
    assert(forall|i: int| 0 <= i < oct.len() ==> s[i] == oct[i]);
    assert(s[oct.len() as int] == '.');
    assert(forall|i: int| 0 <= i < oct.len() ==> s[i] != '.') by {
        assert(forall|i: int| 0 <= i < oct.len() ==> is_digit(#[trigger] oct[i]));
    }
    crate::wire::lemma_find_char_at(s, '.', oct.len() as int);
    assert(s.take(oct.len() as int) =~= oct);
    assert(s.skip(oct.len() as int + 1) =~= rest);
}

/// Printed dotted-quad text is well formed and parses back to the same
/// bytes.
pub proof fn lemma_ipaddr_print_parse(b: Seq<u8>)
    requires
        b.len() == 4,
    ensures
        ipv4_str_wf(spec_print_ipaddr(b)),
        ipv4_bytes_of(spec_print_ipaddr(b)) == b,
{
    let s = spec_print_ipaddr(b);
    let o0 = ascii_chars_of(spec_dec_bytes(b[0]));
    let o1 = ascii_chars_of(spec_dec_bytes(b[1]));
    let o2 = ascii_chars_of(spec_dec_bytes(b[2]));
    let o3 = ascii_chars_of(spec_dec_bytes(b[3]));
    lemma_dec_chars(b[0]);
    lemma_dec_chars(b[1]);
    lemma_dec_chars(b[2]);
    lemma_dec_chars(b[3]);
    assert(s =~= o0 + seq!['.'] + (o1 + seq!['.'] + (o2 + seq!['.'] + o3)));
    lemma_parse_octets_cons(o2, o3, 2);
    lemma_parse_octets_cons(o1, o2 + seq!['.'] + o3, 3);
    lemma_parse_octets_cons(o0, o1 + seq!['.'] + (o2 + seq!['.'] + o3), 4);
    assert(o1 + seq!['.'] + (o2 + seq!['.'] + o3) =~= o1 + seq!['.'] + (o2 + seq!['.'] + o3));
    assert(spec_parse_ip_octets(o3, 1) == Some(seq![b[3]]));
    assert(spec_parse_ip_octets(o2 + seq!['.'] + o3, 2) == Some(seq![b[2], b[3]])) by {
        assert(seq![digits_val(o2) as u8] + seq![b[3]] =~= seq![b[2], b[3]]);
    }
    assert(spec_parse_ip_octets(o1 + seq!['.'] + (o2 + seq!['.'] + o3), 3) == Some(
        seq![b[1], b[2], b[3]],
    )) by {
        assert(seq![digits_val(o1) as u8] + seq![b[2], b[3]] =~= seq![b[1], b[2], b[3]]);
    }
    assert(spec_parse_ipaddr(s) == Some(seq![b[0], b[1], b[2], b[3]])) by {
        assert(seq![digits_val(o0) as u8] + seq![b[1], b[2], b[3]] =~= seq![
            b[0],
            b[1],
            b[2],
            b[3],
        ]);
    }
    assert(seq![b[0], b[1], b[2], b[3]] =~= b);
}

// ---------------------------------------------------------------------
// Internet checksum (RFC 1071)
// ---------------------------------------------------------------------

/// One's-complement addition of two 16-bit words with end-around carry.
pub open spec fn oc_add(a: u16, b: u16) -> u16 {
    if a + b > 0xFFFF {
        (a + b - 0xFFFF) as u16
    } else {
        (a + b) as u16
    }
}

/// The big-endian 16-bit words of a byte sequence, an odd trailing byte
/// padded with zero.
pub open spec fn words16(b: Seq<u8>) -> Seq<u16>
    decreases b.len(),
{
    if b.len() == 0 {
        Seq::empty()
    } else if b.len() == 1 {
        seq![crate::wire::be16(b[0], 0)]
    } else {
        seq![crate::wire::be16(b[0], b[1])] + words16(b.skip(2))
    }
}

/// One's-complement sum of a word sequence onto an accumulator.
pub open spec fn oc_sum(ws: Seq<u16>, acc: u16) -> u16
    decreases ws.len(),
{
    if ws.len() == 0 {
        acc
    } else {
        oc_sum(ws.drop_first(), oc_add(acc, ws[0]))
    }
}

/// The internet checksum of a byte sequence: the one's complement of the
/// seeded one's-complement sum of its 16-bit big-endian words.
pub open spec fn spec_checksum16(b: Seq<u8>, seed: u16) -> u16 {
    (0xFFFF - oc_sum(words16(b), seed)) as u16
}

/// One's-complement sum of 16-bit big-endian words (odd trailing byte
/// padded with zero), folding carries, seeded so a pseudo-header can be
/// accumulated before a payload. Returns the one's complement of the
/// final sum.
pub fn checksum16(bytes: &Vec<u8>, seed: u16) -> (r: u16)
    ensures
        r == spec_checksum16(bytes@, seed),
{
    let n = bytes.len();
    let mut acc: u16 = seed;
    let mut i: usize = 0;
    proof {
        assert(bytes@.skip(0) =~= bytes@);
    }
    while i < n
        invariant
            0 <= i <= n,
            n == bytes@.len(),
            oc_sum(words16(bytes@.skip(i as int)), acc) == oc_sum(words16(bytes@), seed),
        decreases n - i,
    {
        let ghost rest = bytes@.skip(i as int);
        let hi = bytes[i];
        let lo = if i + 1 < n {
            bytes[i + 1]
        } else {
            0
        };
        let word: u16 = (hi as u16) * 256 + (lo as u16);
        let s: u32 = acc as u32 + word as u32;
        acc = if s > 0xFFFF {
            (s - 0xFFFF) as u16
        } else {
            s as u16
        };
        proof {
            assert(word == crate::wire::be16(hi, lo));
            if rest.len() >= 2 {
                assert(rest.skip(2) =~= bytes@.skip(i + 2));
                assert(words16(rest) == seq![crate::wire::be16(hi, lo)] + words16(
                    bytes@.skip(i + 2),
                ));
                assert(words16(rest).drop_first() =~= words16(bytes@.skip(i + 2)));
            } else {
                assert(rest.len() == 1);
                assert(words16(rest) =~= seq![crate::wire::be16(hi, 0)]);
                assert(bytes@.skip(i + 1) =~= Seq::<u8>::empty());
                assert(words16(rest).drop_first() =~= words16(bytes@.skip(i + 1)));
            }
        }
        if i + 1 < n {
            i = i + 2;
        } else {
            i = i + 1;
        }
    }
    proof {
        assert(bytes@.skip(n as int) =~= Seq::<u8>::empty());
    }
    0xFFFF - acc
}

/// The one's-complement sum of a single word.
pub proof fn lemma_oc_sum_single(x: u16, acc: u16)
    ensures
        oc_sum(seq![x], acc) == oc_add(acc, x),
{
    let e = seq![x].drop_first();
    assert(e =~= Seq::<u16>::empty());
    assert(oc_sum(e, oc_add(acc, x)) == oc_add(acc, x));
}

/// The 16-bit words of a two-byte sequence.
pub proof fn lemma_words16_pair(b0: u8, b1: u8)
    ensures
        words16(seq![b0, b1]) == seq![crate::wire::be16(b0, b1)],
{
    let t = seq![b0, b1].skip(2);
    assert(t =~= Seq::<u8>::empty());
    assert(words16(t) =~= Seq::<u16>::empty());
    assert(words16(seq![b0, b1]) =~= seq![crate::wire::be16(b0, b1)]);
}

/// Splitting a byte sequence at an even offset splits its 16-bit words.
pub proof fn lemma_words16_even_concat(a: Seq<u8>, b: Seq<u8>)
    requires
        a.len() % 2 == 0,
    ensures
        words16(a + b) == words16(a) + words16(b),
    decreases a.len(),
{
    if a.len() == 0 {
        assert(a + b =~= b);
        assert(words16(a) + words16(b) =~= words16(b));
    } else {
        assert((a + b).len() >= 2);
        assert((a + b)[0] == a[0] && (a + b)[1] == a[1]);
        assert((a + b).skip(2) =~= a.skip(2) + b);
        lemma_words16_even_concat(a.skip(2), b);
        assert(words16(a + b) =~= words16(a) + words16(b));
    }
}

/// One's-complement summing over a concatenation sums each part in turn.
pub proof fn lemma_oc_sum_concat(w1: Seq<u16>, w2: Seq<u16>, acc: u16)
    ensures
        oc_sum(w1 + w2, acc) == oc_sum(w2, oc_sum(w1, acc)),
    decreases w1.len(),
{
    if w1.len() == 0 {
        assert(w1 + w2 =~= w2);
    } else {
        assert((w1 + w2).drop_first() =~= w1.drop_first() + w2);
        lemma_oc_sum_concat(w1.drop_first(), w2, oc_add(acc, w1[0]));
    }
}

/// Words may be added to a one's-complement sum in either order.
pub proof fn lemma_oc_add_exchange(a: u16, b: u16, c: u16)
    ensures
        oc_add(oc_add(a, b), c) == oc_add(oc_add(a, c), b),
{
}

/// A word added to the seed may instead be added to the final sum.
pub proof fn lemma_oc_sum_pull(ws: Seq<u16>, acc: u16, x: u16)
    ensures
        oc_sum(ws, oc_add(acc, x)) == oc_add(oc_sum(ws, acc), x),
    decreases ws.len(),
{
    if ws.len() > 0 {
        lemma_oc_add_exchange(acc, x, ws[0]);
        lemma_oc_sum_pull(ws.drop_first(), oc_add(acc, ws[0]), x);
    }
}

/// The internet checksum self-verification law: writing the checksum of
/// a buffer (computed with its 16-bit-aligned checksum field zeroed)
/// back into that field makes the checksum of the whole buffer zero.
pub proof fn lemma_checksum16_self_verifying(prefix: Seq<u8>, suffix: Seq<u8>)
    requires
        prefix.len() % 2 == 0,
    ensures
        ({
            let c = spec_checksum16(prefix + seq![0u8, 0u8] + suffix, 0);
            spec_checksum16(prefix + seq![(c / 256) as u8, (c % 256) as u8] + suffix, 0) == 0
        }),
{
    let zeroed = prefix + seq![0u8, 0u8] + suffix;
    let c = spec_checksum16(zeroed, 0);
    let filled = prefix + seq![(c / 256) as u8, (c % 256) as u8] + suffix;
    let w1 = words16(prefix);
    let w2 = words16(suffix);

    lemma_words16_even_concat(prefix, seq![0u8, 0u8] + suffix);
    lemma_words16_even_concat(seq![0u8, 0u8], suffix);
    assert(zeroed =~= prefix + (seq![0u8, 0u8] + suffix));
    lemma_words16_pair(0, 0);
    assert(crate::wire::be16(0, 0) == 0);
    assert(words16(zeroed) == w1 + (seq![0u16] + w2));

    let cb = seq![(c / 256) as u8, (c % 256) as u8];
    lemma_words16_even_concat(prefix, cb + suffix);
    lemma_words16_even_concat(cb, suffix);
    assert(filled =~= prefix + (cb + suffix));
    lemma_words16_pair(cb[0], cb[1]);
    assert(crate::wire::be16(cb[0], cb[1]) == c);
    assert(words16(cb) == seq![c]);
    assert(words16(filled) == w1 + (seq![c] + w2));

    // Sum of the zeroed buffer.
    lemma_oc_sum_concat(w1, seq![0u16] + w2, 0);
    lemma_oc_sum_concat(seq![0u16], w2, oc_sum(w1, 0));
    lemma_oc_sum_single(0, oc_sum(w1, 0));
    assert(oc_add(oc_sum(w1, 0), 0) == oc_sum(w1, 0));
    let s = oc_sum(w2, oc_sum(w1, 0));
    assert(oc_sum(words16(zeroed), 0) == s);
    assert(c == 0xFFFF - s);

    // Sum of the buffer with the checksum written in.
    lemma_oc_sum_concat(w1, seq![c] + w2, 0);
    lemma_oc_sum_concat(seq![c], w2, oc_sum(w1, 0));
    lemma_oc_sum_single(c, oc_sum(w1, 0));
    lemma_oc_sum_pull(w2, oc_sum(w1, 0), c);
    assert(oc_sum(words16(filled), 0) == oc_add(s, c));
    assert(oc_add(s, c) == 0xFFFF);
}

} // verus!
