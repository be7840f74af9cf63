//! IPv4 peer addresses and their canonical dotted-quad text form.
//!
//! Peers are identified on the wire by the decimal dotted-quad rendering of
//! their IPv4 address (for example `10.0.0.5`). This module defines the
//! rendering at the specification level and provides verified executable
//! functions that produce and parse exactly that canonical form: no leading
//! zeros, each octet in `0..=255`, three dots.
use vstd::prelude::*;

verus! {

/// An IPv4 address, one field per octet, most significant first.
#[derive(Clone, Copy, PartialEq, Eq, Structural, Debug, Hash)]
pub struct PeerAddr {
    pub o0: u8,
    pub o1: u8,
    pub o2: u8,
    pub o3: u8,
}

/// ASCII code of the dot separating the octets.
pub const DOT: u8 = 46;

impl PeerAddr {
    /// Builds the address from its 32-bit form, most significant byte first.
    pub fn from_u32(ip: u32) -> (r: PeerAddr)
        ensures
            r == PeerAddr::spec_from_u32(ip),
    {
        PeerAddr {
            o0: (ip >> 24) as u8,
            o1: (ip >> 16) as u8,
            o2: (ip >> 8) as u8,
            o3: ip as u8,
        }
    }

    /// The octets of a 32-bit address, most significant byte first.
    pub open spec fn spec_from_u32(ip: u32) -> PeerAddr {
        PeerAddr {
            o0: (ip >> 24) as u8,
            o1: (ip >> 16) as u8,
            o2: (ip >> 8) as u8,
            o3: ip as u8,
        }
    }

    /// Whether the address lies in one of the private IPv4 ranges the
    /// discovery logic recognises as a machine's own LAN address:
    /// 10.0.0.0/8, 192.168.0.0/16 or 172.16.0.0/12.
    pub open spec fn spec_is_private(self) -> bool {
        self.o0 == 10 || (self.o0 == 192 && self.o1 == 168) || (self.o0 == 172 && 16 <= self.o1
            && self.o1 <= 31)
    }

    /// Whether the address lies in the 192.168.0.0/16 range, which the
    /// own-address scan prefers over the other private ranges.
    pub open spec fn spec_is_192_168(self) -> bool {
        self.o0 == 192 && self.o1 == 168
    }

    pub fn is_private(&self) -> (r: bool)
        ensures
            r == self.spec_is_private(),
    {
        self.o0 == 10 || (self.o0 == 192 && self.o1 == 168) || (self.o0 == 172 && 16 <= self.o1
            && self.o1 <= 31)
    }

    pub fn is_192_168(&self) -> (r: bool)
        ensures
            r == self.spec_is_192_168(),
    {
        self.o0 == 192 && self.o1 == 168
    }
}

/// Whether `b` is the ASCII code of a decimal digit.
pub open spec fn is_ascii_digit(b: u8) -> bool {
    48 <= b && b <= 57
}

/// Numeric value of an ASCII digit.
pub open spec fn digit_val(b: u8) -> int {
    b - 48
}

/// Canonical decimal rendering of one octet: one to three ASCII digits,
/// no leading zero except for the single digit `0`.
pub open spec fn dec_digits(n: u8) -> Seq<u8> {
    if n < 10 {
        seq![(48 + n) as u8]
    } else if n < 100 {
        seq![(48 + n / 10) as u8, (48 + n % 10) as u8]
    } else {
        seq![(48 + n / 100) as u8, (48 + (n / 10) % 10) as u8, (48 + n % 10) as u8]
    }
}

/// Canonical dotted-quad rendering of an address.
pub open spec fn quad_bytes(a: PeerAddr) -> Seq<u8> {
    dec_digits(a.o0) + seq![DOT] + dec_digits(a.o1) + seq![DOT] + dec_digits(a.o2) + seq![DOT]
        + dec_digits(a.o3)
}

/// Parses one canonical decimal octet at the front of `s`: the value and how
/// many bytes it occupies, or `None` where no canonical octet starts `s`.
/// The rendering is maximal-munch: a fourth digit, a leading zero, or a value
/// above 255 is rejected.
#[verifier::opaque]
pub open spec fn dec_seg(s: Seq<u8>) -> Option<(u8, int)> {
    if s.len() >= 1 && is_ascii_digit(s[0]) {
        if s[0] == 48 {
            Some((0u8, 1int))
        } else if s.len() >= 2 && is_ascii_digit(s[1]) {
            if s.len() >= 3 && is_ascii_digit(s[2]) {
                if digit_val(s[0]) * 100 + digit_val(s[1]) * 10 + digit_val(s[2]) <= 255 && !(
                s.len() >= 4 && is_ascii_digit(s[3])) {
                    Some(
                        (((digit_val(s[0]) * 100 + digit_val(s[1]) * 10 + digit_val(
                            s[2],
                        )) as u8), 3int),
                    )
                } else {
                    None
                }
            } else {
                Some((((digit_val(s[0]) * 10 + digit_val(s[1])) as u8), 2int))
            }
        } else {
            Some(((digit_val(s[0]) as u8), 1int))
        }
    } else {
        None
    }
}

/// Parses one canonical decimal octet followed by a dot at the front of `s`:
/// the value and the bytes after the dot.
#[verifier::opaque]
pub open spec fn dec_seg_dot(s: Seq<u8>) -> Option<(u8, Seq<u8>)> {
    match dec_seg(s) {
        None => None,
        Some((v, i)) => if i < s.len() && s[i] == DOT {
            Some((v, s.skip(i + 1)))
        } else {
            None
        },
    }
}

/// Parses a whole byte sequence as a canonical dotted quad. Returns the
/// address exactly when `s == quad_bytes(a)` for some `a`; see
/// `lemma_dec_quad_of_quad_bytes` for the completeness direction.
pub open spec fn dec_quad(s: Seq<u8>) -> Option<PeerAddr> {
    match dec_seg_dot(s) {
        None => None,
        Some((b0, s1)) => match dec_seg_dot(s1) {
            None => None,
            Some((b1, s2)) => match dec_seg_dot(s2) {
                None => None,
                Some((b2, s3)) => match dec_seg(s3) {
                    None => None,
                    Some((b3, i3)) => if i3 == s3.len() {
                        Some(PeerAddr { o0: b0, o1: b1, o2: b2, o3: b3 })
                    } else {
                        None
                    },
                },
            },
        },
    }
}

/// Parsing the canonical rendering of an octet recovers the octet, whatever
/// non-digit material follows it.
pub proof fn lemma_dec_seg_of_dec_digits(n: u8, rest: Seq<u8>)
    requires
        rest.len() == 0 || !is_ascii_digit(rest[0]),
    ensures
        dec_seg(dec_digits(n) + rest) == Some((n, dec_digits(n).len() as int)),
{
    reveal(dec_seg);
    let s = dec_digits(n) + rest;
    if n < 10 {
        assert(s[0] == 48 + n);
        if n == 0 {
        } else {
            assert(s.len() >= 2 ==> s[1] == rest[0]);
        }
    } else if n < 100 {
        assert(s[0] == 48 + n / 10 && s[1] == 48 + n % 10);
        assert(s.len() >= 3 ==> s[2] == rest[0]);
        assert(1 <= n / 10 && n / 10 <= 9);
        assert(digit_val(s[0]) * 10 + digit_val(s[1]) == 10 * (n / 10) + n % 10);
        assert(10 * (n / 10) + n % 10 == n);
    } else {
        assert(s[0] == 48 + n / 100 && s[1] == 48 + (n / 10) % 10 && s[2] == 48 + n % 10);
        assert(s.len() >= 4 ==> s[3] == rest[0]);
        assert(1 <= n / 100 && n / 100 <= 2);
        assert(digit_val(s[0]) * 100 + digit_val(s[1]) * 10 + digit_val(s[2]) == 100 * (n / 100)
            + 10 * ((n / 10) % 10) + n % 10);
        assert(100 * (n / 100) + 10 * ((n / 10) % 10) + n % 10 == n);
    }
}

/// Parsing `dec_digits(n) ++ "." ++ rest` yields `n` and leaves `rest`.
pub proof fn lemma_dec_seg_dot(n: u8, rest: Seq<u8>)
    ensures
        dec_seg_dot(dec_digits(n) + seq![DOT] + rest) == Some((n, rest)),
{
    reveal(dec_seg_dot);
    let s = dec_digits(n) + seq![DOT] + rest;
    let t = seq![DOT] + rest;
    assert(s =~= dec_digits(n) + t);
    lemma_dec_seg_of_dec_digits(n, t);
    let i = dec_digits(n).len() as int;
    assert(s[i] == DOT);
    assert(s.skip(i + 1) =~= rest);
}

/// Round trip at the specification level: the canonical rendering of any
/// address parses back to that address, and its length is between 7 and 15.
#[verifier::rlimit(60)]
pub proof fn lemma_dec_quad_of_quad_bytes(a: PeerAddr)
    ensures
        dec_quad(quad_bytes(a)) == Some(a),
        7 <= quad_bytes(a).len() <= 15,
{
    let s = quad_bytes(a);
    let r1 = dec_digits(a.o1) + seq![DOT] + dec_digits(a.o2) + seq![DOT] + dec_digits(a.o3);
    assert(s =~= dec_digits(a.o0) + seq![DOT] + r1);
    lemma_dec_seg_dot(a.o0, r1);
    let r2 = dec_digits(a.o2) + seq![DOT] + dec_digits(a.o3);
    assert(r1 =~= dec_digits(a.o1) + seq![DOT] + r2);
    lemma_dec_seg_dot(a.o1, r2);
    let r3 = dec_digits(a.o3);
    assert(r2 =~= dec_digits(a.o2) + seq![DOT] + r3);
    lemma_dec_seg_dot(a.o2, r3);
    assert(r3 =~= dec_digits(a.o3) + Seq::<u8>::empty());
    lemma_dec_seg_of_dec_digits(a.o3, Seq::<u8>::empty());
    assert(dec_seg(r3) == Some((a.o3, dec_digits(a.o3).len() as int)));
}

/// Appends the canonical decimal rendering of one octet.
pub fn push_octet_decimal(out: &mut Vec<u8>, n: u8)
    ensures
        final(out)@ == old(out)@ + dec_digits(n),
{
    if n < 10 {
        out.push(48 + n);
    } else if n < 100 {
        out.push(48 + n / 10);
        out.push(48 + n % 10);
    } else {
        out.push(48 + n / 100);
        out.push(48 + (n / 10) % 10);
        out.push(48 + n % 10);
    }
    assert(out@ =~= old(out)@ + dec_digits(n));
}

/// Appends the canonical dotted-quad rendering of an address.
pub fn push_quad(out: &mut Vec<u8>, a: PeerAddr)
    ensures
        final(out)@ == old(out)@ + quad_bytes(a),
{
    push_octet_decimal(out, a.o0);
    out.push(DOT);
    push_octet_decimal(out, a.o1);
    out.push(DOT);
    push_octet_decimal(out, a.o2);
    out.push(DOT);
    push_octet_decimal(out, a.o3);
    assert(out@ =~= old(out)@ + quad_bytes(a));
}

/// The canonical dotted-quad rendering of an address as a fresh byte vector.
pub fn quad_to_bytes(a: PeerAddr) -> (r: Vec<u8>)
    ensures
        r@ == quad_bytes(a),
{
    let mut out: Vec<u8> = Vec::new();
    push_quad(&mut out, a);
    assert(out@ =~= quad_bytes(a));
    out
}

/// Parses one canonical decimal octet of `data[start..end]`, mirroring
/// `dec_seg` on that range.
fn parse_seg(data: &Vec<u8>, start: usize, end: usize) -> (r: Option<(u8, usize)>)
    requires
        start <= end <= data@.len(),
    ensures
        match r {
            Some((v, c)) => dec_seg(data@.subrange(start as int, end as int)) == Some(
                (v, c as int),
            ) && start + c <= end,
            None => dec_seg(data@.subrange(start as int, end as int)) is None,
        },
{
    proof {
        reveal(dec_seg);
    }
    let ghost s = data@.subrange(start as int, end as int);
    if start < end && 48 <= data[start] && data[start] <= 57 {
        let d0 = data[start];
        if d0 == 48 {
            Some((0u8, 1))
        } else if start + 1 < end && 48 <= data[start + 1] && data[start + 1] <= 57 {
            let d1 = data[start + 1];
            if start + 2 < end && 48 <= data[start + 2] && data[start + 2] <= 57 {
                let d2 = data[start + 2];
                let v: u32 = (d0 - 48) as u32 * 100 + (d1 - 48) as u32 * 10 + (d2 - 48) as u32;
                if v <= 255 && !(start + 3 < end && 48 <= data[start + 3] && data[start + 3] <= 57)
                 {
                    Some((v as u8, 3))
                } else {
                    None
                }
            } else {
                Some(((d0 - 48) * 10 + (d1 - 48), 2))
            }
        } else {
            Some((d0 - 48, 1))
        }
    } else {
        None
    }
}

/// Parses one canonical decimal octet followed by a dot in `data[start..end]`,
/// mirroring `dec_seg_dot` on that range. Returns the value and the position
/// just after the dot.
fn parse_seg_dot(data: &Vec<u8>, start: usize, end: usize) -> (r: Option<(u8, usize)>)
    requires
        start <= end <= data@.len(),
    ensures
        match r {
            Some((v, p)) => start < p <= end && dec_seg_dot(
                data@.subrange(start as int, end as int),
            ) == Some((v, data@.subrange(p as int, end as int))),
            None => dec_seg_dot(data@.subrange(start as int, end as int)) is None,
        },
{
    proof {
        reveal(dec_seg_dot);
    }
    let ghost s = data@.subrange(start as int, end as int);
    match parse_seg(data, start, end) {
        None => None,
        Some((v, c)) => {
            let p = start + c;
            if p < end && data[p] == DOT {
                assert(s.skip(c + 1) =~= data@.subrange(p + 1, end as int));
                Some((v, p + 1))
            } else {
                None
            }
        },
    }
}

/// Parses `data[start..end]` as a whole canonical dotted quad, mirroring
/// `dec_quad` on that range.
pub fn parse_quad(data: &Vec<u8>, start: usize, end: usize) -> (r: Option<PeerAddr>)
    requires
        start <= end <= data@.len(),
    ensures
        r == dec_quad(data@.subrange(start as int, end as int)),
{
    let r0 = parse_seg_dot(data, start, end);
    if r0.is_none() {
        return None;
    }
    let (b0, p0) = r0.unwrap();
    let r1 = parse_seg_dot(data, p0, end);
    if r1.is_none() {
        return None;
    }
    let (b1, p1) = r1.unwrap();
    let r2 = parse_seg_dot(data, p1, end);
    if r2.is_none() {
        return None;
    }
    let (b2, p2) = r2.unwrap();
    let r3 = parse_seg(data, p2, end);
    if r3.is_none() {
        return None;
    }
    let (b3, c3) = r3.unwrap();
    if p2 + c3 == end {
        Some(PeerAddr { o0: b0, o1: b1, o2: b2, o3: b3 })
    } else {
        None
    }
}

} // verus!
