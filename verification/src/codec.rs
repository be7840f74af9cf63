//! Wire codec for the discovery protocol.
//!
//! Two messages cross the wire: `UniPacket::DiscoverySignal`, the empty ping
//! a machine broadcasts, and `InitiationMessage`, the registry snapshot sent
//! back in reply. The encoding is compact and versionless: an enum is its
//! variant index as a 32-bit little-endian integer, a length is a 64-bit
//! little-endian integer, a map is its length followed by its entries, and a
//! peer address travels as its canonical dotted-quad text prefixed by its
//! length. Both ends of the protocol agree on this layout out of band.
//!
//! The decoder is strict: it accepts exactly the canonical encodings (no
//! trailing bytes, no duplicate keys, no non-canonical dotted quad), and a
//! datagram that deviates is treated as a protocol error and dropped.
use vstd::prelude::*;
use crate::addr::{PeerAddr, quad_bytes, dec_quad, parse_quad, push_quad, lemma_dec_quad_of_quad_bytes};
use crate::registry::{PeerStatus, PeerRegistry, unique_keys};

verus! {

/// A discovery datagram: a ping carrying no payload.
#[derive(Clone, Copy, PartialEq, Eq, Structural, Debug)]
pub enum UniPacket {
    DiscoverySignal,
}

/// The reply to a discovery signal: a snapshot of the sender's registry.
pub struct InitiationMessage {
    pub ip_map: PeerRegistry,
}

/// The 8 bytes of `n` in little-endian order.
pub open spec fn le8(n: u64) -> Seq<u8> {
    seq![
        (n & 0xff) as u8,
        ((n >> 8) & 0xff) as u8,
        ((n >> 16) & 0xff) as u8,
        ((n >> 24) & 0xff) as u8,
        ((n >> 32) & 0xff) as u8,
        ((n >> 40) & 0xff) as u8,
        ((n >> 48) & 0xff) as u8,
        ((n >> 56) & 0xff) as u8,
    ]
}

/// The value of 8 little-endian bytes.
pub open spec fn le8_val(s: Seq<u8>) -> u64
    recommends
        s.len() == 8,
{
    (s[0] as u64) | (s[1] as u64) << 8 | (s[2] as u64) << 16 | (s[3] as u64) << 24 | (
    s[4] as u64) << 32 | (s[5] as u64) << 40 | (s[6] as u64) << 48 | (s[7] as u64) << 56
}

/// The 4 bytes of `n` in little-endian order.
pub open spec fn le4(n: u32) -> Seq<u8> {
    seq![(n & 0xff) as u8, ((n >> 8) & 0xff) as u8, ((n >> 16) & 0xff) as u8, ((n >> 24) & 0xff) as u8]
}

/// The value of 4 little-endian bytes.
pub open spec fn le4_val(s: Seq<u8>) -> u32
    recommends
        s.len() == 4,
{
    (s[0] as u32) | (s[1] as u32) << 8 | (s[2] as u32) << 16 | (s[3] as u32) << 24
}

pub proof fn lemma_le8_roundtrip(n: u64)
    ensures
        le8_val(le8(n)) == n,
{
    assert((((n & 0xff) as u8) as u64) | ((((n >> 8) & 0xff) as u8) as u64) << 8 | ((((n >> 16)
        & 0xff) as u8) as u64) << 16 | ((((n >> 24) & 0xff) as u8) as u64) << 24 | ((((n >> 32)
        & 0xff) as u8) as u64) << 32 | ((((n >> 40) & 0xff) as u8) as u64) << 40 | ((((n >> 48)
        & 0xff) as u8) as u64) << 48 | ((((n >> 56) & 0xff) as u8) as u64) << 56 == n)
        by (bit_vector);
}

pub proof fn lemma_le4_roundtrip(n: u32)
    ensures
        le4_val(le4(n)) == n,
{
    assert((((n & 0xff) as u8) as u32) | ((((n >> 8) & 0xff) as u8) as u32) << 8 | ((((n >> 16)
        & 0xff) as u8) as u32) << 16 | ((((n >> 24) & 0xff) as u8) as u32) << 24 == n)
        by (bit_vector);
}

/// Appends the 8 little-endian bytes of `n`.
pub fn push_le8(out: &mut Vec<u8>, n: u64)
    ensures
        final(out)@ == old(out)@ + le8(n),
{
    out.push((n & 0xff) as u8);
    out.push(((n >> 8) & 0xff) as u8);
    out.push(((n >> 16) & 0xff) as u8);
    out.push(((n >> 24) & 0xff) as u8);
    out.push(((n >> 32) & 0xff) as u8);
    out.push(((n >> 40) & 0xff) as u8);
    out.push(((n >> 48) & 0xff) as u8);
    out.push(((n >> 56) & 0xff) as u8);
    assert(out@ =~= old(out)@ + le8(n));
}

/// Appends the 4 little-endian bytes of `n`.
pub fn push_le4(out: &mut Vec<u8>, n: u32)
    ensures
        final(out)@ == old(out)@ + le4(n),
{
    out.push((n & 0xff) as u8);
    out.push(((n >> 8) & 0xff) as u8);
    out.push(((n >> 16) & 0xff) as u8);
    out.push(((n >> 24) & 0xff) as u8);
    assert(out@ =~= old(out)@ + le4(n));
}

/// Reads the 8 little-endian bytes at `pos`.
pub fn read_le8(data: &Vec<u8>, pos: usize) -> (r: u64)
    requires
        pos + 8 <= data@.len(),
    ensures
        r == le8_val(data@.subrange(pos as int, pos as int + 8)),
{
    let n = data.len();
    let r = (data[pos] as u64) | (data[pos + 1] as u64) << 8 | (data[pos + 2] as u64) << 16 | (
    data[pos + 3] as u64) << 24 | (data[pos + 4] as u64) << 32 | (data[pos + 5] as u64) << 40 | (
    data[pos + 6] as u64) << 48 | (data[pos + 7] as u64) << 56;
    proof {
        let s = data@.subrange(pos as int, pos as int + 8);
        assert(forall|k: int| 0 <= k < 8 ==> s[k] == data@[pos + k]);
    }
    r
}

/// Reads the 4 little-endian bytes at `pos`.
pub fn read_le4(data: &Vec<u8>, pos: usize) -> (r: u32)
    requires
        pos + 4 <= data@.len(),
    ensures
        r == le4_val(data@.subrange(pos as int, pos as int + 4)),
{
    let n = data.len();
    let r = (data[pos] as u32) | (data[pos + 1] as u32) << 8 | (data[pos + 2] as u32) << 16 | (
    data[pos + 3] as u32) << 24;
    proof {
        let s = data@.subrange(pos as int, pos as int + 4);
        assert(forall|k: int| 0 <= k < 4 ==> s[k] == data@[pos + k]);
    }
    r
}

/// Variant index of a role on the wire.
pub open spec fn status_tag(st: PeerStatus) -> u32 {
    match st {
        PeerStatus::Player => 0,
        PeerStatus::Speaker => 1,
    }
}

/// The role a variant index denotes, if any.
pub open spec fn status_of_tag(t: u32) -> Option<PeerStatus> {
    if t == 0 {
        Some(PeerStatus::Player)
    } else if t == 1 {
        Some(PeerStatus::Speaker)
    } else {
        None
    }
}

/// Encoding of the discovery signal: the variant index 0 as 4 bytes.
pub open spec fn enc_signal() -> Seq<u8> {
    le4(0)
}

/// The discovery signal encodes as four zero bytes.
pub proof fn lemma_enc_signal_bytes()
    ensures
        enc_signal() =~= seq![0u8, 0u8, 0u8, 0u8],
{
    assert((0u32 & 0xff) as u8 == 0 && ((0u32 >> 8) & 0xff) as u8 == 0 && ((0u32 >> 16)
        & 0xff) as u8 == 0 && ((0u32 >> 24) & 0xff) as u8 == 0) by (bit_vector);
}

/// Encoding of one registry entry: the dotted-quad key prefixed by its
/// length, then the role's variant index.
pub open spec fn enc_entry(e: (PeerAddr, PeerStatus)) -> Seq<u8> {
    le8(quad_bytes(e.0).len() as u64) + quad_bytes(e.0) + le4(status_tag(e.1))
}

/// Encoding of a sequence of entries, in order.
pub open spec fn enc_entries(s: Seq<(PeerAddr, PeerStatus)>) -> Seq<u8>
    decreases s.len(),
{
    if s.len() == 0 {
        Seq::empty()
    } else {
        enc_entry(s[0]) + enc_entries(s.drop_first())
    }
}

/// Encoding of a whole snapshot: the entry count, then the entries.
pub open spec fn enc_init(s: Seq<(PeerAddr, PeerStatus)>) -> Seq<u8> {
    le8(s.len() as u64) + enc_entries(s)
}

/// Strict decoding of a whole datagram as a discovery signal.
pub open spec fn dec_signal(input: Seq<u8>) -> Option<UniPacket> {
    if input == enc_signal() {
        Some(UniPacket::DiscoverySignal)
    } else {
        None
    }
}

/// Decodes `n` entries of `input` starting at `pos`: the entries and the
/// position after them, or `None` where the bytes deviate from the layout.
pub open spec fn dec_entries(input: Seq<u8>, pos: int, n: nat) -> Option<
    (Seq<(PeerAddr, PeerStatus)>, int),
>
    decreases n,
{
    if n == 0 {
        Some((Seq::empty(), pos))
    } else if !(0 <= pos && pos + 8 <= input.len()) {
        None
    } else {
        let klen = le8_val(input.subrange(pos, pos + 8)) as int;
        if pos + 8 + klen + 4 > input.len() {
            None
        } else {
            match dec_quad(input.subrange(pos + 8, pos + 8 + klen)) {
                None => None,
                Some(a) => {
                    let tag = le4_val(input.subrange(pos + 8 + klen, pos + 8 + klen + 4));
                    match status_of_tag(tag) {
                        None => None,
                        Some(st) => match dec_entries(input, pos + 8 + klen + 4, (n - 1) as nat) {
                            None => None,
                            Some((rest, end)) => Some((seq![(a, st)] + rest, end)),
                        },
                    }
                },
            }
        }
    }
}

/// Strict decoding of a whole datagram as a registry snapshot: the count,
/// exactly that many entries, nothing after them, and no duplicate keys.
pub open spec fn dec_init(input: Seq<u8>) -> Option<Seq<(PeerAddr, PeerStatus)>> {
    if input.len() < 8 {
        None
    } else {
        let n = le8_val(input.subrange(0, 8));
        match dec_entries(input, 8, n as nat) {
            None => None,
            Some((s, end)) => if end == input.len() && unique_keys(s) {
                Some(s)
            } else {
                None
            },
        }
    }
}

/// Splitting a known concatenation at its seam.
proof fn lemma_subrange_concat(input: Seq<u8>, pos: int, a: Seq<u8>, b: Seq<u8>)
    requires
        0 <= pos,
        pos + a.len() + b.len() <= input.len(),
        input.subrange(pos, pos + a.len() + b.len()) == a + b,
    ensures
        input.subrange(pos, pos + a.len()) == a,
        input.subrange(pos + a.len(), pos + a.len() + b.len()) == b,
{
    let whole = input.subrange(pos, pos + a.len() + b.len());
    assert forall|k: int| 0 <= k < a.len() implies input.subrange(pos, pos + a.len())[k]
        == a[k] by {
        assert(input.subrange(pos, pos + a.len())[k] == input[pos + k]);
        assert(whole[k] == input[pos + k]);
        assert((a + b)[k] == a[k]);
    }
    assert(input.subrange(pos, pos + a.len()) =~= a);
    assert forall|k: int| 0 <= k < b.len() implies input.subrange(
        pos + a.len(),
        pos + a.len() + b.len(),
    )[k] == b[k] by {
        assert(input.subrange(pos + a.len(), pos + a.len() + b.len())[k] == input[pos + a.len()
            + k]);
        assert(whole[a.len() + k] == input[pos + a.len() + k]);
        assert((a + b)[a.len() + k] == b[k]);
    }
    assert(input.subrange(pos + a.len(), pos + a.len() + b.len()) =~= b);
}

/// Decoding `n` entries from their own encoding followed by nothing yields
/// exactly those entries and consumes the input.
proof fn lemma_dec_entries_of_enc(input: Seq<u8>, pos: int, s: Seq<(PeerAddr, PeerStatus)>)
    requires
        0 <= pos <= input.len(),
        input.subrange(pos, input.len() as int) == enc_entries(s),
    ensures
        dec_entries(input, pos, s.len() as nat) == Some((s, input.len() as int)),
    decreases s.len(),
{
    if s.len() == 0 {
        assert(input.len() - pos == enc_entries(s).len());
        assert(dec_entries(input, pos, 0) == Some((Seq::<(PeerAddr, PeerStatus)>::empty(), pos)));
        assert(s =~= Seq::<(PeerAddr, PeerStatus)>::empty());
    } else {
        let e = s[0];
        let a = e.0;
        let st = e.1;
        let q = quad_bytes(a);
        lemma_dec_quad_of_quad_bytes(a);
        let l1 = le8(q.len() as u64);
        let l2 = le4(status_tag(st));
        let tail = enc_entries(s.drop_first());
        assert(enc_entries(s) == (l1 + q + l2) + tail);
        assert(input.subrange(pos, input.len() as int) =~= l1 + (q + (l2 + tail))) by {
            assert((l1 + q + l2) + tail =~= l1 + (q + (l2 + tail)));
        }
        lemma_subrange_concat(input, pos, l1, q + (l2 + tail));
        lemma_subrange_concat(input, pos + 8, q, l2 + tail);
        lemma_subrange_concat(input, pos + 8 + q.len(), l2, tail);
        lemma_le8_roundtrip(q.len() as u64);
        assert(le8_val(input.subrange(pos, pos + 8)) == q.len() as u64);
        let klen = q.len() as int;
        assert(dec_quad(input.subrange(pos + 8, pos + 8 + klen)) == Some(a));
        lemma_le4_roundtrip(status_tag(st));
        assert(le4_val(input.subrange(pos + 8 + klen, pos + 8 + klen + 4)) == status_tag(st));
        assert(status_of_tag(status_tag(st)) == Some(st));
        let pos2 = pos + 8 + klen + 4;
        assert(input.subrange(pos2, input.len() as int) == tail);
        lemma_dec_entries_of_enc(input, pos2, s.drop_first());
        assert(dec_entries(input, pos2, (s.len() - 1) as nat) == Some(
            (s.drop_first(), input.len() as int),
        ));
        assert(seq![(a, st)] + s.drop_first() =~= s);
    }
}

/// Round trip for a registry snapshot: decoding the encoding of any sequence
/// of entries with pairwise distinct keys yields exactly that sequence.
#[verifier::rlimit(60)]
pub proof fn lemma_init_round_trip(s: Seq<(PeerAddr, PeerStatus)>)
    requires
        unique_keys(s),
        s.len() <= u64::MAX,
    ensures
        dec_init(enc_init(s)) == Some(s),
{
    let input = enc_init(s);
    let l = le8(s.len() as u64);
    assert(l.len() == 8);
    assert(input.subrange(0, input.len() as int) =~= input);
    lemma_subrange_concat(input, 0, l, enc_entries(s));
    lemma_le8_roundtrip(s.len() as u64);
    assert(le8_val(input.subrange(0, 8)) == s.len() as u64);
    assert((s.len() as u64) as nat == s.len());
    assert(input.subrange(8, input.len() as int) == enc_entries(s));
    lemma_dec_entries_of_enc(input, 8, s);
    assert(dec_entries(input, 8, s.len() as nat) == Some((s, input.len() as int)));
    assert(dec_init(input) == Some(s));
}

/// Round trip for the discovery signal.
pub proof fn lemma_signal_round_trip()
    ensures
        dec_signal(enc_signal()) == Some(UniPacket::DiscoverySignal),
{
}

/// Encodes a discovery signal for broadcast.
pub fn encode_discovery_signal() -> (r: Vec<u8>)
    ensures
        r@ == enc_signal(),
{
    let mut out: Vec<u8> = Vec::new();
    push_le4(&mut out, 0);
    assert(out@ =~= enc_signal());
    out
}

/// Encodes a `UniPacket` for the wire.
pub fn encode_uni_packet(p: &UniPacket) -> (r: Vec<u8>)
    ensures
        r@ == match p {
            UniPacket::DiscoverySignal => enc_signal(),
        },
{
    match p {
        UniPacket::DiscoverySignal => encode_discovery_signal(),
    }
}

/// Decodes a whole datagram as a `UniPacket`, strictly.
pub fn decode_uni_packet(data: &Vec<u8>) -> (r: Option<UniPacket>)
    ensures
        r == dec_signal(data@),
{
    proof {
        lemma_enc_signal_bytes();
    }
    if data.len() == 4 && data[0] == 0 && data[1] == 0 && data[2] == 0 && data[3] == 0 {
        assert(data@ =~= enc_signal());
        Some(UniPacket::DiscoverySignal)
    } else {
        assert(data@ != enc_signal()) by {
            if data@.len() == 4 {
                assert(enc_signal()[0] == 0 && enc_signal()[1] == 0 && enc_signal()[2] == 0
                    && enc_signal()[3] == 0);
            }
        }
        None
    }
}

/// Appending an entry extends the encoding of a prefix by that entry's bytes.
proof fn lemma_enc_entries_snoc(s: Seq<(PeerAddr, PeerStatus)>, i: int)
    requires
        0 <= i < s.len(),
    ensures
        enc_entries(s.take(i + 1)) == enc_entries(s.take(i)) + enc_entry(s[i]),
    decreases i,
{
    if i == 0 {
        assert(s.take(1)[0] == s[0]);
        assert(s.take(1).drop_first() =~= Seq::<(PeerAddr, PeerStatus)>::empty());
        assert(s.take(0) =~= Seq::<(PeerAddr, PeerStatus)>::empty());
        assert(enc_entries(s.take(1)) =~= enc_entries(s.take(0)) + enc_entry(s[0]));
    } else {
        let t = s.drop_first();
        lemma_enc_entries_snoc(t, i - 1);
        assert(s.take(i + 1)[0] == s[0]);
        assert(s.take(i + 1).drop_first() =~= t.take(i));
        assert(s.take(i)[0] == s[0]);
        assert(s.take(i).drop_first() =~= t.take(i - 1));
        assert(enc_entries(s.take(i + 1)) == enc_entry(s[0]) + enc_entries(t.take(i)));
        assert(enc_entries(s.take(i)) == enc_entry(s[0]) + enc_entries(t.take(i - 1)));
        assert(t[i - 1] == s[i]);
        assert(enc_entry(s[0]) + (enc_entries(t.take(i - 1)) + enc_entry(s[i])) =~= (enc_entry(
            s[0],
        ) + enc_entries(t.take(i - 1))) + enc_entry(s[i]));
    }
}

/// Encodes a registry snapshot for the wire.
pub fn encode_initiation_message(m: &InitiationMessage) -> (r: Vec<u8>)
    ensures
        r@ == enc_init(m.ip_map.entry_seq()),
{
    let ghost s = m.ip_map.entry_seq();
    let n = m.ip_map.len();
    let mut out: Vec<u8> = Vec::new();
    push_le8(&mut out, n as u64);
    assert(out@ =~= le8(s.len() as u64) + enc_entries(s.take(0))) by {
        assert(s.take(0) =~= Seq::<(PeerAddr, PeerStatus)>::empty());
    }
    let mut i: usize = 0;
    while i < n
        invariant
            i <= n == s.len(),
            s == m.ip_map.entry_seq(),
            out@ == le8(s.len() as u64) + enc_entries(s.take(i as int)),
        decreases n - i,
    {
        let (a, st) = m.ip_map.entry_at(i);
        push_le8(&mut out, quad_encoded_len(a) as u64);
        push_quad(&mut out, a);
        push_le4(&mut out, match st {
            PeerStatus::Player => 0,
            PeerStatus::Speaker => 1,
        });
        proof {
            lemma_enc_entries_snoc(s, i as int);
            assert(out@ =~= le8(s.len() as u64) + enc_entries(s.take(i as int + 1)));
        }
        i = i + 1;
    }
    proof {
        assert(s.take(n as int) =~= s);
    }
    out
}

/// The length of an address's dotted-quad rendering, computed without
/// building it.
pub fn quad_encoded_len(a: PeerAddr) -> (r: usize)
    ensures
        r == quad_bytes(a).len(),
{
    octet_decimal_len(a.o0) + octet_decimal_len(a.o1) + octet_decimal_len(a.o2) + 3
        + octet_decimal_len(a.o3)
}

/// The number of decimal digits of one octet.
fn octet_decimal_len(n: u8) -> (r: usize)
    ensures
        r == crate::addr::dec_digits(n).len(),
{
    if n < 10 {
        1
    } else if n < 100 {
        2
    } else {
        3
    }
}

/// Whether all entry keys are pairwise distinct.
fn all_keys_unique(v: &Vec<(PeerAddr, PeerStatus)>) -> (r: bool)
    ensures
        r == unique_keys(v@),
{
    let n = v.len();
    let mut j: usize = 0;
    while j < n
        invariant
            j <= n == v@.len(),
            forall|x: int, y: int| 0 <= x < y < j ==> (#[trigger] v@[x]).0 != (#[trigger] v@[y]).0,
        decreases n - j,
    {
        let mut i: usize = 0;
        while i < j
            invariant
                i <= j < n == v@.len(),
                forall|x: int, y: int|
                    0 <= x < y < j ==> (#[trigger] v@[x]).0 != (#[trigger] v@[y]).0,
                forall|x: int| 0 <= x < i ==> (#[trigger] v@[x]).0 != v@[j as int].0,
            decreases j - i,
        {
            if v[i].0 == v[j].0 {
                assert(!unique_keys(v@));
                return false;
            }
            i = i + 1;
        }
        j = j + 1;
    }
    true
}

/// Parses `count` entries starting at `start`, mirroring `dec_entries`.
fn parse_entries(data: &Vec<u8>, start: usize, count: u64) -> (r: Option<
    (Vec<(PeerAddr, PeerStatus)>, usize),
>)
    requires
        start <= data@.len(),
    ensures
        match r {
            Some((v, end)) => end <= data@.len() && dec_entries(data@, start as int, count as nat)
                == Some((v@, end as int)),
            None => dec_entries(data@, start as int, count as nat) is None,
        },
{
    let mut items: Vec<(PeerAddr, PeerStatus)> = Vec::new();
    let mut pos: usize = start;
    let mut i: u64 = 0;
    assert(items@ =~= Seq::<(PeerAddr, PeerStatus)>::empty());
    while i < count
        invariant
            i <= count,
            pos <= data@.len(),
            match dec_entries(data@, pos as int, (count - i) as nat) {
                Some((rest, end)) => dec_entries(data@, start as int, count as nat) == Some(
                    (items@ + rest, end),
                ),
                None => dec_entries(data@, start as int, count as nat) is None,
            },
        decreases count - i,
    {
        let ghost n_left = (count - i) as nat;
        if data.len() - pos < 8 {
            assert(dec_entries(data@, pos as int, n_left) is None);
            return None;
        }
        let klen64 = read_le8(data, pos);
        let rem = data.len() - pos - 8;
        if rem < 4 || klen64 > (rem - 4) as u64 {
            assert(dec_entries(data@, pos as int, n_left) is None);
            return None;
        }
        let klen = klen64 as usize;
        assert(klen as int == le8_val(data@.subrange(pos as int, pos as int + 8)) as int);
        let key_end = pos + 8 + klen;
        let quad = parse_quad(data, pos + 8, key_end);
        if quad.is_none() {
            assert(dec_entries(data@, pos as int, n_left) is None);
            return None;
        }
        let a = quad.unwrap();
        let tag = read_le4(data, key_end);
        if tag > 1 {
            assert(dec_entries(data@, pos as int, n_left) is None);
            return None;
        }
        let st = if tag == 0 {
            PeerStatus::Player
        } else {
            PeerStatus::Speaker
        };
        let ghost pre_items = items@;
        let ghost pos2 = key_end + 4;
        items.push((a, st));
        proof {
            assert(dec_entries(data@, pos as int, n_left) == (match dec_entries(
                data@,
                pos2 as int,
                (n_left - 1) as nat,
            ) {
                None => None::<(Seq<(PeerAddr, PeerStatus)>, int)>,
                Some((rest, end)) => Some((seq![(a, st)] + rest, end)),
            }));
            match dec_entries(data@, pos2 as int, (n_left - 1) as nat) {
                None => {
                },
                Some((rest, end)) => {
                    assert(pre_items + (seq![(a, st)] + rest) =~= items@ + rest);
                },
            }
        }
        pos = key_end + 4;
        i = i + 1;
    }
    proof {
        assert(dec_entries(data@, pos as int, 0) == Some(
            (Seq::<(PeerAddr, PeerStatus)>::empty(), pos as int),
        ));
        assert(items@ + Seq::<(PeerAddr, PeerStatus)>::empty() =~= items@);
    }
    Some((items, pos))
}

/// Decodes a whole datagram as a registry snapshot, strictly: the advertised
/// entry count, exactly that many well-formed entries, no trailing bytes and
/// no duplicate keys; anything else is a protocol error.
pub fn decode_initiation_message(data: &Vec<u8>) -> (r: Option<InitiationMessage>)
    ensures
        match r {
            Some(m) => m.ip_map.wf() && dec_init(data@) == Some(m.ip_map.entry_seq()),
            None => dec_init(data@) is None,
        },
{
    if data.len() < 8 {
        return None;
    }
    let count = read_le8(data, 0);
    match parse_entries(data, 8, count) {
        None => None,
        Some((items, end)) => {
            if end != data.len() {
                return None;
            }
            if !all_keys_unique(&items) {
                return None;
            }
            Some(InitiationMessage { ip_map: PeerRegistry::from_entries(items) })
        },
    }
}

} // verus!
