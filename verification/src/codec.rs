//! The self-describing binary encoding of stored domain records.
//!
//! A record is written as six tagged fields in a fixed order: name and
//! token as length-prefixed UTF-8 text, the two timestamps as 64-bit
//! little-endian integers, and the two optional addresses behind a
//! presence byte.  Decoding is the exact inverse; `lemma_codec_roundtrip`
//! proves that decoding an encoded record yields the record back, for
//! every field, including absent optional addresses.
//!
//! The field tags give a future revision room to append fields, but this
//! decoder is deliberately strict: it accepts exactly the six fields it
//! knows and rejects trailing data, preferring a loud corruption error
//! over silently skipping bytes it cannot interpret.

use crate::addr::{V4Addr, V6Addr};
use crate::db::{Domain, DomainV};
use vstd::prelude::*;
use vstd::utf8::{decode_utf8, encode_utf8, valid_utf8};

verus! {

/// Little-endian bytes of a 16-bit integer.
pub open spec fn u16_le(x: u16) -> Seq<u8> {
    seq![(x & 0xff) as u8, ((x >> 8) & 0xff) as u8]
}

/// The 16-bit integer read from two little-endian bytes.
pub open spec fn u16_from_le(b: Seq<u8>) -> u16 {
    (b[0] as u16) | ((b[1] as u16) << 8)
}

/// Little-endian bytes of a 64-bit integer.
pub open spec fn u64_le(x: u64) -> Seq<u8> {
    seq![
        (x & 0xff) as u8,
        ((x >> 8) & 0xff) as u8,
        ((x >> 16) & 0xff) as u8,
        ((x >> 24) & 0xff) as u8,
        ((x >> 32) & 0xff) as u8,
        ((x >> 40) & 0xff) as u8,
        ((x >> 48) & 0xff) as u8,
        ((x >> 56) & 0xff) as u8,
    ]
}

/// The 64-bit integer read from eight little-endian bytes.
pub open spec fn u64_from_le(b: Seq<u8>) -> u64 {
    (b[0] as u64) | ((b[1] as u64) << 8) | ((b[2] as u64) << 16) | ((b[3] as u64) << 24) | ((
    b[4] as u64) << 32) | ((b[5] as u64) << 40) | ((b[6] as u64) << 48) | ((b[7] as u64) << 56)
}

pub proof fn lemma_u16_le_roundtrip(x: u16)
    ensures
        u16_from_le(u16_le(x)) == x,
{
    let b0 = (x & 0xff) as u8;
    let b1 = ((x >> 8) & 0xff) as u8;
    assert((b0 as u16) | ((b1 as u16) << 8) == x) by (bit_vector)
        requires
            b0 == (x & 0xff) as u8,
            b1 == ((x >> 8) & 0xff) as u8,
    ;
}

pub proof fn lemma_u64_le_roundtrip(x: u64)
    ensures
        u64_from_le(u64_le(x)) == x,
{
    let b0 = (x & 0xff) as u8;
    let b1 = ((x >> 8) & 0xff) as u8;
    let b2 = ((x >> 16) & 0xff) as u8;
    let b3 = ((x >> 24) & 0xff) as u8;
    let b4 = ((x >> 32) & 0xff) as u8;
    let b5 = ((x >> 40) & 0xff) as u8;
    let b6 = ((x >> 48) & 0xff) as u8;
    let b7 = ((x >> 56) & 0xff) as u8;
    assert((b0 as u64) | ((b1 as u64) << 8) | ((b2 as u64) << 16) | ((b3 as u64) << 24) | ((
    b4 as u64) << 32) | ((b5 as u64) << 40) | ((b6 as u64) << 48) | ((b7 as u64) << 56) == x)
        by (bit_vector)
        requires
            b0 == (x & 0xff) as u8,
            b1 == ((x >> 8) & 0xff) as u8,
            b2 == ((x >> 16) & 0xff) as u8,
            b3 == ((x >> 24) & 0xff) as u8,
            b4 == ((x >> 32) & 0xff) as u8,
            b5 == ((x >> 40) & 0xff) as u8,
            b6 == ((x >> 48) & 0xff) as u8,
            b7 == ((x >> 56) & 0xff) as u8,
    ;
}

/// Little-endian bytes of a group sequence, group by group.
pub open spec fn groups_le(gs: Seq<u16>) -> Seq<u8>
    decreases gs.len(),
{
    if gs.len() == 0 {
        seq![]
    } else {
        u16_le(gs[0]) + groups_le(gs.drop_first())
    }
}

pub proof fn lemma_groups_le_len(gs: Seq<u16>)
    ensures
        groups_le(gs).len() == 2 * gs.len(),
    decreases gs.len(),
{
    if gs.len() > 0 {
        lemma_groups_le_len(gs.drop_first());
    }
}

pub proof fn lemma_groups_le_push(gs: Seq<u16>, x: u16)
    ensures
        groups_le(gs.push(x)) == groups_le(gs) + u16_le(x),
    decreases gs.len(),
{
    if gs.len() == 0 {
        assert(gs.push(x).drop_first() =~= gs);
        assert(groups_le(gs.push(x)) =~= groups_le(gs) + u16_le(x));
    } else {
        assert(gs.push(x).drop_first() =~= gs.drop_first().push(x));
        lemma_groups_le_push(gs.drop_first(), x);
        assert(groups_le(gs.push(x)) =~= groups_le(gs) + u16_le(x));
    }
}

pub proof fn lemma_groups_le_index(gs: Seq<u16>, i: int)
    requires
        0 <= i < gs.len(),
    ensures
        groups_le(gs).subrange(2 * i, 2 * i + 2) =~= u16_le(gs[i]),
    decreases i,
{
    lemma_groups_le_len(gs);
    lemma_groups_le_len(gs.drop_first());
    if i == 0 {
        assert(groups_le(gs).subrange(0, 2) =~= u16_le(gs[0]));
    } else {
        lemma_groups_le_index(gs.drop_first(), i - 1);
        assert(groups_le(gs).subrange(2 * i, 2 * i + 2) =~= groups_le(gs.drop_first()).subrange(
            2 * (i - 1),
            2 * (i - 1) + 2,
        ));
    }
}

/// The eight groups read from sixteen little-endian bytes.
pub open spec fn groups_from(b: Seq<u8>) -> Seq<u16> {
    Seq::new(8, |i: int| u16_from_le(b.subrange(2 * i, 2 * i + 2)))
}

pub proof fn lemma_groups_roundtrip(gs: Seq<u16>)
    requires
        gs.len() == 8,
    ensures
        groups_from(groups_le(gs)) == gs,
{
    assert forall|i: int| 0 <= i < 8 implies groups_from(groups_le(gs))[i] == gs[i] by {
        lemma_groups_le_index(gs, i);
        lemma_u16_le_roundtrip(gs[i]);
    }
    assert(groups_from(groups_le(gs)) =~= gs);
}

/// Length-prefixed UTF-8 encoding of a text field.
pub open spec fn enc_str(s: Seq<char>) -> Seq<u8> {
    u64_le(encode_utf8(s).len() as u64) + encode_utf8(s)
}

/// Presence-byte encoding of an optional IPv4 address.
pub open spec fn enc_v4(a: Option<V4Addr>) -> Seq<u8> {
    match a {
        None => seq![0u8],
        Some(x) => seq![1u8, x.a, x.b, x.c, x.d],
    }
}

/// Presence-byte encoding of an optional IPv6 address.
pub open spec fn enc_v6(a: Option<Seq<u16>>) -> Seq<u8> {
    match a {
        None => seq![0u8],
        Some(gs) => seq![1u8] + groups_le(gs),
    }
}

/// The full encoding of a record: six tagged fields in a fixed order.
/// (Concatenation is grouped to the right, so each parsing step peels the
/// left-most part off directly.)
pub open spec fn spec_encode(v: DomainV) -> Seq<u8> {
    seq![1u8] + (enc_str(v.name) + (seq![2u8] + (enc_str(v.token) + (seq![3u8] + (u64_le(
        v.lastupdate,
    ) + (seq![4u8] + (u64_le(v.valid_until) + (seq![5u8] + (enc_v4(v.ipv4) + (seq![6u8] + enc_v6(
        v.ipv6,
    )))))))))))
}

/// Consumes the expected tag byte.
#[verifier::opaque]
pub open spec fn parse_tag(b: Seq<u8>, t: u8) -> Option<Seq<u8>> {
    if b.len() >= 1 && b[0] == t {
        Some(b.drop_first())
    } else {
        None
    }
}

/// Consumes eight bytes as a little-endian integer.
#[verifier::opaque]
pub open spec fn parse_u64(b: Seq<u8>) -> Option<(u64, Seq<u8>)> {
    if b.len() >= 8 {
        Some((u64_from_le(b.take(8)), b.skip(8)))
    } else {
        None
    }
}

/// Consumes a length-prefixed UTF-8 text field.
#[verifier::opaque]
pub open spec fn parse_str(b: Seq<u8>) -> Option<(Seq<char>, Seq<u8>)> {
    match parse_u64(b) {
        None => None,
        Some((n, rest)) => if rest.len() >= n as int {
            let chunk = rest.take(n as int);
            if valid_utf8(chunk) {
                Some((decode_utf8(chunk), rest.skip(n as int)))
            } else {
                None
            }
        } else {
            None
        },
    }
}

/// Consumes an optional IPv4 address behind its presence byte.
#[verifier::opaque]
pub open spec fn parse_v4(b: Seq<u8>) -> Option<(Option<V4Addr>, Seq<u8>)> {
    if b.len() < 1 {
        None
    } else if b[0] == 0 {
        Some((None, b.drop_first()))
    } else if b[0] == 1 {
        let r = b.drop_first();
        if r.len() >= 4 {
            Some((Some(V4Addr { a: r[0], b: r[1], c: r[2], d: r[3] }), r.skip(4)))
        } else {
            None
        }
    } else {
        None
    }
}

/// Consumes an optional IPv6 address behind its presence byte.
#[verifier::opaque]
pub open spec fn parse_v6(b: Seq<u8>) -> Option<(Option<Seq<u16>>, Seq<u8>)> {
    if b.len() < 1 {
        None
    } else if b[0] == 0 {
        Some((None, b.drop_first()))
    } else if b[0] == 1 {
        let r = b.drop_first();
        if r.len() >= 16 {
            Some((Some(groups_from(r.take(16))), r.skip(16)))
        } else {
            None
        }
    } else {
        None
    }
}

/// The full decoding of a record: the six tagged fields in order, with no
/// trailing bytes.
pub open spec fn spec_decode(b: Seq<u8>) -> Option<DomainV> {
    match parse_tag(b, 1u8) {
        None => None,
        Some(b1) => match parse_str(b1) {
            None => None,
            Some((name, b2)) => match parse_tag(b2, 2u8) {
                None => None,
                Some(b3) => match parse_str(b3) {
                    None => None,
                    Some((token, b4)) => match parse_tag(b4, 3u8) {
                        None => None,
                        Some(b5) => match parse_u64(b5) {
                            None => None,
                            Some((lastupdate, b6)) => match parse_tag(b6, 4u8) {
                                None => None,
                                Some(b7) => match parse_u64(b7) {
                                    None => None,
                                    Some((valid_until, b8)) => match parse_tag(b8, 5u8) {
                                        None => None,
                                        Some(b9) => match parse_v4(b9) {
                                            None => None,
                                            Some((ipv4, b10)) => match parse_tag(b10, 6u8) {
                                                None => None,
                                                Some(b11) => match parse_v6(b11) {
                                                    None => None,
                                                    Some((ipv6, b12)) => if b12.len() == 0 {
                                                        Some(
                                                            DomainV {
                                                                name,
                                                                token,
                                                                lastupdate,
                                                                valid_until,
                                                                ipv4,
                                                                ipv6,
                                                            },
                                                        )
                                                    } else {
                                                        None
                                                    },
                                                },
                                            },
                                        },
                                    },
                                },
                            },
                        },
                    },
                },
            },
        },
    }
}

proof fn lemma_parse_tag_enc(t: u8, rest: Seq<u8>)
    ensures
        parse_tag(seq![t] + rest, t) == Some(rest),
{
    reveal(parse_tag);
    let b = seq![t] + rest;
    assert(b[0] == t);
    assert(b.drop_first() =~= rest);
}

proof fn lemma_parse_u64_enc(x: u64, rest: Seq<u8>)
    ensures
        parse_u64(u64_le(x) + rest) == Some((x, rest)),
{
    reveal(parse_u64);
    let b = u64_le(x) + rest;
    assert(b.take(8) =~= u64_le(x));
    assert(b.skip(8) =~= rest);
    lemma_u64_le_roundtrip(x);
}

proof fn lemma_parse_str_enc(s: Seq<char>, rest: Seq<u8>)
    requires
        encode_utf8(s).len() < 0x1_0000_0000_0000_0000,
    ensures
        parse_str(enc_str(s) + rest) == Some((s, rest)),
{
    reveal(parse_str);
    let bytes = encode_utf8(s);
    let n = bytes.len() as u64;
    assert(enc_str(s) + rest =~= u64_le(n) + (bytes + rest));
    lemma_parse_u64_enc(n, bytes + rest);
    assert(n as int == bytes.len());
    assert((bytes + rest).take(n as int) =~= bytes);
    vstd::utf8::encode_utf8_valid_utf8(s);
    vstd::utf8::encode_utf8_decode_utf8(s);
    assert((bytes + rest).skip(n as int) =~= rest);
}

proof fn lemma_parse_v4_enc(a: Option<V4Addr>, rest: Seq<u8>)
    ensures
        parse_v4(enc_v4(a) + rest) == Some((a, rest)),
{
    reveal(parse_v4);
    match a {
        None => {
            let b = enc_v4(a) + rest;
            assert(b[0] == 0);
            assert(b.drop_first() =~= rest);
        },
        Some(x) => {
            let b = enc_v4(a) + rest;
            assert(b[0] == 1);
            let r = b.drop_first();
            assert(r =~= seq![x.a, x.b, x.c, x.d] + rest);
            assert(r[0] == x.a && r[1] == x.b && r[2] == x.c && r[3] == x.d);
            assert(r.skip(4) =~= rest);
            assert(V4Addr { a: r[0], b: r[1], c: r[2], d: r[3] } == x);
        },
    }
}

proof fn lemma_parse_v6_enc(a: Option<Seq<u16>>, rest: Seq<u8>)
    requires
        a matches Some(gs) ==> gs.len() == 8,
    ensures
        parse_v6(enc_v6(a) + rest) == Some((a, rest)),
{
    reveal(parse_v6);
    match a {
        None => {
            let b = enc_v6(a) + rest;
            assert(b[0] == 0);
            assert(b.drop_first() =~= rest);
        },
        Some(gs) => {
            let b = enc_v6(a) + rest;
            lemma_groups_le_len(gs);
            assert(b[0] == 1);
            let r = b.drop_first();
            assert(r =~= groups_le(gs) + rest);
            assert(r.take(16) =~= groups_le(gs));
            assert(r.skip(16) =~= rest);
            lemma_groups_roundtrip(gs);
        },
    }
}

/// Decoding an encoded record yields the record back: every field makes
/// the round trip, present or absent.
#[verifier::rlimit(100)]
pub proof fn lemma_codec_roundtrip(v: DomainV)
    requires
        v.wf(),
    ensures
        spec_decode(spec_encode(v)) == Some(v),
{
    let e = spec_encode(v);
    let r11 = enc_v6(v.ipv6);
    let r10 = seq![6u8] + r11;
    let r9 = enc_v4(v.ipv4) + r10;
    let r8 = seq![5u8] + r9;
    let r7 = u64_le(v.valid_until) + r8;
    let r6 = seq![4u8] + r7;
    let r5 = u64_le(v.lastupdate) + r6;
    let r4 = seq![3u8] + r5;
    let r3 = enc_str(v.token) + r4;
    let r2 = seq![2u8] + r3;
    let r1 = enc_str(v.name) + r2;
    assert(parse_tag(e, 1u8) == Some(r1)) by {
        lemma_parse_tag_enc(1u8, r1);
    }
    assert(parse_str(r1) == Some((v.name, r2))) by {
        lemma_parse_str_enc(v.name, r2);
    }
    assert(parse_tag(r2, 2u8) == Some(r3)) by {
        lemma_parse_tag_enc(2u8, r3);
    }
    assert(parse_str(r3) == Some((v.token, r4))) by {
        lemma_parse_str_enc(v.token, r4);
    }
    assert(parse_tag(r4, 3u8) == Some(r5)) by {
        lemma_parse_tag_enc(3u8, r5);
    }
    assert(parse_u64(r5) == Some((v.lastupdate, r6))) by {
        lemma_parse_u64_enc(v.lastupdate, r6);
    }
    assert(parse_tag(r6, 4u8) == Some(r7)) by {
        lemma_parse_tag_enc(4u8, r7);
    }
    assert(parse_u64(r7) == Some((v.valid_until, r8))) by {
        lemma_parse_u64_enc(v.valid_until, r8);
    }
    assert(parse_tag(r8, 5u8) == Some(r9)) by {
        lemma_parse_tag_enc(5u8, r9);
    }
    assert(parse_v4(r9) == Some((v.ipv4, r10))) by {
        lemma_parse_v4_enc(v.ipv4, r10);
    }
    assert(parse_tag(r10, 6u8) == Some(r11)) by {
        lemma_parse_tag_enc(6u8, r11);
    }
    assert(parse_v6(r11) matches Some(p) && p.0 == v.ipv6 && p.1.len() == 0) by {
        lemma_parse_v6_enc(v.ipv6, Seq::<u8>::empty());
        assert(r11 =~= enc_v6(v.ipv6) + Seq::<u8>::empty());
    }
    assert(spec_decode(e) matches Some(w) && w =~= v);
}

/// Appends the little-endian bytes of a 16-bit integer.
fn push_u16_le(out: &mut Vec<u8>, x: u16)
    ensures
        final (out)@ == old(out)@ + u16_le(x),
{
    out.push((x & 0xff) as u8);
    out.push(((x >> 8) & 0xff) as u8);
    proof {
        assert(out@ =~= old(out)@ + u16_le(x));
    }
}

/// Appends the little-endian bytes of a 64-bit integer.
fn push_u64_le(out: &mut Vec<u8>, x: u64)
    ensures
        final (out)@ == old(out)@ + u64_le(x),
{
    out.push((x & 0xff) as u8);
    out.push(((x >> 8) & 0xff) as u8);
    out.push(((x >> 16) & 0xff) as u8);
    out.push(((x >> 24) & 0xff) as u8);
    out.push(((x >> 32) & 0xff) as u8);
    out.push(((x >> 40) & 0xff) as u8);
    out.push(((x >> 48) & 0xff) as u8);
    out.push(((x >> 56) & 0xff) as u8);
    proof {
        assert(out@ =~= old(out)@ + u64_le(x));
    }
}

/// Appends a length-prefixed UTF-8 text field.
fn push_str_field(out: &mut Vec<u8>, s: &String)
    ensures
        final (out)@ == old(out)@ + enc_str(s@),
{
    let mut bytes = s.as_str().as_bytes_vec();
    let n = bytes.len() as u64;
    push_u64_le(out, n);
    out.append(&mut bytes);
    proof {
        assert(out@ =~= old(out)@ + enc_str(s@));
    }
}

/// Encodes a record.
#[verifier::rlimit(60)]
pub fn encode_record(d: &Domain) -> (r: Vec<u8>)
    ensures
        r@ == spec_encode(d@),
{
    let mut out: Vec<u8> = Vec::new();
    out.push(1u8);
    push_str_field(&mut out, &d.domainname);
    out.push(2u8);
    push_str_field(&mut out, &d.token);
    out.push(3u8);
    push_u64_le(&mut out, d.lastupdate);
    out.push(4u8);
    push_u64_le(&mut out, d.valid_until);
    out.push(5u8);
    match &d.ipv4 {
        None => out.push(0u8),
        Some(x) => {
            out.push(1u8);
            out.push(x.a);
            out.push(x.b);
            out.push(x.c);
            out.push(x.d);
        },
    }
    out.push(6u8);
    match &d.ipv6 {
        None => {
            out.push(0u8);
            proof {
                assert(out@ =~= spec_encode(d@));
            }
        },
        Some(x) => {
            out.push(1u8);
            let ghost base = out@;
            let n = x.groups.len();
            let mut i: usize = 0;
            while i < n
                invariant
                    i <= n,
                    n == x.groups@.len(),
                    out@ == base + groups_le(x.groups@.take(i as int)),
                decreases n - i,
            {
                push_u16_le(&mut out, x.groups[i]);
                proof {
                    assert(x.groups@.take(i + 1) =~= x.groups@.take(i as int).push(
                        x.groups@[i as int],
                    ));
                    lemma_groups_le_push(x.groups@.take(i as int), x.groups@[i as int]);
                }
                i = i + 1;
            }
            proof {
                assert(x.groups@.take(n as int) =~= x.groups@);
                assert(out@ =~= spec_encode(d@));
            }
        },
    }
    out
}

/// Relies on String::from_utf8: returns the string decoded from the given
/// bytes exactly when they are valid UTF-8, and reports invalid bytes.
#[verifier::external_body]
fn string_from_utf8(v: Vec<u8>) -> (r: Option<String>)
    ensures
        match r {
            Some(s) => valid_utf8(v@) && s@ == decode_utf8(v@),
            None => !valid_utf8(v@),
        },
{
    String::from_utf8(v).ok()
}

/// A fresh copy of the byte range `[pos, pos + n)`.
fn copy_range(b: &Vec<u8>, pos: usize, n: usize) -> (r: Vec<u8>)
    requires
        pos + n <= b@.len(),
    ensures
        r@ == b@.subrange(pos as int, pos as int + n as int),
{
    let blen: usize = b.len();
    let mut out: Vec<u8> = Vec::new();
    let mut i: usize = 0;
    while i < n
        invariant
            i <= n,
            pos + n <= b@.len(),
            b@.len() == blen,
            out@ == b@.subrange(pos as int, pos as int + i as int),
        decreases n - i,
    {
        out.push(b[pos + i]);
        proof {
            assert(out@ =~= b@.subrange(pos as int, pos as int + i + 1));
        }
        i = i + 1;
    }
    out
}

/// Reads the little-endian 16-bit integer at `pos`.
fn read_u16_le(b: &Vec<u8>, pos: usize) -> (r: u16)
    requires
        pos + 2 <= b@.len(),
    ensures
        r == u16_from_le(b@.subrange(pos as int, pos as int + 2)),
{
    let _blen: usize = b.len();
    let r = (b[pos] as u16) | ((b[pos + 1] as u16) << 8);
    proof {
        let s = b@.subrange(pos as int, pos as int + 2);
        assert(s[0] == b@[pos as int] && s[1] == b@[pos as int + 1]);
    }
    r
}

/// Reads the little-endian 64-bit integer at `pos`.
fn read_u64_le(b: &Vec<u8>, pos: usize) -> (r: u64)
    requires
        pos + 8 <= b@.len(),
    ensures
        r == u64_from_le(b@.subrange(pos as int, pos as int + 8)),
{
    let _blen: usize = b.len();
    let r = (b[pos] as u64) | ((b[pos + 1] as u64) << 8) | ((b[pos + 2] as u64) << 16) | ((b[pos
        + 3] as u64) << 24) | ((b[pos + 4] as u64) << 32) | ((b[pos + 5] as u64) << 40) | ((b[pos
        + 6] as u64) << 48) | ((b[pos + 7] as u64) << 56);
    proof {
        let s = b@.subrange(pos as int, pos as int + 8);
        assert(s[0] == b@[pos as int] && s[1] == b@[pos as int + 1] && s[2] == b@[pos as int + 2]
            && s[3] == b@[pos as int + 3] && s[4] == b@[pos as int + 4] && s[5] == b@[pos as int
            + 5] && s[6] == b@[pos as int + 6] && s[7] == b@[pos as int + 7]);
    }
    r
}

/// Consumes the expected tag byte at `pos`.
fn take_tag(b: &Vec<u8>, pos: usize, t: u8) -> (r: Option<usize>)
    requires
        pos <= b@.len(),
    ensures
        match r {
            Some(p2) => p2 <= b@.len() && parse_tag(b@.skip(pos as int), t) == Some(
                b@.skip(p2 as int),
            ),
            None => parse_tag(b@.skip(pos as int), t) is None,
        },
{
    proof {
        reveal(parse_tag);
    }
    if pos < b.len() && b[pos] == t {
        proof {
            assert(b@.skip(pos as int)[0] == b@[pos as int]);
            assert(b@.skip(pos as int).drop_first() =~= b@.skip(pos as int + 1));
        }
        Some(pos + 1)
    } else {
        None
    }
}

/// Consumes eight little-endian bytes at `pos`.
fn take_u64(b: &Vec<u8>, pos: usize) -> (r: Option<(u64, usize)>)
    requires
        pos <= b@.len(),
    ensures
        match r {
            Some(p2) => p2.1 <= b@.len() && parse_u64(b@.skip(pos as int)) == Some(
                (p2.0, b@.skip(p2.1 as int)),
            ),
            None => parse_u64(b@.skip(pos as int)) is None,
        },
{
    proof {
        reveal(parse_u64);
    }
    if b.len() - pos >= 8 {
        let x = read_u64_le(b, pos);
        proof {
            assert(b@.skip(pos as int).take(8) =~= b@.subrange(pos as int, pos as int + 8));
            assert(b@.skip(pos as int).skip(8) =~= b@.skip(pos as int + 8));
        }
        Some((x, pos + 8))
    } else {
        None
    }
}

/// Consumes a length-prefixed UTF-8 text field at `pos`.
fn take_str(b: &Vec<u8>, pos: usize) -> (r: Option<(String, usize)>)
    requires
        pos <= b@.len(),
    ensures
        match r {
            Some(p2) => p2.1 <= b@.len() && parse_str(b@.skip(pos as int)) == Some(
                (p2.0@, b@.skip(p2.1 as int)),
            ) && encode_utf8(p2.0@).len() < 0x1_0000_0000_0000_0000,
            None => parse_str(b@.skip(pos as int)) is None,
        },
{
    proof {
        reveal(parse_str);
    }
    match take_u64(b, pos) {
        None => None,
        Some((n, p1)) => {
            if n > (b.len() - p1) as u64 {
                proof {
                    assert(b@.skip(p1 as int).len() < n as int);
                }
                None
            } else {
                let len = n as usize;
                let chunk = copy_range(b, p1, len);
                proof {
                    assert(chunk@ =~= b@.skip(p1 as int).take(n as int));
                }
                match string_from_utf8(chunk) {
                    None => None,
                    Some(s) => {
                        proof {
                            vstd::utf8::decode_utf8_encode_utf8(
                                b@.skip(p1 as int).take(n as int),
                            );
                            assert(b@.skip(p1 as int).skip(n as int) =~= b@.skip(
                                p1 as int + n as int,
                            ));
                        }
                        Some((s, p1 + len))
                    },
                }
            }
        },
    }
}

/// Consumes an optional IPv4 address at `pos`.
fn take_v4(b: &Vec<u8>, pos: usize) -> (r: Option<(Option<V4Addr>, usize)>)
    requires
        pos <= b@.len(),
    ensures
        match r {
            Some(p2) => p2.1 <= b@.len() && parse_v4(b@.skip(pos as int)) == Some(
                (p2.0, b@.skip(p2.1 as int)),
            ),
            None => parse_v4(b@.skip(pos as int)) is None,
        },
{
    proof {
        reveal(parse_v4);
    }
    if pos >= b.len() {
        return None;
    }
    let flag = b[pos];
    proof {
        assert(b@.skip(pos as int)[0] == b@[pos as int]);
        assert(b@.skip(pos as int).drop_first() =~= b@.skip(pos as int + 1));
    }
    if flag == 0 {
        Some((None, pos + 1))
    } else if flag == 1 {
        if b.len() - (pos + 1) >= 4 {
            let x = V4Addr { a: b[pos + 1], b: b[pos + 2], c: b[pos + 3], d: b[pos + 4] };
            proof {
                let r = b@.skip(pos as int + 1);
                assert(r[0] == b@[pos as int + 1] && r[1] == b@[pos as int + 2] && r[2] == b@[
                    pos as int + 3] && r[3] == b@[pos as int + 4]);
                assert(r.skip(4) =~= b@.skip(pos as int + 5));
            }
            Some((Some(x), pos + 5))
        } else {
            None
        }
    } else {
        None
    }
}

/// Consumes an optional IPv6 address at `pos`.
fn take_v6(b: &Vec<u8>, pos: usize) -> (r: Option<(Option<V6Addr>, usize)>)
    requires
        pos <= b@.len(),
    ensures
        match r {
            Some(p2) => p2.1 <= b@.len() && parse_v6(b@.skip(pos as int)) == Some(
                (
                    match p2.0 {
                        Some(a) => Some(a@),
                        None => None,
                    },
                    b@.skip(p2.1 as int),
                ),
            ) && (p2.0 matches Some(a) ==> a.wf()),
            None => parse_v6(b@.skip(pos as int)) is None,
        },
{
    proof {
        reveal(parse_v6);
    }
    if pos >= b.len() {
        return None;
    }
    let flag = b[pos];
    proof {
        assert(b@.skip(pos as int)[0] == b@[pos as int]);
        assert(b@.skip(pos as int).drop_first() =~= b@.skip(pos as int + 1));
    }
    if flag == 0 {
        Some((None, pos + 1))
    } else if flag == 1 {
        if b.len() - (pos + 1) >= 16 {
            let mut groups: Vec<u16> = Vec::new();
            let mut j: usize = 0;
            while j < 8
                invariant
                    j <= 8,
                    pos as int + 17 <= b@.len(),
                    b@.len() <= usize::MAX,
                    groups@.len() == j,
                    forall|t: int|
                        0 <= t < j ==> groups@[t] == u16_from_le(
                            #[trigger] b@.subrange(
                                pos as int + 1 + 2 * t,
                                pos as int + 1 + 2 * t + 2,
                            ),
                        ),
                decreases 8 - j,
            {
                let g = read_u16_le(b, pos + 1 + 2 * j);
                groups.push(g);
                j = j + 1;
            }
            let x = V6Addr { groups };
            proof {
                let chunk = b@.skip(pos as int + 1).take(16);
                assert forall|t: int| 0 <= t < 8 implies groups_from(chunk)[t] == x@[t] by {
                    assert(chunk.subrange(2 * t, 2 * t + 2) =~= b@.subrange(
                        pos as int + 1 + 2 * t,
                        pos as int + 1 + 2 * t + 2,
                    ));
                }
                assert(x@ =~= groups_from(chunk));
                assert(b@.skip(pos as int + 1).skip(16) =~= b@.skip(pos as int + 17));
            }
            Some((Some(x), pos + 17))
        } else {
            None
        }
    } else {
        None
    }
}

/// Decodes a record; reports `None` on any malformed input.
pub fn decode_record(buf: &Vec<u8>) -> (r: Option<Domain>)
    ensures
        match r {
            Some(d) => spec_decode(buf@) == Some(d@) && d.wf(),
            None => spec_decode(buf@) is None,
        },
{
    proof {
        assert(buf@.skip(0) =~= buf@);
    }
    let p1 = match take_tag(buf, 0, 1u8) {
        Some(p) => p,
        None => {
            return None;
        },
    };
    let (name, p2) = match take_str(buf, p1) {
        Some(x) => x,
        None => {
            return None;
        },
    };
    let p3 = match take_tag(buf, p2, 2u8) {
        Some(p) => p,
        None => {
            return None;
        },
    };
    let (token, p4) = match take_str(buf, p3) {
        Some(x) => x,
        None => {
            return None;
        },
    };
    let p5 = match take_tag(buf, p4, 3u8) {
        Some(p) => p,
        None => {
            return None;
        },
    };
    let (lastupdate, p6) = match take_u64(buf, p5) {
        Some(x) => x,
        None => {
            return None;
        },
    };
    let p7 = match take_tag(buf, p6, 4u8) {
        Some(p) => p,
        None => {
            return None;
        },
    };
    let (valid_until, p8) = match take_u64(buf, p7) {
        Some(x) => x,
        None => {
            return None;
        },
    };
    let p9 = match take_tag(buf, p8, 5u8) {
        Some(p) => p,
        None => {
            return None;
        },
    };
    let (ipv4, p10) = match take_v4(buf, p9) {
        Some(x) => x,
        None => {
            return None;
        },
    };
    let p11 = match take_tag(buf, p10, 6u8) {
        Some(p) => p,
        None => {
            return None;
        },
    };
    let (ipv6, p12) = match take_v6(buf, p11) {
        Some(x) => x,
        None => {
            return None;
        },
    };
    if p12 != buf.len() {
        proof {
            assert(buf@.skip(p12 as int).len() != 0);
        }
        return None;
    }
    let d = Domain { domainname: name, token, lastupdate, valid_until, ipv4, ipv6 };
    proof {
        assert(buf@.skip(p12 as int).len() == 0);
        assert(spec_decode(buf@) matches Some(w) && w =~= d@);
    }
    Some(d)
}

} // verus!
