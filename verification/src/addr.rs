//! Plain-value IP addresses and their textual rendering.
//!
//! An IPv4 address is four octets; an IPv6 address is eight 16-bit groups.
//! Rendering follows the shapes the update protocol and the lookup
//! responses carry: dotted decimal for IPv4, colon-separated lower-case
//! hexadecimal groups (without zero compression) for IPv6.

use crate::text::{dec_str, hex_str, push_dec_u64, push_hex_u64};
use vstd::prelude::*;

verus! {

/// An IPv4 address as its four octets.
#[derive(Clone, Copy, PartialEq, Eq, Structural, Debug)]
pub struct V4Addr {
    pub a: u8,
    pub b: u8,
    pub c: u8,
    pub d: u8,
}

/// An IPv6 address as its eight 16-bit groups, most significant first.
#[derive(Clone, Debug)]
pub struct V6Addr {
    pub groups: Vec<u16>,
}

impl View for V6Addr {
    type V = Seq<u16>;

    open spec fn view(&self) -> Seq<u16> {
        self.groups@
    }
}

impl V6Addr {
    /// A well-formed address has exactly eight groups.
    pub open spec fn wf(&self) -> bool {
        self@.len() == 8
    }
}

/// An address of either family.
#[derive(Clone, Debug)]
pub enum IpAddress {
    V4(V4Addr),
    V6(V6Addr),
}

/// The spec-level value of an address.
pub enum IpV {
    V4(V4Addr),
    V6(Seq<u16>),
}

impl View for IpAddress {
    type V = IpV;

    open spec fn view(&self) -> IpV {
        match self {
            IpAddress::V4(a) => IpV::V4(*a),
            IpAddress::V6(a) => IpV::V6(a@),
        }
    }
}

impl IpAddress {
    /// A well-formed address: IPv6 carries its eight groups.
    pub open spec fn wf(&self) -> bool {
        match self {
            IpAddress::V4(_) => true,
            IpAddress::V6(a) => a.wf(),
        }
    }
}

/// Dotted-decimal text of an IPv4 address.
pub open spec fn v4_text(a: V4Addr) -> Seq<char> {
    dec_str(a.a as nat) + seq!['.'] + dec_str(a.b as nat) + seq!['.'] + dec_str(a.c as nat)
        + seq!['.'] + dec_str(a.d as nat)
}

/// Text of the first `i` groups of an IPv6 address, colon-separated.
pub open spec fn v6_text_upto(gs: Seq<u16>, i: int) -> Seq<char>
    decreases i,
{
    if i <= 0 {
        seq![]
    } else if i == 1 {
        hex_str(gs[0] as nat)
    } else {
        v6_text_upto(gs, i - 1) + seq![':'] + hex_str(gs[i - 1] as nat)
    }
}

/// Colon-separated lower-case hexadecimal text of an IPv6 address.
pub open spec fn v6_text(gs: Seq<u16>) -> Seq<char> {
    v6_text_upto(gs, gs.len() as int)
}

/// The text an address renders to, by family.
pub open spec fn addr_text(ip: IpV) -> Seq<char> {
    match ip {
        IpV::V4(a) => v4_text(a),
        IpV::V6(gs) => v6_text(gs),
    }
}

/// The record-class word of an address family: `A` or `AAAA`.
pub open spec fn addr_class_text(ip: IpV) -> Seq<char> {
    match ip {
        IpV::V4(_) => "A"@,
        IpV::V6(_) => "AAAA"@,
    }
}

/// Renders an IPv4 address in dotted decimal.
pub fn v4_to_string(a: &V4Addr) -> (r: String)
    ensures
        r@ == v4_text(*a),
{
    proof {
        reveal_strlit(".");
    }
    let mut out = String::new();
    push_dec_u64(&mut out, a.a as u64);
    out.append(".");
    push_dec_u64(&mut out, a.b as u64);
    out.append(".");
    push_dec_u64(&mut out, a.c as u64);
    out.append(".");
    push_dec_u64(&mut out, a.d as u64);
    proof {
        assert(out@ =~= v4_text(*a));
    }
    out
}

/// Renders an IPv6 address as eight colon-separated hexadecimal groups.
pub fn v6_to_string(a: &V6Addr) -> (r: String)
    ensures
        r@ == v6_text(a@),
{
    proof {
        reveal_strlit(":");
    }
    let mut out = String::new();
    let n = a.groups.len();
    let mut i: usize = 0;
    while i < n
        invariant
            i <= n,
            n == a@.len(),
            out@ == v6_text_upto(a@, i as int),
        decreases n - i,
    {
        proof {
            reveal_strlit(":");
        }
        if i > 0 {
            out.append(":");
        }
        push_hex_u64(&mut out, a.groups[i] as u64);
        proof {
            assert(out@ =~= v6_text_upto(a@, i + 1));
        }
        i = i + 1;
    }
    out
}

/// A fresh copy of an IPv6 address.
pub fn clone_v6(a: &V6Addr) -> (r: V6Addr)
    ensures
        r@ == a@,
{
    let mut groups: Vec<u16> = Vec::new();
    let n = a.groups.len();
    let mut i: usize = 0;
    while i < n
        invariant
            i <= n,
            n == a.groups@.len(),
            groups@ == a.groups@.take(i as int),
        decreases n - i,
    {
        groups.push(a.groups[i]);
        proof {
            assert(groups@ =~= a.groups@.take(i + 1));
        }
        i = i + 1;
    }
    proof {
        assert(a.groups@.take(n as int) =~= a.groups@);
    }
    V6Addr { groups }
}

/// Renders an address of either family.
pub fn addr_to_string(ip: &IpAddress) -> (r: String)
    ensures
        r@ == addr_text(ip@),
{
    match ip {
        IpAddress::V4(a) => v4_to_string(a),
        IpAddress::V6(a) => v6_to_string(a),
    }
}

/// The DNS record class of an address: `A` for IPv4, `AAAA` for IPv6.
pub fn addr_class(ip: &IpAddress) -> (r: String)
    ensures
        r@ == addr_class_text(ip@),
{
    match ip {
        IpAddress::V4(_) => {
            let mut s = String::new();
            s.append("A");
            s
        },
        IpAddress::V6(_) => {
            let mut s = String::new();
            s.append("AAAA");
            s
        },
    }
}

} // verus!
