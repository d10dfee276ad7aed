//! The read-side lookup responder.
//!
//! Answers A/AAAA/ANY queries from the record store and synthesizes SOA
//! records for configured suffixes.  An unknown name is an empty result,
//! not an error; only a corrupt stored record surfaces as a failure.

use crate::addr::{v4_text, v4_to_string, v6_text, v6_to_string};
use crate::config::{policy_labels, Config};
use crate::codec::spec_decode;
use crate::db::{Database, DomainV};
use crate::domain::Dname;
use crate::ffdyndns::Error;
use crate::kv::KvEngine;
use crate::text::{dec_str, push_dec_u64};
use vstd::prelude::*;

verus! {

/// SOA refresh interval, in seconds.
pub const DNS_REFRESH: u64 = 10;

/// SOA retry interval, in seconds.
pub const DNS_RETRY: u64 = 5;

/// SOA expire horizon, in seconds.
pub const DNS_EXPIRE: u64 = 60;

/// SOA minimum, also used as the TTL of every returned record: records
/// may change often, so the TTL stays on the scale of seconds.
pub const DNS_MINIMUM: u64 = 5;

/// A query type.
#[derive(Clone, Copy, PartialEq, Eq, Structural, Debug)]
pub enum QType {
    A,
    AAAA,
    ANY,
    SOA,
}

/// Lower-case counterpart of the letters appearing in query-type names.
pub open spec fn qtype_lower(u: char) -> char {
    if u == 'A' {
        'a'
    } else if u == 'N' {
        'n'
    } else if u == 'Y' {
        'y'
    } else if u == 'S' {
        's'
    } else if u == 'O' {
        'o'
    } else {
        u
    }
}

/// Case-insensitive match of a query string against an upper-case name.
pub open spec fn qtype_eqi(s: Seq<char>, t: Seq<char>) -> bool {
    s.len() == t.len() && forall|i: int|
        0 <= i < s.len() ==> ((#[trigger] s[i]) == t[i] || s[i] == qtype_lower(t[i]))
}

/// The query type a string names, case-insensitively.
pub open spec fn qtype_of(s: Seq<char>) -> Option<QType> {
    if qtype_eqi(s, "A"@) {
        Some(QType::A)
    } else if qtype_eqi(s, "AAAA"@) {
        Some(QType::AAAA)
    } else if qtype_eqi(s, "ANY"@) {
        Some(QType::ANY)
    } else if qtype_eqi(s, "SOA"@) {
        Some(QType::SOA)
    } else {
        None
    }
}

impl QType {
    /// Parses a query type name, ignoring ASCII case.
    pub fn from_str(a: &str) -> (r: Result<QType, String>)
        ensures
            match r {
                Ok(q) => qtype_of(a@) == Some(q),
                Err(_) => qtype_of(a@) is None,
            },
    {
        proof {
            reveal_strlit("A");
            reveal_strlit("AAAA");
            reveal_strlit("ANY");
            reveal_strlit("SOA");
        }
        let n = a.unicode_len();
        if n == 1 {
            let c0 = a.get_char(0);
            if c0 == 'A' || c0 == 'a' {
                return Ok(QType::A);
            }
        } else if n == 3 {
            let c0 = a.get_char(0);
            let c1 = a.get_char(1);
            let c2 = a.get_char(2);
            if (c0 == 'A' || c0 == 'a') && (c1 == 'N' || c1 == 'n') && (c2 == 'Y' || c2 == 'y') {
                return Ok(QType::ANY);
            }
            if (c0 == 'S' || c0 == 's') && (c1 == 'O' || c1 == 'o') && (c2 == 'A' || c2 == 'a') {
                return Ok(QType::SOA);
            }
        } else if n == 4 {
            let c0 = a.get_char(0);
            let c1 = a.get_char(1);
            let c2 = a.get_char(2);
            let c3 = a.get_char(3);
            if (c0 == 'A' || c0 == 'a') && (c1 == 'A' || c1 == 'a') && (c2 == 'A' || c2 == 'a') && (
            c3 == 'A' || c3 == 'a') {
                return Ok(QType::AAAA);
            }
        }
        Err("unsupported qtype".to_owned())
    }
}

/// One synthesized answer record.
#[derive(Debug)]
pub struct DnsRecord {
    pub qtype: QType,
    pub qname: String,
    pub content: String,
    pub ttl: u64,
}

/// The spec-level value of an answer record.
#[verifier::ext_equal]
pub struct RecV {
    pub qtype: QType,
    pub qname: Seq<char>,
    pub content: Seq<char>,
    pub ttl: u64,
}

impl View for DnsRecord {
    type V = RecV;

    open spec fn view(&self) -> RecV {
        RecV { qtype: self.qtype, qname: self.qname@, content: self.content@, ttl: self.ttl }
    }
}

/// An answer: zero or more records.
#[derive(Debug)]
pub struct DnsResponse {
    pub result: Vec<DnsRecord>,
}

impl View for DnsResponse {
    type V = Seq<RecV>;

    open spec fn view(&self) -> Seq<RecV> {
        Seq::new(self.result@.len(), |i: int| self.result@[i]@)
    }
}

impl DnsResponse {
    /// The empty answer.
    pub fn empty() -> (r: DnsResponse)
        ensures
            r@ == Seq::<RecV>::empty(),
    {
        let r = DnsResponse { result: Vec::new() };
        proof {
            assert(r@ =~= Seq::<RecV>::empty());
        }
        r
    }
}

/// The A records a stored record answers with: one when an IPv4 address
/// is stored, none otherwise.
pub open spec fn a_records(v: DomainV, qname: Seq<char>) -> Seq<RecV> {
    match v.ipv4 {
        None => seq![],
        Some(a) => seq![
            RecV { qtype: QType::A, qname, content: v4_text(a), ttl: DNS_MINIMUM },
        ],
    }
}

/// The AAAA records a stored record answers with.
pub open spec fn aaaa_records(v: DomainV, qname: Seq<char>) -> Seq<RecV> {
    match v.ipv6 {
        None => seq![],
        Some(g) => seq![
            RecV { qtype: QType::AAAA, qname, content: v6_text(g), ttl: DNS_MINIMUM },
        ],
    }
}

/// An ANY answer: the union of the present A and AAAA records.
pub open spec fn any_records(v: DomainV, qname: Seq<char>) -> Seq<RecV> {
    a_records(v, qname) + aaaa_records(v, qname)
}

/// Answers an A query: one record when the name is known and stores an
/// IPv4 address, the empty answer when the name is unknown or stores
/// none, and a corruption error only for an undecodable stored record.
pub fn lookup_a<E: KvEngine>(db: &Database<E>, domain: &String) -> (r: Result<DnsResponse, Error>)
    ensures
        match r {
            Ok(resp) => match db.stored(domain@) {
                None => resp@ == Seq::<RecV>::empty(),
                Some(bytes) => spec_decode(bytes) matches Some(v) && resp@ == a_records(v, domain@),
            },
            Err(e) => e is RecordCorrupt && (db.stored(domain@) matches Some(bytes) && spec_decode(
                bytes,
            ) is None),
        },
{
    match db.get_domain(domain) {
        Err(e) => Err(e),
        Ok(None) => Ok(DnsResponse::empty()),
        Ok(Some(d)) => {
            let mut res = DnsResponse::empty();
            match d.ipv4 {
                Some(ip) => {
                    res.result.push(
                        DnsRecord {
                            qtype: QType::A,
                            qname: domain.clone(),
                            content: v4_to_string(&ip),
                            ttl: DNS_MINIMUM,
                        },
                    );
                },
                None => {},
            }
            proof {
                assert(res@ =~= a_records(d@, domain@));
            }
            Ok(res)
        },
    }
}

/// Answers an AAAA query; the IPv6 counterpart of [`lookup_a`].
pub fn lookup_aaaa<E: KvEngine>(db: &Database<E>, domain: &String) -> (r: Result<
    DnsResponse,
    Error,
>)
    ensures
        match r {
            Ok(resp) => match db.stored(domain@) {
                None => resp@ == Seq::<RecV>::empty(),
                Some(bytes) => spec_decode(bytes) matches Some(v) && resp@ == aaaa_records(
                    v,
                    domain@,
                ),
            },
            Err(e) => e is RecordCorrupt && (db.stored(domain@) matches Some(bytes) && spec_decode(
                bytes,
            ) is None),
        },
{
    match db.get_domain(domain) {
        Err(e) => Err(e),
        Ok(None) => Ok(DnsResponse::empty()),
        Ok(Some(d)) => {
            let mut res = DnsResponse::empty();
            match &d.ipv6 {
                Some(ip) => {
                    res.result.push(
                        DnsRecord {
                            qtype: QType::AAAA,
                            qname: domain.clone(),
                            content: v6_to_string(ip),
                            ttl: DNS_MINIMUM,
                        },
                    );
                },
                None => {},
            }
            proof {
                assert(res@ =~= aaaa_records(d@, domain@));
            }
            Ok(res)
        },
    }
}

/// Answers an ANY query: the union of the present A and AAAA records,
/// empty for an unknown name.
pub fn lookup_any<E: KvEngine>(db: &Database<E>, domain: &Dname) -> (r: Result<DnsResponse, Error>)
    ensures
        match r {
            Ok(resp) => match db.stored(domain.text()) {
                None => resp@ == Seq::<RecV>::empty(),
                Some(bytes) => spec_decode(bytes) matches Some(v) && resp@ == any_records(
                    v,
                    domain.text(),
                ),
            },
            Err(e) => e is RecordCorrupt && (db.stored(domain.text()) matches Some(bytes)
                && spec_decode(bytes) is None),
        },
{
    let name = domain.to_string();
    match db.get_domain(&name) {
        Err(e) => Err(e),
        Ok(None) => Ok(DnsResponse::empty()),
        Ok(Some(d)) => {
            let mut res = DnsResponse::empty();
            match d.ipv4 {
                Some(ip) => {
                    res.result.push(
                        DnsRecord {
                            qtype: QType::A,
                            qname: name.clone(),
                            content: v4_to_string(&ip),
                            ttl: DNS_MINIMUM,
                        },
                    );
                },
                None => {},
            }
            match &d.ipv6 {
                Some(ip) => {
                    res.result.push(
                        DnsRecord {
                            qtype: QType::AAAA,
                            qname: name.clone(),
                            content: v6_to_string(ip),
                            ttl: DNS_MINIMUM,
                        },
                    );
                },
                None => {},
            }
            proof {
                assert(res@ =~= any_records(d@, domain.text()));
            }
            Ok(res)
        },
    }
}

/// True when the queried name falls under the policy's suffix (the suffix
/// itself included).
pub open spec fn soa_match(p: crate::config::Domain, ls: Seq<Seq<char>>) -> bool {
    p.name@.len() > 0 && policy_labels(p).is_suffix_of(ls)
}

/// The content of a synthesized SOA record: authority, contact, serial,
/// and the fixed refresh/retry/expire/minimum policy constants.
pub open spec fn soa_content(master: Seq<char>, rname: Seq<char>, serial: u64) -> Seq<char> {
    master + ". "@ + rname + ". "@ + dec_str(serial as nat) + " "@ + dec_str(DNS_REFRESH as nat)
        + " "@ + dec_str(DNS_RETRY as nat) + " "@ + dec_str(DNS_EXPIRE as nat) + " "@ + dec_str(
        DNS_MINIMUM as nat,
    )
}

fn soa_content_string(config: &Config, serial: u64) -> (r: String)
    ensures
        r@ == soa_content(config.dns.master@, config.dns.rname@, serial),
{
    let mut out = String::new();
    out.append(config.dns.master.as_str());
    out.append(". ");
    out.append(config.dns.rname.as_str());
    out.append(". ");
    push_dec_u64(&mut out, serial);
    out.append(" ");
    push_dec_u64(&mut out, DNS_REFRESH);
    out.append(" ");
    push_dec_u64(&mut out, DNS_RETRY);
    out.append(" ");
    push_dec_u64(&mut out, DNS_EXPIRE);
    out.append(" ");
    push_dec_u64(&mut out, DNS_MINIMUM);
    proof {
        assert(out@ =~= soa_content(config.dns.master@, config.dns.rname@, serial));
    }
    out
}

/// Answers an SOA query: one synthesized record for the first configured
/// suffix the queried name falls under, or the empty answer when none
/// matches.  The serial is the caller's clock reading.
pub fn lookup_soa(config: &Config, domain: &Dname, serial: u64) -> (r: DnsResponse)
    ensures
        (exists|i: int|
            0 <= i < config.domain@.len() && soa_match(#[trigger] config.domain@[i], domain@))
            ==> exists|i: int|
            #![auto]
            0 <= i < config.domain@.len() && soa_match(config.domain@[i], domain@) && (forall|
                j: int,
            |
                0 <= j < i ==> !soa_match(#[trigger] config.domain@[j], domain@)) && r@ == seq![
                RecV {
                    qtype: QType::SOA,
                    qname: config.domain@[i].name@,
                    content: soa_content(config.dns.master@, config.dns.rname@, serial),
                    ttl: DNS_MINIMUM,
                },
            ],
        (forall|i: int|
            0 <= i < config.domain@.len() ==> !soa_match(#[trigger] config.domain@[i], domain@))
            ==> r@ == Seq::<RecV>::empty(),
{
    let n = config.domain.len();
    let mut i: usize = 0;
    while i < n
        invariant
            i <= n,
            n == config.domain@.len(),
            forall|j: int| 0 <= j < i ==> !soa_match(#[trigger] config.domain@[j], domain@),
        decreases n - i,
    {
        let entry = &config.domain[i];
        if !entry.name.as_str().is_empty() {
            let pd = Dname::new(entry.name.clone());
            if domain.ends_with(&pd) {
                let mut res = DnsResponse::empty();
                res.result.push(
                    DnsRecord {
                        qtype: QType::SOA,
                        qname: entry.name.clone(),
                        content: soa_content_string(config, serial),
                        ttl: DNS_MINIMUM,
                    },
                );
                proof {
                    assert(soa_match(config.domain@[i as int], domain@));
                    assert(res@ =~= seq![
                        RecV {
                            qtype: QType::SOA,
                            qname: config.domain@[i as int].name@,
                            content: soa_content(config.dns.master@, config.dns.rname@, serial),
                            ttl: DNS_MINIMUM,
                        },
                    ]);
                }
                return res;
            }
        }
        i = i + 1;
    }
    DnsResponse::empty()
}

} // verus!
