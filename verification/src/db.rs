//! The record store: domain records persisted in a key-value engine.
//!
//! Each record is stored under the hex SHA-256 digest of its canonical
//! name — a fixed-width key, independent of the name's characters — with
//! the tagged binary encoding of the record as the value.  The store works
//! against any [`KvEngine`] backend and never depends on which one is
//! underneath.

use crate::addr::{V4Addr, V6Addr};
use crate::codec::{decode_record, encode_record, spec_decode, spec_encode};
use crate::domain::Dname;
use crate::ffdyndns::{generate_token, now_unix, Error, Token};
use crate::kv::{lemma_sl_remove, lemma_sl_set, sl_get, sl_remove, sl_set, sl_unique, KvEngine};
use crate::text::is_hex_char;
use crypto::digest::Digest;
use vstd::prelude::*;
use vstd::utf8::encode_utf8;

verus! {

/// The persisted entity for one registered name: the name itself, the
/// bearer token issued at registration, the two timestamps (seconds since
/// the Unix epoch), and the optional stored addresses.
#[derive(Clone, Debug)]
pub struct Domain {
    pub domainname: String,
    pub token: Token,
    pub lastupdate: u64,
    pub valid_until: u64,
    pub ipv4: Option<V4Addr>,
    pub ipv6: Option<V6Addr>,
}

/// The spec-level value of a stored record.
#[verifier::ext_equal]
pub struct DomainV {
    pub name: Seq<char>,
    pub token: Seq<char>,
    pub lastupdate: u64,
    pub valid_until: u64,
    pub ipv4: Option<V4Addr>,
    pub ipv6: Option<Seq<u16>>,
}

impl DomainV {
    /// Record values the store can hold: text fields whose byte encoding
    /// fits a 64-bit length, and eight groups in a present IPv6 address.
    pub open spec fn wf(self) -> bool {
        &&& encode_utf8(self.name).len() < 0x1_0000_0000_0000_0000
        &&& encode_utf8(self.token).len() < 0x1_0000_0000_0000_0000
        &&& match self.ipv6 {
            Some(g) => g.len() == 8,
            None => true,
        }
    }
}

impl View for Domain {
    type V = DomainV;

    open spec fn view(&self) -> DomainV {
        DomainV {
            name: self.domainname@,
            token: self.token@,
            lastupdate: self.lastupdate,
            valid_until: self.valid_until,
            ipv4: self.ipv4,
            ipv6: match self.ipv6 {
                Some(a) => Some(a@),
                None => None,
            },
        }
    }
}

impl Domain {
    /// See [`DomainV::wf`].
    pub open spec fn wf(&self) -> bool {
        self@.wf()
    }
}

/// Saturating addition on 64-bit timestamps.
pub open spec fn sat_add_u64(a: u64, b: u64) -> u64 {
    if a + b <= u64::MAX {
        (a + b) as u64
    } else {
        u64::MAX
    }
}

/// Saturating addition, executable.
pub fn sat_add(a: u64, b: u64) -> (r: u64)
    ensures
        r == sat_add_u64(a, b),
{
    if b <= u64::MAX - a {
        a + b
    } else {
        u64::MAX
    }
}

/// The byte length of a string's UTF-8 encoding.
fn utf8_len(s: &String) -> (n: usize)
    ensures
        n == encode_utf8(s@).len(),
{
    let b = s.as_str().as_bytes_vec();
    b.len()
}

impl Domain {
    /// A record created at `now` with the given token, expiring
    /// `validity_secs` later, with no addresses yet.
    pub fn new_with_token(domain: &Dname, token: Token, validity_secs: u64, now: u64) -> (r: Domain)
        ensures
            r@.name == domain.text(),
            r@.token == token@,
            r@.lastupdate == now,
            r@.valid_until == sat_add_u64(now, validity_secs),
            r@.ipv4 is None,
            r@.ipv6 is None,
            r.wf(),
    {
        let domainname = domain.to_string();
        let _nb: usize = utf8_len(&domainname);
        let _tb: usize = utf8_len(&token);
        Domain { domainname, token, lastupdate: now, valid_until: sat_add(now, validity_secs), ipv4: None, ipv6: None }
    }

    /// A record for the given name with a freshly generated random token,
    /// created at the current wall-clock time.
    pub fn new(domain: String, validity_secs: u64) -> (r: Domain)
        ensures
            r@.name == domain@,
            r@.token.len() == 16,
            forall|i: int| 0 <= i < r@.token.len() ==> is_hex_char(#[trigger] r@.token[i]),
            r@.valid_until == sat_add_u64(r@.lastupdate, validity_secs),
            r@.ipv4 is None,
            r@.ipv6 is None,
            r.wf(),
    {
        let token = generate_token();
        let now = now_unix();
        let _nb: usize = utf8_len(&domain);
        let _tb: usize = utf8_len(&token);
        Domain { domainname: domain, token, lastupdate: now, valid_until: sat_add(now, validity_secs), ipv4: None, ipv6: None }
    }
}

/// The engine key a name is stored under: the hex digest of its text.
pub uninterp spec fn sha256_hex_of(s: Seq<char>) -> Seq<char>;

/// Relies on crypto::sha2::Sha256 (input_str / result_str): the lower-case
/// hex digest of the given text, a function of the text alone.
#[verifier::external_body]
pub(crate) fn sha256_hex(s: &str) -> (r: String)
    ensures
        r@ == sha256_hex_of(s@),
{
    let mut sum = crypto::sha2::Sha256::new();
    sum.input_str(s);
    sum.result_str()
}

/// The engine key of a domain name.
pub open spec fn key_of(name: Seq<char>) -> Seq<char> {
    sha256_hex_of(name)
}

/// Every decodable stored value sits under the key of its own name.
pub open spec fn consistent(kvs: Seq<(Seq<char>, Seq<u8>)>) -> bool {
    forall|i: int|
        0 <= i < kvs.len() ==> match spec_decode((#[trigger] kvs[i]).1) {
            Some(v) => kvs[i].0 == key_of(v.name),
            None => true,
        }
}

/// What the store maintains of its engine: unique keys, and each record
/// under the key of its own name.
pub open spec fn store_wf(kvs: Seq<(Seq<char>, Seq<u8>)>) -> bool {
    sl_unique(kvs) && consistent(kvs)
}

/// In a well-formed store, a record found under a name's key carries a
/// name with that same key.
proof fn lemma_stored_key(kvs: Seq<(Seq<char>, Seq<u8>)>, name: Seq<char>, v: DomainV)
    requires
        store_wf(kvs),
        sl_get(kvs, key_of(name)) matches Some(bytes) && spec_decode(bytes) == Some(v),
    ensures
        key_of(v.name) == key_of(name),
{
    crate::kv::lemma_sl_get_index(kvs, key_of(name));
    let i = choose|i: int|
        0 <= i < kvs.len() && #[trigger] kvs[i] == (key_of(name), sl_get(kvs, key_of(name)).unwrap());
    assert(match spec_decode(kvs[i].1) {
        Some(w) => kvs[i].0 == key_of(w.name),
        None => true,
    });
}

/// The record store over a pluggable key-value engine.
pub struct Database<E: KvEngine> {
    engine: E,
}

impl<E: KvEngine> Database<E> {
    /// The engine contents the store sits on.
    pub closed spec fn contents(&self) -> Seq<(Seq<char>, Seq<u8>)> {
        self.engine.contents()
    }

    /// See [`store_wf`].
    pub open spec fn wf(&self) -> bool {
        store_wf(self.contents())
    }

    /// The bytes stored for a name, if any.
    pub open spec fn stored(&self, name: Seq<char>) -> Option<Seq<u8>> {
        sl_get(self.contents(), key_of(name))
    }

    /// A store over the given engine.
    pub fn new(engine: E) -> (r: Database<E>)
        requires
            store_wf(engine.contents()),
        ensures
            r.contents() == engine.contents(),
            r.wf(),
    {
        Database { engine }
    }

    /// Writes `d` under the key of `key_name`.
    fn put_at(&mut self, key_name: &String, d: &Domain) -> (r: Result<(), Error>)
        requires
            old(self).wf(),
            d.wf(),
            key_of(d.domainname@) == key_of(key_name@),
        ensures
            final (self).wf(),
            match r {
                Ok(_) => final (self).contents() == sl_set(
                    old(self).contents(),
                    key_of(key_name@),
                    spec_encode(d@),
                ),
                Err(e) => e is StoreUnavailable && final (self).contents() == old(self).contents(),
            },
    {
        let key = sha256_hex(key_name.as_str());
        let val = encode_record(d);
        proof {
            lemma_sl_set(old(self).contents(), key@, val@);
            crate::codec::lemma_codec_roundtrip(d@);
            let updated = sl_set(old(self).contents(), key@, val@);
            assert forall|i: int| 0 <= i < updated.len() implies match spec_decode(
                (#[trigger] updated[i]).1,
            ) {
                Some(v) => updated[i].0 == key_of(v.name),
                None => true,
            } by {
                assert(updated[i] == (key@, val@) || (0 <= i < old(self).contents().len()
                    && updated[i] == old(self).contents()[i]));
            }
        }
        match self.engine.set(key, val) {
            Ok(_) => Ok(()),
            Err(_) => Err(Error::StoreUnavailable),
        }
    }

    /// Persists a newly registered record under the key of its own name.
    pub fn insert_new_domain(&mut self, d: &Domain) -> (r: Result<(), Error>)
        requires
            old(self).wf(),
            d.wf(),
        ensures
            final (self).wf(),
            match r {
                Ok(_) => final (self).contents() == sl_set(
                    old(self).contents(),
                    key_of(d.domainname@),
                    spec_encode(d@),
                ),
                Err(e) => e is StoreUnavailable && final (self).contents() == old(self).contents(),
            },
    {
        self.put_at(&d.domainname, d)
    }

    /// Reads and decodes the record stored for `domain`.  An undecodable
    /// stored value is a distinct corruption error, never `None`.
    pub fn get_domain(&self, domain: &String) -> (r: Result<Option<Domain>, Error>)
        ensures
            match r {
                Ok(None) => self.stored(domain@) is None,
                Ok(Some(d)) => self.stored(domain@) matches Some(bytes) && spec_decode(bytes)
                    == Some(d@) && d.wf(),
                Err(e) => e is RecordCorrupt && (self.stored(domain@) matches Some(bytes)
                    && spec_decode(bytes) is None),
            },
    {
        let key = sha256_hex(domain.as_str());
        match self.engine.get(&key) {
            None => Ok(None),
            Some(bytes) => match decode_record(&bytes) {
                Some(d) => Ok(Some(d)),
                None => Err(Error::RecordCorrupt),
            },
        }
    }

    /// Removes the record stored for `domain`, if any.
    pub fn remove_domain(&mut self, domain: &String)
        requires
            old(self).wf(),
        ensures
            final (self).wf(),
            final (self).contents() == sl_remove(old(self).contents(), key_of(domain@)),
    {
        let key = sha256_hex(domain.as_str());
        proof {
            lemma_sl_remove(old(self).contents(), key@);
            let trimmed = sl_remove(old(self).contents(), key@);
            assert forall|i: int| 0 <= i < trimmed.len() implies match spec_decode(
                (#[trigger] trimmed[i]).1,
            ) {
                Some(v) => trimmed[i].0 == key_of(v.name),
                None => true,
            } by {
                crate::kv::lemma_sl_remove_element_of(old(self).contents(), key@, i);
                let j = choose|j: int|
                    0 <= j < old(self).contents().len() && old(self).contents()[j] == trimmed[i];
                assert(match spec_decode(old(self).contents()[j].1) {
                    Some(v) => old(self).contents()[j].0 == key_of(v.name),
                    None => true,
                });
            }
        }
        self.engine.delete(&key);
    }

    /// True when a record (decodable or not) is stored for `d`.
    pub fn domain_exists(&self, d: &String) -> (r: bool)
        ensures
            r == (self.stored(d@) is Some),
    {
        let key = sha256_hex(d.as_str());
        match self.engine.get(&key) {
            Some(_) => true,
            None => false,
        }
    }

    /// Sets the last-update timestamp of the record stored for `domain`.
    pub fn update_lastupdate(&mut self, domain: &String, lastupdate: u64) -> (r: Result<(), Error>)
        requires
            old(self).wf(),
        ensures
            final (self).wf(),
            old(self).stored(domain@) is None ==> (r matches Err(e) && e is DomainNotFound),
            (old(self).stored(domain@) matches Some(bytes) && spec_decode(bytes) is None) ==> (r
                matches Err(e) && e is RecordCorrupt),
            match r {
                Ok(_) => old(self).stored(domain@) matches Some(bytes) && spec_decode(bytes)
                    matches Some(v) && final (self).contents() == sl_set(
                    old(self).contents(),
                    key_of(domain@),
                    spec_encode(DomainV { lastupdate, ..v }),
                ),
                Err(e) => final (self).contents() == old(self).contents() && ((e is DomainNotFound
                    && old(self).stored(domain@) is None) || (e is RecordCorrupt && (old(
                    self,
                ).stored(domain@) matches Some(bytes) && spec_decode(bytes) is None)) || (
                e is StoreUnavailable && (old(self).stored(domain@) matches Some(bytes)
                    && spec_decode(bytes) is Some))),
            },
    {
        match self.get_domain(domain) {
            Err(e) => Err(e),
            Ok(None) => Err(Error::DomainNotFound),
            Ok(Some(mut d)) => {
                proof {
                    lemma_stored_key(old(self).contents(), domain@, d@);
                }
                d.lastupdate = lastupdate;
                self.put_at(domain, &d)
            },
        }
    }

    /// Sets the expiry horizon of the record stored for `domain`.
    pub fn update_validity(&mut self, domain: &String, valid_until: u64) -> (r: Result<(), Error>)
        requires
            old(self).wf(),
        ensures
            final (self).wf(),
            old(self).stored(domain@) is None ==> (r matches Err(e) && e is DomainNotFound),
            (old(self).stored(domain@) matches Some(bytes) && spec_decode(bytes) is None) ==> (r
                matches Err(e) && e is RecordCorrupt),
            match r {
                Ok(_) => old(self).stored(domain@) matches Some(bytes) && spec_decode(bytes)
                    matches Some(v) && final (self).contents() == sl_set(
                    old(self).contents(),
                    key_of(domain@),
                    spec_encode(DomainV { valid_until, ..v }),
                ),
                Err(e) => final (self).contents() == old(self).contents() && ((e is DomainNotFound
                    && old(self).stored(domain@) is None) || (e is RecordCorrupt && (old(
                    self,
                ).stored(domain@) matches Some(bytes) && spec_decode(bytes) is None)) || (
                e is StoreUnavailable && (old(self).stored(domain@) matches Some(bytes)
                    && spec_decode(bytes) is Some))),
            },
    {
        match self.get_domain(domain) {
            Err(e) => Err(e),
            Ok(None) => Err(Error::DomainNotFound),
            Ok(Some(mut d)) => {
                proof {
                    lemma_stored_key(old(self).contents(), domain@, d@);
                }
                d.valid_until = valid_until;
                self.put_at(domain, &d)
            },
        }
    }

    /// Sets the stored IPv4 address of the record for `domain`, leaving
    /// the IPv6 address untouched.
    pub fn update_ipv4(&mut self, domain: &String, addr: V4Addr) -> (r: Result<(), Error>)
        requires
            old(self).wf(),
        ensures
            final (self).wf(),
            old(self).stored(domain@) is None ==> (r matches Err(e) && e is DomainNotFound),
            (old(self).stored(domain@) matches Some(bytes) && spec_decode(bytes) is None) ==> (r
                matches Err(e) && e is RecordCorrupt),
            match r {
                Ok(_) => old(self).stored(domain@) matches Some(bytes) && spec_decode(bytes)
                    matches Some(v) && final (self).contents() == sl_set(
                    old(self).contents(),
                    key_of(domain@),
                    spec_encode(DomainV { ipv4: Some(addr), ..v }),
                ),
                Err(e) => final (self).contents() == old(self).contents() && ((e is DomainNotFound
                    && old(self).stored(domain@) is None) || (e is RecordCorrupt && (old(
                    self,
                ).stored(domain@) matches Some(bytes) && spec_decode(bytes) is None)) || (
                e is StoreUnavailable && (old(self).stored(domain@) matches Some(bytes)
                    && spec_decode(bytes) is Some))),
            },
    {
        match self.get_domain(domain) {
            Err(e) => Err(e),
            Ok(None) => Err(Error::DomainNotFound),
            Ok(Some(mut d)) => {
                proof {
                    lemma_stored_key(old(self).contents(), domain@, d@);
                }
                d.ipv4 = Some(addr);
                self.put_at(domain, &d)
            },
        }
    }

    /// Sets the stored IPv6 address of the record for `domain`, leaving
    /// the IPv4 address untouched.
    pub fn update_ipv6(&mut self, domain: &String, addr: V6Addr) -> (r: Result<(), Error>)
        requires
            old(self).wf(),
            addr.wf(),
        ensures
            final (self).wf(),
            old(self).stored(domain@) is None ==> (r matches Err(e) && e is DomainNotFound),
            (old(self).stored(domain@) matches Some(bytes) && spec_decode(bytes) is None) ==> (r
                matches Err(e) && e is RecordCorrupt),
            match r {
                Ok(_) => old(self).stored(domain@) matches Some(bytes) && spec_decode(bytes)
                    matches Some(v) && final (self).contents() == sl_set(
                    old(self).contents(),
                    key_of(domain@),
                    spec_encode(DomainV { ipv6: Some(addr@), ..v }),
                ),
                Err(e) => final (self).contents() == old(self).contents() && ((e is DomainNotFound
                    && old(self).stored(domain@) is None) || (e is RecordCorrupt && (old(
                    self,
                ).stored(domain@) matches Some(bytes) && spec_decode(bytes) is None)) || (
                e is StoreUnavailable && (old(self).stored(domain@) matches Some(bytes)
                    && spec_decode(bytes) is Some))),
            },
    {
        match self.get_domain(domain) {
            Err(e) => Err(e),
            Ok(None) => Err(Error::DomainNotFound),
            Ok(Some(mut d)) => {
                proof {
                    lemma_stored_key(old(self).contents(), domain@, d@);
                }
                d.ipv6 = Some(addr);
                self.put_at(domain, &d)
            },
        }
    }

    /// Decodes every stored record, in storage order.  A single
    /// undecodable value surfaces as a corruption error.
    pub fn get_all(&self) -> (r: Result<Vec<Domain>, Error>)
        ensures
            match r {
                Ok(v) => v@.len() == self.contents().len() && forall|i: int|
                    0 <= i < v@.len() ==> spec_decode(self.contents()[i].1) == Some(
                        (#[trigger] v@[i])@,
                    ) && v@[i].wf(),
                Err(e) => e is RecordCorrupt && exists|i: int|
                    0 <= i < self.contents().len() && spec_decode(
                        (#[trigger] self.contents()[i]).1,
                    ) is None,
            },
    {
        let vals = self.engine.list();
        let mut out: Vec<Domain> = Vec::new();
        let n = vals.len();
        let mut i: usize = 0;
        while i < n
            invariant
                i <= n,
                n == vals@.len(),
                n == self.contents().len(),
                forall|j: int|
                    0 <= j < n ==> (#[trigger] vals@[j])@ == self.contents()[j].1,
                out@.len() == i,
                forall|j: int|
                    0 <= j < i ==> spec_decode(self.contents()[j].1) == Some((#[trigger] out@[j])@)
                        && out@[j].wf(),
            decreases n - i,
        {
            match decode_record(&vals[i]) {
                Some(d) => {
                    out.push(d);
                },
                None => {
                    return Err(Error::RecordCorrupt);
                },
            }
            i = i + 1;
        }
        Ok(out)
    }
}

} // verus!
