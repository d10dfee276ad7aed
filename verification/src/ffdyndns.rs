//! The registration/update/expiry service, with its error and request
//! types.
//!
//! [`Service`] owns the record store and the dispatcher queue.  It
//! registers names under configured suffixes, applies authenticated
//! address updates (persist first, then queue the propagation message),
//! and sweeps out expired records.

use crate::addr::{clone_v6, IpAddress, IpV};
use crate::codec::{spec_decode, spec_encode};
use crate::config::{policy_labels, policy_matches, Config};
use crate::db::{key_of, sat_add_u64, Database, Domain, DomainV};
use crate::domain::Dname;
use crate::kv::{lemma_sl_set, lemma_sl_set_twice, sl_get, sl_remove, sl_set, sl_unique, KvEngine};
use crate::nsupdate::{spec_enqueue, CmdV, MsgV, UpdateDispatcher, UpdateMessage};
use crate::text::{byte_hex, is_hex_char, push_byte_hex};
use vstd::prelude::*;

verus! {

/// Token length in bytes; the hex rendering is twice as long.
const TOKEN_LENGTH: usize = 8;

/// The shared secret issued at registration.
pub type Token = String;

/// An address update presented by a client: the name, the address to
/// store, and the bearer token that must match the stored one.
pub struct UpdateRequest {
    pub domain: String,
    pub addr: IpAddress,
    pub token: String,
}

/// Why an operation was refused or failed.
#[derive(Clone, Debug)]
pub enum Error {
    /// Propagation to the name server failed; the message carries the
    /// updater's error output.
    UpdateError(String),
    DomainNotFound,
    InvalidToken,
    InvalidDomain,
    DomainExists,
    RecordTypeNotMatching,
    /// The key-value engine refused a write.
    StoreUnavailable,
    /// A stored record failed to decode.
    RecordCorrupt,
    /// The address change is persisted but could not be handed to the
    /// dispatcher.
    PropagationFailed,
}

/// The human-readable reason for each error.
pub open spec fn error_message(e: Error) -> Seq<char> {
    match e {
        Error::InvalidToken => "the provided token is invalid"@,
        Error::DomainNotFound => "the domain was not found"@,
        Error::UpdateError(s) => s@,
        _ => "unknown or undocumented error"@,
    }
}

impl Error {
    /// A human-readable reason, for responses and logs.
    pub fn message(&self) -> (r: String)
        ensures
            r@ == error_message(*self),
    {
        match self {
            Error::InvalidToken => "the provided token is invalid".to_owned(),
            Error::DomainNotFound => "the domain was not found".to_owned(),
            Error::UpdateError(s) => s.clone(),
            _ => "unknown or undocumented error".to_owned(),
        }
    }
}

/// Relies on rand::random: draws one random byte; nothing is promised of
/// the value.
#[verifier::external_body]
fn random_byte() -> u8 {
    rand::random::<u8>()
}

/// A fresh token: sixteen lower-case hex characters drawn from eight
/// random bytes.
pub fn generate_token() -> (t: Token)
    ensures
        t@.len() == 16,
        forall|i: int| 0 <= i < t@.len() ==> is_hex_char(#[trigger] t@[i]),
{
    let mut token = String::new();
    let mut i: usize = 0;
    while i < TOKEN_LENGTH
        invariant
            i <= TOKEN_LENGTH,
            token@.len() == 2 * i,
            forall|k: int| 0 <= k < token@.len() ==> is_hex_char(#[trigger] token@[k]),
        decreases TOKEN_LENGTH - i,
    {
        let b = random_byte();
        push_byte_hex(&mut token, b);
        proof {
            crate::text::lemma_hex_digit_is_hex_char(b as nat / 16);
            crate::text::lemma_hex_digit_is_hex_char(b as nat % 16);
            assert(token@[2 * i as int] == byte_hex(b)[0]);
            assert(token@[2 * i as int + 1] == byte_hex(b)[1]);
        }
        i = i + 1;
    }
    token
}

/// There is no blocklist configured: every name is allowed.
pub fn domainname_is_blocklisted(_d: &String) -> (r: bool)
    ensures
        !r,
{
    false
}

/// Relies on chrono::Utc::now: reads the wall clock; nothing is promised
/// of the value.
#[verifier::external_body]
fn now_ts() -> i64 {
    chrono::Utc::now().timestamp()
}

/// The wall clock as seconds since the Unix epoch, clamped below at zero.
pub fn now_unix() -> u64 {
    let t = now_ts();
    if t < 0 {
        0
    } else {
        t as u64
    }
}

/// Seconds granted by a validity period of `days` days, saturating.
pub open spec fn days_secs(days: u64) -> u64 {
    if days <= u64::MAX / 86400 {
        (days * 86400) as u64
    } else {
        u64::MAX
    }
}

/// Saturating conversion from days to seconds.
pub fn days_to_secs(days: u64) -> (r: u64)
    ensures
        r == days_secs(days),
{
    if days <= u64::MAX / 86400u64 {
        proof {
            assert(days * 86400 <= 0xFFFF_FFFF_FFFF_FFFFu64) by (nonlinear_arith)
                requires
                    days <= 0xFFFF_FFFF_FFFF_FFFFu64 / 86400,
            ;
        }
        days * 86400
    } else {
        u64::MAX
    }
}

/// Compares a presented token against the stored one without an early
/// exit on the first differing character: every position is examined, so
/// the comparison time does not reveal how long a matching prefix was.
/// (Only the length can shortcut, and issued tokens share one length.)
fn tokens_match(a: &String, b: &String) -> (r: bool)
    ensures
        r == (a@ == b@),
{
    let n = a.as_str().unicode_len();
    let m = b.as_str().unicode_len();
    if n != m {
        return false;
    }
    let mut distinct = false;
    let mut i: usize = 0;
    while i < n
        invariant
            i <= n,
            n == a@.len(),
            n == b@.len(),
            distinct == exists|j: int| 0 <= j < i && #[trigger] a@[j] != b@[j],
        decreases n - i,
    {
        let ca = a.as_str().get_char(i);
        let cb = b.as_str().get_char(i);
        distinct = if ca != cb {
            true
        } else {
            distinct
        };
        proof {
            if a@[i as int] != b@[i as int] {
                assert(exists|j: int| 0 <= j < i + 1 && #[trigger] a@[j] != b@[j]);
            }
        }
        i = i + 1;
    }
    proof {
        if distinct {
            let j = choose|j: int| 0 <= j < n && #[trigger] a@[j] != b@[j];
            assert(a@ != b@);
        } else {
            assert(a@ =~= b@);
        }
    }
    !distinct
}

/// The record value after only the address field of the matching family
/// has been written: the first of the update's two store writes, and the
/// state left behind if the second write is refused.
pub open spec fn family_updated(v: DomainV, a: IpV) -> DomainV {
    match a {
        IpV::V4(x) => DomainV { ipv4: Some(x), ..v },
        IpV::V6(g) => DomainV { ipv6: Some(g), ..v },
    }
}

/// The record value after an address update: the matching family is set,
/// the other family is left untouched, and the last-update stamp moves to
/// `now`.
pub open spec fn updated_record(v: DomainV, a: IpV, now: u64) -> DomainV {
    DomainV { lastupdate: now, ..family_updated(v, a) }
}

/// The delete-then-add message queued for an accepted address update.
pub open spec fn update_message_v(server: Seq<char>, domain: Seq<char>, a: IpV) -> MsgV {
    MsgV { server, commands: seq![CmdV::Delete(domain), CmdV::Add(domain, a)] }
}

/// The delete-only message queued when a record is removed.
pub open spec fn delete_message_v(server: Seq<char>, name: Seq<char>) -> MsgV {
    MsgV { server, commands: seq![CmdV::Delete(name)] }
}

/// True when the stored pair either decodes to a record that has not
/// expired at `now`, or does not decode at all (the sweep never touches
/// what it cannot read).
pub open spec fn record_live(p: (Seq<char>, Seq<u8>), now: u64) -> bool {
    match spec_decode(p.1) {
        Some(v) => v.valid_until >= now,
        None => true,
    }
}

/// The store after the expiry sweep: exactly the live records, in order.
pub open spec fn spec_clean(kvs: Seq<(Seq<char>, Seq<u8>)>, now: u64) -> Seq<(Seq<char>, Seq<u8>)>
    decreases kvs.len(),
{
    if kvs.len() == 0 {
        kvs
    } else if record_live(kvs[0], now) {
        seq![kvs[0]] + spec_clean(kvs.drop_first(), now)
    } else {
        spec_clean(kvs.drop_first(), now)
    }
}

/// The delete-only messages the sweep queues: one per expired record, in
/// store order.
pub open spec fn expired_deletes(kvs: Seq<(Seq<char>, Seq<u8>)>, now: u64, server: Seq<char>) -> Seq<
    MsgV,
>
    decreases kvs.len(),
{
    if kvs.len() == 0 {
        seq![]
    } else {
        let rest = expired_deletes(kvs.drop_first(), now, server);
        match spec_decode(kvs[0].1) {
            Some(v) => if v.valid_until < now {
                seq![delete_message_v(server, v.name)] + rest
            } else {
                rest
            },
            None => rest,
        }
    }
}

pub proof fn lemma_spec_clean_push(kvs: Seq<(Seq<char>, Seq<u8>)>, p: (Seq<char>, Seq<u8>), now: u64)
    ensures
        spec_clean(kvs.push(p), now) == spec_clean(kvs, now) + (if record_live(p, now) {
            seq![p]
        } else {
            Seq::<(Seq<char>, Seq<u8>)>::empty()
        }),
    decreases kvs.len(),
{
    let tail = if record_live(p, now) {
        seq![p]
    } else {
        Seq::<(Seq<char>, Seq<u8>)>::empty()
    };
    if kvs.len() == 0 {
        assert(kvs.push(p).drop_first() =~= kvs);
        assert(spec_clean(kvs.push(p), now) =~= spec_clean(kvs, now) + tail);
    } else {
        assert(kvs.push(p).drop_first() =~= kvs.drop_first().push(p));
        lemma_spec_clean_push(kvs.drop_first(), p, now);
        assert(spec_clean(kvs.push(p), now) =~= spec_clean(kvs, now) + tail);
    }
}

pub proof fn lemma_expired_deletes_push(
    kvs: Seq<(Seq<char>, Seq<u8>)>,
    p: (Seq<char>, Seq<u8>),
    now: u64,
    server: Seq<char>,
)
    ensures
        expired_deletes(kvs.push(p), now, server) == expired_deletes(kvs, now, server) + (
        match spec_decode(p.1) {
            Some(v) => if v.valid_until < now {
                seq![delete_message_v(server, v.name)]
            } else {
                Seq::<MsgV>::empty()
            },
            None => Seq::<MsgV>::empty(),
        }),
    decreases kvs.len(),
{
    let tail = match spec_decode(p.1) {
        Some(v) => if v.valid_until < now {
            seq![delete_message_v(server, v.name)]
        } else {
            Seq::<MsgV>::empty()
        },
        None => Seq::<MsgV>::empty(),
    };
    if kvs.len() == 0 {
        assert(kvs.push(p).drop_first() =~= kvs);
        assert(expired_deletes(kvs.push(p), now, server) =~= expired_deletes(kvs, now, server)
            + tail);
    } else {
        assert(kvs.push(p).drop_first() =~= kvs.drop_first().push(p));
        lemma_expired_deletes_push(kvs.drop_first(), p, now, server);
        assert(expired_deletes(kvs.push(p), now, server) =~= expired_deletes(kvs, now, server)
            + tail);
    }
}

/// Every pair the sweep keeps was a pair of the store before the sweep.
pub proof fn lemma_spec_clean_elements(kvs: Seq<(Seq<char>, Seq<u8>)>, now: u64, i: int)
    requires
        0 <= i < spec_clean(kvs, now).len(),
    ensures
        exists|j: int| 0 <= j < kvs.len() && kvs[j] == spec_clean(kvs, now)[i],
    decreases kvs.len(),
{
    if kvs.len() == 0 {
    } else if record_live(kvs[0], now) {
        if i == 0 {
            assert(kvs[0] == spec_clean(kvs, now)[0]);
        } else {
            lemma_spec_clean_elements(kvs.drop_first(), now, i - 1);
            let j = choose|j: int|
                0 <= j < kvs.drop_first().len() && kvs.drop_first()[j] == spec_clean(
                    kvs.drop_first(),
                    now,
                )[i - 1];
            assert(kvs[j + 1] == spec_clean(kvs, now)[i]);
        }
    } else {
        lemma_spec_clean_elements(kvs.drop_first(), now, i);
        let j = choose|j: int|
            0 <= j < kvs.drop_first().len() && kvs.drop_first()[j] == spec_clean(
                kvs.drop_first(),
                now,
            )[i];
        assert(kvs[j + 1] == spec_clean(kvs, now)[i]);
    }
}

/// The registration/update/expiry service: the record store, the
/// dispatcher queue, and the immutable configuration.
pub struct Service<E: KvEngine> {
    pub db: Database<E>,
    pub updater: UpdateDispatcher,
    pub config: Config,
}

impl<E: KvEngine> Service<E> {
    /// The service keeps its store well-formed.
    pub open spec fn wf(&self) -> bool {
        self.db.wf()
    }

    /// A service over the given store and configuration, with an empty,
    /// accepting dispatcher queue.
    pub fn new(db: Database<E>, config: Config) -> (r: Service<E>)
        requires
            db.wf(),
        ensures
            r.wf(),
            r.db == db,
            r.config == config,
            r.updater@ == Seq::<MsgV>::empty(),
            r.updater.is_accepting(),
    {
        Service { db, updater: UpdateDispatcher::new(), config }
    }

    /// Registers `d` with the given token at time `now`.
    ///
    /// Fails with `InvalidDomain` exactly when no configured suffix is a
    /// strict ancestor of `d` (persisting nothing), and with
    /// `DomainExists` exactly when a record for `d` is already stored
    /// (leaving it untouched).  On success the stored record carries the
    /// token, the creation time `now`, the expiry granted by the most
    /// specific matching policy, and no addresses.
    pub fn new_domain_with(&mut self, d: &Dname, token: Token, now: u64) -> (r: Result<
        Token,
        Error,
    >)
        requires
            old(self).wf(),
            d.wf(),
        ensures
            final (self).wf(),
            final (self).config == old(self).config,
            final (self).updater == old(self).updater,
            (forall|j: int|
                0 <= j < old(self).config.domain@.len() ==> !policy_matches(
                    #[trigger] old(self).config.domain@[j],
                    d@,
                )) ==> (r matches Err(e) && e is InvalidDomain),
            ((exists|j: int|
                0 <= j < old(self).config.domain@.len() && policy_matches(
                    #[trigger] old(self).config.domain@[j],
                    d@,
                )) && old(self).db.stored(d.text()) is Some) ==> (r matches Err(e)
                && e is DomainExists),
            match r {
                Err(e) => final (self).db.contents() == old(self).db.contents() && ((
                e is InvalidDomain && (forall|j: int|
                    0 <= j < old(self).config.domain@.len() ==> !policy_matches(
                        #[trigger] old(self).config.domain@[j],
                        d@,
                    ))) || (e is DomainExists && old(self).db.stored(d.text()) is Some) || (
                e is StoreUnavailable && old(self).db.stored(d.text()) is None && (exists|j: int|
                    0 <= j < old(self).config.domain@.len() && policy_matches(
                        #[trigger] old(self).config.domain@[j],
                        d@,
                    )))),
                Ok(t) => t@ == token@ && old(self).db.stored(d.text()) is None && exists|i: int|
                    #![auto]
                    0 <= i < old(self).config.domain@.len() && policy_matches(
                        old(self).config.domain@[i],
                        d@,
                    ) && (forall|j: int|
                        0 <= j < old(self).config.domain@.len() && policy_matches(
                            #[trigger] old(self).config.domain@[j],
                            d@,
                        ) ==> policy_labels(old(self).config.domain@[j]).len() <= policy_labels(
                            old(self).config.domain@[i],
                        ).len()) && final (self).db.contents() == sl_set(
                        old(self).db.contents(),
                        key_of(d.text()),
                        spec_encode(
                            DomainV {
                                name: d.text(),
                                token: token@,
                                lastupdate: now,
                                valid_until: sat_add_u64(
                                    now,
                                    days_secs(old(self).config.domain@[i].validity),
                                ),
                                ipv4: None,
                                ipv6: None,
                            },
                        ),
                    ),
            },
    {
        let text = d.to_string();
        match self.config.find_policy(d) {
            None => Err(Error::InvalidDomain),
            Some(pi) => {
                if self.db.domain_exists(&text) {
                    return Err(Error::DomainExists);
                }
                let validity = days_to_secs(self.config.domain[pi].validity);
                let record = Domain::new_with_token(d, token.clone(), validity, now);
                match self.db.insert_new_domain(&record) {
                    Ok(_) => Ok(token),
                    Err(e) => Err(e),
                }
            },
        }
    }

    /// Registers a name with a freshly generated token, stamped with the
    /// current wall-clock time.
    pub fn new_domain(&mut self, d: Dname) -> (r: Result<Token, Error>)
        requires
            old(self).wf(),
            d.wf(),
        ensures
            final (self).wf(),
            final (self).config == old(self).config,
            final (self).updater == old(self).updater,
            (forall|j: int|
                0 <= j < old(self).config.domain@.len() ==> !policy_matches(
                    #[trigger] old(self).config.domain@[j],
                    d@,
                )) ==> (r matches Err(e) && e is InvalidDomain),
            ((exists|j: int|
                0 <= j < old(self).config.domain@.len() && policy_matches(
                    #[trigger] old(self).config.domain@[j],
                    d@,
                )) && old(self).db.stored(d.text()) is Some) ==> (r matches Err(e)
                && e is DomainExists),
            match r {
                Err(e) => final (self).db.contents() == old(self).db.contents() && ((
                e is InvalidDomain && (forall|j: int|
                    0 <= j < old(self).config.domain@.len() ==> !policy_matches(
                        #[trigger] old(self).config.domain@[j],
                        d@,
                    ))) || (e is DomainExists && old(self).db.stored(d.text()) is Some) || (
                e is StoreUnavailable && old(self).db.stored(d.text()) is None && (exists|j: int|
                    0 <= j < old(self).config.domain@.len() && policy_matches(
                        #[trigger] old(self).config.domain@[j],
                        d@,
                    )))),
                Ok(t) => t@.len() == 16 && (forall|k: int|
                    0 <= k < t@.len() ==> is_hex_char(#[trigger] t@[k])) && old(self).db.stored(
                    d.text(),
                ) is None && exists|i: int, now_v: u64|
                    #![auto]
                    0 <= i < old(self).config.domain@.len() && policy_matches(
                        old(self).config.domain@[i],
                        d@,
                    ) && (forall|j: int|
                        0 <= j < old(self).config.domain@.len() && policy_matches(
                            #[trigger] old(self).config.domain@[j],
                            d@,
                        ) ==> policy_labels(old(self).config.domain@[j]).len() <= policy_labels(
                            old(self).config.domain@[i],
                        ).len()) && final (self).db.contents() == sl_set(
                        old(self).db.contents(),
                        key_of(d.text()),
                        spec_encode(
                            DomainV {
                                name: d.text(),
                                token: t@,
                                lastupdate: now_v,
                                valid_until: sat_add_u64(
                                    now_v,
                                    days_secs(old(self).config.domain@[i].validity),
                                ),
                                ipv4: None,
                                ipv6: None,
                            },
                        ),
                    ),
            },
    {
        let token = generate_token();
        let now = now_unix();
        self.new_domain_with(&d, token, now)
    }

    /// Applies an authenticated address update at time `now`: checks the
    /// bearer token, persists the new address of the matching family and
    /// the new last-update stamp, then queues the delete-then-add message
    /// for the dispatcher.  A queue refusal is reported as a distinct
    /// propagation failure and never rolls back the persisted change.
    pub fn update_domain_at(&mut self, update: UpdateRequest, now: u64) -> (r: Result<(), Error>)
        requires
            old(self).wf(),
            update.addr.wf(),
        ensures
            final (self).wf(),
            final (self).config == old(self).config,
            final (self).updater.is_accepting() == old(self).updater.is_accepting(),
            old(self).db.stored(update.domain@) is None ==> (r matches Err(e)
                && e is DomainNotFound),
            (old(self).db.stored(update.domain@) matches Some(bytes) && spec_decode(bytes)
                is None) ==> (r matches Err(e) && e is RecordCorrupt),
            (old(self).db.stored(update.domain@) matches Some(bytes) && spec_decode(bytes)
                matches Some(v) && v.token != update.token@) ==> (r matches Err(e)
                && e is InvalidToken),
            match r {
                Err(e) => (e is DomainNotFound && old(self).db.stored(update.domain@) is None
                    && final (self).db.contents() == old(self).db.contents() && final (
                self).updater@ == old(self).updater@) || (e is RecordCorrupt && (old(
                self).db.stored(update.domain@) matches Some(bytes) && spec_decode(bytes) is None)
                    && final (self).db.contents() == old(self).db.contents() && final (
                self).updater@ == old(self).updater@) || (e is InvalidToken && (old(
                self).db.stored(update.domain@) matches Some(bytes) && spec_decode(bytes)
                    matches Some(v) && v.token != update.token@) && final (self).db.contents()
                    == old(self).db.contents() && final (self).updater@ == old(self).updater@) || (
                e is StoreUnavailable && (old(self).db.stored(update.domain@) matches Some(bytes)
                    && spec_decode(bytes) matches Some(v) && v.token == update.token@ && (final (
                self).db.contents() == old(self).db.contents() || final (self).db.contents()
                    == sl_set(
                    old(self).db.contents(),
                    key_of(update.domain@),
                    spec_encode(family_updated(v, update.addr@)),
                ))) && final (self).updater@ == old(self).updater@) || (
                e is PropagationFailed && !old(self).updater.is_accepting() && (old(
                self).db.stored(update.domain@) matches Some(bytes) && spec_decode(bytes)
                    matches Some(v) && v.token == update.token@ && final (self).db.contents()
                    == sl_set(
                    old(self).db.contents(),
                    key_of(update.domain@),
                    spec_encode(updated_record(v, update.addr@, now)),
                )) && final (self).updater@ == old(self).updater@),
                Ok(_) => old(self).updater.is_accepting() && (old(self).db.stored(update.domain@)
                    matches Some(bytes) && spec_decode(bytes) matches Some(v) && v.token
                    == update.token@ && final (self).db.contents() == sl_set(
                    old(self).db.contents(),
                    key_of(update.domain@),
                    spec_encode(updated_record(v, update.addr@, now)),
                )) && final (self).updater@ == spec_enqueue(
                    old(self).updater@,
                    update_message_v(old(self).config.dns_server@, update.domain@, update.addr@),
                ),
            },
    {
        if !self.db.domain_exists(&update.domain) {
            return Err(Error::DomainNotFound);
        }
        let d = match self.db.get_domain(&update.domain) {
            Err(e) => {
                return Err(e);
            },
            Ok(None) => {
                return Err(Error::DomainNotFound);
            },
            Ok(Some(d)) => d,
        };
        if !tokens_match(&d.token, &update.token) {
            return Err(Error::InvalidToken);
        }
        let ghost pre = self.db.contents();
        let ghost key = key_of(update.domain@);
        let ghost vmid = family_updated(d@, update.addr@);
        let step1 = match &update.addr {
            IpAddress::V4(a) => self.db.update_ipv4(&update.domain, *a),
            IpAddress::V6(a) => self.db.update_ipv6(&update.domain, clone_v6(a)),
        };
        proof {
            assert(vmid.wf());
        }
        match step1 {
            Err(e) => {
                proof {
                    assert(e is StoreUnavailable);
                }
                return Err(e);
            },
            Ok(_) => {},
        }
        proof {
            assert(self.db.contents() == sl_set(pre, key, spec_encode(vmid)));
            lemma_sl_set(pre, key, spec_encode(vmid));
            crate::codec::lemma_codec_roundtrip(vmid);
        }
        match self.db.update_lastupdate(&update.domain, now) {
            Err(e) => {
                proof {
                    assert(e is StoreUnavailable);
                }
                return Err(e);
            },
            Ok(_) => {},
        }
        proof {
            lemma_sl_set_twice(
                pre,
                key,
                spec_encode(vmid),
                spec_encode(DomainV { lastupdate: now, ..vmid }),
            );
            assert(DomainV { lastupdate: now, ..vmid } =~= updated_record(d@, update.addr@, now));
        }
        let server = self.config.dns_server.clone();
        let msg = UpdateMessage::from_updaterequest(server, update);
        match self.updater.enqueue(msg) {
            Ok(_) => Ok(()),
            Err(_) => Err(Error::PropagationFailed),
        }
    }

    /// Applies an authenticated address update at the current wall-clock
    /// time.
    pub fn update_domain(&mut self, update: UpdateRequest) -> (r: Result<(), Error>)
        requires
            old(self).wf(),
            update.addr.wf(),
        ensures
            final (self).wf(),
            final (self).config == old(self).config,
            final (self).updater.is_accepting() == old(self).updater.is_accepting(),
            old(self).db.stored(update.domain@) is None ==> (r matches Err(e)
                && e is DomainNotFound),
            (old(self).db.stored(update.domain@) matches Some(bytes) && spec_decode(bytes)
                is None) ==> (r matches Err(e) && e is RecordCorrupt),
            (old(self).db.stored(update.domain@) matches Some(bytes) && spec_decode(bytes)
                matches Some(v) && v.token != update.token@) ==> (r matches Err(e)
                && e is InvalidToken),
            match r {
                Err(e) => (e is DomainNotFound && old(self).db.stored(update.domain@) is None
                    && final (self).db.contents() == old(self).db.contents() && final (
                self).updater@ == old(self).updater@) || (e is RecordCorrupt && (old(
                self).db.stored(update.domain@) matches Some(bytes) && spec_decode(bytes) is None)
                    && final (self).db.contents() == old(self).db.contents() && final (
                self).updater@ == old(self).updater@) || (e is InvalidToken && (old(
                self).db.stored(update.domain@) matches Some(bytes) && spec_decode(bytes)
                    matches Some(v) && v.token != update.token@) && final (self).db.contents()
                    == old(self).db.contents() && final (self).updater@ == old(self).updater@) || (
                e is StoreUnavailable && (old(self).db.stored(update.domain@) matches Some(bytes)
                    && spec_decode(bytes) matches Some(v) && v.token == update.token@ && (final (
                self).db.contents() == old(self).db.contents() || final (self).db.contents()
                    == sl_set(
                    old(self).db.contents(),
                    key_of(update.domain@),
                    spec_encode(family_updated(v, update.addr@)),
                ))) && final (self).updater@ == old(self).updater@) || (
                e is PropagationFailed && !old(self).updater.is_accepting() && (old(
                self).db.stored(update.domain@) matches Some(bytes) && spec_decode(bytes)
                    matches Some(v) && v.token == update.token@ && exists|now_v: u64|
                    final (self).db.contents() == sl_set(
                        old(self).db.contents(),
                        key_of(update.domain@),
                        #[trigger] spec_encode(updated_record(v, update.addr@, now_v)),
                    )) && final (self).updater@ == old(self).updater@),
                Ok(_) => old(self).updater.is_accepting() && (old(self).db.stored(update.domain@)
                    matches Some(bytes) && spec_decode(bytes) matches Some(v) && v.token
                    == update.token@ && exists|now_v: u64|
                    final (self).db.contents() == sl_set(
                        old(self).db.contents(),
                        key_of(update.domain@),
                        #[trigger] spec_encode(updated_record(v, update.addr@, now_v)),
                    )) && final (self).updater@ == spec_enqueue(
                    old(self).updater@,
                    update_message_v(old(self).config.dns_server@, update.domain@, update.addr@),
                ),
            },
    {
        let now = now_unix();
        self.update_domain_at(update, now)
    }

    /// Sweeps the store at time `now`: removes every record whose expiry
    /// lies strictly before `now` and none whose expiry lies at or after
    /// it, and queues exactly one delete-only message per removed record.
    /// A store with any undecodable record is left untouched and reported
    /// corrupt.
    pub fn clean_domains_at(&mut self, now: u64) -> (r: Result<(), Error>)
        requires
            old(self).wf(),
        ensures
            final (self).wf(),
            final (self).config == old(self).config,
            final (self).updater.is_accepting() == old(self).updater.is_accepting(),
            match r {
                Err(e) => e is RecordCorrupt && final (self).db.contents() == old(
                    self,
                ).db.contents() && final (self).updater@ == old(self).updater@ && exists|i: int|
                    0 <= i < old(self).db.contents().len() && spec_decode(
                        (#[trigger] old(self).db.contents()[i]).1,
                    ) is None,
                Ok(_) => final (self).db.contents() == spec_clean(old(self).db.contents(), now)
                    && (old(self).updater.is_accepting() ==> final (self).updater@ == old(
                    self,
                ).updater@ + expired_deletes(
                    old(self).db.contents(),
                    now,
                    old(self).config.dns_server@,
                )) && (!old(self).updater.is_accepting() ==> final (self).updater@ == old(
                    self,
                ).updater@),
            },
    {
        let records = match self.db.get_all() {
            Err(e) => {
                return Err(e);
            },
            Ok(v) => v,
        };
        let ghost orig = old(self).db.contents();
        let ghost server_v = old(self).config.dns_server@;
        let n = records.len();
        let mut i: usize = 0;
        while i < n
            invariant
                i <= n,
                n == records@.len(),
                n == orig.len(),
                orig == old(self).db.contents(),
                server_v == old(self).config.dns_server@,
                crate::db::store_wf(orig),
                forall|j: int|
                    0 <= j < n ==> spec_decode(orig[j].1) == Some((#[trigger] records@[j])@)
                        && records@[j].wf(),
                self.db.contents() == spec_clean(orig.take(i as int), now) + orig.skip(i as int),
                self.db.wf(),
                self.config == old(self).config,
                self.updater.is_accepting() == old(self).updater.is_accepting(),
                old(self).updater.is_accepting() ==> self.updater@ == old(self).updater@
                    + expired_deletes(orig.take(i as int), now, server_v),
                !old(self).updater.is_accepting() ==> self.updater@ == old(self).updater@,
            decreases n - i,
        {
            proof {
                assert(orig.take(i + 1) =~= orig.take(i as int).push(orig[i as int]));
                lemma_spec_clean_push(orig.take(i as int), orig[i as int], now);
                lemma_expired_deletes_push(orig.take(i as int), orig[i as int], now, server_v);
            }
            if records[i].valid_until < now {
                let ghost key = key_of(records@[i as int]@.name);
                proof {
                    assert(!record_live(orig[i as int], now));
                    assert(orig[i as int].0 == key);
                    let cleaned = spec_clean(orig.take(i as int), now);
                    assert forall|t: int| 0 <= t < cleaned.len() implies (#[trigger] cleaned[t]).0
                        != key by {
                        lemma_spec_clean_elements(orig.take(i as int), now, t);
                        let j = choose|j: int|
                            0 <= j < orig.take(i as int).len() && orig.take(i as int)[j]
                                == cleaned[t];
                        assert(orig[j].0 != orig[i as int].0);
                    }
                    crate::kv::lemma_sl_remove_concat(cleaned, orig.skip(i as int), key);
                    assert(orig.skip(i as int)[0] == orig[i as int]);
                    assert(sl_remove(orig.skip(i as int), key) =~= orig.skip(i as int).drop_first());
                    assert(orig.skip(i as int).drop_first() =~= orig.skip(i + 1));
                }
                self.db.remove_domain(&records[i].domainname);
                proof {
                    assert(self.db.contents() =~= spec_clean(orig.take(i + 1), now) + orig.skip(
                        i + 1,
                    ));
                }
                let server = self.config.dns_server.clone();
                let name = records[i].domainname.clone();
                let msg = UpdateMessage::new_remove_message(server, name);
                match self.updater.enqueue(msg) {
                    Ok(_) => {},
                    Err(_) => {},
                }
                proof {
                    if old(self).updater.is_accepting() {
                        assert(self.updater@ =~= old(self).updater@ + expired_deletes(
                            orig.take(i + 1),
                            now,
                            server_v,
                        ));
                    }
                }
            } else {
                proof {
                    assert(record_live(orig[i as int], now));
                    assert(spec_clean(orig.take(i + 1), now) + orig.skip(i + 1) =~= spec_clean(
                        orig.take(i as int),
                        now,
                    ) + orig.skip(i as int));
                    assert(expired_deletes(orig.take(i + 1), now, server_v) =~= expired_deletes(
                        orig.take(i as int),
                        now,
                        server_v,
                    ));
                }
            }
            i = i + 1;
        }
        proof {
            assert(orig.take(n as int) =~= orig);
            assert(orig.skip(n as int) =~= Seq::<(Seq<char>, Seq<u8>)>::empty());
            assert(self.db.contents() =~= spec_clean(orig, now));
        }
        Ok(())
    }

    /// Sweeps the store at the current wall-clock time.
    pub fn clean_domains(&mut self) -> (r: Result<(), Error>)
        requires
            old(self).wf(),
        ensures
            final (self).wf(),
            final (self).config == old(self).config,
            final (self).updater.is_accepting() == old(self).updater.is_accepting(),
            match r {
                Err(e) => e is RecordCorrupt && final (self).db.contents() == old(
                    self,
                ).db.contents() && final (self).updater@ == old(self).updater@,
                Ok(_) => exists|now_v: u64|
                    #![auto]
                    final (self).db.contents() == spec_clean(old(self).db.contents(), now_v) && (
                    old(self).updater.is_accepting() ==> final (self).updater@ == old(
                        self,
                    ).updater@ + expired_deletes(
                        old(self).db.contents(),
                        now_v,
                        old(self).config.dns_server@,
                    )) && (!old(self).updater.is_accepting() ==> final (self).updater@ == old(
                        self,
                    ).updater@),
            },
    {
        let now = now_unix();
        self.clean_domains_at(now)
    }
}

} // verus!
