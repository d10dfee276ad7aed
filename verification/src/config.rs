//! The immutable process configuration.
//!
//! Loaded once at startup and passed explicitly to the components that
//! need it; nothing here mutates after construction.

use crate::domain::{normalize, split_labels, Dname};
use vstd::prelude::*;

verus! {

/// Identity of the zone authority, used in synthesized SOA records.
pub struct Dns {
    pub master: String,
    pub rname: String,
}

/// One configured suffix: the suffix name (for a dynamic domain
/// `mydomain.ddns.org` the name here is `ddns.org`), a short description,
/// and the validity period in days granted at registration.
pub struct Domain {
    pub name: String,
    pub description: String,
    pub validity: u64,
}

/// The whole configuration: service identity, configured suffixes, the
/// storage location, the authoritative update server, and the listen
/// address of the web front end.
pub struct Config {
    pub name: String,
    pub description: String,
    pub server_web_url: String,
    pub domain: Vec<Domain>,
    pub database: String,
    pub dns_server: String,
    pub dns: Dns,
    pub bind_address: String,
    pub bind_port: u16,
}

/// The label sequence of a policy's suffix name.
pub open spec fn policy_labels(p: Domain) -> Seq<Seq<char>> {
    split_labels(normalize(p.name@))
}

/// True when the name with labels `ls` is a strict child of the policy's
/// suffix.
pub open spec fn policy_matches(p: Domain, ls: Seq<Seq<char>>) -> bool {
    p.name@.len() > 0 && ls.len() > policy_labels(p).len() && policy_labels(p).is_suffix_of(ls)
}

impl Config {
    /// The configured suffix entry with exactly this name, if any
    /// (earliest entry wins).
    pub fn get_domain_config<'a>(&'a self, domain: &String) -> (r: Option<&'a Domain>)
        ensures
            match r {
                Some(d) => exists|i: int|
                    0 <= i < self.domain@.len() && (#[trigger] self.domain@[i]).name@ == domain@
                        && *d == self.domain@[i] && (forall|j: int|
                        0 <= j < i ==> (#[trigger] self.domain@[j]).name@ != domain@),
                None => forall|i: int|
                    0 <= i < self.domain@.len() ==> (#[trigger] self.domain@[i]).name@ != domain@,
            },
    {
        let n = self.domain.len();
        let mut i: usize = 0;
        while i < n
            invariant
                i <= n,
                n == self.domain@.len(),
                forall|j: int| 0 <= j < i ==> (#[trigger] self.domain@[j]).name@ != domain@,
            decreases n - i,
        {
            if self.domain[i].name.eq(domain) {
                return Some(&self.domain[i]);
            }
            i = i + 1;
        }
        None
    }

    /// The policy whose suffix the name falls strictly under.  With
    /// several matching suffixes the most specific one (the one with the
    /// most labels) wins; among equals, the earliest entry.
    pub fn find_policy(&self, d: &Dname) -> (r: Option<usize>)
        ensures
            match r {
                Some(i) => 0 <= i < self.domain@.len() && policy_matches(
                    self.domain@[i as int],
                    d@,
                ) && (forall|j: int|
                    0 <= j < self.domain@.len() && policy_matches(#[trigger] self.domain@[j], d@)
                        ==> policy_labels(self.domain@[j]).len() <= policy_labels(
                        self.domain@[i as int],
                    ).len()) && (forall|j: int|
                    0 <= j < self.domain@.len() && policy_matches(#[trigger] self.domain@[j], d@)
                        && policy_labels(self.domain@[j]).len() == policy_labels(
                        self.domain@[i as int],
                    ).len() ==> i <= j),
                None => forall|j: int|
                    0 <= j < self.domain@.len() ==> !policy_matches(#[trigger] self.domain@[j], d@),
            },
    {
        let n = self.domain.len();
        let mut best: Option<usize> = None;
        let ghost mut best_labels: int = 0;
        let mut i: usize = 0;
        while i < n
            invariant
                i <= n,
                n == self.domain@.len(),
                match best {
                    Some(b) => 0 <= b < i && policy_matches(self.domain@[b as int], d@)
                        && best_labels == policy_labels(self.domain@[b as int]).len() && (forall|
                        j: int,
                    |
                        0 <= j < i && policy_matches(#[trigger] self.domain@[j], d@)
                            ==> policy_labels(self.domain@[j]).len() <= best_labels) && (forall|
                        j: int,
                    |
                        0 <= j < i && policy_matches(#[trigger] self.domain@[j], d@)
                            && policy_labels(self.domain@[j]).len() == best_labels ==> b <= j),
                    None => forall|j: int|
                        0 <= j < i ==> !policy_matches(#[trigger] self.domain@[j], d@),
                },
            decreases n - i,
        {
            let entry = &self.domain[i];
            if !entry.name.as_str().is_empty() {
                let pd = Dname::new(entry.name.clone());
                if d.is_subdomain_of(&pd) {
                    let pl = pd.label_count();
                    let is_better: bool = match best {
                        None => true,
                        Some(b) => {
                            let bent = &self.domain[b];
                            let bl = Dname::new(bent.name.clone()).label_count();
                            pl > bl
                        },
                    };
                    if is_better {
                        best = Some(i);
                        proof {
                            best_labels = policy_labels(self.domain@[i as int]).len() as int;
                        }
                    }
                }
            }
            i = i + 1;
        }
        best
    }
}

} // verus!
