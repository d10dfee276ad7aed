use ffdyndns::addr::{IpAddress, V4Addr, V6Addr};
use ffdyndns::codec::{decode_record, encode_record};
use ffdyndns::config::{Config, Dns, Domain as SuffixPolicy};
use ffdyndns::db::{Database, Domain};
use ffdyndns::dns::{lookup_a, lookup_aaaa, lookup_any, lookup_soa, QType};
use ffdyndns::domain::Dname;
use ffdyndns::ffdyndns::{
    domainname_is_blocklisted, generate_token, Error, Service, UpdateRequest,
};
use ffdyndns::kv::MemEngine;
use ffdyndns::nsupdate::{UpdateCommand, UpdateDispatcher, UpdateMessage};

fn test_config() -> Config {
    Config {
        name: "ffdyndns".to_string(),
        description: "dynamic dns for tests".to_string(),
        server_web_url: "http://localhost/".to_string(),
        domain: vec![SuffixPolicy {
            name: "ddns.example.".to_string(),
            description: "test suffix".to_string(),
            validity: 1,
        }],
        database: "unused".to_string(),
        dns_server: "127.0.0.1".to_string(),
        dns: Dns {
            master: "ns1.example".to_string(),
            rname: "hostmaster.example".to_string(),
        },
        bind_address: "0.0.0.0".to_string(),
        bind_port: 8080,
    }
}

fn test_service() -> Service<MemEngine> {
    Service::new(Database::new(MemEngine::new()), test_config())
}

fn is_lower_hex(s: &str) -> bool {
    s.chars().all(|c| c.is_ascii_digit() || ('a'..='f').contains(&c))
}

#[test]
fn it_saves_domain() {
    let mut db = Database::new(MemEngine::new());
    let d = Domain::new(String::from("kaputt.cloud"), 86400);
    db.insert_new_domain(&d).unwrap();
    let res = db.get_domain(&String::from("kaputt.cloud")).unwrap().unwrap();
    assert_eq!(d.token, res.token);
}

#[test]
fn register_update_lookup_scenario() {
    let mut service = test_service();
    let name = Dname::new("alpha.ddns.example.".to_string());
    let token = service.new_domain(name).unwrap();
    assert_eq!(token.len(), 16);
    assert!(is_lower_hex(&token));

    let qname = "alpha.ddns.example.".to_string();
    let empty = lookup_a(&service.db, &qname).unwrap();
    assert!(empty.result.is_empty());

    service
        .update_domain_at(
            UpdateRequest {
                domain: qname.clone(),
                addr: IpAddress::V4(V4Addr { a: 10, b: 0, c: 0, d: 5 }),
                token: token.clone(),
            },
            100,
        )
        .unwrap();

    let answer = lookup_a(&service.db, &qname).unwrap();
    assert_eq!(answer.result.len(), 1);
    assert!(matches!(answer.result[0].qtype, QType::A));
    assert_eq!(answer.result[0].qname, qname);
    assert_eq!(answer.result[0].content, "10.0.0.5");
    assert_eq!(answer.result[0].ttl, 5);
}

#[test]
fn register_grants_one_day_validity() {
    let mut service = test_service();
    let name = Dname::new("beta.ddns.example.".to_string());
    let token = "0123456789abcdef".to_string();
    service.new_domain_with(&name, token.clone(), 1000).unwrap();
    let rec = service.db.get_domain(&"beta.ddns.example.".to_string()).unwrap().unwrap();
    assert_eq!(rec.token, token);
    assert_eq!(rec.lastupdate, 1000);
    assert_eq!(rec.valid_until, 1000 + 86400);
    assert!(rec.ipv4.is_none());
    assert!(rec.ipv6.is_none());
}

#[test]
fn register_existing_name_fails_and_keeps_record() {
    let mut service = test_service();
    let name = Dname::new("alpha.ddns.example.".to_string());
    let token = service.new_domain_with(&name, "aaaaaaaaaaaaaaaa".to_string(), 500).unwrap();
    let again = service.new_domain_with(&name, "bbbbbbbbbbbbbbbb".to_string(), 900);
    assert!(matches!(again, Err(Error::DomainExists)));
    let rec = service.db.get_domain(&"alpha.ddns.example.".to_string()).unwrap().unwrap();
    assert_eq!(rec.token, token);
    assert_eq!(rec.lastupdate, 500);
    assert_eq!(rec.valid_until, 500 + 86400);
}

#[test]
fn register_outside_suffixes_persists_nothing() {
    let mut service = test_service();
    let name = Dname::new("alpha.other.example.".to_string());
    let r = service.new_domain(name);
    assert!(matches!(r, Err(Error::InvalidDomain)));
    let rec = service.db.get_domain(&"alpha.other.example.".to_string()).unwrap();
    assert!(rec.is_none());
    // The suffix itself is not registrable either: the match must be strict.
    let suffix = Dname::new("ddns.example.".to_string());
    let r = service.new_domain(suffix);
    assert!(matches!(r, Err(Error::InvalidDomain)));
}

#[test]
fn update_with_wrong_token_changes_nothing() {
    let mut service = test_service();
    let name = Dname::new("alpha.ddns.example.".to_string());
    service.new_domain_with(&name, "aaaaaaaaaaaaaaaa".to_string(), 500).unwrap();
    let r = service.update_domain_at(
        UpdateRequest {
            domain: "alpha.ddns.example.".to_string(),
            addr: IpAddress::V4(V4Addr { a: 1, b: 2, c: 3, d: 4 }),
            token: "bbbbbbbbbbbbbbbb".to_string(),
        },
        600,
    );
    assert!(matches!(r, Err(Error::InvalidToken)));
    let rec = service.db.get_domain(&"alpha.ddns.example.".to_string()).unwrap().unwrap();
    assert!(rec.ipv4.is_none());
    assert!(rec.ipv6.is_none());
    assert_eq!(rec.lastupdate, 500);
    assert_eq!(service.updater.len(), 0);
}

#[test]
fn update_unknown_name_is_not_found() {
    let mut service = test_service();
    let r = service.update_domain_at(
        UpdateRequest {
            domain: "ghost.ddns.example.".to_string(),
            addr: IpAddress::V4(V4Addr { a: 1, b: 2, c: 3, d: 4 }),
            token: "aaaaaaaaaaaaaaaa".to_string(),
        },
        600,
    );
    assert!(matches!(r, Err(Error::DomainNotFound)));
}

#[test]
fn update_sets_only_the_matching_family() {
    let mut service = test_service();
    let name = Dname::new("alpha.ddns.example.".to_string());
    let token = "aaaaaaaaaaaaaaaa".to_string();
    service.new_domain_with(&name, token.clone(), 500).unwrap();

    let qname = "alpha.ddns.example.".to_string();
    service
        .update_domain_at(
            UpdateRequest {
                domain: qname.clone(),
                addr: IpAddress::V4(V4Addr { a: 10, b: 0, c: 0, d: 5 }),
                token: token.clone(),
            },
            600,
        )
        .unwrap();
    let rec = service.db.get_domain(&qname).unwrap().unwrap();
    assert!(rec.ipv4.is_some());
    assert!(rec.ipv6.is_none());
    assert_eq!(rec.lastupdate, 600);

    service
        .update_domain_at(
            UpdateRequest {
                domain: qname.clone(),
                addr: IpAddress::V6(V6Addr {
                    groups: vec![0x2001, 0xdb8, 0, 0, 0, 0, 0, 1],
                }),
                token: token.clone(),
            },
            700,
        )
        .unwrap();
    let rec = service.db.get_domain(&qname).unwrap().unwrap();
    let v4 = rec.ipv4.unwrap();
    assert_eq!((v4.a, v4.b, v4.c, v4.d), (10, 0, 0, 5));
    assert_eq!(rec.ipv6.unwrap().groups, vec![0x2001, 0xdb8, 0, 0, 0, 0, 0, 1]);
    assert_eq!(rec.lastupdate, 700);

    let any = lookup_any(&service.db, &name).unwrap();
    assert_eq!(any.result.len(), 2);
    assert!(matches!(any.result[0].qtype, QType::A));
    assert_eq!(any.result[0].content, "10.0.0.5");
    assert!(matches!(any.result[1].qtype, QType::AAAA));
    assert_eq!(any.result[1].content, "2001:db8:0:0:0:0:0:1");

    let aaaa = lookup_aaaa(&service.db, &qname).unwrap();
    assert_eq!(aaaa.result.len(), 1);
    assert_eq!(aaaa.result[0].content, "2001:db8:0:0:0:0:0:1");
}

#[test]
fn update_queues_delete_then_add() {
    let mut service = test_service();
    let name = Dname::new("alpha.ddns.example.".to_string());
    let token = "aaaaaaaaaaaaaaaa".to_string();
    service.new_domain_with(&name, token.clone(), 500).unwrap();
    assert_eq!(service.updater.len(), 0);
    service
        .update_domain_at(
            UpdateRequest {
                domain: "alpha.ddns.example.".to_string(),
                addr: IpAddress::V4(V4Addr { a: 10, b: 0, c: 0, d: 5 }),
                token,
            },
            600,
        )
        .unwrap();
    let msg = service.updater.dequeue().unwrap();
    assert_eq!(msg.server, "127.0.0.1");
    assert_eq!(msg.commands.len(), 2);
    assert!(
        matches!(&msg.commands[0], UpdateCommand::Delete(d) if d == "alpha.ddns.example.")
    );
    assert!(
        matches!(&msg.commands[1], UpdateCommand::Add(d, IpAddress::V4(_)) if d == "alpha.ddns.example.")
    );
    assert!(service.updater.dequeue().is_none());
}

#[test]
fn update_after_shutdown_persists_but_reports_propagation_failure() {
    let mut service = test_service();
    let name = Dname::new("alpha.ddns.example.".to_string());
    let token = "aaaaaaaaaaaaaaaa".to_string();
    service.new_domain_with(&name, token.clone(), 500).unwrap();
    service.updater.shutdown();
    let r = service.update_domain_at(
        UpdateRequest {
            domain: "alpha.ddns.example.".to_string(),
            addr: IpAddress::V4(V4Addr { a: 10, b: 0, c: 0, d: 5 }),
            token,
        },
        600,
    );
    assert!(matches!(r, Err(Error::PropagationFailed)));
    let rec = service.db.get_domain(&"alpha.ddns.example.".to_string()).unwrap().unwrap();
    assert!(rec.ipv4.is_some());
    assert_eq!(service.updater.len(), 0);
}

#[test]
fn clean_removes_expired_records_only() {
    let mut service = test_service();
    let alpha = Dname::new("alpha.ddns.example.".to_string());
    let beta = Dname::new("beta.ddns.example.".to_string());
    service.new_domain_with(&alpha, "aaaaaaaaaaaaaaaa".to_string(), 0).unwrap();
    service.new_domain_with(&beta, "bbbbbbbbbbbbbbbb".to_string(), 100000).unwrap();
    // alpha expires at 86400, beta at 186400.
    service.clean_domains_at(100000).unwrap();
    assert!(service.db.get_domain(&"alpha.ddns.example.".to_string()).unwrap().is_none());
    assert!(service.db.get_domain(&"beta.ddns.example.".to_string()).unwrap().is_some());
    let msg = service.updater.dequeue().unwrap();
    assert_eq!(msg.commands.len(), 1);
    assert!(
        matches!(&msg.commands[0], UpdateCommand::Delete(d) if d == "alpha.ddns.example.")
    );
    assert!(service.updater.dequeue().is_none());

    // A record expiring exactly at the sweep time stays.
    service.clean_domains_at(186400).unwrap();
    assert!(service.db.get_domain(&"beta.ddns.example.".to_string()).unwrap().is_some());
    service.clean_domains_at(186401).unwrap();
    assert!(service.db.get_domain(&"beta.ddns.example.".to_string()).unwrap().is_none());
}

#[test]
fn dispatcher_is_fifo() {
    let mut q = UpdateDispatcher::new();
    let m1 = UpdateMessage::new_remove_message("ns".to_string(), "a.example.".to_string());
    let m2 = UpdateMessage::new_remove_message("ns".to_string(), "b.example.".to_string());
    q.enqueue(m1).unwrap();
    q.enqueue(m2).unwrap();
    let first = q.dequeue().unwrap();
    assert!(matches!(&first.commands[0], UpdateCommand::Delete(d) if d == "a.example."));
    let second = q.dequeue().unwrap();
    assert!(matches!(&second.commands[0], UpdateCommand::Delete(d) if d == "b.example."));
    assert!(q.dequeue().is_none());
}

#[test]
fn dispatcher_rejects_after_shutdown() {
    let mut q = UpdateDispatcher::new();
    q.shutdown();
    let m = UpdateMessage::new_remove_message("ns".to_string(), "a.example.".to_string());
    assert!(matches!(q.enqueue(m), Err(Error::PropagationFailed)));
    assert_eq!(q.len(), 0);
}

#[test]
fn message_renders_update_protocol_text() {
    let msg = UpdateMessage::from_updaterequest(
        "127.0.0.1".to_string(),
        UpdateRequest {
            domain: "a.dyn.example.com.".to_string(),
            addr: IpAddress::V4(V4Addr { a: 123, b: 23, c: 123, d: 1 }),
            token: "unused".to_string(),
        },
    );
    assert_eq!(
        msg.finalize(),
        "server 127.0.0.1\nupdate delete a.dyn.example.com.\nupdate add a.dyn.example.com. 60 A 123.23.123.1\nsend"
    );

    let msg6 = UpdateMessage::from_updaterequest(
        "127.0.0.1".to_string(),
        UpdateRequest {
            domain: "b.dyn.example.com.".to_string(),
            addr: IpAddress::V6(V6Addr { groups: vec![0x2001, 0xdb8, 0, 0, 0, 0, 0, 1] }),
            token: "unused".to_string(),
        },
    );
    assert_eq!(
        msg6.finalize(),
        "server 127.0.0.1\nupdate delete b.dyn.example.com.\nupdate add b.dyn.example.com. 60 AAAA 2001:db8:0:0:0:0:0:1\nsend"
    );

    let empty = UpdateMessage::new("127.0.0.1".to_string());
    assert_eq!(empty.finalize(), "server 127.0.0.1\nsend");
}

#[test]
fn record_codec_round_trips_every_field() {
    let full = Domain {
        domainname: "alpha.ddns.example.".to_string(),
        token: "0123456789abcdef".to_string(),
        lastupdate: 1234567890,
        valid_until: u64::MAX,
        ipv4: Some(V4Addr { a: 203, b: 0, c: 113, d: 2 }),
        ipv6: Some(V6Addr { groups: vec![0x2001, 0xdb8, 0, 0, 0xffff, 1, 2, 3] }),
    };
    let decoded = decode_record(&encode_record(&full)).unwrap();
    assert_eq!(decoded.domainname, full.domainname);
    assert_eq!(decoded.token, full.token);
    assert_eq!(decoded.lastupdate, full.lastupdate);
    assert_eq!(decoded.valid_until, full.valid_until);
    let (a, b) = (decoded.ipv4.unwrap(), full.ipv4.unwrap());
    assert_eq!((a.a, a.b, a.c, a.d), (b.a, b.b, b.c, b.d));
    assert_eq!(decoded.ipv6.unwrap().groups, full.ipv6.unwrap().groups);

    let bare = Domain {
        domainname: "empty.ddns.example.".to_string(),
        token: "ffffffffffffffff".to_string(),
        lastupdate: 0,
        valid_until: 0,
        ipv4: None,
        ipv6: None,
    };
    let decoded = decode_record(&encode_record(&bare)).unwrap();
    assert_eq!(decoded.domainname, bare.domainname);
    assert_eq!(decoded.token, bare.token);
    assert_eq!(decoded.lastupdate, 0);
    assert_eq!(decoded.valid_until, 0);
    assert!(decoded.ipv4.is_none());
    assert!(decoded.ipv6.is_none());
}

#[test]
fn decoding_garbage_fails() {
    assert!(decode_record(&vec![]).is_none());
    assert!(decode_record(&vec![1, 2, 3]).is_none());
    let mut almost = encode_record(&Domain {
        domainname: "x.".to_string(),
        token: "aaaaaaaaaaaaaaaa".to_string(),
        lastupdate: 1,
        valid_until: 2,
        ipv4: None,
        ipv6: None,
    });
    almost.push(0);
    assert!(decode_record(&almost).is_none());
}

#[test]
fn soa_lookup_synthesizes_the_zone_authority() {
    let cfg = test_config();
    let d = Dname::new("alpha.ddns.example.".to_string());
    let r = lookup_soa(&cfg, &d, 2012081600);
    assert_eq!(r.result.len(), 1);
    assert!(matches!(r.result[0].qtype, QType::SOA));
    assert_eq!(r.result[0].qname, "ddns.example.");
    assert_eq!(
        r.result[0].content,
        "ns1.example. hostmaster.example. 2012081600 10 5 60 5"
    );
    assert_eq!(r.result[0].ttl, 5);

    // The suffix itself also falls under its own zone.
    let suffix = Dname::new("ddns.example.".to_string());
    assert_eq!(lookup_soa(&cfg, &suffix, 1).result.len(), 1);

    let other = Dname::new("alpha.other.example.".to_string());
    assert!(lookup_soa(&cfg, &other, 1).result.is_empty());
}

#[test]
fn lookup_unknown_name_is_empty_not_an_error() {
    let service = test_service();
    let unknown = "nobody.ddns.example.".to_string();
    assert!(lookup_a(&service.db, &unknown).unwrap().result.is_empty());
    assert!(lookup_aaaa(&service.db, &unknown).unwrap().result.is_empty());
    let d = Dname::new("nobody.ddns.example.".to_string());
    assert!(lookup_any(&service.db, &d).unwrap().result.is_empty());
}

#[test]
fn qtype_parsing_ignores_case() {
    assert!(matches!(QType::from_str("A"), Ok(QType::A)));
    assert!(matches!(QType::from_str("a"), Ok(QType::A)));
    assert!(matches!(QType::from_str("AAAA"), Ok(QType::AAAA)));
    assert!(matches!(QType::from_str("aaaa"), Ok(QType::AAAA)));
    assert!(matches!(QType::from_str("Any"), Ok(QType::ANY)));
    assert!(matches!(QType::from_str("soa"), Ok(QType::SOA)));
    assert!(QType::from_str("MX").is_err());
    assert!(QType::from_str("").is_err());
}

#[test]
fn tokens_are_sixteen_hex_characters() {
    for _ in 0..16 {
        let t = generate_token();
        assert_eq!(t.len(), 16);
        assert!(is_lower_hex(&t));
    }
}

#[test]
fn error_messages() {
    assert_eq!(Error::InvalidToken.message(), "the provided token is invalid");
    assert_eq!(Error::DomainNotFound.message(), "the domain was not found");
    assert_eq!(Error::UpdateError("boom".to_string()).message(), "boom");
    assert_eq!(Error::DomainExists.message(), "unknown or undocumented error");
}

#[test]
fn no_name_is_blocklisted() {
    assert!(!domainname_is_blocklisted(&"anything.example.".to_string()));
}
