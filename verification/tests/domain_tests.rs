use ffdyndns::domain::Dname;

#[test]
fn suffix_test() {
    let base = Dname::new("ffhl.de.".to_string());
    let subdomain1 = Dname::new("foo.bar.ffhl.de.".to_string());
    let subdomain2 = Dname::new("foo.ffhl.de.".to_string());
    let subdomain3 = Dname::new("ffhl.de.".to_string());
    let subdomain4 = Dname::new("de.".to_string());

    assert!(subdomain1.ends_with(&base));
    assert!(subdomain2.ends_with(&base));
    assert!(subdomain3.ends_with(&base));
    assert!(!subdomain4.ends_with(&base));
}

#[test]
fn domain_suffix_test() {
    let base = Dname::new("ffhl.de.".to_string());
    let subdomain1 = Dname::new("foo.bar.ffhl.de.".to_string());
    let subdomain2 = Dname::new("foo.ffhl.de.".to_string());
    let subdomain3 = Dname::new("ffhl.de.".to_string());
    let subdomain4 = Dname::new("de.".to_string());

    assert!(subdomain1.ends_with(&base));
    assert!(subdomain2.ends_with(&base));
    assert!(subdomain3.ends_with(&base));
    assert!(!subdomain4.ends_with(&base));
}

#[test]
fn subdomain_test() {
    let base = Dname::new("ffhl.de.".to_string());

    let subdomain1 = &Dname::new("foo.ffhl.de.".to_string());
    let subdomain2 = &Dname::new("foo.bar.ffhl.de.".to_string());

    let not_subdomain1 = &Dname::new("foo.chaotikum.de.".to_string());
    let not_subdomain2 = &Dname::new("ffhl.de.".to_string());
    let not_subdomain3 = &Dname::new("net.".to_string());

    assert!(base.is_subdomain(subdomain1));
    assert!(base.is_subdomain(subdomain2));

    assert!(!base.is_subdomain(not_subdomain1));
    assert!(!base.is_subdomain(not_subdomain2));
    assert!(!base.is_subdomain(not_subdomain3));

    assert!(subdomain1.is_subdomain_of(&base));
    assert!(subdomain2.is_subdomain_of(&base));
    assert!(!not_subdomain1.is_subdomain_of(&base));
    assert!(!not_subdomain2.is_subdomain_of(&base));
}

#[test]
fn domain_subdomain_test() {
    let base = Dname::new("ffhl.de.".to_string());

    let subdomain1 = &Dname::new("foo.ffhl.de.".to_string());
    let subdomain2 = &Dname::new("foo.bar.ffhl.de.".to_string());

    let not_subdomain1 = &Dname::new("foo.chaotikum.de.".to_string());
    let not_subdomain2 = &Dname::new("ffhl.de.".to_string());
    let not_subdomain3 = &Dname::new("net.".to_string());

    assert!(base.is_subdomain(subdomain1));
    assert!(base.is_subdomain(subdomain2));

    assert!(!base.is_subdomain(not_subdomain1));
    assert!(!base.is_subdomain(not_subdomain2));
    assert!(!base.is_subdomain(not_subdomain3));

    assert!(subdomain1.is_subdomain_of(&base));
    assert!(subdomain2.is_subdomain_of(&base));
    assert!(!not_subdomain1.is_subdomain_of(&base));
    assert!(!not_subdomain2.is_subdomain_of(&base));
}

#[test]
fn subdomnain_stripping() {
    let domain1 = Dname::new("test.ffhl.de.".to_string());
    let domain2 = Dname::new("foo.bar.ffhl.de.".to_string());

    assert_eq!(domain1.strip_subdomain(), "ffhl.de.");
    assert_eq!(domain2.strip_subdomain(), "bar.ffhl.de.");
}

#[test]
fn strip_one_label() {
    let domain = Dname::new("foo.bar.example.org.".to_string());
    assert_eq!(domain.strip_subdomain(), "bar.example.org.");
}

#[test]
fn name_normalization() {
    let with_dot = Dname::new("a.example.org.".to_string());
    let without_dot = Dname::new("a.example.org".to_string());
    assert_eq!(with_dot.to_string(), "a.example.org.");
    assert_eq!(without_dot.to_string(), "a.example.org.");
    assert!(with_dot.ends_with(&without_dot));
    assert!(without_dot.ends_with(&with_dot));
}

#[test]
fn ends_with_is_label_based() {
    // "hl.de." is a suffix of the *text* "ffhl.de." but not of its labels.
    let base = Dname::new("hl.de.".to_string());
    let other = Dname::new("ffhl.de.".to_string());
    assert!(!other.ends_with(&base));
    assert!(!other.is_subdomain_of(&base));
}
