use sozu_lib::tls::{
    AddCertificate, CertificateResolver, CertificateResolverError, CertifiedKeyWrapper,
    Fingerprint, PrivateKeyKind, Resolution, X509Attributes,
};

const YEAR: i64 = 365 * 24 * 3600;

/// A key of three bytes, in PEM.
fn key_pem() -> String {
    format!("-----BEGIN {0}-----\nAQID\n-----END {0}-----\n", "PRIVATE KEY")
}

fn names(list: &[&str]) -> Vec<String> {
    list.iter().map(|n| n.to_string()).collect()
}

fn request(leaf: &[u8], own_names: &[&str], not_after: i64) -> AddCertificate {
    AddCertificate {
        certificate: Ok(leaf.to_vec()),
        x509: Ok(X509Attributes {
            names: names(own_names),
            not_after,
        }),
        names: vec![],
        certificate_chain: vec![],
        key: key_pem(),
        expired_at: None,
    }
}

fn certificate(add: &AddCertificate, number: u64) -> CertifiedKeyWrapper {
    let parts = add.read().expect("the certificate must be readable");
    CertifiedKeyWrapper::try_from(parts, Ok(number)).expect("the key must be usable")
}

fn add(resolver: &mut CertificateResolver, add: &AddCertificate, number: u64) -> Fingerprint {
    resolver.add_certificate(certificate(add, number))
}

fn served<'a>(resolver: &'a CertificateResolver, name: &str) -> Option<&'a Fingerprint> {
    resolver.domain_lookup(name.as_bytes(), true).map(|found| found.1)
}

fn copy(fingerprint: &Fingerprint) -> Fingerprint {
    Fingerprint(fingerprint.0.clone())
}

#[test]
fn lifecycle() {
    let mut resolver = CertificateResolver::new();
    let fingerprint = add(
        &mut resolver,
        &request(b"leaf", &["lolcatho.st", "localhost"], YEAR),
        1,
    );

    assert!(
        resolver.get_certificate(&fingerprint).is_some(),
        "failed to retrieve certificate"
    );

    let names = resolver.certificate_names(&fingerprint);
    assert!(resolver.remove_certificate(&fingerprint).is_ok());

    assert!(
        resolver.get_certificate(&fingerprint).is_none(),
        "We have retrieved the certificate that should be deleted"
    );
    assert!(
        resolver.find_certificates_by_names(&names).is_empty(),
        "The certificate should be deleted but one of its names is in the index"
    );
}

#[test]
fn name_override() {
    let mut resolver = CertificateResolver::new();
    let mut overridden = request(b"leaf", &["example.org"], YEAR);
    overridden.names = names(&["localhost", "lolcatho.st"]);
    let fingerprint = add(&mut resolver, &overridden, 1);

    assert!(resolver.get_certificate(&fingerprint).is_some());
    assert!(
        !resolver
            .find_certificates_by_names(&names(&["lolcatho.st"]))
            .is_empty(),
        "failed to retrieve certificate with custom names"
    );
    assert!(resolver
        .find_certificates_by_names(&names(&["example.org"]))
        .is_empty());

    assert!(resolver.remove_certificate(&fingerprint).is_ok());

    let left = resolver.certificate_names(&fingerprint);
    assert!(resolver.find_certificates_by_names(&left).is_empty());
    assert!(resolver.get_certificate(&fingerprint).is_none());
}

#[test]
fn keep_resolving_with_wildcard() {
    let mut resolver = CertificateResolver::new();
    let mut wildcard = request(b"wildcard", &["*.example.org"], 0);
    wildcard.expired_at = Some(YEAR);
    let wildcard_fingerprint = add(&mut resolver, &wildcard, 1);
    assert!(resolver.get_certificate(&wildcard_fingerprint).is_some());

    let mut www = request(b"www", &["example.org", "www.example.org"], 0);
    www.expired_at = Some(2 * YEAR);
    let www_fingerprint = add(&mut resolver, &www, 2);

    assert_eq!(served(&resolver, "www.example.org"), Some(&www_fingerprint));
    assert_eq!(
        served(&resolver, "test.example.org"),
        Some(&wildcard_fingerprint)
    );
    assert_eq!(served(&resolver, "example.org"), Some(&www_fingerprint));

    resolver
        .remove_certificate(&www_fingerprint)
        .expect("should be able to remove the 2-year certificate");

    assert_eq!(
        served(&resolver, "www.example.org"),
        Some(&wildcard_fingerprint)
    );
    assert!(served(&resolver, "example.org").is_none());
}

#[test]
fn resolve_the_longer_lived_cert() {
    let mut resolver = CertificateResolver::new();
    let fingerprint_2y = add(&mut resolver, &request(b"2y", &["localhost"], 2 * YEAR), 1);
    assert!(resolver.get_certificate(&fingerprint_2y).is_some());
    let fingerprint_1y = add(&mut resolver, &request(b"1y", &["localhost"], YEAR), 2);

    assert_eq!(served(&resolver, "localhost"), Some(&fingerprint_2y));

    resolver
        .remove_certificate(&fingerprint_2y)
        .expect("should be able to remove the 2-year certificate");

    assert_eq!(served(&resolver, "localhost"), Some(&fingerprint_1y));
}

#[test]
fn expiration_override() {
    let mut resolver = CertificateResolver::new();
    let mut overridden = request(b"1y", &["localhost"], YEAR);
    overridden.expired_at = Some(3 * YEAR);
    let fingerprint_1y_overriden = add(&mut resolver, &overridden, 1);
    assert!(resolver.get_certificate(&fingerprint_1y_overriden).is_some());
    let fingerprint_2y = add(&mut resolver, &request(b"2y", &["localhost"], 2 * YEAR), 2);

    assert_eq!(
        served(&resolver, "localhost"),
        Some(&fingerprint_1y_overriden)
    );

    resolver
        .remove_certificate(&fingerprint_1y_overriden)
        .expect("should be able to remove the 1-year (3-year-overriden) certificate");

    assert_eq!(served(&resolver, "localhost"), Some(&fingerprint_2y));
}

#[test]
fn replace_certificate_add_before_remove() {
    let mut resolver = CertificateResolver::new();
    let fingerprint_1y = add(&mut resolver, &request(b"1y", &["localhost"], YEAR), 1);
    assert!(
        served(&resolver, "localhost").is_some(),
        "initial certificate should be resolvable"
    );

    let new_fingerprint = resolver.replace_certificate(
        certificate(&request(b"2y", &["localhost"], 2 * YEAR), 2),
        Some(copy(&fingerprint_1y)),
    );

    assert!(
        resolver.get_certificate(&fingerprint_1y).is_none(),
        "old certificate should have been removed"
    );
    assert!(
        resolver.get_certificate(&new_fingerprint).is_some(),
        "new certificate should be present"
    );
    assert_eq!(
        served(&resolver, "localhost"),
        Some(&new_fingerprint),
        "resolved certificate should be the replacement"
    );
}

#[test]
fn replace_certificate_with_same_fingerprint_is_noop() {
    let mut resolver = CertificateResolver::new();
    let cert = request(b"1y", &["localhost"], YEAR);
    let initial_fingerprint = add(&mut resolver, &cert, 1);

    let returned_fingerprint =
        resolver.replace_certificate(certificate(&cert, 2), Some(copy(&initial_fingerprint)));

    assert_eq!(
        returned_fingerprint, initial_fingerprint,
        "idempotent replace should return the existing fingerprint"
    );
    assert!(
        resolver.get_certificate(&initial_fingerprint).is_some(),
        "idempotent replace must NOT delete the existing certificate"
    );
    assert_eq!(
        served(&resolver, "localhost"),
        Some(&initial_fingerprint),
        "resolver should still hand back the original fingerprint"
    );
}

#[test]
fn removal_cleans_up_empty_index_entries() {
    let mut resolver = CertificateResolver::new();
    let fingerprint = add(&mut resolver, &request(b"1y", &["localhost"], YEAR), 1);

    let names = resolver.certificate_names(&fingerprint);
    assert!(
        !names.is_empty(),
        "certificate should have at least one name"
    );
    for name in &names {
        assert!(
            resolver.name_fingerprint_idx.get(name).is_some(),
            "name_fingerprint_idx should contain '{name}' before removal"
        );
    }

    assert!(resolver.remove_certificate(&fingerprint).is_ok());

    for name in &names {
        assert!(
            resolver.name_fingerprint_idx.get(name).is_none(),
            "name_fingerprint_idx should not contain empty entry for '{name}' after removal"
        );
    }
}

#[test]
fn certificate_chain_dedup_drops_duplicate_leaf() {
    let mut resolver = CertificateResolver::new();
    let mut duplicated = request(b"leaf", &["localhost"], YEAR);
    duplicated.certificate_chain = vec![Ok(b"leaf".to_vec())];
    let fingerprint = add(&mut resolver, &duplicated, 1);

    let stored = resolver
        .get_certificate(&fingerprint)
        .expect("resolver lost the certificate after add");
    assert_eq!(
        stored.chain.len(),
        1,
        "expected dedup to drop the duplicate leaf, got chain of {} cert(s)",
        stored.chain.len()
    );
}

#[test]
fn certificate_chain_handles_multi_pem_single_entry() {
    let mut resolver = CertificateResolver::new();
    let mut duplicated = request(b"leaf", &["localhost"], YEAR);
    duplicated.certificate_chain = vec![Ok(b"leaf".to_vec()), Ok(b"leaf".to_vec())];
    let fingerprint = add(&mut resolver, &duplicated, 1);

    let stored = resolver
        .get_certificate(&fingerprint)
        .expect("resolver lost the certificate after add");
    assert_eq!(
        stored.chain.len(),
        1,
        "expected split + dedup to leave only the leaf, got chain of {} cert(s)",
        stored.chain.len()
    );
}

#[test]
fn a_chain_keeps_its_order_behind_the_leaf() {
    let mut full = request(b"leaf", &["localhost"], YEAR);
    full.certificate_chain = vec![
        Ok(b"leaf".to_vec()),
        Ok(b"intermediate".to_vec()),
        Ok(b"root".to_vec()),
    ];
    let parts = full.read().unwrap();
    assert_eq!(
        parts.chain,
        vec![b"leaf".to_vec(), b"intermediate".to_vec(), b"root".to_vec()]
    );
    assert_eq!(parts.private_key_kind, PrivateKeyKind::Pkcs8);
    assert_eq!(parts.private_key, vec![1, 2, 3]);
    assert_eq!(parts.expiration, YEAR);
}

#[test]
fn a_fingerprint_is_the_digest_of_the_certificate() {
    let parts = request(b"abc", &["localhost"], YEAR).read().unwrap();
    let hex: String = parts.fingerprint.0.iter().map(|b| format!("{b:02x}")).collect();
    assert_eq!(
        hex,
        "ba7816bf8f01cfea414140de5dae2223b00361a396177a9cb410ff61f20015ad"
    );
}

#[test]
fn each_part_that_cannot_be_read_has_its_error() {
    let mut add = request(b"leaf", &["localhost"], YEAR);
    add.key = "no key".to_owned();
    let error = add.read().unwrap_err();
    assert!(matches!(error, CertificateResolverError::EmptyKeys));
    assert_eq!(error.message(), "empty key");

    add.certificate_chain = vec![
        Ok(b"fine".to_vec()),
        Err("link".to_owned()),
        Err("later".to_owned()),
    ];
    assert_eq!(
        add.read().unwrap_err().message(),
        "error parsing pem formated certificate from bytes: link"
    );

    add.x509 = Err("x509".to_owned());
    assert_eq!(
        add.read().unwrap_err().message(),
        "error parsing x509 cert from bytes: x509"
    );

    add.certificate = Err("leaf".to_owned());
    assert_eq!(
        add.read().unwrap_err().message(),
        "error parsing pem formated certificate from bytes: leaf"
    );

    let parts = request(b"leaf", &["localhost"], YEAR).read().unwrap();
    let error = CertifiedKeyWrapper::try_from(parts, Err("unsupported".to_owned())).unwrap_err();
    assert_eq!(error.message(), "invalid private key: unsupported");
}

#[test]
fn a_certificate_that_is_there_is_not_added_again() {
    let mut resolver = CertificateResolver::new();
    let cert = request(b"leaf", &["localhost"], YEAR);
    let first = add(&mut resolver, &cert, 1);
    let mut later = request(b"leaf", &["other"], 9 * YEAR);
    later.names = names(&["other"]);
    let second = add(&mut resolver, &later, 2);
    assert_eq!(first, second);
    assert_eq!(resolver.get_certificate(&first).unwrap().inner, 1);
    assert!(served(&resolver, "other").is_none());
}

#[test]
fn an_old_fingerprint_that_makes_no_sense_leaves_the_old_certificate() {
    let mut resolver = CertificateResolver::new();
    let old = add(&mut resolver, &request(b"old", &["localhost"], YEAR), 1);
    let new =
        resolver.replace_certificate(certificate(&request(b"new", &["localhost"], 2 * YEAR), 2), None);
    assert!(resolver.get_certificate(&old).is_some());
    assert_eq!(served(&resolver, "localhost"), Some(&new));
}

#[test]
fn what_is_served_depends_on_the_name() {
    let mut resolver = CertificateResolver::new();
    let _ = add(&mut resolver, &request(b"w", &["*.example.org"], YEAR), 7);
    assert_eq!(resolver.resolve(None), Resolution::NoName);
    assert_eq!(
        resolver.resolve(Some(b"a.example.org")),
        Resolution::Certificate(7)
    );
    assert_eq!(
        resolver.resolve(Some(b"example.com")),
        Resolution::Default
    );
    assert_eq!(
        resolver.names_for_sni(b"a.example.org"),
        Some(names(&["*.example.org"]))
    );
    assert_eq!(resolver.names_for_sni(b"example.com"), None);
}

#[test]
fn the_gauge_is_when_the_first_certificate_expires() {
    let mut resolver = CertificateResolver::new();
    assert_eq!(resolver.min_expires_at_seconds(), None);
    let _ = add(&mut resolver, &request(b"a", &["a"], 2 * YEAR), 1);
    let _ = add(&mut resolver, &request(b"b", &["b"], YEAR), 2);
    assert_eq!(resolver.min_expires_at_seconds(), Some(YEAR as u64));
    let _ = add(&mut resolver, &request(b"c", &["c"], -5), 3);
    assert_eq!(resolver.min_expires_at_seconds(), Some(0));
}

#[test]
fn of_certificates_that_live_equally_long_the_last_is_served() {
    let mut resolver = CertificateResolver::new();
    let first = add(&mut resolver, &request(b"a", &["n"], YEAR), 1);
    let second = add(&mut resolver, &request(b"b", &["n"], YEAR), 2);
    assert_eq!(served(&resolver, "n"), Some(&second));
    let found = resolver.find_certificates_by_names(&names(&["n", "n", "m"]));
    assert_eq!(found.len(), 2);
    assert!(found.contains(&first));
    assert!(found.contains(&second));
}

#[test]
fn a_certificate_that_is_not_there_is_added_in_its_own_place() {
    let mut resolver = CertificateResolver::new();
    let new = certificate(&request(b"new", &["localhost"], YEAR), 1);
    let own = copy(&new.fingerprint);
    let fingerprint = resolver.replace_certificate(new, Some(own));
    assert!(resolver.get_certificate(&fingerprint).is_some());
    assert_eq!(served(&resolver, "localhost"), Some(&fingerprint));
}

#[test]
fn the_format_of_a_key_is_told() {
    for (label, kind) in [
        ("RSA PRIVATE KEY", PrivateKeyKind::Pkcs1),
        ("EC PRIVATE KEY", PrivateKeyKind::Sec1),
        ("PRIVATE KEY", PrivateKeyKind::Pkcs8),
    ] {
        let mut add = request(b"leaf", &["localhost"], YEAR);
        add.key = format!("-----BEGIN {label}-----\nAQID\n-----END {label}-----\n");
        let parts = add.read().unwrap();
        assert_eq!(parts.private_key_kind, kind);
        assert_eq!(parts.private_key, vec![1, 2, 3]);
    }
}
