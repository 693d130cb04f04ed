//! The security block, server names, certificates and what a session is opened with.

use ethernet_ip_adapter::eip::tls::{
    build_client_config, cert_not_after, cert_subject, certs_from_pem, choose_suites, host_of,
    key_from_pem, resolve_server_name, security_status, server_identity, AnchorSource, CaSource,
    ClientIdentity, Fetched, IdentitySource, KeyFormat, SecurityConfig, SecurityMode,
    ServerIdentity, TlsBundle, TlsMeta, TlsSessionInfo, Verification,
};
use ethernet_ip_adapter::security_lifecycle::{client_cert, watched_cert};

fn tls() -> SecurityConfig {
    SecurityConfig {
        mode: SecurityMode::Tls,
        ..SecurityConfig::default()
    }
}

fn secret_client(name: &str) -> Option<ClientIdentity> {
    Some(ClientIdentity {
        cert_secret: Some(name.to_string()),
        cert_file: None,
        key_file: None,
    })
}

fn file_client(cert: Option<&str>, key: Option<&str>) -> Option<ClientIdentity> {
    Some(ClientIdentity {
        cert_secret: None,
        cert_file: cert.map(str::to_string),
        key_file: key.map(str::to_string),
    })
}

fn secret_ca(name: &str) -> Option<CaSource> {
    Some(CaSource {
        secret: Some(name.to_string()),
        file: None,
    })
}

fn file_ca(name: &str) -> Option<CaSource> {
    Some(CaSource {
        secret: None,
        file: Some(name.to_string()),
    })
}

// ---- the block ----

#[test]
fn absent_security_parses_to_none() {
    assert!(SecurityConfig::from_connection(None).unwrap().is_none());
}

#[test]
fn plaintext_is_the_default_mode() {
    let s = SecurityConfig::default();
    assert_eq!(s.mode, SecurityMode::Plaintext);
    assert!(!s.is_tls());
    assert!(s.verify_peer, "verifyPeer defaults on");
    assert!(s.check_expiration, "checkExpiration defaults on");
}

#[test]
fn tls_block_parses_from_connection() {
    let block = SecurityConfig {
        client: secret_client("pki/eip"),
        ca: secret_ca("pki/root"),
        ..tls()
    };
    let s = SecurityConfig::from_connection(Some(Ok(block))).unwrap().unwrap();
    assert!(s.is_tls());
    assert_eq!(s.client.unwrap().cert_secret.as_deref(), Some("pki/eip"));
}

#[test]
fn unknown_security_key_is_rejected() {
    let e = SecurityConfig::from_connection(Some(Err("unknown field `bogus`".to_string())))
        .unwrap_err();
    assert_eq!(e, "connection.security: unknown field `bogus`");
}

#[test]
fn tls_on_push_is_rejected() {
    let s = SecurityConfig {
        client: secret_client("x"),
        ca: secret_ca("y"),
        ..tls()
    };
    let err = s.validate("io-1", true).unwrap_err();
    assert!(err.contains("push"), "{err}");
    assert!(err.contains("DTLS"), "{err}");
}

#[test]
fn tls_without_client_identity_is_rejected() {
    let s = SecurityConfig {
        ca: secret_ca("y"),
        ..tls()
    };
    let err = s.validate("plc", false).unwrap_err();
    assert!(err.contains("client identity"), "{err}");
}

#[test]
fn tls_with_partial_file_identity_is_rejected() {
    let s = SecurityConfig {
        client: file_client(Some("c.pem"), None),
        verify_peer: false,
        ..tls()
    };
    let err = s.validate("plc", false).unwrap_err();
    assert!(err.contains("BOTH certFile and keyFile"), "{err}");
}

#[test]
fn tls_verify_peer_without_ca_is_rejected() {
    let s = SecurityConfig {
        client: file_client(Some("c.pem"), Some("k.pem")),
        ..tls()
    };
    let err = s.validate("plc", false).unwrap_err();
    assert!(err.contains("CA source"), "{err}");
}

#[test]
fn tls_verify_peer_false_without_ca_is_allowed() {
    let s = SecurityConfig {
        client: file_client(Some("c.pem"), Some("k.pem")),
        verify_peer: false,
        ..tls()
    };
    assert!(s.validate("plc", false).is_ok());
}

#[test]
fn tls_with_cert_secret_bundle_satisfies_ca_requirement() {
    let s = SecurityConfig {
        client: secret_client("pki/eip"),
        ..tls()
    };
    assert!(s.validate("plc", false).is_ok());
}

#[test]
fn plaintext_validate_is_noop() {
    assert!(SecurityConfig::default().validate("plc", false).is_ok());
    assert!(SecurityConfig::default().validate("io", true).is_ok());
}

// ---- server names ----

#[test]
fn server_name_defaults_to_endpoint_ip_as_ip_san() {
    let name = resolve_server_name(&tls(), "192.168.10.60:2221").unwrap();
    match name {
        ServerIdentity::IpAddress(ip) => assert_eq!(ip, "192.168.10.60"),
        other => panic!("an IP endpoint is an IP name, got {other:?}"),
    }
}

#[test]
fn server_name_override_dns() {
    let s = SecurityConfig {
        server_name: Some("plc.plant.example".to_string()),
        ..tls()
    };
    let name = resolve_server_name(&s, "10.0.0.1").unwrap();
    match name {
        ServerIdentity::DnsName(n) => assert_eq!(n, "plc.plant.example"),
        other => panic!("expected a DNS name, got {other:?}"),
    }
}

#[test]
fn a_name_that_is_none_is_refused() {
    let s = SecurityConfig {
        server_name: Some("not a name!".to_string()),
        ..tls()
    };
    let err = resolve_server_name(&s, "10.0.0.1").unwrap_err();
    assert!(err.contains("not a name!"), "{err}");
    assert!(server_identity("x", false, true).is_ok());
    assert!(server_identity("x", false, false).is_err());
    assert!(matches!(
        server_identity("x", true, false),
        Ok(ServerIdentity::IpAddress(_))
    ));
}

#[test]
fn host_of_strips_port_keeps_bare_host() {
    assert_eq!(host_of("192.168.1.5:44818"), "192.168.1.5");
    assert_eq!(host_of("plc.example"), "plc.example");
    assert_eq!(host_of("[fe80::1]:2221"), "fe80::1");
}

// ---- certificates ----

struct Minted {
    ca_pem: String,
    client_cert_pem: String,
    client_key_pem: String,
}

fn mint() -> Minted {
    let mut ca_params = rcgen::CertificateParams::new(vec![]).unwrap();
    ca_params.is_ca = rcgen::IsCa::Ca(rcgen::BasicConstraints::Unconstrained);
    ca_params.key_usages = vec![
        rcgen::KeyUsagePurpose::KeyCertSign,
        rcgen::KeyUsagePurpose::CrlSign,
    ];
    let ca_key = rcgen::KeyPair::generate().unwrap();
    let ca_cert = ca_params.self_signed(&ca_key).unwrap();

    let cp = rcgen::CertificateParams::new(vec!["eip-originator".to_string()]).unwrap();
    let client_key = rcgen::KeyPair::generate().unwrap();
    let client_cert = cp.signed_by(&client_key, &ca_cert, &ca_key).unwrap();

    Minted {
        ca_pem: ca_cert.pem(),
        client_cert_pem: client_cert.pem(),
        client_key_pem: client_key.serialize_pem(),
    }
}

fn refused<T>(r: Result<T, String>) -> String {
    match r {
        Ok(_) => panic!("expected a refusal"),
        Err(e) => e,
    }
}

fn nothing() -> Fetched {
    Fetched {
        vault: false,
        bundle: Ok(None),
        cert_file: Err("not read".to_string()),
        key_file: Err("not read".to_string()),
        ca_secret: Ok(None),
        ca_file: Err("not read".to_string()),
    }
}

fn vault_with(m: &Minted) -> Fetched {
    Fetched {
        vault: true,
        bundle: Ok(Some(TlsBundle {
            cert_pem: m.client_cert_pem.clone(),
            key_pem: m.client_key_pem.clone(),
            ca_pem: Some(m.ca_pem.clone()),
        })),
        ca_secret: Ok(Some(m.ca_pem.clone())),
        ..nothing()
    }
}

#[test]
fn build_client_config_from_vault_bundle_and_ca() {
    let m = mint();
    let s = SecurityConfig {
        client: secret_client("pki/eip"),
        ca: secret_ca("pki/root"),
        ..tls()
    };
    let (opts, meta) = build_client_config(&s, "127.0.0.1:2221", &vault_with(&m)).unwrap();
    assert!(matches!(opts.server_name, ServerIdentity::IpAddress(_)));
    assert!(meta.verify_peer);
    assert!(meta.client_cert_not_after.is_some(), "client cert notAfter parsed");
    assert_eq!(opts.verification, Verification::Full);
    assert_eq!(opts.suites.len(), 9);
    let ca = certs_from_pem(&m.ca_pem, "ca").unwrap();
    assert!(opts.roots.contains(&ca[0]));
    let identity = opts.identity.expect("a client identity");
    assert_eq!(
        identity.chain,
        certs_from_pem(&m.client_cert_pem, "client").unwrap()
    );
}

#[test]
fn build_client_config_from_files() {
    let m = mint();
    let s = SecurityConfig {
        client: file_client(Some("client.pem"), Some("client.key")),
        ca: file_ca("ca.pem"),
        ..tls()
    };
    let fetched = Fetched {
        cert_file: Ok(m.client_cert_pem.clone()),
        key_file: Ok(m.client_key_pem.clone()),
        ca_file: Ok(m.ca_pem.clone()),
        ..nothing()
    };
    let (_opts, meta) = build_client_config(&s, "127.0.0.1:2221", &fetched).unwrap();
    assert!(meta.client_cert_not_after.is_some());
}

#[test]
fn build_no_verify_needs_no_ca_and_reports_unverified() {
    let m = mint();
    let s = SecurityConfig {
        client: secret_client("pki/eip"),
        verify_peer: false,
        ..tls()
    };
    let (opts, meta) = build_client_config(&s, "127.0.0.1:2221", &vault_with(&m)).unwrap();
    assert!(!meta.verify_peer);
    assert_eq!(opts.verification, Verification::AcceptAny);
}

#[test]
fn build_verify_peer_without_any_ca_errors() {
    let m = mint();
    let s = SecurityConfig {
        client: file_client(Some("client.pem"), Some("client.key")),
        ..tls()
    };
    let fetched = Fetched {
        cert_file: Ok(m.client_cert_pem.clone()),
        key_file: Ok(m.client_key_pem.clone()),
        ..nothing()
    };
    let err = refused(build_client_config(&s, "127.0.0.1:2221", &fetched));
    assert!(err.contains("no CA"), "{err}");
}

#[test]
fn cert_secret_missing_from_vault_errors() {
    let s = SecurityConfig {
        client: secret_client("pki/absent"),
        verify_peer: false,
        ..tls()
    };
    let fetched = Fetched {
        vault: true,
        ..nothing()
    };
    let err = refused(build_client_config(&s, "127.0.0.1", &fetched));
    assert!(err.contains("not found"), "{err}");
}

#[test]
fn cert_secret_without_vault_errors() {
    let s = SecurityConfig {
        client: secret_client("pki/eip"),
        verify_peer: false,
        ..tls()
    };
    let err = refused(build_client_config(&s, "h", &nothing()));
    assert!(err.contains("no credentials vault"), "{err}");
}

#[test]
fn cipher_suite_constraint_accepts_a_known_gcm_suite() {
    let m = mint();
    let s = SecurityConfig {
        client: secret_client("pki/eip"),
        verify_peer: false,
        cipher_suites: Some(vec![
            "TLS_ECDHE_ECDSA_WITH_AES_128_GCM_SHA256".to_string(),
            "TLS13_AES_128_GCM_SHA256".to_string(),
        ]),
        ..tls()
    };
    let (opts, _) = build_client_config(&s, "127.0.0.1", &vault_with(&m)).unwrap();
    assert_eq!(
        opts.suites,
        vec![
            "TLS13_AES_128_GCM_SHA256",
            "TLS_ECDHE_ECDSA_WITH_AES_128_GCM_SHA256"
        ]
    );
}

#[test]
fn cipher_suite_constraint_rejecting_all_suites_errors() {
    let m = mint();
    let s = SecurityConfig {
        client: secret_client("pki/eip"),
        verify_peer: false,
        cipher_suites: Some(vec!["TLS_RSA_WITH_AES_128_CBC_SHA256".to_string()]),
        ..tls()
    };
    let err = refused(build_client_config(&s, "127.0.0.1", &vault_with(&m)));
    assert!(err.contains("matched no supported suite"), "{err}");
    assert!(
        err.starts_with("security.cipherSuites [\"TLS_RSA_WITH_AES_128_CBC_SHA256\"] matched"),
        "{err}"
    );
}

#[test]
fn every_supported_suite_is_offered_in_order() {
    let m = mint();
    let s = SecurityConfig {
        client: secret_client("pki/eip"),
        verify_peer: false,
        ..tls()
    };
    let (opts, _) = build_client_config(&s, "127.0.0.1", &vault_with(&m)).unwrap();
    let provided: Vec<String> = rustls::crypto::ring::default_provider()
        .cipher_suites
        .iter()
        .map(|c| format!("{:?}", c.suite()))
        .collect();
    assert_eq!(opts.suites, provided);
    assert_eq!(
        opts.suites,
        vec![
            "TLS13_AES_256_GCM_SHA384",
            "TLS13_AES_128_GCM_SHA256",
            "TLS13_CHACHA20_POLY1305_SHA256",
            "TLS_ECDHE_ECDSA_WITH_AES_256_GCM_SHA384",
            "TLS_ECDHE_ECDSA_WITH_AES_128_GCM_SHA256",
            "TLS_ECDHE_ECDSA_WITH_CHACHA20_POLY1305_SHA256",
            "TLS_ECDHE_RSA_WITH_AES_256_GCM_SHA384",
            "TLS_ECDHE_RSA_WITH_AES_128_GCM_SHA256",
            "TLS_ECDHE_RSA_WITH_CHACHA20_POLY1305_SHA256",
        ]
    );
}

#[test]
fn a_suite_is_named_in_any_case() {
    let supported = vec!["A_SUITE".to_string(), "B_SUITE".to_string()];
    let chosen = choose_suites(&Some(vec!["b_Suite".to_string()]), supported).unwrap();
    assert_eq!(chosen, vec!["B_SUITE"]);
}

#[test]
fn security_status_renders_from_session_info() {
    let info = Some(TlsSessionInfo {
        protocol_version: Some("1.3".to_string()),
        cipher_suite: Some("TLS13_AES_128_GCM_SHA256".to_string()),
        peer_cert_der: None,
    });
    let meta = TlsMeta {
        client_cert_not_after: Some("2027-01-01T00:00:00Z".to_string()),
        verify_peer: true,
    };
    let st = security_status(&info, &meta, "192.168.10.60:2221");
    assert!(st.tls);
    assert_eq!(st.tls_version.as_deref(), Some("1.3"));
    assert_eq!(st.cipher_suite.as_deref(), Some("TLS13_AES_128_GCM_SHA256"));
    assert!(st.peer_verified);
    assert_eq!(
        st.peer.as_deref(),
        Some("192.168.10.60"),
        "falls back to endpoint host"
    );
    assert_eq!(
        st.client_cert_not_after.as_deref(),
        Some("2027-01-01T00:00:00Z")
    );
}

#[test]
fn a_presented_certificate_names_the_peer() {
    let mut cp = rcgen::CertificateParams::new(vec!["plc.example".to_string()]).unwrap();
    let mut dn = rcgen::DistinguishedName::new();
    dn.push(rcgen::DnType::CommonName, "plc-7");
    cp.distinguished_name = dn;
    let key = rcgen::KeyPair::generate().unwrap();
    let cert = cp.self_signed(&key).unwrap();
    let info = Some(TlsSessionInfo {
        protocol_version: None,
        cipher_suite: None,
        peer_cert_der: Some(cert.der().to_vec()),
    });
    let st = security_status(&info, &TlsMeta::default(), "10.0.0.1:2221");
    assert_eq!(st.peer.as_deref(), Some("CN=plc-7"));
}

#[test]
fn cert_not_after_parses_a_real_cert() {
    let m = mint();
    let der = certs_from_pem(&m.client_cert_pem, "client").unwrap();
    assert!(cert_not_after(&der[0]).is_some());
    assert!(cert_subject(&der[0]).is_some());
}

#[test]
fn the_end_of_validity_is_an_rfc3339_text() {
    let mut cp = rcgen::CertificateParams::new(vec!["x".to_string()]).unwrap();
    cp.not_after = rcgen::date_time_ymd(2031, 2, 3);
    let key = rcgen::KeyPair::generate().unwrap();
    let cert = cp.self_signed(&key).unwrap();
    assert_eq!(
        cert_not_after(&cert.der().to_vec()).as_deref(),
        Some("2031-02-03T00:00:00Z")
    );
}

#[test]
fn a_certificate_is_watched_by_its_serial_and_its_end() {
    let mut cp = rcgen::CertificateParams::new(vec!["x".to_string()]).unwrap();
    cp.serial_number = Some(rcgen::SerialNumber::from(9_999u64));
    cp.not_after = rcgen::date_time_ymd(2031, 2, 3);
    let key = rcgen::KeyPair::generate().unwrap();
    let der = cp.self_signed(&key).unwrap().der().to_vec();
    let end: u64 = 1927843200;
    let cert = client_cert(&der, 7, end - 10 * 86_400 - 1).expect("a certificate");
    assert_eq!(cert.serial.as_deref(), Some("27:0F"));
    assert_eq!(cert.not_after.as_deref(), Some("2031-02-03T00:00:00Z"));
    assert_eq!(cert.expiry_days, 10);
    assert_eq!(cert.fingerprint, 7);
    assert_eq!(client_cert(&der, 7, end - 1).unwrap().expiry_days, 0);
    assert_eq!(client_cert(&der, 7, end + 3 * 86_400).unwrap().expiry_days, -3);
    assert!(client_cert(&vec![1, 2, 3], 7, 0).is_none());
}

#[test]
fn a_certificate_without_a_known_end_never_expires() {
    let serial = || Some("01".to_string());
    let cert = watched_cert(serial(), None, None, 1, 5).expect("a certificate");
    assert_eq!(cert.expiry_days, i64::MAX);
    assert!(cert.not_after.is_none());
    let long_gone = watched_cert(serial(), Some(0), None, 1, u64::MAX).unwrap();
    assert_eq!(long_gone.expiry_days, -213503982334601);
    assert!(watched_cert(None, Some(9), None, 1, 5).is_none());
}

#[test]
fn bytes_that_are_no_certificate_have_no_subject_and_no_end() {
    let junk = vec![1u8, 2, 3];
    assert!(cert_not_after(&junk).is_none());
    assert!(cert_subject(&junk).is_none());
}

#[test]
fn certificates_and_keys_are_read_from_pem() {
    let m = mint();
    let two = format!("{}{}", m.client_cert_pem, m.ca_pem);
    assert_eq!(certs_from_pem(&two, "chain").unwrap().len(), 2);
    assert!(certs_from_pem("no pem at all", "chain").unwrap().is_empty());
    let e = certs_from_pem("-----BEGIN CERTIFICATE-----\nabc", "chain").unwrap_err();
    assert!(e.starts_with("parsing chain PEM: "), "{e}");
    assert_eq!(key_from_pem(&m.client_key_pem).unwrap().format, KeyFormat::Pkcs8);
    assert!(key_from_pem("no pem at all").is_err());
}

#[test]
fn a_key_that_is_not_the_certificates_is_no_identity() {
    let (a, b) = (mint(), mint());
    let s = SecurityConfig {
        client: file_client(Some("client.pem"), Some("client.key")),
        verify_peer: false,
        ..tls()
    };
    let fetched = Fetched {
        cert_file: Ok(a.client_cert_pem.clone()),
        key_file: Ok(b.client_key_pem.clone()),
        ..nothing()
    };
    assert!(build_client_config(&s, "127.0.0.1", &fetched).is_err());
}

#[test]
fn a_trust_anchor_that_is_no_certificate_is_refused() {
    let m = mint();
    let s = SecurityConfig {
        client: secret_client("pki/eip"),
        ca: secret_ca("pki/root"),
        ..tls()
    };
    let bogus = "-----BEGIN CERTIFICATE-----\nAAAA\n-----END CERTIFICATE-----\n";
    let fetched = Fetched {
        ca_secret: Ok(Some(bogus.to_string())),
        ..vault_with(&m)
    };
    assert!(build_client_config(&s, "127.0.0.1", &fetched).is_err());
}

#[test]
fn a_tolerated_expiry_is_a_policy_of_its_own() {
    let s = SecurityConfig {
        check_expiration: false,
        ..tls()
    };
    assert_eq!(s.verification(false).unwrap(), Verification::TolerateExpiry);
    assert!(s.verification(true).is_err());
}

#[test]
fn sources_are_the_bundle_before_the_files() {
    let s = SecurityConfig {
        client: Some(ClientIdentity {
            cert_secret: Some("pki/eip".to_string()),
            cert_file: Some("c".to_string()),
            key_file: Some("k".to_string()),
        }),
        ca: file_ca("ca.pem"),
        ..tls()
    };
    assert!(matches!(s.identity_source(), IdentitySource::Bundle(n) if n == "pki/eip"));
    assert!(matches!(s.anchor_source(), AnchorSource::File(n) if n == "ca.pem"));
}
