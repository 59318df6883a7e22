//! The arguments of the program, fingerprints, and the fallback to plain TCP.

use capsaicin::cli::connect::{contains, looks_like_tls_handshake_failure, names_plain_peer};
use capsaicin::cli::{
    first_attempt, parse_args, parse_password_flag, parse_tls_policy, retry, ArgError, Attempt,
    Command, TlsPolicy, MAX_CONCURRENT_CONNS,
};
use capsaicin::net::tls::{
    ca_bundle, ca_certs, check_roots, compare_fingerprint, hex, sni_for, verify_fingerprint, CaError,
};
use capsaicin::net::{parse_fingerprint, NetError, TlsConfig};

fn args(list: &[&str]) -> Vec<String> {
    list.iter().map(|s| s.to_string()).collect()
}

#[test]
fn the_first_password_flag_counts() {
    assert_eq!(parse_password_flag(&args(&["--tls"])), Ok(None));
    assert_eq!(
        parse_password_flag(&args(&["--tls", "-p", "a", "--password", "b"])),
        Ok(Some("a".to_string()))
    );
    assert_eq!(parse_password_flag(&args(&["--password", ""])), Ok(Some(String::new())));
    assert_eq!(
        parse_password_flag(&args(&["--password"])),
        Err(ArgError::PasswordValue { short: false })
    );
    assert_eq!(parse_password_flag(&args(&["-p"])), Err(ArgError::PasswordValue { short: true }));
}

#[test]
fn the_default_is_tls_with_fallback() {
    assert!(matches!(
        parse_tls_policy(&args(&[])),
        Ok(TlsPolicy::Auto(TlsConfig::SystemRoots))
    ));
    assert!(matches!(
        parse_tls_policy(&args(&["--tls"])),
        Ok(TlsPolicy::Tls(TlsConfig::SystemRoots))
    ));
    assert!(matches!(parse_tls_policy(&args(&["--no-tls"])), Ok(TlsPolicy::Plain)));
}

#[test]
fn trust_flags_imply_tls() {
    assert!(matches!(
        parse_tls_policy(&args(&["--insecure"])),
        Ok(TlsPolicy::Tls(TlsConfig::Insecure))
    ));
    match parse_tls_policy(&args(&["--ca-file", "ca.pem"])) {
        Ok(TlsPolicy::Tls(TlsConfig::CaFile(path))) => assert_eq!(path, "ca.pem"),
        other => panic!("unexpected {other:?}"),
    }
    let pin = "ab".repeat(32);
    match parse_tls_policy(&args(&["--fingerprint", &pin])) {
        Ok(TlsPolicy::Tls(TlsConfig::Fingerprint(f))) => assert_eq!(f, [0xab; 32]),
        other => panic!("unexpected {other:?}"),
    }
    // The last one counts.
    assert!(matches!(
        parse_tls_policy(&args(&["--ca-file", "x", "--insecure"])),
        Ok(TlsPolicy::Tls(TlsConfig::Insecure))
    ));
}

#[test]
fn contradictory_and_incomplete_flags_are_errors() {
    let err = |list: &[&str]| parse_tls_policy(&args(list)).unwrap_err();
    assert_eq!(err(&["--no-tls", "--tls"]), ArgError::PlainAndTls);
    assert_eq!(err(&["--insecure", "--no-tls"]), ArgError::PlainAndTls);
    assert_eq!(err(&["--ca-file"]), ArgError::CaFileValue);
    assert_eq!(err(&["--fingerprint"]), ArgError::FingerprintValue);
    assert_eq!(
        err(&["--fingerprint", "abc"]),
        ArgError::Fingerprint(NetError::FingerprintLength { len: 3 })
    );
}

#[test]
fn commands_are_parsed() {
    match parse_args(&args(&["connect", "host:1", "-p", "pw", "--no-tls"])) {
        Ok(Command::Connect { addr, password, policy: TlsPolicy::Plain }) => {
            assert_eq!((addr.as_str(), password.as_str()), ("host:1", "pw"));
        }
        other => panic!("unexpected {other:?}"),
    }
    match parse_args(&args(&["view", "host:1"])) {
        Ok(Command::View { addr, password, policy: TlsPolicy::Auto(_) }) => {
            assert_eq!((addr.as_str(), password.as_str()), ("host:1", ""));
        }
        other => panic!("unexpected {other:?}"),
    }
    match parse_args(&args(&["serve", "0.0.0.0:5900", "--password", ""])) {
        Ok(Command::Serve { addr, password }) => {
            assert_eq!((addr.as_str(), password.as_str()), ("0.0.0.0:5900", ""));
        }
        other => panic!("unexpected {other:?}"),
    }
    for help in ["-h", "--help", "help"] {
        assert!(matches!(parse_args(&args(&[help])), Ok(Command::Help)));
    }
}

#[test]
fn bad_commands_are_errors() {
    let err = |list: &[&str]| parse_args(&args(list)).unwrap_err();
    assert_eq!(err(&[]), ArgError::Usage);
    for c in ["connect", "serve", "view"] {
        assert_eq!(err(&[c]), ArgError::Usage);
    }
    assert_eq!(err(&["serve", "a:1"]), ArgError::ServePassword);
    assert_eq!(err(&["serve", "a:1", "-p"]), ArgError::PasswordValue { short: true });
    // The password is looked at before the transport.
    assert_eq!(
        err(&["connect", "a:1", "--tls", "--no-tls", "--password"]),
        ArgError::PasswordValue { short: false }
    );
    assert_eq!(err(&["view", "a:1", "--tls", "--no-tls"]), ArgError::PlainAndTls);
    assert_eq!(err(&["dance"]), ArgError::UnknownCommand);
}

#[test]
fn fallback_is_for_peers_without_tls() {
    for text in [
        "io: TLS handshake: unexpected message",
        "Invalid SNI name",
        "io: unexpected EOF during handshake",
        "Connection reset by peer",
        "cannot DECRYPT peer's message",
    ] {
        assert!(looks_like_tls_handshake_failure(true, text), "{text}");
        assert!(!looks_like_tls_handshake_failure(false, text), "{text}");
    }
    assert!(!looks_like_tls_handshake_failure(true, "link: permission denied"));
    assert!(!names_plain_peer("TLS HANDSHAKE"));
    assert!(contains("abcabd", "abd"));
    assert!(contains("abc", ""));
    assert!(!contains("ab", "abc"));
}

#[test]
fn attempts_follow_the_policy() {
    let auto = TlsPolicy::Auto(TlsConfig::SystemRoots);
    let tls = TlsPolicy::Tls(TlsConfig::Insecure);
    assert!(matches!(first_attempt(&auto), Attempt::Tls(TlsConfig::SystemRoots)));
    assert!(matches!(first_attempt(&tls), Attempt::Tls(TlsConfig::Insecure)));
    assert!(matches!(first_attempt(&TlsPolicy::Plain), Attempt::Plain));
    assert!(matches!(retry(&auto, true, "TLS handshake failed"), Some(Attempt::Plain)));
    assert!(retry(&auto, true, "permission denied").is_none());
    assert!(retry(&tls, true, "TLS handshake failed").is_none());
    assert!(retry(&TlsPolicy::Plain, true, "connection reset").is_none());
    assert_eq!(MAX_CONCURRENT_CONNS, 64);
}

#[test]
fn fingerprints_are_parsed_in_either_form() {
    let plain = "00112233445566778899AABBCCDDEEFF00112233445566778899aabbccddeeff";
    let f = parse_fingerprint(plain).unwrap();
    assert_eq!(&f[..4], &[0x00, 0x11, 0x22, 0x33]);
    assert_eq!(f[31], 0xff);
    let mut colons = String::new();
    for (i, c) in plain.chars().enumerate() {
        if i > 0 && i % 2 == 0 {
            colons.push(':');
        }
        colons.push(c);
    }
    assert_eq!(parse_fingerprint(&colons), Ok(f));
    assert_eq!(hex(&f), plain.to_lowercase());
    assert_eq!(parse_fingerprint("aa"), Err(NetError::FingerprintLength { len: 2 }));
    assert_eq!(parse_fingerprint(&"zz".repeat(32)), Err(NetError::FingerprintHex));
    assert_eq!(parse_fingerprint(&"+1".repeat(32)), Err(NetError::FingerprintHex));
    assert_eq!(parse_fingerprint(&"1+".repeat(32)), Err(NetError::FingerprintHex));
}

#[test]
fn certificates_are_held_to_the_pin() {
    // SHA-256 of "abc".
    let pin =
        parse_fingerprint("ba7816bf8f01cfea414140de5dae2223b00361a396177a9cb410ff61f20015ad")
            .unwrap();
    assert_eq!(verify_fingerprint(&pin, b"abc"), Ok(()));
    let m = verify_fingerprint(&pin, b"abd").unwrap_err();
    assert_eq!(m.expected, hex(&pin));
    assert_ne!(m.actual, m.expected);
    assert_eq!(compare_fingerprint(&pin, &pin), Ok(()));
    assert!(compare_fingerprint(&pin, &[0; 32]).is_err());
}

#[test]
fn ca_bundles_are_read() {
    let bundle = "some text
-----BEGIN CERTIFICATE-----
AQID
-----END CERTIFICATE-----
-----BEGIN PUBLIC KEY-----
BAUG
-----END PUBLIC KEY-----
-----BEGIN CERTIFICATE-----
/w==
-----END CERTIFICATE-----
";
    assert_eq!(ca_certs(bundle.as_bytes()), Ok(vec![vec![1, 2, 3], vec![255]]));
    assert_eq!(ca_certs(b""), Err(CaError::NoCertificates));
    assert_eq!(ca_certs(b"no bundle at all"), Err(CaError::NoCertificates));
    let cut = &bundle.as_bytes()[..bundle.len() - 10];
    assert!(matches!(ca_certs(cut), Err(CaError::Parse(_))));

    assert_eq!(ca_bundle(Ok(vec![vec![7]])), Ok(vec![vec![7]]));
    assert_eq!(ca_bundle(Ok(vec![])), Err(CaError::NoCertificates));
    assert_eq!(ca_bundle(Err("x".to_string())), Err(CaError::Parse("x".to_string())));
}

#[test]
fn one_accepted_root_is_enough() {
    assert_eq!(check_roots(&[false, true, false]), Ok(()));
    assert_eq!(check_roots(&[false, false]), Err(CaError::NoCertificates));
    assert_eq!(check_roots(&[]), Err(CaError::NoCertificates));
}

#[test]
fn server_names() {
    let ca = TlsConfig::CaFile("ca.pem".to_string());
    assert_eq!(sni_for("example.org:5900", &ca), "example.org");
    assert_eq!(sni_for("[::1]:5900", &TlsConfig::SystemRoots), "::1");
    assert_eq!(sni_for("example.org", &ca), "example.org");
    assert_eq!(sni_for("example.org:5900", &TlsConfig::Insecure), "spice");
    assert_eq!(sni_for("x:1", &TlsConfig::Fingerprint([0; 32])), "spice");
}
