//! URLs, the outbound connection and the authentication of the server.

use espcan_br::autoconnect::state::{
    BAD_CONFIG, CONNECTED, CONNECTING, DISABLED, DNS_FAIL, PIN_MISMATCH, TCP_FAIL, TLS_FAIL,
};
use espcan_br::autoconnect::{
    first_v4, read_target, state_str, token_greeting, Action, Dialer, Event, Phase,
};
use espcan_br::hex::push_hex;
use espcan_br::tls::{
    extract_p256_pubkey, judge, signed_data, PinnedVerifier, SignatureScheme, TlsError,
};
use espcan_br::url::{find_query_value, parse_ipv4, parse_pubkey, parse_url, push_dotted};
use p256::ecdsa::signature::Signer;
use p256::ecdsa::{Signature, SigningKey};

const ECDSA: SignatureScheme = SignatureScheme::EcdsaSecp256r1Sha256;

fn signer(seed: u8) -> (SigningKey, [u8; 65]) {
    let sk = SigningKey::from_slice(&[seed; 32]).unwrap();
    let mut key = [0u8; 65];
    key.copy_from_slice(sk.verifying_key().to_encoded_point(false).as_bytes());
    (sk, key)
}

fn certificate(key: &[u8; 65]) -> Vec<u8> {
    let mut der = vec![0x30, 0x59, 0x03, 0x42, 0x01];
    der.extend_from_slice(&[0x03, 0x42, 0x00]);
    der.extend_from_slice(key);
    der.extend_from_slice(&[0x05, 0x00]);
    der
}

fn hex(key: &[u8]) -> String {
    let mut s = String::new();
    push_hex(&mut s, key);
    s
}

#[test]
fn plain_url() {
    let u = parse_url("tcp://example.org:2000/").unwrap();
    assert!(!u.tls);
    assert_eq!(u.host, "example.org");
    assert_eq!(u.port, 2000);
    assert_eq!(u.pubkey, None);
    assert_eq!(u.token, None);
}

#[test]
fn tls_url_with_query() {
    let u = parse_url("tls://10.0.0.7:443/?pubkey=04AB&token=beef").unwrap();
    assert!(u.tls);
    assert_eq!(u.host, "10.0.0.7");
    assert_eq!(u.port, 443);
    assert_eq!(u.pubkey, Some("04AB"));
    assert_eq!(u.token, Some("beef"));
}

#[test]
fn url_corner_cases() {
    let u = parse_url("tcp://h:+80///?a&token=1&token=x=y&&pubkey=").unwrap();
    assert_eq!((u.host, u.port), ("h", 80));
    assert_eq!(u.token, Some("x=y"));
    assert_eq!(u.pubkey, Some(""));
    let u = parse_url("tls://[::1]:9?token=a?b").unwrap();
    assert_eq!((u.host, u.port, u.token), ("[::1]", 9, Some("a?b")));
    let u = parse_url("tcp://h\u{e9}:1").unwrap();
    assert_eq!(u.host, "h\u{e9}");
}

#[test]
fn bad_urls_are_refused() {
    for url in [
        "",
        "tcp:/h:1/",
        "http://h:1/",
        "TLS://h:1/",
        "tcp://h/",
        "tcp://:1/",
        "tcp://h:/",
        "tcp://h:65536/",
        "tcp://h:1x/",
        "tcp://h:-1/",
        "tcp://h:1/path",
        "://h:1",
    ] {
        assert!(parse_url(url).is_none(), "{}", url);
    }
    assert!(parse_url("tcp://h:65535/").is_some());
}

#[test]
fn last_query_value_wins() {
    assert_eq!(find_query_value("k=1&k=2", "k"), Some("2"));
    assert_eq!(find_query_value("k=1&kk=2&k", "k"), Some("1"));
    assert_eq!(find_query_value("", "k"), None);
}

#[test]
fn addresses_in_dotted_form() {
    assert_eq!(parse_ipv4("192.168.4.1"), Some([192, 168, 4, 1]));
    assert_eq!(parse_ipv4("0.0.0.0"), Some([0, 0, 0, 0]));
    assert_eq!(parse_ipv4("255.255.255.255"), Some([255; 4]));
    for s in ["", "1.2.3", "1.2.3.4.5", "1.2.3.256", "01.2.3.4", "1..3.4", "+1.2.3.4", " 1.2.3.4", "a.b.c.d"] {
        assert_eq!(parse_ipv4(s), None, "{}", s);
    }
    for a in [[10, 0, 200, 9], [1, 22, 133, 0]] {
        let mut s = String::new();
        push_dotted(&mut s, a);
        assert_eq!(s, format!("{}.{}.{}.{}", a[0], a[1], a[2], a[3]));
        assert_eq!(parse_ipv4(&s), Some(a));
    }
}

#[test]
fn shown_key_is_accepted_as_pubkey() {
    let (_, key) = signer(3);
    let text = hex(&key);
    assert_eq!(text.len(), 130);
    assert_eq!(parse_pubkey(&text), Some(key));
    assert_eq!(parse_pubkey(&text.to_lowercase()), Some(key));
}

#[test]
fn bad_keys_are_refused() {
    let (_, key) = signer(3);
    let text = hex(&key);
    assert_eq!(parse_pubkey(&text[..128]), None);
    assert_eq!(parse_pubkey(""), None);
    assert_eq!(parse_pubkey(&text.replacen("04", "05", 1)), None);
    let mut odd = text.clone();
    odd.replace_range(60..61, "g");
    assert_eq!(parse_pubkey(&odd), None);
}

#[test]
fn greeting_carries_the_token() {
    assert_eq!(token_greeting(Some("c0ffee")), b"Hc0ffee\r");
    assert_eq!(token_greeting(Some("")), b"H\r");
    assert!(token_greeting(None).is_empty());
}

#[test]
fn targets_need_tls_for_a_pin() {
    let (_, key) = signer(5);
    let t = read_target(&format!("tls://h:1/?pubkey={}&token=7", hex(&key))).unwrap();
    assert_eq!(t.pin, Some(key));
    assert_eq!(t.greeting, b"H7\r");
    assert!(t.tls);
    assert!(read_target(&format!("tcp://h:1/?pubkey={}", hex(&key))).is_none());
    assert!(read_target("tls://h:1/?pubkey=04").is_none());
    assert!(read_target("nonsense").is_none());
    assert_eq!(read_target("tcp://h:1/").unwrap().pin, None);
}

#[test]
fn states_have_names() {
    assert_eq!(state_str(DISABLED), "disabled");
    assert_eq!(state_str(CONNECTING), "connecting");
    assert_eq!(state_str(CONNECTED), "connected");
    assert_eq!(state_str(DNS_FAIL), "DNS lookup failed");
    assert_eq!(state_str(TCP_FAIL), "TCP connect failed");
    assert_eq!(state_str(TLS_FAIL), "TLS failed (cert/handshake)");
    assert_eq!(state_str(BAD_CONFIG), "bad URL or pubkey");
    assert_eq!(state_str(PIN_MISMATCH), "server pubkey mismatch");
    assert_eq!(state_str(8), "?");
}

fn begin(url: &str) -> Event<'_> {
    Event::Begin { enabled: true, wifi_connected: true, url }
}

#[test]
fn dialing_over_tcp() {
    let (mut d, mut status, mut clients) = (Dialer::new(), DISABLED, 4u32);
    let e = begin("tcp://10.1.2.3:2000/?token=ab");
    assert!(d.expects(&e));
    assert_eq!(d.step(e, &mut status, &mut clients), Action::Connect([10, 1, 2, 3]));
    assert_eq!((status, clients, d.target.port), (CONNECTING, 4, 2000));
    assert_eq!(d.step(Event::Connected(true), &mut status, &mut clients), Action::Bridge);
    assert_eq!((status, clients), (CONNECTED, 5));
    assert_eq!(d.target.greeting, b"Hab\r");
    assert!(!d.expects(&Event::Closed));
    assert_eq!(d.step(Event::Ended, &mut status, &mut clients), Action::Close);
    assert_eq!(clients, 5);
    assert_eq!(d.step(Event::Closed, &mut status, &mut clients), Action::Pause(3));
    assert_eq!((status, clients, d.phase), (CONNECTED, 4, Phase::Idle));
}

#[test]
fn dialing_over_tls_by_name() {
    let (mut d, mut status, mut clients) = (Dialer::new(), DISABLED, 0u32);
    assert_eq!(d.step(begin("tls://srv:443/"), &mut status, &mut clients), Action::Resolve);
    assert_eq!(d.target.host, "srv");
    let answers = [None, Some([1, 2, 3, 4]), Some([5, 6, 7, 8])];
    assert_eq!(
        d.step(Event::Answers(Some(&answers)), &mut status, &mut clients),
        Action::Connect([1, 2, 3, 4])
    );
    assert_eq!(d.step(Event::Connected(true), &mut status, &mut clients), Action::Open);
    assert_eq!((status, clients), (CONNECTING, 1));
    assert_eq!(d.step(Event::Opened(true), &mut status, &mut clients), Action::Bridge);
    assert_eq!(status, CONNECTED);
}

#[test]
fn dialing_failures() {
    let (mut d, mut status, mut clients) = (Dialer::new(), CONNECTED, 0u32);
    let off = Event::Begin { enabled: false, wifi_connected: true, url: "tcp://h:1/" };
    assert_eq!(d.step(off, &mut status, &mut clients), Action::Pause(3));
    assert_eq!(status, DISABLED);
    let down = Event::Begin { enabled: true, wifi_connected: false, url: "tcp://h:1/" };
    assert_eq!(d.step(down, &mut status, &mut clients), Action::Pause(3));
    assert_eq!(status, DISABLED);
    assert_eq!(d.step(begin("tcp://h"), &mut status, &mut clients), Action::Pause(30));
    assert_eq!(status, BAD_CONFIG);
    d.step(begin("tcp://h:1/"), &mut status, &mut clients);
    assert_eq!(d.step(Event::Answers(None), &mut status, &mut clients), Action::Pause(5));
    assert_eq!(status, DNS_FAIL);
    d.step(begin("tcp://h:1/"), &mut status, &mut clients);
    assert_eq!(d.step(Event::Answers(Some(&[None])), &mut status, &mut clients), Action::Pause(5));
    d.step(begin("tcp://1.1.1.1:1/"), &mut status, &mut clients);
    assert_eq!(d.step(Event::Connected(false), &mut status, &mut clients), Action::Pause(5));
    assert_eq!((status, clients), (TCP_FAIL, 0));
    d.step(begin("tls://1.1.1.1:1/"), &mut status, &mut clients);
    d.step(Event::Connected(true), &mut status, &mut clients);
    assert_eq!(d.step(Event::Opened(false), &mut status, &mut clients), Action::Close);
    assert_eq!(status, TLS_FAIL);
    assert_eq!(d.step(Event::Closed, &mut status, &mut clients), Action::Pause(3));
    assert_eq!(clients, 0);
}

#[test]
fn first_ipv4_answer_is_taken() {
    assert_eq!(first_v4(&[]), None);
    assert_eq!(first_v4(&[None, None]), None);
    assert_eq!(first_v4(&[None, Some([9, 9, 9, 9])]), Some([9, 9, 9, 9]));
}

#[test]
fn key_is_found_in_a_certificate() {
    let (_, key) = signer(7);
    let der = certificate(&key);
    assert_eq!(extract_p256_pubkey(&der), Some(key));
    assert_eq!(extract_p256_pubkey(&der[..der.len() - 3]), None);
    assert_eq!(extract_p256_pubkey(&[0x03, 0x42, 0x00]), None);
    assert_eq!(extract_p256_pubkey(&[]), None);
}

#[test]
fn signed_data_has_the_documented_form() {
    let m = signed_data(&[0xab; 32]);
    assert_eq!(m.len(), 130);
    assert_eq!(&m[..64], &[0x20; 64][..]);
    assert_eq!(&m[64..98], b"TLS 1.3, server CertificateVerify\x00");
    assert_eq!(&m[98..], &[0xab; 32][..]);
}

#[test]
fn pinned_server_is_accepted() {
    let (sk, key) = signer(11);
    let mut v = PinnedVerifier::new(Some(key));
    v.verify_certificate([1; 32], Some(&certificate(&key)));
    assert_eq!(v.server_key, Some(key));
    let sig: Signature = sk.sign(&signed_data(&[1; 32]));
    let mut status = CONNECTING;
    assert_eq!(v.verify_signature(ECDSA, sig.to_der().as_bytes(), &mut status), Ok(()));
    assert_eq!(status, CONNECTING);
    assert_eq!(
        v.verify_signature(ECDSA, sig.to_der().as_bytes(), &mut status),
        Err(TlsError::DecodeError)
    );
}

#[test]
fn wrong_signatures_are_refused() {
    let (sk, key) = signer(11);
    let (other, _) = signer(12);
    let sig: Signature = sk.sign(&signed_data(&[2; 32]));
    let forged: Signature = other.sign(&signed_data(&[1; 32]));
    let mut status = CONNECTING;
    for (scheme, bytes, error) in [
        (ECDSA, sig.to_der().as_bytes().to_vec(), TlsError::InvalidSignature),
        (ECDSA, forged.to_der().as_bytes().to_vec(), TlsError::InvalidSignature),
        (ECDSA, vec![1, 2, 3], TlsError::DecodeError),
        (SignatureScheme::Unsupported, vec![], TlsError::InvalidSignatureScheme),
    ] {
        let mut v = PinnedVerifier::new(None);
        v.verify_certificate([1; 32], Some(&certificate(&key)));
        assert_eq!(v.verify_signature(scheme, &bytes, &mut status), Err(error));
    }
    let mut off_curve = key;
    off_curve[64] ^= 1;
    let mut v = PinnedVerifier::new(None);
    v.verify_certificate([1; 32], Some(&certificate(&off_curve)));
    assert_eq!(
        v.verify_signature(ECDSA, sig.to_der().as_bytes(), &mut status),
        Err(TlsError::DecodeError)
    );
    assert_eq!(status, CONNECTING);
}

#[test]
fn another_key_is_refused_and_backed_off_from() {
    let (sk, key) = signer(11);
    let (_, pin) = signer(12);
    let url = format!("tls://1.2.3.4:1/?pubkey={}", hex(&pin));
    let (mut d, mut status, mut clients) = (Dialer::new(), DISABLED, 0u32);
    d.step(begin(&url), &mut status, &mut clients);
    assert_eq!(d.step(Event::Connected(true), &mut status, &mut clients), Action::Open);
    let mut v = PinnedVerifier::new(d.target.pin);
    v.verify_certificate([1; 32], Some(&certificate(&key)));
    let sig: Signature = sk.sign(&signed_data(&[1; 32]));
    assert_eq!(
        v.verify_signature(ECDSA, sig.to_der().as_bytes(), &mut status),
        Err(TlsError::InvalidCertificate)
    );
    assert_eq!(status, PIN_MISMATCH);
    assert_eq!(d.step(Event::Opened(false), &mut status, &mut clients), Action::Close);
    assert_eq!(d.step(Event::Closed, &mut status, &mut clients), Action::Pause(90));
    assert_eq!(status, PIN_MISMATCH);
}

#[test]
fn unreadable_key_passes_only_without_a_pin() {
    let (_, key) = signer(11);
    let mut status = CONNECTING;
    let mut v = PinnedVerifier::new(None);
    v.verify_certificate([1; 32], None);
    assert_eq!(v.verify_signature(ECDSA, &[], &mut status), Ok(()));
    let mut v = PinnedVerifier::new(Some(key));
    v.verify_certificate([1; 32], Some(&[1, 2, 3]));
    assert_eq!(v.verify_signature(ECDSA, &[], &mut status), Err(TlsError::InvalidCertificate));
    assert_eq!(status, CONNECTING);
    let mut v = PinnedVerifier::new(None);
    v.server_key = Some(key);
    assert_eq!(v.verify_signature(ECDSA, &[], &mut status), Err(TlsError::DecodeError));
}

#[test]
fn verdict_of_the_checks() {
    assert_eq!(judge(true, true, true), Ok(()));
    assert_eq!(judge(true, true, false), Err(TlsError::InvalidSignature));
    assert_eq!(judge(false, true, false), Err(TlsError::DecodeError));
    assert_eq!(judge(true, false, false), Err(TlsError::DecodeError));
}

#[test]
fn captured_key_pins_its_server() {
    let (sk, key) = signer(21);
    let der = certificate(&key);
    let mut first = PinnedVerifier::new(None);
    first.verify_certificate([4; 32], Some(&der));
    let url = format!("tls://srv:9/?pubkey={}&token=t", hex(&first.server_key.unwrap()));
    let target = read_target(&url).unwrap();
    assert_eq!(target.pin, Some(key));
    let mut second = PinnedVerifier::new(target.pin);
    second.verify_certificate([5; 32], Some(&der));
    let sig: Signature = sk.sign(&signed_data(&[5; 32]));
    let mut status = CONNECTING;
    assert_eq!(second.verify_signature(ECDSA, sig.to_der().as_bytes(), &mut status), Ok(()));
}
