//! The persisted settings and the web interface.

use espcan_br::autoconnect::state::CONNECTED;
use espcan_br::can::Counters;
use espcan_br::config::{
    boot, load, load_autoconnect, load_device, save, save_autoconnect, save_device,
    AutoConnectConfig, DeviceConfig, WifiConfig, DEFAULT_BAUD, DEFAULT_NAME, URL_MAX,
};
use espcan_br::escape::{html_escape, json_escape};
use espcan_br::form::{find_form_value, url_decode_into};
use espcan_br::http;
use espcan_br::http::{
    after_read, after_save, can_answer, handle_request, parse_request_line, request_body, ReadStep,
    Response,
};
use espcan_br::page::{index_page, status_json, Snapshot};
use espcan_br::text::{chars_of, parse_number, push_decimal, str_eq, trim, utf8_text};

fn snapshot() -> Snapshot {
    let mut wifi = WifiConfig::new();
    wifi.set_credentials("caf\u{e9} \"<1>\"", "secret");
    let mut auto = AutoConnectConfig::new();
    auto.set(true, "tls://h:1/?token=a&b='c'");
    Snapshot {
        config_mode: false,
        wifi_connected: true,
        sta_ip: Some([192, 168, 1, 20]),
        wifi,
        device: DeviceConfig::defaults(),
        auto,
        counters: Counters { can_rx: 1, can_tx: 22, ser_in: 333, ser_out: 4444, tcp_in: 0, tcp_out: u32::MAX },
        ac_status: CONNECTED,
        server_key: None,
    }
}

fn reply(r: Response) -> String {
    match r {
        Response::Reply(s) => s,
        _ => panic!("a reply expected"),
    }
}

/// The body of a reply, whose declared length is checked.
fn checked_body(r: &str) -> &str {
    let (head, body) = r.split_once("\r\n\r\n").unwrap();
    let length = head.lines().find_map(|l| l.strip_prefix("Content-Length: ")).unwrap();
    assert_eq!(length.parse::<usize>().unwrap(), body.len());
    body
}

#[test]
fn credentials_are_kept() {
    let mut c = WifiConfig::new();
    assert!(!c.is_valid());
    assert_eq!((c.ssid_str(), c.password_str()), ("", ""));
    c.set_credentials("net", "pass");
    assert!(c.is_valid() && c.fits());
    assert_eq!((c.ssid_str(), c.password_str()), ("net", "pass"));
    c.set_credentials("n", "");
    assert_eq!((c.ssid_str(), c.password_str()), ("n", ""));
    c.set_credentials("", "x");
    assert!(!c.is_valid());
}

#[test]
fn long_credentials_are_cut_off() {
    let mut c = WifiConfig::new();
    c.set_credentials(&"s".repeat(40), &"p".repeat(70));
    assert_eq!(c.ssid_str(), "s".repeat(32));
    assert_eq!(c.password_str(), "p".repeat(64));
    let half = "\u{e9}".repeat(17);
    c.set_credentials(&half[..33 - 1], "");
    assert_eq!(c.ssid_str(), "\u{e9}".repeat(16));
    c.set_raw_credentials(&[b'a', 0xff], b"");
    assert_eq!(c.ssid_str(), "");
}

#[test]
fn wifi_record_layout() {
    let mut c = WifiConfig::new();
    c.set_credentials("ab", "xyz");
    let image = save(&c);
    assert_eq!(image.len(), 128);
    assert_eq!(&image[..8], &[0x01, 0x60, 0xf1, 0xc0, b'a', b'b', 0, 0]);
    assert_eq!(image[36], 2);
    assert_eq!(&image[37..41], b"xyz\0");
    assert_eq!(image[101], 3);
    let back = load(&image).unwrap();
    assert_eq!((back.ssid_str(), back.password_str()), ("ab", "xyz"));
    assert!(load(&image[..103]).is_none());
    assert!(load(&[0xff; 128]).is_none());
    assert!(load(&save(&WifiConfig::new())).is_none());
}

#[test]
fn device_record_layout() {
    let mut c = DeviceConfig::new();
    c.set("bridge", 0x0102_0304);
    let image = save_device(&c);
    assert_eq!(image.len(), 64);
    assert_eq!(&image[..10], &[0x01, 0xce, 0x71, 0xde, b'b', b'r', b'i', b'd', b'g', b'e']);
    assert_eq!(image[36], 6);
    assert_eq!(&image[40..44], &[4, 3, 2, 1]);
    let back = load_device(&image).unwrap();
    assert_eq!((back.name_str(), back.baud()), ("bridge", 0x0102_0304));
    assert!(load_device(&image[..43]).is_none());
    assert!(load_device(&[0; 64]).is_none());
}

#[test]
fn device_defaults() {
    let c = DeviceConfig::new();
    assert!(!c.is_valid() && c.fits());
    assert_eq!((c.name_str(), c.baud()), (DEFAULT_NAME, DEFAULT_BAUD));
    let mut c = DeviceConfig::defaults();
    assert!(c.is_valid());
    assert_eq!((c.name_str(), c.baud()), ("espcan-br", 115_200));
    c.set("x", 0);
    assert_eq!((c.name_str(), c.baud()), ("x", 115_200));
}

#[test]
fn autoconnect_record_layout() {
    let mut c = AutoConnectConfig::new();
    assert!(!c.enabled() && !c.enable_set() && !c.is_valid());
    c.set(true, "");
    assert!(!c.enabled() && c.enable_set());
    c.set(true, "tcp://h:1/");
    assert!(c.enabled());
    let image = save_autoconnect(&c);
    assert_eq!(image.len(), 384);
    assert_eq!(&image[..11], &[0x02, 0x00, 0x0c, 0xac, 1, 0, 10, 0, b't', b'c', b'p']);
    let back = load_autoconnect(&image).unwrap();
    assert_eq!(back.url_str(), "tcp://h:1/");
    assert!(back.enabled());
    assert!(load_autoconnect(&image[..263]).is_none());
    let mut long = AutoConnectConfig::new();
    long.set(false, &"u".repeat(300));
    assert_eq!(long.url_str().len(), URL_MAX);
    long.url[0] = 0xff;
    assert_eq!(long.url_str(), "");
    long.url_len = 999;
    long.url[0] = b'v';
    assert_eq!(long.url_str().len(), URL_MAX);
}

#[test]
fn saved_records_do_not_overlap() {
    let mut flash = vec![0xffu8; 1024];
    let mut w = WifiConfig::new();
    w.set_credentials("net", "pw");
    let mut d = DeviceConfig::defaults();
    d.set("dev", 9600);
    let mut a = AutoConnectConfig::new();
    a.set(true, "tcp://x:1/");
    flash[0..128].copy_from_slice(&save(&w));
    flash[128..192].copy_from_slice(&save_device(&d));
    flash[256..640].copy_from_slice(&save_autoconnect(&a));
    assert_eq!(load(&flash[0..128]).unwrap().ssid_str(), "net");
    assert_eq!(load_device(&flash[128..192]).unwrap().baud(), 9600);
    assert_eq!(load_autoconnect(&flash[256..640]).unwrap().url_str(), "tcp://x:1/");
}

#[test]
fn boot_without_credentials_is_config_mode() {
    let b = boot(None, None, None);
    assert!(b.config_mode);
    assert_eq!(b.device.name_str(), DEFAULT_NAME);
    assert!(!b.auto.enabled());
    let mut w = WifiConfig::new();
    assert!(boot(Some(w), None, None).config_mode);
    w.set_credentials("n", "");
    let b = boot(Some(w), Some(DeviceConfig::defaults()), Some(AutoConnectConfig::new()));
    assert!(!b.config_mode);
    assert_eq!(b.wifi.ssid_str(), "n");
}

#[test]
fn form_fields_are_found_and_decoded() {
    let body = b"ssid=my+net%21&password=a%26b%3Dc&x&ssid=other";
    assert_eq!(find_form_value(body, "ssid"), Some(&b"my+net%21"[..]));
    assert_eq!(find_form_value(body, "x"), None);
    assert_eq!(find_form_value(b"", "ssid"), None);
    assert_eq!(find_form_value(b"ssid=", "ssid"), Some(&b""[..]));
    let mut d = [b'.'; 12];
    assert_eq!(url_decode_into(b"my+net%21", &mut d), 7);
    assert_eq!(&d, b"my net!.....");
    assert_eq!(url_decode_into(b"a%2", &mut d), 3);
    assert_eq!(&d[..3], b"a%2");
    assert_eq!(url_decode_into(b"%zz%C3%a9", &mut d), 5);
    assert_eq!(&d[..5], b"%zz\xc3\xa9");
    let mut small = [0u8; 2];
    assert_eq!(url_decode_into(b"abc", &mut small), 2);
    assert_eq!(&small, b"ab");
}

#[test]
fn html_is_escaped() {
    assert_eq!(html_escape("a&b<c>\"d\" 'e' \u{e9}"), "a&amp;b&lt;c&gt;&quot;d&quot; &#39;e&#39; \u{e9}");
    assert_eq!(html_escape(""), "");
}

#[test]
fn json_is_escaped() {
    assert_eq!(json_escape("q\"b\\n\nr\rt\t\u{1}\u{1f}\u{e9}"), "q\\\"b\\\\n\\nr\\rt\\t\\u0001\\u001f\u{e9}");
    assert_eq!(json_escape("plain"), "plain");
}

#[test]
fn numbers_in_text() {
    let n = |s: &str, max| parse_number(&chars_of(s), max);
    assert_eq!(n("0", 9), Some(0));
    assert_eq!(n("+115200", u32::MAX), Some(115_200));
    assert_eq!(n("4294967295", u32::MAX), Some(u32::MAX));
    assert_eq!(n("4294967296", u32::MAX), None);
    assert_eq!(n("000000000000000007", 7), Some(7));
    assert_eq!(n("", 9), None);
    assert_eq!(n("+", 9), None);
    assert_eq!(n("1 ", 9), None);
    let mut s = String::from("n=");
    push_decimal(&mut s, 0);
    push_decimal(&mut s, u64::MAX);
    assert_eq!(s, "n=018446744073709551615");
}

#[test]
fn text_helpers() {
    assert_eq!(trim(&chars_of(" \t\u{a0}a b\u{3000}\n")), &['a', ' ', 'b'][..]);
    assert!(trim(&chars_of("  ")).is_empty());
    assert!(str_eq("\u{e9}", "\u{e9}"));
    assert!(!str_eq("a", "b"));
    assert_eq!(utf8_text(b"\xc3\xa9"), Some("\u{e9}"));
    assert_eq!(utf8_text(b"\xc3"), None);
}

#[test]
fn requests_are_read_to_their_end() {
    assert_eq!(after_read(b"GET / HTTP/1.1\r\n\r\n", 0), ReadStep::Abandon);
    assert_eq!(after_read(b"GET / HTTP/1.1\r\n", 5), ReadStep::ReadMore);
    assert_eq!(after_read(b"GET / HTTP/1.1\r\n\r\n", 5), ReadStep::Handle);
    assert_eq!(after_read(&[b'x'; 1024], 1), ReadStep::Handle);
    assert_eq!(after_read(&[b'x'; 1023], 1), ReadStep::ReadMore);
}

#[test]
fn request_lines() {
    assert_eq!(parse_request_line(b"GET /api/status HTTP/1.1\r\nHost: x\r\n"), ("GET", "/api/status"));
    assert_eq!(parse_request_line(b"  POST\t/x"), ("POST", "/x"));
    assert_eq!(parse_request_line(b"GET\r\n/x"), ("GET", "/"));
    assert_eq!(parse_request_line(b""), ("", "/"));
    assert_eq!(parse_request_line("GET\u{a0}/y z".as_bytes()), ("GET", "/y"));
    assert_eq!(parse_request_line(b"\xff /"), ("", "/"));
}

#[test]
fn request_bodies() {
    assert_eq!(request_body(b"POST /\r\nA: b\r\n\r\na=1&b=2"), b"a=1&b=2");
    assert_eq!(request_body(b"POST /\r\n\r\na\r\n\r\nb"), b"a");
    assert_eq!(request_body(b"POST /"), b"");
}

#[test]
fn status_snapshot_in_json() {
    let r = reply(handle_request(b"GET /api/status HTTP/1.1\r\n\r\n", &snapshot()));
    assert_eq!(
        checked_body(&r),
        "{\"mode\":\"Station\",\"wifi\":true,\"sta_ip\":\"192.168.1.20\",\
         \"ssid\":\"caf\u{e9} \\\"<1>\\\"\",\"can_rx\":1,\"can_tx\":22,\"ser_in\":333,\
         \"ser_out\":4444,\"tcp_in\":0,\"tcp_out\":4294967295,\"ac_status\":\"connected\",\
         \"server_key\":\"\"}"
    );
    assert!(r.starts_with("HTTP/1.1 200 OK\r\nContent-Type: application/json\r\n"));
    let mut s = snapshot();
    s.config_mode = true;
    s.wifi_connected = false;
    s.sta_ip = None;
    s.server_key = Some([0x4a; 65]);
    assert!(s.fits());
    let r = status_json(&s);
    let body = checked_body(&r);
    assert!(body.contains("\"mode\":\"Configuration (AP)\",\"wifi\":false,\"sta_ip\":\"not connected\""));
    assert!(body.contains(&format!("\"server_key\":\"{}\"", "4A".repeat(65))));
}

#[test]
fn status_page() {
    let r = reply(handle_request(b"GET / HTTP/1.1\r\n\r\n", &snapshot()));
    assert!(r.starts_with("HTTP/1.1 200 OK\r\nContent-Type: text/html\r\nContent-Length: "));
    let body = checked_body(&r);
    assert!(body.starts_with("<!doctype html><html><head><meta name=viewport content=\"width=device-width,initial-scale=1\"><title>espcan_br</title>"));
    assert!(body.ends_with("setInterval(upd,2000);upd();</script></body></html>"));
    for part in [
        "<p>Mode: <b id=mode>Station</b><br>WiFi connected: <b id=wifi>yes</b><br>",
        "STA IP: <b id=staip>192.168.1.20</b><br>SSID: <b id=ssid>caf\u{e9} &quot;&lt;1&gt;&quot;</b></p><h3>Frame counters</h3>",
        "<tr><td>CAN bus</td><td id=can_rx>1</td><td id=can_tx>22</td></tr>",
        "<tr><td>Serial (USB)</td><td id=ser_in>333</td><td id=ser_out>4444</td></tr>",
        "<tr><td>TCP</td><td id=tcp_in>0</td><td id=tcp_out>4294967295</td></tr></table>",
        "transmitted to bus; serial/TCP in = host&rarr;adapter",
        "Name (mDNS <i>espcan-br.local</i> / AP SSID):<br><input name=name maxlength=32 value=\"espcan-br\" style=width:100%><br>",
        "<input name=baud type=number value=\"115200\" style=width:100%><br><br>",
        "<p>Status: <b id=acstatus>connected</b></p>",
        "<code id=srvkey style=word-break:break-all>(none yet)</code></p>",
        "<input type=checkbox name=enable checked> Enable",
        "<input name=url maxlength=256 value=\"tls://h:1/?token=a&amp;b=&#39;c&#39;\" placeholder=\"tls://host:port/?pubkey=..&amp;token=..\" style=width:100%>",
        "(pin server key) and <b>token</b> (auth).</small>",
    ] {
        assert!(body.contains(part), "{}", part);
    }
    let mut s = snapshot();
    s.auto = AutoConnectConfig::new();
    s.server_key = Some([0x04; 65]);
    let r = index_page(&s);
    let body = checked_body(&r);
    assert!(body.contains("<input type=checkbox name=enable > Enable"));
    assert!(body.contains(&"04".repeat(65)));
}

#[test]
fn unknown_requests_are_not_found() {
    for request in [&b"GET /x HTTP/1.1\r\n\r\n"[..], b"POST / HTTP/1.1\r\n\r\n", b"", b"get / \r\n\r\n", b"DELETE /api/wifi"] {
        let r = reply(handle_request(request, &snapshot()));
        assert!(r.starts_with("HTTP/1.1 404 Not Found\r\n"));
        assert_eq!(checked_body(&r), "");
    }
}

#[test]
fn posted_credentials() {
    let request = b"POST /api/wifi HTTP/1.1\r\nHost: x\r\n\r\nssid=My+Net&password=p%40ss";
    match handle_request(request, &snapshot()) {
        Response::SaveWifi(c) => {
            assert_eq!((c.ssid_str(), c.password_str()), ("My Net", "p@ss"));
            assert_eq!(load(&save(&c)).unwrap().ssid_str(), "My Net");
            assert!(!boot(load(&save(&c)), None, None).config_mode);
        }
        _ => panic!("credentials expected"),
    }
    let r = reply(handle_request(b"POST /api/wifi HTTP/1.1\r\n\r\npassword=x", &snapshot()));
    assert!(r.starts_with("HTTP/1.1 400 Bad Request\r\n"));
    assert_eq!(checked_body(&r), "");
    assert!(http::save_wifi(b"ssid=&password=x").is_none());
}

#[test]
fn posted_device() {
    let request = b"POST /api/device HTTP/1.1\r\n\r\nname=my-dev1&baud=+921600+";
    match handle_request(request, &snapshot()) {
        Response::SaveDevice(c) => assert_eq!((c.name_str(), c.baud()), ("my-dev1", 921_600)),
        _ => panic!("a device expected"),
    }
    for body in [&b"name=a&baud=0"[..], b"name=a", b"name=a&baud=x", b"name=a&baud=%ff", b"name=a&baud=99999999999"] {
        assert_eq!(http::save_device(body).unwrap().baud(), DEFAULT_BAUD);
    }
    for request in [&b"POST /api/device \r\n\r\nname=a.b"[..], b"POST /api/device \r\n\r\nbaud=1", b"POST /api/device \r\n\r\nname=%3Cb%3E"] {
        let r = reply(handle_request(request, &snapshot()));
        assert!(r.starts_with("HTTP/1.1 400 Bad Request\r\nContent-Type: text/plain\r\n"));
        assert_eq!(checked_body(&r), "bad name\n");
    }
    assert_eq!(http::save_device(&[&b"name="[..], &[b'n'; 40][..]].concat()).unwrap().name_str(), "n".repeat(32));
}

#[test]
fn posted_url() {
    let request = b"POST /api/autoconnect HTTP/1.1\r\n\r\nenable=on&url=tls%3A%2F%2Fh%3A1%2F%3Ftoken%3Dx";
    match handle_request(request, &snapshot()) {
        Response::SaveAutoConnect(c) => {
            assert!(c.enabled());
            assert_eq!(c.url_str(), "tls://h:1/?token=x");
        }
        _ => panic!("a URL expected"),
    }
    let c = http::save_autoconnect(b"url=tcp%3A%2F%2Fh%3A1");
    assert!(!c.enabled() && !c.enable_set());
    assert_eq!(c.url_str(), "tcp://h:1");
    assert_eq!(http::save_autoconnect(b"enable=&url=%ff").url_str(), "");
    assert!(http::save_autoconnect(b"enable=&url=%ff").enable_set());
}

#[test]
fn saving_ends_in_a_restart_or_an_error() {
    assert_eq!(after_save(true), None);
    let r = after_save(false).unwrap();
    assert!(r.starts_with("HTTP/1.1 500 Internal Server Error\r\n"));
    assert_eq!(checked_body(r), "save failed\n");
}

#[test]
fn pages_need_names_that_fit() {
    let mut s = snapshot();
    let (page, status, post) = (&b"GET / \r\n\r\n"[..], &b"GET /api/status \r\n\r\n"[..], &b"POST /api/device \r\n\r\nname=ok"[..]);
    assert!(can_answer(page, &s) && can_answer(status, &s));
    s.device.name_len = 33;
    assert!(!s.fits() && !s.device.fits());
    assert!(!can_answer(page, &s) && can_answer(status, &s) && can_answer(post, &s));
    assert!(matches!(handle_request(post, &s), Response::SaveDevice(_)));
    s.wifi.ssid_len = 200;
    assert!(!s.wifi.fits());
    assert!(!can_answer(status, &s) && can_answer(post, &s));
    assert!(can_answer(b"GET /x", &s));
}

#[test]
fn long_texts_keep_whole_characters() {
    let mut w = WifiConfig::new();
    w.set_credentials(&"\u{e9}".repeat(20), &"\u{20ac}".repeat(30));
    assert_eq!(w.ssid_str(), "\u{e9}".repeat(16));
    assert_eq!(w.password_str(), "");
    let mut d = DeviceConfig::new();
    d.set(&format!("a{}", "\u{e9}".repeat(20)), 1);
    assert_eq!(d.name_str(), "");
    d.set(&format!("aa{}", "\u{e9}".repeat(20)), 1);
    assert_eq!(d.name_str(), format!("aa{}", "\u{e9}".repeat(15)));
    let mut a = AutoConnectConfig::new();
    a.set(true, &"\u{20ac}".repeat(100));
    assert_eq!(a.url_str(), "");
    assert!(a.enabled());
}
