//! The status page, the status snapshot in JSON, and the fixed replies.

use crate::autoconnect::{state_str, state_text};
use crate::can::Counters;
use crate::config::{AutoConnectConfig, DeviceConfig, WifiConfig};
use crate::escape::{html_escape, html_escaped, json_escape, json_escaped};
use crate::hex::{bytes_hex, hex_text, hex_val, lemma_hex_digits, push_hex};
use crate::text::{decimal, decimal_reads_back, is_digit, push_decimal};
use crate::url::{dotted, push_dotted};
use vstd::prelude::*;
use vstd::utf8::{encode_utf8, is_ascii_chars, is_ascii_chars_encode_utf8};

verus! {

/// What the page shows.
#[derive(Clone, Copy)]
pub struct Snapshot {
    /// Whether the adapter is in configuration mode.
    pub config_mode: bool,
    /// Whether the station is connected.
    pub wifi_connected: bool,
    /// The station's address.
    pub sta_ip: Option<[u8; 4]>,
    pub wifi: WifiConfig,
    pub device: DeviceConfig,
    pub auto: AutoConnectConfig,
    pub counters: Counters,
    /// The auto-connect status code.
    pub ac_status: u8,
    /// The key of the last TLS server.
    pub server_key: Option<[u8; 65]>,
}

/// The name of the mode.
pub open spec fn mode_text(config_mode: bool) -> Seq<char> {
    if config_mode {
        "Configuration (AP)"@
    } else {
        "Station"@
    }
}

/// The station's address, in words where there is none.
pub open spec fn ip_text(ip: Option<[u8; 4]>) -> Seq<char> {
    match ip {
        Some(a) => dotted(a@),
        None => "not connected"@,
    }
}

fn mode_str(config_mode: bool) -> (r: &'static str)
    ensures
        r@ == mode_text(config_mode),
{
    if config_mode {
        "Configuration (AP)"
    } else {
        "Station"
    }
}

fn push_ip(out: &mut String, ip: Option<[u8; 4]>)
    ensures
        final(out)@ == old(out)@ + ip_text(ip),
{
    match ip {
        Some(a) => push_dotted(out, a),
        None => out.append("not connected"),
    }
}

impl Snapshot {
    /// Whether the stored names fit their fields.
    pub open spec fn names_fit(self) -> bool {
        self.wifi.ssid_len <= 32 && self.device.name_len <= 32
    }

    /// Whether the stored names fit their fields.
    pub fn fits(&self) -> (r: bool)
        ensures
            r == self.names_fit(),
    {
        self.wifi.ssid_len <= 32 && self.device.name_len <= 32
    }
}

// --- Replies ---------------------------------------------------------------

/// A successful reply.
pub open spec fn ok_reply(content_type: Seq<char>, body: Seq<char>) -> Seq<char> {
    "HTTP/1.1 200 OK\r\nContent-Type: "@ + content_type + "\r\nContent-Length: "@ + decimal(
        encode_utf8(body).len(),
    ) + "\r\nConnection: close\r\n\r\n"@ + body
}

/// Frames a page as a successful reply.
fn reply(content_type: &str, body: &str) -> (r: String)
    ensures
        r@ == ok_reply(content_type@, body@),
{
    let mut r = "HTTP/1.1 200 OK\r\nContent-Type: ".to_string();
    r.append(content_type);
    r.append("\r\nContent-Length: ");
    push_decimal(&mut r, body.as_bytes().len() as u64);
    r.append("\r\nConnection: close\r\n\r\n");
    r.append(body);
    r
}

/// The reply for what is not there.
pub const NOT_FOUND: &'static str = "HTTP/1.1 404 Not Found\r\nContent-Length: 0\r\n\r\n";

/// The reply to credentials without a network name.
pub const BAD_REQUEST: &'static str = "HTTP/1.1 400 Bad Request\r\nContent-Length: 0\r\n\r\n";

/// The reply to a device name that cannot be a DNS label.
pub const BAD_NAME: &'static str = "HTTP/1.1 400 Bad Request\r\nContent-Type: text/plain\r\nContent-Length: 9\r\n\r\nbad name\n";

/// The reply when the flash could not be written.
pub const SAVE_FAILED: &'static str = "HTTP/1.1 500 Internal Server Error\r\nContent-Length: 12\r\n\r\nsave failed\n";

// --- The snapshot in JSON --------------------------------------------------

/// The key of the last TLS server in hexadecimal, or `missing` where there is none.
pub open spec fn key_text(key: Option<[u8; 65]>, missing: Seq<char>) -> Seq<char> {
    match key {
        Some(k) => hex_text(k@),
        None => missing,
    }
}

fn push_key(out: &mut String, key: Option<[u8; 65]>, missing: &str)
    ensures
        final(out)@ == old(out)@ + key_text(key, missing@),
{
    match key {
        Some(k) => push_hex(out, &k),
        None => out.append(missing),
    }
}

/// The live fields in JSON.
pub open spec fn status_body(s: Snapshot) -> Seq<char> {
    "{\"mode\":\""@ + mode_text(s.config_mode) + "\",\"wifi\":"@ + (if s.wifi_connected {
        "true"@
    } else {
        "false"@
    }) + ",\"sta_ip\":\""@ + ip_text(s.sta_ip) + "\",\"ssid\":\""@ + json_escaped(
        s.wifi@.ssid_text(),
    ) + "\",\"can_rx\":"@ + decimal(s.counters.can_rx as nat) + ",\"can_tx\":"@ + decimal(
        s.counters.can_tx as nat,
    ) + ",\"ser_in\":"@ + decimal(s.counters.ser_in as nat) + ",\"ser_out\":"@ + decimal(
        s.counters.ser_out as nat,
    ) + ",\"tcp_in\":"@ + decimal(s.counters.tcp_in as nat) + ",\"tcp_out\":"@ + decimal(
        s.counters.tcp_out as nat,
    ) + ",\"ac_status\":\""@ + state_text(s.ac_status) + "\",\"server_key\":\""@ + key_text(
        s.server_key,
        ""@,
    ) + "\"}"@
}

/// JSON snapshot of the live fields, polled by the page.
pub fn status_json(s: &Snapshot) -> (r: String)
    requires
        s.wifi.ssid_len <= 32,
    ensures
        r@ == ok_reply("application/json"@, status_body(*s)),
{
    let ssid = json_escape(s.wifi.ssid_str());
    let mut b = "{\"mode\":\"".to_string();
    b.append(mode_str(s.config_mode));
    b.append("\",\"wifi\":");
    b.append(
        if s.wifi_connected {
            "true"
        } else {
            "false"
        },
    );
    b.append(",\"sta_ip\":\"");
    push_ip(&mut b, s.sta_ip);
    b.append("\",\"ssid\":\"");
    b.append(ssid.as_str());
    b.append("\",\"can_rx\":");
    push_decimal(&mut b, s.counters.can_rx as u64);
    b.append(",\"can_tx\":");
    push_decimal(&mut b, s.counters.can_tx as u64);
    b.append(",\"ser_in\":");
    push_decimal(&mut b, s.counters.ser_in as u64);
    b.append(",\"ser_out\":");
    push_decimal(&mut b, s.counters.ser_out as u64);
    b.append(",\"tcp_in\":");
    push_decimal(&mut b, s.counters.tcp_in as u64);
    b.append(",\"tcp_out\":");
    push_decimal(&mut b, s.counters.tcp_out as u64);
    b.append(",\"ac_status\":\"");
    b.append(state_str(s.ac_status));
    b.append("\",\"server_key\":\"");
    push_key(&mut b, s.server_key, "");
    b.append("\"}");
    reply("application/json", b.as_str())
}

// --- The page --------------------------------------------------------------

pub const PAGE_HEAD: &'static str =
    "<!doctype html><html><head><meta name=viewport content=\"width=device-width,initial-scale=1\">\
     <title>espcan_br</title></head><body style=\"font-family:sans-serif;max-width:30em;margin:2em auto\">\
     <h2>espcan_br CAN bridge</h2>\
     <p>Mode: <b id=mode>";

/// The part of the page on the WiFi connection.
pub open spec fn connection_section(s: Snapshot) -> Seq<char> {
    PAGE_HEAD@ + mode_text(s.config_mode) + "</b><br>WiFi connected: <b id=wifi>"@ + (
    if s.wifi_connected {
        "yes"@
    } else {
        "no"@
    }) + "</b><br>STA IP: <b id=staip>"@ + ip_text(s.sta_ip) + "</b><br>SSID: <b id=ssid>"@
        + html_escaped(s.wifi@.ssid_text()) + "</b></p>"@
}

fn connection_html(s: &Snapshot) -> (r: String)
    requires
        s.names_fit(),
    ensures
        r@ == connection_section(*s),
{
    let ssid = html_escape(s.wifi.ssid_str());
    let mut r = PAGE_HEAD.to_string();
    r.append(mode_str(s.config_mode));
    r.append("</b><br>WiFi connected: <b id=wifi>");
    r.append(
        if s.wifi_connected {
            "yes"
        } else {
            "no"
        },
    );
    r.append("</b><br>STA IP: <b id=staip>");
    push_ip(&mut r, s.sta_ip);
    r.append("</b><br>SSID: <b id=ssid>");
    r.append(ssid.as_str());
    r.append("</b></p>");
    r
}

pub const COUNTERS_HEAD: &'static str =
    "<h3>Frame counters</h3>\
     <table border=1 cellpadding=4 style=border-collapse:collapse>\
     <tr><th>Interface</th><th>in</th><th>out</th></tr>\
     <tr><td>CAN bus</td><td id=can_rx>";

pub const COUNTERS_TAIL: &'static str =
    "</td></tr></table>\
     <p style=color:#888>CAN in = received from bus, out = transmitted to bus; \
     serial/TCP in = host&rarr;adapter, out = adapter&rarr;host.</p>";

/// The part of the page with the frame counters.
pub open spec fn counters_section(c: Counters) -> Seq<char> {
    COUNTERS_HEAD@ + decimal(c.can_rx as nat) + "</td><td id=can_tx>"@ + decimal(c.can_tx as nat)
        + "</td></tr><tr><td>Serial (USB)</td><td id=ser_in>"@ + decimal(c.ser_in as nat)
        + "</td><td id=ser_out>"@ + decimal(c.ser_out as nat)
        + "</td></tr><tr><td>TCP</td><td id=tcp_in>"@ + decimal(c.tcp_in as nat)
        + "</td><td id=tcp_out>"@ + decimal(c.tcp_out as nat) + COUNTERS_TAIL@
}

fn counters_html(c: &Counters) -> (r: String)
    ensures
        r@ == counters_section(*c),
{
    let mut r = COUNTERS_HEAD.to_string();
    push_decimal(&mut r, c.can_rx as u64);
    r.append("</td><td id=can_tx>");
    push_decimal(&mut r, c.can_tx as u64);
    r.append("</td></tr><tr><td>Serial (USB)</td><td id=ser_in>");
    push_decimal(&mut r, c.ser_in as u64);
    r.append("</td><td id=ser_out>");
    push_decimal(&mut r, c.ser_out as u64);
    r.append("</td></tr><tr><td>TCP</td><td id=tcp_in>");
    push_decimal(&mut r, c.tcp_in as u64);
    r.append("</td><td id=tcp_out>");
    push_decimal(&mut r, c.tcp_out as u64);
    r.append(COUNTERS_TAIL);
    r
}

pub const DEVICE_HEAD: &'static str =
    "<h3>Device</h3>\
     <form method=POST action=/api/device>\
     Name (mDNS <i>";

/// The part of the page with the device's name and baud rate.
pub open spec fn device_section(device: DeviceConfig) -> Seq<char> {
    DEVICE_HEAD@ + html_escaped(device@.name_text())
        + ".local</i> / AP SSID):<br><input name=name maxlength=32 value=\""@ + html_escaped(
        device@.name_text(),
    )
        + "\" style=width:100%><br>UART (USB) baud:<br><input name=baud type=number value=\""@
        + decimal(device@.baud_rate() as nat)
        + "\" style=width:100%><br><br><button type=submit>Save &amp; reboot</button></form>"@
}

fn device_html(device: &DeviceConfig) -> (r: String)
    requires
        device.name_len <= 32,
    ensures
        r@ == device_section(*device),
{
    let name = html_escape(device.name_str());
    let mut r = DEVICE_HEAD.to_string();
    r.append(name.as_str());
    r.append(".local</i> / AP SSID):<br><input name=name maxlength=32 value=\"");
    r.append(name.as_str());
    r.append(
        "\" style=width:100%><br>UART (USB) baud:<br><input name=baud type=number value=\"",
    );
    push_decimal(&mut r, device.baud() as u64);
    r.append(
        "\" style=width:100%><br><br><button type=submit>Save &amp; reboot</button></form>",
    );
    r
}

/// The part of the page that asks for WiFi credentials.
pub const WIFI_SECTION: &'static str =
    "<h3>WiFi setup</h3>\
     <form method=POST action=/api/wifi>\
     SSID:<br><input name=ssid maxlength=32 style=width:100%><br>\
     Password:<br><input name=password type=password maxlength=64 style=width:100%><br><br>\
     <button type=submit>Save &amp; reboot</button></form>";

pub const AUTO_KEY: &'static str =
    "</b></p><p style=font-size:smaller>Server key (last TLS connection):<br>\
     <code id=srvkey style=word-break:break-all>";

pub const AUTO_URL: &'static str =
    "> Enable (dial out, works behind NAT)</label><br>\
     URL:<br><input name=url maxlength=256 value=\"";

pub const AUTO_TAIL: &'static str =
    "\" placeholder=\"tls://host:port/?pubkey=..&amp;token=..\" style=width:100%><br>\
     <small style=color:#888>tcp:// or tls://; optional <b>pubkey</b> (pin server key) \
     and <b>token</b> (auth).</small>\
     <br><br><button type=submit>Save &amp; reboot</button></form>";

/// The part of the page on the outbound connection.
pub open spec fn auto_section(s: Snapshot) -> Seq<char> {
    "<h3>Auto-connect (outbound)</h3><p>Status: <b id=acstatus>"@ + state_text(s.ac_status)
        + AUTO_KEY@ + key_text(s.server_key, "(none yet)"@)
        + "</code></p><form method=POST action=/api/autoconnect><label><input type=checkbox name=enable "@
        + (if s.auto.enable != 0 {
        "checked"@
    } else {
        ""@
    }) + AUTO_URL@ + html_escaped(s.auto@.url_text()) + AUTO_TAIL@
}

fn auto_html(s: &Snapshot) -> (r: String)
    ensures
        r@ == auto_section(*s),
{
    let url = html_escape(s.auto.url_str());
    let mut r = "<h3>Auto-connect (outbound)</h3><p>Status: <b id=acstatus>".to_string();
    r.append(state_str(s.ac_status));
    r.append(AUTO_KEY);
    push_key(&mut r, s.server_key, "(none yet)");
    r.append(
        "</code></p><form method=POST action=/api/autoconnect><label><input type=checkbox name=enable ",
    );
    r.append(
        if s.auto.enable_set() {
            "checked"
        } else {
            ""
        },
    );
    r.append(AUTO_URL);
    r.append(url.as_str());
    r.append(AUTO_TAIL);
    r
}

/// Polls `/api/status` and updates only the live fields, so editing a form on the
/// page is never interrupted by a reload. Closes the page (`</body></html>`).
pub const STATUS_SCRIPT: &'static str =
    "<script>\
async function upd(){try{\
const s=await(await fetch('/api/status')).json();\
const g=(i,v)=>{const e=document.getElementById(i);if(e)e.textContent=v;};\
g('mode',s.mode);g('wifi',s.wifi?'yes':'no');g('staip',s.sta_ip);g('ssid',s.ssid);\
g('can_rx',s.can_rx);g('can_tx',s.can_tx);g('ser_in',s.ser_in);g('ser_out',s.ser_out);\
g('tcp_in',s.tcp_in);g('tcp_out',s.tcp_out);\
g('acstatus',s.ac_status);g('srvkey',s.server_key||'(none yet)');\
}catch(e){}}\
setInterval(upd,2000);upd();\
</script></body></html>";

/// The status page.
pub open spec fn page_body(s: Snapshot) -> Seq<char> {
    connection_section(s) + counters_section(s.counters) + device_section(s.device) + WIFI_SECTION@
        + auto_section(s) + STATUS_SCRIPT@
}

/// The status page, with the forms for the configuration.
pub fn index_page(s: &Snapshot) -> (r: String)
    requires
        s.names_fit(),
    ensures
        r@ == ok_reply("text/html"@, page_body(*s)),
{
    let mut body = connection_html(s);
    body.append(counters_html(&s.counters).as_str());
    body.append(device_html(&s.device).as_str());
    body.append(WIFI_SECTION);
    body.append(auto_html(s).as_str());
    body.append(STATUS_SCRIPT);
    reply("text/html", body.as_str())
}

// --- Laws ------------------------------------------------------------------

/// A reply that is no success, with these further headers.
pub open spec fn error_reply(status: Seq<char>, headers: Seq<char>, body: Seq<char>) -> Seq<char> {
    "HTTP/1.1 "@ + status + "\r\n"@ + headers + "Content-Length: "@ + decimal(
        encode_utf8(body).len(),
    ) + "\r\n\r\n"@ + body
}

/// The fixed replies declare the length of their bodies.
pub proof fn fixed_replies_declare_their_length()
    ensures
        NOT_FOUND@ == error_reply("404 Not Found"@, ""@, ""@),
        BAD_REQUEST@ == error_reply("400 Bad Request"@, ""@, ""@),
        BAD_NAME@ == error_reply(
            "400 Bad Request"@,
            "Content-Type: text/plain\r\n"@,
            "bad name\n"@,
        ),
        SAVE_FAILED@ == error_reply("500 Internal Server Error"@, ""@, "save failed\n"@),
{
    reveal_strlit("");
    reveal_strlit("\r\n");
    reveal_strlit("\r\n\r\n");
    reveal_strlit("HTTP/1.1 ");
    reveal_strlit("Content-Length: ");
    reveal_strlit("404 Not Found");
    reveal_strlit("400 Bad Request");
    reveal_strlit("500 Internal Server Error");
    reveal_strlit("Content-Type: text/plain\r\n");
    reveal_strlit("bad name\n");
    reveal_strlit("save failed\n");
    reveal_strlit("HTTP/1.1 404 Not Found\r\nContent-Length: 0\r\n\r\n");
    reveal_strlit("HTTP/1.1 400 Bad Request\r\nContent-Length: 0\r\n\r\n");
    reveal_strlit(
        "HTTP/1.1 400 Bad Request\r\nContent-Type: text/plain\r\nContent-Length: 9\r\n\r\nbad name\n",
    );
    reveal_strlit(
        "HTTP/1.1 500 Internal Server Error\r\nContent-Length: 12\r\n\r\nsave failed\n",
    );
    assert(is_ascii_chars(""@));
    assert(is_ascii_chars("bad name\n"@));
    assert(is_ascii_chars("save failed\n"@));
    is_ascii_chars_encode_utf8(""@);
    is_ascii_chars_encode_utf8("bad name\n"@);
    is_ascii_chars_encode_utf8("save failed\n"@);
    assert(decimal(0) =~= seq!['0']);
    assert(decimal(9) =~= seq!['9']);
    assert(decimal(1) =~= seq!['1']);
    assert(decimal(12) =~= seq!['1', '2']);
    assert(NOT_FOUND@ =~= error_reply("404 Not Found"@, ""@, ""@));
    assert(BAD_REQUEST@ =~= error_reply("400 Bad Request"@, ""@, ""@));
    assert(BAD_NAME@ =~= error_reply(
        "400 Bad Request"@,
        "Content-Type: text/plain\r\n"@,
        "bad name\n"@,
    ));
    assert(SAVE_FAILED@ =~= error_reply("500 Internal Server Error"@, ""@, "save failed\n"@));
}

/// Whether a character is the same in text, in HTML and in a JSON string.
pub open spec fn plain_char(c: char) -> bool {
    c as u32 >= 0x20 && c != '"' && c != '\\' && c != '&' && c != '<' && c != '>' && c != '\''
}

/// Whether all characters are the same in text, in HTML and in a JSON string.
pub open spec fn plain_text(s: Seq<char>) -> bool {
    forall|i: int| 0 <= i < s.len() ==> plain_char(#[trigger] s[i])
}

/// Plain text needs no escaping.
pub proof fn plain_text_needs_no_escape(s: Seq<char>)
    requires
        plain_text(s),
    ensures
        html_escaped(s) == s,
        json_escaped(s) == s,
    decreases s.len(),
{
    if s.len() > 0 {
        assert(plain_char(s.last()));
        plain_text_needs_no_escape(s.drop_last());
        assert(s =~= s.drop_last() + seq![s.last()]);
    } else {
        assert(s =~= Seq::empty());
    }
}

/// Everything that goes into the page and the snapshot without being escaped is plain,
/// whatever is shown: only names and URLs hold what users entered, and those are
/// escaped.
pub proof fn unescaped_parts_are_plain(s: Snapshot, n: nat)
    ensures
        plain_text(mode_text(s.config_mode)),
        plain_text(ip_text(s.sta_ip)),
        plain_text(state_text(s.ac_status)),
        plain_text(key_text(s.server_key, ""@)),
        plain_text(key_text(s.server_key, "(none yet)"@)),
        plain_text(decimal(n)),
{
    reveal_strlit("Configuration (AP)");
    reveal_strlit("Station");
    reveal_strlit("not connected");
    reveal_strlit("");
    reveal_strlit("(none yet)");
    lemma_state_plain(s.ac_status);
    lemma_decimal_plain(n);
    if let Some(a) = s.sta_ip {
        lemma_decimal_plain(a@[0] as nat);
        lemma_decimal_plain(a@[1] as nat);
        lemma_decimal_plain(a@[2] as nat);
        lemma_decimal_plain(a@[3] as nat);
    }
    if let Some(k) = s.server_key {
        lemma_hex_plain(k@);
    }
}

proof fn lemma_decimal_plain(n: nat)
    ensures
        plain_text(decimal(n)),
{
    decimal_reads_back(n, n);
    assert forall|i: int| 0 <= i < decimal(n).len() implies plain_char(
        #[trigger] decimal(n)[i],
    ) by {
        assert(is_digit(decimal(n)[i]));
    }
}

proof fn lemma_hex_plain(d: Seq<u8>)
    ensures
        plain_text(hex_text(d)),
{
    lemma_hex_digits(d);
    assert forall|i: int| 0 <= i < hex_text(d).len() implies plain_char(
        #[trigger] hex_text(d)[i],
    ) by {
        assert(hex_val(bytes_hex(d)[i]) is Some);
    }
}

proof fn lemma_state_plain(code: u8)
    ensures
        plain_text(state_text(code)),
{
    reveal_strlit("disabled");
    reveal_strlit("connecting");
    reveal_strlit("connected");
    reveal_strlit("DNS lookup failed");
    reveal_strlit("TCP connect failed");
    reveal_strlit("TLS failed (cert/handshake)");
    reveal_strlit("bad URL or pubkey");
    reveal_strlit("server pubkey mismatch");
    reveal_strlit("?");
}

} // verus!
