//! What can be read off the status page and the status snapshot.
//!
//! The page is written for people and the snapshot for a script: what is said here is that
//! both find in them what the adapter knows, and that a form that is posted as it is shown
//! changes nothing.

use crate::autoconnect::state_text;
use crate::can::Counters;
use crate::config::{cut, DeviceConfig};
use crate::escape::{
    begins, html_escaped, html_is_inert, html_is_shown_as_it_was, html_shown, json_escaped,
};
use crate::form::form_text;
use crate::hex::hex_text;
use crate::http::{
    auto_form, device_form, name_ok, posted, posted_device_takes_effect, posted_url_takes_effect,
};
use crate::page::{
    auto_section, connection_section, counters_section, device_section, ip_text, key_text,
    mode_text, ok_reply, page_body, plain_char, plain_text, plain_text_needs_no_escape,
    status_body, unescaped_parts_are_plain, Snapshot, AUTO_KEY, AUTO_TAIL, AUTO_URL, COUNTERS_HEAD,
    COUNTERS_TAIL, DEVICE_HEAD, PAGE_HEAD, STATUS_SCRIPT, WIFI_SECTION,
};
use crate::text::{
    decimal, decimal_reads_back, first_at, is_digit, lemma_first_at_is, lemma_occurs_at_is,
    occurs_at,
};
use crate::url::dotted;
use vstd::prelude::*;
use vstd::utf8::{decode_utf8_encode_utf8, encode_utf8, valid_utf8};

verus! {

/// Whether `text` stands somewhere in `page`.
pub open spec fn holds(page: Seq<char>, text: Seq<char>) -> bool {
    exists|i: int|
        0 <= i && i + text.len() <= page.len() && #[trigger] page.subrange(i, i + text.len()) == text
}

/// Whether `page` shows `value` between these two texts.
pub open spec fn shows(
    page: Seq<char>,
    label: Seq<char>,
    value: Seq<char>,
    end: Seq<char>,
) -> bool {
    holds(page, label + value + end)
}

/// The value that a form field is filled with: what a browser shows for the text between
/// the label, where that first stands, and the next quote.
pub open spec fn filled_with(page: Seq<char>, label: Seq<char>) -> Option<Seq<char>> {
    match occurs_at(page, label) {
        Some(i) => {
            let rest = page.skip(i + label.len());
            match first_at(rest, '"') {
                Some(j) => Some(html_shown(rest.take(j))),
                None => None,
            }
        },
        None => None,
    }
}

proof fn lemma_holds(page: Seq<char>, a: Seq<char>, text: Seq<char>, b: Seq<char>)
    requires
        page == a + text + b,
    ensures
        holds(page, text),
{
    let i = a.len() as int;
    assert(page.subrange(i, i + text.len()) =~= text);
}

proof fn lemma_holds_part(a: Seq<char>, s: Seq<char>, b: Seq<char>, text: Seq<char>)
    requires
        holds(s, text),
    ensures
        holds(a + s + b, text),
{
    let i = choose|i: int|
        0 <= i && i + text.len() <= s.len() && #[trigger] s.subrange(i, i + text.len()) == text;
    let page = a + s + b;
    let k = a.len() + i;
    assert(page.subrange(k, k + text.len()) =~= text);
}

/// Whether `s` ends with `t`.
pub open spec fn ends(s: Seq<char>, t: Seq<char>) -> bool {
    t.len() <= s.len() && s.skip(s.len() - t.len()) == t
}

proof fn lemma_shows(
    a: Seq<char>,
    before: Seq<char>,
    value: Seq<char>,
    after: Seq<char>,
    b: Seq<char>,
    label: Seq<char>,
    end: Seq<char>,
)
    requires
        ends(before, label),
        begins(after, end),
    ensures
        shows(a + before + value + after + b, label, value, end),
{
    let n = before.len() - label.len();
    let front = a + before.take(n);
    let back = after.skip(end.len() as int) + b;
    let page = a + before + value + after + b;
    assert(before =~= before.take(n) + label);
    assert(after =~= end + after.skip(end.len() as int));
    assert(page =~= front + (label + value + end) + back);
    lemma_holds(page, front, label + value + end, back);
}

proof fn lemma_connection_shows(s: Snapshot)
    ensures
        shows(connection_section(s), "<b id=mode>"@, mode_text(s.config_mode), "</b>"@),
        shows(
            connection_section(s),
            "<b id=wifi>"@,
            if s.wifi_connected {
                "yes"@
            } else {
                "no"@
            },
            "</b>"@,
        ),
        shows(connection_section(s), "<b id=staip>"@, ip_text(s.sta_ip), "</b>"@),
        shows(
            connection_section(s),
            "<b id=ssid>"@,
            html_escaped(s.wifi@.ssid_text()),
            "</b>"@,
        ),
{
    lemma_connection_labels();
    let l1 = PAGE_HEAD@;
    let l2 = "</b><br>WiFi connected: <b id=wifi>"@;
    let l3 = "</b><br>STA IP: <b id=staip>"@;
    let l4 = "</b><br>SSID: <b id=ssid>"@;
    let l5 = "</b></p>"@;
    let v1 = mode_text(s.config_mode);
    let v2 = if s.wifi_connected {
        "yes"@
    } else {
        "no"@
    };
    let v3 = ip_text(s.sta_ip);
    let v4 = html_escaped(s.wifi@.ssid_text());
    let none = Seq::<char>::empty();
    let t = connection_section(s);
    lemma_shows(none, l1, v1, l2, v2 + l3 + v3 + l4 + v4 + l5, "<b id=mode>"@, "</b>"@);
    assert(t =~= none + l1 + v1 + l2 + (v2 + l3 + v3 + l4 + v4 + l5));
    lemma_shows(l1 + v1, l2, v2, l3, v3 + l4 + v4 + l5, "<b id=wifi>"@, "</b>"@);
    assert(t =~= l1 + v1 + l2 + v2 + l3 + (v3 + l4 + v4 + l5));
    lemma_shows(l1 + v1 + l2 + v2, l3, v3, l4, v4 + l5, "<b id=staip>"@, "</b>"@);
    assert(t =~= l1 + v1 + l2 + v2 + l3 + v3 + l4 + (v4 + l5));
    lemma_shows(l1 + v1 + l2 + v2 + l3 + v3, l4, v4, l5, none, "<b id=ssid>"@, "</b>"@);
    assert(t =~= l1 + v1 + l2 + v2 + l3 + v3 + l4 + v4 + l5 + none);
}

proof fn lemma_connection_labels()
    ensures
        ends(PAGE_HEAD@, "<b id=mode>"@),
        begins("</b><br>WiFi connected: <b id=wifi>"@, "</b>"@),
        ends("</b><br>WiFi connected: <b id=wifi>"@, "<b id=wifi>"@),
        begins("</b><br>STA IP: <b id=staip>"@, "</b>"@),
        ends("</b><br>STA IP: <b id=staip>"@, "<b id=staip>"@),
        begins("</b><br>SSID: <b id=ssid>"@, "</b>"@),
        ends("</b><br>SSID: <b id=ssid>"@, "<b id=ssid>"@),
        begins("</b></p>"@, "</b>"@),
{
    reveal_strlit(
        "<!doctype html><html><head><meta name=viewport content=\"width=device-width,initial-scale=1\"><title>espcan_br</title></head><body style=\"font-family:sans-serif;max-width:30em;margin:2em auto\"><h2>espcan_br CAN bridge</h2><p>Mode: <b id=mode>",
    );
    reveal_strlit("<b id=mode>");
    reveal_strlit("</b>");
    reveal_strlit("</b><br>WiFi connected: <b id=wifi>");
    reveal_strlit("<b id=wifi>");
    reveal_strlit("</b><br>STA IP: <b id=staip>");
    reveal_strlit("<b id=staip>");
    reveal_strlit("</b><br>SSID: <b id=ssid>");
    reveal_strlit("<b id=ssid>");
    reveal_strlit("</b></p>");
    assert(PAGE_HEAD@.skip(PAGE_HEAD@.len() - 11) =~= "<b id=mode>"@);
    assert("</b><br>WiFi connected: <b id=wifi>"@.take(4) =~= "</b>"@);
    assert("</b><br>WiFi connected: <b id=wifi>"@.skip(
        "</b><br>WiFi connected: <b id=wifi>"@.len() - 11,
    ) =~= "<b id=wifi>"@);
    assert("</b><br>STA IP: <b id=staip>"@.take(4) =~= "</b>"@);
    assert("</b><br>STA IP: <b id=staip>"@.skip("</b><br>STA IP: <b id=staip>"@.len() - 12)
        =~= "<b id=staip>"@);
    assert("</b><br>SSID: <b id=ssid>"@.take(4) =~= "</b>"@);
    assert("</b><br>SSID: <b id=ssid>"@.skip("</b><br>SSID: <b id=ssid>"@.len() - 11)
        =~= "<b id=ssid>"@);
    assert("</b></p>"@.take(4) =~= "</b>"@);
}

proof fn lemma_counters_show(c: Counters)
    ensures
        shows(counters_section(c), "<td id=can_rx>"@, decimal(c.can_rx as nat), "</td>"@),
        shows(counters_section(c), "<td id=can_tx>"@, decimal(c.can_tx as nat), "</td>"@),
        shows(counters_section(c), "<td id=ser_in>"@, decimal(c.ser_in as nat), "</td>"@),
        shows(counters_section(c), "<td id=ser_out>"@, decimal(c.ser_out as nat), "</td>"@),
        shows(counters_section(c), "<td id=tcp_in>"@, decimal(c.tcp_in as nat), "</td>"@),
        shows(counters_section(c), "<td id=tcp_out>"@, decimal(c.tcp_out as nat), "</td>"@),
{
    lemma_counter_labels();
    let l1 = COUNTERS_HEAD@;
    let l2 = "</td><td id=can_tx>"@;
    let l3 = "</td></tr><tr><td>Serial (USB)</td><td id=ser_in>"@;
    let l4 = "</td><td id=ser_out>"@;
    let l5 = "</td></tr><tr><td>TCP</td><td id=tcp_in>"@;
    let l6 = "</td><td id=tcp_out>"@;
    let l7 = COUNTERS_TAIL@;
    let v1 = decimal(c.can_rx as nat);
    let v2 = decimal(c.can_tx as nat);
    let v3 = decimal(c.ser_in as nat);
    let v4 = decimal(c.ser_out as nat);
    let v5 = decimal(c.tcp_in as nat);
    let v6 = decimal(c.tcp_out as nat);
    let none = Seq::<char>::empty();
    let t = counters_section(c);
    let b6 = none;
    let b5 = v6 + (l7 + b6);
    let b4 = v5 + (l6 + b5);
    let b3 = v4 + (l5 + b4);
    let b2 = v3 + (l4 + b3);
    let b1 = v2 + (l3 + b2);
    let a2 = l1 + v1;
    let a3 = a2 + l2 + v2;
    let a4 = a3 + l3 + v3;
    let a5 = a4 + l4 + v4;
    let a6 = a5 + l5 + v5;
    let end = "</td>"@;
    lemma_step(a6 + l6, v6, l7, b6);
    lemma_step(a5 + l5, v5, l6, b5);
    lemma_step(a4 + l4, v4, l5, b4);
    lemma_step(a3 + l3, v3, l4, b3);
    lemma_step(a2 + l2, v2, l3, b2);
    assert(t == a6 + l6 + v6 + l7);
    assert(t + none =~= t);
    assert(none + l1 =~= l1);
    lemma_shows(none, l1, v1, l2, b1, "<td id=can_rx>"@, end);
    lemma_shows(a2, l2, v2, l3, b2, "<td id=can_tx>"@, end);
    lemma_shows(a3, l3, v3, l4, b3, "<td id=ser_in>"@, end);
    lemma_shows(a4, l4, v4, l5, b4, "<td id=ser_out>"@, end);
    lemma_shows(a5, l5, v5, l6, b5, "<td id=tcp_in>"@, end);
    lemma_shows(a6, l6, v6, l7, b6, "<td id=tcp_out>"@, end);
}

proof fn lemma_step(a: Seq<char>, v: Seq<char>, l: Seq<char>, b: Seq<char>)
    ensures
        a + (v + (l + b)) == a + v + l + b,
{
    assert(a + (v + (l + b)) =~= a + v + l + b);
}

proof fn lemma_counter_labels()
    ensures
        ends(COUNTERS_HEAD@, "<td id=can_rx>"@),
        begins("</td><td id=can_tx>"@, "</td>"@),
        ends("</td><td id=can_tx>"@, "<td id=can_tx>"@),
        begins("</td></tr><tr><td>Serial (USB)</td><td id=ser_in>"@, "</td>"@),
        ends("</td></tr><tr><td>Serial (USB)</td><td id=ser_in>"@, "<td id=ser_in>"@),
        begins("</td><td id=ser_out>"@, "</td>"@),
        ends("</td><td id=ser_out>"@, "<td id=ser_out>"@),
        begins("</td></tr><tr><td>TCP</td><td id=tcp_in>"@, "</td>"@),
        ends("</td></tr><tr><td>TCP</td><td id=tcp_in>"@, "<td id=tcp_in>"@),
        begins("</td><td id=tcp_out>"@, "</td>"@),
        ends("</td><td id=tcp_out>"@, "<td id=tcp_out>"@),
        begins(COUNTERS_TAIL@, "</td>"@),
{
    reveal_strlit(
        "<h3>Frame counters</h3><table border=1 cellpadding=4 style=border-collapse:collapse><tr><th>Interface</th><th>in</th><th>out</th></tr><tr><td>CAN bus</td><td id=can_rx>",
    );
    reveal_strlit(
        "</td></tr></table><p style=color:#888>CAN in = received from bus, out = transmitted to bus; serial/TCP in = host&rarr;adapter, out = adapter&rarr;host.</p>",
    );
    reveal_strlit("</td>");
    reveal_strlit("<td id=can_rx>");
    reveal_strlit("</td><td id=can_tx>");
    reveal_strlit("<td id=can_tx>");
    reveal_strlit("</td></tr><tr><td>Serial (USB)</td><td id=ser_in>");
    reveal_strlit("<td id=ser_in>");
    reveal_strlit("</td><td id=ser_out>");
    reveal_strlit("<td id=ser_out>");
    reveal_strlit("</td></tr><tr><td>TCP</td><td id=tcp_in>");
    reveal_strlit("<td id=tcp_in>");
    reveal_strlit("</td><td id=tcp_out>");
    reveal_strlit("<td id=tcp_out>");
    assert(COUNTERS_HEAD@.skip(COUNTERS_HEAD@.len() - 14) =~= "<td id=can_rx>"@);
    assert("</td><td id=can_tx>"@.take(5) =~= "</td>"@);
    assert("</td><td id=can_tx>"@.skip("</td><td id=can_tx>"@.len() - 14) =~= "<td id=can_tx>"@);
    assert("</td></tr><tr><td>Serial (USB)</td><td id=ser_in>"@.take(5) =~= "</td>"@);
    assert("</td></tr><tr><td>Serial (USB)</td><td id=ser_in>"@.skip(
        "</td></tr><tr><td>Serial (USB)</td><td id=ser_in>"@.len() - 14,
    ) =~= "<td id=ser_in>"@);
    assert("</td><td id=ser_out>"@.take(5) =~= "</td>"@);
    assert("</td><td id=ser_out>"@.skip("</td><td id=ser_out>"@.len() - 15) =~= "<td id=ser_out>"@);
    assert("</td></tr><tr><td>TCP</td><td id=tcp_in>"@.take(5) =~= "</td>"@);
    assert("</td></tr><tr><td>TCP</td><td id=tcp_in>"@.skip(
        "</td></tr><tr><td>TCP</td><td id=tcp_in>"@.len() - 14,
    ) =~= "<td id=tcp_in>"@);
    assert("</td><td id=tcp_out>"@.take(5) =~= "</td>"@);
    assert("</td><td id=tcp_out>"@.skip("</td><td id=tcp_out>"@.len() - 15) =~= "<td id=tcp_out>"@);
    assert(COUNTERS_TAIL@.take(5) =~= "</td>"@);
}

proof fn lemma_device_shows(device: DeviceConfig)
    ensures
        shows(device_section(device), "<i>"@, html_escaped(device@.name_text()), ".local</i>"@),
        holds(device_section(device), "<form method=POST action=/api/device>"@),
{
    lemma_device_labels();
    let l1 = DEVICE_HEAD@;
    let l2 = ".local</i> / AP SSID):<br><input name=name maxlength=32 value=\""@;
    let l3 =
        "\" style=width:100%><br>UART (USB) baud:<br><input name=baud type=number value=\""@;
    let l4 =
        "\" style=width:100%><br><br><button type=submit>Save &amp; reboot</button></form>"@;
    let v = html_escaped(device@.name_text());
    let d = decimal(device@.baud_rate() as nat);
    let none = Seq::<char>::empty();
    let t = device_section(device);
    lemma_shows(none, l1, v, l2, v + l3 + d + l4, "<i>"@, ".local</i>"@);
    assert(t =~= none + l1 + v + l2 + (v + l3 + d + l4));
    lemma_holds_part(none, l1, v + l2 + v + l3 + d + l4, "<form method=POST action=/api/device>"@);
    assert(t =~= none + l1 + (v + l2 + v + l3 + d + l4));
}

proof fn lemma_device_labels()
    ensures
        ends(DEVICE_HEAD@, "<i>"@),
        holds(DEVICE_HEAD@, "<form method=POST action=/api/device>"@),
        begins(
            ".local</i> / AP SSID):<br><input name=name maxlength=32 value=\""@,
            ".local</i>"@,
        ),
{
    reveal_strlit("<h3>Device</h3><form method=POST action=/api/device>Name (mDNS <i>");
    reveal_strlit("<i>");
    reveal_strlit("<form method=POST action=/api/device>");
    reveal_strlit(".local</i>");
    reveal_strlit(".local</i> / AP SSID):<br><input name=name maxlength=32 value=\"");
    let l1 = DEVICE_HEAD@;
    assert(l1.skip(l1.len() - 3) =~= "<i>"@);
    assert(".local</i> / AP SSID):<br><input name=name maxlength=32 value=\""@.take(10)
        =~= ".local</i>"@);
    assert(l1.subrange(15, 15int + "<form method=POST action=/api/device>"@.len())
        =~= "<form method=POST action=/api/device>"@);
}

proof fn lemma_auto_shows(s: Snapshot)
    ensures
        shows(auto_section(s), "<b id=acstatus>"@, state_text(s.ac_status), "</b>"@),
        shows(
            auto_section(s),
            "<code id=srvkey style=word-break:break-all>"@,
            key_text(s.server_key, "(none yet)"@),
            "</code>"@,
        ),
        shows(
            auto_section(s),
            "<input type=checkbox name=enable "@,
            if s.auto.enable != 0 {
                "checked"@
            } else {
                ""@
            },
            ">"@,
        ),
        holds(auto_section(s), "<form method=POST action=/api/autoconnect>"@),
{
    lemma_auto_labels();
    let l1 = "<h3>Auto-connect (outbound)</h3><p>Status: <b id=acstatus>"@;
    let l2 = AUTO_KEY@;
    let l3 =
        "</code></p><form method=POST action=/api/autoconnect><label><input type=checkbox name=enable "@;
    let l4 = AUTO_URL@;
    let l5 = AUTO_TAIL@;
    let v1 = state_text(s.ac_status);
    let v2 = key_text(s.server_key, "(none yet)"@);
    let v3 = if s.auto.enable != 0 {
        "checked"@
    } else {
        ""@
    };
    let v4 = html_escaped(s.auto@.url_text());
    let none = Seq::<char>::empty();
    let t = auto_section(s);
    let b1 = v2 + l3 + v3 + l4 + v4 + l5;
    let b2 = v3 + l4 + v4 + l5;
    let b3 = v4 + l5;
    lemma_shows(none, l1, v1, l2, b1, "<b id=acstatus>"@, "</b>"@);
    assert(t =~= none + l1 + v1 + l2 + b1);
    lemma_shows(
        l1 + v1,
        l2,
        v2,
        l3,
        b2,
        "<code id=srvkey style=word-break:break-all>"@,
        "</code>"@,
    );
    assert(t =~= l1 + v1 + l2 + v2 + l3 + b2);
    lemma_shows(
        l1 + v1 + l2 + v2,
        l3,
        v3,
        l4,
        b3,
        "<input type=checkbox name=enable "@,
        ">"@,
    );
    assert(t =~= l1 + v1 + l2 + v2 + l3 + v3 + l4 + b3);
    lemma_holds_part(
        l1 + v1 + l2 + v2,
        l3,
        v3 + l4 + v4 + l5,
        "<form method=POST action=/api/autoconnect>"@,
    );
    assert(t =~= (l1 + v1 + l2 + v2) + l3 + (v3 + l4 + v4 + l5));
}

proof fn lemma_auto_labels()
    ensures
        ends("<h3>Auto-connect (outbound)</h3><p>Status: <b id=acstatus>"@, "<b id=acstatus>"@),
        begins(AUTO_KEY@, "</b>"@),
        ends(AUTO_KEY@, "<code id=srvkey style=word-break:break-all>"@),
        begins(
            "</code></p><form method=POST action=/api/autoconnect><label><input type=checkbox name=enable "@,
            "</code>"@,
        ),
        ends(
            "</code></p><form method=POST action=/api/autoconnect><label><input type=checkbox name=enable "@,
            "<input type=checkbox name=enable "@,
        ),
        holds(
            "</code></p><form method=POST action=/api/autoconnect><label><input type=checkbox name=enable "@,
            "<form method=POST action=/api/autoconnect>"@,
        ),
        begins(AUTO_URL@, ">"@),
{
    reveal_strlit("<h3>Auto-connect (outbound)</h3><p>Status: <b id=acstatus>");
    reveal_strlit("<b id=acstatus>");
    reveal_strlit("</b>");
    reveal_strlit(
        "</b></p><p style=font-size:smaller>Server key (last TLS connection):<br><code id=srvkey style=word-break:break-all>",
    );
    reveal_strlit("<code id=srvkey style=word-break:break-all>");
    reveal_strlit(
        "</code></p><form method=POST action=/api/autoconnect><label><input type=checkbox name=enable ",
    );
    reveal_strlit("</code>");
    reveal_strlit("<input type=checkbox name=enable ");
    reveal_strlit("<form method=POST action=/api/autoconnect>");
    reveal_strlit(
        "> Enable (dial out, works behind NAT)</label><br>URL:<br><input name=url maxlength=256 value=\"",
    );
    reveal_strlit(">");
    let l1 = "<h3>Auto-connect (outbound)</h3><p>Status: <b id=acstatus>"@;
    let l3 =
        "</code></p><form method=POST action=/api/autoconnect><label><input type=checkbox name=enable "@;
    assert(l1.skip(l1.len() - 15) =~= "<b id=acstatus>"@);
    assert(AUTO_KEY@.take(4) =~= "</b>"@);
    assert(AUTO_KEY@.skip(AUTO_KEY@.len() - 43) =~= "<code id=srvkey style=word-break:break-all>"@);
    assert(l3.take(7) =~= "</code>"@);
    assert(l3.skip(l3.len() - 33) =~= "<input type=checkbox name=enable "@);
    assert(l3.subrange(11, 11int + "<form method=POST action=/api/autoconnect>"@.len())
        =~= "<form method=POST action=/api/autoconnect>"@);
    assert(AUTO_URL@.take(1) =~= ">"@);
}

proof fn lemma_sections(s: Snapshot)
    ensures
        page_body(s) == Seq::<char>::empty() + connection_section(s) + (counters_section(s.counters)
            + device_section(s.device) + WIFI_SECTION@ + auto_section(s) + STATUS_SCRIPT@),
        page_body(s) == connection_section(s) + counters_section(s.counters) + (device_section(
            s.device,
        ) + WIFI_SECTION@ + auto_section(s) + STATUS_SCRIPT@),
        page_body(s) == (connection_section(s) + counters_section(s.counters)) + device_section(
            s.device,
        ) + (WIFI_SECTION@ + auto_section(s) + STATUS_SCRIPT@),
        page_body(s) == (connection_section(s) + counters_section(s.counters) + device_section(
            s.device,
        )) + WIFI_SECTION@ + (auto_section(s) + STATUS_SCRIPT@),
        page_body(s) == (connection_section(s) + counters_section(s.counters) + device_section(
            s.device,
        ) + WIFI_SECTION@) + auto_section(s) + STATUS_SCRIPT@,
{
    let (a, b, c, d, e, f) = (
        connection_section(s),
        counters_section(s.counters),
        device_section(s.device),
        WIFI_SECTION@,
        auto_section(s),
        STATUS_SCRIPT@,
    );
    lemma_six(a, b, c, d, e, f);
}

proof fn lemma_six(
    a: Seq<char>,
    b: Seq<char>,
    c: Seq<char>,
    d: Seq<char>,
    e: Seq<char>,
    f: Seq<char>,
)
    ensures
        a + b + c + d + e + f == Seq::<char>::empty() + a + (b + c + d + e + f),
        a + b + c + d + e + f == a + b + (c + d + e + f),
        a + b + c + d + e + f == (a + b) + c + (d + e + f),
        a + b + c + d + e + f == (a + b + c) + d + (e + f),
{
    let all = a + b + c + d + e + f;
    assert(all =~= Seq::<char>::empty() + a + (b + c + d + e + f));
    assert(all =~= a + b + (c + d + e + f));
    assert(all =~= (a + b) + c + (d + e + f));
    assert(all =~= (a + b + c) + d + (e + f));
}

/// Everything that is live can be read off the page where its label stands: the mode, the
/// WiFi connection with its address and network, and every frame counter.
pub proof fn page_shows_what_is_live(s: Snapshot)
    ensures
        shows(
            page_body(s),
            "<b id=mode>"@,
            if s.config_mode {
                "Configuration (AP)"@
            } else {
                "Station"@
            },
            "</b>"@,
        ),
        shows(
            page_body(s),
            "<b id=wifi>"@,
            if s.wifi_connected {
                "yes"@
            } else {
                "no"@
            },
            "</b>"@,
        ),
        shows(
            page_body(s),
            "<b id=staip>"@,
            match s.sta_ip {
                Some(a) => dotted(a@),
                None => "not connected"@,
            },
            "</b>"@,
        ),
        shows(page_body(s), "<b id=ssid>"@, html_escaped(s.wifi@.ssid_text()), "</b>"@),
        shows(page_body(s), "<td id=can_rx>"@, decimal(s.counters.can_rx as nat), "</td>"@),
        shows(page_body(s), "<td id=can_tx>"@, decimal(s.counters.can_tx as nat), "</td>"@),
        shows(page_body(s), "<td id=ser_in>"@, decimal(s.counters.ser_in as nat), "</td>"@),
        shows(page_body(s), "<td id=ser_out>"@, decimal(s.counters.ser_out as nat), "</td>"@),
        shows(page_body(s), "<td id=tcp_in>"@, decimal(s.counters.tcp_in as nat), "</td>"@),
        shows(page_body(s), "<td id=tcp_out>"@, decimal(s.counters.tcp_out as nat), "</td>"@),
{
    lemma_sections(s);
    lemma_connection_shows(s);
    lemma_counters_show(s.counters);
    let none = Seq::<char>::empty();
    let a = connection_section(s);
    let b = counters_section(s.counters);
    let after_a = b + device_section(s.device) + WIFI_SECTION@ + auto_section(s) + STATUS_SCRIPT@;
    let after_b = device_section(s.device) + WIFI_SECTION@ + auto_section(s) + STATUS_SCRIPT@;
    let c = s.counters;
    lemma_holds_part(none, a, after_a, "<b id=mode>"@ + mode_text(s.config_mode) + "</b>"@);
    lemma_holds_part(
        none,
        a,
        after_a,
        "<b id=wifi>"@ + (if s.wifi_connected {
            "yes"@
        } else {
            "no"@
        }) + "</b>"@,
    );
    lemma_holds_part(none, a, after_a, "<b id=staip>"@ + ip_text(s.sta_ip) + "</b>"@);
    lemma_holds_part(
        none,
        a,
        after_a,
        "<b id=ssid>"@ + html_escaped(s.wifi@.ssid_text()) + "</b>"@,
    );
    lemma_holds_part(a, b, after_b, "<td id=can_rx>"@ + decimal(c.can_rx as nat) + "</td>"@);
    lemma_holds_part(a, b, after_b, "<td id=can_tx>"@ + decimal(c.can_tx as nat) + "</td>"@);
    lemma_holds_part(a, b, after_b, "<td id=ser_in>"@ + decimal(c.ser_in as nat) + "</td>"@);
    lemma_holds_part(a, b, after_b, "<td id=ser_out>"@ + decimal(c.ser_out as nat) + "</td>"@);
    lemma_holds_part(a, b, after_b, "<td id=tcp_in>"@ + decimal(c.tcp_in as nat) + "</td>"@);
    lemma_holds_part(a, b, after_b, "<td id=tcp_out>"@ + decimal(c.tcp_out as nat) + "</td>"@);
}

/// The settings and the outbound connection can be read off the page: the device's name,
/// the auto-connect status, the key of the last TLS server in hexadecimal, and whether
/// auto-connect is switched on. There is a form for each of the three settings.
pub proof fn page_shows_the_settings(s: Snapshot)
    ensures
        shows(page_body(s), "<i>"@, html_escaped(s.device@.name_text()), ".local</i>"@),
        shows(page_body(s), "<b id=acstatus>"@, state_text(s.ac_status), "</b>"@),
        shows(
            page_body(s),
            "<code id=srvkey style=word-break:break-all>"@,
            match s.server_key {
                Some(k) => hex_text(k@),
                None => "(none yet)"@,
            },
            "</code>"@,
        ),
        shows(
            page_body(s),
            "<input type=checkbox name=enable "@,
            if s.auto.enable != 0 {
                "checked"@
            } else {
                ""@
            },
            ">"@,
        ),
        holds(page_body(s), "<form method=POST action=/api/device>"@),
        holds(page_body(s), "<form method=POST action=/api/wifi>"@),
        holds(page_body(s), "<input name=ssid maxlength=32 "@),
        holds(page_body(s), "<input name=password type=password maxlength=64 "@),
        holds(page_body(s), "<form method=POST action=/api/autoconnect>"@),
{
    lemma_sections(s);
    lemma_device_shows(s.device);
    lemma_auto_shows(s);
    lemma_wifi_form();
    let ab = connection_section(s) + counters_section(s.counters);
    let c = device_section(s.device);
    let e = auto_section(s);
    let after_c = WIFI_SECTION@ + e + STATUS_SCRIPT@;
    let after_d = e + STATUS_SCRIPT@;
    let before_e = ab + c + WIFI_SECTION@;
    lemma_holds_part(
        ab,
        c,
        after_c,
        "<i>"@ + html_escaped(s.device@.name_text()) + ".local</i>"@,
    );
    lemma_holds_part(ab, c, after_c, "<form method=POST action=/api/device>"@);
    lemma_holds_part(ab + c, WIFI_SECTION@, after_d, "<form method=POST action=/api/wifi>"@);
    lemma_holds_part(ab + c, WIFI_SECTION@, after_d, "<input name=ssid maxlength=32 "@);
    lemma_holds_part(
        ab + c,
        WIFI_SECTION@,
        after_d,
        "<input name=password type=password maxlength=64 "@,
    );
    lemma_holds_part(
        before_e,
        e,
        STATUS_SCRIPT@,
        "<b id=acstatus>"@ + state_text(s.ac_status) + "</b>"@,
    );
    lemma_holds_part(
        before_e,
        e,
        STATUS_SCRIPT@,
        "<code id=srvkey style=word-break:break-all>"@ + key_text(s.server_key, "(none yet)"@)
            + "</code>"@,
    );
    lemma_holds_part(
        before_e,
        e,
        STATUS_SCRIPT@,
        "<input type=checkbox name=enable "@ + (if s.auto.enable != 0 {
            "checked"@
        } else {
            ""@
        }) + ">"@,
    );
    lemma_holds_part(before_e, e, STATUS_SCRIPT@, "<form method=POST action=/api/autoconnect>"@);
}

proof fn lemma_wifi_form()
    ensures
        holds(WIFI_SECTION@, "<form method=POST action=/api/wifi>"@),
        holds(WIFI_SECTION@, "<input name=ssid maxlength=32 "@),
        holds(WIFI_SECTION@, "<input name=password type=password maxlength=64 "@),
{
    reveal_strlit(
        "<h3>WiFi setup</h3><form method=POST action=/api/wifi>SSID:<br><input name=ssid maxlength=32 style=width:100%><br>Password:<br><input name=password type=password maxlength=64 style=width:100%><br><br><button type=submit>Save &amp; reboot</button></form>",
    );
    reveal_strlit("<form method=POST action=/api/wifi>");
    reveal_strlit("<input name=ssid maxlength=32 ");
    reveal_strlit("<input name=password type=password maxlength=64 ");
    let w = WIFI_SECTION@;
    assert(w.subrange(19, 19int + "<form method=POST action=/api/wifi>"@.len())
        =~= "<form method=POST action=/api/wifi>"@);
    assert(w.subrange(63, 63int + "<input name=ssid maxlength=32 "@.len())
        =~= "<input name=ssid maxlength=32 "@);
    assert(w.subrange(127, 127int + "<input name=password type=password maxlength=64 "@.len())
        =~= "<input name=password type=password maxlength=64 "@);
}

// --- Form fields -----------------------------------------------------------

/// Whether no field of a form begins in `s` whose name has the initial `c`: every tag in it
/// is seen to be another one.
spec fn calm(s: Seq<char>, c: char) -> bool {
    forall|i: int|
        0 <= i < s.len() && #[trigger] s[i] == '<' ==> (i + 1 < s.len() && s[i + 1] != 'i') || (i + 2
            < s.len() && s[i + 2] != 'n') || (i + 7 < s.len() && s[i + 7] != 'n') || (i + 12
            < s.len() && s[i + 12] != c)
}

proof fn lemma_calm_join(a: Seq<char>, b: Seq<char>, c: char)
    requires
        calm(a, c),
        calm(b, c),
    ensures
        calm(a + b, c),
{
    let s = a + b;
    assert forall|i: int| 0 <= i < s.len() && #[trigger] s[i] == '<' implies (i + 1 < s.len()
        && s[i + 1] != 'i') || (i + 2 < s.len() && s[i + 2] != 'n') || (i + 7 < s.len() && s[i + 7]
        != 'n') || (i + 12 < s.len() && s[i + 12] != c) by {
        if i < a.len() {
            assert(a[i] == '<');
        } else {
            assert(b[i - a.len()] == '<');
        }
    }
}

proof fn lemma_calm_text(s: Seq<char>, c: char)
    requires
        !s.contains('<'),
    ensures
        calm(s, c),
{
    assert forall|i: int| 0 <= i < s.len() implies s[i] != '<' by {
        assert(s.contains(s[i]));
    }
}

proof fn lemma_filled(
    pre: Seq<char>,
    label: Seq<char>,
    value: Seq<char>,
    rest: Seq<char>,
    c: char,
)
    requires
        calm(pre, c),
        label.len() > 12,
        label[0] == '<' && label[1] == 'i' && label[2] == 'n' && label[7] == 'n' && label[12] == c,
        !value.contains('"'),
        rest.len() > 0,
        rest[0] == '"',
    ensures
        filled_with(pre + label + value + rest, label) == Some(html_shown(value)),
{
    let page = pre + label + value + rest;
    let n = pre.len() as int;
    assert(page.subrange(n, n + label.len()) =~= label);
    assert forall|j: int| 0 <= j < n implies #[trigger] page.subrange(j, j + label.len())
        != label by {
        let w = page.subrange(j, j + label.len());
        assert(w[0] == page[j] && w[1] == page[j + 1] && w[2] == page[j + 2] && w[7] == page[j + 7]
            && w[12] == page[j + 12]);
        if w == label {
            assert(pre[j] == '<');
            if j + 1 < n {
                assert(pre[j + 1] == page[j + 1]);
            }
            if j + 2 < n {
                assert(pre[j + 2] == page[j + 2]);
            }
            if j + 7 < n {
                assert(pre[j + 7] == page[j + 7]);
            }
            if j + 12 < n {
                assert(pre[j + 12] == page[j + 12]);
            }
        }
    }
    lemma_occurs_at_is(page, label, n);
    let tail = page.skip(n + label.len());
    assert(tail =~= value + rest);
    assert forall|j: int| 0 <= j < value.len() implies tail[j] != '"' by {
        assert(value.contains(value[j]));
    }
    lemma_first_at_is(tail, '"', value.len() as int);
    assert(tail.take(value.len() as int) =~= value);
}

proof fn lemma_escaped_is_inert(s: Seq<char>)
    ensures
        !html_escaped(s).contains('<'),
        !html_escaped(s).contains('"'),
        html_shown(html_escaped(s)) == s,
{
    html_is_inert(s);
    html_is_shown_as_it_was(s);
}

proof fn lemma_plain_is_inert(s: Seq<char>)
    requires
        plain_text(s),
    ensures
        !s.contains('<'),
        !s.contains('"'),
        html_shown(s) == s,
{
    plain_text_needs_no_escape(s);
    lemma_escaped_is_inert(s);
}

proof fn lemma_calm_connection(s: Snapshot, c: char)
    ensures
        calm(connection_section(s), c),
{
    unescaped_parts_are_plain(s, 0);
    lemma_plain_is_inert(mode_text(s.config_mode));
    lemma_plain_is_inert(ip_text(s.sta_ip));
    lemma_escaped_is_inert(s.wifi@.ssid_text());
    lemma_calm_connection_literals(c);
    let v1 = mode_text(s.config_mode);
    let v2 = if s.wifi_connected {
        "yes"@
    } else {
        "no"@
    };
    let v3 = ip_text(s.sta_ip);
    let v4 = html_escaped(s.wifi@.ssid_text());
    let l2 = "</b><br>WiFi connected: <b id=wifi>"@;
    let l3 = "</b><br>STA IP: <b id=staip>"@;
    let l4 = "</b><br>SSID: <b id=ssid>"@;
    let l5 = "</b></p>"@;
    lemma_calm_text(v1, c);
    lemma_calm_text(v3, c);
    lemma_calm_text(v4, c);
    let t1 = PAGE_HEAD@ + v1;
    let t2 = t1 + l2;
    let t3 = t2 + v2;
    let t4 = t3 + l3;
    let t5 = t4 + v3;
    let t6 = t5 + l4;
    let t7 = t6 + v4;
    lemma_calm_join(PAGE_HEAD@, v1, c);
    lemma_calm_join(t1, l2, c);
    lemma_calm_join(t2, v2, c);
    lemma_calm_join(t3, l3, c);
    lemma_calm_join(t4, v3, c);
    lemma_calm_join(t5, l4, c);
    lemma_calm_join(t6, v4, c);
    lemma_calm_join(t7, l5, c);
}

proof fn lemma_calm_connection_literals(c: char)
    ensures
        calm(PAGE_HEAD@, c),
        calm("yes"@, c),
        calm("no"@, c),
        calm("</b><br>WiFi connected: <b id=wifi>"@, c),
        calm("</b><br>STA IP: <b id=staip>"@, c),
        calm("</b><br>SSID: <b id=ssid>"@, c),
        calm("</b></p>"@, c),
{
    reveal_strlit(
        "<!doctype html><html><head><meta name=viewport content=\"width=device-width,initial-scale=1\"><title>espcan_br</title></head><body style=\"font-family:sans-serif;max-width:30em;margin:2em auto\"><h2>espcan_br CAN bridge</h2><p>Mode: <b id=mode>",
    );
    reveal_strlit("yes");
    reveal_strlit("no");
    reveal_strlit("</b><br>WiFi connected: <b id=wifi>");
    reveal_strlit("</b><br>STA IP: <b id=staip>");
    reveal_strlit("</b><br>SSID: <b id=ssid>");
    reveal_strlit("</b></p>");
}

proof fn lemma_calm_counters(k: Counters, c: char)
    ensures
        calm(counters_section(k), c),
{
    lemma_calm_counter_literals(c);
    let l2 = "</td><td id=can_tx>"@;
    let l3 = "</td></tr><tr><td>Serial (USB)</td><td id=ser_in>"@;
    let l4 = "</td><td id=ser_out>"@;
    let l5 = "</td></tr><tr><td>TCP</td><td id=tcp_in>"@;
    let l6 = "</td><td id=tcp_out>"@;
    let t1 = lemma_calm_number(COUNTERS_HEAD@, k.can_rx as nat, l2, c);
    let t2 = lemma_calm_number(t1, k.can_tx as nat, l3, c);
    let t3 = lemma_calm_number(t2, k.ser_in as nat, l4, c);
    let t4 = lemma_calm_number(t3, k.ser_out as nat, l5, c);
    let t5 = lemma_calm_number(t4, k.tcp_in as nat, l6, c);
    let t6 = lemma_calm_number(t5, k.tcp_out as nat, COUNTERS_TAIL@, c);
}

proof fn lemma_calm_number(a: Seq<char>, n: nat, l: Seq<char>, c: char) -> (t: Seq<char>)
    requires
        calm(a, c),
        calm(l, c),
    ensures
        t == a + decimal(n) + l,
        calm(t, c),
{
    lemma_number_is_inert(n);
    lemma_calm_text(decimal(n), c);
    lemma_calm_join(a, decimal(n), c);
    lemma_calm_join(a + decimal(n), l, c);
    a + decimal(n) + l
}

proof fn lemma_number_is_inert(n: nat)
    ensures
        !decimal(n).contains('<'),
        !decimal(n).contains('"'),
        html_shown(decimal(n)) == decimal(n),
{
    decimal_reads_back(n, n);
    assert forall|i: int| 0 <= i < decimal(n).len() implies plain_char(
        #[trigger] decimal(n)[i],
    ) by {
        assert(is_digit(decimal(n)[i]));
    }
    lemma_plain_is_inert(decimal(n));
}

proof fn lemma_calm_counter_literals(c: char)
    ensures
        calm(COUNTERS_HEAD@, c),
        calm("</td><td id=can_tx>"@, c),
        calm("</td></tr><tr><td>Serial (USB)</td><td id=ser_in>"@, c),
        calm("</td><td id=ser_out>"@, c),
        calm("</td></tr><tr><td>TCP</td><td id=tcp_in>"@, c),
        calm("</td><td id=tcp_out>"@, c),
        calm(COUNTERS_TAIL@, c),
{
    reveal_strlit(
        "<h3>Frame counters</h3><table border=1 cellpadding=4 style=border-collapse:collapse><tr><th>Interface</th><th>in</th><th>out</th></tr><tr><td>CAN bus</td><td id=can_rx>",
    );
    reveal_strlit(
        "</td></tr></table><p style=color:#888>CAN in = received from bus, out = transmitted to bus; serial/TCP in = host&rarr;adapter, out = adapter&rarr;host.</p>",
    );
    reveal_strlit("</td><td id=can_tx>");
    reveal_strlit("</td></tr><tr><td>Serial (USB)</td><td id=ser_in>");
    reveal_strlit("</td><td id=ser_out>");
    reveal_strlit("</td></tr><tr><td>TCP</td><td id=tcp_in>");
    reveal_strlit("</td><td id=tcp_out>");
}

/// The label of the field for the device's name.
pub open spec fn name_label() -> Seq<char> {
    "<input name=name maxlength=32 value=\""@
}

/// The label of the field for the baud rate.
pub open spec fn baud_label() -> Seq<char> {
    "<input name=baud type=number value=\""@
}

/// The label of the field for the URL.
pub open spec fn url_label() -> Seq<char> {
    "<input name=url maxlength=256 value=\""@
}

proof fn lemma_device_literals(c: char)
    ensures
        calm(DEVICE_HEAD@, c),
        calm(".local</i> / AP SSID):<br>"@, c),
        calm("\" style=width:100%><br>UART (USB) baud:<br>"@, c),
        calm("\" style=width:100%><br><br><button type=submit>Save &amp; reboot</button></form>"@, c),
        c != 'n' ==> calm(name_label(), c),
        c != 'b' ==> calm(baud_label(), c),
        ".local</i> / AP SSID):<br><input name=name maxlength=32 value=\""@
            == ".local</i> / AP SSID):<br>"@ + name_label(),
        "\" style=width:100%><br>UART (USB) baud:<br><input name=baud type=number value=\""@
            == "\" style=width:100%><br>UART (USB) baud:<br>"@ + baud_label(),
        name_label().len() > 12 && name_label()[0] == '<' && name_label()[1] == 'i' && name_label()[2]
            == 'n' && name_label()[7] == 'n' && name_label()[12] == 'n',
        baud_label().len() > 12 && baud_label()[0] == '<' && baud_label()[1] == 'i' && baud_label()[2]
            == 'n' && baud_label()[7] == 'n' && baud_label()[12] == 'b',
        "\" style=width:100%><br>UART (USB) baud:<br>"@[0] == '"',
        "\" style=width:100%><br>UART (USB) baud:<br>"@.len() > 0,
        "\" style=width:100%><br><br><button type=submit>Save &amp; reboot</button></form>"@[0]
            == '"',
        "\" style=width:100%><br><br><button type=submit>Save &amp; reboot</button></form>"@.len()
            > 0,
{
    reveal_strlit("<h3>Device</h3><form method=POST action=/api/device>Name (mDNS <i>");
    reveal_strlit(".local</i> / AP SSID):<br>");
    reveal_strlit("\" style=width:100%><br>UART (USB) baud:<br>");
    reveal_strlit(
        "\" style=width:100%><br><br><button type=submit>Save &amp; reboot</button></form>",
    );
    reveal_strlit("<input name=name maxlength=32 value=\"");
    reveal_strlit("<input name=baud type=number value=\"");
    reveal_strlit(".local</i> / AP SSID):<br><input name=name maxlength=32 value=\"");
    reveal_strlit(
        "\" style=width:100%><br>UART (USB) baud:<br><input name=baud type=number value=\"",
    );
    assert(".local</i> / AP SSID):<br><input name=name maxlength=32 value=\""@
        =~= ".local</i> / AP SSID):<br>"@ + name_label());
    assert("\" style=width:100%><br>UART (USB) baud:<br><input name=baud type=number value=\""@
        =~= "\" style=width:100%><br>UART (USB) baud:<br>"@ + baud_label());
}

/// What stands in front of the name field.
spec fn before_name(s: Snapshot) -> Seq<char> {
    connection_section(s) + counters_section(s.counters) + DEVICE_HEAD@ + html_escaped(
        s.device@.name_text(),
    ) + ".local</i> / AP SSID):<br>"@
}

/// What stands in front of the baud field.
spec fn before_baud(s: Snapshot) -> Seq<char> {
    before_name(s) + name_label() + html_escaped(s.device@.name_text())
        + "\" style=width:100%><br>UART (USB) baud:<br>"@
}

proof fn lemma_calm_before(s: Snapshot, c: char)
    ensures
        calm(before_name(s), c),
        c != 'n' ==> calm(before_baud(s), c),
{
    let v = html_escaped(s.device@.name_text());
    let a = connection_section(s);
    let b = counters_section(s.counters);
    lemma_calm_connection(s, c);
    lemma_calm_counters(s.counters, c);
    lemma_device_literals(c);
    lemma_escaped_is_inert(s.device@.name_text());
    lemma_calm_text(v, c);
    lemma_calm_join(a, b, c);
    lemma_calm_join(a + b, DEVICE_HEAD@, c);
    lemma_calm_join(a + b + DEVICE_HEAD@, v, c);
    lemma_calm_join(a + b + DEVICE_HEAD@ + v, ".local</i> / AP SSID):<br>"@, c);
    if c != 'n' {
        let p = before_name(s);
        lemma_calm_join(p, name_label(), c);
        lemma_calm_join(p + name_label(), v, c);
        lemma_calm_join(p + name_label() + v, "\" style=width:100%><br>UART (USB) baud:<br>"@, c);
    }
}

proof fn lemma_page_at_device(s: Snapshot)
    ensures
        ({
            let v = html_escaped(s.device@.name_text());
            let d = decimal(s.device@.baud_rate() as nat);
            let tail =
                "\" style=width:100%><br><br><button type=submit>Save &amp; reboot</button></form>"@
                + (WIFI_SECTION@ + auto_section(s) + STATUS_SCRIPT@);
            let after_name = "\" style=width:100%><br>UART (USB) baud:<br>"@ + (baud_label() + d
                + tail);
            &&& page_body(s) == before_name(s) + name_label() + v + after_name
            &&& page_body(s) == before_baud(s) + baud_label() + d + tail
            &&& after_name.len() > 0 && after_name[0] == '"'
            &&& tail.len() > 0 && tail[0] == '"'
        }),
{
    lemma_sections(s);
    lemma_device_literals('u');
    let ab = connection_section(s) + counters_section(s.counters);
    let h = DEVICE_HEAD@;
    let v = html_escaped(s.device@.name_text());
    let x = ".local</i> / AP SSID):<br>"@;
    let n = name_label();
    let y = "\" style=width:100%><br>UART (USB) baud:<br>"@;
    let b = baud_label();
    let d = decimal(s.device@.baud_rate() as nat);
    let z = "\" style=width:100%><br><br><button type=submit>Save &amp; reboot</button></form>"@;
    let w = WIFI_SECTION@ + auto_section(s) + STATUS_SCRIPT@;
    assert(device_section(s.device) == h + v + (x + n) + v + (y + b) + d + z);
    lemma_device_regroup(ab, h, v, x, n, y, b, d, z, w);
}

proof fn lemma_device_regroup(
    ab: Seq<char>,
    h: Seq<char>,
    v: Seq<char>,
    x: Seq<char>,
    n: Seq<char>,
    y: Seq<char>,
    b: Seq<char>,
    d: Seq<char>,
    z: Seq<char>,
    w: Seq<char>,
)
    ensures
        ab + (h + v + (x + n) + v + (y + b) + d + z) + w == (ab + h + v + x) + n + v + (y + (b + d + (
        z + w))),
        ab + (h + v + (x + n) + v + (y + b) + d + z) + w == ((ab + h + v + x) + n + v + y) + b + d
            + (z + w),
{
    let p = ab + h + v + x;
    assert(ab + (h + v + (x + n)) =~= p + n);
    let q = p + n + v;
    assert(ab + (h + v + (x + n) + v) =~= ab + (h + v + (x + n)) + v);
    assert(ab + (h + v + (x + n) + v + (y + b)) =~= q + y + b) by {
        assert(ab + (h + v + (x + n) + v + (y + b)) =~= ab + (h + v + (x + n) + v) + (y + b));
        assert(q + (y + b) =~= q + y + b);
    }
    let r = q + y + b;
    let front = h + v + (x + n) + v + (y + b);
    assert(ab + (front + d + z) =~= r + d + z) by {
        assert(ab + (front + d + z) =~= ab + front + d + z);
    }
    assert(r + d + z + w =~= r + d + (z + w));
    assert(q + y + b + d + (z + w) =~= q + (y + (b + d + (z + w))));
}

/// The device form is filled with what is stored: the name field with the device's name,
/// and the baud field with its baud rate in decimal.
pub proof fn device_form_is_filled(s: Snapshot)
    ensures
        filled_with(page_body(s), name_label()) == Some(s.device@.name_text()),
        filled_with(page_body(s), baud_label()) == Some(decimal(s.device@.baud_rate() as nat)),
{
    let v = html_escaped(s.device@.name_text());
    let d = decimal(s.device@.baud_rate() as nat);
    let tail =
        "\" style=width:100%><br><br><button type=submit>Save &amp; reboot</button></form>"@ + (
    WIFI_SECTION@ + auto_section(s) + STATUS_SCRIPT@);
    let after_name = "\" style=width:100%><br>UART (USB) baud:<br>"@ + (baud_label() + d + tail);
    lemma_page_at_device(s);
    lemma_device_literals('u');
    lemma_calm_before(s, 'n');
    lemma_calm_before(s, 'b');
    lemma_escaped_is_inert(s.device@.name_text());
    lemma_number_is_inert(s.device@.baud_rate() as nat);
    lemma_filled(before_name(s), name_label(), v, after_name, 'n');
    lemma_filled(before_baud(s), baud_label(), d, tail, 'b');
}

/// Pages of devices with different names or baud rates differ in those fields.
pub proof fn device_forms_tell_devices_apart(s: Snapshot, t: Snapshot)
    ensures
        s.device@.name_text() != t.device@.name_text() ==> filled_with(page_body(s), name_label())
            != filled_with(page_body(t), name_label()),
        s.device@.baud_rate() != t.device@.baud_rate() ==> filled_with(page_body(s), baud_label())
            != filled_with(page_body(t), baud_label()),
{
    device_form_is_filled(s);
    device_form_is_filled(t);
    decimal_reads_back(s.device@.baud_rate() as nat, u32::MAX as nat);
    decimal_reads_back(t.device@.baud_rate() as nat, u32::MAX as nat);
}

/// A device form that is posted as it is shown saves the same name and baud rate, for every
/// name that the form accepts.
pub proof fn device_form_saves_what_it_shows(s: Snapshot)
    requires
        name_ok(encode_utf8(s.device@.name_text())),
        encode_utf8(s.device@.name_text()).len() <= 32,
    ensures
        filled_with(page_body(s), name_label()) matches Some(name) && filled_with(
            page_body(s),
            baud_label(),
        ) matches Some(baud) && device_form(posted("name"@, name, "baud"@, baud)) matches Some(c)
            && c.name_text() == s.device@.name_text() && c.baud_rate() == s.device@.baud_rate(),
{
    device_form_is_filled(s);
    posted_device_takes_effect(s.device@.name_text(), s.device@.baud_rate());
}

proof fn lemma_auto_literals()
    ensures
        calm(WIFI_SECTION@, 'u'),
        calm("<h3>Auto-connect (outbound)</h3><p>Status: <b id=acstatus>"@, 'u'),
        calm(AUTO_KEY@, 'u'),
        calm(
            "</code></p><form method=POST action=/api/autoconnect><label><input type=checkbox name=enable "@,
            'u',
        ),
        calm("checked"@, 'u'),
        calm(""@, 'u'),
        calm("> Enable (dial out, works behind NAT)</label><br>URL:<br>"@, 'u'),
        AUTO_URL@ == "> Enable (dial out, works behind NAT)</label><br>URL:<br>"@ + url_label(),
        url_label().len() > 12 && url_label()[0] == '<' && url_label()[1] == 'i' && url_label()[2]
            == 'n' && url_label()[7] == 'n' && url_label()[12] == 'u',
        AUTO_TAIL@.len() > 0,
        AUTO_TAIL@[0] == '"',
{
    reveal_strlit(
        "<h3>WiFi setup</h3><form method=POST action=/api/wifi>SSID:<br><input name=ssid maxlength=32 style=width:100%><br>Password:<br><input name=password type=password maxlength=64 style=width:100%><br><br><button type=submit>Save &amp; reboot</button></form>",
    );
    reveal_strlit("<h3>Auto-connect (outbound)</h3><p>Status: <b id=acstatus>");
    reveal_strlit(
        "</b></p><p style=font-size:smaller>Server key (last TLS connection):<br><code id=srvkey style=word-break:break-all>",
    );
    reveal_strlit(
        "</code></p><form method=POST action=/api/autoconnect><label><input type=checkbox name=enable ",
    );
    reveal_strlit("checked");
    reveal_strlit("");
    reveal_strlit("> Enable (dial out, works behind NAT)</label><br>URL:<br>");
    reveal_strlit(
        "> Enable (dial out, works behind NAT)</label><br>URL:<br><input name=url maxlength=256 value=\"",
    );
    reveal_strlit("<input name=url maxlength=256 value=\"");
    reveal_strlit(
        "\" placeholder=\"tls://host:port/?pubkey=..&amp;token=..\" style=width:100%><br><small style=color:#888>tcp:// or tls://; optional <b>pubkey</b> (pin server key) and <b>token</b> (auth).</small><br><br><button type=submit>Save &amp; reboot</button></form>",
    );
    assert(AUTO_URL@ =~= "> Enable (dial out, works behind NAT)</label><br>URL:<br>"@
        + url_label());
}

/// What stands in front of the URL field, from the auto-connect section on.
spec fn auto_before_url(s: Snapshot) -> Seq<char> {
    "<h3>Auto-connect (outbound)</h3><p>Status: <b id=acstatus>"@ + state_text(s.ac_status)
        + AUTO_KEY@ + key_text(s.server_key, "(none yet)"@)
        + "</code></p><form method=POST action=/api/autoconnect><label><input type=checkbox name=enable "@
        + (if s.auto.enable != 0 {
        "checked"@
    } else {
        ""@
    }) + "> Enable (dial out, works behind NAT)</label><br>URL:<br>"@
}

proof fn lemma_calm_auto(s: Snapshot)
    ensures
        calm(auto_before_url(s), 'u'),
{
    lemma_auto_literals();
    unescaped_parts_are_plain(s, 0);
    lemma_plain_is_inert(state_text(s.ac_status));
    lemma_plain_is_inert(key_text(s.server_key, "(none yet)"@));
    let l1 = "<h3>Auto-connect (outbound)</h3><p>Status: <b id=acstatus>"@;
    let v1 = state_text(s.ac_status);
    let v2 = key_text(s.server_key, "(none yet)"@);
    let l3 =
        "</code></p><form method=POST action=/api/autoconnect><label><input type=checkbox name=enable "@;
    let v3 = if s.auto.enable != 0 {
        "checked"@
    } else {
        ""@
    };
    let l4 = "> Enable (dial out, works behind NAT)</label><br>URL:<br>"@;
    lemma_calm_text(v1, 'u');
    lemma_calm_text(v2, 'u');
    lemma_calm_join(l1, v1, 'u');
    lemma_calm_join(l1 + v1, AUTO_KEY@, 'u');
    lemma_calm_join(l1 + v1 + AUTO_KEY@, v2, 'u');
    lemma_calm_join(l1 + v1 + AUTO_KEY@ + v2, l3, 'u');
    lemma_calm_join(l1 + v1 + AUTO_KEY@ + v2 + l3, v3, 'u');
    lemma_calm_join(l1 + v1 + AUTO_KEY@ + v2 + l3 + v3, l4, 'u');
}

/// The auto-connect form is filled with the URL that is stored.
pub proof fn url_form_is_filled(s: Snapshot)
    ensures
        filled_with(page_body(s), url_label()) == Some(s.auto@.url_text()),
{
    let d = decimal(s.device@.baud_rate() as nat);
    let z = "\" style=width:100%><br><br><button type=submit>Save &amp; reboot</button></form>"@;
    let v = html_escaped(s.auto@.url_text());
    let p = before_baud(s) + baud_label() + d + z + WIFI_SECTION@ + auto_before_url(s);
    lemma_page_at_device(s);
    lemma_device_literals('u');
    lemma_auto_literals();
    lemma_calm_before(s, 'u');
    lemma_calm_auto(s);
    lemma_number_is_inert(s.device@.baud_rate() as nat);
    lemma_escaped_is_inert(s.auto@.url_text());
    lemma_calm_text(d, 'u');
    lemma_calm_join(before_baud(s), baud_label(), 'u');
    lemma_calm_join(before_baud(s) + baud_label(), d, 'u');
    lemma_calm_join(before_baud(s) + baud_label() + d, z, 'u');
    lemma_calm_join(before_baud(s) + baud_label() + d + z, WIFI_SECTION@, 'u');
    lemma_calm_join(
        before_baud(s) + baud_label() + d + z + WIFI_SECTION@,
        auto_before_url(s),
        'u',
    );
    let q = before_baud(s) + baud_label() + d;
    let e = auto_before_url(s);
    lemma_auto_regroup(s);
    lemma_url_regroup(q, z, WIFI_SECTION@, e, url_label(), v, AUTO_TAIL@, STATUS_SCRIPT@);
    lemma_filled(p, url_label(), v, AUTO_TAIL@ + STATUS_SCRIPT@, 'u');
}

proof fn lemma_auto_regroup(s: Snapshot)
    ensures
        auto_section(s) == auto_before_url(s) + url_label() + html_escaped(s.auto@.url_text())
            + AUTO_TAIL@,
{
    lemma_auto_literals();
    let l4 = "> Enable (dial out, works behind NAT)</label><br>URL:<br>"@;
    let front = "<h3>Auto-connect (outbound)</h3><p>Status: <b id=acstatus>"@ + state_text(
        s.ac_status,
    ) + AUTO_KEY@ + key_text(s.server_key, "(none yet)"@)
        + "</code></p><form method=POST action=/api/autoconnect><label><input type=checkbox name=enable "@
        + (if s.auto.enable != 0 {
        "checked"@
    } else {
        ""@
    });
    assert(front + (l4 + url_label()) =~= front + l4 + url_label());
}

proof fn lemma_url_regroup(
    q: Seq<char>,
    z: Seq<char>,
    w: Seq<char>,
    e: Seq<char>,
    u: Seq<char>,
    v: Seq<char>,
    t: Seq<char>,
    x: Seq<char>,
)
    ensures
        q + (z + (w + (e + u + v + t) + x)) == (q + z + w + e) + u + v + (t + x),
{
    assert(q + (z + (w + (e + u + v + t) + x)) =~= (q + z + w + e) + u + v + (t + x));
}

/// An auto-connect form that is posted as it is shown saves the same URL, with the switch as
/// it is set on the page.
pub proof fn url_form_saves_what_it_shows(s: Snapshot)
    ensures
        filled_with(page_body(s), url_label()) matches Some(url) && auto_form(
            posted("enable"@, "on"@, "url"@, url),
        ).url_text() == s.auto@.url_text() && auto_form(
            form_text(seq![(encode_utf8("url"@), encode_utf8(url))]),
        ).url_text() == s.auto@.url_text(),
{
    url_form_is_filled(s);
    let stored = cut(s.auto@.url, s.auto@.url_len as nat);
    assert(encode_utf8(s.auto@.url_text()).len() <= 256) by {
        if valid_utf8(stored) {
            decode_utf8_encode_utf8(stored);
        } else {
            assert(encode_utf8(Seq::<char>::empty()).len() == 0);
        }
    }
    posted_url_takes_effect(s.auto@.url_text());
}

// --- The snapshot ----------------------------------------------------------

proof fn lemma_status_counters(s: Snapshot, front: Seq<char>, back: Seq<char>)
    requires
        status_body(s) == front + decimal(s.counters.can_rx as nat) + ",\"can_tx\":"@ + decimal(
            s.counters.can_tx as nat,
        ) + ",\"ser_in\":"@ + decimal(s.counters.ser_in as nat) + ",\"ser_out\":"@ + decimal(
            s.counters.ser_out as nat,
        ) + ",\"tcp_in\":"@ + decimal(s.counters.tcp_in as nat) + ",\"tcp_out\":"@ + decimal(
            s.counters.tcp_out as nat,
        ) + ",\"ac_status\":\""@ + back,
        ends(front, "\"can_rx\":"@),
    ensures
        shows(status_body(s), "\"can_rx\":"@, decimal(s.counters.can_rx as nat), ","@),
        shows(status_body(s), "\"can_tx\":"@, decimal(s.counters.can_tx as nat), ","@),
        shows(status_body(s), "\"ser_in\":"@, decimal(s.counters.ser_in as nat), ","@),
        shows(status_body(s), "\"ser_out\":"@, decimal(s.counters.ser_out as nat), ","@),
        shows(status_body(s), "\"tcp_in\":"@, decimal(s.counters.tcp_in as nat), ","@),
        shows(status_body(s), "\"tcp_out\":"@, decimal(s.counters.tcp_out as nat), ","@),
{
    lemma_status_counter_labels();
    let c = s.counters;
    let none = Seq::<char>::empty();
    let l1 = front;
    let l2 = ",\"can_tx\":"@;
    let l3 = ",\"ser_in\":"@;
    let l4 = ",\"ser_out\":"@;
    let l5 = ",\"tcp_in\":"@;
    let l6 = ",\"tcp_out\":"@;
    let l7 = ",\"ac_status\":\""@;
    let v1 = decimal(c.can_rx as nat);
    let v2 = decimal(c.can_tx as nat);
    let v3 = decimal(c.ser_in as nat);
    let v4 = decimal(c.ser_out as nat);
    let v5 = decimal(c.tcp_in as nat);
    let v6 = decimal(c.tcp_out as nat);
    let b6 = back;
    let b5 = v6 + (l7 + b6);
    let b4 = v5 + (l6 + b5);
    let b3 = v4 + (l5 + b4);
    let b2 = v3 + (l4 + b3);
    let b1 = v2 + (l3 + b2);
    let a2 = l1 + v1;
    let a3 = a2 + l2 + v2;
    let a4 = a3 + l3 + v3;
    let a5 = a4 + l4 + v4;
    let a6 = a5 + l5 + v5;
    let end = ","@;
    lemma_step(a6 + l6, v6, l7, b6);
    lemma_step(a5 + l5, v5, l6, b5);
    lemma_step(a4 + l4, v4, l5, b4);
    lemma_step(a3 + l3, v3, l4, b3);
    lemma_step(a2 + l2, v2, l3, b2);
    assert(none + l1 =~= l1);
    lemma_shows(none, l1, v1, l2, b1, "\"can_rx\":"@, end);
    lemma_shows(a2, l2, v2, l3, b2, "\"can_tx\":"@, end);
    lemma_shows(a3, l3, v3, l4, b3, "\"ser_in\":"@, end);
    lemma_shows(a4, l4, v4, l5, b4, "\"ser_out\":"@, end);
    lemma_shows(a5, l5, v5, l6, b5, "\"tcp_in\":"@, end);
    lemma_shows(a6, l6, v6, l7, b6, "\"tcp_out\":"@, end);
}

proof fn lemma_status_counter_labels()
    ensures
        begins(",\"can_tx\":"@, ","@),
        ends(",\"can_tx\":"@, "\"can_tx\":"@),
        begins(",\"ser_in\":"@, ","@),
        ends(",\"ser_in\":"@, "\"ser_in\":"@),
        begins(",\"ser_out\":"@, ","@),
        ends(",\"ser_out\":"@, "\"ser_out\":"@),
        begins(",\"tcp_in\":"@, ","@),
        ends(",\"tcp_in\":"@, "\"tcp_in\":"@),
        begins(",\"tcp_out\":"@, ","@),
        ends(",\"tcp_out\":"@, "\"tcp_out\":"@),
        begins(",\"ac_status\":\""@, ","@),
{
    reveal_strlit(",");
    reveal_strlit(",\"can_tx\":");
    reveal_strlit("\"can_tx\":");
    reveal_strlit(",\"ser_in\":");
    reveal_strlit("\"ser_in\":");
    reveal_strlit(",\"ser_out\":");
    reveal_strlit("\"ser_out\":");
    reveal_strlit(",\"tcp_in\":");
    reveal_strlit("\"tcp_in\":");
    reveal_strlit(",\"tcp_out\":");
    reveal_strlit("\"tcp_out\":");
    reveal_strlit(",\"ac_status\":\"");
    assert(",\"can_tx\":"@.take(1) =~= ","@);
    assert(",\"can_tx\":"@.skip(",\"can_tx\":"@.len() - 9) =~= "\"can_tx\":"@);
    assert(",\"ser_in\":"@.take(1) =~= ","@);
    assert(",\"ser_in\":"@.skip(",\"ser_in\":"@.len() - 9) =~= "\"ser_in\":"@);
    assert(",\"ser_out\":"@.take(1) =~= ","@);
    assert(",\"ser_out\":"@.skip(",\"ser_out\":"@.len() - 10) =~= "\"ser_out\":"@);
    assert(",\"tcp_in\":"@.take(1) =~= ","@);
    assert(",\"tcp_in\":"@.skip(",\"tcp_in\":"@.len() - 9) =~= "\"tcp_in\":"@);
    assert(",\"tcp_out\":"@.take(1) =~= ","@);
    assert(",\"tcp_out\":"@.skip(",\"tcp_out\":"@.len() - 10) =~= "\"tcp_out\":"@);
    assert(",\"ac_status\":\""@.take(1) =~= ","@);
}

/// The beginning of the snapshot, up to the first counter.
spec fn status_front(s: Snapshot) -> Seq<char> {
    "{\"mode\":\""@ + mode_text(s.config_mode) + "\",\"wifi\":"@ + (if s.wifi_connected {
        "true"@
    } else {
        "false"@
    }) + ",\"sta_ip\":\""@ + ip_text(s.sta_ip) + "\",\"ssid\":\""@ + json_escaped(
        s.wifi@.ssid_text(),
    ) + "\",\"can_rx\":"@
}

/// The end of the snapshot, behind the label of the auto-connect status.
spec fn status_back(s: Snapshot) -> Seq<char> {
    state_text(s.ac_status) + ("\",\"server_key\":\""@ + (key_text(s.server_key, ""@) + "\"}"@))
}

proof fn lemma_status_front(s: Snapshot)
    ensures
        shows(status_front(s), "{\"mode\":\""@, mode_text(s.config_mode), "\","@),
        shows(
            status_front(s),
            "\"wifi\":"@,
            if s.wifi_connected {
                "true"@
            } else {
                "false"@
            },
            ","@,
        ),
        shows(status_front(s), "\"sta_ip\":\""@, ip_text(s.sta_ip), "\","@),
        shows(status_front(s), "\"ssid\":\""@, json_escaped(s.wifi@.ssid_text()), "\","@),
        ends(status_front(s), "\"can_rx\":"@),
{
    lemma_status_front_labels();
    let none = Seq::<char>::empty();
    let l1 = "{\"mode\":\""@;
    let l2 = "\",\"wifi\":"@;
    let l3 = ",\"sta_ip\":\""@;
    let l4 = "\",\"ssid\":\""@;
    let l5 = "\",\"can_rx\":"@;
    let v1 = mode_text(s.config_mode);
    let v2 = if s.wifi_connected {
        "true"@
    } else {
        "false"@
    };
    let v3 = ip_text(s.sta_ip);
    let v4 = json_escaped(s.wifi@.ssid_text());
    let b4 = none;
    let b3 = v4 + (l5 + b4);
    let b2 = v3 + (l4 + b3);
    let b1 = v2 + (l3 + b2);
    let a2 = l1 + v1;
    let a3 = a2 + l2 + v2;
    let a4 = a3 + l3 + v3;
    let t = status_front(s);
    lemma_step(a4 + l4, v4, l5, b4);
    lemma_step(a3 + l3, v3, l4, b3);
    lemma_step(a2 + l2, v2, l3, b2);
    assert(t == a4 + l4 + v4 + l5);
    assert(t + none =~= t);
    assert(none + l1 =~= l1);
    lemma_shows(none, l1, v1, l2, b1, l1, "\","@);
    lemma_shows(a2, l2, v2, l3, b2, "\"wifi\":"@, ","@);
    lemma_shows(a3, l3, v3, l4, b3, "\"sta_ip\":\""@, "\","@);
    lemma_shows(a4, l4, v4, l5, b4, "\"ssid\":\""@, "\","@);
    assert(t.skip(t.len() - 9) =~= l5.skip(l5.len() - 9));
}

proof fn lemma_status_front_labels()
    ensures
        ends("{\"mode\":\""@, "{\"mode\":\""@),
        begins("\",\"wifi\":"@, "\","@),
        ends("\",\"wifi\":"@, "\"wifi\":"@),
        begins(",\"sta_ip\":\""@, ","@),
        ends(",\"sta_ip\":\""@, "\"sta_ip\":\""@),
        begins("\",\"ssid\":\""@, "\","@),
        ends("\",\"ssid\":\""@, "\"ssid\":\""@),
        begins("\",\"can_rx\":"@, "\","@),
        ends("\",\"can_rx\":"@, "\"can_rx\":"@),
        "\"can_rx\":"@.len() == 9,
        "\",\"can_rx\":"@.len() >= 9,
{
    reveal_strlit("{\"mode\":\"");
    reveal_strlit("\",");
    reveal_strlit(",");
    reveal_strlit("\",\"wifi\":");
    reveal_strlit("\"wifi\":");
    reveal_strlit(",\"sta_ip\":\"");
    reveal_strlit("\"sta_ip\":\"");
    reveal_strlit("\",\"ssid\":\"");
    reveal_strlit("\"ssid\":\"");
    reveal_strlit("\",\"can_rx\":");
    reveal_strlit("\"can_rx\":");
    assert("{\"mode\":\""@.skip(0) =~= "{\"mode\":\""@);
    assert("\",\"wifi\":"@.take(2) =~= "\","@);
    assert("\",\"wifi\":"@.skip("\",\"wifi\":"@.len() - 7) =~= "\"wifi\":"@);
    assert(",\"sta_ip\":\""@.take(1) =~= ","@);
    assert(",\"sta_ip\":\""@.skip(",\"sta_ip\":\""@.len() - 10) =~= "\"sta_ip\":\""@);
    assert("\",\"ssid\":\""@.take(2) =~= "\","@);
    assert("\",\"ssid\":\""@.skip("\",\"ssid\":\""@.len() - 8) =~= "\"ssid\":\""@);
    assert("\",\"can_rx\":"@.take(2) =~= "\","@);
    assert("\",\"can_rx\":"@.skip("\",\"can_rx\":"@.len() - 9) =~= "\"can_rx\":"@);
}

/// Everything that is live is in the snapshot under its key: strings between quotes, and
/// counters and the WiFi connection without.
pub proof fn snapshot_shows_what_is_live(s: Snapshot)
    ensures
        shows(
            status_body(s),
            "{\"mode\":\""@,
            if s.config_mode {
                "Configuration (AP)"@
            } else {
                "Station"@
            },
            "\","@,
        ),
        shows(
            status_body(s),
            "\"wifi\":"@,
            if s.wifi_connected {
                "true"@
            } else {
                "false"@
            },
            ","@,
        ),
        shows(
            status_body(s),
            "\"sta_ip\":\""@,
            match s.sta_ip {
                Some(a) => dotted(a@),
                None => "not connected"@,
            },
            "\","@,
        ),
        shows(status_body(s), "\"ssid\":\""@, json_escaped(s.wifi@.ssid_text()), "\","@),
        shows(status_body(s), "\"can_rx\":"@, decimal(s.counters.can_rx as nat), ","@),
        shows(status_body(s), "\"can_tx\":"@, decimal(s.counters.can_tx as nat), ","@),
        shows(status_body(s), "\"ser_in\":"@, decimal(s.counters.ser_in as nat), ","@),
        shows(status_body(s), "\"ser_out\":"@, decimal(s.counters.ser_out as nat), ","@),
        shows(status_body(s), "\"tcp_in\":"@, decimal(s.counters.tcp_in as nat), ","@),
        shows(status_body(s), "\"tcp_out\":"@, decimal(s.counters.tcp_out as nat), ","@),
        shows(status_body(s), "\"ac_status\":\""@, state_text(s.ac_status), "\","@),
        shows(
            status_body(s),
            "\"server_key\":\""@,
            match s.server_key {
                Some(k) => hex_text(k@),
                None => ""@,
            },
            "\"}"@,
        ),
{
    let c = s.counters;
    let none = Seq::<char>::empty();
    let front = status_front(s);
    let head = front + decimal(c.can_rx as nat) + ",\"can_tx\":"@ + decimal(c.can_tx as nat)
        + ",\"ser_in\":"@ + decimal(c.ser_in as nat) + ",\"ser_out\":"@ + decimal(c.ser_out as nat)
        + ",\"tcp_in\":"@ + decimal(c.tcp_in as nat) + ",\"tcp_out\":"@ + decimal(c.tcp_out as nat);
    let l7 = ",\"ac_status\":\""@;
    let l8 = "\",\"server_key\":\""@;
    let l9 = "\"}"@;
    let v7 = state_text(s.ac_status);
    let v8 = key_text(s.server_key, ""@);
    let b = status_body(s);
    assert(b == head + l7 + v7 + l8 + v8 + l9);
    lemma_step(head + l7, v7, l8, v8 + l9);
    assert(head + l7 + v7 + l8 + (v8 + l9) =~= b);
    lemma_status_front(s);
    lemma_status_counters(s, front, status_back(s));
    lemma_status_back_labels();
    lemma_shows(head, l7, v7, l8, v8 + l9, "\"ac_status\":\""@, "\","@);
    lemma_shows(head + l7 + v7, l8, v8, l9, none, "\"server_key\":\""@, "\"}"@);
    assert(b + none =~= b);
    lemma_front_part(s);
}

proof fn lemma_front_part(s: Snapshot)
    ensures
        shows(status_body(s), "{\"mode\":\""@, mode_text(s.config_mode), "\","@),
        shows(
            status_body(s),
            "\"wifi\":"@,
            if s.wifi_connected {
                "true"@
            } else {
                "false"@
            },
            ","@,
        ),
        shows(status_body(s), "\"sta_ip\":\""@, ip_text(s.sta_ip), "\","@),
        shows(status_body(s), "\"ssid\":\""@, json_escaped(s.wifi@.ssid_text()), "\","@),
{
    lemma_status_front(s);
    let none = Seq::<char>::empty();
    let f = status_front(s);
    let b = status_body(s);
    let rest = b.skip(f.len() as int);
    assert(b.len() >= f.len());
    assert(b.take(f.len() as int) =~= f);
    assert(b =~= none + f + rest);
    lemma_holds_part(none, f, rest, "{\"mode\":\""@ + mode_text(s.config_mode) + "\","@);
    lemma_holds_part(
        none,
        f,
        rest,
        "\"wifi\":"@ + (if s.wifi_connected {
            "true"@
        } else {
            "false"@
        }) + ","@,
    );
    lemma_holds_part(none, f, rest, "\"sta_ip\":\""@ + ip_text(s.sta_ip) + "\","@);
    lemma_holds_part(none, f, rest, "\"ssid\":\""@ + json_escaped(s.wifi@.ssid_text()) + "\","@);
}

proof fn lemma_status_back_labels()
    ensures
        ends(",\"ac_status\":\""@, "\"ac_status\":\""@),
        begins("\",\"server_key\":\""@, "\","@),
        ends("\",\"server_key\":\""@, "\"server_key\":\""@),
        begins("\"}"@, "\"}"@),
{
    reveal_strlit(",\"ac_status\":\"");
    reveal_strlit("\"ac_status\":\"");
    reveal_strlit("\",\"server_key\":\"");
    reveal_strlit("\"server_key\":\"");
    reveal_strlit("\",");
    reveal_strlit("\"}");
    assert(",\"ac_status\":\""@.skip(",\"ac_status\":\""@.len() - 13) =~= "\"ac_status\":\""@);
    assert("\",\"server_key\":\""@.take(2) =~= "\","@);
    assert("\",\"server_key\":\""@.skip("\",\"server_key\":\""@.len() - 14)
        =~= "\"server_key\":\""@);
    assert("\"}"@.take(2) =~= "\"}"@);
}

/// A reply says what it is, declares the length of its body in bytes, and ends with it.
pub proof fn reply_declares_its_body(content_type: Seq<char>, body: Seq<char>)
    ensures
        begins(ok_reply(content_type, body), "HTTP/1.1 200 OK\r\n"@),
        shows(ok_reply(content_type, body), "Content-Type: "@, content_type, "\r\n"@),
        shows(
            ok_reply(content_type, body),
            "Content-Length: "@,
            decimal(encode_utf8(body).len()),
            "\r\n"@,
        ),
        ends(ok_reply(content_type, body), "\r\n\r\n"@ + body),
{
    let l1 = "HTTP/1.1 200 OK\r\nContent-Type: "@;
    let l2 = "\r\nContent-Length: "@;
    let l3 = "\r\nConnection: close\r\n\r\n"@;
    let n = decimal(encode_utf8(body).len());
    let none = Seq::<char>::empty();
    let r = ok_reply(content_type, body);
    reveal_strlit("HTTP/1.1 200 OK\r\nContent-Type: ");
    reveal_strlit("HTTP/1.1 200 OK\r\n");
    reveal_strlit("Content-Type: ");
    reveal_strlit("\r\nContent-Length: ");
    reveal_strlit("Content-Length: ");
    reveal_strlit("\r\nConnection: close\r\n\r\n");
    reveal_strlit("\r\n");
    reveal_strlit("\r\n\r\n");
    assert(l1.skip(l1.len() - 14) =~= "Content-Type: "@);
    assert(l1.take(17) =~= "HTTP/1.1 200 OK\r\n"@);
    assert(l2.take(2) =~= "\r\n"@);
    assert(l2.skip(l2.len() - 16) =~= "Content-Length: "@);
    assert(l3.take(2) =~= "\r\n"@);
    assert(l3.skip(l3.len() - 4) =~= "\r\n\r\n"@);
    lemma_shows(none, l1, content_type, l2, n + l3 + body, "Content-Type: "@, "\r\n"@);
    assert(none + l1 + content_type + l2 + (n + l3 + body) =~= r);
    lemma_shows(l1 + content_type, l2, n, l3, body, "Content-Length: "@, "\r\n"@);
    assert(r.take(17) =~= "HTTP/1.1 200 OK\r\n"@);
    assert(r.skip(r.len() - (4 + body.len())) =~= "\r\n\r\n"@ + body);
}

// --- The page's script -----------------------------------------------------

proof fn lemma_script_a()
    ensures
        holds(STATUS_SCRIPT@, "await fetch('/api/status')"@),
        holds(STATUS_SCRIPT@, "g('mode',s.mode);"@),
        holds(STATUS_SCRIPT@, "g('wifi',s.wifi?'yes':'no');"@),
        holds(STATUS_SCRIPT@, "g('staip',s.sta_ip);"@),
        holds(STATUS_SCRIPT@, "g('ssid',s.ssid);"@),
{
    reveal_strlit(
        "<script>async function upd(){try{const s=await(await fetch('/api/status')).json();const g=(i,v)=>{const e=document.getElementById(i);if(e)e.textContent=v;};g('mode',s.mode);g('wifi',s.wifi?'yes':'no');g('staip',s.sta_ip);g('ssid',s.ssid);g('can_rx',s.can_rx);g('can_tx',s.can_tx);g('ser_in',s.ser_in);g('ser_out',s.ser_out);g('tcp_in',s.tcp_in);g('tcp_out',s.tcp_out);g('acstatus',s.ac_status);g('srvkey',s.server_key||'(none yet)');}catch(e){}}setInterval(upd,2000);upd();</script></body></html>",
    );
    reveal_strlit("await fetch('/api/status')");
    reveal_strlit("g('mode',s.mode);");
    reveal_strlit("g('wifi',s.wifi?'yes':'no');");
    reveal_strlit("g('staip',s.sta_ip);");
    reveal_strlit("g('ssid',s.ssid);");
    let s = STATUS_SCRIPT@;
    assert(s.subrange(47, 47int + "await fetch('/api/status')"@.len()) =~= "await fetch('/api/status')"@);
    assert(s.subrange(156, 156int + "g('mode',s.mode);"@.len()) =~= "g('mode',s.mode);"@);
    assert(s.subrange(173, 173int + "g('wifi',s.wifi?'yes':'no');"@.len()) =~= "g('wifi',s.wifi?'yes':'no');"@);
    assert(s.subrange(201, 201int + "g('staip',s.sta_ip);"@.len()) =~= "g('staip',s.sta_ip);"@);
    assert(s.subrange(221, 221int + "g('ssid',s.ssid);"@.len()) =~= "g('ssid',s.ssid);"@);
}

proof fn lemma_script_b()
    ensures
        holds(STATUS_SCRIPT@, "g('can_rx',s.can_rx);"@),
        holds(STATUS_SCRIPT@, "g('can_tx',s.can_tx);"@),
        holds(STATUS_SCRIPT@, "g('ser_in',s.ser_in);"@),
        holds(STATUS_SCRIPT@, "g('ser_out',s.ser_out);"@),
        holds(STATUS_SCRIPT@, "g('tcp_in',s.tcp_in);"@),
{
    reveal_strlit(
        "<script>async function upd(){try{const s=await(await fetch('/api/status')).json();const g=(i,v)=>{const e=document.getElementById(i);if(e)e.textContent=v;};g('mode',s.mode);g('wifi',s.wifi?'yes':'no');g('staip',s.sta_ip);g('ssid',s.ssid);g('can_rx',s.can_rx);g('can_tx',s.can_tx);g('ser_in',s.ser_in);g('ser_out',s.ser_out);g('tcp_in',s.tcp_in);g('tcp_out',s.tcp_out);g('acstatus',s.ac_status);g('srvkey',s.server_key||'(none yet)');}catch(e){}}setInterval(upd,2000);upd();</script></body></html>",
    );
    reveal_strlit("g('can_rx',s.can_rx);");
    reveal_strlit("g('can_tx',s.can_tx);");
    reveal_strlit("g('ser_in',s.ser_in);");
    reveal_strlit("g('ser_out',s.ser_out);");
    reveal_strlit("g('tcp_in',s.tcp_in);");
    let s = STATUS_SCRIPT@;
    assert(s.subrange(238, 238int + "g('can_rx',s.can_rx);"@.len()) =~= "g('can_rx',s.can_rx);"@);
    assert(s.subrange(259, 259int + "g('can_tx',s.can_tx);"@.len()) =~= "g('can_tx',s.can_tx);"@);
    assert(s.subrange(280, 280int + "g('ser_in',s.ser_in);"@.len()) =~= "g('ser_in',s.ser_in);"@);
    assert(s.subrange(301, 301int + "g('ser_out',s.ser_out);"@.len()) =~= "g('ser_out',s.ser_out);"@);
    assert(s.subrange(324, 324int + "g('tcp_in',s.tcp_in);"@.len()) =~= "g('tcp_in',s.tcp_in);"@);
}

proof fn lemma_script_c()
    ensures
        holds(STATUS_SCRIPT@, "g('tcp_out',s.tcp_out);"@),
        holds(STATUS_SCRIPT@, "g('acstatus',s.ac_status);"@),
        holds(STATUS_SCRIPT@, "g('srvkey',s.server_key||'(none yet)');"@),
        holds(STATUS_SCRIPT@, "setInterval(upd,2000);"@),
{
    reveal_strlit(
        "<script>async function upd(){try{const s=await(await fetch('/api/status')).json();const g=(i,v)=>{const e=document.getElementById(i);if(e)e.textContent=v;};g('mode',s.mode);g('wifi',s.wifi?'yes':'no');g('staip',s.sta_ip);g('ssid',s.ssid);g('can_rx',s.can_rx);g('can_tx',s.can_tx);g('ser_in',s.ser_in);g('ser_out',s.ser_out);g('tcp_in',s.tcp_in);g('tcp_out',s.tcp_out);g('acstatus',s.ac_status);g('srvkey',s.server_key||'(none yet)');}catch(e){}}setInterval(upd,2000);upd();</script></body></html>",
    );
    reveal_strlit("g('tcp_out',s.tcp_out);");
    reveal_strlit("g('acstatus',s.ac_status);");
    reveal_strlit("g('srvkey',s.server_key||'(none yet)');");
    reveal_strlit("setInterval(upd,2000);");
    let s = STATUS_SCRIPT@;
    assert(s.subrange(345, 345int + "g('tcp_out',s.tcp_out);"@.len()) =~= "g('tcp_out',s.tcp_out);"@);
    assert(s.subrange(368, 368int + "g('acstatus',s.ac_status);"@.len()) =~= "g('acstatus',s.ac_status);"@);
    assert(s.subrange(394, 394int + "g('srvkey',s.server_key||'(none yet)');"@.len()) =~= "g('srvkey',s.server_key||'(none yet)');"@);
    assert(s.subrange(445, 445int + "setInterval(upd,2000);"@.len()) =~= "setInterval(upd,2000);"@);
}

/// The page keeps itself up to date: its script fetches the snapshot every two seconds and
/// puts every field of it where the page shows it.
pub proof fn page_refreshes_itself(s: Snapshot)
    ensures
        holds(page_body(s), "await fetch('/api/status')"@),
        holds(page_body(s), "g('mode',s.mode);"@),
        holds(page_body(s), "g('wifi',s.wifi?'yes':'no');"@),
        holds(page_body(s), "g('staip',s.sta_ip);"@),
        holds(page_body(s), "g('ssid',s.ssid);"@),
        holds(page_body(s), "g('can_rx',s.can_rx);"@),
        holds(page_body(s), "g('can_tx',s.can_tx);"@),
        holds(page_body(s), "g('ser_in',s.ser_in);"@),
        holds(page_body(s), "g('ser_out',s.ser_out);"@),
        holds(page_body(s), "g('tcp_in',s.tcp_in);"@),
        holds(page_body(s), "g('tcp_out',s.tcp_out);"@),
        holds(page_body(s), "g('acstatus',s.ac_status);"@),
        holds(page_body(s), "g('srvkey',s.server_key||'(none yet)');"@),
        holds(page_body(s), "setInterval(upd,2000);"@),
{
    lemma_script_a();
    lemma_script_b();
    lemma_script_c();
    let none = Seq::<char>::empty();
    let front = connection_section(s) + counters_section(s.counters) + device_section(s.device)
        + WIFI_SECTION@ + auto_section(s);
    assert(page_body(s) =~= front + STATUS_SCRIPT@ + none);
    lemma_holds_part(front, STATUS_SCRIPT@, none, "await fetch('/api/status')"@);
    lemma_holds_part(front, STATUS_SCRIPT@, none, "g('mode',s.mode);"@);
    lemma_holds_part(front, STATUS_SCRIPT@, none, "g('wifi',s.wifi?'yes':'no');"@);
    lemma_holds_part(front, STATUS_SCRIPT@, none, "g('staip',s.sta_ip);"@);
    lemma_holds_part(front, STATUS_SCRIPT@, none, "g('ssid',s.ssid);"@);
    lemma_holds_part(front, STATUS_SCRIPT@, none, "g('can_rx',s.can_rx);"@);
    lemma_holds_part(front, STATUS_SCRIPT@, none, "g('can_tx',s.can_tx);"@);
    lemma_holds_part(front, STATUS_SCRIPT@, none, "g('ser_in',s.ser_in);"@);
    lemma_holds_part(front, STATUS_SCRIPT@, none, "g('ser_out',s.ser_out);"@);
    lemma_holds_part(front, STATUS_SCRIPT@, none, "g('tcp_in',s.tcp_in);"@);
    lemma_holds_part(front, STATUS_SCRIPT@, none, "g('tcp_out',s.tcp_out);"@);
    lemma_holds_part(front, STATUS_SCRIPT@, none, "g('acstatus',s.ac_status);"@);
    lemma_holds_part(front, STATUS_SCRIPT@, none, "g('srvkey',s.server_key||'(none yet)');"@);
    lemma_holds_part(front, STATUS_SCRIPT@, none, "setInterval(upd,2000);"@);
}

} // verus!
