//! A minimal HTTP server for the configuration: a status page, a status snapshot, and
//! three forms that are saved to flash.
//!
//! Sockets and the flash are left to the caller: [`handle_request`] says what a request
//! is answered, or what is to be saved before it is.

use crate::config::{
    autoconnect_loaded, autoconnect_save_loads, credentials_read_back, cut, device_loaded,
    device_reads_back, device_save_loads, padded, raw_credentials_are_kept, raw_name_is_kept,
    stored_bytes_are_read_as_text, stored_text, url_setting_reads_back, wifi_loaded,
    wifi_save_loads, AutoConnectConfig, AutoConnectView, DeviceConfig, DeviceView, WifiConfig,
    WifiView, AUTOCONN_REGION, DEFAULT_BAUD, DEVICE_REGION, URL_MAX, WIFI_REGION,
};
use crate::form::{
    find_form_value, first_of, form_reads_back, form_text, form_value, url_decode_into, url_decoded,
    AMPERSAND, EQUALS,
};
use crate::page::{
    error_reply, fixed_replies_declare_their_length, index_page, ok_reply, page_body, plain_char,
    plain_text, status_body, status_json, Snapshot, BAD_NAME, BAD_REQUEST, NOT_FOUND, SAVE_FAILED,
};
use crate::text::{
    blank, chars_of, decimal, decimal_reads_back, find_byte, find_bytes, first_at, is_digit,
    is_white_space, lemma_first_at, lemma_first_at_is, lemma_occurs_at, lemma_occurs_at_is, number,
    occurs_at, parse_number, str_eq, trim, trim_back, trim_front, trim_takes_white_space_only,
    utf8_text, white_space,
};
use vstd::prelude::*;
use vstd::utf8::{
    decode_utf8_encode_utf8, encode_scalar, encode_utf8, encode_utf8_decode_utf8,
    encode_utf8_valid_utf8, is_ascii_chars, is_ascii_chars_encode_utf8, leading_byte_width_1,
    valid_utf8,
};

verus! {

/// The port that the server listens on.
pub const HTTP_PORT: u16 = 80;

/// How much of a request is read.
pub const REQUEST_MAX: usize = 1024;

/// The adapter restarts so many milliseconds after a new configuration was saved.
pub const REBOOT_DELAY_MS: u64 = 800;

// --- Requests --------------------------------------------------------------

/// The empty line that ends the headers.
pub open spec fn blank_line() -> Seq<u8> {
    seq![0x0du8, 0x0au8, 0x0du8, 0x0au8]
}

/// What is to be done after a read.
#[derive(Clone, Copy, Debug, PartialEq, Eq, Structural)]
pub enum ReadStep {
    /// The client is gone.
    Abandon,
    /// The request is not complete yet.
    ReadMore,
    /// The request can be handled.
    Handle,
}

/// What is to be done after a read of `n` bytes, with which `request` has arrived.
pub open spec fn read_step(request: Seq<u8>, n: nat) -> ReadStep {
    if n == 0 {
        ReadStep::Abandon
    } else if occurs_at(request, blank_line()) is Some || request.len() >= REQUEST_MAX {
        ReadStep::Handle
    } else {
        ReadStep::ReadMore
    }
}

/// What is to be done after a read of `n` bytes, with which `request` has arrived: the
/// headers have to be complete, unless there is no more room.
pub fn after_read(request: &[u8], n: usize) -> (r: ReadStep)
    ensures
        r == read_step(request@, n as nat),
        r == if n == 0 {
            ReadStep::Abandon
        } else if occurs_at(request@, blank_line()) is Some || request@.len() >= REQUEST_MAX {
            ReadStep::Handle
        } else {
            ReadStep::ReadMore
        },
{
    if n == 0 {
        return ReadStep::Abandon;
    }
    let blank: Vec<u8> = vec![0x0d, 0x0a, 0x0d, 0x0a];
    assert(blank@ =~= blank_line());
    if find_bytes(request, blank.as_slice()).is_some() || request.len() >= REQUEST_MAX {
        ReadStep::Handle
    } else {
        ReadStep::ReadMore
    }
}

/// The characters of `s` before the first white space.
pub open spec fn word(s: Seq<char>) -> Seq<char>
    decreases s.len(),
{
    if s.len() > 0 && !white_space(s[0]) {
        seq![s[0]] + word(s.skip(1))
    } else {
        Seq::empty()
    }
}

/// The first line of a request; one that is not UTF-8 counts as empty.
pub open spec fn first_line(request: Seq<u8>) -> Seq<char> {
    stored_text(
        match first_at(request, 0x0a) {
            Some(i) => request.take(i),
            None => request,
        },
    )
}

/// The method and the path of a request: the first two words of its first line.
pub open spec fn request_line(request: Seq<u8>) -> (Seq<char>, Seq<char>) {
    let line = trim_front(first_line(request));
    let method = word(line);
    let path = word(trim_front(line.skip(method.len() as int)));
    (
        method,
        if path.len() == 0 {
            "/"@
        } else {
            path
        },
    )
}

/// Where the white space of `s` ends that begins at `from`.
fn skip_space(s: &[char], from: usize) -> (r: usize)
    requires
        from <= s@.len(),
    ensures
        from <= r <= s@.len(),
        s@.skip(r as int) == trim_front(s@.skip(from as int)),
{
    let mut i: usize = from;
    while i < s.len() && is_white_space(s[i])
        invariant
            from <= i <= s@.len(),
            trim_front(s@.skip(i as int)) == trim_front(s@.skip(from as int)),
        decreases s@.len() - i,
    {
        assert(s@.skip(i as int).skip(1) =~= s@.skip(i + 1));
        i = i + 1;
    }
    i
}

/// Where the word of `s` ends that begins at `from`.
fn skip_word(s: &[char], from: usize) -> (r: usize)
    requires
        from <= s@.len(),
    ensures
        from <= r <= s@.len(),
        s@.subrange(from as int, r as int) == word(s@.skip(from as int)),
{
    let mut i: usize = from;
    let ghost all = word(s@.skip(from as int));
    assert(all =~= Seq::empty() + all);
    while i < s.len() && !is_white_space(s[i])
        invariant
            from <= i <= s@.len(),
            all == word(s@.skip(from as int)),
            all =~= s@.subrange(from as int, i as int) + word(s@.skip(i as int)),
        decreases s@.len() - i,
    {
        assert(s@.skip(i as int).skip(1) =~= s@.skip(i + 1));
        assert(s@.skip(i as int)[0] == s@[i as int]);
        i = i + 1;
    }
    assert(word(s@.skip(i as int)) =~= Seq::empty());
    i
}

/// The method and the path of a request.
pub fn parse_request_line(request: &[u8]) -> (r: (&str, &str))
    ensures
        (r.0@, r.1@) == request_line(request@),
{
    let end: usize = find_byte(request, 0, 0x0a);
    assert(request@.skip(0) =~= request@);
    let line_bytes: &[u8] = &request[0..end];
    assert(line_bytes@ =~= match first_at(request@, 0x0a) {
        Some(i) => request@.take(i),
        None => request@,
    });
    let line: &str = match utf8_text(line_bytes) {
        Some(s) => s,
        None => "",
    };
    proof {
        reveal_strlit("");
        assert(line@ =~= first_line(request@));
    }
    let cs = chars_of(line);
    let a: usize = skip_space(cs.as_slice(), 0);
    assert(cs@.skip(0) =~= line@);
    let b: usize = skip_word(cs.as_slice(), a);
    let c: usize = skip_space(cs.as_slice(), b);
    let d: usize = skip_word(cs.as_slice(), c);
    assert(cs@.skip(a as int).skip(b - a) =~= cs@.skip(b as int));
    let method: &str = line.substring_char(a, b);
    if c == d {
        (method, "/")
    } else {
        (method, line.substring_char(c, d))
    }
}

/// What stands between the first empty line of a request and the second one.
pub open spec fn body_of(request: Seq<u8>) -> Seq<u8> {
    match occurs_at(request, blank_line()) {
        Some(i) => {
            let rest = request.skip(i + 4);
            match occurs_at(rest, blank_line()) {
                Some(j) => rest.take(j),
                None => rest,
            }
        },
        None => Seq::empty(),
    }
}

/// The body of a request.
pub fn request_body(request: &[u8]) -> (r: &[u8])
    ensures
        r@ == body_of(request@),
{
    let blank: Vec<u8> = vec![0x0d, 0x0a, 0x0d, 0x0a];
    assert(blank@ =~= blank_line());
    assert(request@.len() == request.len());
    match find_bytes(request, blank.as_slice()) {
        Some(i) => {
            let rest: &[u8] = &request[i + 4..request.len()];
            assert(rest@ =~= request@.skip(i + 4));
            match find_bytes(rest, blank.as_slice()) {
                Some(j) => {
                    assert(rest@.take(j as int) =~= rest@.subrange(0, j as int));
                    &rest[0..j]
                },
                None => rest,
            }
        },
        None => {
            assert(request@.subrange(0, 0) =~= Seq::empty());
            &request[0..0]
        },
    }
}

// --- Forms -----------------------------------------------------------------

/// The value of a field of a form, decoded and cut off after `n` bytes; nothing where
/// the form does not have it.
pub open spec fn field_of(body: Seq<u8>, key: Seq<char>, n: nat) -> Seq<u8> {
    match form_value(body, encode_utf8(key)) {
        Some(v) => cut(url_decoded(v), n),
        None => Seq::empty(),
    }
}

/// Reads a field of a form into `dst` and says how long it is.
fn read_field(body: &[u8], key: &str, dst: &mut [u8]) -> (n: usize)
    ensures
        n <= old(dst)@.len(),
        final(dst)@.len() == old(dst)@.len(),
        final(dst)@.take(n as int) == field_of(body@, key@, old(dst)@.len()),
{
    match find_form_value(body, key) {
        Some(v) => {
            let n: usize = url_decode_into(v, dst);
            assert(dst@.take(n as int) =~= field_of(body@, key@, old(dst)@.len()));
            n
        },
        None => {
            assert(dst@.take(0) =~= Seq::empty());
            0
        },
    }
}

/// The credentials that a form asks to save: there has to be a network name.
pub open spec fn wifi_form(body: Seq<u8>) -> Option<WifiView> {
    let ssid = field_of(body, "ssid"@, 32);
    if ssid.len() == 0 {
        None
    } else {
        Some(WifiView::blank().with_credentials(ssid, field_of(body, "password"@, 64)))
    }
}

/// Reads the credentials that a form asks to save.
pub fn save_wifi(body: &[u8]) -> (r: Option<WifiConfig>)
    ensures
        match r {
            Some(c) => wifi_form(body@) == Some(c@),
            None => wifi_form(body@) is None,
        },
{
    let mut ssid_buf: [u8; 32] = [0u8;32];
    let mut pass_buf: [u8; 64] = [0u8;64];
    let ssid_len: usize = read_field(body, "ssid", &mut ssid_buf);
    let pass_len: usize = read_field(body, "password", &mut pass_buf);
    if ssid_len == 0 {
        return None;
    }
    let mut c = WifiConfig::new();
    let ssid: &[u8] = &ssid_buf[0..ssid_len];
    let pass: &[u8] = &pass_buf[0..pass_len];
    assert(ssid@ =~= field_of(body@, "ssid"@, 32));
    assert(pass@ =~= field_of(body@, "password"@, 64));
    c.set_raw_credentials(ssid, pass);
    Some(c)
}

/// Whether a byte can stand in a device name.
pub open spec fn name_byte(b: u8) -> bool {
    0x30 <= b <= 0x39 || 0x41 <= b <= 0x5a || 0x61 <= b <= 0x7a || b == 0x2d
}

/// Whether this can be a device name. It becomes a DNS label and the AP SSID, so it has
/// letters, digits and hyphens only.
pub open spec fn name_ok(name: Seq<u8>) -> bool {
    name.len() > 0 && forall|i: int| 0 <= i < name.len() ==> name_byte(#[trigger] name[i])
}

fn valid_name(name: &[u8]) -> (r: bool)
    ensures
        r == name_ok(name@),
{
    let mut i: usize = 0;
    while i < name.len()
        invariant
            i <= name@.len(),
            forall|j: int| 0 <= j < i ==> name_byte(#[trigger] name@[j]),
        decreases name@.len() - i,
    {
        let b: u8 = name[i];
        if !((0x30 <= b && b <= 0x39) || (0x41 <= b && b <= 0x5a) || (0x61 <= b && b <= 0x7a) || b
            == 0x2d) {
            assert(!name_byte(name@[i as int]));
            return false;
        }
        i = i + 1;
    }
    name.len() > 0
}

/// The baud rate that a field denotes: a positive number, with white space around it at
/// most, or else the default.
pub open spec fn baud_of(field: Seq<u8>) -> u32 {
    match number(trim_back(trim_front(stored_text(field))), u32::MAX as nat) {
        Some(v) => if v > 0 {
            v as u32
        } else {
            DEFAULT_BAUD
        },
        None => DEFAULT_BAUD,
    }
}

fn parse_baud(field: &[u8]) -> (r: u32)
    ensures
        r == baud_of(field@),
{
    let text: &str = match utf8_text(field) {
        Some(s) => s,
        None => "",
    };
    proof {
        reveal_strlit("");
        assert(text@ =~= stored_text(field@));
    }
    let cs = chars_of(text);
    match parse_number(trim(cs.as_slice()), u32::MAX) {
        Some(v) => if v > 0 {
            v
        } else {
            DEFAULT_BAUD
        },
        None => DEFAULT_BAUD,
    }
}

/// The device configuration that a form asks to save.
pub open spec fn device_form(body: Seq<u8>) -> Option<DeviceView> {
    let name = field_of(body, "name"@, 32);
    if name_ok(name) {
        Some(DeviceView::standard().with_device(name, baud_of(field_of(body, "baud"@, 16))))
    } else {
        None
    }
}

/// Reads the device configuration that a form asks to save.
pub fn save_device(body: &[u8]) -> (r: Option<DeviceConfig>)
    ensures
        match r {
            Some(c) => device_form(body@) == Some(c@),
            None => device_form(body@) is None,
        },
{
    let mut name_buf: [u8; 32] = [0u8;32];
    let name_len: usize = read_field(body, "name", &mut name_buf);
    let name: &[u8] = &name_buf[0..name_len];
    assert(name@ =~= field_of(body@, "name"@, 32));
    if !valid_name(name) {
        return None;
    }
    let mut baud_buf: [u8; 16] = [0u8;16];
    let baud_len: usize = read_field(body, "baud", &mut baud_buf);
    let field: &[u8] = &baud_buf[0..baud_len];
    assert(field@ =~= field_of(body@, "baud"@, 16));
    let baud: u32 = parse_baud(field);
    let mut c = DeviceConfig::defaults();
    c.set_raw(name, baud);
    Some(c)
}

/// The auto-connect configuration that a form asks to save: it is switched on where the
/// form has a field for that, and a URL that is not UTF-8 counts as none.
pub open spec fn auto_form(body: Seq<u8>) -> AutoConnectView {
    let url = field_of(body, "url"@, URL_MAX as nat);
    AutoConnectView::blank().with_url(
        form_value(body, encode_utf8("enable"@)) is Some,
        encode_utf8(stored_text(url)),
    )
}

/// Reads the auto-connect configuration that a form asks to save.
pub fn save_autoconnect(body: &[u8]) -> (r: AutoConnectConfig)
    ensures
        r@ == auto_form(body@),
{
    let enable: bool = find_form_value(body, "enable").is_some();
    let mut url_buf: [u8; URL_MAX] = [0u8;URL_MAX];
    let url_len: usize = read_field(body, "url", &mut url_buf);
    let field: &[u8] = &url_buf[0..url_len];
    assert(field@ =~= field_of(body@, "url"@, URL_MAX as nat));
    let url: &str = match utf8_text(field) {
        Some(s) => s,
        None => "",
    };
    proof {
        reveal_strlit("");
        assert(url@ =~= stored_text(field@));
    }
    let mut c = AutoConnectConfig::new();
    c.set(enable, url);
    c
}

// --- Answers ---------------------------------------------------------------

/// What a request comes to.
pub enum Response {
    /// It is answered with this.
    Reply(String),
    /// These credentials are to be saved.
    SaveWifi(WifiConfig),
    /// This device configuration is to be saved.
    SaveDevice(DeviceConfig),
    /// This auto-connect configuration is to be saved.
    SaveAutoConnect(AutoConnectConfig),
}

/// What a request comes to, as plain values.
pub enum ResponseView {
    Reply(Seq<char>),
    SaveWifi(WifiView),
    SaveDevice(DeviceView),
    SaveAutoConnect(AutoConnectView),
}

impl View for Response {
    type V = ResponseView;

    open spec fn view(&self) -> ResponseView {
        match *self {
            Response::Reply(s) => ResponseView::Reply(s@),
            Response::SaveWifi(c) => ResponseView::SaveWifi(c@),
            Response::SaveDevice(c) => ResponseView::SaveDevice(c@),
            Response::SaveAutoConnect(c) => ResponseView::SaveAutoConnect(c@),
        }
    }
}

/// What a request comes to, for what the page shows.
pub open spec fn answer(request: Seq<u8>, s: Snapshot) -> ResponseView {
    let (method, path) = request_line(request);
    let body = body_of(request);
    if method == "GET"@ && path == "/"@ {
        ResponseView::Reply(ok_reply("text/html"@, page_body(s)))
    } else if method == "GET"@ && path == "/api/status"@ {
        ResponseView::Reply(ok_reply("application/json"@, status_body(s)))
    } else if method == "POST"@ && path == "/api/wifi"@ {
        match wifi_form(body) {
            Some(c) => ResponseView::SaveWifi(c),
            None => ResponseView::Reply(BAD_REQUEST@),
        }
    } else if method == "POST"@ && path == "/api/device"@ {
        match device_form(body) {
            Some(c) => ResponseView::SaveDevice(c),
            None => ResponseView::Reply(BAD_NAME@),
        }
    } else if method == "POST"@ && path == "/api/autoconnect"@ {
        ResponseView::SaveAutoConnect(auto_form(body))
    } else {
        ResponseView::Reply(NOT_FOUND@)
    }
}

/// Whether the stored names that the answer to a request shows fit their fields.
pub open spec fn names_fit_for(request: Seq<u8>, s: Snapshot) -> bool {
    let (method, path) = request_line(request);
    &&& method == "GET"@ && path == "/"@ ==> s.names_fit()
    &&& method == "GET"@ && path == "/api/status"@ ==> s.wifi.ssid_len <= 32
}

/// Whether a request can be answered: the stored names that the answer shows fit their
/// fields, as they do unless something else wrote to the flash.
pub fn can_answer(request: &[u8], s: &Snapshot) -> (r: bool)
    ensures
        r == names_fit_for(request@, *s),
{
    let (method, path) = parse_request_line(request);
    if str_eq(method, "GET") {
        if str_eq(path, "/") {
            proof {
                reveal_strlit("/");
                reveal_strlit("/api/status");
                assert("/"@.len() != "/api/status"@.len());
            }
            return s.fits();
        }
        if str_eq(path, "/api/status") {
            return s.wifi.ssid_len <= 32;
        }
    }
    true
}

/// Decides what a request comes to.
pub fn handle_request(request: &[u8], s: &Snapshot) -> (r: Response)
    requires
        names_fit_for(request@, *s),
    ensures
        r@ == answer(request@, *s),
{
    proof {
        reveal_strlit("GET");
        reveal_strlit("POST");
        assert("GET"@.len() != "POST"@.len());
    }
    let (method, path) = parse_request_line(request);
    if str_eq(method, "GET") {
        if str_eq(path, "/") {
            return Response::Reply(index_page(s));
        }
        if str_eq(path, "/api/status") {
            return Response::Reply(status_json(s));
        }
    }
    if str_eq(method, "POST") {
        let body = request_body(request);
        if str_eq(path, "/api/wifi") {
            return match save_wifi(body) {
                Some(c) => Response::SaveWifi(c),
                None => Response::Reply(BAD_REQUEST.to_string()),
            };
        }
        if str_eq(path, "/api/device") {
            return match save_device(body) {
                Some(c) => Response::SaveDevice(c),
                None => Response::Reply(BAD_NAME.to_string()),
            };
        }
        if str_eq(path, "/api/autoconnect") {
            return Response::SaveAutoConnect(save_autoconnect(body));
        }
    }
    Response::Reply(NOT_FOUND.to_string())
}

/// What a configuration that was to be saved is answered: nothing where it was, since
/// the adapter then restarts.
pub fn after_save(saved: bool) -> (r: Option<&'static str>)
    ensures
        match r {
            Some(s) => !saved && s@ == SAVE_FAILED@,
            None => saved,
        },
{
    if saved {
        None
    } else {
        Some(SAVE_FAILED)
    }
}

// --- Laws ------------------------------------------------------------------

/// The body of a request is what follows its headers, for headers that end where the
/// first empty line does and a body without one.
pub proof fn body_is_found(headers: Seq<u8>, body: Seq<u8>)
    requires
        occurs_at(headers + blank_line(), blank_line()) == Some(headers.len() as int),
        occurs_at(body, blank_line()) is None,
    ensures
        body_of(headers + blank_line() + body) == body,
{
    let n = headers.len() as int;
    let head = headers + blank_line();
    let request = head + body;
    let blank = blank_line();
    lemma_occurs_at(head, blank);
    assert(request.subrange(n, n + 4) =~= blank);
    assert forall|j: int| 0 <= j < n implies #[trigger] request.subrange(j, j + blank.len())
        != blank by {
        assert(request.subrange(j, j + 4) =~= head.subrange(j, j + 4));
    }
    lemma_occurs_at_is(request, blank, n);
    assert(request.skip(n + 4) =~= body);
}

/// Whether the key of a form field holds no separator.
spec fn key_ok(key: Seq<char>) -> bool {
    !encode_utf8(key).contains(AMPERSAND) && !encode_utf8(key).contains(EQUALS)
}

proof fn lemma_key_ok(key: Seq<char>)
    requires
        is_ascii_chars(key),
        forall|i: int| 0 <= i < key.len() ==> #[trigger] key[i] != '&' && key[i] != '=',
    ensures
        key_ok(key),
        encode_utf8(key).len() == key.len(),
{
    is_ascii_chars_encode_utf8(key);
    assert forall|i: int| 0 <= i < key.len() implies encode_utf8(key)[i] != AMPERSAND
        && encode_utf8(key)[i] != EQUALS by {
        assert(key[i] as u8 == encode_utf8(key)[i]);
    }
}

/// The body of a form with two fields, as a browser posts it.
pub open spec fn posted(
    key: Seq<char>,
    value: Seq<char>,
    other_key: Seq<char>,
    other_value: Seq<char>,
) -> Seq<u8> {
    form_text(
        seq![
            (encode_utf8(key), encode_utf8(value)),
            (encode_utf8(other_key), encode_utf8(other_value)),
        ],
    )
}

proof fn lemma_posted(
    key: Seq<char>,
    value: Seq<char>,
    other_key: Seq<char>,
    other_value: Seq<char>,
    n: nat,
    m: nat,
)
    requires
        encode_utf8(key) != encode_utf8(other_key),
        key_ok(key),
        key_ok(other_key),
        encode_utf8(value).len() <= n,
        encode_utf8(other_value).len() <= m,
    ensures
        field_of(posted(key, value, other_key, other_value), key, n) == encode_utf8(value),
        field_of(posted(key, value, other_key, other_value), other_key, m) == encode_utf8(
            other_value,
        ),
{
    let fields = seq![
        (encode_utf8(key), encode_utf8(value)),
        (encode_utf8(other_key), encode_utf8(other_value)),
    ];
    form_reads_back(fields, encode_utf8(key));
    form_reads_back(fields, encode_utf8(other_key));
    assert(first_of(fields, encode_utf8(key)) == Some(encode_utf8(value)));
    assert(fields.skip(1)[0] == fields[1]);
    assert(first_of(fields.skip(1), encode_utf8(other_key)) == Some(encode_utf8(other_value)));
}

/// Credentials that are entered on the page are the ones that the adapter finds after
/// its restart, and it then joins that network: a network name has up to 32 bytes, but
/// not none, and a password up to 64.
pub proof fn posted_credentials_take_effect(ssid: Seq<char>, password: Seq<char>)
    requires
        0 < encode_utf8(ssid).len() <= 32,
        encode_utf8(password).len() <= 64,
    ensures
        ({
            let saved = wifi_form(posted("ssid"@, ssid, "password"@, password));
            &&& saved matches Some(c) && wifi_loaded(padded(c.record(), WIFI_REGION as nat))
                == Some(c) && c.valid() && c.lengths_fit() && c.ssid_text() == ssid
                && c.password_text() == password
        }),
{
    assert(key_ok("ssid"@) && key_ok("password"@) && encode_utf8("ssid"@) != encode_utf8(
        "password"@,
    )) by {
        reveal_strlit("ssid");
        reveal_strlit("password");
        lemma_key_ok("ssid"@);
        lemma_key_ok("password"@);
    }
    lemma_posted("ssid"@, ssid, "password"@, password, 32, 64);
    let c = WifiView::blank().with_credentials(encode_utf8(ssid), encode_utf8(password));
    credentials_read_back(WifiView::blank(), ssid, password);
    wifi_save_loads(c);
}

/// A device name and a baud rate that are entered on the page are the ones that the
/// adapter finds after its restart: a name has up to 32 letters, digits and hyphens,
/// but not none, and a baud rate is positive.
pub proof fn posted_device_takes_effect(name: Seq<char>, baud: u32)
    requires
        name_ok(encode_utf8(name)),
        encode_utf8(name).len() <= 32,
        baud > 0,
    ensures
        ({
            let saved = device_form(posted("name"@, name, "baud"@, decimal(baud as nat)));
            &&& saved matches Some(c) && device_loaded(padded(c.record(), DEVICE_REGION as nat))
                == Some(c) && c.name_text() == name && c.baud_rate() == baud
        }),
{
    assert(key_ok("name"@) && key_ok("baud"@) && encode_utf8("name"@) != encode_utf8("baud"@)) by {
        reveal_strlit("name");
        reveal_strlit("baud");
        lemma_key_ok("name"@);
        lemma_key_ok("baud"@);
        is_ascii_chars_encode_utf8("name"@);
        is_ascii_chars_encode_utf8("baud"@);
        assert(encode_utf8("name"@)[0] == 'n' as u8);
        assert(encode_utf8("baud"@)[0] == 'b' as u8);
    }
    let digits = decimal(baud as nat);
    reveal_with_fuel(power10, 11);
    lemma_decimal_bytes(baud as nat, 10);
    lemma_posted("name"@, name, "baud"@, digits, 32, 16);
    lemma_baud(baud);
    let c = DeviceView::standard().with_device(encode_utf8(name), baud);
    device_reads_back(DeviceView::standard(), name, baud);
    device_save_loads(c);
}

proof fn lemma_baud(baud: u32)
    requires
        baud > 0,
    ensures
        baud_of(encode_utf8(decimal(baud as nat))) == baud,
{
    let digits = decimal(baud as nat);
    decimal_reads_back(baud as nat, u32::MAX as nat);
    encode_utf8_valid_utf8(digits);
    encode_utf8_decode_utf8(digits);
    assert(is_digit(digits[0]) && is_digit(digits[digits.len() - 1]));
    assert(trim_front(digits) == digits);
    assert(trim_back(digits) == digits);
}

proof fn lemma_decimal_bytes(n: nat, k: nat)
    requires
        k > 0,
        n < power10(k),
    ensures
        encode_utf8(decimal(n)).len() <= k,
{
    decimal_reads_back(n, n);
    lemma_decimal_len(n, k);
    assert(is_ascii_chars(decimal(n))) by {
        assert forall|i: int| 0 <= i < decimal(n).len() implies (decimal(n)[i] as nat) < 128 by {
            assert(is_digit(decimal(n)[i]));
        }
    }
    is_ascii_chars_encode_utf8(decimal(n));
}

/// Ten to the power `k`.
spec fn power10(k: nat) -> nat
    decreases k,
{
    if k == 0 {
        1
    } else {
        10 * power10((k - 1) as nat)
    }
}

proof fn lemma_decimal_len(n: nat, k: nat)
    requires
        k > 0,
        n < power10(k),
    ensures
        decimal(n).len() <= k,
    decreases k,
{
    reveal_with_fuel(power10, 2);
    if n >= 10 {
        lemma_decimal_len(n / 10, (k - 1) as nat);
    }
}

/// A URL that is entered on the page is the one that the adapter finds after its
/// restart, with auto-connect switched on or off by whether the form has a field for
/// that: a URL has up to 256 bytes.
pub proof fn posted_url_takes_effect(url: Seq<char>)
    requires
        encode_utf8(url).len() <= URL_MAX,
    ensures
        ({
            let c = auto_form(posted("enable"@, "on"@, "url"@, url));
            &&& autoconnect_loaded(padded(c.record(), AUTOCONN_REGION as nat)) == Some(c)
            &&& c.url_text() == url
            &&& c.dials() == (encode_utf8(url).len() > 0)
        }),
        ({
            let c = auto_form(
                form_text(seq![(encode_utf8("url"@), encode_utf8(url))]),
            );
            &&& autoconnect_loaded(padded(c.record(), AUTOCONN_REGION as nat)) == Some(c)
            &&& c.url_text() == url
            &&& !c.dials()
        }),
{
    assert(key_ok("url"@) && key_ok("enable"@) && encode_utf8("url"@) != encode_utf8(
        "enable"@,
    )) by {
        reveal_strlit("url");
        reveal_strlit("enable");
        lemma_key_ok("url"@);
        lemma_key_ok("enable"@);
    }
    assert(encode_utf8("on"@).len() == 2) by {
        reveal_strlit("on");
        is_ascii_chars_encode_utf8("on"@);
    }
    encode_utf8_valid_utf8(url);
    encode_utf8_decode_utf8(url);
    lemma_posted("enable"@, "on"@, "url"@, url, 2, URL_MAX as nat);
    let fields = seq![(encode_utf8("url"@), encode_utf8(url))];
    form_reads_back(fields, encode_utf8("url"@));
    form_reads_back(fields, encode_utf8("enable"@));
    assert(first_of(fields, encode_utf8("url"@)) == Some(encode_utf8(url)));
    assert(first_of(fields.skip(1), encode_utf8("enable"@)) is None);
    let c = AutoConnectView::blank().with_url(true, encode_utf8(url));
    let d = AutoConnectView::blank().with_url(false, encode_utf8(url));
    url_setting_reads_back(AutoConnectView::blank(), true, url);
    url_setting_reads_back(AutoConnectView::blank(), false, url);
    autoconnect_save_loads(c);
    autoconnect_save_loads(d);
}

/// A device name that is accepted means the same in text, in HTML and in JSON.
pub proof fn accepted_name_is_plain(name: Seq<char>)
    requires
        name_ok(encode_utf8(name)),
    ensures
        plain_text(name),
{
    let b = encode_utf8(name);
    let t = b.map_values(|x: u8| x as char);
    assert(is_ascii_chars(t)) by {
        assert forall|i: int| 0 <= i < t.len() implies (t[i] as nat) < 128 by {
            assert(name_byte(b[i]));
        }
    }
    is_ascii_chars_encode_utf8(t);
    assert(encode_utf8(t) =~= b);
    encode_utf8_decode_utf8(t);
    encode_utf8_decode_utf8(name);
    assert forall|i: int| 0 <= i < name.len() implies plain_char(#[trigger] name[i]) by {
        assert(name_byte(b[i]));
    }
}

// --- Requests as they are sent ---------------------------------------------

/// Whether a text has no white space and is not empty.
pub open spec fn is_word(s: Seq<char>) -> bool {
    s.len() > 0 && forall|i: int| 0 <= i < s.len() ==> !white_space(#[trigger] s[i])
}

proof fn lemma_word(w: Seq<char>, rest: Seq<char>)
    requires
        forall|i: int| 0 <= i < w.len() ==> !white_space(#[trigger] w[i]),
        rest.len() > 0 ==> white_space(rest[0]),
    ensures
        word(w + rest) == w,
    decreases w.len(),
{
    let s = w + rest;
    if w.len() == 0 {
        assert(s =~= rest);
        assert(w =~= Seq::empty());
    } else {
        let t = w.skip(1);
        assert(!white_space(w[0]));
        assert(s.skip(1) =~= t + rest);
        assert forall|i: int| 0 <= i < t.len() implies !white_space(#[trigger] t[i]) by {
            assert(t[i] == w[i + 1]);
        }
        lemma_word(t, rest);
        assert(w =~= seq![w[0]] + t);
    }
}

/// The method and the path of a request are its first two words, for a request line as
/// clients send it, whatever follows.
pub proof fn method_and_path_are_found(
    method: Seq<char>,
    path: Seq<char>,
    version: Seq<char>,
    rest: Seq<u8>,
)
    requires
        is_word(method),
        is_word(path),
        is_word(version),
    ensures
        request_line(
            encode_utf8(method + seq![' '] + path + seq![' '] + version + seq!['\r']) + seq![0x0au8]
                + rest,
        ) == (method, path),
{
    let line = method + seq![' '] + path + seq![' '] + version + seq!['\r'];
    let bytes = encode_utf8(line);
    let request = bytes + seq![0x0au8] + rest;
    assert forall|i: int| 0 <= i < line.len() implies line[i] != '\n' by {
        let (m, p) = (method.len() as int, path.len() as int);
        if i < m {
            assert(!white_space(method[i]));
        } else if m < i < m + 1 + p {
            assert(line[i] == path[i - m - 1]);
            assert(!white_space(path[i - m - 1]));
        } else if m + 1 + p < i < line.len() - 1 {
            assert(line[i] == version[i - m - 2 - p]);
            assert(!white_space(version[i - m - 2 - p]));
        }
    }
    lemma_no_line_feed(line);
    assert forall|j: int| 0 <= j < bytes.len() implies request[j] != 0x0a by {
        assert(bytes.contains(bytes[j]));
    }
    lemma_first_at_is(request, 0x0a, bytes.len() as int);
    assert(request.take(bytes.len() as int) =~= bytes);
    encode_utf8_valid_utf8(line);
    encode_utf8_decode_utf8(line);
    assert(first_line(request) == line);
    assert(!white_space(method[0]));
    assert(line[0] == method[0]);
    assert(trim_front(line) == line);
    let tail = seq![' '] + path + seq![' '] + version + seq!['\r'];
    assert(line =~= method + tail);
    assert(tail[0] == ' ' && white_space(' '));
    lemma_word(method, tail);
    assert(line.skip(method.len() as int) =~= tail);
    let after = path + (seq![' '] + version + seq!['\r']);
    assert(tail.skip(1) =~= after);
    assert(!white_space(path[0]));
    assert(after[0] == path[0]);
    assert(trim_front(after) == after);
    assert(trim_front(tail) == trim_front(after));
    lemma_word(path, seq![' '] + version + seq!['\r']);
}

proof fn lemma_no_line_feed(s: Seq<char>)
    requires
        forall|i: int| 0 <= i < s.len() ==> s[i] != '\n',
    ensures
        !encode_utf8(s).contains(0x0a),
    decreases s.len(),
{
    if s.len() > 0 {
        let rest = s.drop_first();
        assert forall|i: int| 0 <= i < rest.len() implies rest[i] != '\n' by {
            assert(rest[i] == s[i + 1]);
        }
        lemma_no_line_feed(rest);
        lemma_char_no_line_feed(s[0]);
        let (a, b) = (encode_scalar(s[0] as u32), encode_utf8(rest));
        assert(encode_utf8(s) == a + b);
        assert forall|i: int| 0 <= i < (a + b).len() implies (a + b)[i] != 0x0a by {
            if i >= a.len() {
                assert(b.contains(b[i - a.len()]));
            } else {
                assert(a.contains(a[i]));
            }
        }
    }
}

proof fn lemma_char_no_line_feed(c: char)
    requires
        c != '\n',
    ensures
        !encode_scalar(c as u32).contains(0x0a),
{
    lemma_scalar_no_line_feed(c as u32);
}

proof fn lemma_scalar_no_line_feed(c: u32)
    requires
        c != 0x0a,
    ensures
        !encode_scalar(c).contains(0x0a),
{
    if c <= 0x7f {
        assert(encode_scalar(c) =~= seq![leading_byte_width_1(c)]);
        assert(leading_byte_width_1(c) == c) by {
            assert((c & 0x7F) as u8 == c) by (bit_vector)
                requires
                    c <= 0x7f,
            ;
        }
    } else {
        assert(0x80u8 | ((c & 0x3f) as u8) != 0x0au8) by (bit_vector);
        assert(0x80u8 | (((c >> 6) & 0x3f) as u8) != 0x0au8) by (bit_vector);
        assert(0x80u8 | (((c >> 12) & 0x3f) as u8) != 0x0au8) by (bit_vector);
        assert(0xC0u8 | (((c >> 6) & 0x1f) as u8) != 0x0au8) by (bit_vector);
        assert(0xE0u8 | (((c >> 12) & 0xf) as u8) != 0x0au8) by (bit_vector);
        assert(0xF0u8 | (((c >> 18) & 0x7) as u8) != 0x0au8) by (bit_vector);
    }
}

// --- Routes and forms ------------------------------------------------------

/// What each request is answered: the page and the snapshot to GET, the three forms to POST,
/// and not found to everything else. Nothing is saved but what a form asks for.
pub proof fn every_request_has_its_answer(request: Seq<u8>, s: Snapshot)
    ensures
        ({
            let a = answer(request, s);
            let line = request_line(request);
            let body = body_of(request);
            &&& line == ("GET"@, "/"@) ==> a == ResponseView::Reply(
                ok_reply("text/html"@, page_body(s)),
            )
            &&& line == ("GET"@, "/api/status"@) ==> a == ResponseView::Reply(
                ok_reply("application/json"@, status_body(s)),
            )
            &&& line == ("POST"@, "/api/wifi"@) ==> a == match wifi_form(body) {
                Some(c) => ResponseView::SaveWifi(c),
                None => ResponseView::Reply(error_reply("400 Bad Request"@, ""@, ""@)),
            }
            &&& line == ("POST"@, "/api/device"@) ==> a == match device_form(body) {
                Some(c) => ResponseView::SaveDevice(c),
                None => ResponseView::Reply(
                    error_reply(
                        "400 Bad Request"@,
                        "Content-Type: text/plain\r\n"@,
                        "bad name\n"@,
                    ),
                ),
            }
            &&& line == ("POST"@, "/api/autoconnect"@) ==> a == ResponseView::SaveAutoConnect(
                auto_form(body),
            )
            &&& a is SaveWifi ==> line == ("POST"@, "/api/wifi"@)
            &&& a is SaveDevice ==> line == ("POST"@, "/api/device"@)
            &&& a is SaveAutoConnect ==> line == ("POST"@, "/api/autoconnect"@)
            &&& line != ("GET"@, "/"@) && line != ("GET"@, "/api/status"@) && line != (
                "POST"@,
                "/api/wifi"@,
            ) && line != ("POST"@, "/api/device"@) && line != ("POST"@, "/api/autoconnect"@)
                ==> a == ResponseView::Reply(error_reply("404 Not Found"@, ""@, ""@))
        }),
{
    fixed_replies_declare_their_length();
    reveal_strlit("GET");
    reveal_strlit("POST");
    reveal_strlit("/");
    reveal_strlit("/api/status");
    reveal_strlit("/api/wifi");
    reveal_strlit("/api/device");
    reveal_strlit("/api/autoconnect");
    assert("GET"@.len() != "POST"@.len());
    assert("/"@.len() == 1 && "/api/status"@.len() == 11 && "/api/wifi"@.len() == 9
        && "/api/device"@.len() == 11 && "/api/autoconnect"@.len() == 16);
}

/// The first value that was entered under a key, as far as it fits into `n` bytes.
pub open spec fn entered(fields: Seq<(Seq<u8>, Seq<u8>)>, key: Seq<char>, n: nat) -> Seq<u8> {
    match first_of(fields, encode_utf8(key)) {
        Some(v) => cut(v, n),
        None => Seq::empty(),
    }
}

/// Whether these can be the keys of a form.
pub open spec fn keys_fit(fields: Seq<(Seq<u8>, Seq<u8>)>) -> bool {
    fields.len() > 0 && forall|i: int|
        0 <= i < fields.len() ==> !(#[trigger] fields[i]).0.contains(AMPERSAND)
            && !fields[i].0.contains(EQUALS)
}

proof fn lemma_entered(fields: Seq<(Seq<u8>, Seq<u8>)>, key: Seq<char>, n: nat)
    requires
        keys_fit(fields),
    ensures
        field_of(form_text(fields), key, n) == entered(fields, key, n),
        form_value(form_text(fields), encode_utf8(key)) is Some <==> first_of(
            fields,
            encode_utf8(key),
        ) is Some,
{
    form_reads_back(fields, encode_utf8(key));
}

/// Whatever fields a form has, in whatever order: the credentials are the first values
/// entered as `ssid` and `password`, byte by byte, as far as they fit. Without a network
/// name nothing is saved.
pub proof fn credentials_are_taken_from_the_form(fields: Seq<(Seq<u8>, Seq<u8>)>)
    requires
        keys_fit(fields),
    ensures
        ({
            let ssid = entered(fields, "ssid"@, 32);
            let password = entered(fields, "password"@, 64);
            &&& wifi_form(form_text(fields)) is None <==> ssid.len() == 0
            &&& wifi_form(form_text(fields)) matches Some(c) ==> {
                &&& c.ssid_len == ssid.len()
                &&& c.password_len == password.len()
                &&& forall|i: int| 0 <= i < ssid.len() ==> #[trigger] c.ssid[i] == ssid[i]
                &&& forall|i: int|
                    0 <= i < password.len() ==> #[trigger] c.password[i] == password[i]
                &&& c.valid()
            }
        }),
{
    lemma_entered(fields, "ssid"@, 32);
    lemma_entered(fields, "password"@, 64);
    raw_credentials_are_kept(
        WifiView::blank(),
        entered(fields, "ssid"@, 32),
        entered(fields, "password"@, 64),
    );
}

/// Whatever fields a form has, in whatever order: the device's name is the first value
/// entered as `name`, byte by byte, and the baud rate the one entered as `baud`. A name with
/// anything but letters, digits and hyphens, or none, is refused.
pub proof fn device_is_taken_from_the_form(fields: Seq<(Seq<u8>, Seq<u8>)>)
    requires
        keys_fit(fields),
    ensures
        ({
            let name = entered(fields, "name"@, 32);
            let saved = device_form(form_text(fields));
            &&& saved is Some <==> name.len() > 0 && forall|i: int|
                0 <= i < name.len() ==> label_char(#[trigger] name[i] as char)
            &&& saved matches Some(c) ==> {
                &&& c.name_len == name.len()
                &&& forall|i: int| 0 <= i < name.len() ==> #[trigger] c.name[i] == name[i]
                &&& c.baud == baud_of(entered(fields, "baud"@, 16))
                &&& c.valid()
            }
        }),
{
    let name = entered(fields, "name"@, 32);
    lemma_entered(fields, "name"@, 32);
    lemma_entered(fields, "baud"@, 16);
    raw_name_is_kept(DeviceView::standard(), name, baud_of(entered(fields, "baud"@, 16)));
    if name_ok(name) {
        assert forall|i: int| 0 <= i < name.len() implies label_char(
            #[trigger] name[i] as char,
        ) by {
            assert(name_byte(name[i]));
        }
    } else if name.len() > 0 {
        let i = choose|i: int| 0 <= i < name.len() && !name_byte(#[trigger] name[i]);
        assert(!label_char(name[i] as char));
    }
}

/// A letter, a digit or a hyphen.
pub open spec fn label_char(c: char) -> bool {
    'a' <= c <= 'z' || 'A' <= c <= 'Z' || '0' <= c <= '9' || c == '-'
}

/// Whatever fields a form has, in whatever order: auto-connect is switched on where there is
/// a field `enable`, and the URL is the first value entered as `url`, as far as it fits and
/// where it is UTF-8.
pub proof fn url_is_taken_from_the_form(fields: Seq<(Seq<u8>, Seq<u8>)>)
    requires
        keys_fit(fields),
    ensures
        ({
            let c = auto_form(form_text(fields));
            let url = entered(fields, "url"@, 256);
            &&& (c.enable != 0) == (first_of(fields, encode_utf8("enable"@)) is Some)
            &&& valid_utf8(url) ==> encode_utf8(c.url_text()) == url
            &&& !valid_utf8(url) ==> c.url_text().len() == 0
            &&& c.valid()
        }),
{
    let url = entered(fields, "url"@, 256);
    lemma_entered(fields, "url"@, 256);
    lemma_entered(fields, "enable"@, 0);
    let text = stored_text(url);
    if valid_utf8(url) {
        decode_utf8_encode_utf8(url);
    } else {
        assert(encode_utf8(Seq::<char>::empty()).len() == 0);
    }
    url_setting_reads_back(
        AutoConnectView::blank(),
        first_of(fields, encode_utf8("enable"@)) is Some,
        text,
    );
}

/// A baud rate is read with white space around it at most: a positive number is taken, and
/// anything else stands for 115200.
pub proof fn baud_rate_is_read(front: Seq<char>, digits: Seq<char>, back: Seq<char>)
    requires
        blank(front),
        blank(back),
        digits.len() > 0 ==> !white_space(digits[0]) && !white_space(digits.last()),
    ensures
        ({
            let baud = baud_of(encode_utf8(front + digits + back));
            &&& number(digits, u32::MAX as nat) matches Some(n) ==> (n > 0 ==> baud == n)
            &&& number(digits, u32::MAX as nat) == Some(0nat) || number(digits, u32::MAX as nat) is None
                ==> baud == 115_200
        }),
{
    let text = front + digits + back;
    encode_utf8_valid_utf8(text);
    encode_utf8_decode_utf8(text);
    trim_takes_white_space_only(front, digits, back);
}

/// A baud rate that is not text stands for 115200.
pub proof fn baud_rate_is_text(field: Seq<u8>)
    requires
        !valid_utf8(field),
    ensures
        baud_of(field) == 115_200,
{
    assert(trim_front(Seq::<char>::empty()) =~= Seq::empty());
    assert(trim_back(Seq::<char>::empty()) =~= Seq::empty());
}

/// The server's port, how much of a request is read, and how long a restart is put off.
pub proof fn numbers_of_the_server()
    ensures
        HTTP_PORT == 80,
        REQUEST_MAX == 1024,
        REBOOT_DELAY_MS == 800,
{
}

/// The words of a first line are told apart by white space of any kind and amount. What
/// stands behind the second word does not matter; a line with one word is for the root.
pub proof fn words_are_told_apart(
    front: Seq<char>,
    method: Seq<char>,
    gap: Seq<char>,
    path: Seq<char>,
    back: Seq<char>,
    request: Seq<u8>,
)
    requires
        blank(front),
        is_word(method),
        blank(gap),
        is_word(path),
        back.len() > 0 ==> white_space(back[0]),
    ensures
        gap.len() > 0 && first_line(request) == front + method + gap + path + back
            ==> request_line(request) == (method, path),
        first_line(request) == front + method + gap ==> request_line(request) == (method, "/"@),
{
    assert(!white_space(method[0]));
    assert(!white_space(path[0]));
    if gap.len() > 0 && first_line(request) == front + method + gap + path + back {
        let line = method + (gap + path + back);
        assert(front + method + gap + path + back =~= front + line);
        lemma_trim_blank(front, line);
        assert(line[0] == method[0]);
        assert(trim_front(line) == line);
        assert(white_space(gap[0]));
        lemma_word(method, gap + path + back);
        let rest = line.skip(method.len() as int);
        assert(rest =~= gap + (path + back));
        lemma_trim_blank(gap, path + back);
        assert((path + back)[0] == path[0]);
        assert(trim_front(path + back) == path + back);
        lemma_word(path, back);
    }
    if first_line(request) == front + method + gap {
        let line = method + gap;
        assert(front + method + gap =~= front + line);
        lemma_trim_blank(front, line);
        assert(line[0] == method[0]);
        assert(trim_front(line) == line);
        if gap.len() > 0 {
            assert(white_space(gap[0]));
        }
        lemma_word(method, gap);
        let rest = line.skip(method.len() as int);
        assert(rest =~= gap + Seq::empty());
        lemma_trim_blank(gap, Seq::empty());
        assert(trim_front(Seq::<char>::empty()) =~= Seq::empty());
        assert(word(Seq::<char>::empty()).len() == 0);
    }
}

proof fn lemma_trim_blank(a: Seq<char>, s: Seq<char>)
    requires
        blank(a),
    ensures
        trim_front(a + s) == trim_front(s),
    decreases a.len(),
{
    if a.len() == 0 {
        assert(a + s =~= s);
    } else {
        let rest = a.skip(1);
        assert((a + s).skip(1) =~= rest + s);
        assert(white_space(a[0]));
        assert forall|i: int| 0 <= i < rest.len() implies white_space(#[trigger] rest[i]) by {
            assert(rest[i] == a[i + 1]);
        }
        lemma_trim_blank(rest, s);
    }
}

/// The first line of a request ends at its first line feed, or with the request.
pub proof fn first_line_ends_at_the_line_feed(line: Seq<char>, rest: Seq<u8>)
    requires
        forall|i: int| 0 <= i < line.len() ==> line[i] != '\n',
    ensures
        first_line(encode_utf8(line) + seq![0x0au8] + rest) == line,
        first_line(encode_utf8(line)) == line,
{
    let bytes = encode_utf8(line);
    let request = bytes + seq![0x0au8] + rest;
    lemma_no_line_feed(line);
    assert forall|j: int| 0 <= j < bytes.len() implies request[j] != 0x0a by {
        assert(bytes.contains(bytes[j]));
    }
    lemma_first_at_is(request, 0x0a, bytes.len() as int);
    lemma_first_at(bytes, 0x0a);
    assert(request.take(bytes.len() as int) =~= bytes);
    stored_bytes_are_read_as_text(bytes, line);
}

/// A body ends at a second empty line.
pub proof fn body_ends_at_an_empty_line(headers: Seq<u8>, body: Seq<u8>, rest: Seq<u8>)
    requires
        occurs_at(headers + blank_line(), blank_line()) == Some(headers.len() as int),
        occurs_at(body + blank_line(), blank_line()) == Some(body.len() as int),
    ensures
        body_of(headers + blank_line() + (body + blank_line() + rest)) == body,
        body_of(headers).len() == 0 || occurs_at(headers, blank_line()) is Some,
{
    let tail = body + blank_line() + rest;
    lemma_first_blank(headers, tail);
    lemma_first_blank(body, rest);
    let request = headers + blank_line() + tail;
    assert(request.skip(headers.len() as int + 4) =~= tail);
    assert(tail.take(body.len() as int) =~= body);
}

proof fn lemma_first_blank(a: Seq<u8>, b: Seq<u8>)
    requires
        occurs_at(a + blank_line(), blank_line()) == Some(a.len() as int),
    ensures
        occurs_at(a + blank_line() + b, blank_line()) == Some(a.len() as int),
{
    let n = a.len() as int;
    let head = a + blank_line();
    let s = head + b;
    let blank = blank_line();
    lemma_occurs_at(head, blank);
    assert(s.subrange(n, n + 4) =~= blank);
    assert forall|j: int| 0 <= j < n implies #[trigger] s.subrange(j, j + blank.len()) != blank by {
        assert(s.subrange(j, j + 4) =~= head.subrange(j, j + 4));
    }
    lemma_occurs_at_is(s, blank, n);
}

/// A request is handled once its headers are complete, wherever the empty line behind them
/// stands, or 1024 bytes have arrived, and more is read until then; a client that sends
/// nothing more is given up.
pub proof fn requests_are_read_in_full(request: Seq<u8>, n: nat, i: int)
    requires
        n > 0,
    ensures
        0 <= i && i + 4 <= request.len() && request[i] == 13 && request[i + 1] == 10 && request[i
            + 2] == 13 && request[i + 3] == 10 ==> read_step(request, n) == ReadStep::Handle,
        request.len() >= 1024 ==> read_step(request, n) == ReadStep::Handle,
        read_step(request, n) == ReadStep::Handle ==> request.len() >= 1024 || exists|j: int|
            0 <= j && j + 4 <= request.len() && #[trigger] request[j] == 13 && request[j + 1] == 10
                && request[j + 2] == 13 && request[j + 3] == 10,
        read_step(request, n) != ReadStep::Abandon,
        read_step(request, 0) == ReadStep::Abandon,
{
    let blank = blank_line();
    lemma_occurs_at(request, blank);
    if 0 <= i && i + 4 <= request.len() && request[i] == 13 && request[i + 1] == 10 && request[i + 2]
        == 13 && request[i + 3] == 10 {
        assert(request.subrange(i, i + blank.len()) =~= blank);
    }
    if let Some(j) = occurs_at(request, blank) {
        let w = request.subrange(j, j + 4);
        assert(w[0] == request[j] && w[1] == request[j + 1] && w[2] == request[j + 2] && w[3]
            == request[j + 3]);
    }
}

/// A first line without a word, or one that is not text, asks for nothing.
pub proof fn empty_line_asks_for_nothing(request: Seq<u8>)
    ensures
        blank(first_line(request)) ==> request_line(request).0.len() == 0 && request_line(request).1
            == "/"@,
        !valid_utf8(request) && first_at(request, 0x0a) is None ==> first_line(request).len() == 0,
{
    if blank(first_line(request)) {
        let line = first_line(request);
        assert(line =~= line + Seq::empty());
        lemma_trim_blank(line, Seq::empty());
        assert(trim_front(Seq::<char>::empty()) =~= Seq::empty());
        assert(word(Seq::<char>::empty()).len() == 0);
        assert(Seq::<char>::empty().skip(0) =~= Seq::empty());
    }
}

/// Only the page and the snapshot need stored names that fit, and the snapshot the name of
/// the network alone: everything else is answered in any case.
pub proof fn only_pages_need_names(request: Seq<u8>, s: Snapshot)
    ensures
        request_line(request).0 != "GET"@ ==> names_fit_for(request, s),
        request_line(request).1 != "/"@ && request_line(request).1 != "/api/status"@
            ==> names_fit_for(request, s),
        request_line(request).1 != "/"@ && s.wifi.ssid_len <= 32 ==> names_fit_for(request, s),
        s.wifi.ssid_len <= 32 && s.device.name_len <= 32 ==> names_fit_for(request, s),
{
}

} // verus!
