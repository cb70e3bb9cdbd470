//! Persistent configuration in a data partition of the flash.
//!
//! Three records stand at fixed offsets, each in a region of fixed size, with their
//! fields in little-endian order. Reading and writing the flash is left to the caller:
//! `load` and its like take what a region holds, `save` and its like give what is
//! written there.

use crate::text::utf8_text;
use vstd::prelude::*;
use vstd::utf8::{
    decode_utf8, decode_utf8_encode_utf8, decode_utf8_split, encode_utf8, encode_utf8_decode_utf8,
    encode_utf8_valid_utf8, is_ascii_chars, is_ascii_chars_encode_utf8, is_char_boundary,
    length_of_first_scalar, pop_first_scalar, valid_utf8,
};

verus! {

/// Default device name (used for the AP SSID and the mDNS `<name>.local`).
pub const DEFAULT_NAME: &'static str = "espcan-br";

/// Default UART (USB) baud rate.
pub const DEFAULT_BAUD: u32 = 115_200;

/// Marks a record of WiFi credentials.
pub const WIFI_CONFIG_MAGIC: u32 = 0xC0F1_6001;

/// Where the WiFi credentials stand in the partition.
pub const WIFI_CONFIG_OFFSET: u32 = 0;

/// Marks a device configuration.
pub const DEVICE_CONFIG_MAGIC: u32 = 0xDE71_CE01;

/// Where the device configuration stands in the partition.
pub const DEVICE_CONFIG_OFFSET: u32 = 128;

/// Marks an auto-connect configuration.
pub const AUTOCONN_CONFIG_MAGIC: u32 = 0xAC0C_0002;

/// Where the auto-connect configuration stands in the partition.
pub const AUTOCONN_CONFIG_OFFSET: u32 = 256;

/// Max outbound URL length (tls://host:port/?pubkey=..&token=..).
pub const URL_MAX: usize = 256;

/// The size of the region of the WiFi credentials.
pub const WIFI_REGION: usize = 128;

/// The size of the region of the device configuration.
pub const DEVICE_REGION: usize = 64;

/// The size of the region of the auto-connect configuration.
pub const AUTOCONN_REGION: usize = 384;

// --- Bytes -----------------------------------------------------------------

/// The four bytes of `v`, lowest first.
pub open spec fn le4(v: u32) -> Seq<u8> {
    seq![
        (v % 0x100) as u8,
        (v / 0x100 % 0x100) as u8,
        (v / 0x1_0000 % 0x100) as u8,
        (v / 0x100_0000) as u8,
    ]
}

/// The number whose four bytes are `b`, lowest first.
pub open spec fn le_value4(b: Seq<u8>) -> u32 {
    (b[0] + b[1] * 0x100 + b[2] * 0x1_0000 + b[3] * 0x100_0000) as u32
}

/// The two bytes of `v`, lowest first.
pub open spec fn le2(v: u16) -> Seq<u8> {
    seq![(v % 0x100) as u8, (v / 0x100) as u8]
}

/// The number whose two bytes are `b`, lowest first.
pub open spec fn le_value2(b: Seq<u8>) -> u16 {
    (b[0] + b[1] * 0x100) as u16
}

proof fn lemma_le_value4(v: u32)
    ensures
        le_value4(le4(v)) == v,
{
}

proof fn lemma_le_value2(v: u16)
    ensures
        le_value2(le2(v)) == v,
{
}

/// The beginning of `dst` replaced by as much of `src` as fits.
pub open spec fn overlaid(dst: Seq<u8>, src: Seq<u8>) -> Seq<u8> {
    if src.len() <= dst.len() {
        src + dst.skip(src.len() as int)
    } else {
        src.take(dst.len() as int)
    }
}

/// The first `n` bytes of `src`, or all of it.
pub open spec fn cut(src: Seq<u8>, n: nat) -> Seq<u8> {
    if src.len() <= n {
        src
    } else {
        src.take(n as int)
    }
}

/// `bytes` with zeros behind it, up to the length `n`.
pub open spec fn padded(bytes: Seq<u8>, n: nat) -> Seq<u8> {
    bytes + Seq::new((n - bytes.len()) as nat, |i: int| 0u8)
}

/// The text that `bytes` encode, or nothing where they are not UTF-8.
pub open spec fn stored_text(bytes: Seq<u8>) -> Seq<char> {
    if valid_utf8(bytes) {
        decode_utf8(bytes)
    } else {
        Seq::empty()
    }
}

fn push_le4(out: &mut Vec<u8>, v: u32)
    ensures
        final(out)@ =~= old(out)@ + le4(v),
{
    out.push((v % 0x100) as u8);
    out.push((v / 0x100 % 0x100) as u8);
    out.push((v / 0x1_0000 % 0x100) as u8);
    out.push((v / 0x100_0000) as u8);
}

fn read_le4(b: &[u8], at: usize) -> (r: u32)
    requires
        at + 4 <= b@.len(),
    ensures
        r == le_value4(b@.subrange(at as int, at + 4)),
{
    assert(b@.len() == b.len());
    b[at] as u32 + b[at + 1] as u32 * 0x100 + b[at + 2] as u32 * 0x1_0000 + b[at + 3] as u32
        * 0x100_0000
}

/// Copies as much of `src` as fits to the beginning of `dst`, and says how much.
fn overlay(dst: &mut [u8], src: &[u8]) -> (n: usize)
    ensures
        final(dst)@ =~= overlaid(old(dst)@, src@),
        n == cut(src@, old(dst)@.len()).len(),
{
    let n: usize = if src.len() < dst.len() {
        src.len()
    } else {
        dst.len()
    };
    let mut i: usize = 0;
    while i < n
        invariant
            i <= n,
            n <= src@.len(),
            n <= dst@.len(),
            dst@.len() == old(dst)@.len(),
            forall|j: int| 0 <= j < i ==> dst@[j] == src@[j],
            forall|j: int| i <= j < dst@.len() ==> dst@[j] == old(dst)@[j],
        decreases n - i,
    {
        dst[i] = src[i];
        i = i + 1;
    }
    n
}

/// Copies the bytes of `src` from `at` on to fill `dst`.
fn fill(dst: &mut [u8], src: &[u8], at: usize)
    requires
        at + old(dst)@.len() <= src@.len(),
    ensures
        final(dst)@ =~= src@.subrange(at as int, at + old(dst)@.len()),
{
    assert(src@.len() == src.len());
    let mut i: usize = 0;
    while i < dst.len()
        invariant
            i <= dst@.len(),
            dst@.len() == old(dst)@.len(),
            src@.len() == src.len(),
            at + dst@.len() <= src@.len(),
            forall|j: int| 0 <= j < i ==> dst@[j] == src@[at + j],
        decreases dst@.len() - i,
    {
        dst[i] = src[at + i];
        i = i + 1;
    }
}

/// Appends zeros up to the length `n`.
fn pad(out: &mut Vec<u8>, n: usize)
    requires
        old(out)@.len() <= n,
    ensures
        final(out)@ =~= padded(old(out)@, n as nat),
{
    while out.len() < n
        invariant
            old(out)@.len() <= out@.len() <= n,
            out@ =~= padded(old(out)@, out@.len()),
        decreases n - out@.len(),
    {
        out.push(0);
    }
}

/// The text of the first `n` bytes of a field; nothing where they are not UTF-8.
fn stored_str<'a>(field: &'a [u8], n: usize) -> (r: &'a str)
    requires
        n <= field@.len(),
    ensures
        r@ == stored_text(field@.take(n as int)),
{
    let bytes: &'a [u8] = &field[0..n];
    assert(bytes@ =~= field@.take(n as int));
    match utf8_text(bytes) {
        Some(s) => s,
        None => {
            proof {
                reveal_strlit("");
                assert(""@ =~= Seq::<char>::empty());
            }
            ""
        },
    }
}

// --- WiFi credentials ------------------------------------------------------

/// WiFi station credentials, persisted to flash.
#[derive(Clone, Copy)]
pub struct WifiConfig {
    pub magic: u32,
    pub ssid: [u8; 32],
    pub ssid_len: u8,
    pub password: [u8; 64],
    pub password_len: u8,
    pub padding: [u8; 2],
}

/// The fields of a [`WifiConfig`].
#[verifier::ext_equal]
pub struct WifiView {
    pub magic: u32,
    pub ssid: Seq<u8>,
    pub ssid_len: u8,
    pub password: Seq<u8>,
    pub password_len: u8,
    pub padding: Seq<u8>,
}

impl View for WifiConfig {
    type V = WifiView;

    open spec fn view(&self) -> WifiView {
        WifiView {
            magic: self.magic,
            ssid: self.ssid@,
            ssid_len: self.ssid_len,
            password: self.password@,
            password_len: self.password_len,
            padding: self.padding@,
        }
    }
}

impl WifiView {
    /// A record without credentials.
    pub open spec fn blank() -> WifiView {
        WifiView {
            magic: 0,
            ssid: Seq::new(32, |i: int| 0u8),
            ssid_len: 0,
            password: Seq::new(64, |i: int| 0u8),
            password_len: 0,
            padding: Seq::new(2, |i: int| 0u8),
        }
    }

    /// Whether the fields have their sizes.
    pub open spec fn wf(self) -> bool {
        self.ssid.len() == 32 && self.password.len() == 64 && self.padding.len() == 2
    }

    /// The record as it stands in the flash.
    pub open spec fn record(self) -> Seq<u8> {
        le4(self.magic) + self.ssid + seq![self.ssid_len] + self.password + seq![self.password_len]
            + self.padding
    }

    /// Whether there are credentials.
    pub open spec fn valid(self) -> bool {
        self.magic == WIFI_CONFIG_MAGIC && self.ssid_len > 0
    }

    /// Whether the stored lengths fit their fields.
    pub open spec fn lengths_fit(self) -> bool {
        self.ssid_len <= 32 && self.password_len <= 64
    }

    /// The network's name.
    pub open spec fn ssid_text(self) -> Seq<char> {
        stored_text(self.ssid.take(self.ssid_len as int))
    }

    /// The network's password.
    pub open spec fn password_text(self) -> Seq<char> {
        stored_text(self.password.take(self.password_len as int))
    }

    /// The record with other credentials; what does not fit is cut off.
    pub open spec fn with_credentials(self, ssid: Seq<u8>, password: Seq<u8>) -> WifiView {
        WifiView {
            magic: WIFI_CONFIG_MAGIC,
            ssid: overlaid(self.ssid, ssid),
            ssid_len: cut(ssid, 32).len() as u8,
            password: overlaid(self.password, password),
            password_len: cut(password, 64).len() as u8,
            padding: self.padding,
        }
    }
}

/// The credentials at the beginning of `bytes`, if there are any.
pub open spec fn wifi_loaded(bytes: Seq<u8>) -> Option<WifiView> {
    let c = WifiView {
        magic: le_value4(bytes.take(4)),
        ssid: bytes.subrange(4, 36),
        ssid_len: bytes[36],
        password: bytes.subrange(37, 101),
        password_len: bytes[101],
        padding: bytes.subrange(102, 104),
    };
    if bytes.len() >= 104 && c.valid() {
        Some(c)
    } else {
        None
    }
}

impl WifiConfig {
    /// A record without credentials.
    pub fn new() -> (r: WifiConfig)
        ensures
            r@ == WifiView::blank(),
    {
        let r = WifiConfig {
            magic: 0,
            ssid: [0u8;32],
            ssid_len: 0,
            password: [0u8;64],
            password_len: 0,
            padding: [0u8;2],
        };
        assert(r@ =~= WifiView::blank());
        r
    }

    /// Whether there are credentials.
    pub fn is_valid(&self) -> (r: bool)
        ensures
            r == self@.valid(),
    {
        self.magic == WIFI_CONFIG_MAGIC && self.ssid_len > 0
    }

    /// Whether the stored lengths fit their fields, as they do unless something else
    /// wrote to the flash.
    pub fn fits(&self) -> (r: bool)
        ensures
            r == self@.lengths_fit(),
    {
        self.ssid_len <= 32 && self.password_len <= 64
    }

    /// The network's name; nothing where it is not UTF-8.
    pub fn ssid_str(&self) -> (r: &str)
        requires
            self.ssid_len <= 32,
        ensures
            r@ == self@.ssid_text(),
    {
        stored_str(&self.ssid, self.ssid_len as usize)
    }

    /// The network's password; nothing where it is not UTF-8.
    pub fn password_str(&self) -> (r: &str)
        requires
            self.password_len <= 64,
        ensures
            r@ == self@.password_text(),
    {
        stored_str(&self.password, self.password_len as usize)
    }

    /// Sets the credentials; what does not fit is cut off.
    pub fn set_credentials(&mut self, ssid: &str, password: &str)
        ensures
            final(self)@ == old(self)@.with_credentials(encode_utf8(ssid@), encode_utf8(password@)),
    {
        self.set_raw_credentials(ssid.as_bytes(), password.as_bytes());
    }

    /// Sets the credentials, given as bytes; what does not fit is cut off.
    pub fn set_raw_credentials(&mut self, ssid: &[u8], password: &[u8])
        ensures
            final(self)@ == old(self)@.with_credentials(ssid@, password@),
    {
        self.magic = WIFI_CONFIG_MAGIC;
        self.ssid_len = overlay(&mut self.ssid, ssid) as u8;
        self.password_len = overlay(&mut self.password, password) as u8;
        assert(self@ =~= old(self)@.with_credentials(ssid@, password@));
    }

    /// The record as it stands in the flash.
    pub fn as_bytes(&self) -> (r: Vec<u8>)
        ensures
            r@ == self@.record(),
            r@.len() == 104,
    {
        let mut r: Vec<u8> = Vec::new();
        push_le4(&mut r, self.magic);
        r.extend_from_slice(&self.ssid);
        r.push(self.ssid_len);
        r.extend_from_slice(&self.password);
        r.push(self.password_len);
        r.extend_from_slice(&self.padding);
        assert(r@ =~= self@.record());
        r
    }

    /// Reads a record; one without credentials is refused.
    pub fn from_bytes(bytes: &[u8]) -> (r: Option<WifiConfig>)
        ensures
            match r {
                Some(c) => wifi_loaded(bytes@) == Some(c@),
                None => wifi_loaded(bytes@) is None,
            },
    {
        if bytes.len() < 104 {
            return None;
        }
        let mut c = WifiConfig::new();
        c.magic = read_le4(bytes, 0);
        fill(&mut c.ssid, bytes, 4);
        c.ssid_len = bytes[36];
        fill(&mut c.password, bytes, 37);
        c.password_len = bytes[101];
        fill(&mut c.padding, bytes, 102);
        if c.is_valid() {
            assert(wifi_loaded(bytes@).unwrap() =~= c@);
            Some(c)
        } else {
            None
        }
    }
}

/// Reads the credentials from what their region of the flash holds.
pub fn load(region: &[u8]) -> (r: Option<WifiConfig>)
    ensures
        match r {
            Some(c) => wifi_loaded(region@) == Some(c@),
            None => wifi_loaded(region@) is None,
        },
{
    WifiConfig::from_bytes(region)
}

/// What the region of the credentials is to hold.
pub fn save(config: &WifiConfig) -> (r: Vec<u8>)
    ensures
        r@ == padded(config@.record(), WIFI_REGION as nat),
        r@.len() == WIFI_REGION,
{
    let mut r = config.as_bytes();
    pad(&mut r, WIFI_REGION);
    r
}

/// Credentials that are saved are the ones that are loaded; a record without any loads
/// as none.
pub proof fn wifi_save_loads(c: WifiView)
    requires
        c.wf(),
    ensures
        wifi_loaded(padded(c.record(), WIFI_REGION as nat)) == if c.valid() {
            Some(c)
        } else {
            None
        },
{
    let r = padded(c.record(), 128);
    lemma_le_value4(c.magic);
    assert(r.take(4) =~= le4(c.magic));
    if c.valid() {
        assert(wifi_loaded(r).unwrap() =~= c);
    }
}

/// What is kept of a text in a field of `n` bytes: all of it where it fits, and else the
/// characters that fill the field exactly. Where a character would have to be cut in two,
/// nothing is read back.
pub open spec fn kept(text: Seq<char>, n: nat) -> Seq<char> {
    if encode_utf8(text).len() <= n {
        text
    } else if exists|k: int| fills(text, k, n) {
        text.take(choose|k: int| fills(text, k, n))
    } else {
        Seq::empty()
    }
}

/// Whether the first `k` characters of a text have exactly `n` bytes.
pub open spec fn fills(text: Seq<char>, k: int, n: nat) -> bool {
    0 <= k <= text.len() && encode_utf8(#[trigger] text.take(k)).len() == n
}

proof fn lemma_encode_take(text: Seq<char>, k: int)
    requires
        0 <= k <= text.len(),
    ensures
        encode_utf8(text) == encode_utf8(text.take(k)) + encode_utf8(text.skip(k)),
    decreases k,
{
    if k == 0 {
        assert(text.skip(0) =~= text);
        assert(encode_utf8(text) =~= encode_utf8(text.take(0)) + encode_utf8(text.skip(0)));
    } else {
        let rest = text.drop_first();
        lemma_encode_take(rest, k - 1);
        assert(text.take(k).drop_first() =~= rest.take(k - 1));
        assert(text.skip(k) =~= rest.skip(k - 1));
        assert(encode_utf8(text) =~= encode_utf8(text.take(k)) + encode_utf8(text.skip(k)));
    }
}

proof fn lemma_valid_prefix(bytes: Seq<u8>, n: int)
    requires
        0 <= n <= bytes.len(),
        valid_utf8(bytes),
        valid_utf8(bytes.take(n)),
    ensures
        is_char_boundary(bytes, n),
    decreases n,
{
    if n > 0 {
        let front = bytes.take(n);
        let w = length_of_first_scalar(front);
        assert(front[0] == bytes[0]);
        assert(w == length_of_first_scalar(bytes));
        assert(pop_first_scalar(bytes).take(n - w) =~= pop_first_scalar(front));
        lemma_valid_prefix(pop_first_scalar(bytes), n - w);
    }
}

/// What is read back of a text is what is kept of it.
proof fn lemma_kept(text: Seq<char>, n: nat)
    ensures
        stored_text(cut(encode_utf8(text), n)) == kept(text, n),
{
    let b = encode_utf8(text);
    encode_utf8_valid_utf8(text);
    encode_utf8_decode_utf8(text);
    if b.len() > n {
        let front = b.take(n as int);
        if exists|k: int| fills(text, k, n) {
            let k = choose|k: int| fills(text, k, n);
            lemma_encode_take(text, k);
            assert(front =~= encode_utf8(text.take(k)));
            encode_utf8_valid_utf8(text.take(k));
            encode_utf8_decode_utf8(text.take(k));
        } else if valid_utf8(front) {
            lemma_valid_prefix(b, n as int);
            assert(front =~= b.subrange(0, n as int));
            decode_utf8_split(b, n as int);
            let u = decode_utf8(front);
            assert(text.take(u.len() as int) =~= u);
            decode_utf8_encode_utf8(front);
            assert(fills(text, u.len() as int, n));
        }
    }
}

/// What was set as the credentials is what is read, as far as it fits: a network's name
/// has 32 bytes and a password 64.
pub proof fn credentials_read_back(c: WifiView, ssid: Seq<char>, password: Seq<char>)
    requires
        c.wf(),
    ensures
        ({
            let d = c.with_credentials(encode_utf8(ssid), encode_utf8(password));
            &&& d.wf()
            &&& d.lengths_fit()
            &&& d.ssid_text() == kept(ssid, 32)
            &&& d.password_text() == kept(password, 64)
            &&& d.valid() == (ssid.len() > 0)
        }),
{
    lemma_text_reads_back(c.ssid, ssid);
    lemma_text_reads_back(c.password, password);
}

proof fn lemma_text_reads_back(field: Seq<u8>, text: Seq<char>)
    ensures
        stored_text(
            overlaid(field, encode_utf8(text)).take(
                cut(encode_utf8(text), field.len()).len() as int,
            ),
        ) == kept(text, field.len()),
        encode_utf8(text).len() > 0 <==> text.len() > 0,
{
    let b = encode_utf8(text);
    assert(overlaid(field, b).take(cut(b, field.len()).len() as int) =~= cut(b, field.len()));
    lemma_kept(text, field.len());
}

// --- Device ----------------------------------------------------------------

/// Device name (mDNS/AP SSID) and UART baud, persisted to flash.
#[derive(Clone, Copy)]
pub struct DeviceConfig {
    pub magic: u32,
    pub name: [u8; 32],
    pub name_len: u8,
    pub pad: [u8; 3],
    pub baud: u32,
}

/// The fields of a [`DeviceConfig`].
#[verifier::ext_equal]
pub struct DeviceView {
    pub magic: u32,
    pub name: Seq<u8>,
    pub name_len: u8,
    pub pad: Seq<u8>,
    pub baud: u32,
}

impl View for DeviceConfig {
    type V = DeviceView;

    open spec fn view(&self) -> DeviceView {
        DeviceView {
            magic: self.magic,
            name: self.name@,
            name_len: self.name_len,
            pad: self.pad@,
            baud: self.baud,
        }
    }
}

impl DeviceView {
    /// A record without a name.
    pub open spec fn blank() -> DeviceView {
        DeviceView {
            magic: 0,
            name: Seq::new(32, |i: int| 0u8),
            name_len: 0,
            pad: Seq::new(3, |i: int| 0u8),
            baud: DEFAULT_BAUD,
        }
    }

    /// The built-in defaults.
    pub open spec fn standard() -> DeviceView {
        DeviceView::blank().with_device(encode_utf8(DEFAULT_NAME@), DEFAULT_BAUD)
    }

    /// Whether the fields have their sizes.
    pub open spec fn wf(self) -> bool {
        self.name.len() == 32 && self.pad.len() == 3
    }

    /// The record as it stands in the flash.
    pub open spec fn record(self) -> Seq<u8> {
        le4(self.magic) + self.name + seq![self.name_len] + self.pad + le4(self.baud)
    }

    /// Whether there is a name.
    pub open spec fn valid(self) -> bool {
        self.magic == DEVICE_CONFIG_MAGIC && self.name_len > 0
    }

    /// The device's name, or the default one where there is none.
    pub open spec fn name_text(self) -> Seq<char> {
        if self.name_len == 0 {
            DEFAULT_NAME@
        } else {
            stored_text(self.name.take(self.name_len as int))
        }
    }

    /// The UART's baud rate; zero stands for the default one.
    pub open spec fn baud_rate(self) -> u32 {
        if self.baud == 0 {
            DEFAULT_BAUD
        } else {
            self.baud
        }
    }

    /// The record with another name and baud rate; what does not fit is cut off.
    pub open spec fn with_device(self, name: Seq<u8>, baud: u32) -> DeviceView {
        DeviceView {
            magic: DEVICE_CONFIG_MAGIC,
            name: overlaid(self.name, name),
            name_len: cut(name, 32).len() as u8,
            pad: self.pad,
            baud,
        }
    }
}

/// The device configuration at the beginning of `bytes`, if there is one.
pub open spec fn device_loaded(bytes: Seq<u8>) -> Option<DeviceView> {
    let c = DeviceView {
        magic: le_value4(bytes.take(4)),
        name: bytes.subrange(4, 36),
        name_len: bytes[36],
        pad: bytes.subrange(37, 40),
        baud: le_value4(bytes.subrange(40, 44)),
    };
    if bytes.len() >= 44 && c.valid() {
        Some(c)
    } else {
        None
    }
}

impl DeviceConfig {
    /// A record without a name.
    pub fn new() -> (r: DeviceConfig)
        ensures
            r@ == DeviceView::blank(),
    {
        let r = DeviceConfig {
            magic: 0,
            name: [0u8;32],
            name_len: 0,
            pad: [0u8;3],
            baud: DEFAULT_BAUD,
        };
        assert(r@ =~= DeviceView::blank());
        r
    }

    /// Built-in defaults (used when nothing is stored in flash).
    pub fn defaults() -> (r: DeviceConfig)
        ensures
            r@ == DeviceView::standard(),
    {
        let mut c = DeviceConfig::new();
        c.set(DEFAULT_NAME, DEFAULT_BAUD);
        c
    }

    /// Whether there is a name.
    pub fn is_valid(&self) -> (r: bool)
        ensures
            r == self@.valid(),
    {
        self.magic == DEVICE_CONFIG_MAGIC && self.name_len > 0
    }

    /// Whether the stored length fits its field, as it does unless something else
    /// wrote to the flash.
    pub fn fits(&self) -> (r: bool)
        ensures
            r == (self.name_len <= 32),
    {
        self.name_len <= 32
    }

    /// The device's name, or the default one where there is none; nothing where it is
    /// not UTF-8.
    pub fn name_str(&self) -> (r: &str)
        requires
            self.name_len <= 32,
        ensures
            r@ == self@.name_text(),
    {
        if self.name_len == 0 {
            DEFAULT_NAME
        } else {
            stored_str(&self.name, self.name_len as usize)
        }
    }

    /// The UART's baud rate.
    pub fn baud(&self) -> (r: u32)
        ensures
            r == self@.baud_rate(),
            r > 0,
    {
        if self.baud == 0 {
            DEFAULT_BAUD
        } else {
            self.baud
        }
    }

    /// Sets the name and the baud rate; what does not fit is cut off.
    pub fn set(&mut self, name: &str, baud: u32)
        ensures
            final(self)@ == old(self)@.with_device(encode_utf8(name@), baud),
    {
        self.set_raw(name.as_bytes(), baud);
    }

    /// Sets the name, given as bytes, and the baud rate; what does not fit is cut off.
    pub fn set_raw(&mut self, name: &[u8], baud: u32)
        ensures
            final(self)@ == old(self)@.with_device(name@, baud),
    {
        self.magic = DEVICE_CONFIG_MAGIC;
        self.name_len = overlay(&mut self.name, name) as u8;
        self.baud = baud;
        assert(self@ =~= old(self)@.with_device(name@, baud));
    }

    /// The record as it stands in the flash.
    pub fn as_bytes(&self) -> (r: Vec<u8>)
        ensures
            r@ == self@.record(),
            r@.len() == 44,
    {
        let mut r: Vec<u8> = Vec::new();
        push_le4(&mut r, self.magic);
        r.extend_from_slice(&self.name);
        r.push(self.name_len);
        r.extend_from_slice(&self.pad);
        push_le4(&mut r, self.baud);
        assert(r@ =~= self@.record());
        r
    }

    /// Reads a record; one without a name is refused.
    pub fn from_bytes(bytes: &[u8]) -> (r: Option<DeviceConfig>)
        ensures
            match r {
                Some(c) => device_loaded(bytes@) == Some(c@),
                None => device_loaded(bytes@) is None,
            },
    {
        if bytes.len() < 44 {
            return None;
        }
        let mut c = DeviceConfig::new();
        c.magic = read_le4(bytes, 0);
        fill(&mut c.name, bytes, 4);
        c.name_len = bytes[36];
        fill(&mut c.pad, bytes, 37);
        c.baud = read_le4(bytes, 40);
        if c.is_valid() {
            assert(device_loaded(bytes@).unwrap() =~= c@);
            Some(c)
        } else {
            None
        }
    }
}

/// Reads the device configuration from what its region of the flash holds.
pub fn load_device(region: &[u8]) -> (r: Option<DeviceConfig>)
    ensures
        match r {
            Some(c) => device_loaded(region@) == Some(c@),
            None => device_loaded(region@) is None,
        },
{
    DeviceConfig::from_bytes(region)
}

/// What the region of the device configuration is to hold.
pub fn save_device(config: &DeviceConfig) -> (r: Vec<u8>)
    ensures
        r@ == padded(config@.record(), DEVICE_REGION as nat),
        r@.len() == DEVICE_REGION,
{
    let mut r = config.as_bytes();
    pad(&mut r, DEVICE_REGION);
    r
}

/// A device configuration that is saved is the one that is loaded; a record without a
/// name loads as none.
pub proof fn device_save_loads(c: DeviceView)
    requires
        c.wf(),
    ensures
        device_loaded(padded(c.record(), DEVICE_REGION as nat)) == if c.valid() {
            Some(c)
        } else {
            None
        },
{
    let r = padded(c.record(), 64);
    lemma_le_value4(c.magic);
    lemma_le_value4(c.baud);
    assert(r.take(4) =~= le4(c.magic));
    assert(r.subrange(40, 44) =~= le4(c.baud));
    if c.valid() {
        assert(device_loaded(r).unwrap() =~= c);
    }
}

/// The name and the baud rate that were set are the ones that are read, as far as the
/// name fits into 32 bytes; an empty one stands for the default, and so does a zero baud
/// rate.
pub proof fn device_reads_back(c: DeviceView, name: Seq<char>, baud: u32)
    requires
        c.wf(),
    ensures
        ({
            let d = c.with_device(encode_utf8(name), baud);
            &&& d.wf()
            &&& d.name_len <= 32
            &&& d.valid() == (name.len() > 0)
            &&& d.name_text() == if name.len() > 0 {
                kept(name, 32)
            } else {
                DEFAULT_NAME@
            }
            &&& d.baud_rate() == if baud > 0 {
                baud
            } else {
                DEFAULT_BAUD
            }
        }),
{
    lemma_text_reads_back(c.name, name);
}

// --- Auto-connect ----------------------------------------------------------

/// Outbound "auto-connect" configuration: the adapter dials a server and bridges SLCAN
/// over it (works from behind NAT). Stored as a single URL of the form
///   `tcp://host:port/`  or  `tls://host:port/?pubkey=<hex>&token=<hex>`
/// (read by [`crate::url::parse_url`]). Persisted to flash.
#[derive(Clone, Copy)]
pub struct AutoConnectConfig {
    pub magic: u32,
    pub enable: u8,
    pub pad: u8,
    pub url_len: u16,
    pub url: [u8; URL_MAX],
}

/// The fields of an [`AutoConnectConfig`].
#[verifier::ext_equal]
pub struct AutoConnectView {
    pub magic: u32,
    pub enable: u8,
    pub pad: u8,
    pub url_len: u16,
    pub url: Seq<u8>,
}

impl View for AutoConnectConfig {
    type V = AutoConnectView;

    open spec fn view(&self) -> AutoConnectView {
        AutoConnectView {
            magic: self.magic,
            enable: self.enable,
            pad: self.pad,
            url_len: self.url_len,
            url: self.url@,
        }
    }
}

impl AutoConnectView {
    /// Switched off, without a URL.
    pub open spec fn blank() -> AutoConnectView {
        AutoConnectView {
            magic: 0,
            enable: 0,
            pad: 0,
            url_len: 0,
            url: Seq::new(URL_MAX as nat, |i: int| 0u8),
        }
    }

    /// Whether the URL field has its size.
    pub open spec fn wf(self) -> bool {
        self.url.len() == URL_MAX
    }

    /// The record as it stands in the flash.
    pub open spec fn record(self) -> Seq<u8> {
        le4(self.magic) + seq![self.enable, self.pad] + le2(self.url_len) + self.url
    }

    /// Whether this is a record of this kind.
    pub open spec fn valid(self) -> bool {
        self.magic == AUTOCONN_CONFIG_MAGIC
    }

    /// Whether a server is to be dialed.
    pub open spec fn dials(self) -> bool {
        self.enable != 0 && self.url_len > 0
    }

    /// The URL.
    pub open spec fn url_text(self) -> Seq<char> {
        stored_text(cut(self.url, self.url_len as nat))
    }

    /// The record with another switch and URL; what does not fit is cut off.
    pub open spec fn with_url(self, enable: bool, url: Seq<u8>) -> AutoConnectView {
        AutoConnectView {
            magic: AUTOCONN_CONFIG_MAGIC,
            enable: if enable {
                1
            } else {
                0
            },
            pad: self.pad,
            url_len: cut(url, URL_MAX as nat).len() as u16,
            url: overlaid(self.url, url),
        }
    }
}

/// The auto-connect configuration at the beginning of `bytes`, if there is one.
pub open spec fn autoconnect_loaded(bytes: Seq<u8>) -> Option<AutoConnectView> {
    let c = AutoConnectView {
        magic: le_value4(bytes.take(4)),
        enable: bytes[4],
        pad: bytes[5],
        url_len: le_value2(bytes.subrange(6, 8)),
        url: bytes.subrange(8, 264),
    };
    if bytes.len() >= 264 && c.valid() {
        Some(c)
    } else {
        None
    }
}

impl AutoConnectConfig {
    /// Switched off, without a URL.
    pub fn new() -> (r: AutoConnectConfig)
        ensures
            r@ == AutoConnectView::blank(),
    {
        let r = AutoConnectConfig {
            magic: 0,
            enable: 0,
            pad: 0,
            url_len: 0,
            url: [0u8;URL_MAX],
        };
        assert(r@ =~= AutoConnectView::blank());
        r
    }

    /// Whether this is a record of this kind.
    pub fn is_valid(&self) -> (r: bool)
        ensures
            r == self@.valid(),
    {
        self.magic == AUTOCONN_CONFIG_MAGIC
    }

    /// Whether a server is to be dialed.
    pub fn enabled(&self) -> (r: bool)
        ensures
            r == self@.dials(),
    {
        self.enable != 0 && self.url_len > 0
    }

    /// Raw enable flag (for reflecting the checkbox state).
    pub fn enable_set(&self) -> (r: bool)
        ensures
            r == (self.enable != 0),
    {
        self.enable != 0
    }

    /// The URL; nothing where it is not UTF-8.
    pub fn url_str(&self) -> (r: &str)
        ensures
            r@ == self@.url_text(),
    {
        let n: usize = if (self.url_len as usize) < URL_MAX {
            self.url_len as usize
        } else {
            URL_MAX
        };
        assert(self.url@.take(n as int) =~= cut(self.url@, self.url_len as nat));
        stored_str(&self.url, n)
    }

    /// Sets the switch and the URL; what does not fit is cut off.
    pub fn set(&mut self, enable: bool, url: &str)
        ensures
            final(self)@ == old(self)@.with_url(enable, encode_utf8(url@)),
    {
        self.magic = AUTOCONN_CONFIG_MAGIC;
        self.enable = if enable {
            1
        } else {
            0
        };
        self.url_len = overlay(&mut self.url, url.as_bytes()) as u16;
        assert(self@ =~= old(self)@.with_url(enable, encode_utf8(url@)));
    }

    /// The record as it stands in the flash.
    pub fn as_bytes(&self) -> (r: Vec<u8>)
        ensures
            r@ == self@.record(),
            r@.len() == 264,
    {
        let mut r: Vec<u8> = Vec::new();
        push_le4(&mut r, self.magic);
        r.push(self.enable);
        r.push(self.pad);
        r.push((self.url_len % 0x100) as u8);
        r.push((self.url_len / 0x100) as u8);
        r.extend_from_slice(&self.url);
        assert(r@ =~= self@.record());
        r
    }

    /// Reads a record; one of another kind is refused.
    pub fn from_bytes(bytes: &[u8]) -> (r: Option<AutoConnectConfig>)
        ensures
            match r {
                Some(c) => autoconnect_loaded(bytes@) == Some(c@),
                None => autoconnect_loaded(bytes@) is None,
            },
    {
        if bytes.len() < 264 {
            return None;
        }
        let mut c = AutoConnectConfig::new();
        c.magic = read_le4(bytes, 0);
        c.enable = bytes[4];
        c.pad = bytes[5];
        c.url_len = bytes[6] as u16 + bytes[7] as u16 * 0x100;
        fill(&mut c.url, bytes, 8);
        if c.is_valid() {
            assert(autoconnect_loaded(bytes@).unwrap() =~= c@);
            Some(c)
        } else {
            None
        }
    }
}

/// Reads the auto-connect configuration from what its region of the flash holds.
pub fn load_autoconnect(region: &[u8]) -> (r: Option<AutoConnectConfig>)
    ensures
        match r {
            Some(c) => autoconnect_loaded(region@) == Some(c@),
            None => autoconnect_loaded(region@) is None,
        },
{
    AutoConnectConfig::from_bytes(region)
}

/// What the region of the auto-connect configuration is to hold.
pub fn save_autoconnect(config: &AutoConnectConfig) -> (r: Vec<u8>)
    ensures
        r@ == padded(config@.record(), AUTOCONN_REGION as nat),
        r@.len() == AUTOCONN_REGION,
{
    let mut r = config.as_bytes();
    pad(&mut r, AUTOCONN_REGION);
    r
}

/// An auto-connect configuration that is saved is the one that is loaded; a record of
/// another kind loads as none.
pub proof fn autoconnect_save_loads(c: AutoConnectView)
    requires
        c.wf(),
    ensures
        autoconnect_loaded(padded(c.record(), AUTOCONN_REGION as nat)) == if c.valid() {
            Some(c)
        } else {
            None
        },
{
    let r = padded(c.record(), 384);
    lemma_le_value4(c.magic);
    lemma_le_value2(c.url_len);
    assert(r.take(4) =~= le4(c.magic));
    assert(r.subrange(6, 8) =~= le2(c.url_len));
    if c.valid() {
        assert(autoconnect_loaded(r).unwrap() =~= c);
    }
}

/// The switch and the URL that were set are the ones that are read, as far as the URL fits
/// into 256 bytes; a server is dialed where it is switched on and there is a URL.
pub proof fn url_setting_reads_back(c: AutoConnectView, enable: bool, url: Seq<char>)
    requires
        c.wf(),
    ensures
        ({
            let d = c.with_url(enable, encode_utf8(url));
            &&& d.wf()
            &&& d.valid()
            &&& d.url_text() == kept(url, URL_MAX as nat)
            &&& (d.enable != 0) == enable
            &&& d.dials() == (enable && url.len() > 0)
        }),
{
    let d = c.with_url(enable, encode_utf8(url));
    assert(cut(d.url, d.url_len as nat) =~= d.url.take(d.url_len as int));
    lemma_text_reads_back(c.url, url);
}

// --- The partition ---------------------------------------------------------

/// What a partition holds after `bytes` are written at `offset`.
pub open spec fn written(flash: Seq<u8>, offset: nat, bytes: Seq<u8>) -> Seq<u8> {
    flash.take(offset as int) + bytes + flash.skip((offset + bytes.len()) as int)
}

/// The region of a partition at `offset`.
pub open spec fn region(flash: Seq<u8>, offset: u32, size: usize) -> Seq<u8> {
    flash.subrange(offset as int, offset + size)
}

/// The three records do not share a byte: to save one decides what it loads, which is
/// nothing where it is not valid, and leaves the other two as they are.
pub proof fn records_are_independent(
    flash: Seq<u8>,
    wifi: WifiView,
    device: DeviceView,
    auto: AutoConnectView,
)
    requires
        flash.len() >= AUTOCONN_CONFIG_OFFSET + AUTOCONN_REGION,
        wifi.wf(),
        device.wf(),
        auto.wf(),
    ensures
        ({
            let w = written(
                flash,
                WIFI_CONFIG_OFFSET as nat,
                padded(wifi.record(), WIFI_REGION as nat),
            );
            &&& wifi_loaded(region(w, WIFI_CONFIG_OFFSET, WIFI_REGION)) == if wifi.valid() {
                Some(wifi)
            } else {
                None
            }
            &&& region(w, DEVICE_CONFIG_OFFSET, DEVICE_REGION) == region(
                flash,
                DEVICE_CONFIG_OFFSET,
                DEVICE_REGION,
            )
            &&& region(w, AUTOCONN_CONFIG_OFFSET, AUTOCONN_REGION) == region(
                flash,
                AUTOCONN_CONFIG_OFFSET,
                AUTOCONN_REGION,
            )
        }),
        ({
            let w = written(
                flash,
                DEVICE_CONFIG_OFFSET as nat,
                padded(device.record(), DEVICE_REGION as nat),
            );
            &&& device_loaded(region(w, DEVICE_CONFIG_OFFSET, DEVICE_REGION)) == if device.valid() {
                Some(device)
            } else {
                None
            }
            &&& region(w, WIFI_CONFIG_OFFSET, WIFI_REGION) == region(
                flash,
                WIFI_CONFIG_OFFSET,
                WIFI_REGION,
            )
            &&& region(w, AUTOCONN_CONFIG_OFFSET, AUTOCONN_REGION) == region(
                flash,
                AUTOCONN_CONFIG_OFFSET,
                AUTOCONN_REGION,
            )
        }),
        ({
            let w = written(
                flash,
                AUTOCONN_CONFIG_OFFSET as nat,
                padded(auto.record(), AUTOCONN_REGION as nat),
            );
            &&& autoconnect_loaded(region(w, AUTOCONN_CONFIG_OFFSET, AUTOCONN_REGION))
                == if auto.valid() {
                Some(auto)
            } else {
                None
            }
            &&& region(w, WIFI_CONFIG_OFFSET, WIFI_REGION) == region(
                flash,
                WIFI_CONFIG_OFFSET,
                WIFI_REGION,
            )
            &&& region(w, DEVICE_CONFIG_OFFSET, DEVICE_REGION) == region(
                flash,
                DEVICE_CONFIG_OFFSET,
                DEVICE_REGION,
            )
        }),
{
    lemma_written(flash, 0, padded(wifi.record(), 128));
    lemma_written(flash, 128, padded(device.record(), 64));
    lemma_written(flash, 256, padded(auto.record(), 384));
    wifi_save_loads(wifi);
    device_save_loads(device);
    autoconnect_save_loads(auto);
}

proof fn lemma_written(flash: Seq<u8>, offset: nat, bytes: Seq<u8>)
    requires
        offset + bytes.len() <= flash.len(),
    ensures
        written(flash, offset, bytes).subrange(offset as int, (offset + bytes.len()) as int)
            == bytes,
        forall|a: int, b: int|
            0 <= a <= b <= flash.len() && (b <= offset || offset + bytes.len() <= a)
                ==> #[trigger] written(flash, offset, bytes).subrange(a, b) == flash.subrange(a, b),
{
    let w = written(flash, offset, bytes);
    assert(w.subrange(offset as int, (offset + bytes.len()) as int) =~= bytes);
    assert forall|a: int, b: int|
        0 <= a <= b <= flash.len() && (b <= offset || offset + bytes.len()
            <= a) implies #[trigger] w.subrange(a, b) == flash.subrange(a, b) by {
        assert(w.subrange(a, b) =~= flash.subrange(a, b));
    }
}

// --- Start -----------------------------------------------------------------

/// What the adapter starts with.
pub struct Boot {
    /// Whether it opens an access point for its configuration in place of joining a
    /// network.
    pub config_mode: bool,
    pub wifi: WifiConfig,
    pub device: DeviceConfig,
    pub auto: AutoConnectConfig,
}

/// Whether the adapter starts in configuration mode, with these credentials or none.
pub open spec fn starts_in_config_mode(wifi: Option<WifiView>) -> bool {
    match wifi {
        Some(c) => !c.valid(),
        None => true,
    }
}

/// Decides what the adapter starts with from what was found in the flash: without saved
/// credentials it goes into configuration mode, and what is missing takes its default.
pub fn boot(
    wifi: Option<WifiConfig>,
    device: Option<DeviceConfig>,
    auto: Option<AutoConnectConfig>,
) -> (r: Boot)
    ensures
        r.config_mode == starts_in_config_mode(
            match wifi {
                Some(c) => Some(c@),
                None => None,
            },
        ),
        r.config_mode == !(wifi matches Some(c) && c@.valid()),
        match wifi {
            Some(c) => r.wifi == c,
            None => r.wifi@ == WifiView::blank(),
        },
        match device {
            Some(c) => r.device == c,
            None => r.device@ == DeviceView::standard(),
        },
        match auto {
            Some(c) => r.auto == c,
            None => r.auto@ == AutoConnectView::blank(),
        },
{
    let config_mode = match wifi {
        Some(c) => !c.is_valid(),
        None => true,
    };
    Boot {
        config_mode,
        wifi: match wifi {
            Some(c) => c,
            None => WifiConfig::new(),
        },
        device: match device {
            Some(c) => c,
            None => DeviceConfig::defaults(),
        },
        auto: match auto {
            Some(c) => c,
            None => AutoConnectConfig::new(),
        },
    }
}

// --- Laws ------------------------------------------------------------------

/// Four bytes hold a number, the lowest first.
pub proof fn numbers_are_little_endian(v: u32, w: u16)
    ensures
        le4(v).len() == 4,
        le4(v)[0] + le4(v)[1] * 0x100 + le4(v)[2] * 0x1_0000 + le4(v)[3] * 0x100_0000 == v,
        le_value4(le4(v)) == v,
        le2(w).len() == 2,
        le2(w)[0] + le2(w)[1] * 0x100 == w,
        le_value2(le2(w)) == w,
{
}

/// Where the credentials stand in their record of 104 bytes.
pub proof fn wifi_record_layout(c: WifiView)
    requires
        c.wf(),
    ensures
        c.record().len() == 104,
        c.record()[0] + c.record()[1] * 0x100 + c.record()[2] * 0x1_0000 + c.record()[3]
            * 0x100_0000 == c.magic,
        forall|i: int| 0 <= i < 32 ==> c.record()[4 + i] == #[trigger] c.ssid[i],
        c.record()[36] == c.ssid_len,
        forall|i: int| 0 <= i < 64 ==> c.record()[37 + i] == #[trigger] c.password[i],
        c.record()[101] == c.password_len,
{
    numbers_are_little_endian(c.magic, 0);
}

/// Where the device's name and baud rate stand in their record of 44 bytes.
pub proof fn device_record_layout(c: DeviceView)
    requires
        c.wf(),
    ensures
        c.record().len() == 44,
        c.record()[0] + c.record()[1] * 0x100 + c.record()[2] * 0x1_0000 + c.record()[3]
            * 0x100_0000 == c.magic,
        forall|i: int| 0 <= i < 32 ==> c.record()[4 + i] == #[trigger] c.name[i],
        c.record()[36] == c.name_len,
        c.record()[40] + c.record()[41] * 0x100 + c.record()[42] * 0x1_0000 + c.record()[43]
            * 0x100_0000 == c.baud,
{
    numbers_are_little_endian(c.magic, 0);
    numbers_are_little_endian(c.baud, 0);
}

/// Where the switch and the URL stand in their record of 264 bytes.
pub proof fn autoconnect_record_layout(c: AutoConnectView)
    requires
        c.wf(),
    ensures
        c.record().len() == 264,
        c.record()[0] + c.record()[1] * 0x100 + c.record()[2] * 0x1_0000 + c.record()[3]
            * 0x100_0000 == c.magic,
        c.record()[4] == c.enable,
        c.record()[6] + c.record()[7] * 0x100 == c.url_len,
        forall|i: int| 0 <= i < 256 ==> c.record()[8 + i] == #[trigger] c.url[i],
{
    numbers_are_little_endian(c.magic, c.url_len);
}

/// Credentials are found in what begins with their mark and names a network, and in nothing
/// else; every field is read from where it stands, and what follows the record does not
/// matter.
pub proof fn credentials_need_their_mark(bytes: Seq<u8>)
    ensures
        wifi_loaded(bytes) is Some <==> bytes.len() >= 104 && bytes[0] == 0x01 && bytes[1] == 0x60
            && bytes[2] == 0xf1 && bytes[3] == 0xc0 && bytes[36] > 0,
        wifi_loaded(bytes) matches Some(c) ==> c.wf() && c.ssid_len == bytes[36] && c.password_len
            == bytes[101] && c.record() == bytes.take(104),
{
    if bytes.len() >= 104 {
        let mark = bytes.take(4);
        lemma_mark(mark, WIFI_CONFIG_MAGIC, 0x01, 0x60, 0xf1, 0xc0);
        if let Some(c) = wifi_loaded(bytes) {
            assert(c.record() =~= bytes.take(104));
        }
    }
}

proof fn lemma_le4_back(b: Seq<u8>)
    requires
        b.len() == 4,
    ensures
        le4(le_value4(b)) == b,
{
    let (b0, b1, b2, b3) = (b[0] as int, b[1] as int, b[2] as int, b[3] as int);
    let v = b0 + b1 * 0x100 + b2 * 0x1_0000 + b3 * 0x100_0000;
    assert(le_value4(b) == v);
    let v1 = b1 + b2 * 0x100 + b3 * 0x1_0000;
    let v2 = b2 + b3 * 0x100;
    assert(v == v1 * 0x100 + b0);
    assert(v % 0x100 == b0 && v / 0x100 == v1);
    assert(v1 % 0x100 == b1);
    assert(v / 0x1_0000 == v2);
    assert(v2 % 0x100 == b2);
    assert(v / 0x100_0000 == b3);
    assert(le4(le_value4(b)) =~= b);
}

/// What the first four bytes of a record say.
proof fn lemma_mark(b: Seq<u8>, magic: u32, m0: u8, m1: u8, m2: u8, m3: u8)
    requires
        b.len() == 4,
        magic == m0 + m1 * 0x100 + m2 * 0x1_0000 + m3 * 0x100_0000,
    ensures
        le4(le_value4(b)) == b,
        le_value4(b) == magic <==> b[0] == m0 && b[1] == m1 && b[2] == m2 && b[3] == m3,
{
    lemma_le4_back(b);
    let m = seq![m0, m1, m2, m3];
    lemma_le4_back(m);
    assert(le_value4(m) == magic);
    if le_value4(b) == magic {
        assert(b == m);
    }
}

/// A device configuration is found in what begins with its mark and has a name, and in
/// nothing else; every field is read from where it stands.
pub proof fn device_needs_its_mark(bytes: Seq<u8>)
    ensures
        device_loaded(bytes) is Some <==> bytes.len() >= 44 && bytes[0] == 0x01 && bytes[1] == 0xce
            && bytes[2] == 0x71 && bytes[3] == 0xde && bytes[36] > 0,
        device_loaded(bytes) matches Some(c) ==> c.wf() && c.name_len == bytes[36] && c.record()
            == bytes.take(44),
{
    if bytes.len() >= 44 {
        let mark = bytes.take(4);
        let baud = bytes.subrange(40, 44);
        lemma_mark(mark, DEVICE_CONFIG_MAGIC, 0x01, 0xce, 0x71, 0xde);
        lemma_le4_back(baud);
        if let Some(c) = device_loaded(bytes) {
            lemma_device_parts(bytes, c);
        }
    }
}

proof fn lemma_device_parts(bytes: Seq<u8>, c: DeviceView)
    requires
        bytes.len() >= 44,
        le4(c.magic) == bytes.take(4),
        c.name == bytes.subrange(4, 36),
        c.name_len == bytes[36],
        c.pad == bytes.subrange(37, 40),
        le4(c.baud) == bytes.subrange(40, 44),
    ensures
        c.record() == bytes.take(44),
{
    let (m, e) = (le4(c.magic), le4(c.baud));
    assert(m.len() == 4 && e.len() == 4);
    assert(m + c.name + seq![c.name_len] + c.pad + e =~= bytes.take(44));
}

/// An auto-connect configuration is found in what begins with its mark, and in nothing
/// else; every field is read from where it stands.
pub proof fn autoconnect_needs_its_mark(bytes: Seq<u8>)
    ensures
        autoconnect_loaded(bytes) is Some <==> bytes.len() >= 264 && bytes[0] == 0x02 && bytes[1]
            == 0x00 && bytes[2] == 0x0c && bytes[3] == 0xac,
        autoconnect_loaded(bytes) matches Some(c) ==> c.wf() && c.record() == bytes.take(264),
{
    if bytes.len() >= 264 {
        let mark = bytes.take(4);
        let len = bytes.subrange(6, 8);
        lemma_mark(mark, AUTOCONN_CONFIG_MAGIC, 0x02, 0x00, 0x0c, 0xac);
        if let Some(c) = autoconnect_loaded(bytes) {
            assert(le2(c.url_len) =~= len);
            assert(c.record() =~= bytes.take(264));
        }
    }
}

/// Credentials given as bytes are kept byte by byte, as far as they fit.
pub proof fn raw_credentials_are_kept(c: WifiView, ssid: Seq<u8>, password: Seq<u8>)
    requires
        c.wf(),
    ensures
        ({
            let d = c.with_credentials(ssid, password);
            &&& d.wf()
            &&& d.ssid_len == if ssid.len() < 32 {
                ssid.len()
            } else {
                32
            }
            &&& d.password_len == if password.len() < 64 {
                password.len()
            } else {
                64
            }
            &&& forall|i: int| 0 <= i < d.ssid_len ==> #[trigger] d.ssid[i] == ssid[i]
            &&& forall|i: int| 0 <= i < d.password_len ==> #[trigger] d.password[i] == password[i]
            &&& d.valid() <==> ssid.len() > 0
        }),
{
}

/// A name given as bytes is kept byte by byte, as far as it fits.
pub proof fn raw_name_is_kept(c: DeviceView, name: Seq<u8>, baud: u32)
    requires
        c.wf(),
    ensures
        ({
            let d = c.with_device(name, baud);
            &&& d.wf()
            &&& d.name_len == if name.len() < 32 {
                name.len()
            } else {
                32
            }
            &&& forall|i: int| 0 <= i < d.name_len ==> #[trigger] d.name[i] == name[i]
            &&& d.baud == baud
            &&& d.valid() <==> name.len() > 0
        }),
{
}

/// What is kept of a text is its beginning and fits: all of it where all fits, and as many
/// bytes as there are where it can be cut between characters.
pub proof fn kept_text_is_a_beginning(text: Seq<char>, n: nat)
    ensures
        kept(text, n).len() <= text.len(),
        kept(text, n) == text.take(kept(text, n).len() as int),
        encode_utf8(kept(text, n)).len() <= n,
        encode_utf8(text).len() <= n ==> kept(text, n) == text,
        encode_utf8(text).len() > n ==> forall|k: int|
            0 <= k <= text.len() && encode_utf8(#[trigger] text.take(k)).len() == n ==> encode_utf8(
                kept(text, n),
            ).len() == n,
{
    if encode_utf8(text).len() <= n {
        assert(text.take(text.len() as int) =~= text);
    } else if exists|k: int| fills(text, k, n) {
        let k = choose|k: int| fills(text, k, n);
        assert(text.take(k).len() == k);
    } else {
        assert(text.take(0) =~= Seq::empty());
        assert(encode_utf8(Seq::<char>::empty()).len() == 0);
        assert forall|k: int|
            0 <= k <= text.len() && encode_utf8(#[trigger] text.take(k)).len() == n implies encode_utf8(
            kept(text, n),
        ).len() == n by {
            assert(fills(text, k, n));
        }
    }
}

/// The built-in settings: the name `espcan-br` at 115200 baud, no network, and no server to
/// dial.
pub proof fn built_in_settings()
    ensures
        DeviceView::standard().wf(),
        DeviceView::standard().valid(),
        DeviceView::standard().name_text() == "espcan-br"@,
        DeviceView::standard().baud_rate() == 115_200,
        DeviceView::blank().name_text() == "espcan-br"@,
        !DeviceView::blank().valid(),
        !WifiView::blank().valid(),
        WifiView::blank().ssid_text().len() == 0,
        WifiView::blank().password_text().len() == 0,
        WifiView::blank().lengths_fit(),
        !AutoConnectView::blank().dials(),
        AutoConnectView::blank().enable == 0,
        AutoConnectView::blank().url_text().len() == 0,
{
    reveal_strlit("espcan-br");
    assert(is_ascii_chars("espcan-br"@));
    is_ascii_chars_encode_utf8("espcan-br"@);
    device_reads_back(DeviceView::blank(), "espcan-br"@, 115_200);
    let e = Seq::<u8>::empty();
    assert(WifiView::blank().ssid.take(0) =~= e);
    assert(WifiView::blank().password.take(0) =~= e);
    assert(cut(AutoConnectView::blank().url, 0) =~= e);
    assert(decode_utf8(e).len() == 0);
}

/// The adapter joins a network exactly where credentials are found in the flash: it does
/// once some with a network name were saved, and else opens its access point.
pub proof fn saved_credentials_end_config_mode(bytes: Seq<u8>, c: WifiView)
    requires
        c.wf(),
    ensures
        starts_in_config_mode(wifi_loaded(bytes)) <==> wifi_loaded(bytes) is None,
        starts_in_config_mode(wifi_loaded(padded(c.record(), WIFI_REGION as nat))) <==> !(c.magic
            == 0xC0F1_6001 && c.ssid_len > 0),
        starts_in_config_mode(None),
{
    wifi_save_loads(c);
}

/// What is cut off is cut off behind, what is overlaid is overlaid in front, and what is
/// padded is padded with zeros behind.
pub proof fn cutting_and_padding(src: Seq<u8>, dst: Seq<u8>, n: nat, i: int)
    requires
        0 <= i,
    ensures
        cut(src, n).len() == if src.len() < n {
            src.len()
        } else {
            n
        },
        i < cut(src, n).len() ==> cut(src, n)[i] == src[i],
        overlaid(dst, src).len() == dst.len(),
        i < dst.len() && i < src.len() ==> overlaid(dst, src)[i] == src[i],
        src.len() <= i < dst.len() ==> overlaid(dst, src)[i] == dst[i],
        src.len() <= n ==> padded(src, n).len() == n,
        i < src.len() <= n ==> padded(src, n)[i] == src[i],
        src.len() <= i < n ==> padded(src, n)[i] == 0,
{
}

/// Where the records stand in the partition, and how much room they have.
pub proof fn places_in_the_partition()
    ensures
        WIFI_CONFIG_OFFSET == 0 && WIFI_REGION == 128,
        DEVICE_CONFIG_OFFSET == 128 && DEVICE_REGION == 64,
        AUTOCONN_CONFIG_OFFSET == 256 && AUTOCONN_REGION == 384,
        URL_MAX == 256,
{
}

/// Bytes that are not UTF-8 are read as no text, and all others as the text they encode.
pub proof fn stored_bytes_are_read_as_text(bytes: Seq<u8>, text: Seq<char>)
    ensures
        stored_text(encode_utf8(text)) == text,
        !valid_utf8(bytes) ==> stored_text(bytes).len() == 0,
{
    encode_utf8_valid_utf8(text);
    encode_utf8_decode_utf8(text);
}

/// What is read of settings, however they came about: the text of as many bytes as the
/// stored length says, where those are UTF-8.
pub proof fn settings_are_their_first_bytes(
    w: WifiView,
    d: DeviceView,
    a: AutoConnectView,
)
    requires
        w.wf() && w.lengths_fit(),
        d.wf() && d.name_len <= 32,
        a.wf(),
    ensures
        valid_utf8(w.ssid.take(w.ssid_len as int)) ==> encode_utf8(w.ssid_text()) == w.ssid.take(
            w.ssid_len as int,
        ),
        valid_utf8(w.password.take(w.password_len as int)) ==> encode_utf8(w.password_text())
            == w.password.take(w.password_len as int),
        d.name_len == 0 ==> d.name_text() == "espcan-br"@,
        d.name_len > 0 && valid_utf8(d.name.take(d.name_len as int)) ==> encode_utf8(d.name_text())
            == d.name.take(d.name_len as int),
        d.baud_rate() == if d.baud == 0 {
            115_200u32
        } else {
            d.baud
        },
        a.url_len <= 256 && valid_utf8(a.url.take(a.url_len as int)) ==> encode_utf8(a.url_text())
            == a.url.take(a.url_len as int),
        a.url_len > 256 && valid_utf8(a.url) ==> encode_utf8(a.url_text()) == a.url,
        a.dials() <==> a.enable > 0 && a.url_len > 0,
        w.valid() <==> w.magic == 0xC0F1_6001 && w.ssid_len > 0,
        d.valid() <==> d.magic == 0xDE71_CE01 && d.name_len > 0,
        a.valid() <==> a.magic == 0xAC0C_0002,
{
    if valid_utf8(w.ssid.take(w.ssid_len as int)) {
        decode_utf8_encode_utf8(w.ssid.take(w.ssid_len as int));
    }
    if valid_utf8(w.password.take(w.password_len as int)) {
        decode_utf8_encode_utf8(w.password.take(w.password_len as int));
    }
    if valid_utf8(d.name.take(d.name_len as int)) {
        decode_utf8_encode_utf8(d.name.take(d.name_len as int));
    }
    if a.url_len <= 256 {
        assert(cut(a.url, a.url_len as nat) =~= a.url.take(a.url_len as int));
    }
    if valid_utf8(cut(a.url, a.url_len as nat)) {
        decode_utf8_encode_utf8(cut(a.url, a.url_len as nat));
    }
}

} // verus!
