//! Outbound connections: the adapter dials a configured server and bridges SLCAN over
//! the connection, so that it works from behind NAT, optionally over TLS with the
//! server's public key pinned.
//!
//! A [`Dialer`] decides what is done next; connecting, the handshake and the bridge
//! itself are left to the caller, which reports how each of them went.

use crate::autoconnect::state::{
    BAD_CONFIG, CONNECTED, CONNECTING, DISABLED, DNS_FAIL, PIN_MISMATCH, TCP_FAIL, TLS_FAIL,
};
use crate::hex::{bytes_hex, hex_text, hex_val, lemma_hex_digits};
use crate::tls::{certificate_key, certificate_key_is_a_point, key_of, VerifierView};
use crate::text::number;
use crate::url::{
    dotted, dotted_is_unique, every_url_is_accepted, parse_ipv4, parse_pubkey, parse_url,
    parsed_url, pinned_key, query_value, shown_key_can_be_pinned, text_of, url_form,
    url_reads_back, url_text, writable, UrlView,
};
use vstd::prelude::*;
use vstd::utf8::encode_utf8;

pub mod state;

verus! {

/// Reconnect pause (seconds) after a mismatch of the pinned key: long, since it will
/// not mend itself until the configuration or the server changes.
pub const PIN_MISMATCH_BACKOFF_S: u64 = 90;

/// What a status code means.
pub open spec fn state_text(code: u8) -> Seq<char> {
    if code == DISABLED {
        "disabled"@
    } else if code == CONNECTING {
        "connecting"@
    } else if code == CONNECTED {
        "connected"@
    } else if code == DNS_FAIL {
        "DNS lookup failed"@
    } else if code == TCP_FAIL {
        "TCP connect failed"@
    } else if code == TLS_FAIL {
        "TLS failed (cert/handshake)"@
    } else if code == BAD_CONFIG {
        "bad URL or pubkey"@
    } else if code == PIN_MISMATCH {
        "server pubkey mismatch"@
    } else {
        "?"@
    }
}

/// What a status code means, in words.
pub fn state_str(code: u8) -> (r: &'static str)
    ensures
        r@ == state_text(code),
{
    if code == DISABLED {
        "disabled"
    } else if code == CONNECTING {
        "connecting"
    } else if code == CONNECTED {
        "connected"
    } else if code == DNS_FAIL {
        "DNS lookup failed"
    } else if code == TCP_FAIL {
        "TCP connect failed"
    } else if code == TLS_FAIL {
        "TLS failed (cert/handshake)"
    } else if code == BAD_CONFIG {
        "bad URL or pubkey"
    } else if code == PIN_MISMATCH {
        "server pubkey mismatch"
    } else {
        "?"
    }
}

/// A server to dial.
pub struct Target {
    pub tls: bool,
    pub host: String,
    pub port: u16,
    /// The key that the server has to present.
    pub pin: Option<[u8; 65]>,
    /// What the server is sent first.
    pub greeting: Vec<u8>,
}

/// A server to dial, as plain values.
pub struct TargetView {
    pub tls: bool,
    pub host: Seq<char>,
    pub port: nat,
    pub pin: Option<Seq<u8>>,
    pub greeting: Seq<u8>,
}

impl View for Target {
    type V = TargetView;

    open spec fn view(&self) -> TargetView {
        TargetView {
            tls: self.tls,
            host: self.host@,
            port: self.port as nat,
            pin: key_of(self.pin),
            greeting: self.greeting@,
        }
    }
}

/// What names this adapter to the server: `H`, the token and a carriage return, or
/// nothing where there is no token.
pub open spec fn greeting(token: Option<Seq<char>>) -> Seq<u8> {
    match token {
        Some(t) => seq![0x48u8] + encode_utf8(t) + seq![0x0du8],
        None => Seq::empty(),
    }
}

/// The server that a URL names. A key can only be pinned over TLS.
pub open spec fn target_of(url: Seq<char>) -> Option<TargetView> {
    match parsed_url(url) {
        Some(u) => {
            let pin = match u.pubkey {
                Some(hex) => pinned_key(encode_utf8(hex)),
                None => None,
            };
            if u.pubkey is Some && (pin is None || !u.tls) {
                None
            } else {
                Some(
                    TargetView {
                        tls: u.tls,
                        host: u.host,
                        port: u.port,
                        pin,
                        greeting: greeting(u.token),
                    },
                )
            }
        },
        None => None,
    }
}

/// The bytes that name this adapter to the server.
pub fn token_greeting(token: Option<&str>) -> (r: Vec<u8>)
    ensures
        r@ == greeting(text_of(token)),
{
    let mut r: Vec<u8> = Vec::new();
    if let Some(t) = token {
        r.push('H' as u8);
        r.extend_from_slice(t.as_bytes());
        r.push(0x0d);
    }
    assert(r@ =~= greeting(text_of(token)));
    r
}

/// Reads the server to dial from a URL.
pub fn read_target(url: &str) -> (r: Option<Target>)
    ensures
        match r {
            Some(t) => target_of(url@) == Some(t@),
            None => target_of(url@) is None,
        },
{
    let u = match parse_url(url) {
        Some(u) => u,
        None => {
            return None;
        },
    };
    let pin: Option<[u8; 65]> = match u.pubkey {
        Some(hex) => match parse_pubkey(hex) {
            Some(k) => if u.tls {
                Some(k)
            } else {
                return None;
            },
            None => {
                return None;
            },
        },
        None => None,
    };
    let greeting = token_greeting(u.token);
    Some(Target { tls: u.tls, host: u.host.to_string(), port: u.port, pin, greeting })
}

/// The first of the addresses that is an IPv4 address.
pub open spec fn first_address(answers: Seq<Option<[u8; 4]>>) -> Option<[u8; 4]>
    decreases answers.len(),
{
    if answers.len() == 0 {
        None
    } else {
        match answers[0] {
            Some(a) => Some(a),
            None => first_address(answers.skip(1)),
        }
    }
}

/// The first IPv4 address of the answers to a DNS query, where each is given as its
/// IPv4 address, if it is one.
pub fn first_v4(answers: &[Option<[u8; 4]>]) -> (r: Option<[u8; 4]>)
    ensures
        r == first_address(answers@),
{
    let mut i: usize = 0;
    assert(answers@.skip(0) =~= answers@);
    while i < answers.len()
        invariant
            i <= answers@.len(),
            first_address(answers@.skip(i as int)) == first_address(answers@),
        decreases answers@.len() - i,
    {
        assert(answers@.skip(i as int).skip(1) =~= answers@.skip(i + 1));
        if let Some(a) = answers[i] {
            return Some(a);
        }
        i = i + 1;
    }
    None
}

/// The IPv4 address that `host` spells out, if it is one.
pub open spec fn literal(host: Seq<char>) -> Option<Seq<u8>> {
    if exists|a: Seq<u8>| a.len() == 4 && host == #[trigger] dotted(a) {
        Some(choose|a: Seq<u8>| a.len() == 4 && host == #[trigger] dotted(a))
    } else {
        None
    }
}

/// What the dialer is waiting for.
#[derive(Clone, Copy, Debug, PartialEq, Eq, Structural)]
pub enum Phase {
    /// The next round.
    Idle,
    /// The answer to a DNS query.
    Resolving,
    /// The TCP connection.
    Connecting,
    /// The TLS handshake.
    Opening,
    /// The end of the bridge.
    Bridging,
    /// The connection being closed.
    Closing,
}

/// How the last action went.
#[derive(Clone, Copy)]
pub enum Event<'a> {
    /// A new round begins, with this configuration.
    Begin { enabled: bool, wifi_connected: bool, url: &'a str },
    /// The DNS query came back; each answer is given as its IPv4 address, if it is one.
    Answers(Option<&'a [Option<[u8; 4]>]>),
    /// Whether the TCP connection was made.
    Connected(bool),
    /// Whether the TLS handshake passed.
    Opened(bool),
    /// The bridge ended.
    Ended,
    /// The connection is closed.
    Closed,
}

/// What is to be done next.
#[derive(Clone, Copy, Debug, PartialEq, Eq)]
pub enum Action {
    /// Wait so many seconds and begin a new round.
    Pause(u64),
    /// Look up the host.
    Resolve,
    /// Connect to this address, on the target's port.
    Connect([u8; 4]),
    /// Do the TLS handshake, with the target's pin.
    Open,
    /// Send the greeting and run an SLCAN port over the connection.
    Bridge,
    /// Close the connection.
    Close,
}

/// What is to be done next, as plain values.
pub enum ActionView {
    Pause(nat),
    Resolve,
    Connect(Seq<u8>),
    Open,
    Bridge,
    Close,
}

impl View for Action {
    type V = ActionView;

    open spec fn view(&self) -> ActionView {
        match *self {
            Action::Pause(s) => ActionView::Pause(s as nat),
            Action::Resolve => ActionView::Resolve,
            Action::Connect(ip) => ActionView::Connect(ip@),
            Action::Open => ActionView::Open,
            Action::Bridge => ActionView::Bridge,
            Action::Close => ActionView::Close,
        }
    }
}

/// Decides how connections are made and kept up.
pub struct Dialer {
    pub phase: Phase,
    /// The server of the current round.
    pub target: Target,
}

/// The state of a [`Dialer`].
pub struct DialerView {
    pub phase: Phase,
    pub target: TargetView,
}

impl View for Dialer {
    type V = DialerView;

    open spec fn view(&self) -> DialerView {
        DialerView { phase: self.phase, target: self.target@ }
    }
}

/// The outcome of one event.
pub struct Dialed {
    pub dialer: DialerView,
    pub action: ActionView,
    pub status: u8,
    pub clients: u32,
}

/// The pause after a connection, in seconds.
pub open spec fn backoff(status: u8) -> nat {
    if status == PIN_MISMATCH {
        PIN_MISMATCH_BACKOFF_S as nat
    } else {
        3
    }
}

/// Whether the phase waits for this event.
pub open spec fn fits(phase: Phase, event: Event) -> bool {
    match event {
        Event::Begin { .. } => phase == Phase::Idle,
        Event::Answers(_) => phase == Phase::Resolving,
        Event::Connected(_) => phase == Phase::Connecting,
        Event::Opened(_) => phase == Phase::Opening,
        Event::Ended => phase == Phase::Bridging,
        Event::Closed => phase == Phase::Closing,
    }
}

/// Whether there is a connection, which counts as a TCP client.
pub open spec fn linked(phase: Phase) -> bool {
    phase == Phase::Opening || phase == Phase::Bridging || phase == Phase::Closing
}

impl DialerView {
    /// Whether this is a state that the dialer can be in.
    pub open spec fn wf(self) -> bool {
        &&& self.target.pin is Some ==> self.target.tls
        &&& self.phase == Phase::Opening ==> self.target.tls
    }

    /// What an event leads to, with the published status and the number of TCP clients.
    pub open spec fn dialed(self, event: Event, status: u8, clients: u32) -> Dialed {
        let idle = DialerView { phase: Phase::Idle, ..self };
        match event {
            Event::Begin { enabled, wifi_connected, url } => if !enabled {
                Dialed { dialer: idle, action: ActionView::Pause(3), status: DISABLED, clients }
            } else if !wifi_connected {
                Dialed { dialer: idle, action: ActionView::Pause(3), status, clients }
            } else {
                match target_of(url@) {
                    None => Dialed {
                        dialer: idle,
                        action: ActionView::Pause(30),
                        status: BAD_CONFIG,
                        clients,
                    },
                    Some(target) => match literal(target.host) {
                        Some(ip) => Dialed {
                            dialer: DialerView { phase: Phase::Connecting, target },
                            action: ActionView::Connect(ip),
                            status: CONNECTING,
                            clients,
                        },
                        None => Dialed {
                            dialer: DialerView { phase: Phase::Resolving, target },
                            action: ActionView::Resolve,
                            status: CONNECTING,
                            clients,
                        },
                    },
                }
            },
            Event::Answers(answers) => match (match answers {
                Some(a) => first_address(a@),
                None => None,
            }) {
                Some(ip) => Dialed {
                    dialer: DialerView { phase: Phase::Connecting, ..self },
                    action: ActionView::Connect(ip@),
                    status,
                    clients,
                },
                None => Dialed {
                    dialer: idle,
                    action: ActionView::Pause(5),
                    status: DNS_FAIL,
                    clients,
                },
            },
            Event::Connected(connected) => if !connected {
                Dialed { dialer: idle, action: ActionView::Pause(5), status: TCP_FAIL, clients }
            } else if self.target.tls {
                Dialed {
                    dialer: DialerView { phase: Phase::Opening, ..self },
                    action: ActionView::Open,
                    status,
                    clients: ((clients + 1) % 0x1_0000_0000) as u32,
                }
            } else {
                Dialed {
                    dialer: DialerView { phase: Phase::Bridging, ..self },
                    action: ActionView::Bridge,
                    status: CONNECTED,
                    clients: ((clients + 1) % 0x1_0000_0000) as u32,
                }
            },
            Event::Opened(opened) => if opened {
                Dialed {
                    dialer: DialerView { phase: Phase::Bridging, ..self },
                    action: ActionView::Bridge,
                    status: CONNECTED,
                    clients,
                }
            } else {
                Dialed {
                    dialer: DialerView { phase: Phase::Closing, ..self },
                    action: ActionView::Close,
                    status: if status == PIN_MISMATCH {
                        PIN_MISMATCH
                    } else {
                        TLS_FAIL
                    },
                    clients,
                }
            },
            Event::Ended => Dialed {
                dialer: DialerView { phase: Phase::Closing, ..self },
                action: ActionView::Close,
                status,
                clients,
            },
            Event::Closed => Dialed {
                dialer: idle,
                action: ActionView::Pause(backoff(status)),
                status,
                clients: ((clients - 1) % 0x1_0000_0000) as u32,
            },
        }
    }
}

impl Dialer {
    /// A dialer before its first round.
    pub fn new() -> (r: Dialer)
        ensures
            r@ == (DialerView {
                phase: Phase::Idle,
                target: TargetView {
                    tls: false,
                    host: Seq::empty(),
                    port: 0,
                    pin: None,
                    greeting: Seq::empty(),
                },
            }),
            r@.wf(),
    {
        Dialer {
            phase: Phase::Idle,
            target: Target {
                tls: false,
                host: String::new(),
                port: 0,
                pin: None,
                greeting: Vec::new(),
            },
        }
    }

    /// Whether the dialer waits for this event.
    pub fn expects(&self, event: &Event) -> (r: bool)
        ensures
            r == fits(self@.phase, *event),
    {
        match event {
            Event::Begin { .. } => self.phase == Phase::Idle,
            Event::Answers(_) => self.phase == Phase::Resolving,
            Event::Connected(_) => self.phase == Phase::Connecting,
            Event::Opened(_) => self.phase == Phase::Opening,
            Event::Ended => self.phase == Phase::Bridging,
            Event::Closed => self.phase == Phase::Closing,
        }
    }

    /// Takes note of an event and says what is to be done next. `status` is the
    /// published status and `clients` the number of TCP clients.
    pub fn step(&mut self, event: Event, status: &mut u8, clients: &mut u32) -> (action: Action)
        requires
            old(self)@.wf(),
            fits(old(self)@.phase, event),
        ensures
            (Dialed {
                dialer: final(self)@,
                action: action@,
                status: *final(status),
                clients: *final(clients),
            }) == old(self)@.dialed(event, *old(status), *old(clients)),
            final(self)@.wf(),
    {
        match event {
            Event::Begin { enabled, wifi_connected, url } => self.begin(
                enabled,
                wifi_connected,
                url,
                status,
            ),
            Event::Answers(answers) => {
                let ip = match answers {
                    Some(a) => first_v4(a),
                    None => None,
                };
                match ip {
                    Some(ip) => {
                        self.phase = Phase::Connecting;
                        Action::Connect(ip)
                    },
                    None => {
                        self.phase = Phase::Idle;
                        *status = DNS_FAIL;
                        Action::Pause(5)
                    },
                }
            },
            Event::Connected(connected) => {
                if !connected {
                    self.phase = Phase::Idle;
                    *status = TCP_FAIL;
                    Action::Pause(5)
                } else {
                    *clients = clients.wrapping_add(1);
                    if self.target.tls {
                        self.phase = Phase::Opening;
                        Action::Open
                    } else {
                        self.phase = Phase::Bridging;
                        *status = CONNECTED;
                        Action::Bridge
                    }
                }
            },
            Event::Opened(opened) => {
                if opened {
                    self.phase = Phase::Bridging;
                    *status = CONNECTED;
                    Action::Bridge
                } else {
                    self.phase = Phase::Closing;
                    if *status != PIN_MISMATCH {
                        *status = TLS_FAIL;
                    }
                    Action::Close
                }
            },
            Event::Ended => {
                self.phase = Phase::Closing;
                Action::Close
            },
            Event::Closed => {
                self.phase = Phase::Idle;
                *clients = clients.wrapping_sub(1);
                if *status == PIN_MISMATCH {
                    Action::Pause(PIN_MISMATCH_BACKOFF_S)
                } else {
                    Action::Pause(3)
                }
            },
        }
    }

    /// Begins a round.
    fn begin(&mut self, enabled: bool, wifi_connected: bool, url: &str, status: &mut u8) -> (action:
        Action)
        requires
            old(self)@.wf(),
            old(self)@.phase == Phase::Idle,
        ensures
            forall|clients: u32|
                #![auto]
                (Dialed { dialer: final(self)@, action: action@, status: *final(status), clients })
                    == old(self)@.dialed(
                    Event::Begin { enabled, wifi_connected, url },
                    *old(status),
                    clients,
                ),
            final(self)@.wf(),
    {
        if !enabled {
            *status = DISABLED;
            return Action::Pause(3);
        }
        if !wifi_connected {
            return Action::Pause(3);
        }
        let target = match read_target(url) {
            Some(t) => t,
            None => {
                *status = BAD_CONFIG;
                return Action::Pause(30);
            },
        };
        *status = CONNECTING;
        let ip = parse_ipv4(target.host.as_str());
        self.target = target;
        match ip {
            Some(ip) => {
                proof {
                    let host = self.target.host@;
                    let b = choose|a: Seq<u8>| a.len() == 4 && host == #[trigger] dotted(a);
                    assert(ip@.len() == 4 && host == dotted(ip@));
                    dotted_is_unique(ip@, b);
                }
                self.phase = Phase::Connecting;
                Action::Connect(ip)
            },
            None => {
                self.phase = Phase::Resolving;
                Action::Resolve
            },
        }
    }
}

/// A connection counts as one TCP client from when it is made until it is closed.
pub proof fn client_is_counted_while_linked(d: DialerView, event: Event, status: u8, clients: u32)
    requires
        fits(d.phase, event),
    ensures
        ({
            let next = d.dialed(event, status, clients);
            let before: int = if linked(d.phase) {
                1
            } else {
                0
            };
            let after: int = if linked(next.dialer.phase) {
                1
            } else {
                0
            };
            next.clients as int == (clients + after - before) % 0x1_0000_0000
        }),
{
}

/// The key that a server presented is enough to pin it: a URL with that key, as it is
/// shown, is accepted, and the same certificate then matches its pin.
pub proof fn shown_key_pins_its_server(der: Seq<u8>, u: UrlView, v: VerifierView)
    requires
        certificate_key(der) is Some,
        u.tls,
        u.pubkey == Some(hex_text(certificate_key(der).unwrap())),
        writable(UrlView { pubkey: None, ..u }),
    ensures
        ({
            let target = target_of(url_text(u));
            &&& target matches Some(t) && t.tls && t.host == u.host && t.port == u.port && t.pin
                == certificate_key(der) && t.greeting == greeting(u.token)
            &&& v.pin == target.unwrap().pin && v.server_key == certificate_key(der)
                ==> !v.mismatch()
        }),
{
    let key = certificate_key(der).unwrap();
    certificate_key_is_a_point(der);
    shown_key_can_be_pinned(key);
    lemma_hex_digits(key);
    assert forall|i: int| 0 <= i < hex_text(key).len() implies hex_text(key)[i] != '&' by {
        assert(hex_val(bytes_hex(key)[i]) is Some);
    }
    url_reads_back(u);
}

/// How far a round can still go.
pub open spec fn steps_left(phase: Phase) -> nat {
    match phase {
        Phase::Idle => 6,
        Phase::Resolving => 5,
        Phase::Connecting => 4,
        Phase::Opening => 3,
        Phase::Bridging => 2,
        Phase::Closing => 1,
    }
}

/// Every event either ends the round with a pause or brings its end nearer: no action
/// is tried twice without a pause in between.
pub proof fn round_ends_with_a_pause(d: DialerView, event: Event, status: u8, clients: u32)
    requires
        fits(d.phase, event),
    ensures
        ({
            let next = d.dialed(event, status, clients);
            &&& next.action is Pause <==> next.dialer.phase == Phase::Idle
            &&& !(next.action is Pause) ==> steps_left(next.dialer.phase) < steps_left(d.phase)
        }),
{
}

/// A server whose key is pinned is only ever bridged to after a TLS handshake.
pub proof fn pinned_server_is_never_bridged_in_the_clear(
    d: DialerView,
    event: Event,
    status: u8,
    clients: u32,
)
    requires
        d.wf(),
        fits(d.phase, event),
    ensures
        ({
            let next = d.dialed(event, status, clients);
            &&& next.dialer.wf()
            &&& next.action is Bridge && next.dialer.target.pin is Some ==> event
                == Event::Opened(true)
        }),
{
}

/// While a connection is bridged, the published status says so.
pub proof fn bridging_is_published(d: DialerView, event: Event, status: u8, clients: u32)
    requires
        fits(d.phase, event),
    ensures
        ({
            let next = d.dialed(event, status, clients);
            next.dialer.phase == Phase::Bridging ==> next.action is Bridge && next.status
                == CONNECTED
        }),
{
}

/// A handshake that fails over the pinned key keeps its status and is followed by the
/// long pause; one that fails otherwise is followed by the short one.
pub proof fn mismatch_backs_off(d: DialerView, status: u8, clients: u32)
    requires
        d.phase == Phase::Opening,
    ensures
        ({
            let failed = d.dialed(Event::Opened(false), status, clients);
            let closed = failed.dialer.dialed(Event::Closed, failed.status, failed.clients);
            &&& failed.action is Close
            &&& status == PIN_MISMATCH ==> closed.status == PIN_MISMATCH && closed.action
                == ActionView::Pause(90)
            &&& status != PIN_MISMATCH ==> closed.status == TLS_FAIL && closed.action
                == ActionView::Pause(3)
        }),
{
}

// --- Targets ---------------------------------------------------------------

/// The status codes have different names, and every other code has none.
pub proof fn states_are_told_apart(a: u8, b: u8)
    ensures
        a <= 7 && b <= 7 && a != b ==> state_text(a) != state_text(b),
        a > 7 ==> state_text(a) == "?"@,
        a <= 7 ==> state_text(a).len() > 1,
{
    reveal_strlit("disabled");
    reveal_strlit("connecting");
    reveal_strlit("connected");
    reveal_strlit("DNS lookup failed");
    reveal_strlit("TCP connect failed");
    reveal_strlit("TLS failed (cert/handshake)");
    reveal_strlit("bad URL or pubkey");
    reveal_strlit("server pubkey mismatch");
    reveal_strlit("?");
    assert("disabled"@.len() == 8 && "connecting"@.len() == 10 && "connected"@.len() == 9
        && "DNS lookup failed"@.len() == 17 && "TCP connect failed"@.len() == 18
        && "TLS failed (cert/handshake)"@.len() == 27 && "bad URL or pubkey"@.len() == 17
        && "server pubkey mismatch"@.len() == 22 && "?"@.len() == 1);
    assert("DNS lookup failed"@[0] == 'D' && "bad URL or pubkey"@[0] == 'b');
}

/// A token is announced between `H` and a carriage return, and nothing is said without one.
pub proof fn token_is_announced(token: Seq<char>)
    ensures
        greeting(Some(token)).len() == encode_utf8(token).len() + 2,
        greeting(Some(token))[0] == 0x48,
        greeting(Some(token)).subrange(1, 1int + encode_utf8(token).len()) == encode_utf8(token),
        greeting(Some(token)).last() == 0x0d,
        greeting(None).len() == 0,
{
    assert(greeting(Some(token)).subrange(1, 1int + encode_utf8(token).len()) =~= encode_utf8(token));
}

/// Every URL names its server, over TCP or TLS, with a key or without, with a token or
/// without: its scheme, host and port are the URL's, its pin is the key that `pubkey`
/// spells, and it is greeted with the token. Only a `pubkey` that spells no key, or one
/// without TLS, is refused.
pub proof fn every_url_names_its_server(
    tls: bool,
    host: Seq<char>,
    digits: Seq<char>,
    n: nat,
    query: Option<Seq<char>>,
)
    requires
        host.len() > 0,
        !host.contains('?'),
        number(digits, 0xffff) is Some,
    ensures
        ({
            let target = target_of(url_form(tls, host, digits, n, query));
            let hex = query_value(query, "pubkey"@);
            let refused = hex matches Some(h) && (!tls || pinned_key(encode_utf8(h)) is None);
            &&& target is None <==> refused
            &&& target matches Some(t) ==> {
                &&& t.tls == tls
                &&& t.host == host
                &&& Some(t.port) == number(digits, 0xffff)
                &&& hex is None ==> t.pin is None
                &&& hex matches Some(h) ==> t.pin == pinned_key(encode_utf8(h)) && t.pin is Some
                &&& t.greeting == greeting(query_value(query, "token"@))
            }
        }),
{
    every_url_is_accepted(tls, host, digits, n, query);
}

/// A URL in its documented form names its server: see [`every_url_names_its_server`].
pub proof fn written_url_names_its_server(u: UrlView)
    requires
        writable(u),
        u.pubkey matches Some(h) ==> u.tls && pinned_key(encode_utf8(h)) is Some,
    ensures
        target_of(url_text(u)) matches Some(t) && t.tls == u.tls && t.host == u.host && t.port
            == u.port && t.pin == (match u.pubkey {
            Some(h) => pinned_key(encode_utf8(h)),
            None => None,
        }) && match u.token {
            Some(token) => t.greeting.len() == encode_utf8(token).len() + 2 && t.greeting[0] == 0x48
                && t.greeting.subrange(1, 1int + encode_utf8(token).len()) == encode_utf8(token)
                && t.greeting.last() == 0x0d,
            None => t.greeting.len() == 0,
        },
{
    url_reads_back(u);
    if let Some(token) = u.token {
        token_is_announced(token);
    }
}

/// What is no URL names no server.
pub proof fn only_urls_name_servers(url: Seq<char>)
    ensures
        parsed_url(url) is None ==> target_of(url) is None,
        target_of(url) matches Some(t) ==> (t.pin is Some ==> t.tls),
{
}

/// The first answer that is an IPv4 address is taken, and none is only where no answer is
/// one.
pub proof fn first_address_is_taken(answers: Seq<Option<[u8; 4]>>)
    ensures
        first_address(answers) matches Some(a) ==> exists|i: int|
            0 <= i < answers.len() && #[trigger] answers[i] == Some(a) && forall|j: int|
                0 <= j < i ==> #[trigger] answers[j] is None,
        first_address(answers) is None ==> forall|j: int|
            0 <= j < answers.len() ==> #[trigger] answers[j] is None,
    decreases answers.len(),
{
    if answers.len() > 0 && answers[0] is None {
        let rest = answers.skip(1);
        first_address_is_taken(rest);
        if let Some(a) = first_address(answers) {
            let i = choose|i: int|
                0 <= i < rest.len() && #[trigger] rest[i] == Some(a) && forall|j: int|
                    0 <= j < i ==> #[trigger] rest[j] is None;
            assert(answers[i + 1] == Some(a));
            assert forall|j: int| 0 <= j < i + 1 implies #[trigger] answers[j] is None by {
                if j > 0 {
                    assert(rest[j - 1] == answers[j]);
                }
            }
        } else {
            assert forall|j: int| 0 <= j < answers.len() implies #[trigger] answers[j] is None by {
                if j > 0 {
                    assert(rest[j - 1] == answers[j]);
                }
            }
        }
    } else if answers.len() > 0 {
        assert(answers[0] == first_address(answers));
    }
}

/// A host that is an address in dotted form stands for that address.
pub proof fn dotted_host_is_its_address(a: Seq<u8>)
    requires
        a.len() == 4,
    ensures
        literal(dotted(a)) == Some(a),
{
    let host = dotted(a);
    assert(exists|x: Seq<u8>| x.len() == 4 && host == #[trigger] dotted(x));
    let b = choose|x: Seq<u8>| x.len() == 4 && host == #[trigger] dotted(x);
    dotted_is_unique(a, b);
}

// --- Rounds ----------------------------------------------------------------

/// How a round begins. Switched off, it says so and waits three seconds; without WiFi it
/// waits three seconds, and the status stays; a bad URL is published and waited over for
/// thirty. Otherwise the server of the URL is dialed: by its address where the host is one,
/// and else once the host is looked up.
pub proof fn how_a_round_begins(
    d: DialerView,
    enabled: bool,
    wifi_connected: bool,
    url: &str,
    status: u8,
    clients: u32,
)
    ensures
        ({
            let next = d.dialed(Event::Begin { enabled, wifi_connected, url }, status, clients);
            &&& next.clients == clients
            &&& !enabled ==> next.status == 0 && next.action == ActionView::Pause(3)
            &&& enabled && !wifi_connected ==> next.status == status && next.action
                == ActionView::Pause(3)
            &&& enabled && wifi_connected && target_of(url@) is None ==> next.status == 6
                && next.action == ActionView::Pause(30)
            &&& enabled && wifi_connected ==> (target_of(url@) matches Some(t) ==> {
                &&& next.status == 1
                &&& next.dialer.target == t
                &&& literal(t.host) matches Some(ip) ==> next.action == ActionView::Connect(ip)
                    && next.dialer.phase == Phase::Connecting
                &&& literal(t.host) is None ==> next.action is Resolve && next.dialer.phase
                    == Phase::Resolving
            })
        }),
{
}

/// After a look-up, the first IPv4 address is dialed; without one, or where the look-up
/// failed, that is published and waited over for five seconds.
pub proof fn looked_up_host_is_dialed(
    d: DialerView,
    answers: Option<&[Option<[u8; 4]>]>,
    status: u8,
    clients: u32,
)
    ensures
        ({
            let next = d.dialed(Event::Answers(answers), status, clients);
            let ip = match answers {
                Some(a) => first_address(a@),
                None => None,
            };
            &&& next.clients == clients
            &&& ip matches Some(a) ==> next.action == ActionView::Connect(a@) && next.dialer.phase
                == Phase::Connecting && next.dialer.target == d.target && next.status == status
            &&& ip is None ==> next.action == ActionView::Pause(5) && next.status == 3
        }),
{
}

/// A server that cannot be reached is published and waited over for five seconds.
pub proof fn unreachable_server_is_waited_for(d: DialerView, status: u8, clients: u32)
    ensures
        ({
            let next = d.dialed(Event::Connected(false), status, clients);
            &&& next.action == ActionView::Pause(5)
            &&& next.status == 4
            &&& next.clients == clients
            &&& next.dialer.phase == Phase::Idle
        }),
{
}

/// A connection to a server without TLS goes all the way: it is bridged at once, to the
/// server that was dialed, published as connected, closed when the bridge ends, and dialed
/// again after three seconds.
pub proof fn plain_connection_runs_its_course(d: DialerView, status: u8, clients: u32)
    requires
        !d.target.tls,
    ensures
        ({
            let up = d.dialed(Event::Connected(true), status, clients);
            let ended = up.dialer.dialed(Event::Ended, up.status, up.clients);
            let closed = ended.dialer.dialed(Event::Closed, ended.status, ended.clients);
            &&& up.action is Bridge && up.dialer.phase == Phase::Bridging && up.status == 2
            &&& up.dialer.target == d.target
            &&& ended.action is Close && ended.dialer.phase == Phase::Closing && ended.status == 2
            &&& closed.action == ActionView::Pause(3) && closed.dialer.phase == Phase::Idle
            &&& closed.status == 2 && closed.clients == clients
        }),
{
}

/// A connection over TLS goes all the way: the handshake is done with the pin of the server
/// that was dialed, and only then is it bridged and published; the rest is as without TLS.
pub proof fn tls_connection_runs_its_course(d: DialerView, status: u8, clients: u32)
    requires
        d.target.tls,
    ensures
        ({
            let up = d.dialed(Event::Connected(true), status, clients);
            let open = up.dialer.dialed(Event::Opened(true), up.status, up.clients);
            let ended = open.dialer.dialed(Event::Ended, open.status, open.clients);
            let closed = ended.dialer.dialed(Event::Closed, ended.status, ended.clients);
            &&& up.action is Open && up.dialer.phase == Phase::Opening && up.status == status
            &&& up.dialer.target == d.target
            &&& open.action is Bridge && open.dialer.phase == Phase::Bridging && open.status == 2
            &&& open.dialer.target == d.target
            &&& ended.action is Close && ended.dialer.phase == Phase::Closing && ended.status == 2
            &&& closed.action == ActionView::Pause(3) && closed.dialer.phase == Phase::Idle
            &&& closed.status == 2 && closed.clients == clients
        }),
{
}

/// In every phase the dialer waits for the outcome of what it asked for.
pub proof fn dialer_waits_for_the_outcome(d: DialerView, event: Event, status: u8, clients: u32)
    requires
        fits(d.phase, event),
    ensures
        ({
            let next = d.dialed(event, status, clients);
            &&& next.action is Pause ==> fits(
                next.dialer.phase,
                Event::Begin { enabled: true, wifi_connected: true, url: "" },
            )
            &&& next.action is Resolve ==> fits(next.dialer.phase, Event::Answers(None))
            &&& next.action is Connect ==> fits(next.dialer.phase, Event::Connected(true))
                && fits(next.dialer.phase, Event::Connected(false))
            &&& next.action is Open ==> fits(next.dialer.phase, Event::Opened(true)) && fits(
                next.dialer.phase,
                Event::Opened(false),
            )
            &&& next.action is Bridge ==> fits(next.dialer.phase, Event::Ended)
            &&& next.action is Close ==> fits(next.dialer.phase, Event::Closed)
        }),
{
}

/// Only a host in dotted form stands for an address; every other one is looked up.
pub proof fn other_hosts_are_looked_up(host: Seq<char>)
    ensures
        literal(host) matches Some(a) ==> a.len() == 4 && host == dotted(a),
{
    if let Some(a) = literal(host) {
        assert(exists|x: Seq<u8>| x.len() == 4 && host == #[trigger] dotted(x));
    }
}

/// The number of TCP clients goes up by one when a connection is made and down by one when
/// it is closed, whatever becomes of it in between, and stays otherwise.
pub proof fn clients_go_up_and_down(d: DialerView, event: Event, status: u8, clients: u32)
    ensures
        ({
            let next = d.dialed(event, status, clients);
            &&& event == Event::Connected(true) ==> next.clients as int == (clients + 1)
                % 0x1_0000_0000
            &&& event is Closed ==> next.clients as int == (clients - 1) % 0x1_0000_0000
            &&& event != Event::Connected(true) && !(event is Closed) ==> next.clients == clients
        }),
{
}

/// A handshake that fails is closed, over the pinned key with that status and else with the
/// one of a failed handshake; the server stays the one that was dialed.
pub proof fn failed_handshake_is_closed(d: DialerView, status: u8, clients: u32)
    ensures
        ({
            let next = d.dialed(Event::Opened(false), status, clients);
            &&& next.action is Close
            &&& next.dialer.phase == Phase::Closing
            &&& next.dialer.target == d.target
            &&& next.status == if status == 7 {
                7u8
            } else {
                5u8
            }
        }),
{
}

} // verus!
