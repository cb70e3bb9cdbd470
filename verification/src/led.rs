//! The activity LED, a WS2812B.
//!
//! Green tracks inbound (bus to host) frames per second, red tracks outbound ones, so
//! two-way traffic glows yellow; blue shows the state of the connection. Driving the
//! LED is left to the caller, which sends the pulses that are computed here.

use vstd::prelude::*;

verus! {

// --- Brightness ------------------------------------------------------------

/// Per-second frame count that maps to full (capped) brightness.
pub const FRAMES_FOR_FULL: u32 = 50;

/// Maximum per-channel level, capped below 255 to stay eye-friendly and low-current.
pub const MAX_LEVEL: u8 = 64;

/// Floor applied when there is any activity, so a single frame is still visible.
pub const MIN_LEVEL: u8 = 4;

/// The level for a frame count: dark without frames, and else from the floor up to the
/// maximum in proportion to the count.
pub open spec fn level(count: nat) -> nat {
    let l = MIN_LEVEL as nat + count * (MAX_LEVEL - MIN_LEVEL) as nat / FRAMES_FOR_FULL as nat;
    if count == 0 {
        0
    } else if l < MAX_LEVEL {
        l
    } else {
        MAX_LEVEL as nat
    }
}

/// Maps a frame count (over the last second) to a WS2812 channel level.
pub fn level_from_count(count: u32) -> (r: u8)
    ensures
        r == level(count as nat),
{
    if count == 0 {
        return 0;
    }
    let span: u64 = (MAX_LEVEL - MIN_LEVEL) as u64;
    let extra: u64 = count as u64 * span / FRAMES_FOR_FULL as u64;
    if MIN_LEVEL as u64 + extra < MAX_LEVEL as u64 {
        (MIN_LEVEL as u64 + extra) as u8
    } else {
        MAX_LEVEL
    }
}

/// More frames never mean less light; there is light exactly where there are frames,
/// at least the floor and at most the maximum, which fifty frames reach.
pub proof fn brightness_follows_activity(a: nat, b: nat)
    requires
        a <= b,
    ensures
        level(a) <= level(b),
        level(a) == 0 <==> a == 0,
        a > 0 ==> MIN_LEVEL <= level(a) <= MAX_LEVEL,
        level(a) == MAX_LEVEL <==> a >= FRAMES_FOR_FULL,
{
    let span = (MAX_LEVEL - MIN_LEVEL) as nat;
    assert(a * span == 60 * a) by (nonlinear_arith)
        requires
            span == 60,
    ;
    assert(b * span == 60 * b) by (nonlinear_arith)
        requires
            span == 60,
    ;
}

// --- Bit timing ------------------------------------------------------------
// One tick is 12.5 ns, from a source of 80 MHz.

/// Ticks high for a zero bit (0.40 us).
pub const T0H: u16 = 32;

/// Ticks low for a zero bit (0.85 us).
pub const T0L: u16 = 68;

/// Ticks high for a one bit (0.80 us).
pub const T1H: u16 = 64;

/// Ticks low for a one bit (0.45 us).
pub const T1L: u16 = 36;

/// One bit on the wire: so many ticks high, then so many ticks low.
#[derive(Clone, Copy, Debug, PartialEq, Eq, Structural)]
pub struct Pulse {
    pub high: u16,
    pub low: u16,
}

/// The pulse for a bit.
pub open spec fn pulse(one: bool) -> Pulse {
    if one {
        Pulse { high: T1H, low: T1L }
    } else {
        Pulse { high: T0H, low: T0L }
    }
}

/// Whether bit `k` of `b` is set.
pub open spec fn bit_set(b: u8, k: u8) -> bool {
    (b >> k) & 1u8 == 1u8
}

/// The pulses for a byte, highest bit first.
pub open spec fn byte_pulses(b: u8) -> Seq<Pulse> {
    Seq::new(8, |i: int| pulse(bit_set(b, (7 - i) as u8)))
}

/// The pulses for a colour: the LED wants green, red, blue.
pub open spec fn colour_pulses(r: u8, g: u8, b: u8) -> Seq<Pulse> {
    byte_pulses(g) + byte_pulses(r) + byte_pulses(b)
}

fn push_byte(out: &mut Vec<Pulse>, b: u8)
    ensures
        final(out)@ =~= old(out)@ + byte_pulses(b),
{
    let mut i: u8 = 0;
    while i < 8
        invariant
            i <= 8,
            out@ =~= old(out)@ + byte_pulses(b).take(i as int),
        decreases 8 - i,
    {
        let k: u8 = 7 - i;
        let p: Pulse = if (b >> k) & 1 == 1 {
            Pulse { high: T1H, low: T1L }
        } else {
            Pulse { high: T0H, low: T0L }
        };
        assert(p == byte_pulses(b)[i as int]);
        out.push(p);
        i = i + 1;
    }
}

/// The pulses that set the LED to a colour.
pub fn pulses(r: u8, g: u8, b: u8) -> (out: Vec<Pulse>)
    ensures
        out@ == colour_pulses(r, g, b),
        out@.len() == 24,
{
    let mut out: Vec<Pulse> = Vec::new();
    push_byte(&mut out, g);
    push_byte(&mut out, r);
    push_byte(&mut out, b);
    assert(out@ =~= colour_pulses(r, g, b));
    out
}

proof fn lemma_byte_pulses(a: u8, b: u8)
    requires
        byte_pulses(a) == byte_pulses(b),
    ensures
        a == b,
{
    assert forall|k: u8| 0 <= k < 8 implies #[trigger] bit_set(a, k) == bit_set(b, k) by {
        assert((7 - (7 - k)) as u8 == k);
        assert(byte_pulses(a)[7 - k] == pulse(bit_set(a, k)));
        assert(byte_pulses(b)[7 - k] == pulse(bit_set(b, k)));
    }
    assert(bit_set(a, 0) == bit_set(b, 0) && bit_set(a, 1) == bit_set(b, 1) && bit_set(a, 2)
        == bit_set(b, 2) && bit_set(a, 3) == bit_set(b, 3) && bit_set(a, 4) == bit_set(b, 4)
        && bit_set(a, 5) == bit_set(b, 5) && bit_set(a, 6) == bit_set(b, 6) && bit_set(a, 7)
        == bit_set(b, 7));
    assert(a == b) by (bit_vector)
        requires
            ((a >> 0u8) & 1u8 == 1u8) == ((b >> 0u8) & 1u8 == 1u8),
            ((a >> 1u8) & 1u8 == 1u8) == ((b >> 1u8) & 1u8 == 1u8),
            ((a >> 2u8) & 1u8 == 1u8) == ((b >> 2u8) & 1u8 == 1u8),
            ((a >> 3u8) & 1u8 == 1u8) == ((b >> 3u8) & 1u8 == 1u8),
            ((a >> 4u8) & 1u8 == 1u8) == ((b >> 4u8) & 1u8 == 1u8),
            ((a >> 5u8) & 1u8 == 1u8) == ((b >> 5u8) & 1u8 == 1u8),
            ((a >> 6u8) & 1u8 == 1u8) == ((b >> 6u8) & 1u8 == 1u8),
            ((a >> 7u8) & 1u8 == 1u8) == ((b >> 7u8) & 1u8 == 1u8),
    ;
}

/// Different colours are sent as different pulses.
pub proof fn pulses_tell_colours_apart(r: u8, g: u8, b: u8, r2: u8, g2: u8, b2: u8)
    requires
        colour_pulses(r, g, b) == colour_pulses(r2, g2, b2),
    ensures
        r == r2 && g == g2 && b == b2,
{
    let (p, q) = (colour_pulses(r, g, b), colour_pulses(r2, g2, b2));
    assert(p.subrange(0, 8) =~= byte_pulses(g) && q.subrange(0, 8) =~= byte_pulses(g2));
    assert(p.subrange(8, 16) =~= byte_pulses(r) && q.subrange(8, 16) =~= byte_pulses(r2));
    assert(p.subrange(16, 24) =~= byte_pulses(b) && q.subrange(16, 24) =~= byte_pulses(b2));
    lemma_byte_pulses(g, g2);
    lemma_byte_pulses(r, r2);
    lemma_byte_pulses(b, b2);
}

/// One code of a transmission.
#[derive(Clone, Copy, Debug, PartialEq, Eq, Structural)]
pub enum Code {
    /// A data bit.
    Bit(Pulse),
    /// The end of the transmission.
    End,
}

/// A whole transmission: a code for each pulse, and the end marker.
pub open spec fn transmission(r: u8, g: u8, b: u8) -> Seq<Code> {
    colour_pulses(r, g, b).map_values(|p: Pulse| Code::Bit(p)).push(Code::End)
}

/// The codes of the transmission that sets the LED to a colour.
pub fn codes(r: u8, g: u8, b: u8) -> (out: Vec<Code>)
    ensures
        out@ == transmission(r, g, b),
        out@.len() == 25,
{
    let bits = pulses(r, g, b);
    let mut out: Vec<Code> = Vec::new();
    let mut i: usize = 0;
    while i < bits.len()
        invariant
            i <= bits@.len(),
            out@ =~= bits@.take(i as int).map_values(|p: Pulse| Code::Bit(p)),
        decreases bits@.len() - i,
    {
        out.push(Code::Bit(bits[i]));
        i = i + 1;
    }
    assert(bits@.take(i as int) =~= bits@);
    out.push(Code::End);
    out
}

/// How a transmission on the channel `C` went. The channel comes back in any case.
pub enum Sent<C> {
    /// It was sent.
    Done(C),
    /// It was begun and failed.
    Failed(C),
    /// It was refused.
    Refused(C),
}

impl<C> Sent<C> {
    /// The channel.
    pub open spec fn channel(self) -> C {
        match self {
            Sent::Done(c) => c,
            Sent::Failed(c) => c,
            Sent::Refused(c) => c,
        }
    }
}

/// The LED on its channel `C`, which it lends out for a transmission.
pub struct ActivityLed<C> {
    pub ch: Option<C>,
}

impl<C> ActivityLed<C> {
    /// The LED while its channel is lent out.
    pub open spec fn lent(self) -> ActivityLed<C> {
        ActivityLed { ch: None }
    }

    /// The LED once its channel came back.
    pub open spec fn returned(self, result: Sent<C>) -> ActivityLed<C> {
        ActivityLed { ch: Some(result.channel()) }
    }

    /// The LED after colours were set one by one, where the transmissions went like this.
    pub open spec fn after(self, results: Seq<Sent<C>>) -> ActivityLed<C>
        decreases results.len(),
    {
        if results.len() == 0 {
            self
        } else {
            self.after(results.drop_last()).lent().returned(results.last())
        }
    }

    /// The LED on this channel.
    pub fn new(ch: C) -> (r: ActivityLed<C>)
        ensures
            r.ch == Some(ch),
    {
        ActivityLed { ch: Some(ch) }
    }

    /// Begins to set the colour: what to send, and the channel to send it on, which has to
    /// be given back to [`ActivityLed::sent`]. There is nothing to do while it is lent out.
    pub fn set_rgb(&mut self, r: u8, g: u8, b: u8) -> (send: Option<(C, Vec<Code>)>)
        ensures
            *final(self) == old(self).lent(),
            match send {
                Some((ch, out)) => old(self).ch == Some(ch) && out@ == transmission(r, g, b),
                None => old(self).ch is None,
            },
    {
        match self.ch.take() {
            Some(ch) => Some((ch, codes(r, g, b))),
            None => None,
        }
    }

    /// Takes the channel back, however the transmission went.
    pub fn sent(&mut self, result: Sent<C>)
        ensures
            *final(self) == old(self).returned(result),
    {
        self.ch =
        Some(
            match result {
                Sent::Done(c) => c,
                Sent::Failed(c) => c,
                Sent::Refused(c) => c,
            },
        );
    }
}

/// The LED keeps its channel whatever becomes of the transmissions, so that the next
/// colour is sent again.
pub proof fn channel_survives_failures<C>(led: ActivityLed<C>, ch: C, results: Seq<Sent<C>>)
    requires
        led.ch == Some(ch),
        forall|i: int| 0 <= i < results.len() ==> (#[trigger] results[i]).channel() == ch,
    ensures
        led.after(results).ch == Some(ch),
{
    if results.len() > 0 {
        assert(results[results.len() - 1].channel() == ch);
    }
}

/// A transmission is the bits of green, then red, then blue, each from the top bit down,
/// and then the end marker.
pub proof fn transmission_has_every_bit(r: u8, g: u8, b: u8, i: int)
    requires
        0 <= i < 25,
    ensures
        transmission(r, g, b).len() == 25,
        transmission(r, g, b)[i] == if i < 8 {
            Code::Bit(pulse(bit_set(g, (7 - i) as u8)))
        } else if i < 16 {
            Code::Bit(pulse(bit_set(r, (15 - i) as u8)))
        } else if i < 24 {
            Code::Bit(pulse(bit_set(b, (23 - i) as u8)))
        } else {
            Code::End
        },
        pulse(true) == (Pulse { high: 64, low: 36 }),
        pulse(false) == (Pulse { high: 32, low: 68 }),
{
}

// --- Activity window -------------------------------------------------------

/// How often the LED is updated, in milliseconds.
pub const LED_TICK_MS: u64 = 100;

/// How many ticks the activity window is long: one second.
pub const LED_BUCKETS: usize = 10;

/// Blue status level.
pub const STATUS_BLUE: u8 = 10;

/// A colour.
#[derive(Clone, Copy, Debug, PartialEq, Eq, Structural)]
pub struct Rgb {
    pub r: u8,
    pub g: u8,
    pub b: u8,
}

/// The difference of two counters that wrap around.
pub open spec fn counted(now: u32, before: u32) -> u32 {
    ((now - before) % 0x1_0000_0000) as u32
}

/// The sum of `s`.
pub open spec fn total(s: Seq<u32>) -> nat
    decreases s.len(),
{
    if s.len() == 0 {
        0
    } else {
        total(s.drop_last()) + s.last() as nat
    }
}

/// The frames of the last second on one channel, by tick.
pub struct Window {
    pub buckets: [u32; LED_BUCKETS],
    pub last: u32,
}

/// The contents of a [`Window`].
pub struct WindowView {
    pub buckets: Seq<u32>,
    pub last: u32,
}

impl View for Window {
    type V = WindowView;

    open spec fn view(&self) -> WindowView {
        WindowView { buckets: self.buckets@, last: self.last }
    }
}

impl WindowView {
    /// No frames yet.
    pub open spec fn fresh() -> WindowView {
        WindowView { buckets: Seq::new(LED_BUCKETS as nat, |i: int| 0u32), last: 0 }
    }

    /// The window after a tick, at which the counter stands at `count`.
    pub open spec fn ticked(self, idx: int, count: u32) -> WindowView {
        WindowView { buckets: self.buckets.update(idx, counted(count, self.last)), last: count }
    }

    /// The frames in the window.
    pub open spec fn frames(self) -> nat {
        total(self.buckets) % 0x1_0000_0000
    }
}

impl Window {
    /// No frames yet.
    pub fn new() -> (r: Window)
        ensures
            r@ == WindowView::fresh(),
    {
        let r = Window { buckets: [0u32;LED_BUCKETS], last: 0 };
        assert(r.buckets@ =~= WindowView::fresh().buckets);
        r
    }

    /// Takes note of the counter at a tick, and says how many frames there were in the
    /// last second.
    pub fn tick(&mut self, idx: usize, count: u32) -> (r: u32)
        requires
            idx < LED_BUCKETS,
        ensures
            final(self)@ == old(self)@.ticked(idx as int, count),
            r == final(self)@.frames(),
    {
        self.buckets[idx] = count.wrapping_sub(self.last);
        self.last = count;
        let mut sum: u32 = 0;
        let mut i: usize = 0;
        assert(self.buckets@.take(0) =~= Seq::empty());
        while i < LED_BUCKETS
            invariant
                i <= LED_BUCKETS,
                sum == total(self.buckets@.take(i as int)) % 0x1_0000_0000,
            decreases LED_BUCKETS - i,
        {
            assert(self.buckets@.take(i + 1).drop_last() =~= self.buckets@.take(i as int));
            sum = sum.wrapping_add(self.buckets[i]);
            i = i + 1;
        }
        assert(self.buckets@.take(i as int) =~= self.buckets@);
        sum
    }
}

/// The blue level at a tick of the cycle. With a TCP client it is on but for the first
/// tick; else, where WiFi is up, it is on at the first tick only; else it is off.
pub open spec fn blue(idx: int, tcp_connected: bool, wifi_ready: bool) -> u8 {
    if tcp_connected {
        if idx == 0 {
            0
        } else {
            STATUS_BLUE
        }
    } else if wifi_ready {
        if idx == 0 {
            STATUS_BLUE
        } else {
            0
        }
    } else {
        0
    }
}

/// What the LED shows, tick by tick.
pub struct Activity {
    pub rx: Window,
    pub tx: Window,
    pub idx: usize,
}

/// The contents of an [`Activity`].
pub struct ActivityView {
    pub rx: WindowView,
    pub tx: WindowView,
    pub idx: int,
}

impl ActivityView {
    /// No frames yet.
    pub open spec fn fresh() -> ActivityView {
        ActivityView { rx: WindowView::fresh(), tx: WindowView::fresh(), idx: 0 }
    }

    /// After a tick, at which the counters stand like this.
    pub open spec fn ticked(self, rx: u32, tx: u32) -> ActivityView {
        ActivityView {
            rx: self.rx.ticked(self.idx, rx),
            tx: self.tx.ticked(self.idx, tx),
            idx: (self.idx + 1) % LED_BUCKETS as int,
        }
    }

    /// The colour at a tick, after which the state is this: green for frames from the bus,
    /// red for frames to it, and blue for the connection.
    pub open spec fn colour(self, idx: int, tcp_connected: bool, wifi_ready: bool) -> Rgb {
        Rgb {
            r: level(self.tx.frames()) as u8,
            g: level(self.rx.frames()) as u8,
            b: blue(idx, tcp_connected, wifi_ready),
        }
    }
}

impl View for Activity {
    type V = ActivityView;

    open spec fn view(&self) -> ActivityView {
        ActivityView { rx: self.rx@, tx: self.tx@, idx: self.idx as int }
    }
}

impl Activity {
    /// Whether this is a state that the LED can be in.
    pub open spec fn wf(self) -> bool {
        self.idx < LED_BUCKETS
    }

    /// No frames yet.
    pub fn new() -> (r: Activity)
        ensures
            r.wf(),
            r@ == ActivityView::fresh(),
            r.rx@ == WindowView::fresh(),
            r.tx@ == WindowView::fresh(),
            r.idx == 0,
    {
        Activity { rx: Window::new(), tx: Window::new(), idx: 0 }
    }

    /// Takes note of the counters at a tick, and says which colour to show.
    pub fn tick(&mut self, rx: u32, tx: u32, tcp_clients: u32, wifi_ready: bool) -> (c: Rgb)
        requires
            old(self).wf(),
        ensures
            final(self).wf(),
            final(self)@ == old(self)@.ticked(rx, tx),
            final(self).rx@ == old(self).rx@.ticked(old(self).idx as int, rx),
            final(self).tx@ == old(self).tx@.ticked(old(self).idx as int, tx),
            final(self).idx == (old(self).idx + 1) % LED_BUCKETS as int,
            c == final(self)@.colour(old(self).idx as int, tcp_clients > 0, wifi_ready),
            c.g == level(final(self).rx@.frames()),
            c.r == level(final(self).tx@.frames()),
            c.b == blue(old(self).idx as int, tcp_clients > 0, wifi_ready),
    {
        let idx: usize = self.idx;
        let g: u8 = level_from_count(self.rx.tick(idx, rx));
        let r: u8 = level_from_count(self.tx.tick(idx, tx));
        let b: u8 = if tcp_clients > 0 {
            if idx == 0 {
                0
            } else {
                STATUS_BLUE
            }
        } else if wifi_ready {
            if idx == 0 {
                STATUS_BLUE
            } else {
                0
            }
        } else {
            0
        };
        self.idx = (idx + 1) % LED_BUCKETS;
        Rgb { r, g, b }
    }
}

/// The window after ticks at which the counter stood at `counts`.
pub open spec fn window_after(counts: Seq<u32>) -> WindowView
    decreases counts.len(),
{
    if counts.len() == 0 {
        WindowView::fresh()
    } else {
        window_after(counts.drop_last()).ticked(
            (counts.len() - 1) % LED_BUCKETS as int,
            counts.last(),
        )
    }
}

/// Where the counter stood before tick `k`.
pub open spec fn count_before(counts: Seq<u32>, k: int) -> u32 {
    if k <= 0 {
        0
    } else {
        counts[k - 1]
    }
}

/// How many frames tick `k` found.
spec fn found_at(counts: Seq<u32>, k: int) -> u32 {
    counted(count_before(counts, k + 1), count_before(counts, k))
}

proof fn lemma_total_update(s: Seq<u32>, i: int, v: u32)
    requires
        0 <= i < s.len(),
    ensures
        total(s.update(i, v)) + s[i] == total(s) + v,
    decreases s.len(),
{
    if i == s.len() - 1 {
        assert(s.update(i, v).drop_last() =~= s.drop_last());
    } else {
        lemma_total_update(s.drop_last(), i, v);
        assert(s.update(i, v).drop_last() =~= s.drop_last().update(i, v));
    }
}

proof fn lemma_total_zero(n: nat)
    ensures
        total(Seq::new(n, |i: int| 0u32)) == 0,
    decreases n,
{
    if n > 0 {
        lemma_total_zero((n - 1) as nat);
        assert(Seq::new(n, |i: int| 0u32).drop_last() =~= Seq::new((n - 1) as nat, |i: int| 0u32));
    }
}

proof fn lemma_window(counts: Seq<u32>)
    ensures
        ({
            let w = window_after(counts);
            let n = counts.len() as int;
            &&& w.buckets.len() == LED_BUCKETS
            &&& w.last == count_before(counts, n)
            &&& forall|i: int|
                0 <= i < LED_BUCKETS && n <= i ==> #[trigger] w.buckets[i] == 0
            &&& forall|k: int|
                0 <= k < n && n - LED_BUCKETS as int <= k ==> w.buckets[k % LED_BUCKETS as int]
                    == #[trigger] found_at(counts, k)
        }),
    decreases counts.len(),
{
    let n = counts.len() as int;
    if n > 0 {
        let front = counts.drop_last();
        lemma_window(front);
        let w = window_after(counts);
        assert forall|k: int|
            0 <= k < n && n - LED_BUCKETS as int <= k implies w.buckets[k % LED_BUCKETS as int]
            == #[trigger] found_at(counts, k) by {
            if k < n - 1 {
                assert(found_at(front, k) == found_at(counts, k));
                assert(k % 10 != (n - 1) % 10);
            } else {
                assert(count_before(front, n - 1) == count_before(counts, n - 1));
            }
        }
    }
}

proof fn lemma_telescope(sum: int, next: int, was: int, delta: int, a: int, b: int, c: int, d: int)
    requires
        next + was == sum + delta,
        sum % 0x1_0000_0000 == (c - a) % 0x1_0000_0000,
        was == (b - a) % 0x1_0000_0000,
        delta == (d - c) % 0x1_0000_0000,
    ensures
        next % 0x1_0000_0000 == (d - b) % 0x1_0000_0000,
{
}

/// What the window counts is how far the counter came in its last ten ticks, however
/// often the counter wrapped around.
pub proof fn window_counts_the_last_second(counts: Seq<u32>)
    ensures
        window_after(counts).frames() == counted(
            count_before(counts, counts.len() as int),
            count_before(counts, counts.len() - LED_BUCKETS as int),
        ),
    decreases counts.len(),
{
    let n = counts.len() as int;
    if n == 0 {
        lemma_total_zero(10);
    } else {
        let front = counts.drop_last();
        window_counts_the_last_second(front);
        lemma_window(front);
        let w = window_after(front);
        let at = (n - 1) % 10;
        lemma_total_update(w.buckets, at, counted(counts.last(), w.last));
        assert(count_before(front, n - 1) == count_before(counts, n - 1));
        assert(count_before(front, n - 1 - 10) == count_before(counts, n - 1 - 10));
        assert(count_before(front, n - 10) == count_before(counts, n - 10));
        let oldest = count_before(counts, n - 1 - 10);
        assert(w.buckets[at] == counted(count_before(counts, n - 10), oldest)) by {
            if n - 1 < 10 {
                assert(at == n - 1);
            } else {
                let k = n - 1 - 10;
                assert(k % 10 == at);
                assert(w.buckets[k % 10] == found_at(front, k));
            }
        }
        lemma_telescope(
            total(w.buckets) as int,
            total(window_after(counts).buckets) as int,
            w.buckets[at] as int,
            counted(counts.last(), w.last) as int,
            oldest as int,
            count_before(counts, n - 10) as int,
            count_before(counts, n - 1) as int,
            counts.last() as int,
        );
    }
}

/// Ten ticks after the last frame the light is out.
pub proof fn idle_bus_is_dark(counts: Seq<u32>)
    requires
        count_before(counts, counts.len() as int) == count_before(
            counts,
            counts.len() - LED_BUCKETS as int,
        ),
    ensures
        level(window_after(counts).frames()) == 0,
{
    window_counts_the_last_second(counts);
}

/// Between one frame and fifty, light grows in proportion from the level 4 to the level 64:
/// the level is as high as the share of fifty frames allows.
pub proof fn brightness_is_proportional(count: nat)
    requires
        0 < count <= 50,
    ensures
        (level(count) - 4) * 50 <= 60 * count < (level(count) - 3) * 50,
{
    let span = (MAX_LEVEL - MIN_LEVEL) as nat;
    assert(count * span == 60 * count) by (nonlinear_arith)
        requires
            span == 60,
    ;
}

/// A difference of counters is what was counted in between, also where they wrapped around.
pub proof fn difference_is_what_was_counted(before: u32, n: u32)
    ensures
        counted(((before + n) % 0x1_0000_0000) as u32, before) == n,
{
}

/// The bits of a byte make up its value.
pub proof fn bits_make_up_the_byte(b: u8)
    ensures
        b == (if bit_set(b, 0) {
            1int
        } else {
            0
        }) + (if bit_set(b, 1) {
            2int
        } else {
            0
        }) + (if bit_set(b, 2) {
            4int
        } else {
            0
        }) + (if bit_set(b, 3) {
            8int
        } else {
            0
        }) + (if bit_set(b, 4) {
            16int
        } else {
            0
        }) + (if bit_set(b, 5) {
            32int
        } else {
            0
        }) + (if bit_set(b, 6) {
            64int
        } else {
            0
        }) + (if bit_set(b, 7) {
            128int
        } else {
            0
        }),
{
    assert(b == (b & 1) + 2 * ((b >> 1) & 1) + 4 * ((b >> 2) & 1) + 8 * ((b >> 3) & 1) + 16 * ((b
        >> 4) & 1) + 32 * ((b >> 5) & 1) + 64 * ((b >> 6) & 1) + 128 * ((b >> 7) & 1)
        && (b >> 0) & 1 == b & 1 && b & 1 <= 1 && (b >> 1) & 1 <= 1 && (b >> 2) & 1 <= 1 && (b >> 3)
        & 1 <= 1 && (b >> 4) & 1 <= 1 && (b >> 5) & 1 <= 1 && (b >> 6) & 1 <= 1 && (b >> 7) & 1
        <= 1) by (bit_vector);
}

/// The status light over one cycle of ten ticks: with a TCP client it is dark at the first
/// tick alone, with WiFi and no client it is lit at the first tick alone, and else it is
/// dark. Lit, it has the level 10.
pub proof fn status_light(idx: int, wifi_ready: bool)
    requires
        0 <= idx < 10,
    ensures
        blue(idx, true, wifi_ready) == 0 <==> idx == 0,
        blue(idx, false, true) > 0 <==> idx == 0,
        blue(idx, false, false) == 0,
        blue(idx, true, wifi_ready) == 0 || blue(idx, true, wifi_ready) == 10,
        blue(idx, false, true) == 0 || blue(idx, false, true) == 10,
{
}

/// The state after ticks at which the counters stood like this.
pub open spec fn activity_after(rx: Seq<u32>, tx: Seq<u32>) -> ActivityView
    decreases rx.len(),
{
    if rx.len() == 0 {
        ActivityView::fresh()
    } else {
        activity_after(rx.drop_last(), tx.drop_last()).ticked(rx.last(), tx.last())
    }
}

/// The light follows the traffic of the last second: green the frames that were received
/// from the bus in the last ten ticks, red those that were sent to it, however often the
/// counters wrapped around. The blue cycle has ten ticks.
pub proof fn light_follows_the_last_second(
    rx: Seq<u32>,
    tx: Seq<u32>,
    idx: int,
    tcp_connected: bool,
    wifi_ready: bool,
)
    requires
        rx.len() == tx.len(),
    ensures
        ({
            let n = rx.len() as int;
            let a = activity_after(rx, tx);
            let c = a.colour(idx, tcp_connected, wifi_ready);
            &&& a.idx == n % 10
            &&& c.g == level(counted(count_before(rx, n), count_before(rx, n - 10)) as nat)
            &&& c.r == level(counted(count_before(tx, n), count_before(tx, n - 10)) as nat)
            &&& c.b == blue(idx, tcp_connected, wifi_ready)
        }),
{
    lemma_activity(rx, tx);
    window_counts_the_last_second(rx);
    window_counts_the_last_second(tx);
    let n = rx.len() as int;
    let (f, g) = (window_after(rx).frames(), window_after(tx).frames());
    brightness_follows_activity(f, f);
    brightness_follows_activity(g, g);
}

proof fn lemma_activity(rx: Seq<u32>, tx: Seq<u32>)
    requires
        rx.len() == tx.len(),
    ensures
        activity_after(rx, tx) == (ActivityView {
            rx: window_after(rx),
            tx: window_after(tx),
            idx: rx.len() as int % 10,
        }),
    decreases rx.len(),
{
    if rx.len() > 0 {
        lemma_activity(rx.drop_last(), tx.drop_last());
        let n = rx.len() as int;
        assert(((n - 1) % 10 + 1) % 10 == n % 10);
    }
}

/// Ten ticks make a second, and the levels are those of the LED.
pub proof fn ticks_make_a_second()
    ensures
        LED_TICK_MS * LED_BUCKETS == 1000,
        LED_BUCKETS == 10,
        MAX_LEVEL == 64,
        MIN_LEVEL == 4,
        FRAMES_FOR_FULL == 50,
{
}

} // verus!
