//! The shared CAN (TWAI) controller, seen from its users.
//!
//! A single [`CanManager`] decides when the controller is on the bus, at which
//! bitrate, and what may be sent. The controller is on-bus while any transport has
//! its port open. Starting, stopping and driving the hardware is left to the
//! caller, who is told what to do and reports back what happened.

use crate::slcan::{zeros, CanFrame, FrameView};
use vstd::prelude::*;

verus! {

/// Cumulative frame counters; they wrap around.
///
/// `can_rx` counts frames received from the bus and `can_tx` frames transmitted
/// to it. `*_in` counts frames that a host sent, `*_out` bus frames forwarded to
/// a host.
#[derive(Clone, Copy)]
pub struct Counters {
    pub can_rx: u32,
    pub can_tx: u32,
    pub ser_in: u32,
    pub ser_out: u32,
    pub tcp_in: u32,
    pub tcp_out: u32,
}

impl Counters {
    /// All counters at zero.
    pub fn new() -> (r: Counters)
        ensures
            r == (Counters {
                can_rx: 0,
                can_tx: 0,
                ser_in: 0,
                ser_out: 0,
                tcp_in: 0,
                tcp_out: 0,
            }),
    {
        Counters { can_rx: 0, can_tx: 0, ser_in: 0, ser_out: 0, tcp_in: 0, tcp_out: 0 }
    }
}

/// One more than `n`, wrapping around.
pub open spec fn bump(n: u32) -> u32 {
    if n == u32::MAX {
        0
    } else {
        (n + 1) as u32
    }
}

/// `counters` after a frame was received from the bus, or none.
pub open spec fn counted_rx(counters: Counters, received: bool) -> Counters {
    if received {
        Counters { can_rx: bump(counters.can_rx), ..counters }
    } else {
        counters
    }
}

/// `counters` after a frame was sent to the bus, or not.
pub open spec fn counted_tx(counters: Counters, sent: bool) -> Counters {
    if sent {
        Counters { can_tx: bump(counters.can_tx), ..counters }
    } else {
        counters
    }
}

/// Bit timing of the controller, in quanta of its 80 MHz source clock divided
/// by the prescaler.
#[derive(Clone, Copy)]
pub struct TimingConfig {
    pub baud_rate_prescaler: u16,
    pub sync_jump_width: u8,
    pub tseg_1: u8,
    pub tseg_2: u8,
    pub triple_sample: bool,
}

/// A bitrate: one of the controller's own, or a custom timing.
#[derive(Clone, Copy)]
pub enum BaudRate {
    B125K,
    B250K,
    B500K,
    B1000K,
    Custom(TimingConfig),
}

/// The source clock of the controller, in Hz.
pub const TWAI_CLOCK: u32 = 80_000_000;

/// Default bitrate if a port opens without setting `Sn` first (S6 = 500 kbit).
pub const DEFAULT_BAUD: BaudRate = BaudRate::B500K;

impl BaudRate {
    /// Bits per second on the wire.
    pub open spec fn bits_per_second(self) -> int {
        match self {
            BaudRate::B125K => 125_000,
            BaudRate::B250K => 250_000,
            BaudRate::B500K => 500_000,
            BaudRate::B1000K => 1_000_000,
            BaudRate::Custom(t) => TWAI_CLOCK as int / (t.baud_rate_prescaler * (1 + t.tseg_1
                + t.tseg_2)),
        }
    }
}

/// A custom timing without triple sampling.
pub open spec fn timing(prescaler: u16, tseg_1: u8, tseg_2: u8) -> BaudRate {
    BaudRate::Custom(
        TimingConfig {
            baud_rate_prescaler: prescaler,
            sync_jump_width: 3,
            tseg_1,
            tseg_2,
            triple_sample: false,
        },
    )
}

/// The bitrate that the digit of an `Sn` command selects.
pub open spec fn baud_of(digit: u8) -> Option<BaudRate> {
    if digit == '2' as u8 {
        Some(timing(80, 15, 4))
    } else if digit == '3' as u8 {
        Some(timing(40, 15, 4))
    } else if digit == '4' as u8 {
        Some(BaudRate::B125K)
    } else if digit == '5' as u8 {
        Some(BaudRate::B250K)
    } else if digit == '6' as u8 {
        Some(BaudRate::B500K)
    } else if digit == '7' as u8 {
        Some(timing(4, 16, 8))
    } else if digit == '8' as u8 {
        Some(BaudRate::B1000K)
    } else {
        None
    }
}

/// The rate, in bits per second, that the Lawicel protocol gives an `Sn` digit.
pub open spec fn lawicel_rate(digit: u8) -> int {
    if digit == '0' as u8 {
        10_000
    } else if digit == '1' as u8 {
        20_000
    } else if digit == '2' as u8 {
        50_000
    } else if digit == '3' as u8 {
        100_000
    } else if digit == '4' as u8 {
        125_000
    } else if digit == '5' as u8 {
        250_000
    } else if digit == '6' as u8 {
        500_000
    } else if digit == '7' as u8 {
        800_000
    } else {
        1_000_000
    }
}

/// SLCAN `Sn` digit to bitrate. S0 and S1 need a prescaler that the controller
/// does not have, and are refused like anything that is no digit of the table.
pub fn baud_from_s(digit: u8) -> (r: Option<BaudRate>)
    ensures
        r == baud_of(digit),
        r is Some <==> '2' as u8 <= digit <= '8' as u8,
{
    if digit == '2' as u8 {
        Some(
            BaudRate::Custom(
                TimingConfig {
                    baud_rate_prescaler: 80,
                    sync_jump_width: 3,
                    tseg_1: 15,
                    tseg_2: 4,
                    triple_sample: false,
                },
            ),
        )
    } else if digit == '3' as u8 {
        Some(
            BaudRate::Custom(
                TimingConfig {
                    baud_rate_prescaler: 40,
                    sync_jump_width: 3,
                    tseg_1: 15,
                    tseg_2: 4,
                    triple_sample: false,
                },
            ),
        )
    } else if digit == '4' as u8 {
        Some(BaudRate::B125K)
    } else if digit == '5' as u8 {
        Some(BaudRate::B250K)
    } else if digit == '6' as u8 {
        Some(BaudRate::B500K)
    } else if digit == '7' as u8 {
        Some(
            BaudRate::Custom(
                TimingConfig {
                    baud_rate_prescaler: 4,
                    sync_jump_width: 3,
                    tseg_1: 16,
                    tseg_2: 8,
                    triple_sample: false,
                },
            ),
        )
    } else if digit == '8' as u8 {
        Some(BaudRate::B1000K)
    } else {
        None
    }
}

/// Every bitrate that can be selected runs the bus at the rate that the protocol
/// names for its digit.
pub proof fn bitrate_matches_table(digit: u8)
    requires
        baud_of(digit) is Some,
    ensures
        baud_of(digit).unwrap().bits_per_second() == lawicel_rate(digit),
{
    match baud_of(digit).unwrap() {
        BaudRate::Custom(t) => {
            let quanta = 1 + t.tseg_1 + t.tseg_2;
            let cycles = t.baud_rate_prescaler * quanta;
            assert(cycles * lawicel_rate(digit) == TWAI_CLOCK && cycles > 0) by (nonlinear_arith)
                requires
                    cycles == t.baud_rate_prescaler * quanta,
                    ({
                        ||| t.baud_rate_prescaler == 80 && quanta == 20 && lawicel_rate(digit)
                            == 50_000
                        ||| t.baud_rate_prescaler == 40 && quanta == 20 && lawicel_rate(digit)
                            == 100_000
                        ||| t.baud_rate_prescaler == 4 && quanta == 25 && lawicel_rate(digit)
                            == 800_000
                    }),
            ;
            assert(TWAI_CLOCK as int / cycles == lawicel_rate(digit)) by (nonlinear_arith)
                requires
                    cycles * lawicel_rate(digit) == TWAI_CLOCK,
                    cycles > 0,
            ;
        },
        _ => {},
    }
}

/// A frame identifier within its range.
#[derive(Clone, Copy)]
pub enum FrameId {
    Standard(u16),
    Extended(u32),
}

/// A frame in the terms of the controller.
#[derive(Clone, Copy)]
pub struct TwaiFrame {
    pub id: FrameId,
    pub remote: bool,
    pub dlc: u8,
    pub data: [u8; 8],
}

/// The mathematical content of a [`TwaiFrame`]: a remote frame has no payload.
#[verifier::ext_equal]
pub struct TwaiView {
    pub id: FrameId,
    pub remote: bool,
    pub dlc: u8,
    pub payload: Seq<u8>,
}

impl View for TwaiFrame {
    type V = TwaiView;

    open spec fn view(&self) -> TwaiView {
        TwaiView {
            id: self.id,
            remote: self.remote,
            dlc: self.dlc,
            payload: if self.remote {
                Seq::empty()
            } else {
                self.data@.take(self.dlc as int)
            },
        }
    }
}

impl TwaiFrame {
    /// The bytes that travel with the frame.
    pub fn payload(&self) -> (r: &[u8])
        requires
            self.remote || self.dlc <= 8,
        ensures
            r@ == self@.payload,
    {
        if self.remote {
            let r = &self.data[0..0];
            assert(r@ =~= Seq::<u8>::empty());
            r
        } else {
            &self.data[0..self.dlc as usize]
        }
    }
}

/// The identifier of `f` in the controller's terms, where it is in range.
pub open spec fn id_of(f: FrameView) -> Option<FrameId> {
    if f.ext {
        if f.id <= 0x1FFF_FFFF {
            Some(FrameId::Extended(f.id))
        } else {
            None
        }
    } else {
        if f.id <= 0x7FF {
            Some(FrameId::Standard(f.id as u16))
        } else {
            None
        }
    }
}

/// `f` in the controller's terms, where its identifier is in range.
pub open spec fn twai_of(f: FrameView) -> Option<TwaiView> {
    match id_of(f) {
        Some(id) => Some(
            TwaiView {
                id,
                remote: f.rtr,
                dlc: f.dlc,
                payload: f.data.take(f.payload_len() as int),
            },
        ),
        None => None,
    }
}

/// `embedded_can::StandardId::new` and `as_raw`: a raw standard identifier is
/// accepted up to `0x7FF`, and then keeps its value.
#[verifier::external_body]
fn standard_id(raw: u16) -> (r: Option<u16>)
    ensures
        raw <= 0x7FF ==> r == Some(raw),
        raw > 0x7FF ==> r is None,
{
    match embedded_can::StandardId::new(raw) {
        Some(id) => Some(id.as_raw()),
        None => None,
    }
}

/// `embedded_can::ExtendedId::new` and `as_raw`: a raw extended identifier is
/// accepted up to `0x1FFF_FFFF`, and then keeps its value.
#[verifier::external_body]
fn extended_id(raw: u32) -> (r: Option<u32>)
    ensures
        raw <= 0x1FFF_FFFF ==> r == Some(raw),
        raw > 0x1FFF_FFFF ==> r is None,
{
    match embedded_can::ExtendedId::new(raw) {
        Some(id) => Some(id.as_raw()),
        None => None,
    }
}

/// Converts a frame for the controller; refused where the identifier is out of
/// range.
pub fn to_esp(f: &CanFrame) -> (r: Option<TwaiFrame>)
    requires
        id_of(f@) is Some ==> f@.wf(),
    ensures
        r is Some <==> twai_of(f@) is Some,
        r matches Some(t) ==> twai_of(f@) == Some(t@),
        r matches Some(t) ==> (t.remote || t.dlc <= 8),
{
    let id = if f.ext {
        match extended_id(f.id) {
            Some(raw) => FrameId::Extended(raw),
            None => {
                return None;
            },
        }
    } else {
        if f.id > 0xFFFF {
            return None;
        }
        match standard_id(f.id as u16) {
            Some(raw) => FrameId::Standard(raw),
            None => {
                return None;
            },
        }
    };
    let t = TwaiFrame { id, remote: f.rtr, dlc: f.dlc, data: f.data };
    assert(t@.payload =~= f.data@.take(f@.payload_len() as int));
    Some(t)
}

/// What a received frame is to the protocol. The controller can report a length
/// code above eight, which stands for eight bytes.
pub open spec fn received_view(
    id: FrameId,
    remote: bool,
    dlc: nat,
    data: Seq<u8>,
) -> FrameView {
    FrameView {
        id: match id {
            FrameId::Standard(raw) => raw as u32,
            FrameId::Extended(raw) => raw,
        },
        ext: id is Extended,
        rtr: remote,
        dlc: if dlc <= 8 {
            dlc as u8
        } else {
            8
        },
        data: data + zeros((8 - data.len()) as nat),
    }
}

/// Converts a frame that the controller received.
pub fn from_esp(id: FrameId, remote: bool, dlc: usize, data: &[u8]) -> (r: CanFrame)
    requires
        data@.len() <= 8,
    ensures
        r@ == received_view(id, remote, dlc as nat, data@),
        r@.wf(),
{
    let mut f = CanFrame::empty();
    match id {
        FrameId::Standard(raw) => {
            f.ext = false;
            f.id = raw as u32;
        },
        FrameId::Extended(raw) => {
            f.ext = true;
            f.id = raw;
        },
    }
    f.rtr = remote;
    f.dlc =
    if dlc <= 8 {
        dlc as u8
    } else {
        8
    };
    let mut k: usize = 0;
    while k < data.len()
        invariant
            k <= data@.len() <= 8,
            f.id == received_view(id, remote, dlc as nat, data@).id,
            f.ext == (id is Extended),
            f.rtr == remote,
            f.dlc == received_view(id, remote, dlc as nat, data@).dlc,
            f.data@ =~= data@.take(k as int) + zeros((8 - k) as nat),
        decreases data@.len() - k,
    {
        f.data[k] = data[k];
        k = k + 1;
    }
    assert(data@.take(k as int) =~= data@);
    f
}

/// A frame that is handed to the controller and comes back from the bus as it
/// went out is the frame that was sent.
pub proof fn controller_round_trip(f: FrameView)
    requires
        f.canonical(),
    ensures
        twai_of(f) matches Some(t) && received_view(t.id, t.remote, t.dlc as nat, t.payload) == f,
{
    let t = twai_of(f).unwrap();
    assert(f.data =~= t.payload + f.data.skip(f.payload_len() as int));
    assert(received_view(t.id, t.remote, t.dlc as nat, t.payload) =~= f);
}

/// How the controller was started.
#[derive(Clone, Copy)]
pub struct BusMode {
    pub baud: BaudRate,
    pub listen_only: bool,
}

/// The controller's error state.
#[derive(Clone, Copy)]
pub struct BusErrors {
    pub receive: u8,
    pub transmit: u8,
    pub bus_off: bool,
}

/// The shared CAN controller: how it runs, the bitrate it starts with, and how
/// many ports hold it open.
pub struct CanManager {
    bus: Option<BusMode>,
    baud: BaudRate,
    open_count: u32,
}

/// The mathematical content of a [`CanManager`].
pub struct CanView {
    pub bus: Option<BusMode>,
    pub baud: BaudRate,
    pub open_count: nat,
}

impl CanView {
    /// The controller is on the bus exactly while a port is open, and runs at the
    /// selected bitrate.
    pub open spec fn wf(self) -> bool {
        &&& self.bus is Some <==> self.open_count > 0
        &&& self.bus matches Some(mode) ==> mode.baud == self.baud
        &&& self.open_count <= u32::MAX
    }

    /// After one more port opened.
    pub open spec fn opened(self, listen_only: bool) -> CanView {
        CanView {
            bus: if self.open_count == 0 {
                Some(BusMode { baud: self.baud, listen_only })
            } else {
                self.bus
            },
            baud: self.baud,
            open_count: self.open_count + 1,
        }
    }

    /// After one port closed.
    pub open spec fn closed_one(self) -> CanView {
        if self.open_count == 0 {
            self
        } else {
            CanView {
                bus: if self.open_count == 1 {
                    None
                } else {
                    self.bus
                },
                baud: self.baud,
                open_count: (self.open_count - 1) as nat,
            }
        }
    }

    /// Whether `Sn` with this digit is honoured.
    pub open spec fn takes_bitrate(self, digit: u8) -> bool {
        self.open_count == 0 && baud_of(digit) is Some
    }

    /// After an `Sn` command with this digit.
    pub open spec fn with_bitrate(self, digit: u8) -> CanView {
        if self.takes_bitrate(digit) {
            CanView { baud: baud_of(digit).unwrap(), ..self }
        } else {
            self
        }
    }

    /// What is passed on of a frame that was received: all while the channel is open.
    pub open spec fn passed_on(self, received: Option<CanFrame>) -> Option<CanFrame> {
        if self.bus is Some {
            received
        } else {
            None
        }
    }

    /// The Lawicel status byte: bit 2 error warning, bit 5 error passive, bit 7
    /// bus-off; zero off the bus.
    pub open spec fn flags(self, errors: BusErrors) -> u8 {
        if self.bus is None {
            0
        } else {
            ((if errors.receive >= 96 || errors.transmit >= 96 {
                4int
            } else {
                0
            }) + (if errors.receive >= 128 || errors.transmit >= 128 {
                32int
            } else {
                0
            }) + (if errors.bus_off {
                128int
            } else {
                0
            })) as u8
        }
    }
}

impl View for CanManager {
    type V = CanView;

    closed spec fn view(&self) -> CanView {
        CanView { bus: self.bus, baud: self.baud, open_count: self.open_count as nat }
    }
}

impl CanManager {
    /// Off the bus, at the default bitrate.
    pub fn new() -> (r: CanManager)
        ensures
            r@ == (CanView { bus: None, baud: DEFAULT_BAUD, open_count: 0 }),
            r@.wf(),
    {
        CanManager { bus: None, baud: DEFAULT_BAUD, open_count: 0 }
    }

    /// Sets the bitrate from an SLCAN `Sn` digit. Only valid while fully closed.
    pub fn set_bitrate(&mut self, digit: u8) -> (r: bool)
        ensures
            r == old(self)@.takes_bitrate(digit),
            final(self)@ == old(self)@.with_bitrate(digit),
            old(self)@.wf() ==> final(self)@.wf(),
    {
        if self.open_count != 0 {
            return false;
        }
        match baud_from_s(digit) {
            Some(b) => {
                self.baud = b;
                true
            },
            None => false,
        }
    }

    /// Whether one more port can be counted.
    pub fn can_open(&self) -> (r: bool)
        ensures
            r == (self@.open_count < u32::MAX),
    {
        self.open_count < u32::MAX
    }

    /// Activates a port. Where this is the first one, the controller has to be
    /// started as the result says.
    pub fn open(&mut self, listen_only: bool) -> (r: Option<BusMode>)
        requires
            old(self)@.open_count < u32::MAX,
        ensures
            final(self)@ == old(self)@.opened(listen_only),
            old(self)@.open_count == 0 ==> r == final(self)@.bus,
            old(self)@.open_count > 0 ==> r is None,
            old(self)@.wf() ==> final(self)@.wf(),
    {
        let start = if self.open_count == 0 {
            Some(BusMode { baud: self.baud, listen_only })
        } else {
            None
        };
        if self.open_count == 0 {
            self.bus = start;
        }
        self.open_count = self.open_count + 1;
        start
    }

    /// Deactivates a port. Where this was the last one, the controller has to
    /// leave the bus.
    pub fn close(&mut self) -> (r: bool)
        ensures
            final(self)@ == old(self)@.closed_one(),
            r == (old(self)@.open_count == 1),
            old(self)@.wf() ==> final(self)@.wf(),
    {
        if self.open_count > 0 {
            self.open_count = self.open_count - 1;
            if self.open_count == 0 {
                self.bus = None;
                return true;
            }
        }
        false
    }

    /// The frame to hand to the controller, if the channel is open and the
    /// identifier is in range.
    pub fn transmit(&self, frame: &CanFrame) -> (r: Option<TwaiFrame>)
        requires
            self@.bus is Some && id_of(frame@) is Some ==> frame@.wf(),
        ensures
            r is Some <==> self@.bus is Some && twai_of(frame@) is Some,
            r matches Some(t) ==> twai_of(frame@) == Some(t@),
            r matches Some(t) ==> (t.remote || t.dlc <= 8),
    {
        if self.bus.is_none() {
            return None;
        }
        to_esp(frame)
    }

    /// Lawicel `F` status byte derived from the controller's error state; zero
    /// when the channel is closed.
    pub fn status_flags(&self, errors: BusErrors) -> (r: u8)
        ensures
            r == self@.flags(errors),
    {
        if self.bus.is_none() {
            return 0;
        }
        let mut f: u8 = 0;
        if errors.receive >= 96 || errors.transmit >= 96 {
            f = f + 4;
        }
        if errors.receive >= 128 || errors.transmit >= 128 {
            f = f + 32;
        }
        if errors.bus_off {
            f = f + 128;
        }
        f
    }

    /// Takes in what a non-blocking read of the controller gave; a frame counts
    /// only while the channel is open.
    pub fn poll_rx(&self, received: Option<CanFrame>, counters: &mut Counters) -> (r: Option<
        CanFrame,
    >)
        ensures
            r == self@.passed_on(received),
            self@.bus is Some ==> r == received,
            self@.bus is None ==> r is None,
            *final(counters) == counted_rx(*old(counters), r is Some),
            *final(counters) == (if r is Some {
                Counters { can_rx: bump(old(counters).can_rx), ..*old(counters) }
            } else {
                *old(counters)
            }),
    {
        if self.bus.is_none() {
            return None;
        }
        match received {
            Some(f) => {
                counters.can_rx = counters.can_rx.wrapping_add(1);
                Some(f)
            },
            None => None,
        }
    }

    /// How the controller runs, while it is on the bus.
    pub fn running(&self) -> (r: Option<BusMode>)
        ensures
            r == self@.bus,
    {
        self.bus
    }
}

/// How often a full transmit queue is tried again.
pub const TX_RETRIES: u32 = 50;

/// What the controller answered to one transmit request.
#[derive(Clone, Copy)]
pub enum TxResult {
    /// The frame was taken.
    Sent,
    /// The queue was full.
    WouldBlock,
    /// The controller refused.
    Failed,
}

/// What to do after a transmit request.
#[derive(Clone, Copy, PartialEq, Eq, Structural)]
pub enum TxStep {
    /// Ask again.
    Retry,
    /// Give the outcome to the host.
    Done(bool),
}

/// One bounded attempt at sending a frame, so that a dead or unacknowledged bus
/// cannot hang the caller.
pub struct TxAttempt {
    tries: u32,
}

/// The step that follows `tries` full queues and then the answer `result`.
pub open spec fn tx_step(tries: nat, result: TxResult) -> TxStep {
    match result {
        TxResult::Sent => TxStep::Done(true),
        TxResult::WouldBlock => if tries < TX_RETRIES {
            TxStep::Retry
        } else {
            TxStep::Done(false)
        },
        TxResult::Failed => TxStep::Done(false),
    }
}

/// The outcome of an attempt against a controller that answers `results` in
/// turn, once `tries` queues were full; `None` while it is still undecided.
pub open spec fn tx_outcome(tries: nat, results: Seq<TxResult>) -> Option<bool>
    decreases results.len(),
{
    if results.len() == 0 {
        None
    } else {
        match tx_step(tries, results[0]) {
            TxStep::Done(ok) => Some(ok),
            TxStep::Retry => tx_outcome(tries + 1, results.skip(1)),
        }
    }
}

impl TxAttempt {
    /// The number of full queues met so far.
    pub closed spec fn tries(self) -> nat {
        self.tries as nat
    }

    /// Before the first request.
    pub fn new() -> (r: TxAttempt)
        ensures
            r.tries() == 0,
    {
        TxAttempt { tries: 0 }
    }

    /// Takes in the controller's answer. A frame that was taken is counted.
    pub fn on_result(&mut self, result: TxResult, counters: &mut Counters) -> (r: TxStep)
        requires
            old(self).tries() <= TX_RETRIES,
        ensures
            r == tx_step(old(self).tries(), result),
            r is Retry ==> final(self).tries() == old(self).tries() + 1,
            r is Done ==> final(self).tries() == old(self).tries(),
            final(self).tries() <= TX_RETRIES,
            *final(counters) == counted_tx(*old(counters), r == TxStep::Done(true)),
            *final(counters) == (if r == TxStep::Done(true) {
                Counters { can_tx: bump(old(counters).can_tx), ..*old(counters) }
            } else {
                *old(counters)
            }),
    {
        match result {
            TxResult::Sent => {
                counters.can_tx = counters.can_tx.wrapping_add(1);
                TxStep::Done(true)
            },
            TxResult::WouldBlock => {
                if self.tries < TX_RETRIES {
                    self.tries = self.tries + 1;
                    TxStep::Retry
                } else {
                    TxStep::Done(false)
                }
            },
            TxResult::Failed => TxStep::Done(false),
        }
    }
}

/// An attempt is over after at most fifty-one requests, whatever the controller
/// answers.
pub proof fn transmit_is_bounded(results: Seq<TxResult>)
    requires
        results.len() > TX_RETRIES,
    ensures
        tx_outcome(0, results) is Some,
{
    lemma_tx_outcome(0, results);
}

proof fn lemma_tx_outcome(tries: nat, results: Seq<TxResult>)
    requires
        tries <= TX_RETRIES,
        tries + results.len() > TX_RETRIES,
    ensures
        tx_outcome(tries, results) is Some,
    decreases results.len(),
{
    if tx_step(tries, results[0]) is Retry {
        lemma_tx_outcome(tries + 1, results.skip(1));
    }
}

/// The most frames that one receive round takes from the controller.
pub const RX_BURST: u32 = 16;

/// What to do after one poll of the controller.
#[derive(Clone, Copy)]
pub enum RxStep {
    /// Poll again.
    Again,
    /// End the round; pause first if nothing was received in it.
    End { pause: bool },
}

/// One receive round: it drains a bounded burst of frames, which are broadcast
/// to all ports, before others get their turn at the controller.
pub struct RxRound {
    taken: u32,
}

/// The step that follows `taken` frames of a round and then a poll.
pub open spec fn rx_step(taken: nat, got: bool) -> RxStep {
    if got && taken + 1 < RX_BURST {
        RxStep::Again
    } else {
        RxStep::End { pause: taken == 0 && !got }
    }
}

/// How a round ends that has taken so many frames, when further polls go like this: how
/// many frames it has taken in all, and whether to pause; `None` while it goes on.
pub open spec fn rx_round(taken: nat, polls: Seq<bool>) -> Option<(nat, bool)>
    decreases polls.len(),
{
    if polls.len() == 0 {
        None
    } else {
        let now = if polls[0] {
            taken + 1
        } else {
            taken
        };
        match rx_step(taken, polls[0]) {
            RxStep::Again => rx_round(now, polls.skip(1)),
            RxStep::End { pause } => Some((now, pause)),
        }
    }
}

impl RxRound {
    /// The number of frames received in this round.
    pub closed spec fn taken(self) -> nat {
        self.taken as nat
    }

    /// Before the first poll.
    pub fn new() -> (r: RxRound)
        ensures
            r.taken() == 0,
    {
        RxRound { taken: 0 }
    }

    /// Takes in whether a poll gave a frame.
    pub fn on_poll(&mut self, got: bool) -> (r: RxStep)
        requires
            old(self).taken() < RX_BURST,
        ensures
            final(self).taken() == old(self).taken() + (if got {
                1int
            } else {
                0
            }),
            r == rx_step(old(self).taken(), got),
            r == (if got && old(self).taken() + 1 < RX_BURST {
                RxStep::Again
            } else {
                RxStep::End { pause: final(self).taken() == 0 }
            }),
            r is Again ==> final(self).taken() < RX_BURST,
    {
        if got {
            self.taken = self.taken + 1;
            if self.taken < RX_BURST {
                return RxStep::Again;
            }
        }
        RxStep::End { pause: self.taken == 0 }
    }
}

// --- Laws ------------------------------------------------------------------

/// Counting wraps around: a counter is one ahead, in the range of 32 bits.
pub proof fn bump_counts_one(n: u32)
    ensures
        bump(n) as int == (n + 1) % 0x1_0000_0000,
{
}

/// Where nothing was selected, the bus runs at 500 kbit/s.
pub proof fn default_rate()
    ensures
        DEFAULT_BAUD.bits_per_second() == 500_000,
{
}

/// The first port that opens starts the controller in the mode it asked for, at the rate
/// that is selected. A later one changes neither, and both count.
pub proof fn first_port_sets_the_mode(can: CanView, listen_only: bool)
    ensures
        can.open_count == 0 ==> (can.opened(listen_only).bus matches Some(mode) && mode.listen_only
            == listen_only && mode.baud == can.baud),
        can.open_count > 0 ==> can.opened(listen_only).bus == can.bus,
        can.opened(listen_only).open_count == can.open_count + 1,
        can.opened(listen_only).baud == can.baud,
{
}

/// The last port that closes takes the controller off the bus; while others are open, the
/// bus goes on as it was. The selected rate stays.
pub proof fn last_port_stops_the_bus(can: CanView)
    requires
        can.wf(),
    ensures
        can.open_count <= 1 ==> can.closed_one().bus is None && can.closed_one().open_count == 0,
        can.open_count > 1 ==> can.closed_one().bus == can.bus && can.closed_one().open_count
            == can.open_count - 1,
        can.closed_one().baud == can.baud,
{
}

/// Whether a digit stands for a rate that can be selected: 2 to 8.
pub open spec fn selectable(digit: u8) -> bool {
    0x32 <= digit <= 0x38
}

/// A rate is taken while the channel is closed, for each digit of the table, and is then
/// the one at which the controller starts, whichever way it is opened. While the channel
/// is open, or for another digit, nothing changes.
pub proof fn selected_rate_is_used(can: CanView, digit: u8, listen_only: bool)
    ensures
        can.takes_bitrate(digit) <==> can.open_count == 0 && selectable(digit),
        can.takes_bitrate(digit) ==> can.with_bitrate(digit).baud.bits_per_second() == lawicel_rate(
            digit,
        ) && (can.with_bitrate(digit).opened(listen_only).bus matches Some(mode)
            && mode.baud.bits_per_second() == lawicel_rate(digit) && mode.listen_only
            == listen_only),
        can.takes_bitrate(digit) ==> can.with_bitrate(digit).open_count == can.open_count
            && can.with_bitrate(digit).bus == can.bus,
        !can.takes_bitrate(digit) ==> can.with_bitrate(digit) == can,
{
    if can.takes_bitrate(digit) {
        bitrate_matches_table(digit);
    }
}

/// The table of the protocol: 50, 100, 125, 250, 500, 800 and 1000 kbit/s for the digits
/// from 2 on.
pub proof fn rates_of_the_table(digit: u8)
    requires
        selectable(digit),
    ensures
        lawicel_rate(digit) == seq![
            50_000int,
            100_000int,
            125_000int,
            250_000int,
            500_000int,
            800_000int,
            1_000_000int,
        ][digit - 0x32],
{
}

/// A custom timing samples a bit once, late in it, and can be shifted by three quanta.
pub proof fn custom_timings(digit: u8)
    ensures
        baud_of(digit) matches Some(BaudRate::Custom(t)) ==> t.sync_jump_width == 3
            && !t.triple_sample && t.tseg_1 >= 15 && 4 <= t.tseg_2 && t.tseg_2 < t.tseg_1,
{
}

/// The status byte, bit by bit: bit 2 for an error counter of 96 or more, bit 5 for one of
/// 128 or more, bit 7 for bus-off, and no other; nothing off the bus.
pub proof fn status_bits(can: CanView, errors: BusErrors)
    ensures
        can.bus is None ==> can.flags(errors) == 0,
        can.bus is Some ==> ((can.flags(errors) / 4) % 2 == 1 <==> (errors.receive >= 96
            || errors.transmit >= 96)),
        can.bus is Some ==> ((can.flags(errors) / 32) % 2 == 1 <==> (errors.receive >= 128
            || errors.transmit >= 128)),
        can.bus is Some ==> (can.flags(errors) / 128 == 1 <==> errors.bus_off),
        can.flags(errors) % 4 == 0,
        (can.flags(errors) / 8) % 4 == 0,
        (can.flags(errors) / 64) % 2 == 0,
{
}

/// The controller is handed the frame as it is: identifier and its kind, remote request,
/// length code and payload. Only an identifier out of its range is refused.
pub proof fn controller_gets_the_frame(f: FrameView)
    requires
        f.wf(),
    ensures
        twai_of(f) is Some <==> f.id <= (if f.ext {
            0x1FFF_FFFFu32
        } else {
            0x7FFu32
        }),
        twai_of(f) matches Some(t) ==> {
            &&& t.id matches FrameId::Extended(raw) ==> f.ext && raw == f.id
            &&& t.id matches FrameId::Standard(raw) ==> !f.ext && raw == f.id
            &&& t.remote == f.rtr
            &&& t.dlc == f.dlc
            &&& f.rtr ==> t.payload.len() == 0
            &&& !f.rtr ==> t.payload.len() == f.dlc
            &&& forall|i: int| 0 <= i < t.payload.len() ==> #[trigger] t.payload[i] == f.data[i]
        },
{
}

/// A received frame is passed on as it is: identifier and its kind, remote request and
/// payload; a length code above eight counts as eight.
pub proof fn received_frame_is_passed_on(id: FrameId, remote: bool, dlc: nat, data: Seq<u8>)
    requires
        data.len() <= 8,
    ensures
        ({
            let f = received_view(id, remote, dlc, data);
            &&& id matches FrameId::Extended(raw) ==> f.ext && f.id == raw
            &&& id matches FrameId::Standard(raw) ==> !f.ext && f.id == raw
            &&& f.rtr == remote
            &&& dlc <= 8 ==> f.dlc == dlc
            &&& dlc > 8 ==> f.dlc == 8
            &&& f.data.len() == 8
            &&& forall|i: int| 0 <= i < data.len() ==> #[trigger] f.data[i] == data[i]
            &&& forall|i: int| data.len() <= i < 8 ==> #[trigger] f.data[i] == 0
        }),
{
}

/// A queue that is full up to fifty times does not keep a frame from being sent: what the
/// controller then answers is the outcome.
pub proof fn full_queue_is_waited_for(full: nat, last: TxResult, results: Seq<TxResult>)
    requires
        full <= 50,
        results.len() > full,
        forall|i: int| 0 <= i < full ==> #[trigger] results[i] == TxResult::WouldBlock,
        results[full as int] == last,
    ensures
        last == TxResult::Sent ==> tx_outcome(0, results) == Some(true),
        last == TxResult::Failed ==> tx_outcome(0, results) == Some(false),
        last == TxResult::WouldBlock && full == 50 ==> tx_outcome(0, results) == Some(false),
{
    lemma_full_queue(0, full, last, results);
}

proof fn lemma_full_queue(tries: nat, full: nat, last: TxResult, results: Seq<TxResult>)
    requires
        tries + full <= 50,
        results.len() > full,
        forall|i: int| 0 <= i < full ==> #[trigger] results[i] == TxResult::WouldBlock,
        results[full as int] == last,
    ensures
        last == TxResult::Sent ==> tx_outcome(tries, results) == Some(true),
        last == TxResult::Failed ==> tx_outcome(tries, results) == Some(false),
        last == TxResult::WouldBlock && tries + full == 50 ==> tx_outcome(tries, results) == Some(
            false,
        ),
    decreases full,
{
    if full > 0 {
        let rest = results.skip(1);
        assert(results[0] == TxResult::WouldBlock);
        assert forall|i: int| 0 <= i < full - 1 implies #[trigger] rest[i]
            == TxResult::WouldBlock by {
            assert(rest[i] == results[i + 1]);
        }
        lemma_full_queue(tries + 1, (full - 1) as nat, last, rest);
    }
}

/// Frames from the bus are passed on, and counted, while the channel is open and not
/// otherwise; frames to the bus are counted where they were sent. No other counter moves.
pub proof fn bus_frames_are_counted(can: CanView, received: Option<CanFrame>, c: Counters)
    ensures
        can.bus is Some ==> can.passed_on(received) == received,
        can.bus is None ==> can.passed_on(received) is None,
        counted_rx(c, true).can_rx as int == (c.can_rx + 1) % 0x1_0000_0000,
        counted_rx(c, true) == (Counters { can_rx: counted_rx(c, true).can_rx, ..c }),
        counted_rx(c, false) == c,
        counted_tx(c, true).can_tx as int == (c.can_tx + 1) % 0x1_0000_0000,
        counted_tx(c, true) == (Counters { can_tx: counted_tx(c, true).can_tx, ..c }),
        counted_tx(c, false) == c,
{
}

/// A receive round goes on while there are frames, up to sixteen, and ends at the first poll
/// without one; there is a pause only where it took none.
pub proof fn round_takes_what_is_there(n: nat, polls: Seq<bool>)
    requires
        n <= 16,
        polls.len() > n || (n == 16 && polls.len() == 16),
        forall|i: int| 0 <= i < n ==> #[trigger] polls[i],
        n < 16 ==> !polls[n as int],
    ensures
        rx_round(0, polls) == Some((n, n == 0)),
{
    lemma_rx_round(0, n, polls);
}

proof fn lemma_rx_round(taken: nat, n: nat, polls: Seq<bool>)
    requires
        taken + n <= 16,
        taken < 16,
        polls.len() > n || (taken + n == 16 && polls.len() == n),
        forall|i: int| 0 <= i < n ==> #[trigger] polls[i],
        taken + n < 16 ==> !polls[n as int],
    ensures
        rx_round(taken, polls) == Some((taken + n, taken + n == 0)),
    decreases n,
{
    if n > 0 {
        assert(polls[0]);
        if taken + 1 < 16 {
            let rest = polls.skip(1);
            assert forall|i: int| 0 <= i < n - 1 implies #[trigger] rest[i] by {
                assert(rest[i] == polls[i + 1]);
            }
            lemma_rx_round(taken + 1, (n - 1) as nat, rest);
        }
    }
}

} // verus!
