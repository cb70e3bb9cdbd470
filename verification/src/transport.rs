//! One SLCAN port, the same for the serial and the TCP transports.
//!
//! Each port has its own line buffer, open flag and timestamp flag. Bytes from the
//! host are collected into command lines, commands are dispatched against the
//! shared controller, and frames from the bus are formatted while the port is open.
//! Reading, writing and driving the controller is left to the caller: a [`Step`]
//! says what has to happen before the host gets its reply.

use crate::can::{
    bump, controller_gets_the_frame, lawicel_rate, selected_rate_is_used, twai_of, BusErrors,
    BusMode, CanManager, CanView, Counters, FrameId, TwaiFrame, TwaiView,
};
use crate::hex::{digit_reads_back, hex_char, hex_digit, hex_number};
use crate::slcan::{
    format_frame, format_inverts_parse, frame_line, frame_text, lemma_line_len,
    parse_inverts_format, parse_tx, parsed, tx_kind, tx_letter, CanFrame, FrameView, BELL, CR,
    MAX_FRAME_ASCII,
};
use vstd::prelude::*;

verus! {

/// Which host-side interface a port belongs to (for the frame counters).
#[derive(Clone, Copy)]
pub enum Iface {
    Serial,
    Tcp,
}

/// `counters` after one more frame from the host.
pub open spec fn counted_in(counters: Counters, iface: Iface) -> Counters {
    match iface {
        Iface::Serial => Counters { ser_in: bump(counters.ser_in), ..counters },
        Iface::Tcp => Counters { tcp_in: bump(counters.tcp_in), ..counters },
    }
}

/// `counters` after one more frame to the host.
pub open spec fn counted_out(counters: Counters, iface: Iface) -> Counters {
    match iface {
        Iface::Serial => Counters { ser_out: bump(counters.ser_out), ..counters },
        Iface::Tcp => Counters { tcp_out: bump(counters.tcp_out), ..counters },
    }
}

impl Iface {
    /// Counts a frame that arrived from the host.
    pub fn count_in(self, counters: &mut Counters)
        ensures
            *final(counters) == counted_in(*old(counters), self),
    {
        match self {
            Iface::Serial => {
                counters.ser_in = counters.ser_in.wrapping_add(1);
            },
            Iface::Tcp => {
                counters.tcp_in = counters.tcp_in.wrapping_add(1);
            },
        }
    }

    /// Counts a frame that was forwarded to the host.
    pub fn count_out(self, counters: &mut Counters)
        ensures
            *final(counters) == counted_out(*old(counters), self),
    {
        match self {
            Iface::Serial => {
                counters.ser_out = counters.ser_out.wrapping_add(1);
            },
            Iface::Tcp => {
                counters.tcp_out = counters.tcp_out.wrapping_add(1);
            },
        }
    }
}

/// The answer to a command.
#[derive(Clone, Copy)]
pub enum Reply {
    /// Accepted.
    Done,
    /// Refused.
    Bell,
    /// Hardware and firmware version.
    Version,
    /// Serial number.
    Serial,
    /// The status byte.
    Flags(u8),
    /// Transmit confirmation, for an 11-bit or a 29-bit identifier.
    Sent { extended: bool },
}

impl Reply {
    /// The bytes of the answer.
    pub open spec fn text(self) -> Seq<u8> {
        match self {
            Reply::Done => seq![CR],
            Reply::Bell => seq![BELL],
            Reply::Version => seq!['V' as u8, '1' as u8, '0' as u8, '1' as u8, '3' as u8, CR],
            Reply::Serial => seq!['N' as u8, '1' as u8, '2' as u8, '3' as u8, '4' as u8, CR],
            Reply::Flags(f) => seq![
                'F' as u8,
                hex_char((f / 16) as nat),
                hex_char((f % 16) as nat),
                CR,
            ],
            Reply::Sent { extended } => seq![
                if extended {
                    'Z' as u8
                } else {
                    'z' as u8
                },
                CR,
            ],
        }
    }

    /// The bytes of the answer.
    pub fn bytes(&self) -> (r: Vec<u8>)
        ensures
            r@ == self.text(),
    {
        let r: Vec<u8> = match self {
            Reply::Done => vec![CR],
            Reply::Bell => vec![BELL],
            Reply::Version => vec!['V' as u8, '1' as u8, '0' as u8, '1' as u8, '3' as u8, CR],
            Reply::Serial => vec!['N' as u8, '1' as u8, '2' as u8, '3' as u8, '4' as u8, CR],
            Reply::Flags(f) => vec!['F' as u8, hex_digit(*f / 16), hex_digit(*f), CR],
            Reply::Sent { extended } => vec![
                if *extended {
                    'Z' as u8
                } else {
                    'z' as u8
                },
                CR,
            ],
        };
        assert(r@ =~= self.text());
        r
    }
}

/// What has to happen next for a dispatched command.
#[derive(Clone, Copy)]
pub enum Step {
    /// Send this answer.
    Reply(Reply),
    /// Start the controller, then answer as [`Step::reply`] says.
    Start(BusMode),
    /// Take the controller off the bus, then answer as [`Step::reply`] says.
    Stop,
    /// Read the controller's error state, then answer as [`status_reply`] says.
    ReadStatus,
    /// Transmit the frame, then answer as [`transmit_reply`] says.
    Transmit(TwaiFrame),
}

/// The mathematical content of a [`Step`].
pub enum StepView {
    Reply(Reply),
    Start(BusMode),
    Stop,
    ReadStatus,
    Transmit(TwaiView),
}

impl View for Step {
    type V = StepView;

    open spec fn view(&self) -> StepView {
        match self {
            Step::Reply(r) => StepView::Reply(*r),
            Step::Start(mode) => StepView::Start(*mode),
            Step::Stop => StepView::Stop,
            Step::ReadStatus => StepView::ReadStatus,
            Step::Transmit(t) => StepView::Transmit(t@),
        }
    }
}

impl StepView {
    /// The answer to the command, where it does not depend on what the controller says.
    pub open spec fn settled(self) -> Option<Reply> {
        match self {
            StepView::Reply(r) => Some(r),
            StepView::Start(_) => Some(Reply::Done),
            StepView::Stop => Some(Reply::Done),
            StepView::ReadStatus => None,
            StepView::Transmit(_) => None,
        }
    }
}

impl Step {
    /// The answer to the command, where it does not depend on what the controller says.
    pub fn reply(&self) -> (r: Option<Reply>)
        ensures
            r == self@.settled(),
    {
        match self {
            Step::Reply(r) => Some(*r),
            Step::Start(_) => Some(Reply::Done),
            Step::Stop => Some(Reply::Done),
            Step::ReadStatus => None,
            Step::Transmit(_) => None,
        }
    }
}

/// What a byte from the host led to.
#[derive(Clone, Copy)]
pub enum Fed {
    /// Nothing yet.
    Nothing,
    /// A command line is complete and waits to be dispatched.
    Command,
    /// The line buffer ran over; the line is dropped and the host gets a BELL.
    Overflow,
}

impl Fed {
    /// What the host is answered at once: nothing to a command, which is dispatched first.
    pub open spec fn immediate(self) -> Option<Reply> {
        match self {
            Fed::Nothing => None,
            Fed::Command => None,
            Fed::Overflow => Some(Reply::Bell),
        }
    }

    /// What the host is answered at once.
    pub fn reply(&self) -> (r: Option<Reply>)
        ensures
            r == self.immediate(),
    {
        match self {
            Fed::Nothing => None,
            Fed::Command => None,
            Fed::Overflow => Some(Reply::Bell),
        }
    }

    /// Whether the host is answered, so that what was written to it has to be flushed.
    pub fn answers(&self) -> (r: bool)
        ensures
            r == !(self is Nothing),
    {
        match self {
            Fed::Nothing => false,
            Fed::Command => true,
            Fed::Overflow => true,
        }
    }
}

/// What a read from the link of a port comes to.
#[derive(Clone, Copy, Debug, PartialEq, Eq, Structural)]
pub enum Act {
    /// So many bytes have arrived.
    Bytes(usize),
    /// The link is gone, and the port closes.
    Stop,
}

/// What a read comes to: the link is gone when it fails or reports its end.
pub open spec fn act_of(read: Option<usize>) -> Act {
    match read {
        Some(n) => if n > 0 {
            Act::Bytes(n)
        } else {
            Act::Stop
        },
        None => Act::Stop,
    }
}

/// What a read comes to, where `read` is the number of bytes that it gave, or nothing if
/// it failed: the link is gone when it fails or reports its end.
pub fn act_on_read(read: Option<usize>) -> (r: Act)
    ensures
        r == act_of(read),
        r == (match read {
            Some(n) => if n > 0 {
                Act::Bytes(n)
            } else {
                Act::Stop
            },
            None => Act::Stop,
        }),
{
    match read {
        Some(n) => if n > 0 {
            Act::Bytes(n)
        } else {
            Act::Stop
        },
        None => Act::Stop,
    }
}

/// The longest command line.
pub const LINE_MAX: usize = 64;

/// One SLCAN port.
pub struct Port {
    line: [u8; 64],
    len: usize,
    open: bool,
    timestamp: bool,
    iface: Iface,
}

/// The mathematical content of a [`Port`].
#[verifier::ext_equal]
pub struct PortView {
    pub line: Seq<u8>,
    pub open: bool,
    pub timestamp: bool,
    pub iface: Iface,
}

impl View for Port {
    type V = PortView;

    closed spec fn view(&self) -> PortView {
        PortView {
            line: self.line@.take(self.len as int),
            open: self.open,
            timestamp: self.timestamp,
            iface: self.iface,
        }
    }
}

impl PortView {
    /// The port after the byte `b` arrived, and what that led to.
    pub open spec fn fed(self, b: u8) -> (PortView, Fed) {
        if b == CR {
            (self, if self.line.len() > 0 {
                Fed::Command
            } else {
                Fed::Nothing
            })
        } else if b == 0x0a {
            (self, Fed::Nothing)
        } else if self.line.len() < LINE_MAX {
            (PortView { line: self.line.push(b), ..self }, Fed::Nothing)
        } else {
            (PortView { line: Seq::empty(), ..self }, Fed::Overflow)
        }
    }

    /// The port after `bytes` arrived, none of which completes a command.
    pub open spec fn fed_all(self, bytes: Seq<u8>) -> PortView
        decreases bytes.len(),
    {
        if bytes.len() == 0 {
            self
        } else {
            self.fed_all(bytes.drop_last()).fed(bytes.last()).0
        }
    }

    /// Whether the host gets to hear anything while `bytes` arrive.
    pub open spec fn quiet(self, bytes: Seq<u8>) -> bool
        decreases bytes.len(),
    {
        bytes.len() == 0 || (self.quiet(bytes.drop_last()) && self.fed_all(bytes.drop_last()).fed(
            bytes.last(),
        ).1 is Nothing)
    }
}

/// The result of dispatching a command: the port and the controller afterwards,
/// what has to happen next, and whether the command counts as a frame that
/// arrived on the port's interface.
pub struct Dispatched {
    pub port: PortView,
    pub can: CanView,
    pub step: StepView,
    pub counted: bool,
}

/// Only an answer.
pub open spec fn answered(port: PortView, can: CanView, reply: Reply) -> Dispatched {
    Dispatched { port, can, step: StepView::Reply(reply), counted: false }
}

/// What the command line of `p` leads to.
pub open spec fn dispatched(p: PortView, can: CanView) -> Dispatched {
    let cmd = p.line[0];
    let q = PortView { line: Seq::empty(), ..p };
    if cmd == 'V' as u8 {
        answered(q, can, Reply::Version)
    } else if cmd == 'N' as u8 {
        answered(q, can, Reply::Serial)
    } else if cmd == 'F' as u8 {
        Dispatched { port: q, can, step: StepView::ReadStatus, counted: false }
    } else if cmd == 'M' as u8 || cmd == 'm' as u8 || cmd == 'A' as u8 {
        answered(q, can, Reply::Done)
    } else if cmd == 'Z' as u8 {
        if p.line.len() > 1 && p.line[1] == '0' as u8 {
            answered(PortView { timestamp: false, ..q }, can, Reply::Done)
        } else if p.line.len() > 1 && p.line[1] == '1' as u8 {
            answered(PortView { timestamp: true, ..q }, can, Reply::Done)
        } else {
            answered(q, can, Reply::Bell)
        }
    } else if cmd == 'S' as u8 {
        if p.line.len() > 1 && can.takes_bitrate(p.line[1]) {
            answered(q, can.with_bitrate(p.line[1]), Reply::Done)
        } else {
            answered(q, can, Reply::Bell)
        }
    } else if cmd == 'O' as u8 || cmd == 'L' as u8 {
        if p.open {
            answered(q, can, Reply::Done)
        } else {
            let now = can.opened(cmd == 'L' as u8);
            Dispatched {
                port: PortView { open: true, ..q },
                can: now,
                step: if can.open_count == 0 {
                    StepView::Start(now.bus.unwrap())
                } else {
                    StepView::Reply(Reply::Done)
                },
                counted: false,
            }
        }
    } else if cmd == 'C' as u8 {
        if p.open {
            Dispatched {
                port: PortView { open: false, ..q },
                can: can.closed_one(),
                step: if can.open_count == 1 {
                    StepView::Stop
                } else {
                    StepView::Reply(Reply::Done)
                },
                counted: false,
            }
        } else {
            answered(q, can, Reply::Done)
        }
    } else if tx_kind(cmd) is Some {
        let frame = parsed(p.line);
        Dispatched {
            port: q,
            can,
            step: if p.open && frame is Some && can.bus is Some && twai_of(frame.unwrap()) is Some {
                StepView::Transmit(twai_of(frame.unwrap()).unwrap())
            } else {
                StepView::Reply(Reply::Bell)
            },
            counted: frame is Some,
        }
    } else {
        answered(q, can, Reply::Bell)
    }
}

/// Whether the command line of `p` opens its port.
pub open spec fn opens(p: PortView) -> bool {
    !p.open && (p.line[0] == 'O' as u8 || p.line[0] == 'L' as u8)
}

/// The reply to `F`, once the controller's error state is known.
pub fn status_reply(can: &CanManager, errors: BusErrors) -> (r: Reply)
    ensures
        r == Reply::Flags(can@.flags(errors)),
{
    Reply::Flags(can.status_flags(errors))
}

/// The answer to a transmit command for a frame with this identifier, that was sent or not.
pub open spec fn transmit_answer(id: FrameId, sent: bool) -> Reply {
    if sent {
        Reply::Sent { extended: id is Extended }
    } else {
        Reply::Bell
    }
}

/// The reply to a transmit command, once it is known whether the frame was taken:
/// the Lawicel confirmation `z` for 11-bit and `Z` for 29-bit identifiers.
pub fn transmit_reply(frame: &TwaiFrame, sent: bool) -> (r: Reply)
    ensures
        r == transmit_answer(frame.id, sent),
        sent ==> r == (Reply::Sent { extended: frame.id is Extended }),
        !sent ==> r == Reply::Bell,
{
    if sent {
        match frame.id {
            FrameId::Standard(_) => Reply::Sent { extended: false },
            FrameId::Extended(_) => Reply::Sent { extended: true },
        }
    } else {
        Reply::Bell
    }
}

/// Milliseconds, wrapped to the Lawicel 0..=59999 timestamp range.
pub fn now_ms(since_start: u64) -> (r: u16)
    ensures
        r as int == since_start as int % 60_000,
{
    (since_start % 60_000) as u16
}

impl Port {
    /// The line buffer is within its bounds.
    pub closed spec fn wf(self) -> bool {
        self.len <= 64
    }

    /// A closed port with nothing received.
    pub fn new(iface: Iface) -> (r: Port)
        ensures
            r.wf(),
            r@ == (PortView { line: Seq::empty(), open: false, timestamp: false, iface }),
    {
        let r = Port { line: [0u8;64], len: 0, open: false, timestamp: false, iface };
        assert(r@.line =~= Seq::<u8>::empty());
        r
    }

    /// Whether the port is open.
    pub fn is_open(&self) -> (r: bool)
        ensures
            r == self@.open,
    {
        self.open
    }

    /// Takes in one byte from the host. CR completes a line, LF is ignored.
    pub fn feed(&mut self, b: u8) -> (r: Fed)
        requires
            old(self).wf(),
        ensures
            final(self).wf(),
            final(self)@ == old(self)@.fed(b).0,
            r == old(self)@.fed(b).1,
            r is Command ==> final(self)@.line.len() > 0,
    {
        if b == CR {
            if self.len > 0 {
                Fed::Command
            } else {
                Fed::Nothing
            }
        } else if b == 0x0a {
            Fed::Nothing
        } else if self.len < LINE_MAX {
            self.line[self.len] = b;
            self.len = self.len + 1;
            assert(self@.line =~= old(self)@.line.push(b));
            Fed::Nothing
        } else {
            self.len = 0;
            assert(self@.line =~= Seq::<u8>::empty());
            Fed::Overflow
        }
    }

    /// Dispatches the collected command line and clears it. What is left to do
    /// before the host gets its answer is the result.
    pub fn dispatch(&mut self, can: &mut CanManager, counters: &mut Counters) -> (r: Step)
        requires
            old(self).wf(),
            old(self)@.line.len() > 0,
            old(can)@.wf(),
            opens(old(self)@) ==> old(can)@.open_count < u32::MAX,
        ensures
            final(self).wf(),
            final(self)@ == dispatched(old(self)@, old(can)@).port,
            final(can)@ == dispatched(old(self)@, old(can)@).can,
            final(can)@.wf(),
            r@ == dispatched(old(self)@, old(can)@).step,
            *final(counters) == (if dispatched(old(self)@, old(can)@).counted {
                counted_in(*old(counters), old(self)@.iface)
            } else {
                *old(counters)
            }),
            r matches Step::Transmit(t) ==> (t.remote || t.dlc <= 8),
    {
        let len: usize = self.len;
        let cmd: u8 = self.line[0];
        assert(self@.line == self.line@.take(len as int));
        assert(cmd == self@.line[0]);
        let second: Option<u8> = if len > 1 {
            Some(self.line[1])
        } else {
            None
        };
        let ghost before = self@;
        self.len = 0;
        assert(self@.line =~= Seq::<u8>::empty());
        if cmd == 'V' as u8 {
            Step::Reply(Reply::Version)
        } else if cmd == 'N' as u8 {
            Step::Reply(Reply::Serial)
        } else if cmd == 'F' as u8 {
            Step::ReadStatus
        } else if cmd == 'M' as u8 || cmd == 'm' as u8 || cmd == 'A' as u8 {
            Step::Reply(Reply::Done)
        } else if cmd == 'Z' as u8 {
            match second {
                Some(d) => {
                    if d == '0' as u8 {
                        self.timestamp = false;
                        Step::Reply(Reply::Done)
                    } else if d == '1' as u8 {
                        self.timestamp = true;
                        Step::Reply(Reply::Done)
                    } else {
                        Step::Reply(Reply::Bell)
                    }
                },
                None => Step::Reply(Reply::Bell),
            }
        } else if cmd == 'S' as u8 {
            let ok: bool = match second {
                Some(d) => can.set_bitrate(d),
                None => false,
            };
            if ok {
                Step::Reply(Reply::Done)
            } else {
                Step::Reply(Reply::Bell)
            }
        } else if cmd == 'O' as u8 || cmd == 'L' as u8 {
            if self.open {
                return Step::Reply(Reply::Done);
            }
            self.open = true;
            match can.open(cmd == 'L' as u8) {
                Some(mode) => Step::Start(mode),
                None => Step::Reply(Reply::Done),
            }
        } else if cmd == 'C' as u8 {
            if !self.open {
                return Step::Reply(Reply::Done);
            }
            self.open = false;
            if can.close() {
                Step::Stop
            } else {
                Step::Reply(Reply::Done)
            }
        } else if cmd == 't' as u8 || cmd == 'T' as u8 || cmd == 'r' as u8 || cmd == 'R' as u8 {
            let frame = parse_tx(&self.line[0..len]);
            assert(self.line@.subrange(0, len as int) =~= before.line);
            if frame.is_some() {
                self.iface.count_in(counters);
            }
            if !self.open {
                return Step::Reply(Reply::Bell);
            }
            match frame {
                Some(f) => match can.transmit(&f) {
                    Some(t) => Step::Transmit(t),
                    None => Step::Reply(Reply::Bell),
                },
                None => Step::Reply(Reply::Bell),
            }
        } else {
            Step::Reply(Reply::Bell)
        }
    }

    /// Formats a frame from the bus for the host, if the port is open, and returns
    /// the length of the text; nothing is sent while the port is closed.
    pub fn on_frame(
        &self,
        frame: &CanFrame,
        since_start: u64,
        out: &mut [u8],
        counters: &mut Counters,
    ) -> (n: usize)
        requires
            self@.open ==> frame@.wf(),
            old(out)@.len() >= MAX_FRAME_ASCII,
        ensures
            n == forwarded(self@, frame@, since_start).len(),
            n <= MAX_FRAME_ASCII,
            final(out)@ == forwarded(self@, frame@, since_start) + old(out)@.skip(n as int),
            *final(counters) == (if self@.open {
                counted_out(*old(counters), self@.iface)
            } else {
                *old(counters)
            }),
    {
        if !self.open {
            assert(out@ =~= forwarded(self@, frame@, since_start) + out@.skip(0));
            return 0;
        }
        let ts: Option<u16> = if self.timestamp {
            Some(now_ms(since_start))
        } else {
            None
        };
        proof {
            lemma_line_len(frame@, ts);
        }
        let n: usize = format_frame(frame, ts, out);
        self.iface.count_out(counters);
        n
    }

    /// The link is gone: the port closes if it was open. The result tells whether
    /// the controller has to leave the bus.
    pub fn disconnect(&mut self, can: &mut CanManager) -> (r: bool)
        requires
            old(self).wf(),
            old(can)@.wf(),
        ensures
            final(self).wf(),
            final(self)@ == (PortView { open: false, ..old(self)@ }),
            final(can)@ == (if old(self)@.open {
                old(can)@.closed_one()
            } else {
                old(can)@
            }),
            final(can)@.wf(),
            r == (old(self)@.open && old(can)@.open_count == 1),
    {
        if self.open {
            self.open = false;
            can.close()
        } else {
            false
        }
    }
}

/// The timestamp field of a frame that is forwarded at this time.
pub open spec fn stamp(on: bool, since_start: u64) -> Option<u16> {
    if on {
        Some((since_start as int % 60_000) as u16)
    } else {
        None
    }
}

/// What a port sends to its host for a frame from the bus.
pub open spec fn forwarded(p: PortView, frame: FrameView, since_start: u64) -> Seq<u8> {
    if p.open {
        frame_line(frame, stamp(p.timestamp, since_start))
    } else {
        Seq::empty()
    }
}

/// A frame from the bus reaches the host of every open port, and of no other.
pub proof fn frame_reaches_every_open_port(
    ports: Seq<PortView>,
    frame: FrameView,
    since_start: u64,
    i: int,
)
    requires
        0 <= i < ports.len(),
        frame.wf(),
    ensures
        forwarded(ports[i], frame, since_start).len() > 0 <==> ports[i].open,
        ports[i].open ==> forwarded(ports[i], frame, since_start) == frame_line(
            frame,
            stamp(ports[i].timestamp, since_start),
        ),
{
    lemma_line_len(frame, stamp(ports[i].timestamp, since_start));
}

/// The number of open ports.
pub open spec fn open_ports(ports: Seq<PortView>) -> nat
    decreases ports.len(),
{
    if ports.len() == 0 {
        0
    } else {
        open_ports(ports.drop_last()) + (if ports.last().open {
            1nat
        } else {
            0nat
        })
    }
}

/// The controller counts exactly the open ports.
pub open spec fn accounted(ports: Seq<PortView>, can: CanView) -> bool {
    can.wf() && can.open_count == open_ports(ports)
}

proof fn lemma_open_ports_update(ports: Seq<PortView>, i: int, p: PortView)
    requires
        0 <= i < ports.len(),
    ensures
        open_ports(ports.update(i, p)) == open_ports(ports) - (if ports[i].open {
            1int
        } else {
            0
        }) + (if p.open {
            1int
        } else {
            0
        }),
        ports[i].open ==> open_ports(ports) > 0,
    decreases ports.len(),
{
    let q = ports.update(i, p);
    if i == ports.len() - 1 {
        assert(q.drop_last() =~= ports.drop_last());
    } else {
        lemma_open_ports_update(ports.drop_last(), i, p);
        assert(q.drop_last() =~= ports.drop_last().update(i, p));
    }
}

proof fn lemma_open_ports_some(ports: Seq<PortView>)
    ensures
        open_ports(ports) > 0 <==> exists|i: int| 0 <= i < ports.len() && (#[trigger] ports[i]).open,
    decreases ports.len(),
{
    if ports.len() > 0 {
        let front = ports.drop_last();
        lemma_open_ports_some(front);
        if open_ports(front) > 0 {
            let i = choose|i: int| 0 <= i < front.len() && (#[trigger] front[i]).open;
            assert(ports[i].open);
        } else {
            assert forall|i: int| 0 <= i < ports.len() && (#[trigger] ports[i]).open implies i
                == ports.len() - 1 by {
                if i < front.len() {
                    assert(front[i].open);
                }
            }
            if ports.last().open {
                assert(ports[ports.len() - 1].open);
            }
        }
    }
}

/// The controller is on the bus exactly while some port is open.
pub proof fn on_bus_while_any_port_open(ports: Seq<PortView>, can: CanView)
    requires
        accounted(ports, can),
    ensures
        can.bus is Some <==> exists|i: int| 0 <= i < ports.len() && (#[trigger] ports[i]).open,
{
    lemma_open_ports_some(ports);
}

/// Whatever command any port dispatches, the controller goes on counting exactly
/// the open ports.
pub proof fn dispatch_keeps_account(ports: Seq<PortView>, can: CanView, i: int)
    requires
        accounted(ports, can),
        0 <= i < ports.len(),
        ports[i].line.len() > 0,
        opens(ports[i]) ==> can.open_count < u32::MAX,
    ensures
        accounted(
            ports.update(i, dispatched(ports[i], can).port),
            dispatched(ports[i], can).can,
        ),
{
    lemma_open_ports_update(ports, i, dispatched(ports[i], can).port);
}

/// A port whose link is lost is closed as by a `C` command, and the account stays
/// right.
pub proof fn disconnect_keeps_account(ports: Seq<PortView>, can: CanView, i: int)
    requires
        accounted(ports, can),
        0 <= i < ports.len(),
    ensures
        accounted(
            ports.update(i, PortView { open: false, ..ports[i] }),
            if ports[i].open {
                can.closed_one()
            } else {
                can
            },
        ),
{
    lemma_open_ports_update(ports, i, PortView { open: false, ..ports[i] });
}

/// The commands of one port leave every other port as it is, and none of them
/// changes the bitrate or the mode of a controller that another port holds open.
pub proof fn ports_are_independent(ports: Seq<PortView>, can: CanView, i: int, j: int)
    requires
        accounted(ports, can),
        0 <= i < ports.len(),
        0 <= j < ports.len(),
        i != j,
        ports[j].open,
        ports[i].line.len() > 0,
    ensures
        ports.update(i, dispatched(ports[i], can).port)[j] == ports[j],
        dispatched(ports[i], can).can.bus == can.bus,
        dispatched(ports[i], can).can.baud == can.baud,
{
    let without = PortView { open: false, ..ports[j] };
    lemma_open_ports_update(ports, j, without);
    if ports[i].open {
        lemma_open_ports_update(ports.update(j, without), i, without);
        assert(ports.update(j, without)[i] == ports[i]);
        assert(open_ports(ports) >= 2);
    }
}

/// A transmit command on a closed port is answered with BELL and reaches nothing.
pub proof fn closed_port_sends_nothing(p: PortView, can: CanView)
    requires
        p.line.len() > 0,
        tx_kind(p.line[0]) is Some,
        !p.open,
    ensures
        dispatched(p, can).step == StepView::Reply(Reply::Bell),
        dispatched(p, can).can == can,
{
}

/// A frame that a host writes as a command on an open port, exactly as it would be
/// forwarded, is the frame that is transmitted, and counts as one from that host.
pub proof fn written_frame_is_transmitted(p: PortView, can: CanView, frame: FrameView)
    requires
        p.open,
        p.line == frame_text(frame),
        frame.canonical(),
        can.bus is Some,
    ensures
        dispatched(p, can).step == StepView::Transmit(twai_of(frame).unwrap()),
        dispatched(p, can).counted,
        dispatched(p, can).can == can,
{
    parse_inverts_format(frame);
    assert(p.line[0] == tx_letter(frame.ext, frame.rtr));
}

/// A bitrate is taken only while the channel is fully closed; otherwise `Sn` is
/// answered with BELL and changes nothing.
pub proof fn bitrate_needs_closed_channel(p: PortView, can: CanView)
    requires
        p.line.len() > 0,
        p.line[0] == 'S' as u8,
        can.open_count > 0,
    ensures
        dispatched(p, can).step == StepView::Reply(Reply::Bell),
        dispatched(p, can).can == can,
{
}

/// Opening an open port again, or closing a closed one, is answered with CR and
/// changes nothing.
pub proof fn open_and_close_are_idempotent(p: PortView, can: CanView)
    requires
        p.line.len() > 0,
        (p.open && (p.line[0] == 'O' as u8 || p.line[0] == 'L' as u8)) || (!p.open && p.line[0]
            == 'C' as u8),
    ensures
        dispatched(p, can).step == StepView::Reply(Reply::Done),
        dispatched(p, can).can == can,
        dispatched(p, can).port == (PortView { line: Seq::empty(), ..p }),
{
}

/// Opening, listening and closing are always answered with CR. The controller is opened
/// or closed once where the port was not open or was, and else not at all; the timestamp
/// switch stays.
pub proof fn open_and_close_are_acknowledged(p: PortView, can: CanView)
    requires
        p.line.len() > 0,
        p.line[0] == 'O' as u8 || p.line[0] == 'L' as u8 || p.line[0] == 'C' as u8,
    ensures
        ({
            let d = dispatched(p, can);
            &&& d.step.settled() == Some(Reply::Done)
            &&& Reply::Done.text() == seq![CR]
            &&& d.port.open == (p.line[0] != 'C' as u8)
            &&& d.port.timestamp == p.timestamp
            &&& d.can == if p.open == (p.line[0] != 'C' as u8) {
                can
            } else if p.line[0] == 'C' as u8 {
                can.closed_one()
            } else {
                can.opened(p.line[0] == 'L' as u8)
            }
            &&& !d.counted
        }),
{
}

/// Closing a port undoes what opening it did to the controller.
pub proof fn close_undoes_open(p: PortView, can: CanView, close: Seq<u8>)
    requires
        can.wf(),
        p.line.len() > 0,
        opens(p),
        close.len() > 0,
        close[0] == 'C' as u8,
    ensures
        ({
            let d = dispatched(p, can);
            let e = dispatched(PortView { line: close, ..d.port }, d.can);
            e.can == can && e.port == (PortView { line: Seq::empty(), ..p })
        }),
{
}

/// The bytes of a command that are no line end, in order.
pub open spec fn without_lf(bytes: Seq<u8>) -> Seq<u8> {
    bytes.filter(|b: u8| b != 0x0a)
}

/// Bytes that hold no CR and fit the line buffer are collected in order, line
/// feeds left out, and without a word to the host. A CR then completes the line.
pub proof fn command_is_collected(p: PortView, bytes: Seq<u8>)
    requires
        !bytes.contains(CR),
        p.line.len() + without_lf(bytes).len() <= LINE_MAX,
    ensures
        p.quiet(bytes),
        p.fed_all(bytes) == (PortView { line: p.line + without_lf(bytes), ..p }),
        p.line.len() + without_lf(bytes).len() > 0 ==> p.fed_all(bytes).fed(CR).1 is Command,
    decreases bytes.len(),
{
    reveal(Seq::filter);
    if bytes.len() > 0 {
        let front = bytes.drop_last();
        let b = bytes.last();
        assert(bytes[bytes.len() - 1] == b);
        assert(b != CR);
        assert(!front.contains(CR)) by {
            if front.contains(CR) {
                let k = choose|k: int| 0 <= k < front.len() && front[k] == CR;
                assert(bytes[k] == CR);
            }
        }
        command_is_collected(p, front);
        assert(p.fed_all(bytes) =~= PortView { line: p.line + without_lf(bytes), ..p });
    } else {
        assert(p.fed_all(bytes) =~= PortView { line: p.line + without_lf(bytes), ..p });
    }
}

// --- What each command does ------------------------------------------------

/// The line without its command has been taken in, and nothing else has changed.
pub open spec fn taken_only(p: PortView, can: CanView, d: Dispatched) -> bool {
    &&& d.port.line.len() == 0
    &&& d.port.open == p.open
    &&& d.port.timestamp == p.timestamp
    &&& d.port.iface == p.iface
    &&& d.can == can
    &&& !d.counted
}

/// `O` on a closed port of a closed channel starts the controller in normal mode and `L`
/// in listen-only mode, at the rate that is selected. With the channel open already, its
/// mode stays.
pub proof fn opening_starts_the_controller(p: PortView, can: CanView)
    requires
        can.wf(),
        p.line.len() > 0,
        !p.open,
        p.line[0] == 0x4f || p.line[0] == 0x4c,
    ensures
        ({
            let d = dispatched(p, can);
            &&& can.open_count == 0 ==> (d.step matches StepView::Start(mode) && d.can.bus == Some(
                mode,
            ) && mode.listen_only == (p.line[0] == 0x4c) && mode.baud == can.baud)
            &&& can.open_count > 0 ==> d.step == StepView::Reply(Reply::Done) && d.can.bus
                == can.bus
            &&& d.can.open_count == can.open_count + 1
            &&& d.port.open
        }),
{
}

/// `C` on the last open port takes the controller off the bus, and on another one it does
/// not.
pub proof fn closing_the_last_port_stops_the_controller(p: PortView, can: CanView)
    requires
        can.wf(),
        p.line.len() > 0,
        p.open,
        p.line[0] == 0x43,
    ensures
        ({
            let d = dispatched(p, can);
            &&& can.open_count == 1 ==> d.step is Stop && d.can.bus is None
            &&& can.open_count > 1 ==> d.step == StepView::Reply(Reply::Done) && d.can.bus
                == can.bus
            &&& !d.port.open
        }),
{
}

/// `Sn` with a digit of the table is acknowledged while the channel is closed. A port that
/// then opens the channel starts the controller at the rate that the table names for the
/// digit, in the mode it asks for.
pub proof fn acknowledged_rate_is_used(p: PortView, can: CanView, open: Seq<u8>)
    requires
        can.wf(),
        can.open_count == 0,
        !p.open,
        p.line.len() > 1,
        p.line[0] == 0x53,
        open.len() > 0,
        open[0] == 0x4f || open[0] == 0x4c,
    ensures
        dispatched(p, can).step == StepView::Reply(Reply::Done) <==> 0x32 <= p.line[1] <= 0x38,
        ({
            let d = dispatched(p, can);
            let e = dispatched(PortView { line: open, ..d.port }, d.can);
            0x32 <= p.line[1] <= 0x38 ==> (e.step matches StepView::Start(mode)
                && mode.baud.bits_per_second() == lawicel_rate(p.line[1]) && mode.listen_only == (
            open[0] == 0x4c))
        }),
{
    selected_rate_is_used(can, p.line[1], open[0] == 0x4c);
}

/// `Sn` without a digit, or with one that the table does not hold, is refused and changes
/// nothing.
pub proof fn other_rates_are_refused(p: PortView, can: CanView)
    requires
        p.line.len() > 0,
        p.line[0] == 0x53,
        p.line.len() == 1 || p.line[1] < 0x32 || p.line[1] > 0x38,
    ensures
        dispatched(p, can).step == StepView::Reply(Reply::Bell),
        taken_only(p, can, dispatched(p, can)),
{
    if p.line.len() > 1 {
        selected_rate_is_used(can, p.line[1], false);
    }
}

/// Questions are answered and change nothing: `V`, `N`, and `F` from the controller's error
/// state. `M`, `m` and `A` are accepted and change nothing either.
pub proof fn questions_change_nothing(p: PortView, can: CanView)
    requires
        p.line.len() > 0,
    ensures
        p.line[0] == 0x56 ==> dispatched(p, can).step == StepView::Reply(Reply::Version)
            && taken_only(p, can, dispatched(p, can)),
        p.line[0] == 0x4e ==> dispatched(p, can).step == StepView::Reply(Reply::Serial)
            && taken_only(p, can, dispatched(p, can)),
        p.line[0] == 0x46 ==> dispatched(p, can).step is ReadStatus && taken_only(
            p,
            can,
            dispatched(p, can),
        ),
        p.line[0] == 0x4d || p.line[0] == 0x6d || p.line[0] == 0x41 ==> dispatched(p, can).step
            == StepView::Reply(Reply::Done) && taken_only(p, can, dispatched(p, can)),
{
}

/// `Z1` switches timestamps on and `Z0` off; anything else behind `Z` is refused. Nothing
/// else changes, and the next frame is stamped accordingly.
pub proof fn timestamps_are_switched(p: PortView, can: CanView, since_start: u64)
    requires
        p.line.len() > 0,
        p.line[0] == 0x5a,
    ensures
        ({
            let d = dispatched(p, can);
            let known = p.line.len() > 1 && (p.line[1] == 0x30 || p.line[1] == 0x31);
            &&& known ==> d.step == StepView::Reply(Reply::Done) && d.port.timestamp == (p.line[1]
                == 0x31)
            &&& !known ==> d.step == StepView::Reply(Reply::Bell) && d.port.timestamp
                == p.timestamp
            &&& taken_only(PortView { timestamp: d.port.timestamp, ..p }, can, d)
            &&& known ==> (stamp(d.port.timestamp, since_start) is Some <==> p.line[1] == 0x31)
        }),
{
}

/// A timestamp is the time in milliseconds within the minute.
pub proof fn timestamp_is_the_time(since_start: u64)
    ensures
        stamp(true, since_start) matches Some(t) && t < 60_000 && (since_start - t) % 60_000 == 0,
        stamp(false, since_start) is None,
{
}

/// A transmit command that is well formed counts as a frame from its host whether the port
/// is open or not. It is transmitted where the port is open and the controller on the bus,
/// and refused otherwise; one that is malformed is refused and does not count. The
/// controller and the port stay as they are.
pub proof fn transmit_commands(p: PortView, can: CanView)
    requires
        p.line.len() > 0,
        p.line[0] == 0x74 || p.line[0] == 0x54 || p.line[0] == 0x72 || p.line[0] == 0x52,
    ensures
        ({
            let d = dispatched(p, can);
            &&& d.counted <==> parsed(p.line) is Some
            &&& parsed(p.line) is None || !p.open || can.bus is None ==> d.step == StepView::Reply(
                Reply::Bell,
            )
            &&& parsed(p.line) is Some && p.open && can.bus is Some ==> d.step is Transmit
                && Some(d.step->Transmit_0) == twai_of(parsed(p.line).unwrap())
            &&& d.can == can
            &&& taken_only(p, can, Dispatched { counted: false, ..d })
        }),
{
    if let Some(f) = parsed(p.line) {
        format_inverts_parse(p.line);
        controller_gets_the_frame(f);
    }
}

/// Every other command is refused and changes nothing, `s` among them.
pub proof fn other_commands_are_refused(p: PortView, can: CanView)
    requires
        p.line.len() > 0,
        !"VNFMmAZSOLCtTrR"@.contains(p.line[0] as char),
    ensures
        dispatched(p, can).step == StepView::Reply(Reply::Bell),
        taken_only(p, can, dispatched(p, can)),
{
    reveal_strlit("VNFMmAZSOLCtTrR");
    let known = "VNFMmAZSOLCtTrR"@;
    assert(known[0] == 'V' && known[1] == 'N' && known[2] == 'F' && known[3] == 'M' && known[4]
        == 'm' && known[5] == 'A' && known[6] == 'Z' && known[7] == 'S' && known[8] == 'O'
        && known[9] == 'L' && known[10] == 'C' && known[11] == 't' && known[12] == 'T' && known[13]
        == 'r' && known[14] == 'R');
    let c = p.line[0] as char;
    assert forall|i: int| 0 <= i < 15 implies known[i] != c by {
        assert(known.contains(known[i]));
    }
}

/// Whatever is dispatched, the line is taken in and the port goes on with the same host.
pub proof fn dispatch_takes_the_line(p: PortView, can: CanView)
    requires
        p.line.len() > 0,
    ensures
        dispatched(p, can).port.line.len() == 0,
        dispatched(p, can).port.iface == p.iface,
{
}

/// The answers on the wire: CR or BEL alone, the two fixed answers, `F` with the two
/// hexadecimal digits of the status, and `z` or `Z` for a frame that was sent.
pub proof fn answers_on_the_wire(f: u8)
    ensures
        Reply::Done.text() == seq![0x0du8],
        Reply::Bell.text() == seq![0x07u8],
        Reply::Version.text().len() == 6,
        forall|i: int|
            0 <= i < 6 ==> Reply::Version.text()[i] == #[trigger] "V1013\r"@[i] as u8,
        Reply::Serial.text().len() == 6,
        forall|i: int| 0 <= i < 6 ==> Reply::Serial.text()[i] == #[trigger] "N1234\r"@[i] as u8,
        Reply::Flags(f).text().len() == 4,
        Reply::Flags(f).text()[0] == 0x46,
        hex_number(Reply::Flags(f).text().subrange(1, 3)) == Some(f as nat),
        Reply::Flags(f).text()[3] == 0x0d,
        (Reply::Sent { extended: false }).text() == seq![0x7au8, 0x0du8],
        (Reply::Sent { extended: true }).text() == seq![0x5au8, 0x0du8],
{
    reveal_strlit("V1013\r");
    reveal_strlit("N1234\r");
    let digits = Reply::Flags(f).text().subrange(1, 3);
    digit_reads_back((f / 16) as nat);
    digit_reads_back((f % 16) as nat);
    assert(digits.drop_last().drop_last() =~= Seq::empty());
    assert(hex_number(digits.drop_last().drop_last()) == Some(0nat));
    assert(digits.drop_last().last() == hex_char((f / 16) as nat));
    assert(hex_number(digits.drop_last()) == Some((f / 16) as nat));
    assert(digits.last() == hex_char((f % 16) as nat));
}

/// The sum of all counters moves by one, on the interface that the frame came in on or
/// went out to, and the counters of the bus stay.
pub proof fn one_counter_moves(c: Counters)
    ensures
        counted_in(c, Iface::Serial) == (Counters { ser_in: bump(c.ser_in), ..c }),
        counted_in(c, Iface::Tcp) == (Counters { tcp_in: bump(c.tcp_in), ..c }),
        counted_out(c, Iface::Serial) == (Counters { ser_out: bump(c.ser_out), ..c }),
        counted_out(c, Iface::Tcp) == (Counters { tcp_out: bump(c.tcp_out), ..c }),
{
}

/// Only line feeds are left out of what a host sends.
pub proof fn only_line_feeds_are_left_out(bytes: Seq<u8>, b: u8)
    ensures
        without_lf(Seq::empty()).len() == 0,
        without_lf(bytes.push(b)) == if b == 0x0a {
            without_lf(bytes)
        } else {
            without_lf(bytes).push(b)
        },
{
    reveal(Seq::filter);
    assert(bytes.push(b).drop_last() =~= bytes);
}

/// A frame that was sent is confirmed with `z` for 11-bit and `Z` for 29-bit identifiers, and
/// one that was not is answered with BEL.
pub proof fn sent_frames_are_confirmed(raw: u16, wide: u32)
    ensures
        transmit_answer(FrameId::Standard(raw), true).text() == seq![0x7au8, 0x0du8],
        transmit_answer(FrameId::Extended(wide), true).text() == seq![0x5au8, 0x0du8],
        transmit_answer(FrameId::Standard(raw), false).text() == seq![0x07u8],
        transmit_answer(FrameId::Extended(wide), false).text() == seq![0x07u8],
{
}

/// A command line has up to 64 bytes.
pub proof fn line_size()
    ensures
        LINE_MAX == 64,
{
}

/// A link ends where a read fails or gives nothing, and not before.
pub proof fn links_end_where_reads_do(n: usize)
    ensures
        act_of(None) == Act::Stop,
        act_of(Some(n)) == Act::Stop <==> n == 0,
        n > 0 ==> act_of(Some(n)) == Act::Bytes(n),
{
}

/// A command is answered at once, also where it starts or stops the controller, unless the
/// answer depends on what the controller says. A byte is answered only where it runs over.
pub proof fn answers_wait_for_the_controller(r: Reply, mode: BusMode, t: TwaiView)
    ensures
        StepView::Reply(r).settled() == Some(r),
        StepView::Start(mode).settled() == Some(Reply::Done),
        StepView::Stop.settled() == Some(Reply::Done),
        StepView::ReadStatus.settled() is None,
        StepView::Transmit(t).settled() is None,
        Fed::Nothing.immediate() is None,
        Fed::Command.immediate() is None,
        Fed::Overflow.immediate() == Some(Reply::Bell),
{
}

} // verus!
