//! The line protocol, the shared controller and the ports.

use espcan_br::can::{
    baud_from_s, from_esp, to_esp, BaudRate, BusErrors, CanManager, Counters, FrameId, RxRound,
    RxStep, TxAttempt, TxResult, TxStep, RX_BURST, TX_RETRIES,
};
use espcan_br::hex::{decode_hex, hex_digit, nibble, parse_hex, push_hex, put_hex};
use espcan_br::slcan::{format_frame, parse_tx, CanFrame, BELL, CR, MAX_FRAME_ASCII};
use espcan_br::transport::{
    act_on_read, now_ms, status_reply, transmit_reply, Act, Fed, Iface, Port, Reply, Step, LINE_MAX,
};

fn frame(id: u32, ext: bool, rtr: bool, data: &[u8]) -> CanFrame {
    let mut f = CanFrame::default();
    f.id = id;
    f.ext = ext;
    f.rtr = rtr;
    f.dlc = data.len() as u8;
    f.data[..data.len()].copy_from_slice(data);
    f
}

fn line_of(f: &CanFrame, ts: Option<u16>) -> Vec<u8> {
    let mut out = [0u8; MAX_FRAME_ASCII];
    let n = format_frame(f, ts, &mut out);
    out[..n].to_vec()
}

fn same(a: &CanFrame, b: &CanFrame) -> bool {
    a.id == b.id && a.ext == b.ext && a.rtr == b.rtr && a.dlc == b.dlc && a.data == b.data
}

/// Feeds a command line and dispatches it.
fn command(port: &mut Port, can: &mut CanManager, c: &mut Counters, line: &[u8]) -> Step {
    for b in line {
        assert!(matches!(port.feed(*b), Fed::Nothing));
    }
    assert!(matches!(port.feed(CR), Fed::Command));
    port.dispatch(can, c)
}

fn reply_bytes(step: Step) -> Vec<u8> {
    match step {
        Step::Reply(r) => r.bytes(),
        _ => panic!("no plain answer"),
    }
}

#[test]
fn hex_digits_in_both_cases() {
    assert_eq!(nibble(b'0'), Some(0));
    assert_eq!(nibble(b'9'), Some(9));
    assert_eq!(nibble(b'a'), Some(10));
    assert_eq!(nibble(b'F'), Some(15));
    assert_eq!(nibble(b'g'), None);
    assert_eq!(nibble(b'@'), None);
    for v in 0..16u8 {
        assert_eq!(nibble(hex_digit(v)), Some(v));
    }
    assert_eq!(hex_digit(0x1c), b'C');
}

#[test]
fn hex_numbers_and_bytes() {
    assert_eq!(parse_hex(b"7FF"), Some(0x7ff));
    assert_eq!(parse_hex(b"1fffffff"), Some(0x1fff_ffff));
    assert_eq!(parse_hex(b""), Some(0));
    assert_eq!(parse_hex(b"1x"), None);
    assert_eq!(parse_hex(b"123456789"), Some(0x2345_6789));
    let mut d = [0u8; 3];
    assert!(decode_hex(b"DEad", &mut d));
    assert_eq!(d, [0xde, 0xad, 0]);
    assert!(!decode_hex(b"0z", &mut d));
    let mut out = *b"......";
    put_hex(&mut out, 1, 0x1ab, 4);
    assert_eq!(&out, b".01AB.");
    let mut s = String::from("k=");
    push_hex(&mut s, &[0x04, 0xaf]);
    assert_eq!(s, "k=04AF");
}

#[test]
fn standard_frame_is_parsed() {
    let f = parse_tx(b"t1234DEADBEEF").unwrap();
    assert!(same(&f, &frame(0x123, false, false, &[0xde, 0xad, 0xbe, 0xef])));
}

#[test]
fn extended_and_remote_frames_are_parsed() {
    let f = parse_tx(b"T1ABCDEF02a1b2").unwrap();
    assert!(same(&f, &frame(0x1abcdef0, true, false, &[0xa1, 0xb2])));
    let mut r = frame(0x7ff, false, true, &[]);
    r.dlc = 8;
    assert!(same(&parse_tx(b"r7FF8").unwrap(), &r));
    let mut r = frame(0x1, true, true, &[]);
    r.dlc = 3;
    assert!(same(&parse_tx(b"R000000013").unwrap(), &r));
}

#[test]
fn malformed_frames_are_refused() {
    assert!(parse_tx(b"").is_none());
    assert!(parse_tx(b"x1230").is_none());
    assert!(parse_tx(b"t123").is_none());
    assert!(parse_tx(b"t12G0").is_none());
    assert!(parse_tx(b"t1239").is_none());
    assert!(parse_tx(b"t1232AB").is_none());
    assert!(parse_tx(b"t1232ABCx").is_none());
    assert!(parse_tx(b"T1ABCDEF").is_none());
    assert!(parse_tx(b"t1230trailing").is_none());
    assert!(parse_tx(b"t1230FF").is_none());
    assert!(parse_tx(b"r1232AABB").is_none());
    assert!(parse_tx(b"t1231AAt1231BB").is_none());
    assert!(parse_tx(b"t1231AA").is_some());
}

#[test]
fn identifiers_of_a_command_have_their_range() {
    assert_eq!(parse_tx(b"t7FF0").unwrap().id, 0x7ff);
    assert!(parse_tx(b"t8000").is_none());
    assert!(parse_tx(b"rFFF0").is_none());
    assert_eq!(parse_tx(b"T1FFFFFFF0").unwrap().id, 0x1fff_ffff);
    assert!(parse_tx(b"T200000000").is_none());
    assert!(parse_tx(b"RFFFFFFFF0").is_none());
}

#[test]
fn frames_are_formatted() {
    assert_eq!(line_of(&frame(0x123, false, false, &[0xde, 0xad]), None), b"t1232DEAD\r");
    assert_eq!(
        line_of(&frame(0x1abcdef0, true, false, &[1, 2, 3, 4, 5, 6, 7, 8]), Some(59999)),
        b"T1ABCDEF080102030405060708EA5F\r"
    );
    let mut r = frame(0x7f, false, true, &[]);
    r.dlc = 4;
    assert_eq!(line_of(&r, Some(0)), b"r07F40000\r");
    r.ext = true;
    assert_eq!(line_of(&r, None), b"R0000007F4\r");
}

#[test]
fn formatted_frames_parse_back() {
    for f in [
        frame(0x7ff, false, false, &[]),
        frame(0, false, false, &[0, 255]),
        frame(0x1fff_ffff, true, false, &[9; 8]),
    ] {
        let line = line_of(&f, None);
        assert!(same(&parse_tx(&line[..line.len() - 1]).unwrap(), &f));
    }
    let line = b"t1fa2beef";
    let f = parse_tx(line).unwrap();
    assert_eq!(line_of(&f, None), b"t1FA2BEEF\r");
}

#[test]
fn bitrates_follow_the_table() {
    assert!(baud_from_s(b'0').is_none());
    assert!(baud_from_s(b'1').is_none());
    assert!(baud_from_s(b'9').is_none());
    assert!(matches!(baud_from_s(b'4'), Some(BaudRate::B125K)));
    assert!(matches!(baud_from_s(b'5'), Some(BaudRate::B250K)));
    assert!(matches!(baud_from_s(b'6'), Some(BaudRate::B500K)));
    assert!(matches!(baud_from_s(b'8'), Some(BaudRate::B1000K)));
    for (digit, rate) in [(b'2', 50_000u32), (b'3', 100_000), (b'7', 800_000)] {
        match baud_from_s(digit) {
            Some(BaudRate::Custom(t)) => {
                let quanta = 1 + t.tseg_1 as u32 + t.tseg_2 as u32;
                assert_eq!(80_000_000 / (t.baud_rate_prescaler as u32 * quanta), rate);
                assert_eq!(t.sync_jump_width, 3);
                assert!(!t.triple_sample);
            }
            _ => panic!("custom timing expected"),
        }
    }
}

#[test]
fn identifiers_are_checked_against_their_range() {
    let t = to_esp(&frame(0x7ff, false, false, &[1])).unwrap();
    assert!(matches!(t.id, FrameId::Standard(0x7ff)));
    assert_eq!(t.payload(), [1]);
    assert!(to_esp(&frame(0x800, false, false, &[])).is_none());
    assert!(to_esp(&frame(0x1_0123, false, false, &[])).is_none());
    let t = to_esp(&frame(0x1fff_ffff, true, false, &[])).unwrap();
    assert!(matches!(t.id, FrameId::Extended(0x1fff_ffff)));
    assert!(to_esp(&frame(0x2000_0000, true, false, &[])).is_none());
}

#[test]
fn received_frames_come_back_as_sent() {
    let f = frame(0x123, false, false, &[1, 2, 3]);
    let t = to_esp(&f).unwrap();
    let g = from_esp(t.id, t.remote, t.dlc as usize, t.payload());
    assert!(same(&f, &g));
    let g = from_esp(FrameId::Extended(5), true, 12, &[]);
    assert!(g.ext && g.rtr && g.id == 5 && g.dlc == 8);
}

#[test]
fn controller_is_on_the_bus_while_a_port_is_open() {
    let mut m = CanManager::new();
    assert!(m.running().is_none());
    assert!(m.can_open());
    assert!(m.set_bitrate(b'4'));
    let mode = m.open(true).unwrap();
    assert!(matches!(mode.baud, BaudRate::B125K) && mode.listen_only);
    assert!(!m.set_bitrate(b'6'));
    assert!(m.open(false).is_none());
    assert!(m.running().unwrap().listen_only);
    assert!(!m.close());
    assert!(m.running().is_some());
    assert!(m.close());
    assert!(m.running().is_none());
    assert!(!m.close());
    assert!(!m.set_bitrate(b'1'));
    assert!(m.set_bitrate(b'8'));
}

#[test]
fn status_flags_follow_the_error_counters() {
    let mut m = CanManager::new();
    let e = |receive, transmit, bus_off| BusErrors { receive, transmit, bus_off };
    assert_eq!(m.status_flags(e(255, 255, true)), 0);
    m.open(false);
    assert_eq!(m.status_flags(e(0, 95, false)), 0);
    assert_eq!(m.status_flags(e(96, 0, false)), 0x04);
    assert_eq!(m.status_flags(e(0, 128, false)), 0x24);
    assert_eq!(m.status_flags(e(0, 0, true)), 0x80);
    assert_eq!(status_reply(&m, e(128, 0, true)).bytes(), b"FA4\r");
}

#[test]
fn received_frames_are_counted_while_open() {
    let mut c = Counters::new();
    let mut m = CanManager::new();
    assert!(m.poll_rx(Some(frame(1, false, false, &[])), &mut c).is_none());
    assert_eq!(c.can_rx, 0);
    m.open(false);
    assert_eq!(m.poll_rx(Some(frame(1, false, false, &[])), &mut c).unwrap().id, 1);
    assert!(m.poll_rx(None, &mut c).is_none());
    assert_eq!(c.can_rx, 1);
}

#[test]
fn transmit_gives_up_on_a_full_queue() {
    let mut c = Counters::new();
    let mut a = TxAttempt::new();
    for _ in 0..TX_RETRIES {
        assert!(a.on_result(TxResult::WouldBlock, &mut c) == TxStep::Retry);
    }
    assert!(a.on_result(TxResult::WouldBlock, &mut c) == TxStep::Done(false));
    assert_eq!(c.can_tx, 0);
    assert!(TxAttempt::new().on_result(TxResult::Failed, &mut c) == TxStep::Done(false));
    assert!(TxAttempt::new().on_result(TxResult::Sent, &mut c) == TxStep::Done(true));
    assert_eq!(c.can_tx, 1);
}

#[test]
fn receive_round_is_a_bounded_burst() {
    let mut r = RxRound::new();
    assert!(matches!(r.on_poll(false), RxStep::End { pause: true }));
    let mut r = RxRound::new();
    for _ in 1..RX_BURST {
        assert!(matches!(r.on_poll(true), RxStep::Again));
    }
    assert!(matches!(r.on_poll(true), RxStep::End { pause: false }));
    let mut r = RxRound::new();
    r.on_poll(true);
    assert!(matches!(r.on_poll(false), RxStep::End { pause: false }));
}

#[test]
fn plain_commands_are_answered() {
    let (mut p, mut m, mut c) = (Port::new(Iface::Serial), CanManager::new(), Counters::new());
    assert_eq!(reply_bytes(command(&mut p, &mut m, &mut c, b"V")), b"V1013\r");
    assert_eq!(reply_bytes(command(&mut p, &mut m, &mut c, b"N")), b"N1234\r");
    for line in [&b"M00000000"[..], b"mFFFFFFFF", b"A1", b"Z0", b"Z1", b"S6", b"C"] {
        assert_eq!(reply_bytes(command(&mut p, &mut m, &mut c, line)), [CR]);
    }
    for line in [&b"Z"[..], b"Z2", b"S", b"S0", b"s031C", b"x", b"t1230", b"O"] {
        if line == b"O" {
            assert!(matches!(command(&mut p, &mut m, &mut c, line), Step::Start(_)));
        } else {
            assert_eq!(reply_bytes(command(&mut p, &mut m, &mut c, line)), [BELL]);
        }
    }
    assert!(matches!(command(&mut p, &mut m, &mut c, b"F"), Step::ReadStatus));
    assert_eq!(reply_bytes(command(&mut p, &mut m, &mut c, b"S5")), [BELL]);
    assert_eq!(c.ser_in, 1);
}

#[test]
fn ports_share_the_controller() {
    let (mut m, mut c) = (CanManager::new(), Counters::new());
    let (mut a, mut b) = (Port::new(Iface::Serial), Port::new(Iface::Tcp));
    assert!(matches!(command(&mut a, &mut m, &mut c, b"O"), Step::Start(_)));
    assert_eq!(reply_bytes(command(&mut a, &mut m, &mut c, b"O")), [CR]);
    assert_eq!(reply_bytes(command(&mut b, &mut m, &mut c, b"L")), [CR]);
    assert!(a.is_open() && b.is_open());
    assert!(!a.disconnect(&mut m));
    assert!(m.running().is_some());
    assert!(matches!(command(&mut b, &mut m, &mut c, b"C"), Step::Stop));
    assert!(!b.disconnect(&mut m));
    assert!(m.running().is_none());
}

#[test]
fn transmit_commands_reach_the_controller() {
    let (mut m, mut c) = (CanManager::new(), Counters::new());
    let mut p = Port::new(Iface::Tcp);
    assert!(matches!(command(&mut p, &mut m, &mut c, b"O"), Step::Start(_)));
    let t = match command(&mut p, &mut m, &mut c, b"t1232BEEF") {
        Step::Transmit(t) => t,
        _ => panic!("transmit expected"),
    };
    assert_eq!(t.payload(), [0xbe, 0xef]);
    assert_eq!(transmit_reply(&t, true).bytes(), b"z\r");
    assert_eq!(transmit_reply(&t, false).bytes(), [BELL]);
    let t = match command(&mut p, &mut m, &mut c, b"R000000012") {
        Step::Transmit(t) => t,
        _ => panic!("transmit expected"),
    };
    assert!(t.remote && t.payload().is_empty());
    assert_eq!(transmit_reply(&t, true).bytes(), b"Z\r");
    assert_eq!(reply_bytes(command(&mut p, &mut m, &mut c, b"t8000")), [BELL]);
    assert_eq!(reply_bytes(command(&mut p, &mut m, &mut c, b"t12")), [BELL]);
    assert_eq!(c.tcp_in, 2);
    assert_eq!(c.can_tx, 0);
    assert!(matches!(Reply::Sent { extended: true }, Reply::Sent { .. }));
}

#[test]
fn frames_are_forwarded_while_open() {
    let (mut m, mut c) = (CanManager::new(), Counters::new());
    let mut p = Port::new(Iface::Serial);
    let f = frame(0x123, false, false, &[0x11]);
    let mut out = [0u8; MAX_FRAME_ASCII];
    assert_eq!(p.on_frame(&f, 1234, &mut out, &mut c), 0);
    assert!(matches!(command(&mut p, &mut m, &mut c, b"O"), Step::Start(_)));
    let n = p.on_frame(&f, 1234, &mut out, &mut c);
    assert_eq!(&out[..n], b"t123111\r");
    command(&mut p, &mut m, &mut c, b"Z1");
    let n = p.on_frame(&f, 60_010, &mut out, &mut c);
    assert_eq!(&out[..n], b"t123111000A\r");
    assert_eq!(c.ser_out, 2);
    assert_eq!(now_ms(119_999), 59_999);
}

#[test]
fn long_lines_are_dropped() {
    let mut p = Port::new(Iface::Serial);
    assert!(matches!(p.feed(CR), Fed::Nothing));
    assert!(matches!(p.feed(b'\n'), Fed::Nothing));
    for _ in 0..LINE_MAX {
        assert!(matches!(p.feed(b'x'), Fed::Nothing));
    }
    assert!(matches!(p.feed(b'x'), Fed::Overflow));
    assert!(matches!(p.feed(CR), Fed::Nothing));
    assert!(matches!(p.feed(b'V'), Fed::Nothing));
    assert!(matches!(p.feed(CR), Fed::Command));
}

#[test]
fn written_frame_is_the_one_sent() {
    let (mut m, mut c) = (CanManager::new(), Counters::new());
    let mut p = Port::new(Iface::Serial);
    assert!(matches!(command(&mut p, &mut m, &mut c, b"O"), Step::Start(_)));
    let f = frame(0x1234567, true, false, &[7, 8, 9]);
    let line = line_of(&f, None);
    match command(&mut p, &mut m, &mut c, &line[..line.len() - 1]) {
        Step::Transmit(t) => {
            assert!(same(&f, &from_esp(t.id, t.remote, t.dlc as usize, t.payload())));
        }
        _ => panic!("transmit expected"),
    }
    assert_eq!(c.ser_in, 1);
}

#[test]
fn open_ports_get_every_frame() {
    let (mut m, mut c) = (CanManager::new(), Counters::new());
    let mut ports = [Port::new(Iface::Serial), Port::new(Iface::Tcp), Port::new(Iface::Tcp)];
    command(&mut ports[0], &mut m, &mut c, b"O");
    command(&mut ports[2], &mut m, &mut c, b"O");
    let f = frame(1, false, false, &[]);
    let mut out = [0u8; MAX_FRAME_ASCII];
    let lengths = ports.map(|p| p.on_frame(&f, 0, &mut out, &mut c));
    assert_eq!(lengths, [6, 0, 6]);
    assert_eq!((c.ser_out, c.tcp_out), (1, 1));
}

#[test]
fn links_end_at_eof_and_errors() {
    assert_eq!(act_on_read(Some(5)), Act::Bytes(5));
    assert_eq!(act_on_read(Some(0)), Act::Stop);
    assert_eq!(act_on_read(None), Act::Stop);
    assert!(Fed::Command.answers() && Fed::Overflow.answers() && !Fed::Nothing.answers());
}

/// Runs a stream through a port, and gives all that its host is answered.
fn conversation(reads: &[&[u8]]) -> Vec<u8> {
    let (mut p, mut m, mut c) = (Port::new(Iface::Tcp), CanManager::new(), Counters::new());
    let mut out = Vec::new();
    for b in reads.concat() {
        let fed = p.feed(b);
        let reply = match fed {
            Fed::Command => p.dispatch(&mut m, &mut c).reply(),
            _ => fed.reply(),
        };
        if let Some(r) = reply {
            out.extend_from_slice(&r.bytes());
        }
    }
    out
}

#[test]
fn streams_are_cut_into_commands() {
    assert_eq!(conversation(&[b"\rV\r\n\r\nO\rC\rN"]), b"V1013\r\r\r");
    assert_eq!(conversation(&[b"V", b"\rO", b"", b"\r", b"C\n\rN\rxyz"]), b"V1013\r\r\rN1234\r");
    assert_eq!(conversation(&[b"O\rO\rL\rC\rC\r"]), b"\r\r\r\r\r");
}

#[test]
fn overlong_lines_are_answered_with_bell() {
    let full = [b'V'; LINE_MAX];
    assert_eq!(conversation(&[&full, b"\r"]), b"V1013\r");
    assert_eq!(conversation(&[&full, b"x"]), [BELL]);
    assert_eq!(conversation(&[&full, b"\nx", b"\r"]), [BELL]);
    assert_eq!(conversation(&[&full, b"xN\r"]), b"\x07N1234\r");
    assert_eq!(conversation(&[&full, b"x", &full, b"y", b"V\r"]), b"\x07\x07V1013\r");
}

#[test]
fn starting_and_stopping_the_bus_is_acknowledged() {
    let (mut p, mut m, mut c) = (Port::new(Iface::Serial), CanManager::new(), Counters::new());
    let start = command(&mut p, &mut m, &mut c, b"L");
    assert!(matches!(start, Step::Start(mode) if mode.listen_only));
    assert_eq!(start.reply().unwrap().bytes(), [CR]);
    assert!(command(&mut p, &mut m, &mut c, b"F").reply().is_none());
    assert!(command(&mut p, &mut m, &mut c, b"t1230").reply().is_none());
    let stop = command(&mut p, &mut m, &mut c, b"C");
    assert!(matches!(stop, Step::Stop));
    assert_eq!(stop.reply().unwrap().bytes(), [CR]);
    assert_eq!(Fed::Overflow.reply().unwrap().bytes(), [BELL]);
    assert!(Fed::Nothing.reply().is_none() && Fed::Command.reply().is_none());
}
