//! The SLCAN / LAWICEL (CANUSB) ASCII protocol over a neutral [`CanFrame`].
//!
//! Only bytes and frames occur here; the line discipline that `slcand` and
//! `can-utils` speak is the de-facto Lawicel serial protocol.

use crate::hex::{
    bytes_hex, decode_hex, hex_bytes, hex_char, hex_digit, hex_fixed, hex_number, hex_val, nibble,
    parse_hex, pow16, put_hex, upper_hex,
};
use vstd::prelude::*;

verus! {

/// ASCII BEL, the SLCAN "error / NACK" response.
pub const BELL: u8 = 0x07;

/// ASCII CR, the SLCAN command terminator and "OK / ACK" response.
pub const CR: u8 = 0x0d;

/// Upper bound on the length of a formatted frame:
/// `T` + 8 id + 1 dlc + 16 data + 4 timestamp + CR = 31, rounded up.
pub const MAX_FRAME_ASCII: usize = 32;

/// A neutral CAN frame, independent of any controller.
#[derive(Clone, Copy)]
pub struct CanFrame {
    /// 11-bit (standard) or 29-bit (extended) identifier.
    pub id: u32,
    /// Extended (29-bit) frame if true, standard (11-bit) if false.
    pub ext: bool,
    /// Remote-transmission-request frame (no data payload).
    pub rtr: bool,
    /// Data length code, 0..=8.
    pub dlc: u8,
    /// Payload; only the first `dlc` bytes are meaningful.
    pub data: [u8; 8],
}

/// The mathematical content of a [`CanFrame`].
#[verifier::ext_equal]
pub struct FrameView {
    pub id: u32,
    pub ext: bool,
    pub rtr: bool,
    pub dlc: u8,
    pub data: Seq<u8>,
}

impl View for CanFrame {
    type V = FrameView;

    open spec fn view(&self) -> FrameView {
        FrameView { id: self.id, ext: self.ext, rtr: self.rtr, dlc: self.dlc, data: self.data@ }
    }
}

/// `n` zero bytes.
pub open spec fn zeros(n: nat) -> Seq<u8> {
    Seq::new(n, |i: int| 0u8)
}

impl FrameView {
    /// A data frame announces no more bytes than it can carry.
    pub open spec fn wf(self) -> bool {
        &&& self.data.len() == 8
        &&& !self.rtr ==> self.dlc <= 8
    }

    /// The number of payload bytes that travel with the frame.
    pub open spec fn payload_len(self) -> nat {
        if self.rtr {
            0
        } else {
            self.dlc as nat
        }
    }

    /// A frame that the protocol can carry without loss: the identifier is one of its
    /// kind, the length code is a CAN length, and nothing hides behind the payload.
    pub open spec fn canonical(self) -> bool {
        &&& self.wf()
        &&& self.dlc <= 8
        &&& self.id <= id_max(self.ext)
        &&& self.data.skip(self.payload_len() as int) == zeros((8 - self.payload_len()) as nat)
    }
}

impl CanFrame {
    /// The frame with identifier zero and no payload.
    pub fn empty() -> (r: CanFrame)
        ensures
            r@ == (FrameView { id: 0, ext: false, rtr: false, dlc: 0, data: zeros(8) }),
    {
        let f = CanFrame { id: 0, ext: false, rtr: false, dlc: 0, data: [0u8;8] };
        assert(f.data@ =~= zeros(8));
        f
    }
}

impl Default for CanFrame {
    fn default() -> (r: CanFrame)
        ensures
            r@ == (FrameView { id: 0, ext: false, rtr: false, dlc: 0, data: zeros(8) }),
    {
        CanFrame::empty()
    }
}

/// What a transmit command letter asks for: `(extended, remote)`.
pub open spec fn tx_kind(c: u8) -> Option<(bool, bool)> {
    if c == 't' as u8 {
        Some((false, false))
    } else if c == 'T' as u8 {
        Some((true, false))
    } else if c == 'r' as u8 {
        Some((false, true))
    } else if c == 'R' as u8 {
        Some((true, true))
    } else {
        None
    }
}

/// The letter that introduces a frame.
pub open spec fn tx_letter(ext: bool, rtr: bool) -> u8 {
    if ext {
        if rtr {
            'R' as u8
        } else {
            'T' as u8
        }
    } else {
        if rtr {
            'r' as u8
        } else {
            't' as u8
        }
    }
}

/// The number of identifier digits.
pub open spec fn id_width(ext: bool) -> nat {
    if ext {
        8
    } else {
        3
    }
}

/// The highest identifier: it has 29 bits in an extended frame and 11 in a standard one.
pub open spec fn id_max(ext: bool) -> u32 {
    if ext {
        0x1FFF_FFFF
    } else {
        0x7FF
    }
}

/// The length of the command line that describes the frame `f`.
pub open spec fn tx_len(f: FrameView) -> nat {
    id_width(f.ext) + 2 + 2 * f.payload_len()
}

/// The frame that the transmit command `line` describes, if it is well formed:
/// letter, identifier, length code and, for data frames, the payload, with nothing
/// behind it. The identifier has to be one of its kind.
pub open spec fn parsed(line: Seq<u8>) -> Option<FrameView> {
    if line.len() == 0 {
        None
    } else {
        match tx_kind(line[0]) {
            Some((ext, rtr)) => {
                let w = id_width(ext) as int;
                if line.len() < w + 2 {
                    None
                } else {
                    match (hex_number(line.subrange(1, 1 + w)), hex_val(line[1 + w])) {
                        (Some(id), Some(dlc)) => if id <= id_max(ext) {
                            parsed_payload(line, id as u32, ext, rtr, dlc)
                        } else {
                            None
                        },
                        _ => None,
                    }
                }
            },
            None => None,
        }
    }
}

/// The frame that `line` describes, given what stands in front of the payload.
pub open spec fn parsed_payload(
    line: Seq<u8>,
    id: u32,
    ext: bool,
    rtr: bool,
    dlc: u8,
) -> Option<FrameView> {
    let start = id_width(ext) as int + 2;
    let size = if rtr {
        0int
    } else {
        dlc as int
    };
    if dlc > 8 || line.len() != start + 2 * size {
        None
    } else {
        match hex_bytes(line.subrange(start, start + 2 * size)) {
            Some(payload) => Some(
                FrameView { id, ext, rtr, dlc, data: payload + zeros((8 - size) as nat) },
            ),
            None => None,
        }
    }
}

/// The SLCAN line for `f`, with a four-digit timestamp where one is given.
pub open spec fn frame_line(f: FrameView, timestamp: Option<u16>) -> Seq<u8> {
    frame_text(f) + timestamp_text(timestamp) + seq![CR]
}

/// Letter, identifier, length code and payload of `f`.
pub open spec fn frame_text(f: FrameView) -> Seq<u8> {
    seq![tx_letter(f.ext, f.rtr)] + hex_fixed(f.id as nat, id_width(f.ext)) + seq![
        hex_char((f.dlc % 16) as nat),
    ] + bytes_hex(f.data.take(f.payload_len() as int))
}

/// The timestamp field.
pub open spec fn timestamp_text(timestamp: Option<u16>) -> Seq<u8> {
    match timestamp {
        Some(ts) => hex_fixed(ts as nat, 4),
        None => Seq::empty(),
    }
}

proof fn lemma_id_widths()
    ensures
        pow16(3) == 0x1000,
        pow16(8) == 0x1_0000_0000,
{
    reveal_with_fuel(pow16, 9);
}

/// Parses a transmit command line: `t`/`T`/`r`/`R` followed by id, dlc and data.
///
/// * `tIIILDD..`   standard data frame   (3 hex id)
/// * `TIIIIIIIILDD..` extended data frame (8 hex id)
/// * `rIIIL`       standard remote frame
/// * `RIIIIIIIIL`  extended remote frame
///
/// Returns `None` on any malformed input.
pub fn parse_tx(line: &[u8]) -> (r: Option<CanFrame>)
    ensures
        r is Some <==> parsed(line@) is Some,
        r matches Some(f) ==> parsed(line@) == Some(f@),
        r matches Some(f) ==> f@.wf() && f.dlc <= 8,
        r matches Some(f) ==> f.id <= (if f.ext {
            0x1FFF_FFFFu32
        } else {
            0x7FFu32
        }),
{
    if line.len() == 0 {
        return None;
    }
    let kind: u8 = line[0];
    let (ext, rtr): (bool, bool) = if kind == 't' as u8 {
        (false, false)
    } else if kind == 'T' as u8 {
        (true, false)
    } else if kind == 'r' as u8 {
        (false, true)
    } else if kind == 'R' as u8 {
        (true, true)
    } else {
        return None;
    };
    let idlen: usize = if ext {
        8
    } else {
        3
    };
    if line.len() < idlen + 2 {
        return None;
    }
    let id: u32 = match parse_hex(&line[1..1 + idlen]) {
        Some(id) => id,
        None => {
            return None;
        },
    };
    proof {
        let digits = line@.subrange(1, 1 + idlen);
        crate::hex::number_spells_back(digits);
        lemma_id_widths();
        assert(digits.len() == idlen);
    }
    if id > (if ext {
        0x1FFF_FFFF
    } else {
        0x7FF
    }) {
        return None;
    }
    let dlc: u8 = match nibble(line[1 + idlen]) {
        Some(dlc) => dlc,
        None => {
            return None;
        },
    };
    if dlc > 8 {
        return None;
    }
    let start: usize = idlen + 2;
    let size: usize = if rtr {
        0
    } else {
        dlc as usize
    };
    if line.len() != start + 2 * size {
        return None;
    }
    let mut data: [u8; 8] = [0u8;8];
    if !decode_hex(&line[start..start + 2 * size], &mut data) {
        return None;
    }
    let f = CanFrame { id, ext, rtr, dlc, data };
    assert(f.data@ =~= hex_bytes(line@.subrange(start as int, start + 2 * size)).unwrap() + zeros(
        (8 - size) as nat,
    ));
    Some(f)
}

/// Letter, identifier and length code of `f`.
spec fn header_text(f: FrameView) -> Seq<u8> {
    seq![tx_letter(f.ext, f.rtr)] + hex_fixed(f.id as nat, id_width(f.ext)) + seq![
        hex_char((f.dlc % 16) as nat),
    ]
}

/// Writes letter, identifier and length code to the front of `out`.
fn put_header(f: &CanFrame, out: &mut [u8]) -> (n: usize)
    requires
        id_width(f.ext) + 2 <= old(out)@.len(),
    ensures
        n == id_width(f.ext) + 2,
        header_text(f@).len() == n,
        final(out)@ =~= header_text(f@) + old(out)@.skip(n as int),
{
    out[0] =
    if f.ext {
        if f.rtr {
            'R' as u8
        } else {
            'T' as u8
        }
    } else {
        if f.rtr {
            'r' as u8
        } else {
            't' as u8
        }
    };
    let idlen: usize = if f.ext {
        8
    } else {
        3
    };
    put_hex(out, 1, f.id, idlen);
    out[1 + idlen] = hex_digit(f.dlc);
    idlen + 2
}

/// Writes the two-digit spelling of each byte of `data` into `out`, starting at
/// `at`.
fn put_payload(data: &[u8], out: &mut [u8], at: usize)
    requires
        at + 2 * data@.len() <= old(out)@.len(),
    ensures
        bytes_hex(data@).len() == 2 * data@.len(),
        final(out)@ =~= old(out)@.take(at as int) + bytes_hex(data@) + old(out)@.skip(
            at + 2 * data@.len(),
        ),
{
    let mut k: usize = 0;
    assert(data@.take(0) =~= Seq::<u8>::empty());
    while k < data.len()
        invariant
            k <= data@.len(),
            out@.len() == old(out)@.len(),
            at + 2 * data@.len() <= old(out)@.len(),
            bytes_hex(data@.take(k as int)).len() == 2 * k,
            out@ =~= old(out)@.take(at as int) + bytes_hex(data@.take(k as int)) + old(out)@.skip(
                at + 2 * k,
            ),
        decreases data@.len() - k,
    {
        assert(out@.len() == out.len());
        assert(data@.take(k + 1).drop_last() =~= data@.take(k as int));
        out[at + 2 * k] = hex_digit(data[k] / 16);
        out[at + 2 * k + 1] = hex_digit(data[k]);
        k = k + 1;
    }
    assert(data@.take(k as int) =~= data@);
}

/// Formats a frame as an SLCAN line into `out`, returning its length.
///
/// [`MAX_FRAME_ASCII`] bytes are always enough. If `timestamp` is `Some`, it is
/// appended as four hexadecimal digits before the trailing CR.
pub fn format_frame(f: &CanFrame, timestamp: Option<u16>, out: &mut [u8]) -> (n: usize)
    requires
        f@.wf(),
        frame_line(f@, timestamp).len() <= old(out)@.len(),
    ensures
        n == frame_line(f@, timestamp).len(),
        n <= MAX_FRAME_ASCII,
        final(out)@ =~= frame_line(f@, timestamp) + old(out)@.skip(n as int),
{
    let ghost before = out@;
    proof {
        lemma_line_len(f@, timestamp);
    }
    let start: usize = put_header(f, out);
    let size: usize = if f.rtr {
        0
    } else {
        f.dlc as usize
    };
    let ghost payload = f.data@.take(size as int);
    assert(f.data@.subrange(0, size as int) =~= payload);
    let ghost header = out@;
    put_payload(&f.data[0..size], out, start);
    let mut n: usize = start + 2 * size;
    proof {
        lemma_appended(before, header_text(f@), bytes_hex(payload), header, out@);
        assert(frame_text(f@) == header_text(f@) + bytes_hex(payload));
    }
    let ghost text = frame_text(f@);
    assert(out@ == text + before.skip(n as int));
    if let Some(ts) = timestamp {
        let ghost unstamped = out@;
        put_hex(out, n, ts as u32, 4);
        n = n + 4;
        proof {
            lemma_appended(before, text, hex_fixed(ts as nat, 4), unstamped, out@);
        }
    } else {
        assert(text + timestamp_text(timestamp) =~= text);
    }
    let ghost stamped = text + timestamp_text(timestamp);
    assert(out@ == stamped + before.skip(n as int));
    let ghost unended = out@;
    out[n] = CR;
    proof {
        assert(out@ =~= unended.take(n as int) + seq![CR] + unended.skip(n + 1));
        lemma_appended(before, stamped, seq![CR], unended, out@);
    }
    n + 1
}

/// Writing `piece` behind what was `done`, over the rest of `before`.
proof fn lemma_appended(
    before: Seq<u8>,
    done: Seq<u8>,
    piece: Seq<u8>,
    from: Seq<u8>,
    to: Seq<u8>,
)
    requires
        done.len() + piece.len() <= before.len(),
        from == done + before.skip(done.len() as int),
        to == from.take(done.len() as int) + piece + from.skip((done.len() + piece.len()) as int),
    ensures
        to == (done + piece) + before.skip((done.len() + piece.len()) as int),
{
    assert(to =~= (done + piece) + before.skip((done.len() + piece.len()) as int));
}

/// The length of a formatted line.
pub proof fn lemma_line_len(f: FrameView, timestamp: Option<u16>)
    requires
        f.wf(),
    ensures
        frame_text(f).len() == tx_len(f),
        frame_line(f, timestamp).len() == tx_len(f) + (if timestamp is Some {
            5int
        } else {
            1int
        }),
        frame_line(f, timestamp).len() <= MAX_FRAME_ASCII,
{
    crate::hex::lemma_hex_fixed_len(f.id as nat, id_width(f.ext));
    crate::hex::lemma_bytes_hex_len(f.data.take(f.payload_len() as int));
    if timestamp is Some {
        crate::hex::lemma_hex_fixed_len(timestamp.unwrap() as nat, 4);
    }
}

/// A frame that is formatted without a timestamp and parsed again is the same frame.
pub proof fn parse_inverts_format(f: FrameView)
    requires
        f.canonical(),
    ensures
        parsed(frame_text(f)) == Some(f),
        parsed(frame_line(f, None).drop_last()) == Some(f),
{
    let size = f.payload_len() as int;
    let payload = f.data.take(size);
    assert(frame_line(f, None).drop_last() =~= frame_text(f));
    lemma_line_len(f, None);
    lemma_text_parts(f);
    lemma_id_widths();
    crate::hex::number_reads_back(f.id as nat, id_width(f.ext));
    crate::hex::digit_reads_back(f.dlc as nat);
    crate::hex::bytes_read_back(payload);
    assert(payload + zeros((8 - size) as nat) =~= f.data) by {
        assert(f.data =~= payload + f.data.skip(size));
    }
}

/// Where the parts of a frame's text stand.
proof fn lemma_text_parts(f: FrameView)
    requires
        f.canonical(),
    ensures
        ({
            let line = frame_text(f);
            let w = id_width(f.ext) as int;
            &&& line[0] == tx_letter(f.ext, f.rtr)
            &&& line.subrange(1, 1 + w) == hex_fixed(f.id as nat, id_width(f.ext))
            &&& line[1 + w] == hex_char(f.dlc as nat)
            &&& line.subrange(w + 2, w + 2 + 2 * f.payload_len()) == bytes_hex(
                f.data.take(f.payload_len() as int),
            )
        }),
{
    let line = frame_text(f);
    let w = id_width(f.ext) as int;
    let payload = f.data.take(f.payload_len() as int);
    crate::hex::lemma_hex_fixed_len(f.id as nat, id_width(f.ext));
    crate::hex::lemma_bytes_hex_len(payload);
    assert(line.subrange(1, 1 + w) =~= hex_fixed(f.id as nat, id_width(f.ext)));
    assert(line.subrange(w + 2, w + 2 + 2 * f.payload_len()) =~= bytes_hex(payload));
}

/// A command with anything behind it is none: two commands that have run together are
/// not taken for the first.
pub proof fn nothing_follows_a_command(line: Seq<u8>, rest: Seq<u8>)
    requires
        parsed(line) is Some,
        rest.len() > 0,
    ensures
        parsed(line + rest) is None,
{
    let joined = line + rest;
    let w = id_width(tx_kind(line[0]).unwrap().0) as int;
    assert(joined[0] == line[0]);
    assert(joined.subrange(1, 1 + w) =~= line.subrange(1, 1 + w));
    assert(joined[1 + w] == line[1 + w]);
}

/// A command line that parses is the formatted text of its frame, but for the case of
/// its hexadecimal digits.
pub proof fn format_inverts_parse(line: Seq<u8>)
    requires
        parsed(line) is Some,
    ensures
        ({
            let f = parsed(line).unwrap();
            &&& f.canonical()
            &&& line.len() == tx_len(f)
            &&& frame_text(f) =~= seq![line[0]] + line.skip(1).map_values(|c: u8| upper_hex(c))
        }),
{
    let f = parsed(line).unwrap();
    let w = id_width(f.ext) as int;
    let size = f.payload_len() as int;
    let digits = line.subrange(1, 1 + w);
    let tail = line.subrange(w + 2, w + 2 + 2 * size);
    let payload = hex_bytes(tail).unwrap();
    crate::hex::number_spells_back(digits);
    lemma_id_widths();
    assert(digits.len() == w);
    crate::hex::bytes_spell_back(tail);
    crate::hex::lemma_hex_bytes_len(tail);
    assert(f.data.take(size) =~= payload);
    assert(f.data.skip(size) =~= zeros((8 - size) as nat));
    assert(line.skip(1) =~= digits + seq![line[1 + w]] + tail);
    crate::hex::lemma_bytes_hex_len(payload);
    crate::hex::lemma_hex_fixed_len(f.id as nat, id_width(f.ext));
    assert(hex_char(f.dlc as nat) == upper_hex(line[1 + w]));
}

// --- Where everything stands -----------------------------------------------

/// A data frame has the letter `t` and a remote frame `r`, with an extended identifier as
/// capitals. No other letter begins a frame.
pub proof fn letters_of_frames(c: u8, ext: bool, rtr: bool)
    ensures
        tx_kind(c) == Some((ext, rtr)) <==> c == tx_letter(ext, rtr),
        tx_letter(ext, rtr) + (if ext {
            0x20int
        } else {
            0int
        }) == (if rtr {
            0x72int
        } else {
            0x74int
        }),
{
}

/// A standard identifier has three digits and an extended one eight; they have 11 and 29
/// bits.
pub proof fn identifiers_and_their_digits()
    ensures
        id_width(false) == 3,
        id_width(true) == 8,
        id_max(false) == 0x800 - 1,
        id_max(true) == 0x2000_0000 - 1,
{
}

/// What stands where in the text of a frame: the letter, the identifier with the most
/// significant digit first, the length code, and the payload of a data frame byte by byte,
/// the upper half of each first. The digits are written with capitals.
pub proof fn text_spells_the_frame(f: FrameView)
    requires
        f.canonical(),
    ensures
        ({
            let line = frame_text(f);
            let w = id_width(f.ext) as int;
            &&& line.len() == w + 2 + (if f.rtr {
                0int
            } else {
                2 * f.dlc as int
            })
            &&& line[0] == tx_letter(f.ext, f.rtr)
            &&& hex_number(line.subrange(1, 1 + w)) == Some(f.id as nat)
            &&& hex_val(line[1 + w]) == Some(f.dlc)
            &&& forall|k: int|
                0 <= k < f.dlc && !f.rtr ==> hex_val(line[w + 2 + 2 * k]) == Some(
                    (#[trigger] f.data[k] / 16) as u8,
                ) && hex_val(line[w + 3 + 2 * k]) == Some((f.data[k] % 16) as u8)
            &&& forall|i: int|
                1 <= i < line.len() ==> upper_hex(#[trigger] line[i]) == line[i]
        }),
{
    let line = frame_text(f);
    let w = id_width(f.ext) as int;
    let payload = f.data.take(f.payload_len() as int);
    lemma_line_len(f, None);
    lemma_text_parts(f);
    lemma_id_widths();
    crate::hex::number_reads_back(f.id as nat, id_width(f.ext));
    crate::hex::digit_reads_back(f.dlc as nat);
    crate::hex::lemma_hex_fixed_len(f.id as nat, id_width(f.ext));
    crate::hex::lemma_bytes_hex_len(payload);
    assert forall|k: int| 0 <= k < f.dlc && !f.rtr implies hex_val(line[w + 2 + 2 * k]) == Some(
        (#[trigger] f.data[k] / 16) as u8,
    ) && hex_val(line[w + 3 + 2 * k]) == Some((f.data[k] % 16) as u8) by {
        crate::hex::bytes_have_two_digits_each(payload, k);
        assert(payload[k] == f.data[k]);
        assert(line.subrange(w + 2, w + 2 + 2 * f.payload_len())[2 * k] == line[w + 2 + 2 * k]);
        assert(line.subrange(w + 2, w + 2 + 2 * f.payload_len())[2 * k + 1] == line[w + 3 + 2
            * k]);
        crate::hex::digit_reads_back((f.data[k] / 16) as nat);
        crate::hex::digit_reads_back((f.data[k] % 16) as nat);
    }
    parse_inverts_format(f);
    format_inverts_parse(line);
    assert forall|i: int| 1 <= i < line.len() implies upper_hex(#[trigger] line[i]) == line[i] by {
        let spelled = seq![line[0]] + line.skip(1).map_values(|c: u8| upper_hex(c));
        assert(line[i] == spelled[i]);
        assert(spelled[i] == upper_hex(line.skip(1)[i - 1]));
    }
}

/// What a command line says, read off where it stands: see [`text_spells_the_frame`]. What
/// is behind the payload of a frame is zero.
pub proof fn command_is_read_where_it_stands(line: Seq<u8>)
    ensures
        parsed(line) matches Some(f) ==> {
            let w = id_width(f.ext) as int;
            &&& tx_letter(f.ext, f.rtr) == line[0]
            &&& hex_number(line.subrange(1, 1 + w)) == Some(f.id as nat)
            &&& hex_val(line[1 + w]) == Some(f.dlc)
            &&& f.dlc <= 8
            &&& f.data.len() == 8
            &&& forall|k: int|
                0 <= k < f.dlc && !f.rtr ==> #[trigger] f.data[k] == hex_val(
                    line[w + 2 + 2 * k],
                ).unwrap() * 16 + hex_val(line[w + 3 + 2 * k]).unwrap()
            &&& forall|k: int| (f.rtr || f.dlc <= k) && 0 <= k < 8 ==> #[trigger] f.data[k] == 0
        },
{
    if let Some(f) = parsed(line) {
        let w = id_width(f.ext) as int;
        let size = f.payload_len() as int;
        format_inverts_parse(line);
        let digits = line.subrange(1, 1 + w);
        crate::hex::number_spells_back(digits);
        lemma_id_widths();
        assert(digits.len() == w);
        let tail = line.subrange(w + 2, w + 2 + 2 * size);
        crate::hex::two_digits_make_a_byte(tail);
        let payload = hex_bytes(tail).unwrap();
        assert forall|k: int| 0 <= k < f.dlc && !f.rtr implies #[trigger] f.data[k] == hex_val(
            line[w + 2 + 2 * k],
        ).unwrap() * 16 + hex_val(line[w + 3 + 2 * k]).unwrap() by {
            assert(f.data[k] == payload[k]);
            assert(tail[2 * k] == line[w + 2 + 2 * k] && tail[2 * k + 1] == line[w + 3 + 2 * k]);
        }
    }
}

/// Every line of one of the four forms is a command: a letter, an identifier in its range,
/// a length code up to eight, and for a data frame two digits for each byte of its payload.
/// The digits may be in either case.
pub proof fn every_form_is_accepted(line: Seq<u8>, ext: bool, rtr: bool, id: nat, dlc: u8)
    requires
        ({
            let w = if ext {
                8int
            } else {
                3int
            };
            &&& dlc <= 8
            &&& line.len() == w + 2 + (if rtr {
                0int
            } else {
                2 * dlc as int
            })
            &&& line[0] == tx_letter(ext, rtr)
            &&& hex_number(line.subrange(1, 1 + w)) == Some(id)
            &&& id <= id_max(ext)
            &&& hex_val(line[1 + w]) == Some(dlc)
            &&& forall|i: int| w + 2 <= i < line.len() ==> hex_val(#[trigger] line[i]) is Some
        }),
    ensures
        parsed(line) matches Some(f) && f.ext == ext && f.rtr == rtr && f.id == id && f.dlc == dlc,
{
    let w = id_width(ext) as int;
    let tail = line.skip(w + 2);
    assert(line.subrange(w + 2, line.len() as int) =~= tail);
    assert forall|i: int| 0 <= i < tail.len() implies hex_val(#[trigger] tail[i]) is Some by {
        assert(tail[i] == line[w + 2 + i]);
    }
    crate::hex::two_digits_make_a_byte(tail);
}

/// A line for a host is the text of the frame, four digits of a timestamp where there is
/// one, and CR.
pub proof fn line_has_its_timestamp(f: FrameView, ts: u16)
    ensures
        frame_line(f, None) == frame_text(f).push(0x0d),
        ({
            let line = frame_line(f, Some(ts));
            let n = frame_text(f).len() as int;
            &&& line.len() == n + 5
            &&& line.take(n) == frame_text(f)
            &&& hex_number(line.subrange(n, n + 4)) == Some(ts as nat)
            &&& line[n + 4] == 0x0d
        }),
{
    let line = frame_line(f, Some(ts));
    let n = frame_text(f).len() as int;
    crate::hex::lemma_hex_fixed_len(ts as nat, 4);
    assert(frame_line(f, None) =~= frame_text(f).push(0x0d));
    assert(line.take(n) =~= frame_text(f));
    assert(line.subrange(n, n + 4) =~= hex_fixed(ts as nat, 4));
    assert(pow16(4) == 0x1_0000) by {
        reveal_with_fuel(pow16, 5);
    }
    crate::hex::number_reads_back(ts as nat, 4);
}

} // verus!
