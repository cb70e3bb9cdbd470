//! The stream of bytes from a host, as one port takes it in.
//!
//! [`crate::transport::Port`] takes in one byte at a time; what is said here of whole
//! streams follows from that.

use crate::can::CanView;
use crate::slcan::{BELL, CR};
use crate::text::{lemma_first_at, lemma_split_push, split};
use crate::transport::{dispatched, without_lf, Fed, PortView, Reply, LINE_MAX};
use vstd::prelude::*;

verus! {

/// Something in the stream that the host is answered for.
pub enum Heard {
    /// A command line that is dispatched.
    Command(Seq<u8>),
    /// A line that was too long and is dropped, with BELL as the answer.
    Overflow,
}

/// A port that has taken in a stream, and what it has answered for on the way.
pub struct Session {
    pub port: PortView,
    pub heard: Seq<Heard>,
}

impl Session {
    /// After one more byte, with the controller as it stands at that moment.
    pub open spec fn after_byte(self, b: u8, can: CanView) -> Session {
        let (port, fed) = self.port.fed(b);
        match fed {
            Fed::Nothing => Session { port, heard: self.heard },
            Fed::Command => Session {
                port: dispatched(port, can).port,
                heard: self.heard.push(Heard::Command(port.line)),
            },
            Fed::Overflow => Session { port, heard: self.heard.push(Heard::Overflow) },
        }
    }

    /// After `bytes`, where the controller stands as `cans` says when each of them is
    /// taken in: other ports may change it in between.
    pub open spec fn after(self, bytes: Seq<u8>, cans: Seq<CanView>) -> Session
        decreases bytes.len(),
    {
        if bytes.len() == 0 {
            self
        } else {
            self.after(bytes.drop_last(), cans).after_byte(
                bytes.last(),
                cans[bytes.len() - 1],
            )
        }
    }
}

/// `n` lines that were too long.
pub open spec fn overflows(n: nat) -> Seq<Heard> {
    Seq::new(n, |i: int| Heard::Overflow)
}

/// How many times a line of this length runs over: a full line and one byte more are
/// dropped each time.
pub open spec fn overruns(piece: Seq<u8>) -> nat {
    piece.len() / (LINE_MAX + 1) as nat
}

/// What is left of a line that may have run over.
pub open spec fn remainder(piece: Seq<u8>) -> Seq<u8> {
    piece.skip((overruns(piece) * (LINE_MAX + 1)) as int)
}

/// What a line is answered for that a CR ends.
pub open spec fn heard_of(piece: Seq<u8>) -> Seq<Heard> {
    overflows(overruns(piece)) + if remainder(piece).len() > 0 {
        seq![Heard::Command(remainder(piece))]
    } else {
        Seq::empty()
    }
}

/// What lines are answered for, in order, that a CR ends each.
pub open spec fn heard_of_all(pieces: Seq<Seq<u8>>) -> Seq<Heard>
    decreases pieces.len(),
{
    if pieces.len() == 0 {
        Seq::empty()
    } else {
        heard_of_all(pieces.drop_last()) + heard_of(pieces.last())
    }
}

/// The lines of a stream: it is cut at every CR, and line feeds are left out. The last
/// line is the one that no CR has ended yet.
pub open spec fn lines_of(bytes: Seq<u8>) -> Seq<Seq<u8>> {
    split(without_lf(bytes), CR)
}

proof fn lemma_lines_of(bytes: Seq<u8>)
    requires
        bytes.len() > 0,
    ensures
        ({
            let before = lines_of(bytes.drop_last());
            let b = bytes.last();
            &&& before.len() > 0
            &&& lines_of(bytes) == if b == 0x0a {
                before
            } else if b == CR {
                before.push(Seq::empty())
            } else {
                before.drop_last().push(before.last().push(b))
            }
        }),
{
    reveal(Seq::filter);
    lemma_split_push(without_lf(bytes.drop_last()), CR, bytes.last());
}

proof fn lemma_remainder(piece: Seq<u8>, b: u8)
    ensures
        remainder(piece).len() == piece.len() % 65,
        remainder(piece).len() < LINE_MAX ==> overruns(piece.push(b)) == overruns(piece)
            && remainder(piece.push(b)) == remainder(piece).push(b),
        remainder(piece).len() == LINE_MAX ==> overruns(piece.push(b)) == overruns(piece) + 1
            && remainder(piece.push(b)) == Seq::<u8>::empty(),
{
    let next = piece.push(b);
    if remainder(piece).len() < LINE_MAX {
        assert(remainder(next) =~= remainder(piece).push(b));
    } else {
        assert(remainder(next) =~= Seq::<u8>::empty());
    }
}

/// However long the lines of a stream are, and whatever other ports do meanwhile: every
/// line that a CR ends is dispatched once and in order, unless nothing is left of it; a
/// line is answered with BELL each time it runs over; and nothing else is answered.
pub proof fn stream_is_cut_into_commands(p: PortView, bytes: Seq<u8>, cans: Seq<CanView>)
    requires
        p.line.len() == 0,
    ensures
        ({
            let s = (Session { port: p, heard: Seq::empty() }).after(bytes, cans);
            let lines = lines_of(bytes);
            &&& lines.len() > 0
            &&& s.heard == heard_of_all(lines.drop_last()) + overflows(overruns(lines.last()))
            &&& s.port.line == remainder(lines.last())
        }),
    decreases bytes.len(),
{
    let start = Session { port: p, heard: Seq::empty() };
    let s = start.after(bytes, cans);
    let lines = lines_of(bytes);
    if bytes.len() == 0 {
        reveal(Seq::filter);
        assert(without_lf(bytes) =~= Seq::empty());
        assert(lines =~= seq![Seq::<u8>::empty()]);
        assert(lines.drop_last() =~= Seq::empty());
        assert(lines.last() =~= Seq::<u8>::empty());
        assert(remainder(lines.last()) =~= p.line);
        assert(s.heard =~= heard_of_all(lines.drop_last()) + overflows(overruns(lines.last())));
    } else {
        let front = bytes.drop_last();
        let b = bytes.last();
        stream_is_cut_into_commands(p, front, cans);
        lemma_lines_of(bytes);
        let before = lines_of(front);
        let t = start.after(front, cans);
        lemma_remainder(before.last(), b);
        if b == 0x0a {
        } else if b == CR {
            assert(lines.drop_last() =~= before);
            assert(lines.last() =~= Seq::<u8>::empty());
            assert(remainder(lines.last()) =~= Seq::<u8>::empty());
            assert(s.port.line =~= Seq::<u8>::empty());
            assert(s.heard =~= heard_of_all(before.drop_last()) + heard_of(before.last())
                + overflows(0));
        } else {
            assert(lines.drop_last() =~= before.drop_last());
            assert(lines.last() == before.last().push(b));
            assert(s.heard =~= heard_of_all(lines.drop_last()) + overflows(overruns(lines.last())));
        }
    }
}

/// The commands among lines, in order: those that are not empty.
pub open spec fn commands_of(lines: Seq<Seq<u8>>) -> Seq<Heard>
    decreases lines.len(),
{
    if lines.len() == 0 {
        Seq::empty()
    } else if lines.last().len() > 0 {
        commands_of(lines.drop_last()).push(Heard::Command(lines.last()))
    } else {
        commands_of(lines.drop_last())
    }
}

/// While no line is over 64 bytes, every line that is not empty and that a CR ends is
/// dispatched once, as it is and in order, and nothing else is answered.
pub proof fn commands_are_dispatched_in_order(p: PortView, bytes: Seq<u8>, cans: Seq<CanView>)
    requires
        p.line.len() == 0,
        forall|i: int|
            0 <= i < lines_of(bytes).len() ==> (#[trigger] lines_of(bytes)[i]).len() <= LINE_MAX,
    ensures
        ({
            let s = (Session { port: p, heard: Seq::empty() }).after(bytes, cans);
            &&& s.heard == commands_of(lines_of(bytes).drop_last())
            &&& s.port.line == lines_of(bytes).last()
        }),
{
    let lines = lines_of(bytes);
    stream_is_cut_into_commands(p, bytes, cans);
    assert forall|i: int| 0 <= i < lines.drop_last().len() implies (
    #[trigger] lines.drop_last()[i]).len() <= LINE_MAX by {
        assert(lines.drop_last()[i] == lines[i]);
    }
    lemma_short_lines(lines.drop_last());
    lemma_short_line(lines[lines.len() - 1]);
    assert(commands_of(lines.drop_last()) + overflows(0) =~= commands_of(lines.drop_last()));
}

proof fn lemma_short_line(piece: Seq<u8>)
    requires
        piece.len() <= LINE_MAX,
    ensures
        overruns(piece) == 0,
        remainder(piece) == piece,
{
    lemma_remainder(piece, 0);
    assert(piece.len() / 65 == 0);
    assert(remainder(piece) =~= piece);
}

proof fn lemma_short_lines(lines: Seq<Seq<u8>>)
    requires
        forall|i: int| 0 <= i < lines.len() ==> (#[trigger] lines[i]).len() <= LINE_MAX,
    ensures
        heard_of_all(lines) == commands_of(lines),
    decreases lines.len(),
{
    if lines.len() > 0 {
        let front = lines.drop_last();
        assert forall|i: int| 0 <= i < front.len() implies (#[trigger] front[i]).len()
            <= LINE_MAX by {
            assert(front[i] == lines[i]);
        }
        lemma_short_lines(front);
        lemma_short_line(lines[lines.len() - 1]);
        assert(heard_of_all(lines) =~= commands_of(lines));
    }
}

/// A line that runs over without a CR is answered with one BELL, and it is dropped
/// together with the byte that did not fit.
pub proof fn overlong_line_is_dropped(p: PortView, bytes: Seq<u8>, cans: Seq<CanView>)
    requires
        p.line.len() == 0,
        !bytes.contains(CR),
        without_lf(bytes).len() == LINE_MAX + 1,
    ensures
        ({
            let s = (Session { port: p, heard: Seq::empty() }).after(bytes, cans);
            &&& s.heard == seq![Heard::Overflow]
            &&& s.port.line == Seq::<u8>::empty()
            &&& Fed::Overflow.immediate() == Some(Reply::Bell)
            &&& Reply::Bell.text() == seq![BELL]
        }),
{
    let all = without_lf(bytes);
    assert(!all.contains(CR)) by {
        if all.contains(CR) {
            bytes.lemma_filter_contains_rev(|b: u8| b != 0x0a, CR);
        }
    }
    lemma_first_at(all, CR);
    let lines = lines_of(bytes);
    assert(lines =~= seq![all]);
    stream_is_cut_into_commands(p, bytes, cans);
    assert(lines.drop_last() =~= Seq::empty());
    assert(overruns(lines.last()) == 1);
    assert(heard_of_all(lines.drop_last()) + overflows(1) =~= seq![Heard::Overflow]);
    assert(remainder(lines.last()) =~= Seq::<u8>::empty());
}

/// How a stream is split over reads does not matter.
pub proof fn reads_do_not_matter(s: Session, a: Seq<u8>, b: Seq<u8>, cans: Seq<CanView>)
    requires
        cans.len() == a.len() + b.len(),
    ensures
        s.after(a + b, cans) == s.after(a, cans.take(a.len() as int)).after(
            b,
            cans.skip(a.len() as int),
        ),
    decreases b.len(),
{
    let n = a.len() as int;
    if b.len() == 0 {
        assert(a + b =~= a);
        assert(cans.take(n) =~= cans);
    } else {
        let short = cans.drop_last();
        assert((a + b).drop_last() =~= a + b.drop_last());
        reads_do_not_matter(s, a, b.drop_last(), short);
        assert(short.take(n) =~= cans.take(n));
        lemma_after_prefix(s, a + b.drop_last(), cans, short);
        lemma_after_prefix(
            s.after(a, cans.take(n)),
            b.drop_last(),
            cans.skip(n),
            short.skip(n),
        );
    }
}

proof fn lemma_after_prefix(s: Session, bytes: Seq<u8>, cans: Seq<CanView>, others: Seq<CanView>)
    requires
        bytes.len() <= cans.len(),
        bytes.len() <= others.len(),
        forall|i: int| 0 <= i < bytes.len() ==> #[trigger] cans[i] == others[i],
    ensures
        s.after(bytes, cans) == s.after(bytes, others),
    decreases bytes.len(),
{
    if bytes.len() > 0 {
        lemma_after_prefix(s, bytes.drop_last(), cans, others);
        assert(cans[bytes.len() - 1] == others[bytes.len() - 1]);
    }
}

} // verus!
