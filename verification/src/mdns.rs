//! A minimal mDNS responder, so that the device is reachable as `<name>.local` without
//! scanning the network. It answers address queries for its own name.
//!
//! Sockets are left to the caller, which sends what is built here.

use crate::config::{cut, DeviceConfig};
use vstd::prelude::*;
use vstd::utf8::encode_utf8;

verus! {

/// The port of mDNS.
pub const MDNS_PORT: u16 = 5353;

/// Max hostname length (matches the name field of the device configuration).
pub const NAME_MAX: usize = 32;

/// A fixed-capacity vector of `heapless`, which messages are built in.
#[verifier::external_type_specification]
#[verifier::external_body]
#[verifier::reject_recursive_types(T)]
pub struct ExHeaplessVec<T, const N: usize>(heapless::Vec<T, N>);

/// The bytes that a message buffer holds.
pub uninterp spec fn packet_bytes(packet: heapless::Vec<u8, 512>) -> Seq<u8>;

/// `heapless::Vec::new` gives an empty vector.
#[verifier::external_body]
fn packet_new() -> (r: heapless::Vec<u8, 512>)
    ensures
        packet_bytes(r) == Seq::<u8>::empty(),
{
    heapless::Vec::new()
}

/// `heapless::Vec::push` appends an item, unless the vector is full: it then leaves it
/// as it is and hands the item back, which is dropped here.
#[verifier::external_body]
fn packet_push(packet: &mut heapless::Vec<u8, 512>, byte: u8) -> (r: Option<()>)
    ensures
        r is Some <==> packet_bytes(*old(packet)).len() < 512,
        packet_bytes(*final(packet)) == if r is Some {
            packet_bytes(*old(packet)).push(byte)
        } else {
            packet_bytes(*old(packet))
        },
{
    packet.push(byte).ok()
}

/// `heapless::Vec::extend_from_slice` appends all items, unless they do not all fit: it
/// then leaves the vector as it is and fails.
#[verifier::external_body]
fn packet_extend(packet: &mut heapless::Vec<u8, 512>, bytes: &[u8]) -> (r: Option<()>)
    ensures
        r is Some <==> packet_bytes(*old(packet)).len() + bytes@.len() <= 512,
        packet_bytes(*final(packet)) == if r is Some {
            packet_bytes(*old(packet)) + bytes@
        } else {
            packet_bytes(*old(packet))
        },
{
    packet.extend_from_slice(bytes).ok()
}

// --- Messages --------------------------------------------------------------

/// The label `local`.
pub open spec fn local_label() -> Seq<u8> {
    seq![0x6cu8, 0x6fu8, 0x63u8, 0x61u8, 0x6cu8]
}

/// The name `<host>.local`: each label behind its length, and an empty label.
pub open spec fn local_name(host: Seq<u8>) -> Seq<u8> {
    seq![(host.len() % 256) as u8] + host + seq![5u8] + local_label() + seq![0u8]
}

/// The record `<host>.local A IN <ip>`: type A, class IN with the cache-flush bit, 120
/// seconds to live, four bytes of data.
pub open spec fn a_record(ip: Seq<u8>, host: Seq<u8>) -> Seq<u8> {
    local_name(host) + seq![0u8, 1u8, 0x80u8, 1u8, 0u8, 0u8, 0u8, 0x78u8, 0u8, 4u8] + ip
}

/// A message with this identifier and one record: an authoritative response without
/// questions.
pub open spec fn message(id: Seq<u8>, ip: Seq<u8>, host: Seq<u8>) -> Seq<u8> {
    id + seq![0x84u8, 0u8, 0u8, 0u8, 0u8, 1u8, 0u8, 0u8, 0u8, 0u8] + a_record(ip, host)
}

/// Whether a message about `host` fits into a buffer.
pub open spec fn message_fits(host: Seq<u8>) -> bool {
    34 + host.len() <= 512
}

/// Appends the record `<host>.local A IN <ip>`, if there is room for it.
fn append_a_record(r: &mut heapless::Vec<u8, 512>, ip: &[u8; 4], host: &[u8]) -> (ok: Option<()>)
    ensures
        ok is Some <==> packet_bytes(*old(r)).len() + 22 + host@.len() <= 512,
        ok is Some ==> packet_bytes(*final(r)) =~= packet_bytes(*old(r)) + a_record(ip@, host@),
{
    packet_push(r, (host.len() % 256) as u8)?;
    packet_extend(r, host)?;
    packet_push(r, 5)?;
    let local: [u8; 5] = [0x6c, 0x6f, 0x63, 0x61, 0x6c];
    packet_extend(r, &local)?;
    packet_push(r, 0)?;
    let fixed: [u8; 10] = [0, 1, 0x80, 1, 0, 0, 0, 0x78, 0, 4];
    packet_extend(r, &fixed)?;
    packet_extend(r, ip)?;
    assert(local@ =~= local_label());
    Some(())
}

/// Builds a message with this identifier, if there is room for it.
fn build_message(id: &[u8], ip: &[u8; 4], host: &[u8]) -> (r: Option<heapless::Vec<u8, 512>>)
    requires
        id@.len() == 2,
    ensures
        r is Some <==> message_fits(host@),
        r matches Some(p) ==> packet_bytes(p) == message(id@, ip@, host@),
{
    let mut r = packet_new();
    packet_extend(&mut r, id)?;
    let flags: [u8; 10] = [0x84, 0, 0, 0, 0, 1, 0, 0, 0, 0];
    packet_extend(&mut r, &flags)?;
    append_a_record(&mut r, ip, host)?;
    assert(packet_bytes(r) =~= message(id@, ip@, host@));
    Some(r)
}

/// Builds the announcement that is sent unasked.
pub fn build_announcement(ip: &[u8; 4], host: &[u8]) -> (r: Option<heapless::Vec<u8, 512>>)
    ensures
        r is Some <==> message_fits(host@),
        r matches Some(p) ==> packet_bytes(p) == message(seq![0u8, 0u8], ip@, host@),
{
    let id: [u8; 2] = [0, 0];
    assert(id@ =~= seq![0u8, 0u8]);
    build_message(&id, ip, host)
}

// --- Queries ---------------------------------------------------------------

/// A byte with a letter in lower case.
pub open spec fn lower(b: u8) -> u8 {
    if 0x41 <= b <= 0x5a {
        (b + 0x20) as u8
    } else {
        b
    }
}

/// Whether two labels are the same but for the case of letters.
pub open spec fn same_label(a: Seq<u8>, b: Seq<u8>) -> bool {
    a.len() == b.len() && forall|i: int| 0 <= i < a.len() ==> lower(#[trigger] a[i]) == lower(b[i])
}

/// The labels of the name at `pos` and where it ends. There is none where a label is
/// longer than 63 bytes, as a compressed one seems to be, or reaches behind the end.
pub open spec fn name_at(q: Seq<u8>, pos: int) -> Option<(Seq<Seq<u8>>, int)>
    decreases q.len() - pos,
{
    if pos < 0 || pos >= q.len() {
        Some((Seq::empty(), pos))
    } else if q[pos] == 0 {
        Some((Seq::empty(), pos + 1))
    } else if q[pos] > 63 || pos + 1 + q[pos] > q.len() {
        None
    } else {
        match name_at(q, pos + 1 + q[pos]) {
            Some((labels, end)) => Some(
                (seq![q.subrange(pos + 1, pos + 1 + q[pos])] + labels, end),
            ),
            None => None,
        }
    }
}

/// Whether these are the labels of `<host>.local`.
pub open spec fn names_host(labels: Seq<Seq<u8>>, host: Seq<u8>) -> bool {
    labels.len() == 2 && same_label(labels[0], host) && same_label(labels[1], local_label())
}

/// Whether `q` is a query whose first question is for the address of `<host>.local`:
/// type A or ANY, class IN, with or without the unicast-response bit.
pub open spec fn asks_for(q: Seq<u8>, host: Seq<u8>) -> bool {
    &&& q.len() >= 12
    &&& q[2] < 0x80
    &&& !(q[4] == 0 && q[5] == 0)
    &&& name_at(q, 12) matches Some((labels, end)) && names_host(labels, host) && end + 4 <= q.len()
        && q[end] == 0 && (q[end + 1] == 1 || q[end + 1] == 255)
        && q[end + 2] % 0x80 == 0 && q[end + 3] == 1
}

fn lower_of(b: u8) -> (r: u8)
    ensures
        r == lower(b),
{
    if 0x41 <= b && b <= 0x5a {
        b + 0x20
    } else {
        b
    }
}

fn labels_match(a: &[u8], b: &[u8]) -> (r: bool)
    ensures
        r == same_label(a@, b@),
{
    if a.len() != b.len() {
        return false;
    }
    let mut i: usize = 0;
    while i < a.len()
        invariant
            i <= a@.len(),
            a@.len() == b@.len(),
            forall|j: int| 0 <= j < i ==> lower(#[trigger] a@[j]) == lower(b@[j]),
        decreases a@.len() - i,
    {
        if lower_of(a[i]) != lower_of(b[i]) {
            assert(lower(a@[i as int]) != lower(b@[i as int]));
            return false;
        }
        i = i + 1;
    }
    true
}

/// Walks the labels of the first question: where its name ends, if the name is
/// `<host>.local`.
fn match_name(query: &[u8], host: &[u8]) -> (r: Option<usize>)
    requires
        query@.len() >= 12,
    ensures
        match r {
            Some(end) => name_at(query@, 12) matches Some((labels, e)) && names_host(labels, host@)
                && e == end,
            None => !(name_at(query@, 12) matches Some((labels, e)) && names_host(labels, host@)),
        },
        r matches Some(end) ==> end <= query@.len(),
{
    let local: [u8; 5] = [0x6c, 0x6f, 0x63, 0x61, 0x6c];
    assert(local@ =~= local_label());
    let mut pos: usize = 12;
    let mut idx: usize = 0;
    let mut matching: bool = true;
    let ghost mut seen = Seq::<Seq<u8>>::empty();
    let ghost all = name_at(query@, 12);
    proof {
        if let Some((labels, e)) = all {
            assert(labels =~= seen + labels);
        }
    }
    while pos < query.len() && query[pos] != 0
        invariant
            local@ == local_label(),
            all == name_at(query@, 12),
            12 <= pos <= query@.len(),
            query@.len() == query.len(),
            idx <= pos,
            idx == seen.len(),
            all == match name_at(query@, pos as int) {
                Some((labels, e)) => Some((seen + labels, e)),
                None => None,
            },
            matching == (forall|j: int|
                0 <= j < seen.len() ==> j < 2 && same_label(
                    #[trigger] seen[j],
                    if j == 0 {
                        host@
                    } else {
                        local_label()
                    },
                )),
        decreases query@.len() - pos,
    {
        let n: usize = query[pos] as usize;
        if n > 63 || n > query.len() - pos - 1 {
            return None;
        }
        let label: &[u8] = &query[pos + 1..pos + 1 + n];
        let hit: bool = if idx == 0 {
            labels_match(label, host)
        } else if idx == 1 {
            labels_match(label, &local)
        } else {
            false
        };
        let ghost before = seen;
        proof {
            seen = before.push(label@);
            if let Some((labels, e)) = name_at(query@, pos + 1 + n) {
                assert(before + (seq![label@] + labels) =~= seen + labels);
            }
            assert(seen[idx as int] == label@);
            assert forall|j: int| 0 <= j < before.len() implies seen[j] == before[j] by {}
        }
        matching = matching && hit;
        idx = idx + 1;
        pos = pos + 1 + n;
    }
    let end: usize = if pos < query.len() {
        pos + 1
    } else {
        pos
    };
    assert(all == Some((seen, end as int))) by {
        assert(seen + Seq::<Seq<u8>>::empty() =~= seen);
    }
    if matching && idx == 2 {
        assert(same_label(seen[0], host@));
        assert(same_label(seen[1], local_label()));
        Some(end)
    } else {
        None
    }
}

/// Builds the response to a query, if it asks for `<host>.local`.
pub fn build_response(query: &[u8], ip: &[u8; 4], host: &[u8]) -> (r: Option<
    heapless::Vec<u8, 512>,
>)
    ensures
        r is Some <==> asks_for(query@, host@) && message_fits(host@),
        r matches Some(p) ==> packet_bytes(p) == message(query@.take(2), ip@, host@),
{
    if query.len() < 12 {
        return None;
    }
    if query[2] >= 0x80 {
        return None;
    }
    if query[4] == 0 && query[5] == 0 {
        return None;
    }
    let end: usize = match match_name(query, host) {
        Some(end) => end,
        None => {
            return None;
        },
    };
    if query.len() - end < 4 {
        return None;
    }
    let qtype: u16 = query[end] as u16 * 256 + query[end + 1] as u16;
    let qclass: u16 = query[end + 2] as u16 * 256 + query[end + 3] as u16;
    if (qtype != 1 && qtype != 255) || qclass % 0x8000 != 1 {
        return None;
    }
    let id: &[u8] = &query[0..2];
    assert(id@ =~= query@.take(2));
    build_message(id, ip, host)
}

/// The address to answer with, if there is one yet.
pub open spec fn answering_address(wifi_connected: bool, sta_ip: Option<[u8; 4]>) -> Option<[u8; 4]> {
    if wifi_connected {
        sta_ip
    } else {
        None
    }
}

/// The address to answer with, once the station is connected and has one.
pub fn responder_address(wifi_connected: bool, sta_ip: Option<[u8; 4]>) -> (r: Option<[u8; 4]>)
    ensures
        r == answering_address(wifi_connected, sta_ip),
        r == if wifi_connected {
            sta_ip
        } else {
            None
        },
{
    if wifi_connected {
        sta_ip
    } else {
        None
    }
}

/// The name to answer to.
pub fn host_label(device: &DeviceConfig) -> (r: Vec<u8>)
    requires
        device.name_len <= 32,
    ensures
        r@ == cut(encode_utf8(device@.name_text()), NAME_MAX as nat),
{
    let name: &[u8] = device.name_str().as_bytes();
    let n: usize = if name.len() < NAME_MAX {
        name.len()
    } else {
        NAME_MAX
    };
    let mut r: Vec<u8> = Vec::new();
    r.extend_from_slice(&name[0..n]);
    assert(r@ =~= cut(name@, NAME_MAX as nat));
    r
}

// --- Laws ------------------------------------------------------------------

/// What the device sends is no query, so no device answers it.
pub proof fn messages_are_not_answered(id: Seq<u8>, ip: Seq<u8>, host: Seq<u8>, other: Seq<u8>)
    requires
        id.len() == 2,
    ensures
        !asks_for(message(id, ip, host), other),
{
    assert(message(id, ip, host)[2] == 0x84);
}

/// The case of letters in the device's name does not matter.
pub proof fn case_does_not_matter(q: Seq<u8>, host: Seq<u8>, other: Seq<u8>)
    requires
        same_label(host, other),
    ensures
        asks_for(q, host) == asks_for(q, other),
{
    if let Some((labels, end)) = name_at(q, 12) {
        if labels.len() == 2 {
            lemma_same_label(labels[0], host, other);
            lemma_same_label(labels[0], other, host);
        }
    }
}

proof fn lemma_same_label(a: Seq<u8>, b: Seq<u8>, c: Seq<u8>)
    requires
        same_label(b, c) || same_label(c, b),
    ensures
        same_label(a, b) ==> same_label(a, c),
{
    if same_label(a, b) {
        assert forall|i: int| 0 <= i < a.len() implies lower(#[trigger] a[i]) == lower(c[i]) by {
            assert(lower(b[i]) == lower(c[i])) by {
                if same_label(c, b) {
                    assert(lower(c[i]) == lower(b[i]));
                }
            }
        }
    }
}

/// A query with one question, for the name `<host>.local`.
pub open spec fn question(
    id: Seq<u8>,
    host: Seq<u8>,
    qtype: u8,
    unicast: bool,
) -> Seq<u8> {
    id + seq![0u8, 0u8, 0u8, 1u8, 0u8, 0u8, 0u8, 0u8, 0u8, 0u8] + local_name(host) + seq![
        0u8,
        qtype,
        if unicast {
            0x80u8
        } else {
            0u8
        },
        1u8,
    ]
}

proof fn lemma_local_name(q: Seq<u8>, host: Seq<u8>, tail: Seq<u8>)
    requires
        q.len() >= 12,
        q.skip(12) == local_name(host) + tail,
        1 <= host.len() <= 63,
    ensures
        name_at(q, 12) == Some((seq![host, local_label()], 12 + host.len() as int + 8)),
{
    let n = host.len() as int;
    let name = local_name(host) + tail;
    assert(q.len() == 12 + name.len());
    assert forall|i: int| 12 <= i < q.len() implies #[trigger] q[i] == name[i - 12] by {
        assert(q.skip(12)[i - 12] == q[i]);
    }
    assert(q[12] == n as u8 && q[12 + n + 1] == 5u8 && q[12 + n + 7] == 0u8);
    assert(q.subrange(13, 13 + n) =~= host);
    assert(q.subrange(12 + n + 2, 12 + n + 7) =~= local_label());
    assert(name_at(q, 12 + n + 7) == Some((Seq::<Seq<u8>>::empty(), 12 + n + 8)));
    assert(name_at(q, 12 + n + 1) == Some((seq![local_label()], 12 + n + 8))) by {
        assert(seq![local_label()] + Seq::<Seq<u8>>::empty() =~= seq![local_label()]);
    }
    assert(seq![host] + seq![local_label()] =~= seq![host, local_label()]);
}

/// A device is found by its name: a query for its address, or for anything under its
/// name, is answered.
pub proof fn question_is_answered(id: Seq<u8>, host: Seq<u8>, qtype: u8, unicast: bool)
    requires
        id.len() == 2,
        1 <= host.len() <= 63,
        qtype == 1 || qtype == 255,
    ensures
        asks_for(question(id, host, qtype, unicast), host),
        message_fits(host),
{
    let q = question(id, host, qtype, unicast);
    let end = seq![
        0u8,
        qtype,
        if unicast {
            0x80u8
        } else {
            0u8
        },
        1u8,
    ];
    assert(q.skip(12) =~= local_name(host) + end);
    lemma_local_name(q, host, end);
    let n = host.len() as int;
    assert(q.len() == 12 + n + 12);
    assert(q.skip(12)[n + 8] == q[12 + n + 8] && q.skip(12)[n + 9] == q[12 + n + 9] && q.skip(12)[n
        + 10] == q[12 + n + 10] && q.skip(12)[n + 11] == q[12 + n + 11]);
    assert(names_host(seq![host, local_label()], host));
}

/// What the device sends names it, and gives its address.
pub proof fn message_names_the_host(id: Seq<u8>, ip: Seq<u8>, host: Seq<u8>)
    requires
        id.len() == 2,
        ip.len() == 4,
        1 <= host.len() <= 63,
    ensures
        name_at(message(id, ip, host), 12) == Some(
            (seq![host, local_label()], 12 + host.len() as int + 8),
        ),
        message(id, ip, host).take(2) == id,
        message(id, ip, host).skip(message(id, ip, host).len() - 4) == ip,
{
    let m = message(id, ip, host);
    let tail = seq![0u8, 1u8, 0x80u8, 1u8, 0u8, 0u8, 0u8, 0x78u8, 0u8, 4u8] + ip;
    assert(m.skip(12) =~= local_name(host) + tail);
    lemma_local_name(m, host, tail);
    assert(m.take(2) =~= id);
    assert(m.skip(m.len() - 4) =~= ip);
}

/// Where everything stands in a message of the device: an authoritative response without
/// questions and with one answer, which is an address of the device's name, of class IN with
/// the cache-flush bit, good for 120 seconds.
pub proof fn message_layout(id: Seq<u8>, ip: Seq<u8>, host: Seq<u8>)
    requires
        id.len() == 2,
        ip.len() == 4,
    ensures
        ({
            let m = message(id, ip, host);
            let n = host.len() as int;
            &&& m.len() == 34 + n
            &&& m[0] == id[0] && m[1] == id[1]
            &&& m[2] * 256 + m[3] == 0x8400
            &&& m[4] * 256 + m[5] == 0
            &&& m[6] * 256 + m[7] == 1
            &&& m[8] * 256 + m[9] == 0
            &&& m[10] * 256 + m[11] == 0
            &&& m[12] == n % 256
            &&& forall|i: int| 0 <= i < n ==> m[13 + i] == #[trigger] host[i]
            &&& m[13 + n] == 5
            &&& forall|i: int| 0 <= i < 5 ==> m[14 + n + i] == #[trigger] "local"@[i] as u8
            &&& m[19 + n] == 0
            &&& m[20 + n] * 256 + m[21 + n] == 1
            &&& m[22 + n] * 256 + m[23 + n] == 0x8001
            &&& m[24 + n] == 0 && m[25 + n] == 0 && m[26 + n] * 256 + m[27 + n] == 120
            &&& m[28 + n] * 256 + m[29 + n] == 4
            &&& forall|i: int| 0 <= i < 4 ==> m[30 + n + i] == #[trigger] ip[i]
        }),
        message_fits(host) <==> message(id, ip, host).len() <= 512,
{
    reveal_strlit("local");
}

/// Whether a query asks for `<host>.local`, byte by byte: it is no response and has a
/// question, whose name has the two labels in any case, whose type is A or ANY, and whose
/// class is IN. What else the query says does not matter.
pub proof fn queries_are_told_apart(q: Seq<u8>, host: Seq<u8>)
    requires
        1 <= host.len() <= 63,
    ensures
        asks_for(q, host) <==> {
            let n = host.len() as int;
            &&& q.len() >= 24 + n
            &&& q[2] / 128 == 0
            &&& q[4] * 256 + q[5] > 0
            &&& q[12] == n
            &&& same_label(q.subrange(13, 13 + n), host)
            &&& q[13 + n] == 5
            &&& same_label(q.subrange(14 + n, 19 + n), local_label())
            &&& q[19 + n] == 0
            &&& q[20 + n] * 256 + q[21 + n] == 1 || q[20 + n] * 256 + q[21 + n] == 255
            &&& (q[22 + n] * 256 + q[23 + n]) % 0x8000 == 1
        },
{
    let n = host.len() as int;
    if asks_for(q, host) {
        let (labels, end) = name_at(q, 12).unwrap();
        lemma_labels(q, 12);
        assert(q[12] != 0);
        let p = 13 + q[12];
        assert(labels[0] == q.subrange(13, p));
        assert(q[12] == n);
        lemma_labels(q, p);
        let (rest, e) = name_at(q, p).unwrap();
        assert(labels =~= seq![labels[0]] + rest);
        assert(rest.len() == 1);
        assert(rest[0] == labels[1]);
        let r = p + 1 + q[p];
        assert(rest[0] == q.subrange(p + 1, r));
        lemma_labels(q, r);
        let (last, f) = name_at(q, r).unwrap();
        assert(rest =~= seq![rest[0]] + last);
        assert(last.len() == 0);
        assert(r < q.len());
        assert(q[r] == 0);
    } else if q.len() >= 24 + n && q[2] / 128 == 0 && q[4] * 256 + q[5] > 0 && q[12] == n
        && same_label(q.subrange(13, 13 + n), host) && q[13 + n] == 5 && same_label(
        q.subrange(14 + n, 19 + n),
        local_label(),
    ) && q[19 + n] == 0 {
        let (a, b) = (q.subrange(13, 13 + n), q.subrange(14 + n, 19 + n));
        assert(name_at(q, 19 + n) == Some((Seq::<Seq<u8>>::empty(), 20 + n)));
        assert(name_at(q, 13 + n) == Some((seq![b], 20 + n))) by {
            assert(seq![b] + Seq::<Seq<u8>>::empty() =~= seq![b]);
        }
        assert(name_at(q, 12) == Some((seq![a, b], 20 + n))) by {
            assert(seq![a] + seq![b] =~= seq![a, b]);
        }
        assert(names_host(seq![a, b], host));
    }
}

proof fn lemma_labels(q: Seq<u8>, pos: int)
    requires
        0 <= pos,
        name_at(q, pos) is Some,
    ensures
        name_at(q, pos).unwrap().0.len() == 0 ==> pos >= q.len() || q[pos] == 0,
        name_at(q, pos).unwrap().0.len() > 0 ==> pos < q.len() && 0 < q[pos] <= 63 && pos + 1
            + q[pos] <= q.len() && name_at(q, pos + 1 + q[pos]) is Some && name_at(q, pos).unwrap().0
            == seq![q.subrange(pos + 1, pos + 1 + q[pos])] + name_at(
            q,
            pos + 1 + q[pos],
        ).unwrap().0 && name_at(q, pos).unwrap().1 == name_at(q, pos + 1 + q[pos]).unwrap().1,
        pos < q.len() && q[pos] == 0 ==> name_at(q, pos).unwrap().1 == pos + 1,
        pos >= q.len() ==> name_at(q, pos).unwrap().1 == pos,
{
}

/// Two labels are the same where their letters are, but for their case: nothing but letters
/// has a case.
pub proof fn case_of_letters(a: u8, b: u8)
    ensures
        lower(a) == lower(b) <==> a == b || (0x41 <= a <= 0x5a && b == a + 0x20) || (0x41 <= b
            <= 0x5a && a == b + 0x20),
        local_label() == seq![0x6cu8, 0x6fu8, 0x63u8, 0x61u8, 0x6cu8],
{
}

/// The port of mDNS, and how long a name can be.
pub proof fn numbers_of_mdns()
    ensures
        MDNS_PORT == 5353,
        NAME_MAX == 32,
{
}

/// The device answers with its own address, once it is connected and has one.
pub proof fn device_answers_with_its_address(ip: [u8; 4])
    ensures
        answering_address(true, Some(ip)) == Some(ip),
        answering_address(true, None) is None,
        answering_address(false, Some(ip)) is None,
        answering_address(false, None) is None,
{
}

} // verus!
