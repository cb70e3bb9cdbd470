//! URL-encoded forms, as a browser posts them.

use crate::config::{cut, overlaid};
use crate::hex::{hex_char, hex_val, nibble};
use crate::text::{
    bytes_eq, field_has_its_value, find_byte, lemma_first_at, lemma_first_at_is,
    one_part_without_separator, split, value_of,
};
use vstd::prelude::*;
use vstd::utf8::encode_utf8;

verus! {

/// `&`, which separates fields.
pub const AMPERSAND: u8 = 0x26;

/// `=`, which separates a field's key from its value.
pub const EQUALS: u8 = 0x3d;

/// The value of the first of `fields` that has the key.
pub open spec fn first_value(fields: Seq<Seq<u8>>, key: Seq<u8>) -> Option<Seq<u8>>
    decreases fields.len(),
{
    if fields.len() == 0 {
        None
    } else {
        match value_of(fields[0], EQUALS, key) {
            Some(v) => Some(v),
            None => first_value(fields.skip(1), key),
        }
    }
}

/// The value that a form gives to a key, still encoded: the first one wins.
pub open spec fn form_value(body: Seq<u8>, key: Seq<u8>) -> Option<Seq<u8>> {
    first_value(split(body, AMPERSAND), key)
}

/// The value that a form gives to a key, still encoded.
pub fn find_form_value<'a>(body: &'a [u8], key: &str) -> (r: Option<&'a [u8]>)
    ensures
        match r {
            Some(v) => form_value(body@, encode_utf8(key@)) == Some(v@),
            None => form_value(body@, encode_utf8(key@)) is None,
        },
{
    let key_bytes: &[u8] = key.as_bytes();
    let ghost k = key_bytes@;
    let n: usize = body.len();
    let mut at: usize = 0;
    assert(body@.skip(0) =~= body@);
    loop
        invariant
            key_bytes@ == k,
            k == encode_utf8(key@),
            n == body@.len(),
            at <= n,
            form_value(body@, k) == form_value(body@.skip(at as int), k),
        decreases n - at,
    {
        let end: usize = find_byte(body, at, AMPERSAND);
        let ghost tail = body@.skip(at as int);
        let ghost field = body@.subrange(at as int, end as int);
        let ghost fields = split(tail, AMPERSAND);
        proof {
            lemma_first_at(tail, AMPERSAND);
            if end < n {
                assert(tail.take(end - at) =~= field);
                assert(tail.skip(end - at + 1) =~= body@.skip(end + 1));
                assert(fields.skip(1) =~= split(body@.skip(end + 1), AMPERSAND));
            } else {
                assert(tail =~= field);
                assert(fields.skip(1) =~= Seq::empty());
            }
            assert(fields[0] == field);
        }
        let part: &'a [u8] = &body[at..end];
        let e: usize = find_byte(part, 0, EQUALS);
        assert(part@ =~= field);
        assert(part@.skip(0) =~= part@);
        if e < part.len() {
            assert(part@.subrange(0, e as int) =~= part@.take(e as int));
            if bytes_eq(&part[0..e], key_bytes) {
                let value: &'a [u8] = &part[e + 1..part.len()];
                assert(value@ =~= field.skip(e + 1));
                return Some(value);
            }
        }
        assert(value_of(field, EQUALS, k) is None);
        if end == n {
            assert(first_value(fields.skip(1), k) is None);
            return None;
        }
        at = end + 1;
    }
}

/// The bytes that a form value stands for: `%` and two hexadecimal digits stand for a
/// byte, and `+` for a space.
pub open spec fn url_decoded(s: Seq<u8>) -> Seq<u8>
    decreases s.len(),
{
    if s.len() == 0 {
        Seq::empty()
    } else if s[0] == 0x25 && s.len() > 2 && hex_val(s[1]) is Some && hex_val(s[2]) is Some {
        seq![(hex_val(s[1]).unwrap() * 16 + hex_val(s[2]).unwrap()) as u8] + url_decoded(s.skip(3))
    } else {
        seq![
            if s[0] == 0x2b {
                0x20u8
            } else {
                s[0]
            },
        ] + url_decoded(s.skip(1))
    }
}

/// Decodes a form value into `dst`, as much of it as fits, and says how much.
pub fn url_decode_into(src: &[u8], dst: &mut [u8]) -> (n: usize)
    ensures
        final(dst)@ =~= overlaid(old(dst)@, url_decoded(src@)),
        n == cut(url_decoded(src@), old(dst)@.len()).len(),
        n <= old(dst)@.len(),
{
    let ghost all = url_decoded(src@);
    let ghost was = dst@;
    let mut si: usize = 0;
    let mut di: usize = 0;
    assert(src@.skip(0) =~= src@);
    assert(all =~= Seq::empty() + all);
    while si < src.len() && di < dst.len()
        invariant
            si <= src@.len(),
            src@.len() == src.len(),
            di <= dst@.len(),
            dst@.len() == was.len(),
            all == url_decoded(src@),
            di + url_decoded(src@.skip(si as int)).len() == all.len(),
            all.skip(di as int) == url_decoded(src@.skip(si as int)),
            forall|j: int| 0 <= j < di ==> dst@[j] == all[j],
            forall|j: int| di <= j < was.len() ==> dst@[j] == was[j],
        decreases src@.len() - si,
    {
        let ghost tail = src@.skip(si as int);
        let ghost before = dst@;
        let mut width: usize = 1;
        let mut b: u8 = if src[si] == 0x2b {
            0x20
        } else {
            src[si]
        };
        if src[si] == 0x25 && src.len() - si > 2 {
            if let (Some(h), Some(l)) = (nibble(src[si + 1]), nibble(src[si + 2])) {
                b = h * 16 + l;
                width = 3;
            }
        }
        proof {
            assert(tail[0] == src@[si as int]);
            assert(tail.len() > 2 ==> tail[1] == src@[si + 1] && tail[2] == src@[si + 2]);
            assert(tail.skip(width as int) =~= src@.skip(si + width));
            assert(url_decoded(tail) =~= seq![b] + url_decoded(src@.skip(si + width)));
            assert(all[di as int] == all.skip(di as int)[0]);
            assert(all.skip(di + 1) =~= all.skip(di as int).skip(1));
            assert(all.skip(di as int).skip(1) =~= url_decoded(src@.skip(si + width)));
        }
        dst[di] = b;
        di = di + 1;
        si = si + width;
    }
    if si == src.len() {
        assert(src@.skip(si as int) =~= Seq::<u8>::empty());
    }
    di
}

// --- What a browser sends --------------------------------------------------

/// Whether a form value holds this byte as it is.
pub open spec fn plain(b: u8) -> bool {
    ||| 0x30 <= b <= 0x39
    ||| 0x41 <= b <= 0x5a
    ||| 0x61 <= b <= 0x7a
    ||| b == 0x2a
    ||| b == 0x2d
    ||| b == 0x2e
    ||| b == 0x5f
}

/// One byte of a form value, encoded.
pub open spec fn encoded_byte(b: u8) -> Seq<u8> {
    if plain(b) {
        seq![b]
    } else if b == 0x20 {
        seq![0x2bu8]
    } else {
        seq![0x25u8, hex_char((b / 16) as nat), hex_char((b % 16) as nat)]
    }
}

/// A form value, encoded.
pub open spec fn url_encoded(s: Seq<u8>) -> Seq<u8>
    decreases s.len(),
{
    if s.len() == 0 {
        Seq::empty()
    } else {
        encoded_byte(s[0]) + url_encoded(s.skip(1))
    }
}

/// A form of these keys and values, encoded.
pub open spec fn form_text(fields: Seq<(Seq<u8>, Seq<u8>)>) -> Seq<u8>
    decreases fields.len(),
{
    if fields.len() == 0 {
        Seq::empty()
    } else {
        let field = fields[0].0 + seq![EQUALS] + url_encoded(fields[0].1);
        if fields.len() == 1 {
            field
        } else {
            field + seq![AMPERSAND] + form_text(fields.skip(1))
        }
    }
}

/// The value of the first of `fields` that has the key.
pub open spec fn first_of(fields: Seq<(Seq<u8>, Seq<u8>)>, key: Seq<u8>) -> Option<Seq<u8>>
    decreases fields.len(),
{
    if fields.len() == 0 {
        None
    } else if fields[0].0 == key {
        Some(fields[0].1)
    } else {
        first_of(fields.skip(1), key)
    }
}

/// What is encoded for a form decodes to itself, and holds no separator.
pub proof fn encoding_decodes(s: Seq<u8>)
    ensures
        url_decoded(url_encoded(s)) == s,
        !url_encoded(s).contains(AMPERSAND),
    decreases s.len(),
{
    let e = url_encoded(s);
    if s.len() > 0 {
        encoding_decodes(s.skip(1));
        let b = s[0];
        let front = encoded_byte(b);
        let back = url_encoded(s.skip(1));
        assert(e == front + back);
        assert(e.skip(front.len() as int) =~= back);
        assert(s =~= seq![b] + s.skip(1));
        if !plain(b) && b != 0x20 {
            assert(hex_val(hex_char((b / 16) as nat)) == Some((b / 16) as u8));
            assert(hex_val(hex_char((b % 16) as nat)) == Some((b % 16) as u8));
            assert(e[1] == hex_char((b / 16) as nat) && e[2] == hex_char((b % 16) as nat));
            assert(((b / 16) * 16 + b % 16) as u8 == b);
        }
        assert(url_decoded(e) =~= seq![b] + url_decoded(back));
        assert forall|i: int| 0 <= i < e.len() implies e[i] != AMPERSAND by {
            if i >= front.len() {
                assert(e[i] == back[i - front.len()]);
                assert(back.contains(back[i - front.len()]));
            } else {
                assert(e[i] == front[i]);
            }
        }
    }
}

/// A form that a browser posts gives back, for every key, the first value that was
/// entered under it.
pub proof fn form_reads_back(fields: Seq<(Seq<u8>, Seq<u8>)>, key: Seq<u8>)
    requires
        fields.len() > 0,
        forall|i: int|
            0 <= i < fields.len() ==> !(#[trigger] fields[i]).0.contains(AMPERSAND)
                && !fields[i].0.contains(EQUALS),
    ensures
        match form_value(form_text(fields), key) {
            Some(v) => first_of(fields, key) == Some(url_decoded(v)),
            None => first_of(fields, key) is None,
        },
    decreases fields.len(),
{
    let body = form_text(fields);
    let name = fields[0].0;
    let value = url_encoded(fields[0].1);
    let field = name + seq![EQUALS] + value;
    encoding_decodes(fields[0].1);
    assert forall|i: int| 0 <= i < field.len() implies field[i] != AMPERSAND by {
        if i < name.len() {
            assert(name.contains(name[i]));
        } else if i > name.len() {
            assert(field[i] == value[i - name.len() - 1]);
            assert(value.contains(value[i - name.len() - 1]));
        }
    }
    assert forall|i: int| 0 <= i < name.len() implies field[i] != EQUALS by {
        assert(name.contains(name[i]));
    }
    lemma_first_at_is(field, EQUALS, name.len() as int);
    assert(field.take(name.len() as int) =~= name);
    assert(field.skip(name.len() as int + 1) =~= value);
    let parts = split(body, AMPERSAND);
    if fields.len() == 1 {
        lemma_first_at(body, AMPERSAND);
        assert(parts =~= seq![field]);
        assert(parts.skip(1) =~= Seq::empty());
        assert(first_value(parts.skip(1), key) is None);
        assert(first_of(fields.skip(1), key) is None);
    } else {
        let rest = fields.skip(1);
        assert forall|i: int| 0 <= i < field.len() implies body[i] != AMPERSAND by {
            assert(body[i] == field[i]);
        }
        lemma_first_at_is(body, AMPERSAND, field.len() as int);
        assert(body.take(field.len() as int) =~= field);
        assert(body.skip(field.len() as int + 1) =~= form_text(rest));
        assert forall|i: int| 0 <= i < rest.len() implies !(#[trigger] rest[i]).0.contains(
            AMPERSAND,
        ) && !rest[i].0.contains(EQUALS) by {
            assert(rest[i] == fields[i + 1]);
        }
        form_reads_back(rest, key);
        assert(parts.skip(1) =~= split(form_text(rest), AMPERSAND));
        assert(parts[0] == field);
    }
}

/// How a value is decoded, from the front: two digits behind `%`, in either case, make a
/// byte; `+` makes a space; every other byte stays, and so does `%` without two digits.
pub proof fn values_are_decoded_from_the_front(b: u8, c: u8, d: u8, rest: Seq<u8>)
    ensures
        url_decoded(Seq::empty()).len() == 0,
        b != 0x25 ==> url_decoded(seq![b] + rest) == seq![
            if b == 0x2b {
                0x20u8
            } else {
                b
            },
        ] + url_decoded(rest),
        hex_val(c) is Some && hex_val(d) is Some ==> url_decoded(
            seq![0x25u8, c, d] + rest,
        ) == seq![(hex_val(c).unwrap() * 16 + hex_val(d).unwrap()) as u8] + url_decoded(rest),
        hex_val(c) is None || hex_val(d) is None ==> url_decoded(seq![0x25u8, c, d] + rest)
            == seq![0x25u8] + url_decoded(seq![c, d] + rest),
        url_decoded(seq![0x25u8, c]) == seq![0x25u8] + url_decoded(seq![c]),
        url_decoded(seq![0x25u8]) == seq![0x25u8] + url_decoded(Seq::empty()),
{
    let one = seq![b] + rest;
    assert(one.skip(1) =~= rest);
    let three = seq![0x25u8, c, d] + rest;
    assert(three[0] == 0x25 && three[1] == c && three[2] == d);
    assert(three.skip(3) =~= rest);
    assert(three.skip(1) =~= seq![c, d] + rest);
    assert(seq![0x25u8, c].skip(1) =~= seq![c]);
    assert(seq![0x25u8].skip(1) =~= Seq::empty());
}

/// The first field that has the key gives it its value; fields with other keys in front do
/// not matter.
pub proof fn first_field_wins(k: Seq<u8>, value: Seq<u8>, rest: Seq<u8>, key: Seq<u8>)
    requires
        !k.contains(EQUALS),
        !k.contains(AMPERSAND),
        !value.contains(AMPERSAND),
    ensures
        ({
            let field = k + seq![EQUALS] + value;
            &&& form_value(field + seq![AMPERSAND] + rest, key) == if k == key {
                Some(value)
            } else {
                form_value(rest, key)
            }
            &&& form_value(field, key) == if k == key {
                Some(value)
            } else {
                None
            }
            &&& form_value(k + seq![AMPERSAND] + rest, key) == form_value(rest, key)
            &&& form_value(k, key) is None
        }),
{
    let field = k + seq![EQUALS] + value;
    assert(!field.contains(AMPERSAND)) by {
        if field.contains(AMPERSAND) {
            let i = choose|i: int| 0 <= i < field.len() && field[i] == AMPERSAND;
            if i < k.len() {
                assert(k.contains(k[i]));
            } else if i > k.len() {
                assert(field[i] == value[i - k.len() - 1]);
                assert(value.contains(value[i - k.len() - 1]));
            }
        }
    }
    lemma_first_part(field, rest);
    lemma_first_part(k, rest);
    one_part_without_separator(field, AMPERSAND);
    one_part_without_separator(k, AMPERSAND);
    field_has_its_value(field, EQUALS, k, value, key);
    field_has_its_value(k, EQUALS, Seq::empty(), value, key);
    let parts = split(rest, AMPERSAND);
    assert((seq![field] + parts).skip(1) =~= parts);
    assert((seq![k] + parts).skip(1) =~= parts);
    assert(seq![field].skip(1) =~= Seq::empty());
    assert(seq![k].skip(1) =~= Seq::empty());
    assert(first_value(seq![field].skip(1), key) is None);
    assert(first_value(seq![k].skip(1), key) is None);
}

proof fn lemma_first_part(field: Seq<u8>, rest: Seq<u8>)
    requires
        !field.contains(AMPERSAND),
    ensures
        split(field + seq![AMPERSAND] + rest, AMPERSAND) == seq![field] + split(rest, AMPERSAND),
{
    let s = field + seq![AMPERSAND] + rest;
    let n = field.len() as int;
    assert forall|j: int| 0 <= j < n implies s[j] != AMPERSAND by {
        assert(field.contains(field[j]));
    }
    lemma_first_at_is(s, AMPERSAND, n);
    assert(s.take(n) =~= field);
    assert(s.skip(n + 1) =~= rest);
}

/// The separators are `&` and `=`.
pub proof fn separators()
    ensures
        AMPERSAND as char == '&',
        EQUALS as char == '=',
{
}

/// The first value entered under a key, entry by entry.
pub proof fn first_entry_counts(
    name: Seq<u8>,
    value: Seq<u8>,
    rest: Seq<(Seq<u8>, Seq<u8>)>,
    key: Seq<u8>,
)
    ensures
        first_of(seq![(name, value)] + rest, key) == if name == key {
            Some(value)
        } else {
            first_of(rest, key)
        },
        first_of(Seq::empty(), key) is None,
{
    assert((seq![(name, value)] + rest).skip(1) =~= rest);
}

} // verus!
