//! Hexadecimal digits, numbers and byte strings in ASCII.

use vstd::prelude::*;
use vstd::utf8::{encode_utf8, is_ascii_chars, is_ascii_chars_encode_utf8};

verus! {

/// The value of the hexadecimal digit `c`, in either case.
pub open spec fn hex_val(c: u8) -> Option<u8> {
    if 0x30 <= c <= 0x39 {
        Some((c - 0x30) as u8)
    } else if 0x61 <= c <= 0x66 {
        Some((c - 0x61 + 10) as u8)
    } else if 0x41 <= c <= 0x46 {
        Some((c - 0x41 + 10) as u8)
    } else {
        None
    }
}

/// The upper-case digit that stands for `v`, for `v` below sixteen.
pub open spec fn hex_char(v: nat) -> u8 {
    if v < 10 {
        (0x30 + v) as u8
    } else {
        (0x41 + v - 10) as u8
    }
}

/// `c` with the letters `a` to `f` replaced by their capitals.
pub open spec fn upper_hex(c: u8) -> u8 {
    if 0x61 <= c <= 0x66 {
        (c - 0x20) as u8
    } else {
        c
    }
}

/// The number that `s` denotes, most significant digit first; the empty
/// sequence denotes zero.
pub open spec fn hex_number(s: Seq<u8>) -> Option<nat>
    decreases s.len(),
{
    if s.len() == 0 {
        Some(0)
    } else {
        match (hex_number(s.drop_last()), hex_val(s.last())) {
            (Some(high), Some(low)) => Some(high * 16 + low as nat),
            _ => None,
        }
    }
}

/// The last `width` hexadecimal digits of `v`, in capitals.
pub open spec fn hex_fixed(v: nat, width: nat) -> Seq<u8>
    decreases width,
{
    if width == 0 {
        Seq::empty()
    } else {
        hex_fixed(v / 16, (width - 1) as nat).push(hex_char(v % 16))
    }
}

/// The bytes that `s` spells, two digits each; `s` has an even length.
pub open spec fn hex_bytes(s: Seq<u8>) -> Option<Seq<u8>>
    decreases s.len(),
{
    if s.len() < 2 {
        Some(Seq::empty())
    } else {
        let n = s.len() as int;
        match (hex_bytes(s.take(n - 2)), hex_val(s[n - 2]), hex_val(s[n - 1])) {
            (Some(front), Some(high), Some(low)) => Some(front.push((high * 16 + low) as u8)),
            _ => None,
        }
    }
}

/// The two-digit spelling of each byte of `d`, in capitals.
pub open spec fn bytes_hex(d: Seq<u8>) -> Seq<u8>
    decreases d.len(),
{
    if d.len() == 0 {
        Seq::empty()
    } else {
        bytes_hex(d.drop_last()).push(hex_char((d.last() / 16) as nat)).push(
            hex_char((d.last() % 16) as nat),
        )
    }
}

/// Sixteen to the power `k`.
pub open spec fn pow16(k: nat) -> nat
    decreases k,
{
    if k == 0 {
        1
    } else {
        16 * pow16((k - 1) as nat)
    }
}

/// The value of one hexadecimal digit, in either case.
pub fn nibble(c: u8) -> (r: Option<u8>)
    ensures
        r == hex_val(c),
        r matches Some(v) ==> v < 16,
{
    if ('0' as u8) <= c && c <= ('9' as u8) {
        Some(c - '0' as u8)
    } else if ('a' as u8) <= c && c <= ('f' as u8) {
        Some(c - 'a' as u8 + 10)
    } else if ('A' as u8) <= c && c <= ('F' as u8) {
        Some(c - 'A' as u8 + 10)
    } else {
        None
    }
}

/// The upper-case digit for the low four bits of `v`.
pub fn hex_digit(v: u8) -> (r: u8)
    ensures
        r == hex_char((v % 16) as nat),
{
    let v: u8 = v % 16;
    if v < 10 {
        '0' as u8 + v
    } else {
        'A' as u8 + (v - 10)
    }
}

/// The number that `bytes` spells, kept modulo the range of `u32`.
pub fn parse_hex(bytes: &[u8]) -> (r: Option<u32>)
    ensures
        r is Some <==> hex_number(bytes@) is Some,
        r matches Some(v) ==> v as nat == hex_number(bytes@).unwrap() % 0x1_0000_0000,
{
    let mut v: u32 = 0;
    let mut i: usize = 0;
    assert(bytes@.take(0).len() == 0);
    while i < bytes.len()
        invariant
            i <= bytes@.len(),
            hex_number(bytes@.take(i as int)) is Some,
            v as nat == hex_number(bytes@.take(i as int)).unwrap() % 0x1_0000_0000,
        decreases bytes@.len() - i,
    {
        let ghost next = bytes@.take(i + 1);
        assert(next.drop_last() =~= bytes@.take(i as int));
        assert(next.last() == bytes@[i as int]);
        match nibble(bytes[i]) {
            Some(d) => {
                let ghost before = v;
                v = ((v % 0x1000_0000) * 16) + d as u32;
                proof {
                    let h = hex_number(bytes@.take(i as int)).unwrap() as int;
                    assert(v == (h * 16 + d) % 0x1_0000_0000);
                }
            },
            None => {
                proof {
                    lemma_bad_prefix(bytes@, i + 1);
                }
                return None;
            },
        }
        i = i + 1;
    }
    assert(bytes@.take(i as int) =~= bytes@);
    Some(v)
}

/// A sequence with a prefix that spells no number spells none.
proof fn lemma_bad_prefix(s: Seq<u8>, n: int)
    requires
        0 <= n <= s.len(),
        hex_number(s.take(n)) is None,
    ensures
        hex_number(s) is None,
    decreases s.len(),
{
    if n == s.len() {
        assert(s.take(n) =~= s);
    } else {
        assert(s.drop_last().take(n) =~= s.take(n));
        lemma_bad_prefix(s.drop_last(), n);
    }
}

/// Decodes the hexadecimal spelling `src` into the front of `dst`. Gives `false`
/// where `src` holds anything but digits.
pub fn decode_hex(src: &[u8], dst: &mut [u8]) -> (r: bool)
    requires
        src@.len() % 2 == 0,
        src@.len() <= 2 * old(dst)@.len(),
    ensures
        r == hex_bytes(src@) is Some,
        final(dst)@.len() == old(dst)@.len(),
        r ==> final(dst)@ =~= hex_bytes(src@).unwrap() + old(dst)@.skip(src@.len() as int / 2),
{
    let n: usize = src.len() / 2;
    let mut k: usize = 0;
    assert(src@.take(0).len() == 0);
    while k < n
        invariant
            k <= n,
            n == src@.len() / 2,
            src@.len() % 2 == 0,
            n <= dst@.len(),
            dst@.len() == old(dst)@.len(),
            hex_bytes(src@.take(2 * k)) is Some,
            hex_bytes(src@.take(2 * k)).unwrap() =~= dst@.take(k as int),
            forall|j: int| k <= j < dst@.len() ==> dst@[j] == old(dst)@[j],
        decreases n - k,
    {
        assert(src@.len() == src.len());
        let ghost next = src@.take(2 * k + 2);
        assert(next.take(next.len() - 2) =~= src@.take(2 * k));
        match (nibble(src[2 * k]), nibble(src[2 * k + 1])) {
            (Some(high), Some(low)) => {
                dst[k] = high * 16 + low;
            },
            _ => {
                proof {
                    lemma_bad_bytes_prefix(src@, 2 * k + 2);
                }
                return false;
            },
        }
        k = k + 1;
        assert(2 * k == next.len());
    }
    assert(src@.take(2 * n) =~= src@);
    true
}

/// A sequence with a prefix that spells no bytes spells none.
proof fn lemma_bad_bytes_prefix(s: Seq<u8>, n: int)
    requires
        0 <= n <= s.len(),
        n % 2 == 0,
        s.len() % 2 == 0,
        hex_bytes(s.take(n)) is None,
    ensures
        hex_bytes(s) is None,
    decreases s.len(),
{
    if n == s.len() {
        assert(s.take(n) =~= s);
    } else {
        let t = s.take(s.len() - 2);
        assert(t.take(n) =~= s.take(n));
        lemma_bad_bytes_prefix(t, n);
    }
}

/// Writes the last `width` digits of `v` into `out`, starting at `at`.
pub fn put_hex(out: &mut [u8], at: usize, v: u32, width: usize)
    requires
        at + width <= old(out)@.len(),
    ensures
        final(out)@ =~= old(out)@.take(at as int) + hex_fixed(v as nat, width as nat)
            + old(out)@.skip(at + width),
        hex_fixed(v as nat, width as nat).len() == width,
    decreases width,
{
    if width > 0 {
        assert(out@.len() == out.len());
        put_hex(out, at, v / 16, width - 1);
        out[at + (width - 1)] = hex_digit((v % 16) as u8);
    }
}

/// A number has the digits that it was spelled with.
pub proof fn lemma_hex_fixed_len(v: nat, width: nat)
    ensures
        hex_fixed(v, width).len() == width,
    decreases width,
{
    if width > 0 {
        lemma_hex_fixed_len(v / 16, (width - 1) as nat);
    }
}

/// Every digit reads back as the value it was written for.
pub proof fn digit_reads_back(v: nat)
    requires
        v < 16,
    ensures
        hex_val(hex_char(v)) == Some(v as u8),
{
}

/// A number below `16^width` that is spelled with `width` digits reads back.
pub proof fn number_reads_back(v: nat, width: nat)
    requires
        v < pow16(width),
    ensures
        hex_number(hex_fixed(v, width)) == Some(v),
    decreases width,
{
    if width > 0 {
        number_reads_back(v / 16, (width - 1) as nat);
        let s = hex_fixed(v, width);
        assert(s.drop_last() =~= hex_fixed(v / 16, (width - 1) as nat));
    } else {
        assert(hex_fixed(v, width) =~= Seq::<u8>::empty());
    }
}

/// Spelling a number again that was read from `s` gives `s` in capitals.
pub proof fn number_spells_back(s: Seq<u8>)
    requires
        hex_number(s) is Some,
    ensures
        hex_fixed(hex_number(s).unwrap(), s.len()) =~= s.map_values(|c: u8| upper_hex(c)),
        hex_number(s).unwrap() < pow16(s.len()),
    decreases s.len(),
{
    if s.len() > 0 {
        number_spells_back(s.drop_last());
        let v = hex_number(s).unwrap();
        let high = hex_number(s.drop_last()).unwrap();
        let low = hex_val(s.last()).unwrap();
        assert(v / 16 == high && v % 16 == low as nat);
        assert(s.map_values(|c: u8| upper_hex(c)) =~= s.drop_last().map_values(
            |c: u8| upper_hex(c),
        ).push(upper_hex(s.last())));
    }
}

/// Two digits for each byte.
pub proof fn lemma_bytes_hex_len(d: Seq<u8>)
    ensures
        bytes_hex(d).len() == 2 * d.len(),
    decreases d.len(),
{
    if d.len() > 0 {
        lemma_bytes_hex_len(d.drop_last());
    }
}

/// One byte for every two digits.
pub proof fn lemma_hex_bytes_len(s: Seq<u8>)
    ensures
        hex_bytes(s) matches Some(d) ==> d.len() == s.len() / 2,
    decreases s.len(),
{
    if s.len() >= 2 {
        lemma_hex_bytes_len(s.take(s.len() - 2));
    }
}

/// Bytes that are spelled in hexadecimal read back.
pub proof fn bytes_read_back(d: Seq<u8>)
    ensures
        hex_bytes(bytes_hex(d)) == Some(d),
    decreases d.len(),
{
    let s = bytes_hex(d);
    lemma_bytes_hex_len(d);
    if d.len() > 0 {
        bytes_read_back(d.drop_last());
        assert(s.take(s.len() - 2) =~= bytes_hex(d.drop_last()));
        assert(d.drop_last().push(d.last()) =~= d);
        let b = d.last();
        assert(((b / 16) * 16 + b % 16) as u8 == b);
    } else {
        assert(d =~= Seq::<u8>::empty());
    }
}

/// Spelling bytes again that were read from `s` gives `s` in capitals.
pub proof fn bytes_spell_back(s: Seq<u8>)
    requires
        s.len() % 2 == 0,
        hex_bytes(s) is Some,
    ensures
        bytes_hex(hex_bytes(s).unwrap()) =~= s.map_values(|c: u8| upper_hex(c)),
    decreases s.len(),
{
    if s.len() > 0 {
        let n = s.len() as int;
        bytes_spell_back(s.take(n - 2));
        let d = hex_bytes(s).unwrap();
        assert(d.drop_last() =~= hex_bytes(s.take(n - 2)).unwrap());
        let high = hex_val(s[n - 2]).unwrap();
        let low = hex_val(s[n - 1]).unwrap();
        assert(d.last() == (high * 16 + low) as u8);
        assert(d.last() / 16 == high && d.last() % 16 == low);
    }
}

/// The two-digit spelling of each byte of `d`, as text.
pub open spec fn hex_text(d: Seq<u8>) -> Seq<char> {
    bytes_hex(d).map_values(|b: u8| b as char)
}

/// Appends the spelling of `bytes` in capitals.
pub fn push_hex(out: &mut String, bytes: &[u8])
    ensures
        final(out)@ =~= old(out)@ + hex_text(bytes@),
{
    let mut i: usize = 0;
    while i < bytes.len()
        invariant
            i <= bytes@.len(),
            out@ =~= old(out)@ + hex_text(bytes@.take(i as int)),
        decreases bytes@.len() - i,
    {
        assert(bytes@.take(i + 1).drop_last() =~= bytes@.take(i as int));
        out.push(hex_digit(bytes[i] / 16) as char);
        out.push(hex_digit(bytes[i] % 16) as char);
        i = i + 1;
    }
    assert(bytes@.take(i as int) =~= bytes@);
}

/// The UTF-8 form of a spelling in hexadecimal.
pub proof fn lemma_hex_text(d: Seq<u8>)
    ensures
        encode_utf8(hex_text(d)) == bytes_hex(d),
{
    lemma_hex_digits(d);
    let t = hex_text(d);
    assert(is_ascii_chars(t));
    is_ascii_chars_encode_utf8(t);
    assert(encode_utf8(t) =~= bytes_hex(d));
}

/// A spelling in hexadecimal has digits only.
pub proof fn lemma_hex_digits(d: Seq<u8>)
    ensures
        forall|i: int| 0 <= i < bytes_hex(d).len() ==> hex_val(#[trigger] bytes_hex(d)[i]) is Some,
    decreases d.len(),
{
    if d.len() > 0 {
        let front = bytes_hex(d.drop_last());
        lemma_hex_digits(d.drop_last());
        assert forall|i: int| 0 <= i < bytes_hex(d).len() implies hex_val(
            #[trigger] bytes_hex(d)[i],
        ) is Some by {
            if i < front.len() {
                assert(bytes_hex(d)[i] == front[i]);
            }
        }
    }
}

/// The digits are the usual sixteen, the letters in either case; they are written with
/// capitals.
pub proof fn digits_are_the_usual_ones(c: u8, v: nat)
    requires
        v < 16,
    ensures
        hex_val(c) == Some(v as u8) <==> c == "0123456789ABCDEF"@[v as int] as u8 || c
            == "0123456789abcdef"@[v as int] as u8,
        hex_char(v) == "0123456789ABCDEF"@[v as int] as u8,
        hex_val(c) matches Some(x) ==> x < 16,
{
    reveal_strlit("0123456789ABCDEF");
    reveal_strlit("0123456789abcdef");
}

/// A number is read digit by digit, the most significant first: what stands in front of
/// `b` counts sixteen times as much for every digit of `b`.
pub proof fn number_is_positional(a: Seq<u8>, b: Seq<u8>)
    ensures
        hex_number(Seq::empty()) == Some(0nat),
        b.len() == 1 ==> hex_number(b) == (match hex_val(b[0]) {
            Some(v) => Some(v as nat),
            None => None,
        }),
        hex_number(a + b) == (match (hex_number(a), hex_number(b)) {
            (Some(x), Some(y)) => Some(x * pow16(b.len()) + y),
            _ => None,
        }),
    decreases b.len(),
{
    assert(hex_number(Seq::<u8>::empty()) == Some(0nat));
    if b.len() == 0 {
        assert(a + b =~= a);
        if let Some(x) = hex_number(a) {
            assert(x * 1 == x);
        }
    } else {
        let front = b.drop_last();
        number_is_positional(a, front);
        assert((a + b).drop_last() =~= a + front);
        if b.len() == 1 {
            assert(front =~= Seq::empty());
        }
        if let (Some(x), Some(y)) = (hex_number(a), hex_number(front)) {
            let p = pow16(front.len());
            assert((x * p + y) * 16 == x * (16 * p) + y * 16) by (nonlinear_arith);
        }
    }
}

/// Sixteen times as much for every digit.
pub proof fn pow16_steps(k: nat)
    ensures
        pow16(0) == 1,
        pow16(k + 1) == 16 * pow16(k),
{
}

/// What does not fit into `width` digits is cut off in front: a number is spelled like its
/// remainder.
pub proof fn spelling_keeps_the_low_digits(v: nat, width: nat)
    ensures
        pow16(width) > 0,
        hex_fixed(v, width) == hex_fixed(v % pow16(width), width),
    decreases width,
{
    if width > 0 {
        let p = pow16((width - 1) as nat);
        spelling_keeps_the_low_digits(v / 16, (width - 1) as nat);
        spelling_keeps_the_low_digits((v % (16 * p)) / 16, (width - 1) as nat);
        assert((v % (16 * p)) % 16 == v % 16 && (v % (16 * p)) / 16 == (v / 16) % p)
            by (nonlinear_arith)
            requires
                p > 0,
        {
            let q = v / (16 * p);
            let r = v % (16 * p);
            assert(v == (16 * p) * q + r);
            assert(v == 16 * (p * q) + r);
            assert(v % 16 == r % 16);
            assert(v / 16 == p * q + r / 16);
            assert(r / 16 < p);
            assert((p * q + r / 16) % p == r / 16);
        }
    }
}

/// Byte by byte: every byte has two digits, the upper half first.
pub proof fn bytes_have_two_digits_each(d: Seq<u8>, k: int)
    requires
        0 <= k < d.len(),
    ensures
        bytes_hex(d).len() == 2 * d.len(),
        bytes_hex(d)[2 * k] == hex_char((d[k] / 16) as nat),
        bytes_hex(d)[2 * k + 1] == hex_char((d[k] % 16) as nat),
    decreases d.len(),
{
    lemma_bytes_hex_len(d);
    lemma_bytes_hex_len(d.drop_last());
    if k < d.len() - 1 {
        bytes_have_two_digits_each(d.drop_last(), k);
    }
}

/// Byte by byte: two digits make a byte, the upper half first; anything but digits is
/// refused.
pub proof fn two_digits_make_a_byte(s: Seq<u8>)
    requires
        s.len() % 2 == 0,
    ensures
        hex_bytes(s) is Some <==> forall|i: int|
            0 <= i < s.len() ==> hex_val(#[trigger] s[i]) is Some,
        hex_bytes(s) matches Some(d) ==> d.len() == s.len() / 2 && forall|k: int|
            0 <= k < d.len() ==> #[trigger] d[k] == hex_val(s[2 * k]).unwrap() * 16 + hex_val(
                s[2 * k + 1],
            ).unwrap(),
    decreases s.len(),
{
    if s.len() > 0 {
        let n = s.len() as int;
        let front = s.take(n - 2);
        two_digits_make_a_byte(front);
        lemma_hex_bytes_len(front);
        if hex_bytes(s) is Some {
            assert forall|i: int| 0 <= i < s.len() implies hex_val(#[trigger] s[i]) is Some by {
                if i < n - 2 {
                    assert(front[i] == s[i]);
                }
            }
        } else {
            if hex_bytes(front) is None {
                let i = choose|i: int| 0 <= i < front.len() && hex_val(#[trigger] front[i]) is None;
                assert(hex_val(s[i]) is None);
            } else {
                assert(hex_val(s[n - 2]) is None || hex_val(s[n - 1]) is None);
            }
        }
    }
}

/// Text in hexadecimal has the digits of the bytes as its characters.
pub proof fn hex_text_is_its_digits(d: Seq<u8>, i: int)
    requires
        0 <= i < bytes_hex(d).len(),
    ensures
        hex_text(d).len() == bytes_hex(d).len(),
        hex_text(d)[i] as u8 == bytes_hex(d)[i],
        hex_text(d)[i] as u32 == bytes_hex(d)[i] as u32,
{
}

} // verus!
