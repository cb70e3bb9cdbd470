//! The address of the server to dial, written as a URL.
//!
//! `tcp://host:port/` or `tls://host:port/?pubkey=<hex>&token=<hex>`: `token` names
//! this adapter to the server, `pubkey` pins the server's P-256 key.

use crate::hex::{
    bytes_hex, bytes_read_back, bytes_spell_back, decode_hex, hex_bytes, hex_text,
    lemma_bytes_hex_len, lemma_hex_bytes_len, lemma_hex_text, upper_hex,
};
use crate::text::{
    chars_eq, chars_of, decimal, decimal_reads_back, digits_value, field_has_its_value, find_char,
    find_chars, first_at, is_digit, last_at, last_part_is_split_off, lemma_first_at,
    lemma_first_at_is, lemma_last_at, lemma_last_at_is, lemma_occurs_at, lemma_occurs_at_is, number,
    occurs_at, one_part_without_separator, parse_number, push_decimal, rfind_char, split, str_eq,
    value_of,
};
use vstd::prelude::*;
use vstd::utf8::encode_utf8;

verus! {

/// The parts of a URL.
#[derive(Clone, Copy)]
pub struct ParsedUrl<'a> {
    pub tls: bool,
    pub host: &'a str,
    pub port: u16,
    pub pubkey: Option<&'a str>,
    pub token: Option<&'a str>,
}

/// The parts of a URL, as text.
pub struct UrlView {
    pub tls: bool,
    pub host: Seq<char>,
    pub port: nat,
    pub pubkey: Option<Seq<char>>,
    pub token: Option<Seq<char>>,
}

/// The text that a reference points to, if there is one.
pub open spec fn text_of(s: Option<&str>) -> Option<Seq<char>> {
    match s {
        Some(t) => Some(t@),
        None => None,
    }
}

impl<'a> View for ParsedUrl<'a> {
    type V = UrlView;

    open spec fn view(&self) -> UrlView {
        UrlView {
            tls: self.tls,
            host: self.host@,
            port: self.port as nat,
            pubkey: text_of(self.pubkey),
            token: text_of(self.token),
        }
    }
}

/// Whether a scheme means TLS.
pub open spec fn scheme_tls(s: Seq<char>) -> Option<bool> {
    if s == "tls"@ {
        Some(true)
    } else if s == "tcp"@ {
        Some(false)
    } else {
        None
    }
}

/// `s` without the slashes at its end.
pub open spec fn trim_slashes(s: Seq<char>) -> Seq<char>
    decreases s.len(),
{
    if s.len() > 0 && s.last() == '/' {
        trim_slashes(s.drop_last())
    } else {
        s
    }
}

/// The value of the last of `fields` that has the key.
pub open spec fn last_value(fields: Seq<Seq<char>>, key: Seq<char>) -> Option<Seq<char>>
    decreases fields.len(),
{
    if fields.len() == 0 {
        None
    } else {
        match value_of(fields.last(), '=', key) {
            Some(v) => Some(v),
            None => last_value(fields.drop_last(), key),
        }
    }
}

/// The value that a query string gives to a key: the last one wins.
pub open spec fn query_value(query: Option<Seq<char>>, key: Seq<char>) -> Option<Seq<char>> {
    match query {
        Some(q) => last_value(split(q, '&'), key),
        None => None,
    }
}

/// The parts of the URL `s`, if it is one.
pub open spec fn parsed_url(s: Seq<char>) -> Option<UrlView> {
    match occurs_at(s, "://"@) {
        Some(i) => match scheme_tls(s.take(i)) {
            Some(tls) => {
                let rest = s.skip(i + 3);
                let (before, query) = match first_at(rest, '?') {
                    Some(q) => (rest.take(q), Some(rest.skip(q + 1))),
                    None => (rest, None),
                };
                let authority = trim_slashes(before);
                match last_at(authority, ':') {
                    Some(c) => match number(authority.skip(c + 1), 0xffff) {
                        Some(port) => if c > 0 {
                            Some(
                                UrlView {
                                    tls,
                                    host: authority.take(c),
                                    port,
                                    pubkey: query_value(query, "pubkey"@),
                                    token: query_value(query, "token"@),
                                },
                            )
                        } else {
                            None
                        },
                        None => None,
                    },
                    None => None,
                }
            },
            None => None,
        },
        None => None,
    }
}

proof fn lemma_last_value_front(field: Seq<char>, fields: Seq<Seq<char>>, key: Seq<char>)
    ensures
        last_value(seq![field] + fields, key) == match last_value(fields, key) {
            Some(v) => Some(v),
            None => value_of(field, '=', key),
        },
    decreases fields.len(),
{
    let all = seq![field] + fields;
    if fields.len() == 0 {
        assert(all.drop_last() =~= Seq::<Seq<char>>::empty());
        assert(last_value(all.drop_last(), key) is None);
    } else {
        assert(all.last() == fields.last());
        assert(all.drop_last() =~= seq![field] + fields.drop_last());
        lemma_last_value_front(field, fields.drop_last(), key);
    }
}

/// The value that the query string `q` gives to a key.
pub fn find_query_value<'a>(q: &'a str, key: &str) -> (r: Option<&'a str>)
    ensures
        text_of(r) == query_value(Some(q@), key@),
{
    let chars = chars_of(q);
    let cs: &[char] = chars.as_slice();
    let key_chars = chars_of(key);
    let n: usize = cs.len();
    let mut found: Option<(usize, usize)> = None;
    let mut at: usize = 0;
    assert(q@.skip(0) =~= q@);
    loop
        invariant
            cs@ == q@,
            key_chars@ == key@,
            n == q@.len(),
            at <= n,
            found matches Some((a, b)) ==> a <= b <= n,
            last_value(split(q@, '&'), key@) == match last_value(
                split(q@.skip(at as int), '&'),
                key@,
            ) {
                Some(v) => Some(v),
                None => match found {
                    Some((a, b)) => Some(q@.subrange(a as int, b as int)),
                    None => None,
                },
            },
        ensures
            found matches Some((a, b)) ==> a <= b <= n,
            last_value(split(q@, '&'), key@) == match found {
                Some((a, b)) => Some(q@.subrange(a as int, b as int)),
                None => None,
            },
        decreases n - at,
    {
        let end: usize = find_char(cs, at, '&');
        let ghost tail = q@.skip(at as int);
        let ghost field = q@.subrange(at as int, end as int);
        assert(tail.take(end - at) =~= field);
        proof {
            lemma_first_at(tail, '&');
        }
        let part: &[char] = &cs[at..end];
        assert(part@ == field);
        let e: usize = find_char(part, 0, '=');
        assert(part@.skip(0) =~= part@);
        let ghost before = found;
        if e < part.len() && chars_eq(&part[0..e], key_chars.as_slice()) {
            assert(part@.subrange(0, e as int) =~= part@.take(e as int));
            assert(part@.skip(e + 1) =~= q@.subrange(at + e + 1, end as int));
            found = Some((at + e + 1, end));
        }
        assert(e < part@.len() ==> part@.subrange(0, e as int) =~= part@.take(e as int));
        assert(value_of(field, '=', key@) == if found == before && !(e < part@.len()
            && part@.take(e as int) == key@) {
            None
        } else {
            Some(q@.subrange(at + e + 1, end as int))
        });
        if end == n {
            proof {
                assert(tail =~= field);
                assert(split(tail, '&') =~= seq![field] + Seq::<Seq<char>>::empty());
                lemma_last_value_front(field, Seq::empty(), key@);
            }
            break ;
        }
        proof {
            assert(tail.skip(end - at + 1) =~= q@.skip(end + 1));
            assert(split(tail, '&') == seq![field] + split(q@.skip(end + 1), '&'));
            lemma_last_value_front(field, split(q@.skip(end + 1), '&'), key@);
        }
        at = end + 1;
    }
    match found {
        Some((a, b)) => Some(q.substring_char(a, b)),
        None => None,
    }
}

/// How many characters of `s` are left without the slashes at its end.
fn trimmed_len(s: &[char]) -> (r: usize)
    ensures
        r <= s@.len(),
        s@.take(r as int) == trim_slashes(s@),
{
    let mut n: usize = s.len();
    assert(s@.take(n as int) =~= s@);
    while n > 0 && s[n - 1] == '/'
        invariant
            n <= s@.len(),
            trim_slashes(s@.take(n as int)) == trim_slashes(s@),
        decreases n,
    {
        assert(s@.take(n as int).drop_last() =~= s@.take(n - 1));
        n = n - 1;
    }
    n
}

/// Reads a URL.
pub fn parse_url<'a>(url: &'a str) -> (r: Option<ParsedUrl<'a>>)
    ensures
        match r {
            Some(u) => parsed_url(url@) == Some(u@),
            None => parsed_url(url@) is None,
        },
{
    proof {
        reveal_strlit("://");
    }
    let chars = chars_of(url);
    let cs: &[char] = chars.as_slice();
    let separator = chars_of("://");
    let i: usize = match find_chars(cs, separator.as_slice()) {
        Some(i) => i,
        None => {
            return None;
        },
    };
    let scheme = url.substring_char(0, i);
    assert(scheme@ =~= url@.take(i as int));
    let tls: bool = if str_eq(scheme, "tls") {
        true
    } else if str_eq(scheme, "tcp") {
        false
    } else {
        return None;
    };
    assert(cs@.len() == cs.len());
    let n: usize = cs.len() - (i + 3);
    let rest_str: &'a str = url.substring_char(i + 3, cs.len());
    let rest: &[char] = &cs[i + 3..cs.len()];
    assert(rest@ =~= url@.skip(i + 3));
    assert(rest_str@ =~= rest@);
    let q: usize = find_char(rest, 0, '?');
    assert(rest@.skip(0) =~= rest@);
    let before: &[char] = &rest[0..q];
    assert(before@ =~= rest@.take(q as int));
    let a: usize = trimmed_len(before);
    let authority: &[char] = &before[0..a];
    assert(authority@ =~= trim_slashes(before@));
    assert(q == n ==> before@ =~= rest@);
    let c: usize = match rfind_char(authority, ':') {
        Some(c) => c,
        None => {
            return None;
        },
    };
    let digits: &[char] = &authority[c + 1..a];
    assert(digits@ =~= authority@.skip(c + 1));
    let port: u32 = match parse_number(digits, 0xffff) {
        Some(p) => p,
        None => {
            return None;
        },
    };
    if c == 0 {
        return None;
    }
    let host: &'a str = rest_str.substring_char(0, c);
    assert(host@ =~= authority@.take(c as int));
    let mut pubkey: Option<&'a str> = None;
    let mut token: Option<&'a str> = None;
    if q < n {
        let query: &'a str = rest_str.substring_char(q + 1, n);
        assert(query@ =~= rest@.skip(q + 1));
        pubkey = find_query_value(query, "pubkey");
        token = find_query_value(query, "token");
    }
    Some(ParsedUrl { tls, host, port: port as u16, pubkey, token })
}

/// The query string for a key and a token, with its question mark.
pub open spec fn query_text(pubkey: Option<Seq<char>>, token: Option<Seq<char>>) -> Seq<char> {
    match (pubkey, token) {
        (None, None) => Seq::empty(),
        (Some(k), None) => "?pubkey="@ + k,
        (None, Some(t)) => "?token="@ + t,
        (Some(k), Some(t)) => "?pubkey="@ + k + "&token="@ + t,
    }
}

/// A URL in its documented form.
pub open spec fn url_text(u: UrlView) -> Seq<char> {
    (if u.tls {
        "tls://"@
    } else {
        "tcp://"@
    }) + u.host + ":"@ + decimal(u.port) + "/"@ + query_text(u.pubkey, u.token)
}

/// Whether every part of `u` can be told apart in a URL.
pub open spec fn writable(u: UrlView) -> bool {
    &&& u.host.len() > 0
    &&& !u.host.contains('?')
    &&& u.port <= 0xffff
    &&& (u.pubkey matches Some(k) ==> !k.contains('&'))
    &&& (u.token matches Some(t) ==> !t.contains('&'))
}

proof fn lemma_scheme_end(u: UrlView)
    ensures
        occurs_at(url_text(u), "://"@) == Some(3int),
        scheme_tls(url_text(u).take(3)) == Some(u.tls),
        url_text(u).skip(6) == u.host + ":"@ + decimal(u.port) + "/"@ + query_text(
            u.pubkey,
            u.token,
        ),
{
    reveal_strlit("tls://");
    reveal_strlit("tcp://");
    reveal_strlit("tls");
    reveal_strlit("tcp");
    reveal_strlit("://");
    let s = url_text(u);
    let p = "://"@;
    assert(s.subrange(3, 3int + p.len()) =~= p);
    assert forall|j: int| 0 <= j < 3 implies #[trigger] s.subrange(j, j + p.len()) != p by {
        assert(s.subrange(j, j + p.len())[0] == s[j]);
        assert(s[j] != ':');
    }
    lemma_occurs_at_is(s, p, 3);
    if u.tls {
        assert(s.take(3) =~= "tls"@);
    } else {
        assert(s.take(3) =~= "tcp"@);
        assert("tcp"@[1] != "tls"@[1]);
    }
    assert(s.skip(6) =~= u.host + ":"@ + decimal(u.port) + "/"@ + query_text(u.pubkey, u.token));
}

proof fn lemma_one_field(q: Seq<char>, key: Seq<char>, other: Seq<char>, value: Seq<char>)
    requires
        q == key + seq!['='] + value,
        !q.contains('&'),
        !key.contains('='),
        key != other,
    ensures
        query_value(Some(q), key) == Some(value),
        query_value(Some(q), other) is None,
{
    lemma_first_at(q, '&');
    let fields = split(q, '&');
    assert(fields =~= seq![q]);
    lemma_field(q, key, other, value);
    assert(fields.last() == q);
    assert(fields.drop_last() =~= Seq::<Seq<char>>::empty());
    assert(last_value(fields.drop_last(), other) is None);
}

proof fn lemma_field(f: Seq<char>, key: Seq<char>, other: Seq<char>, value: Seq<char>)
    requires
        f == key + seq!['='] + value,
        !key.contains('='),
        key != other,
    ensures
        value_of(f, '=', key) == Some(value),
        value_of(f, '=', other) is None,
{
    assert forall|j: int| 0 <= j < key.len() implies f[j] != '=' by {
        assert(f[j] == key[j]);
        assert(key.contains(key[j]));
    }
    lemma_first_at_is(f, '=', key.len() as int);
    assert(f.take(key.len() as int) =~= key);
    assert(f.skip(key.len() as int + 1) =~= value);
}

proof fn lemma_two_fields(k: Seq<char>, t: Seq<char>)
    requires
        !k.contains('&'),
        !t.contains('&'),
    ensures
        query_value(Some("pubkey="@ + k + "&token="@ + t), "pubkey"@) == Some(k),
        query_value(Some("pubkey="@ + k + "&token="@ + t), "token"@) == Some(t),
{
    reveal_strlit("pubkey=");
    reveal_strlit("&token=");
    reveal_strlit("pubkey");
    reveal_strlit("token");
    assert("pubkey"@[0] != "token"@[0]);
    let q = "pubkey="@ + k + "&token="@ + t;
    let f = "pubkey="@ + k;
    let g = "token"@ + seq!['='] + t;
    assert forall|j: int| 0 <= j < f.len() implies q[j] != '&' by {
        if j >= 7 {
            assert(q[j] == k[j - 7]);
            assert(k.contains(k[j - 7]));
        }
    }
    lemma_first_at_is(q, '&', f.len() as int);
    assert(q.take(f.len() as int) =~= f);
    assert(q.skip(f.len() as int + 1) =~= g);
    assert forall|j: int| 0 <= j < g.len() implies g[j] != '&' by {
        if j >= 6 {
            assert(g[j] == t[j - 6]);
            assert(t.contains(t[j - 6]));
        }
    }
    lemma_first_at(g, '&');
    assert(split(g, '&') =~= seq![g]);
    let fields = split(q, '&');
    assert(fields =~= seq![f, g]);
    assert(f =~= "pubkey"@ + seq!['='] + k);
    lemma_field(f, "pubkey"@, "token"@, k);
    lemma_field(g, "token"@, "pubkey"@, t);
    assert(fields.last() == g);
    assert(fields.drop_last() =~= seq![f]);
    assert(fields.drop_last().last() == f);
    assert(last_value(fields.drop_last(), "pubkey"@) == Some(k));
}

proof fn lemma_query(pubkey: Option<Seq<char>>, token: Option<Seq<char>>)
    requires
        pubkey matches Some(k) ==> !k.contains('&'),
        token matches Some(t) ==> !t.contains('&'),
    ensures
        query_text(pubkey, token).len() == 0 <==> pubkey is None && token is None,
        query_text(pubkey, token).len() > 0 ==> query_text(pubkey, token)[0] == '?' && query_value(
            Some(query_text(pubkey, token).skip(1)),
            "pubkey"@,
        ) == pubkey && query_value(Some(query_text(pubkey, token).skip(1)), "token"@) == token,
{
    reveal_strlit("?pubkey=");
    reveal_strlit("?token=");
    reveal_strlit("pubkey=");
    reveal_strlit("pubkey");
    reveal_strlit("token");
    assert("pubkey"@[0] != "token"@[0]);
    let q = query_text(pubkey, token);
    match (pubkey, token) {
        (None, None) => {},
        (Some(k), None) => {
            let f = "pubkey"@ + seq!['='] + k;
            assert(q.skip(1) =~= f);
            assert forall|j: int| 0 <= j < f.len() implies f[j] != '&' by {
                if j >= 7 {
                    assert(f[j] == k[j - 7]);
                    assert(k.contains(k[j - 7]));
                }
            }
            lemma_one_field(f, "pubkey"@, "token"@, k);
        },
        (None, Some(t)) => {
            let f = "token"@ + seq!['='] + t;
            assert(q.skip(1) =~= f);
            assert forall|j: int| 0 <= j < f.len() implies f[j] != '&' by {
                if j >= 6 {
                    assert(f[j] == t[j - 6]);
                    assert(t.contains(t[j - 6]));
                }
            }
            lemma_one_field(f, "token"@, "pubkey"@, t);
        },
        (Some(k), Some(t)) => {
            assert(q.skip(1) =~= "pubkey="@ + k + "&token="@ + t);
            lemma_two_fields(k, t);
        },
    }
}

/// A URL in its documented form reads back as the parts it was written from.
pub proof fn url_reads_back(u: UrlView)
    requires
        writable(u),
    ensures
        parsed_url(url_text(u)) == Some(u),
{
    lemma_scheme_end(u);
    lemma_query(u.pubkey, u.token);
    decimal_reads_back(u.port, 0xffff);
    reveal_strlit(":");
    reveal_strlit("/");
    let port = decimal(u.port);
    let q = query_text(u.pubkey, u.token);
    let authority = u.host + ":"@ + port;
    let before = authority + "/"@;
    let rest = before + q;
    assert(url_text(u).skip(6) =~= rest);
    assert forall|j: int| 0 <= j < before.len() implies rest[j] != '?' by {
        if j < u.host.len() {
            assert(rest[j] == u.host[j]);
            assert(u.host.contains(u.host[j]));
        } else if u.host.len() < j < authority.len() {
            assert(rest[j] == port[j - u.host.len() - 1]);
        }
    }
    if q.len() > 0 {
        lemma_first_at_is(rest, '?', before.len() as int);
        assert(rest.take(before.len() as int) =~= before);
        assert(rest.skip(before.len() as int + 1) =~= q.skip(1));
    } else {
        assert(rest =~= before);
        lemma_first_at(rest, '?');
    }
    assert(before.last() == '/');
    assert(before.drop_last() =~= authority);
    assert(authority.last() == port.last());
    assert(is_digit(port[port.len() - 1]));
    assert(trim_slashes(authority) == authority);
    assert forall|j: int| u.host.len() < j < authority.len() implies authority[j] != ':' by {
        assert(authority[j] == port[j - u.host.len() - 1]);
    }
    lemma_last_at_is(authority, ':', u.host.len() as int);
    assert(authority.take(u.host.len() as int) =~= u.host);
    assert(authority.skip(u.host.len() as int + 1) =~= port);
}

/// The P-256 public key that `hex` spells: the prefix of an uncompressed point and
/// its two coordinates, 65 bytes in all.
pub open spec fn pinned_key(hex: Seq<u8>) -> Option<Seq<u8>> {
    if hex.len() == 130 {
        match hex_bytes(hex) {
            Some(k) => if k[0] == 4 {
                Some(k)
            } else {
                None
            },
            None => None,
        }
    } else {
        None
    }
}

/// Reads a public key, an uncompressed P-256 point in hexadecimal.
pub fn parse_pubkey(hex: &str) -> (r: Option<[u8; 65]>)
    ensures
        match r {
            Some(k) => pinned_key(encode_utf8(hex@)) == Some(k@),
            None => pinned_key(encode_utf8(hex@)) is None,
        },
{
    let digits: &[u8] = hex.as_bytes();
    if digits.len() != 130 {
        return None;
    }
    let mut key: [u8; 65] = [0u8;65];
    if !decode_hex(digits, &mut key) {
        return None;
    }
    proof {
        lemma_hex_bytes_len(digits@);
        assert(key@ =~= hex_bytes(digits@).unwrap());
    }
    if key[0] != 4 {
        return None;
    }
    Some(key)
}

/// A key that is shown in hexadecimal is accepted as a `pubkey`.
pub proof fn shown_key_can_be_pinned(key: Seq<u8>)
    requires
        key.len() == 65,
        key[0] == 4,
    ensures
        pinned_key(encode_utf8(hex_text(key))) == Some(key),
{
    bytes_read_back(key);
    lemma_bytes_hex_len(key);
    lemma_hex_text(key);
}

/// `x`, a dot, and `rest`.
pub open spec fn dot_field(x: Seq<char>, rest: Seq<char>) -> Seq<char> {
    x + seq!['.'] + rest
}

/// An IPv4 address as four decimal numbers with dots between them.
pub open spec fn dotted(a: Seq<u8>) -> Seq<char> {
    dot_field(
        decimal(a[0] as nat),
        dot_field(decimal(a[1] as nat), dot_field(decimal(a[2] as nat), decimal(a[3] as nat))),
    )
}

proof fn lemma_decimal_spells_back(s: Seq<char>)
    requires
        digits_value(s) is Some,
        s.len() > 0,
        s.len() > 1 ==> s[0] != '0',
    ensures
        s == decimal(digits_value(s).unwrap()),
        s.len() > 1 ==> digits_value(s).unwrap() >= 10,
    decreases s.len(),
{
    let front = s.drop_last();
    if s.len() == 1 {
        assert(digits_value(front) == Some(0nat));
        assert(s =~= seq![s[0]]);
    } else {
        if s.len() == 2 {
            assert(front.drop_last() =~= Seq::<char>::empty());
            assert(digits_value(front.drop_last()) == Some(0nat));
            assert(digits_value(front).unwrap() >= 1);
        }
        lemma_decimal_spells_back(front);
        assert(s =~= front.push(s.last()));
    }
}

/// Reads one number of a dotted address: no sign, no superfluous zero.
fn parse_octet(s: &[char]) -> (r: Option<u8>)
    ensures
        r matches Some(v) ==> s@ == decimal(v as nat),
        r is None ==> forall|v: u8| s@ != #[trigger] decimal(v as nat),
{
    proof {
        assert forall|v: u8| s@ == #[trigger] decimal(v as nat) implies number(s@, 255) == Some(
            v as nat,
        ) && s@.len() > 0 && s@[0] != '+' && (s@.len() > 1 ==> s@[0] != '0') by {
            decimal_reads_back(v as nat, 255);
            assert(is_digit(s@[0]));
            if s@.len() > 1 {
                lemma_decimal_front(v as nat);
            }
        }
    }
    if s.len() == 0 || s[0] == '+' || (s.len() > 1 && s[0] == '0') {
        return None;
    }
    match parse_number(s, 255) {
        Some(v) => {
            proof {
                lemma_decimal_spells_back(s@);
            }
            Some(v as u8)
        },
        None => None,
    }
}

proof fn lemma_decimal_front(n: nat)
    ensures
        n > 0 ==> decimal(n)[0] != '0',
        decimal(n).len() > 0,
        n < 10 ==> decimal(n).len() == 1,
    decreases n,
{
    if n >= 10 {
        lemma_decimal_front(n / 10);
        assert(decimal(n)[0] == decimal(n / 10)[0]);
    }
}

proof fn lemma_dot_field(n: nat, rest: Seq<char>)
    ensures
        first_at(dot_field(decimal(n), rest), '.') == Some(decimal(n).len() as int),
        dot_field(decimal(n), rest).take(decimal(n).len() as int) == decimal(n),
        dot_field(decimal(n), rest).skip(decimal(n).len() as int + 1) == rest,
{
    let s = dot_field(decimal(n), rest);
    decimal_reads_back(n, n);
    assert forall|j: int| 0 <= j < decimal(n).len() implies s[j] != '.' by {
        assert(is_digit(decimal(n)[j]));
    }
    lemma_first_at_is(s, '.', decimal(n).len() as int);
    assert(s.take(decimal(n).len() as int) =~= decimal(n));
    assert(s.skip(decimal(n).len() as int + 1) =~= rest);
}

proof fn lemma_dot_field_unique(v: u8, r: Seq<char>, w: u8, q: Seq<char>)
    requires
        dot_field(decimal(v as nat), r) == dot_field(decimal(w as nat), q),
    ensures
        v == w,
        r == q,
{
    lemma_dot_field(v as nat, r);
    lemma_dot_field(w as nat, q);
    decimal_reads_back(v as nat, 255);
    decimal_reads_back(w as nat, 255);
}

/// Reads one number and the dot behind it: the number, and where the rest begins.
fn parse_dot_field(cs: &[char], from: usize) -> (r: Option<(u8, usize)>)
    requires
        from <= cs@.len(),
    ensures
        r matches Some((v, to)) ==> to <= cs@.len() && cs@.skip(from as int) == dot_field(
            decimal(v as nat),
            cs@.skip(to as int),
        ),
        r is None ==> forall|v: u8, rest: Seq<char>|
            cs@.skip(from as int) != #[trigger] dot_field(decimal(v as nat), rest),
{
    let ghost tail = cs@.skip(from as int);
    let dot: usize = find_char(cs, from, '.');
    proof {
        lemma_first_at(tail, '.');
        assert forall|v: u8, rest: Seq<char>|
            tail == #[trigger] dot_field(decimal(v as nat), rest) implies dot < cs@.len()
            && tail.take(dot - from) == decimal(v as nat) by {
            lemma_dot_field(v as nat, rest);
        }
    }
    if dot == cs.len() {
        return None;
    }
    let part: &[char] = &cs[from..dot];
    assert(part@ =~= tail.take(dot - from));
    match parse_octet(part) {
        Some(v) => {
            assert(tail =~= dot_field(decimal(v as nat), cs@.skip(dot + 1)));
            Some((v, dot + 1))
        },
        None => None,
    }
}

/// Reads an IPv4 address in dotted form.
pub fn parse_ipv4(host: &str) -> (r: Option<[u8; 4]>)
    ensures
        r matches Some(a) ==> host@ == dotted(a@),
        r is None ==> forall|a: Seq<u8>| a.len() == 4 ==> host@ != #[trigger] dotted(a),
{
    let chars = chars_of(host);
    let cs: &[char] = chars.as_slice();
    assert(host@.skip(0) =~= host@);
    if let Some((a, to_b)) = parse_dot_field(cs, 0) {
        proof {
            assert forall|x: Seq<u8>| x.len() == 4 && host@ == #[trigger] dotted(x) implies x[0]
                == a && cs@.skip(to_b as int) == dotted_tail(x) by {
                lemma_dot_field_unique(a, cs@.skip(to_b as int), x[0], dotted_tail(x));
            }
        }
        if let Some((b, to_c)) = parse_dot_field(cs, to_b) {
            proof {
                assert forall|x: Seq<u8>| x.len() == 4 && host@ == #[trigger] dotted(x) implies x[1]
                    == b && cs@.skip(to_c as int) == dot_field(
                    decimal(x[2] as nat),
                    decimal(x[3] as nat),
                ) by {
                    lemma_dot_field_unique(
                        b,
                        cs@.skip(to_c as int),
                        x[1],
                        dot_field(decimal(x[2] as nat), decimal(x[3] as nat)),
                    );
                }
            }
            if let Some((c, to_d)) = parse_dot_field(cs, to_c) {
                proof {
                    assert forall|x: Seq<u8>|
                        x.len() == 4 && host@ == #[trigger] dotted(x) implies cs@.skip(to_d as int)
                        == decimal(x[3] as nat) by {
                        lemma_dot_field_unique(
                            c,
                            cs@.skip(to_d as int),
                            x[2],
                            decimal(x[3] as nat),
                        );
                    }
                }
                let part: &[char] = &cs[to_d..cs.len()];
                assert(part@ =~= cs@.skip(to_d as int));
                if let Some(d) = parse_octet(part) {
                    let r: [u8; 4] = [a, b, c, d];
                    return Some(r);
                }
            }
        }
    }
    None
}

/// Appends an IPv4 address in dotted form.
pub fn push_dotted(out: &mut String, a: [u8; 4])
    ensures
        final(out)@ =~= old(out)@ + dotted(a@),
{
    push_decimal(out, a[0] as u64);
    out.push('.');
    push_decimal(out, a[1] as u64);
    out.push('.');
    push_decimal(out, a[2] as u64);
    out.push('.');
    push_decimal(out, a[3] as u64);
}

/// An IPv4 address is the only one that its dotted form denotes.
pub proof fn dotted_is_unique(a: Seq<u8>, b: Seq<u8>)
    requires
        a.len() == 4,
        b.len() == 4,
        dotted(a) == dotted(b),
    ensures
        a == b,
{
    lemma_dot_field_unique(a[0], dotted_tail(a), b[0], dotted_tail(b));
    let (ta, tb) = (
        dot_field(decimal(a[2] as nat), decimal(a[3] as nat)),
        dot_field(decimal(b[2] as nat), decimal(b[3] as nat)),
    );
    lemma_dot_field_unique(a[1], ta, b[1], tb);
    lemma_dot_field_unique(a[2], decimal(a[3] as nat), b[2], decimal(b[3] as nat));
    decimal_reads_back(a[3] as nat, 255);
    decimal_reads_back(b[3] as nat, 255);
    assert(a =~= b);
}

/// What stands behind the first dot of a dotted address.
spec fn dotted_tail(a: Seq<u8>) -> Seq<char> {
    dot_field(decimal(a[1] as nat), dot_field(decimal(a[2] as nat), decimal(a[3] as nat)))
}

// --- Every form of a URL ---------------------------------------------------

/// So many slashes.
pub open spec fn slashes(n: nat) -> Seq<char> {
    Seq::new(n, |i: int| '/')
}

/// A URL of these parts, with the digits of the port as they are written, any number of
/// slashes behind them, and a query string or none.
pub open spec fn url_form(
    tls: bool,
    host: Seq<char>,
    digits: Seq<char>,
    n: nat,
    query: Option<Seq<char>>,
) -> Seq<char> {
    (if tls {
        "tls://"@
    } else {
        "tcp://"@
    }) + host + ":"@ + digits + slashes(n) + match query {
        Some(q) => "?"@ + q,
        None => Seq::empty(),
    }
}

proof fn lemma_trim_slashes(s: Seq<char>, n: nat)
    requires
        s.len() > 0,
        s.last() != '/',
    ensures
        trim_slashes(s + slashes(n)) == s,
    decreases n,
{
    let t = s + slashes(n);
    if n == 0 {
        assert(t =~= s);
    } else {
        assert(t.drop_last() =~= s + slashes((n - 1) as nat));
        lemma_trim_slashes(s, (n - 1) as nat);
    }
}

proof fn lemma_number_chars(digits: Seq<char>, i: int)
    requires
        number(digits, 0xffff) is Some,
        0 <= i < digits.len(),
    ensures
        is_digit(digits[i]) || (i == 0 && digits[i] == '+'),
        digits.len() > 0,
        is_digit(digits.last()),
{
    let d = if digits[0] == '+' {
        digits.skip(1)
    } else {
        digits
    };
    lemma_digit_chars(d);
    if digits[0] == '+' {
        assert(d[d.len() - 1] == digits.last());
        if i > 0 {
            assert(d[i - 1] == digits[i]);
        }
    }
}

proof fn lemma_digit_chars(d: Seq<char>)
    requires
        digits_value(d) is Some,
    ensures
        forall|i: int| 0 <= i < d.len() ==> is_digit(#[trigger] d[i]),
    decreases d.len(),
{
    if d.len() > 0 {
        lemma_digit_chars(d.drop_last());
        assert forall|i: int| 0 <= i < d.len() implies is_digit(#[trigger] d[i]) by {
            if i < d.len() - 1 {
                assert(d.drop_last()[i] == d[i]);
            }
        }
    }
}

/// Every URL of that form is accepted and means its parts: the scheme, the host, the port,
/// and what its query string gives to `pubkey` and `token`.
pub proof fn every_url_is_accepted(
    tls: bool,
    host: Seq<char>,
    digits: Seq<char>,
    n: nat,
    query: Option<Seq<char>>,
)
    requires
        host.len() > 0,
        !host.contains('?'),
        number(digits, 0xffff) is Some,
    ensures
        parsed_url(url_form(tls, host, digits, n, query)) matches Some(u) && u.tls == tls && u.host
            == host && Some(u.port) == number(digits, 0xffff) && u.pubkey == query_value(
            query,
            "pubkey"@,
        ) && u.token == query_value(query, "token"@),
{
    let s = url_form(tls, host, digits, n, query);
    let tail = match query {
        Some(q) => "?"@ + q,
        None => Seq::empty(),
    };
    reveal_strlit("tls://");
    reveal_strlit("tcp://");
    reveal_strlit("://");
    reveal_strlit("tls");
    reveal_strlit("tcp");
    reveal_strlit(":");
    reveal_strlit("?");
    let p = "://"@;
    let authority = host + ":"@ + digits;
    let before = authority + slashes(n);
    let rest = before + tail;
    assert(s.skip(6) =~= rest);
    assert(s.subrange(3, 3int + p.len()) =~= p);
    assert forall|j: int| 0 <= j < 3 implies #[trigger] s.subrange(j, j + p.len()) != p by {
        assert(s.subrange(j, j + p.len())[0] == s[j]);
        assert(s[j] != ':');
    }
    lemma_occurs_at_is(s, p, 3);
    if tls {
        assert(s.take(3) =~= "tls"@);
    } else {
        assert(s.take(3) =~= "tcp"@);
        assert("tcp"@[1] != "tls"@[1]);
    }
    lemma_number_chars(digits, digits.len() - 1);
    assert forall|j: int| 0 <= j < before.len() implies rest[j] != '?' by {
        if j < host.len() {
            assert(rest[j] == host[j]);
            assert(host.contains(host[j]));
        } else if host.len() < j < authority.len() {
            lemma_number_chars(digits, j - host.len() - 1);
            assert(rest[j] == digits[j - host.len() - 1]);
        }
    }
    match query {
        Some(q) => {
            lemma_first_at_is(rest, '?', before.len() as int);
            assert(rest.take(before.len() as int) =~= before);
            assert(rest.skip(before.len() as int + 1) =~= q);
        },
        None => {
            assert(rest =~= before);
            lemma_first_at(rest, '?');
        },
    }
    assert(authority.last() == digits.last());
    lemma_trim_slashes(authority, n);
    assert forall|j: int| host.len() < j < authority.len() implies authority[j] != ':' by {
        lemma_number_chars(digits, j - host.len() - 1);
        assert(authority[j] == digits[j - host.len() - 1]);
    }
    lemma_last_at_is(authority, ':', host.len() as int);
    assert(authority.take(host.len() as int) =~= host);
    assert(authority.skip(host.len() as int + 1) =~= digits);
}

/// Nothing else is a URL.
pub proof fn nothing_else_is_a_url(s: Seq<char>)
    ensures
        parsed_url(s) matches Some(u) ==> u.host.len() > 0 && u.port <= 0xffff && exists|
            digits: Seq<char>,
            n: nat,
            query: Option<Seq<char>>,
        |
            number(digits, 0xffff) == Some(u.port) && s == #[trigger] url_form(
                u.tls,
                u.host,
                digits,
                n,
                query,
            ),
{
    if let Some(u) = parsed_url(s) {
        reveal_strlit("tls://");
        reveal_strlit("tcp://");
        reveal_strlit("://");
        reveal_strlit("tls");
        reveal_strlit("tcp");
        reveal_strlit(":");
        reveal_strlit("?");
        lemma_occurs_at(s, "://"@);
        let i = occurs_at(s, "://"@).unwrap();
        let rest = s.skip(i + 3);
        lemma_first_at(rest, '?');
        let (before, query) = match first_at(rest, '?') {
            Some(q) => (rest.take(q), Some(rest.skip(q + 1))),
            None => (rest, None),
        };
        let n = lemma_untrim(before);
        let authority = trim_slashes(before);
        lemma_last_at(authority, ':');
        let c = last_at(authority, ':').unwrap();
        let digits = authority.skip(c + 1);
        assert(authority =~= u.host + ":"@ + digits);
        assert(s.take(i) + s.subrange(i, i + 3) + rest =~= s);
        match query {
            Some(q) => {
                assert(rest =~= before + ("?"@ + q));
            },
            None => {
                assert(rest =~= before + Seq::empty());
            },
        }
        assert(s =~= url_form(u.tls, u.host, digits, n, query));
    }
}

proof fn lemma_untrim(s: Seq<char>) -> (n: nat)
    ensures
        s == trim_slashes(s) + slashes(n),
    decreases s.len(),
{
    if s.len() > 0 && s.last() == '/' {
        let m = lemma_untrim(s.drop_last());
        let front = s.drop_last();
        assert(trim_slashes(s) == trim_slashes(front));
        assert(s =~= front.push('/'));
        assert(slashes((m + 1) as nat) =~= slashes(m).push('/'));
        assert(s =~= trim_slashes(s) + slashes((m + 1) as nat));
        (m + 1) as nat
    } else {
        assert(s =~= trim_slashes(s) + slashes(0));
        0
    }
}

/// The last field of a query string that has the key gives it its value; fields with other
/// keys, or with none, do not matter.
pub proof fn last_field_wins(q: Seq<char>, k: Seq<char>, value: Seq<char>, key: Seq<char>)
    requires
        !k.contains('='),
        !k.contains('&'),
        !value.contains('&'),
    ensures
        ({
            let field = k + seq!['='] + value;
            &&& query_value(Some(q + seq!['&'] + field), key) == if k == key {
                Some(value)
            } else {
                query_value(Some(q), key)
            }
            &&& query_value(Some(field), key) == if k == key {
                Some(value)
            } else {
                None
            }
            &&& query_value(Some(q + seq!['&'] + k), key) == query_value(Some(q), key)
            &&& query_value(Some(k), key) is None
            &&& query_value(None, key) is None
        }),
{
    let field = k + seq!['='] + value;
    assert(!field.contains('&')) by {
        if field.contains('&') {
            let i = choose|i: int| 0 <= i < field.len() && field[i] == '&';
            if i < k.len() {
                assert(k.contains(k[i]));
            } else if i > k.len() {
                assert(field[i] == value[i - k.len() - 1]);
                assert(value.contains(value[i - k.len() - 1]));
            }
        }
    }
    last_part_is_split_off(q, '&', field);
    last_part_is_split_off(q, '&', k);
    one_part_without_separator(field, '&');
    one_part_without_separator(k, '&');
    field_has_its_value(field, '=', k, value, key);
    field_has_its_value(k, '=', Seq::empty(), value, key);
    let parts = split(q, '&');
    assert(parts.push(field).drop_last() =~= parts);
    assert(parts.push(k).drop_last() =~= parts);
    assert(seq![field].drop_last() =~= Seq::empty());
    assert(seq![k].drop_last() =~= Seq::empty());
    assert(last_value(seq![field].drop_last(), key) is None);
    assert(last_value(seq![k].drop_last(), key) is None);
}

/// A key is read from its 130 digits in either case, and from nothing else: it is the key
/// that those digits spell, and begins like an uncompressed point.
pub proof fn key_is_what_its_digits_spell(hex: Seq<u8>)
    ensures
        pinned_key(hex) matches Some(k) ==> hex.len() == 130 && k.len() == 65 && k[0] == 4
            && bytes_hex(k) == hex.map_values(|c: u8| upper_hex(c)),
        hex.len() == 130 && hex_bytes(hex) is Some && hex_bytes(hex).unwrap()[0] == 4 ==> pinned_key(
            hex,
        ) == hex_bytes(hex),
{
    lemma_hex_bytes_len(hex);
    if hex.len() == 130 && hex_bytes(hex) is Some {
        bytes_spell_back(hex);
    }
}

/// An address in dotted form has its four numbers between three dots.
pub proof fn dotted_has_four_numbers(a: Seq<u8>)
    requires
        a.len() == 4,
    ensures
        split(dotted(a), '.') == seq![
            decimal(a[0] as nat),
            decimal(a[1] as nat),
            decimal(a[2] as nat),
            decimal(a[3] as nat),
        ],
{
    let (n0, n1, n2, n3) = (
        decimal(a[0] as nat),
        decimal(a[1] as nat),
        decimal(a[2] as nat),
        decimal(a[3] as nat),
    );
    lemma_no_dot(a[0] as nat);
    lemma_no_dot(a[1] as nat);
    lemma_no_dot(a[2] as nat);
    lemma_no_dot(a[3] as nat);
    one_part_without_separator(n0, '.');
    let s1 = n0 + seq!['.'] + n1;
    let s2 = s1 + seq!['.'] + n2;
    let s3 = s2 + seq!['.'] + n3;
    last_part_is_split_off(n0, '.', n1);
    last_part_is_split_off(s1, '.', n2);
    last_part_is_split_off(s2, '.', n3);
    assert(dotted(a) =~= s3);
    assert(split(s3, '.') =~= seq![n0, n1, n2, n3]);
}

proof fn lemma_no_dot(n: nat)
    ensures
        !decimal(n).contains('.'),
{
    decimal_reads_back(n, n);
    assert forall|i: int| 0 <= i < decimal(n).len() implies decimal(n)[i] != '.' by {
        assert(is_digit(decimal(n)[i]));
    }
}

} // verus!
