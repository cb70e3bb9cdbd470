//! Text: searching and splitting sequences, decimal numbers, UTF-8.

use vstd::prelude::*;
use vstd::utf8::{decode_utf8, encode_utf8, valid_utf8};

verus! {

/// `std::string::String::push` appends one character.
pub assume_specification[ String::push ](s: &mut String, c: char)
    ensures
        final(s)@ == old(s)@.push(c),
;

/// The error of `core::str::from_utf8`, which nothing here looks into.
#[verifier::external_type_specification]
#[verifier::external_body]
pub struct ExUtf8Error(core::str::Utf8Error);

/// `core::str::from_utf8` accepts exactly the valid UTF-8, and gives the text that
/// the bytes encode.
pub assume_specification[ core::str::from_utf8 ](v: &[u8]) -> (r: Result<
    &str,
    core::str::Utf8Error,
>)
    ensures
        r is Ok <==> valid_utf8(v@),
        r matches Ok(s) ==> encode_utf8(s@) == v@,
;

/// The text that `bytes` encode, if they are UTF-8.
pub fn utf8_text(bytes: &[u8]) -> (r: Option<&str>)
    ensures
        r is Some <==> valid_utf8(bytes@),
        r matches Some(s) ==> encode_utf8(s@) == bytes@ && s@ == decode_utf8(bytes@),
{
    match core::str::from_utf8(bytes) {
        Ok(s) => {
            proof {
                vstd::utf8::encode_utf8_decode_utf8(s@);
            }
            Some(s)
        },
        Err(_) => None,
    }
}

// --- Searching -------------------------------------------------------------

/// The first position of `x` in `s`.
pub open spec fn first_at<T>(s: Seq<T>, x: T) -> Option<int>
    decreases s.len(),
{
    if s.len() == 0 {
        None
    } else if s[0] == x {
        Some(0)
    } else {
        match first_at(s.skip(1), x) {
            Some(i) => Some(i + 1),
            None => None,
        }
    }
}

/// The last position of `x` in `s`.
pub open spec fn last_at<T>(s: Seq<T>, x: T) -> Option<int>
    decreases s.len(),
{
    if s.len() == 0 {
        None
    } else if s.last() == x {
        Some(s.len() - 1)
    } else {
        last_at(s.drop_last(), x)
    }
}

/// The first position at which `pattern` occurs in `s`.
pub open spec fn occurs_at<T>(s: Seq<T>, pattern: Seq<T>) -> Option<int>
    decreases s.len(),
{
    if s.len() < pattern.len() || s.len() == 0 {
        None
    } else if s.take(pattern.len() as int) == pattern {
        Some(0)
    } else {
        match occurs_at(s.skip(1), pattern) {
            Some(i) => Some(i + 1),
            None => None,
        }
    }
}

/// The first position of an element is one where it stands, with none before it.
pub proof fn lemma_first_at<T>(s: Seq<T>, x: T)
    ensures
        first_at(s, x) matches Some(i) ==> 0 <= i < s.len() && s[i] == x && !s.take(i).contains(x),
        first_at(s, x) is None <==> !s.contains(x),
    decreases s.len(),
{
    if s.len() > 0 && s[0] != x {
        let t = s.skip(1);
        lemma_first_at(t, x);
        match first_at(t, x) {
            Some(i) => {
                assert forall|j: int| 0 <= j < i + 1 implies s[j] != x by {
                    if j > 0 {
                        assert(t.take(i)[j - 1] == s[j]);
                    }
                }
                assert(s[i + 1] == x);
            },
            None => {
                assert forall|j: int| 0 <= j < s.len() implies s[j] != x by {
                    if j > 0 {
                        assert(t[j - 1] == s[j]);
                    }
                }
            },
        }
    } else if s.len() > 0 {
        assert(s.take(0) =~= Seq::<T>::empty());
        assert(s[0] == x);
    }
}

/// A position with `x` and none before it is the first one.
pub proof fn lemma_first_at_is<T>(s: Seq<T>, x: T, i: int)
    requires
        0 <= i < s.len(),
        s[i] == x,
        forall|j: int| 0 <= j < i ==> s[j] != x,
    ensures
        first_at(s, x) == Some(i),
{
    lemma_first_at(s, x);
    assert(s.contains(x));
    let k = first_at(s, x).unwrap();
    if k > i {
        assert(s.take(k)[i] == x);
    }
}

/// The last position of an element is one where it stands, with none behind it.
pub proof fn lemma_last_at<T>(s: Seq<T>, x: T)
    ensures
        last_at(s, x) matches Some(i) ==> 0 <= i < s.len() && s[i] == x && !s.skip(i + 1).contains(
            x,
        ),
        last_at(s, x) is None <==> !s.contains(x),
    decreases s.len(),
{
    if s.len() > 0 {
        let t = s.drop_last();
        lemma_last_at(t, x);
        if s.last() == x {
            assert(s[s.len() - 1] == x);
            assert(s.skip(s.len() as int) =~= Seq::<T>::empty());
        } else {
            match last_at(t, x) {
                Some(i) => {
                    assert forall|j: int| i < j < s.len() implies s[j] != x by {
                        if j < t.len() {
                            assert(t.skip(i + 1)[j - i - 1] == s[j]);
                        }
                    }
                    assert(s[i] == x);
                },
                None => {
                    assert forall|j: int| 0 <= j < s.len() implies s[j] != x by {
                        if j < t.len() {
                            assert(t[j] == s[j]);
                        }
                    }
                },
            }
        }
    }
}

/// A position with `x` and none behind it is the last one.
pub proof fn lemma_last_at_is<T>(s: Seq<T>, x: T, i: int)
    requires
        0 <= i < s.len(),
        s[i] == x,
        forall|j: int| i < j < s.len() ==> s[j] != x,
    ensures
        last_at(s, x) == Some(i),
{
    lemma_last_at(s, x);
    assert(s.contains(x));
    let k = last_at(s, x).unwrap();
    if k < i {
        assert(s.skip(k + 1)[i - k - 1] == x);
    }
}

/// Where a pattern first occurs it stands, and nowhere before.
pub proof fn lemma_occurs_at<T>(s: Seq<T>, pattern: Seq<T>)
    requires
        pattern.len() > 0,
    ensures
        occurs_at(s, pattern) matches Some(i) ==> 0 <= i && i + pattern.len() <= s.len()
            && s.subrange(i, i + pattern.len()) == pattern,
        occurs_at(s, pattern) matches Some(i) ==> forall|j: int|
            0 <= j < i ==> #[trigger] s.subrange(j, j + pattern.len()) != pattern,
        occurs_at(s, pattern) is None ==> forall|j: int|
            0 <= j && j + pattern.len() <= s.len() ==> #[trigger] s.subrange(
                j,
                j + pattern.len(),
            ) != pattern,
    decreases s.len(),
{
    let n = pattern.len() as int;
    if s.len() >= n {
        assert(s.take(n) =~= s.subrange(0, n));
        if s.take(n) != pattern {
            let t = s.skip(1);
            lemma_occurs_at(t, pattern);
            assert forall|j: int|
                0 < j && j + n <= s.len() implies #[trigger] s.subrange(j, j + n) == t.subrange(
                j - 1,
                j - 1 + n,
            ) by {
                assert(s.subrange(j, j + n) =~= t.subrange(j - 1, j - 1 + n));
            }
        }
    }
}

/// Where a pattern stands, and nowhere before, it first occurs.
pub proof fn lemma_occurs_at_is<T>(s: Seq<T>, pattern: Seq<T>, i: int)
    requires
        pattern.len() > 0,
        0 <= i,
        i + pattern.len() <= s.len(),
        s.subrange(i, i + pattern.len()) == pattern,
        forall|j: int| 0 <= j < i ==> #[trigger] s.subrange(j, j + pattern.len()) != pattern,
    ensures
        occurs_at(s, pattern) == Some(i),
{
    lemma_occurs_at(s, pattern);
    if occurs_at(s, pattern) is None {
        assert(s.subrange(i, i + pattern.len()) != pattern);
    }
}

/// The first position of `x` in `s` from `from` on, or the length of `s`.
pub fn find_byte(s: &[u8], from: usize, x: u8) -> (r: usize)
    requires
        from <= s@.len(),
    ensures
        from <= r <= s@.len(),
        r < s@.len() ==> first_at(s@.skip(from as int), x) == Some(r - from),
        r == s@.len() ==> first_at(s@.skip(from as int), x) is None,
{
    let ghost t = s@.skip(from as int);
    let mut i: usize = from;
    while i < s.len()
        invariant
            from <= i <= s@.len(),
            t == s@.skip(from as int),
            forall|j: int| 0 <= j < i - from ==> t[j] != x,
        decreases s@.len() - i,
    {
        if s[i] == x {
            proof {
                lemma_first_at_is(t, x, i - from);
            }
            return i;
        }
        i = i + 1;
    }
    proof {
        lemma_first_at(t, x);
    }
    i
}

/// The first position of `x` in `s` from `from` on, or the length of `s`.
pub fn find_char(s: &[char], from: usize, x: char) -> (r: usize)
    requires
        from <= s@.len(),
    ensures
        from <= r <= s@.len(),
        r < s@.len() ==> first_at(s@.skip(from as int), x) == Some(r - from),
        r == s@.len() ==> first_at(s@.skip(from as int), x) is None,
{
    let ghost t = s@.skip(from as int);
    let mut i: usize = from;
    while i < s.len()
        invariant
            from <= i <= s@.len(),
            t == s@.skip(from as int),
            forall|j: int| 0 <= j < i - from ==> t[j] != x,
        decreases s@.len() - i,
    {
        if s[i] == x {
            proof {
                lemma_first_at_is(t, x, i - from);
            }
            return i;
        }
        i = i + 1;
    }
    proof {
        lemma_first_at(t, x);
    }
    i
}

/// The last position of `x` in `s`.
pub fn rfind_char(s: &[char], x: char) -> (r: Option<usize>)
    ensures
        match r {
            Some(i) => last_at(s@, x) == Some(i as int),
            None => last_at(s@, x) is None,
        },
        r matches Some(i) ==> i < s@.len(),
{
    let mut i: usize = s.len();
    while i > 0
        invariant
            i <= s@.len(),
            forall|j: int| i <= j < s@.len() ==> s@[j] != x,
        decreases i,
    {
        if s[i - 1] == x {
            proof {
                lemma_last_at_is(s@, x, i - 1);
            }
            return Some(i - 1);
        }
        i = i - 1;
    }
    proof {
        lemma_last_at(s@, x);
    }
    None
}

/// Whether two byte strings are equal.
pub fn bytes_eq(a: &[u8], b: &[u8]) -> (r: bool)
    ensures
        r == (a@ == b@),
{
    if a.len() != b.len() {
        return false;
    }
    let mut i: usize = 0;
    while i < a.len()
        invariant
            i <= a@.len(),
            a@.len() == b@.len(),
            forall|j: int| 0 <= j < i ==> a@[j] == b@[j],
        decreases a@.len() - i,
    {
        if a[i] != b[i] {
            return false;
        }
        i = i + 1;
    }
    assert(a@ =~= b@);
    true
}

/// The first position at which `pattern` occurs in `s`.
pub fn find_bytes(s: &[u8], pattern: &[u8]) -> (r: Option<usize>)
    requires
        pattern@.len() > 0,
    ensures
        match r {
            Some(i) => occurs_at(s@, pattern@) == Some(i as int),
            None => occurs_at(s@, pattern@) is None,
        },
        r matches Some(i) ==> i + pattern@.len() <= s@.len(),
{
    let n: usize = pattern.len();
    proof {
        lemma_occurs_at(s@, pattern@);
    }
    if s.len() < n {
        return None;
    }
    let last: usize = s.len() - n;
    let mut i: usize = 0;
    loop
        invariant
            n == pattern@.len(),
            n > 0,
            i <= last,
            last + n == s@.len(),
            forall|j: int| 0 <= j < i ==> #[trigger] s@.subrange(j, j + n) != pattern@,
            occurs_at(s@, pattern@) matches Some(k) ==> 0 <= k && k + n <= s@.len() && s@.subrange(
                k,
                k + n,
            ) == pattern@,
        decreases last - i,
    {
        assert(s@.len() == s.len());
        if bytes_eq(&s[i..i + n], pattern) {
            proof {
                lemma_occurs_at_is(s@, pattern@, i as int);
            }
            return Some(i);
        }
        if i == last {
            return None;
        }
        i = i + 1;
    }
}

/// Whether two texts are equal.
pub fn str_eq(a: &str, b: &str) -> (r: bool)
    ensures
        r == (a@ == b@),
{
    proof {
        vstd::utf8::encode_utf8_decode_utf8(a@);
        vstd::utf8::encode_utf8_decode_utf8(b@);
    }
    bytes_eq(a.as_bytes(), b.as_bytes())
}

/// The characters of `s`.
pub fn chars_of(s: &str) -> (r: Vec<char>)
    ensures
        r@ == s@,
{
    let mut r: Vec<char> = Vec::new();
    for c in it: s.chars()
        invariant
            r@ =~= s@.take(it.index() as int),
            it.seq() == s@,
    {
        r.push(c);
    }
    assert(s@.take(s@.len() as int) =~= s@);
    r
}

/// Whether two character sequences are equal.
pub fn chars_eq(a: &[char], b: &[char]) -> (r: bool)
    ensures
        r == (a@ == b@),
{
    if a.len() != b.len() {
        return false;
    }
    let mut i: usize = 0;
    while i < a.len()
        invariant
            i <= a@.len(),
            a@.len() == b@.len(),
            forall|j: int| 0 <= j < i ==> a@[j] == b@[j],
        decreases a@.len() - i,
    {
        if a[i] != b[i] {
            return false;
        }
        i = i + 1;
    }
    assert(a@ =~= b@);
    true
}

/// The first position at which `pattern` occurs in `s`.
pub fn find_chars(s: &[char], pattern: &[char]) -> (r: Option<usize>)
    requires
        pattern@.len() > 0,
    ensures
        match r {
            Some(i) => occurs_at(s@, pattern@) == Some(i as int),
            None => occurs_at(s@, pattern@) is None,
        },
        r matches Some(i) ==> i + pattern@.len() <= s@.len(),
{
    let n: usize = pattern.len();
    proof {
        lemma_occurs_at(s@, pattern@);
    }
    if s.len() < n {
        return None;
    }
    let last: usize = s.len() - n;
    let mut i: usize = 0;
    loop
        invariant
            n == pattern@.len(),
            n > 0,
            i <= last,
            last + n == s@.len(),
            forall|j: int| 0 <= j < i ==> #[trigger] s@.subrange(j, j + n) != pattern@,
            occurs_at(s@, pattern@) matches Some(k) ==> 0 <= k && k + n <= s@.len() && s@.subrange(
                k,
                k + n,
            ) == pattern@,
        decreases last - i,
    {
        assert(s@.len() == s.len());
        if chars_eq(&s[i..i + n], pattern) {
            proof {
                lemma_occurs_at_is(s@, pattern@, i as int);
            }
            return Some(i);
        }
        if i == last {
            return None;
        }
        i = i + 1;
    }
}

// --- Fields ----------------------------------------------------------------

/// The parts of `s` between the separators `x`.
pub open spec fn split<T>(s: Seq<T>, x: T) -> Seq<Seq<T>>
    decreases s.len(),
{
    match first_at(s, x) {
        Some(i) => if 0 <= i < s.len() {
            seq![s.take(i)] + split(s.skip(i + 1), x)
        } else {
            Seq::empty()
        },
        None => seq![s],
    }
}

/// What one more element does to the parts: a separator begins a new one, and anything
/// else goes to the last one.
pub proof fn lemma_split_push<T>(s: Seq<T>, x: T, y: T)
    ensures
        split(s, x).len() > 0,
        split(s.push(y), x) == if y == x {
            split(s, x).push(Seq::empty())
        } else {
            split(s, x).drop_last().push(split(s, x).last().push(y))
        },
    decreases s.len(),
{
    let t = s.push(y);
    lemma_first_at(s, x);
    match first_at(s, x) {
        Some(i) => {
            assert(t[i] == x);
            assert forall|j: int| 0 <= j < i implies t[j] != x by {
                assert(s.take(i)[j] == s[j]);
                assert(s.take(i).contains(s.take(i)[j]));
            }
            lemma_first_at_is(t, x, i);
            lemma_split_push(s.skip(i + 1), x, y);
            assert(t.take(i) =~= s.take(i));
            assert(t.skip(i + 1) =~= s.skip(i + 1).push(y));
            let head = seq![s.take(i)];
            let rest = split(s.skip(i + 1), x);
            assert(split(s, x) =~= head + rest);
            if y == x {
                assert(split(t, x) =~= split(s, x).push(Seq::empty()));
            } else {
                assert(split(s, x).last() == rest.last());
                assert(split(t, x) =~= split(s, x).drop_last().push(split(s, x).last().push(y)));
            }
        },
        None => {
            assert(split(s, x) =~= seq![s]);
            assert forall|j: int| 0 <= j < s.len() implies t[j] != x by {
                assert(s.contains(s[j]));
            }
            if y == x {
                lemma_first_at_is(t, x, s.len() as int);
                assert(t.take(s.len() as int) =~= s);
                assert(t.skip(s.len() as int + 1) =~= Seq::empty());
                lemma_first_at(Seq::<T>::empty(), x);
                assert(split(Seq::<T>::empty(), x) =~= seq![Seq::<T>::empty()]);
                assert(split(t, x) =~= split(s, x).push(Seq::empty()));
            } else {
                lemma_first_at(t, x);
                assert(split(t, x) =~= split(s, x).drop_last().push(split(s, x).last().push(y)));
            }
        },
    }
}

/// The value of a `key=value` field, if `field` has that key.
pub open spec fn value_of<T>(field: Seq<T>, equals: T, key: Seq<T>) -> Option<Seq<T>> {
    match first_at(field, equals) {
        Some(i) => if field.take(i) == key {
            Some(field.skip(i + 1))
        } else {
            None
        },
        None => None,
    }
}

// --- Decimal numbers -------------------------------------------------------

/// The character of a decimal digit.
pub open spec fn digit_char(d: nat) -> char {
    (0x30 + d) as char
}

/// The decimal spelling of `n`.
pub open spec fn decimal(n: nat) -> Seq<char>
    decreases n,
{
    if n < 10 {
        seq![digit_char(n)]
    } else {
        decimal(n / 10).push(digit_char(n % 10))
    }
}

/// Appends the decimal spelling of `n`.
pub fn push_decimal(out: &mut String, n: u64)
    ensures
        final(out)@ =~= old(out)@ + decimal(n as nat),
    decreases n,
{
    if n >= 10 {
        push_decimal(out, n / 10);
    }
    out.push(('0' as u8 + (n % 10) as u8) as char);
}

/// Whether `c` is a decimal digit.
pub open spec fn is_digit(c: char) -> bool {
    '0' <= c && c <= '9'
}

/// The number that a sequence of digits denotes.
pub open spec fn digits_value(s: Seq<char>) -> Option<nat>
    decreases s.len(),
{
    if s.len() == 0 {
        Some(0)
    } else {
        match digits_value(s.drop_last()) {
            Some(high) => if is_digit(s.last()) {
                Some(high * 10 + (s.last() as nat - 0x30) as nat)
            } else {
                None
            },
            None => None,
        }
    }
}

/// The number up to `max` that `s` denotes: digits, at least one, with an optional
/// plus sign in front.
pub open spec fn number(s: Seq<char>, max: nat) -> Option<nat> {
    let d = if s.len() > 0 && s[0] == '+' {
        s.skip(1)
    } else {
        s
    };
    if d.len() == 0 {
        None
    } else {
        match digits_value(d) {
            Some(v) => if v <= max {
                Some(v)
            } else {
                None
            },
            None => None,
        }
    }
}

proof fn lemma_digits_prefix(s: Seq<char>, n: int)
    requires
        0 <= n <= s.len(),
    ensures
        digits_value(s.take(n)) is None ==> digits_value(s) is None,
        digits_value(s) matches Some(v) ==> digits_value(s.take(n)).unwrap() <= v,
    decreases s.len(),
{
    if n == s.len() {
        assert(s.take(n) =~= s);
    } else {
        assert(s.drop_last().take(n) =~= s.take(n));
        lemma_digits_prefix(s.drop_last(), n);
    }
}

/// Reads a number up to `max`.
pub fn parse_number(s: &[char], max: u32) -> (r: Option<u32>)
    ensures
        match r {
            Some(v) => number(s@, max as nat) == Some(v as nat),
            None => number(s@, max as nat) is None,
        },
{
    let start: usize = if s.len() > 0 && s[0] == '+' {
        1
    } else {
        0
    };
    let ghost d = s@.skip(start as int);
    assert(start == 0 ==> d =~= s@);
    if start == s.len() {
        return None;
    }
    let mut v: u64 = 0;
    let mut i: usize = start;
    assert(d.take(0) =~= Seq::<char>::empty());
    while i < s.len()
        invariant
            start <= i <= s@.len(),
            start == (if s@[0] == '+' {
                1int
            } else {
                0
            }),
            0 < d.len(),
            d == (if start == 1 {
                s@.skip(1)
            } else {
                s@
            }),
            d == s@.skip(start as int),
            digits_value(d.take(i - start)) == Some(v as nat),
            v <= max,
        decreases s@.len() - i,
    {
        let ghost k = i - start;
        assert(d.take(k + 1).drop_last() =~= d.take(k));
        assert(d.take(k + 1).last() == s@[i as int]);
        proof {
            lemma_digits_prefix(d, k + 1);
        }
        let c: char = s[i];
        if !('0' <= c && c <= '9') {
            return None;
        }
        v = v * 10 + (c as u32 - '0' as u32) as u64;
        if v > max as u64 {
            return None;
        }
        i = i + 1;
    }
    assert(d.take(i - start) =~= d);
    Some(v as u32)
}

/// A number that is spelled in decimal reads back.
pub proof fn decimal_reads_back(n: nat, max: nat)
    requires
        n <= max,
    ensures
        number(decimal(n), max) == Some(n),
        decimal(n).len() > 0,
        forall|i: int| 0 <= i < decimal(n).len() ==> is_digit(#[trigger] decimal(n)[i]),
{
    lemma_decimal(n);
    assert(is_digit(decimal(n)[0]));
}

proof fn lemma_decimal(n: nat)
    ensures
        digits_value(decimal(n)) == Some(n),
        decimal(n).len() > 0,
        forall|i: int| 0 <= i < decimal(n).len() ==> is_digit(#[trigger] decimal(n)[i]),
    decreases n,
{
    let s = decimal(n);
    if n < 10 {
        assert(s.drop_last() =~= Seq::<char>::empty());
        assert(digits_value(s.drop_last()) == Some(0nat));
    } else {
        lemma_decimal(n / 10);
        assert(s.drop_last() =~= decimal(n / 10));
    }
}

// --- White space -----------------------------------------------------------

/// The Unicode `White_Space` characters.
pub open spec fn white_space(c: char) -> bool {
    let u = c as u32;
    ||| 0x09 <= u <= 0x0d
    ||| u == 0x20
    ||| u == 0x85
    ||| u == 0xa0
    ||| u == 0x1680
    ||| 0x2000 <= u <= 0x200a
    ||| u == 0x2028
    ||| u == 0x2029
    ||| u == 0x202f
    ||| u == 0x205f
    ||| u == 0x3000
}

/// Whether `c` is white space.
pub fn is_white_space(c: char) -> (r: bool)
    ensures
        r == white_space(c),
{
    let u: u32 = c as u32;
    (0x09 <= u && u <= 0x0d) || u == 0x20 || u == 0x85 || u == 0xa0 || u == 0x1680 || (0x2000 <= u
        && u <= 0x200a) || u == 0x2028 || u == 0x2029 || u == 0x202f || u == 0x205f || u == 0x3000
}

/// `s` without the white space in front.
pub open spec fn trim_front(s: Seq<char>) -> Seq<char>
    decreases s.len(),
{
    if s.len() > 0 && white_space(s[0]) {
        trim_front(s.skip(1))
    } else {
        s
    }
}

/// `s` without the white space behind.
pub open spec fn trim_back(s: Seq<char>) -> Seq<char>
    decreases s.len(),
{
    if s.len() > 0 && white_space(s.last()) {
        trim_back(s.drop_last())
    } else {
        s
    }
}

/// `s` without the white space around it.
pub fn trim(s: &[char]) -> (r: &[char])
    ensures
        r@ == trim_back(trim_front(s@)),
{
    let mut i: usize = 0;
    assert(s@.skip(0) =~= s@);
    while i < s.len() && is_white_space(s[i])
        invariant
            i <= s@.len(),
            trim_front(s@.skip(i as int)) == trim_front(s@),
        decreases s@.len() - i,
    {
        assert(s@.skip(i as int).skip(1) =~= s@.skip(i + 1));
        i = i + 1;
    }
    let ghost front = s@.skip(i as int);
    let mut j: usize = s.len();
    assert(s@.subrange(i as int, j as int) =~= front);
    while j > i && is_white_space(s[j - 1])
        invariant
            i <= j <= s@.len(),
            trim_back(s@.subrange(i as int, j as int)) == trim_back(front),
        decreases j,
    {
        assert(s@.subrange(i as int, j as int).drop_last() =~= s@.subrange(i as int, j - 1));
        j = j - 1;
    }
    &s[i..j]
}

// --- Laws ------------------------------------------------------------------

/// Text that follows a separator and holds none is the last part, behind the parts of what
/// is in front.
pub proof fn last_part_is_split_off<T>(a: Seq<T>, x: T, b: Seq<T>)
    requires
        !b.contains(x),
    ensures
        split(a + seq![x] + b, x) == split(a, x).push(b),
    decreases b.len(),
{
    let s = a + seq![x] + b;
    if b.len() == 0 {
        assert(s =~= a.push(x));
        assert(b =~= Seq::empty());
        lemma_split_push(a, x, x);
    } else {
        let front = b.drop_last();
        assert(b[b.len() - 1] == b.last());
        assert(b.last() != x);
        assert(!front.contains(x)) by {
            if front.contains(x) {
                let k = choose|k: int| 0 <= k < front.len() && front[k] == x;
                assert(b[k] == x);
            }
        }
        last_part_is_split_off(a, x, front);
        assert(s =~= (a + seq![x] + front).push(b.last()));
        lemma_split_push(a + seq![x] + front, x, b.last());
        let parts = split(a, x).push(front);
        assert(parts.drop_last() =~= split(a, x));
        assert(front.push(b.last()) =~= b);
    }
}

/// Text without a separator is one part.
pub proof fn one_part_without_separator<T>(b: Seq<T>, x: T)
    requires
        !b.contains(x),
    ensures
        split(b, x) == seq![b],
{
    lemma_first_at(b, x);
    assert(split(b, x) =~= seq![b]);
}

/// A field gives its value to its own key and to no other; text without the sign between
/// key and value gives none.
pub proof fn field_has_its_value<T>(field: Seq<T>, equals: T, k: Seq<T>, value: Seq<T>, key: Seq<T>)
    requires
        !k.contains(equals),
    ensures
        field == k + seq![equals] + value ==> value_of(field, equals, key) == if k == key {
            Some(value)
        } else {
            None
        },
        !field.contains(equals) ==> value_of(field, equals, key) is None,
{
    if field == k + seq![equals] + value {
        let n = k.len() as int;
        assert forall|j: int| 0 <= j < n implies field[j] != equals by {
            assert(k.contains(k[j]));
        }
        lemma_first_at_is(field, equals, n);
        assert(field.take(n) =~= k);
        assert(field.skip(n + 1) =~= value);
    }
    lemma_first_at(field, equals);
}

/// Ten to the power `k`.
pub open spec fn pow10(k: nat) -> nat
    decreases k,
{
    if k == 0 {
        1
    } else {
        10 * pow10((k - 1) as nat)
    }
}

/// Digits are read one by one, the most significant first: what stands in front of `b`
/// counts ten times as much for every digit of `b`.
pub proof fn digits_are_positional(a: Seq<char>, b: Seq<char>)
    ensures
        digits_value(Seq::empty()) == Some(0nat),
        b.len() == 1 ==> digits_value(b) == (if '0' <= b[0] && b[0] <= '9' {
            Some((b[0] as nat - 0x30) as nat)
        } else {
            None
        }),
        digits_value(a + b) == (match (digits_value(a), digits_value(b)) {
            (Some(x), Some(y)) => Some(x * pow10(b.len()) + y),
            _ => None,
        }),
    decreases b.len(),
{
    assert(digits_value(Seq::<char>::empty()) == Some(0nat));
    if b.len() == 0 {
        assert(a + b =~= a);
        if let Some(x) = digits_value(a) {
            assert(x * 1 == x);
        }
    } else {
        let front = b.drop_last();
        digits_are_positional(a, front);
        assert((a + b).drop_last() =~= a + front);
        if b.len() == 1 {
            assert(front =~= Seq::empty());
        }
        if let (Some(x), Some(y)) = (digits_value(a), digits_value(front)) {
            let p = pow10(front.len());
            assert((x * p + y) * 10 == x * (10 * p) + y * 10) by (nonlinear_arith);
        }
    }
}

/// A number is at least one digit, with at most one plus sign in front, and at most as high
/// as is allowed; anything else is none.
pub proof fn numbers_are_digits(s: Seq<char>, max: nat)
    ensures
        s.len() > 0 && s[0] != '+' ==> number(s, max) == (match digits_value(s) {
            Some(v) => if v <= max {
                Some(v)
            } else {
                None
            },
            None => None,
        }),
        s.len() > 0 && s[0] != '+' ==> number(seq!['+'] + s, max) == number(s, max),
        number(Seq::empty(), max) is None,
        number(seq!['+'], max) is None,
        number(seq!['+', '+'] + s, max) is None,
{
    assert((seq!['+'] + s).skip(1) =~= s);
    let t = seq!['+', '+'] + s;
    let rest = t.skip(1);
    assert(rest =~= seq!['+'] + s);
    digits_are_positional(seq!['+'], s);
    digits_are_positional(Seq::empty(), seq!['+']);
    assert(seq!['+'].skip(1) =~= Seq::empty());
}

/// A number is spelled without zeros in front.
pub proof fn decimal_has_no_zeros_in_front(n: nat)
    ensures
        n > 0 ==> decimal(n)[0] != '0',
        n == 0 ==> decimal(n) == seq!['0'],
        decimal(n).len() > 0,
    decreases n,
{
    if n >= 10 {
        decimal_has_no_zeros_in_front(n / 10);
        assert(decimal(n)[0] == decimal(n / 10)[0]);
    } else {
        assert(decimal(0) =~= seq!['0']);
    }
}

/// White space is what Unicode calls so.
pub proof fn white_space_is_what_unicode_says(c: char)
    ensures
        white_space(c) <==> ("\t\n\u{b}\u{c}\r \u{85}\u{a0}\u{1680}\u{2028}\u{2029}\u{202f}\u{205f}\u{3000}"@.contains(
            c,
        ) || '\u{2000}' <= c <= '\u{200a}'),
{
    reveal_strlit(
        "\t\n\u{b}\u{c}\r \u{85}\u{a0}\u{1680}\u{2028}\u{2029}\u{202f}\u{205f}\u{3000}",
    );
    let t =
        "\t\n\u{b}\u{c}\r \u{85}\u{a0}\u{1680}\u{2028}\u{2029}\u{202f}\u{205f}\u{3000}"@;
    assert(t[0] == '\t' && t[1] == '\n' && t[2] == '\u{b}' && t[3] == '\u{c}' && t[4] == '\r'
        && t[5] == ' ' && t[6] == '\u{85}' && t[7] == '\u{a0}' && t[8] == '\u{1680}' && t[9]
        == '\u{2028}' && t[10] == '\u{2029}' && t[11] == '\u{202f}' && t[12] == '\u{205f}'
        && t[13] == '\u{3000}' && t.len() == 14);
    assert forall|i: int| 0 <= i < 14 implies white_space(#[trigger] t[i]) && t.contains(t[i]) by {}
}

/// Whether a text is white space alone.
pub open spec fn blank(s: Seq<char>) -> bool {
    forall|i: int| 0 <= i < s.len() ==> white_space(#[trigger] s[i])
}

/// Trimming takes away the white space around a text, all of it and nothing else.
pub proof fn trim_takes_white_space_only(a: Seq<char>, s: Seq<char>, b: Seq<char>)
    requires
        blank(a),
        blank(b),
        s.len() > 0 ==> !white_space(s[0]) && !white_space(s.last()),
    ensures
        trim_back(trim_front(a + s + b)) == s,
{
    let t = a + s + b;
    lemma_trim_front(a, s + b);
    assert(t =~= a + (s + b));
    if s.len() > 0 {
        assert((s + b)[0] == s[0]);
        assert(trim_front(s + b) == s + b);
        lemma_trim_back(s, b);
        assert(trim_back(s) == s);
    } else {
        lemma_trim_front(b, Seq::empty());
        assert(s + b =~= b + Seq::empty());
        assert(trim_front(Seq::<char>::empty()) =~= Seq::empty());
        assert(s =~= Seq::empty());
    }
}

proof fn lemma_trim_front(a: Seq<char>, s: Seq<char>)
    requires
        blank(a),
    ensures
        trim_front(a + s) == trim_front(s),
    decreases a.len(),
{
    if a.len() == 0 {
        assert(a + s =~= s);
    } else {
        let rest = a.skip(1);
        assert((a + s).skip(1) =~= rest + s);
        assert(white_space(a[0]));
        assert forall|i: int| 0 <= i < rest.len() implies white_space(#[trigger] rest[i]) by {
            assert(rest[i] == a[i + 1]);
        }
        lemma_trim_front(rest, s);
    }
}

proof fn lemma_trim_back(s: Seq<char>, b: Seq<char>)
    requires
        blank(b),
    ensures
        trim_back(s + b) == trim_back(s),
    decreases b.len(),
{
    if b.len() == 0 {
        assert(s + b =~= s);
    } else {
        let rest = b.drop_last();
        assert((s + b).drop_last() =~= s + rest);
        assert(white_space(b[b.len() - 1]));
        assert forall|i: int| 0 <= i < rest.len() implies white_space(#[trigger] rest[i]) by {
            assert(rest[i] == b[i]);
        }
        lemma_trim_back(s, rest);
    }
}

} // verus!
