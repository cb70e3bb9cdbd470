//! Escaping of text for HTML and JSON.

use crate::hex::hex_val;
use crate::text::chars_of;
use vstd::prelude::*;

verus! {

// --- HTML ------------------------------------------------------------------

/// One character, escaped for HTML.
pub open spec fn html_char(c: char) -> Seq<char> {
    if c == '&' {
        seq!['&', 'a', 'm', 'p', ';']
    } else if c == '<' {
        seq!['&', 'l', 't', ';']
    } else if c == '>' {
        seq!['&', 'g', 't', ';']
    } else if c == '"' {
        seq!['&', 'q', 'u', 'o', 't', ';']
    } else if c == '\'' {
        seq!['&', '#', '3', '9', ';']
    } else {
        seq![c]
    }
}

/// A text, escaped for HTML.
pub open spec fn html_escaped(s: Seq<char>) -> Seq<char>
    decreases s.len(),
{
    if s.len() == 0 {
        Seq::empty()
    } else {
        html_escaped(s.drop_last()) + html_char(s.last())
    }
}

/// Escape a string for safe interpolation into HTML text or a quoted attribute.
pub fn html_escape(s: &str) -> (r: String)
    ensures
        r@ == html_escaped(s@),
{
    proof {
        reveal_strlit("&amp;");
        reveal_strlit("&lt;");
        reveal_strlit("&gt;");
        reveal_strlit("&quot;");
        reveal_strlit("&#39;");
        assert("&amp;"@ =~= html_char('&'));
        assert("&lt;"@ =~= html_char('<'));
        assert("&gt;"@ =~= html_char('>'));
        assert("&quot;"@ =~= html_char('"'));
        assert("&#39;"@ =~= html_char('\''));
    }
    let cs = chars_of(s);
    let mut out = String::new();
    let mut i: usize = 0;
    while i < cs.len()
        invariant
            i <= cs@.len(),
            cs@ == s@,
            "&amp;"@ == html_char('&'),
            "&lt;"@ == html_char('<'),
            "&gt;"@ == html_char('>'),
            "&quot;"@ == html_char('"'),
            "&#39;"@ == html_char('\''),
            out@ == html_escaped(s@.take(i as int)),
        decreases cs@.len() - i,
    {
        assert(s@.take(i + 1).drop_last() =~= s@.take(i as int));
        let c: char = cs[i];
        if c == '&' {
            out.append("&amp;");
        } else if c == '<' {
            out.append("&lt;");
        } else if c == '>' {
            out.append("&gt;");
        } else if c == '"' {
            out.append("&quot;");
        } else if c == '\'' {
            out.append("&#39;");
        } else {
            out.push(c);
            assert(out@ =~= html_escaped(s@.take(i as int)) + seq![c]);
        }
        i = i + 1;
    }
    assert(s@.take(i as int) =~= s@);
    out
}

/// Whether `t` begins with `p`.
pub open spec fn begins(t: Seq<char>, p: Seq<char>) -> bool {
    p.len() <= t.len() && t.take(p.len() as int) == p
}

/// The text that a browser shows for `t`, as far as the five escapes go.
pub open spec fn html_shown(t: Seq<char>) -> Seq<char>
    decreases t.len(),
{
    if t.len() == 0 {
        Seq::empty()
    } else if begins(t, html_char('&')) {
        seq!['&'] + html_shown(t.skip(5))
    } else if begins(t, html_char('<')) {
        seq!['<'] + html_shown(t.skip(4))
    } else if begins(t, html_char('>')) {
        seq!['>'] + html_shown(t.skip(4))
    } else if begins(t, html_char('"')) {
        seq!['"'] + html_shown(t.skip(6))
    } else if begins(t, html_char('\'')) {
        seq!['\''] + html_shown(t.skip(5))
    } else {
        seq![t[0]] + html_shown(t.skip(1))
    }
}

proof fn lemma_html_front(s: Seq<char>)
    requires
        s.len() > 0,
    ensures
        html_escaped(s) == html_char(s[0]) + html_escaped(s.skip(1)),
    decreases s.len(),
{
    if s.len() == 1 {
        assert(s.drop_last() =~= Seq::empty());
        assert(s.skip(1) =~= Seq::empty());
        assert(html_escaped(s) =~= html_char(s[0]) + html_escaped(s.skip(1)));
    } else {
        lemma_html_front(s.drop_last());
        assert(s.drop_last().skip(1) =~= s.skip(1).drop_last());
        assert(html_escaped(s) =~= html_char(s[0]) + html_escaped(s.skip(1)));
    }
}

/// Escaped text is shown as it was.
pub proof fn html_is_shown_as_it_was(s: Seq<char>)
    ensures
        html_shown(html_escaped(s)) == s,
    decreases s.len(),
{
    if s.len() > 0 {
        lemma_html_front(s);
        html_is_shown_as_it_was(s.skip(1));
        let c = s[0];
        let back = html_escaped(s.skip(1));
        let t = html_escaped(s);
        let n = html_char(c).len() as int;
        assert(t.take(n) =~= html_char(c));
        assert(t.skip(n) =~= back);
        assert(s =~= seq![c] + s.skip(1));
        assert(t[0] == html_char(c)[0]);
        if n > 1 {
            assert(t[1] == html_char(c)[1]);
        }
        assert(begins(t, html_char('&')) ==> t.take(5)[1] == t[1] && t.take(5)[0] == t[0]);
        assert(begins(t, html_char('<')) ==> t.take(4)[1] == t[1] && t.take(4)[0] == t[0]);
        assert(begins(t, html_char('>')) ==> t.take(4)[1] == t[1] && t.take(4)[0] == t[0]);
        assert(begins(t, html_char('"')) ==> t.take(6)[1] == t[1] && t.take(6)[0] == t[0]);
        assert(begins(t, html_char('\'')) ==> t.take(5)[1] == t[1] && t.take(5)[0] == t[0]);
        assert(html_shown(t) =~= seq![c] + html_shown(back));
    }
}

/// Escaped text opens no tag and ends no quoted attribute.
pub proof fn html_is_inert(s: Seq<char>)
    ensures
        forall|i: int|
            0 <= i < html_escaped(s).len() ==> #[trigger] html_escaped(s)[i] != '<'
                && html_escaped(s)[i] != '>' && html_escaped(s)[i] != '"' && html_escaped(s)[i]
                != '\'',
    decreases s.len(),
{
    if s.len() > 0 {
        html_is_inert(s.drop_last());
        let front = html_escaped(s.drop_last());
        let t = html_escaped(s);
        assert forall|i: int| 0 <= i < t.len() implies #[trigger] t[i] != '<' && t[i] != '>'
            && t[i] != '"' && t[i] != '\'' by {
            if i < front.len() {
                assert(t[i] == front[i]);
            } else {
                assert(t[i] == html_char(s.last())[i - front.len()]);
            }
        }
    }
}

// --- JSON ------------------------------------------------------------------

/// A hexadecimal digit in lower case.
pub open spec fn lower_digit(v: nat) -> char {
    if v < 10 {
        (0x30 + v) as char
    } else {
        (0x61 + v - 10) as char
    }
}

/// One character, escaped for a JSON string.
pub open spec fn json_char(c: char) -> Seq<char> {
    if c == '"' {
        seq!['\\', '"']
    } else if c == '\\' {
        seq!['\\', '\\']
    } else if c == '\n' {
        seq!['\\', 'n']
    } else if c == '\r' {
        seq!['\\', 'r']
    } else if c == '\t' {
        seq!['\\', 't']
    } else if (c as u32) < 0x20 {
        seq![
            '\\',
            'u',
            '0',
            '0',
            lower_digit((c as u32 / 16) as nat),
            lower_digit((c as u32 % 16) as nat),
        ]
    } else {
        seq![c]
    }
}

/// A text, escaped for a JSON string.
pub open spec fn json_escaped(s: Seq<char>) -> Seq<char>
    decreases s.len(),
{
    if s.len() == 0 {
        Seq::empty()
    } else {
        json_escaped(s.drop_last()) + json_char(s.last())
    }
}

fn lower_digit_of(v: u8) -> (r: char)
    requires
        v < 16,
    ensures
        r == lower_digit(v as nat),
{
    if v < 10 {
        ('0' as u8 + v) as char
    } else {
        ('a' as u8 + (v - 10)) as char
    }
}

/// Escape a string for safe interpolation into a JSON string literal.
pub fn json_escape(s: &str) -> (r: String)
    ensures
        r@ == json_escaped(s@),
{
    let cs = chars_of(s);
    let mut out = String::new();
    let mut i: usize = 0;
    while i < cs.len()
        invariant
            i <= cs@.len(),
            cs@ == s@,
            out@ == json_escaped(s@.take(i as int)),
        decreases cs@.len() - i,
    {
        assert(s@.take(i + 1).drop_last() =~= s@.take(i as int));
        let ghost before = out@;
        let c: char = cs[i];
        if c == '"' {
            out.push('\\');
            out.push('"');
        } else if c == '\\' {
            out.push('\\');
            out.push('\\');
        } else if c == '\n' {
            out.push('\\');
            out.push('n');
        } else if c == '\r' {
            out.push('\\');
            out.push('r');
        } else if c == '\t' {
            out.push('\\');
            out.push('t');
        } else if (c as u32) < 0x20 {
            out.push('\\');
            out.push('u');
            out.push('0');
            out.push('0');
            out.push(lower_digit_of((c as u32 / 16) as u8));
            out.push(lower_digit_of((c as u32 % 16) as u8));
        } else {
            out.push(c);
        }
        assert(out@ =~= before + json_char(c));
        i = i + 1;
    }
    assert(s@.take(i as int) =~= s@);
    out
}

/// The character that four hexadecimal digits denote.
pub open spec fn unicode_char(a: char, b: char, c: char, d: char) -> Option<char> {
    if (a as u32) < 0x80 && (b as u32) < 0x80 && (c as u32) < 0x80 && (d as u32) < 0x80 {
        match (hex_val(a as u8), hex_val(b as u8), hex_val(c as u8), hex_val(d as u8)) {
            (Some(x), Some(y), Some(z), Some(w)) => Some(
                (x * 0x1000 + y * 0x100 + z * 0x10 + w) as char,
            ),
            _ => None,
        }
    } else {
        None
    }
}

/// `c` in front of what was read.
pub open spec fn json_onto(c: char, read: Option<(Seq<char>, Seq<char>)>) -> Option<
    (Seq<char>, Seq<char>),
> {
    match read {
        Some((text, rest)) => Some((seq![c] + text, rest)),
        None => None,
    }
}

/// Reads a JSON string behind its opening quote: the text, and what stands behind the
/// closing quote. Of the escapes it knows those that [`json_escaped`] writes.
pub open spec fn json_read(t: Seq<char>) -> Option<(Seq<char>, Seq<char>)>
    decreases t.len(),
{
    if t.len() == 0 {
        None
    } else if t[0] == '"' {
        Some((Seq::empty(), t.skip(1)))
    } else if t[0] == '\\' {
        if t.len() < 2 {
            None
        } else if t[1] == '"' || t[1] == '\\' {
            json_onto(t[1], json_read(t.skip(2)))
        } else if t[1] == 'n' {
            json_onto('\n', json_read(t.skip(2)))
        } else if t[1] == 'r' {
            json_onto('\r', json_read(t.skip(2)))
        } else if t[1] == 't' {
            json_onto('\t', json_read(t.skip(2)))
        } else if t[1] == 'u' && t.len() >= 6 {
            match unicode_char(t[2], t[3], t[4], t[5]) {
                Some(c) => json_onto(c, json_read(t.skip(6))),
                None => None,
            }
        } else {
            None
        }
    } else if (t[0] as u32) < 0x20 {
        None
    } else {
        json_onto(t[0], json_read(t.skip(1)))
    }
}

proof fn lemma_json_front(s: Seq<char>)
    requires
        s.len() > 0,
    ensures
        json_escaped(s) == json_char(s[0]) + json_escaped(s.skip(1)),
    decreases s.len(),
{
    if s.len() == 1 {
        assert(s.drop_last() =~= Seq::empty());
        assert(s.skip(1) =~= Seq::empty());
        assert(json_escaped(s) =~= json_char(s[0]) + json_escaped(s.skip(1)));
    } else {
        lemma_json_front(s.drop_last());
        assert(s.drop_last().skip(1) =~= s.skip(1).drop_last());
        assert(json_escaped(s) =~= json_char(s[0]) + json_escaped(s.skip(1)));
    }
}

proof fn lemma_unicode_char(c: char)
    requires
        (c as u32) < 0x20,
    ensures
        unicode_char(
            '0',
            '0',
            lower_digit((c as u32 / 16) as nat),
            lower_digit((c as u32 % 16) as nat),
        ) == Some(c),
{
    let high = (c as u32 / 16) as nat;
    let low = (c as u32 % 16) as nat;
    assert(hex_val(lower_digit(high) as u8) == Some(high as u8));
    assert(hex_val(lower_digit(low) as u8) == Some(low as u8));
}

proof fn lemma_json_char(c: char, back: Seq<char>)
    ensures
        json_read(json_char(c) + back) == json_onto(c, json_read(back)),
{
    let t = json_char(c) + back;
    assert(t.skip(json_char(c).len() as int) =~= back);
    if (c as u32) < 0x20 {
        lemma_unicode_char(c);
    }
}

/// Escaped text between quotes reads back, and the string ends at the closing quote.
pub proof fn json_reads_back(s: Seq<char>, rest: Seq<char>)
    ensures
        json_read(json_escaped(s) + seq!['"'] + rest) == Some((s, rest)),
    decreases s.len(),
{
    let t = json_escaped(s) + seq!['"'] + rest;
    if s.len() == 0 {
        assert(t.skip(1) =~= rest);
        assert(s =~= Seq::empty());
    } else {
        lemma_json_front(s);
        json_reads_back(s.skip(1), rest);
        let back = json_escaped(s.skip(1)) + seq!['"'] + rest;
        lemma_json_char(s[0], back);
        assert(t =~= json_char(s[0]) + back);
        assert(s =~= seq![s[0]] + s.skip(1));
    }
}

/// Only the five characters that mean something in HTML are escaped, and text is escaped
/// character by character.
pub proof fn html_leaves_the_rest(c: char, s: Seq<char>)
    ensures
        c != '&' && c != '<' && c != '>' && c != '"' && c != '\'' ==> html_escaped(s.push(c))
            == html_escaped(s).push(c),
        html_escaped(s.push(c)).len() > html_escaped(s).len(),
        html_escaped(s.push(c)).take(html_escaped(s).len() as int) == html_escaped(s),
        html_escaped(Seq::empty()).len() == 0,
{
    assert(s.push(c).drop_last() =~= s);
    let front = html_escaped(s);
    assert(front + seq![c] =~= front.push(c));
    assert((front + html_char(c)).take(front.len() as int) =~= front);
}

/// Only quotes, backslashes and control characters are escaped in JSON, and text is escaped
/// character by character.
pub proof fn json_leaves_the_rest(c: char, s: Seq<char>)
    ensures
        c != '"' && c != '\\' && c as u32 >= 0x20 ==> json_escaped(s.push(c)) == json_escaped(
            s,
        ).push(c),
        json_escaped(s.push(c)).take(json_escaped(s).len() as int) == json_escaped(s),
        json_escaped(Seq::empty()).len() == 0,
{
    assert(s.push(c).drop_last() =~= s);
    let front = json_escaped(s);
    assert(front + seq![c] =~= front.push(c));
    assert((front + json_char(c)).take(front.len() as int) =~= front);
}

} // verus!
