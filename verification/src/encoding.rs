//! The two encodings of a directory-entry name, computed independently
//! from the raw name: percent-encoding for the link target and HTML-entity
//! escaping for the visible label.  Each comes with a decoding spec and a
//! proof that decoding recovers the raw name exactly.

use vstd::prelude::*;

verus! {

/// Relies on `String::push` from std: appends the given character to the
/// end of the string.
pub assume_specification[ String::push ](s: &mut String, ch: char)
    ensures
        final(s)@ == old(s)@.push(ch),
;

/// Characters percent-escaped inside a link target: ASCII controls, and
/// the printable characters unsafe in a URL path segment.  `%` itself is
/// escaped so that decoding is unambiguous.
pub open spec fn url_must_escape(c: char) -> bool {
    ||| (c as u32) < 0x20
    ||| (c as u32) == 0x7f
    ||| c == ' '
    ||| c == '"'
    ||| c == '%'
    ||| c == '<'
    ||| c == '>'
    ||| c == '#'
    ||| c == '?'
}

/// The uppercase hexadecimal digit for `n`.
pub open spec fn hex_digit(n: int) -> char {
    if n == 0 {
        '0'
    } else if n == 1 {
        '1'
    } else if n == 2 {
        '2'
    } else if n == 3 {
        '3'
    } else if n == 4 {
        '4'
    } else if n == 5 {
        '5'
    } else if n == 6 {
        '6'
    } else if n == 7 {
        '7'
    } else if n == 8 {
        '8'
    } else if n == 9 {
        '9'
    } else if n == 10 {
        'A'
    } else if n == 11 {
        'B'
    } else if n == 12 {
        'C'
    } else if n == 13 {
        'D'
    } else if n == 14 {
        'E'
    } else {
        'F'
    }
}

/// The value of a hexadecimal digit, upper or lower case; `-1` otherwise.
pub open spec fn hex_value(c: char) -> int {
    if c == '0' {
        0
    } else if c == '1' {
        1
    } else if c == '2' {
        2
    } else if c == '3' {
        3
    } else if c == '4' {
        4
    } else if c == '5' {
        5
    } else if c == '6' {
        6
    } else if c == '7' {
        7
    } else if c == '8' {
        8
    } else if c == '9' {
        9
    } else if c == 'A' || c == 'a' {
        10
    } else if c == 'B' || c == 'b' {
        11
    } else if c == 'C' || c == 'c' {
        12
    } else if c == 'D' || c == 'd' {
        13
    } else if c == 'E' || c == 'e' {
        14
    } else if c == 'F' || c == 'f' {
        15
    } else {
        -1
    }
}

pub open spec fn is_hex_digit(c: char) -> bool {
    hex_value(c) >= 0
}

/// What one character contributes to the percent-encoded form.
pub open spec fn url_escape_char(c: char) -> Seq<char> {
    if url_must_escape(c) {
        seq!['%', hex_digit((c as u32) as int / 16), hex_digit((c as u32) as int % 16)]
    } else {
        seq![c]
    }
}

/// Percent-encoding of a whole name, character by character.
pub open spec fn url_encode(s: Seq<char>) -> Seq<char>
    decreases s.len(),
{
    if s.len() == 0 {
        Seq::empty()
    } else {
        url_escape_char(s[0]) + url_encode(s.drop_first())
    }
}

/// Percent-decoding: each `%` followed by two hexadecimal digits becomes
/// the character they denote; everything else passes through.
pub open spec fn url_decode(s: Seq<char>) -> Seq<char>
    decreases s.len(),
{
    if s.len() == 0 {
        Seq::empty()
    } else if s[0] == '%' && s.len() >= 3 && is_hex_digit(s[1]) && is_hex_digit(s[2]) {
        seq![(((hex_value(s[1]) * 16 + hex_value(s[2])) as u32) as char)] + url_decode(s.skip(3))
    } else {
        seq![s[0]] + url_decode(s.skip(1))
    }
}

/// What one character contributes to the HTML-escaped label.
pub open spec fn amp_entity() -> Seq<char> {
    seq!['&', 'a', 'm', 'p', ';']
}

pub open spec fn lt_entity() -> Seq<char> {
    seq!['&', 'l', 't', ';']
}

pub open spec fn gt_entity() -> Seq<char> {
    seq!['&', 'g', 't', ';']
}

pub open spec fn quot_entity() -> Seq<char> {
    seq!['&', 'q', 'u', 'o', 't', ';']
}

pub open spec fn apos_entity() -> Seq<char> {
    seq!['&', '#', 'x', '2', '7', ';']
}

pub open spec fn html_escape_char(c: char) -> Seq<char> {
    if c == '&' {
        amp_entity()
    } else if c == '<' {
        lt_entity()
    } else if c == '>' {
        gt_entity()
    } else if c == '"' {
        quot_entity()
    } else if c == '\'' {
        apos_entity()
    } else {
        seq![c]
    }
}

/// HTML-entity escaping of a whole name, character by character.
pub open spec fn html_escape(s: Seq<char>) -> Seq<char>
    decreases s.len(),
{
    if s.len() == 0 {
        Seq::empty()
    } else {
        html_escape_char(s[0]) + html_escape(s.drop_first())
    }
}

/// HTML unescaping: each of the five entities becomes its character;
/// everything else passes through.
pub open spec fn html_unescape(s: Seq<char>) -> Seq<char>
    decreases s.len(),
{
    if s.len() == 0 {
        Seq::empty()
    } else if s.len() >= 5 && s.take(5) == amp_entity() {
        seq!['&'] + html_unescape(s.skip(5))
    } else if s.len() >= 4 && s.take(4) == lt_entity() {
        seq!['<'] + html_unescape(s.skip(4))
    } else if s.len() >= 4 && s.take(4) == gt_entity() {
        seq!['>'] + html_unescape(s.skip(4))
    } else if s.len() >= 6 && s.take(6) == quot_entity() {
        seq!['"'] + html_unescape(s.skip(6))
    } else if s.len() >= 6 && s.take(6) == apos_entity() {
        seq!['\''] + html_unescape(s.skip(6))
    } else {
        seq![s[0]] + html_unescape(s.skip(1))
    }
}

/// Percent-decoding the encoded form of any name recovers the name
/// exactly.
pub proof fn lemma_url_round_trip(s: Seq<char>)
    ensures
        url_decode(url_encode(s)) == s,
    decreases s.len(),
{
    if s.len() == 0 {
        assert(url_decode(url_encode(s)) =~= s);
    } else {
        let c = s[0];
        let rest = s.drop_first();
        lemma_url_round_trip(rest);
        let e = url_encode(s);
        if url_must_escape(c) {
            let u = (c as u32) as int;
            let h = hex_digit(u / 16);
            let l = hex_digit(u % 16);
            assert(e =~= seq!['%', h, l] + url_encode(rest));
            assert(0 <= u < 0x80);
            assert(is_hex_digit(h) && hex_value(h) == u / 16);
            assert(is_hex_digit(l) && hex_value(l) == u % 16);
            assert(hex_value(e[1]) * 16 + hex_value(e[2]) == u);
            assert(((hex_value(e[1]) * 16 + hex_value(e[2])) as u32) == c as u32);
            vstd::utf8::char_u32_cast(c, c as u32);
            assert((((hex_value(e[1]) * 16 + hex_value(e[2])) as u32) as char) == c);
            assert(e.skip(3) =~= url_encode(rest));
            assert(url_decode(e) =~= seq![c] + url_decode(url_encode(rest)));
            assert(seq![c] + rest =~= s);
        } else {
            assert(e =~= seq![c] + url_encode(rest));
            assert(e[0] == c && c != '%');
            assert(e.skip(1) =~= url_encode(rest));
            assert(url_decode(e) =~= seq![c] + url_decode(url_encode(rest)));
            assert(seq![c] + rest =~= s);
        }
    }
}

/// HTML-unescaping the escaped form of any name recovers the name
/// exactly.
pub proof fn lemma_html_round_trip(s: Seq<char>)
    ensures
        html_unescape(html_escape(s)) == s,
    decreases s.len(),
{
    if s.len() == 0 {
        assert(html_unescape(html_escape(s)) =~= s);
    } else {
        let c = s[0];
        let rest = s.drop_first();
        lemma_html_round_trip(rest);
        let e = html_escape(s);
        assert(e =~= html_escape_char(c) + html_escape(rest));
        if c == '&' {
            assert(e.take(5) =~= amp_entity());
            assert(e.skip(5) =~= html_escape(rest));
            assert(html_unescape(e) =~= seq![c] + html_unescape(html_escape(rest)));
        } else if c == '<' {
            if e.len() >= 5 && e.take(5) == amp_entity() {
                assert(e.take(5)[1] == 't');
                assert(false);
            }
            assert(e.take(4) =~= lt_entity());
            assert(e.skip(4) =~= html_escape(rest));
            assert(html_unescape(e) =~= seq![c] + html_unescape(html_escape(rest)));
        } else if c == '>' {
            if e.len() >= 5 && e.take(5) == amp_entity() {
                assert(e.take(5)[1] == 'g');
                assert(false);
            }
            if e.len() >= 4 && e.take(4) == lt_entity() {
                assert(e.take(4)[1] == 'g');
                assert(false);
            }
            assert(e.take(4) =~= gt_entity());
            assert(e.skip(4) =~= html_escape(rest));
            assert(html_unescape(e) =~= seq![c] + html_unescape(html_escape(rest)));
        } else if c == '"' {
            if e.len() >= 5 && e.take(5) == amp_entity() {
                assert(e.take(5)[1] == 'q');
                assert(false);
            }
            if e.len() >= 4 && e.take(4) == lt_entity() {
                assert(e.take(4)[1] == 'q');
                assert(false);
            }
            if e.len() >= 4 && e.take(4) == gt_entity() {
                assert(e.take(4)[1] == 'q');
                assert(false);
            }
            assert(e.take(6) =~= quot_entity());
            assert(e.skip(6) =~= html_escape(rest));
            assert(html_unescape(e) =~= seq![c] + html_unescape(html_escape(rest)));
        } else if c == '\'' {
            if e.len() >= 5 && e.take(5) == amp_entity() {
                assert(e.take(5)[1] == '#');
                assert(false);
            }
            if e.len() >= 4 && e.take(4) == lt_entity() {
                assert(e.take(4)[1] == '#');
                assert(false);
            }
            if e.len() >= 4 && e.take(4) == gt_entity() {
                assert(e.take(4)[1] == '#');
                assert(false);
            }
            if e.len() >= 6 && e.take(6) == quot_entity() {
                assert(e.take(6)[1] == '#');
                assert(false);
            }
            assert(e.take(6) =~= apos_entity());
            assert(e.skip(6) =~= html_escape(rest));
            assert(html_unescape(e) =~= seq![c] + html_unescape(html_escape(rest)));
        } else {
            assert(e[0] == c);
            if e.len() >= 5 && e.take(5) == amp_entity() {
                assert(e.take(5)[0] == c);
                assert(false);
            }
            if e.len() >= 4 && e.take(4) == lt_entity() {
                assert(e.take(4)[0] == c);
                assert(false);
            }
            if e.len() >= 4 && e.take(4) == gt_entity() {
                assert(e.take(4)[0] == c);
                assert(false);
            }
            if e.len() >= 6 && e.take(6) == quot_entity() {
                assert(e.take(6)[0] == c);
                assert(false);
            }
            if e.len() >= 6 && e.take(6) == apos_entity() {
                assert(e.take(6)[0] == c);
                assert(false);
            }
            assert(e.skip(1) =~= html_escape(rest));
            assert(html_unescape(e) =~= seq![c] + html_unescape(html_escape(rest)));
        }
        assert(seq![c] + rest =~= s);
    }
}

/// Appending one character extends the encoding by that character's
/// contribution.
proof fn lemma_url_encode_snoc(t: Seq<char>, c: char)
    ensures
        url_encode(t.push(c)) == url_encode(t) + url_escape_char(c),
    decreases t.len(),
{
    if t.len() == 0 {
        assert(t.push(c).drop_first() =~= Seq::<char>::empty());
        assert(t.push(c)[0] == c);
        assert(url_encode(t.push(c)) == url_escape_char(c) + url_encode(t.push(c).drop_first()));
        assert(url_encode(t.push(c).drop_first()) == Seq::<char>::empty());
        assert(url_encode(t) == Seq::<char>::empty());
        assert(url_encode(t.push(c)) =~= url_encode(t) + url_escape_char(c));
    } else {
        lemma_url_encode_snoc(t.drop_first(), c);
        assert(t.push(c).drop_first() =~= t.drop_first().push(c));
        assert(t.push(c)[0] == t[0]);
        assert(url_encode(t.push(c)) == url_escape_char(t[0]) + url_encode(t.drop_first().push(c)));
        assert(url_encode(t.push(c)) == url_escape_char(t[0]) + (url_encode(t.drop_first())
            + url_escape_char(c)));
        assert(url_encode(t) == url_escape_char(t[0]) + url_encode(t.drop_first()));
        assert(url_escape_char(t[0]) + (url_encode(t.drop_first()) + url_escape_char(c)) =~= (
        url_escape_char(t[0]) + url_encode(t.drop_first())) + url_escape_char(c));
    }
}

proof fn lemma_html_escape_snoc(t: Seq<char>, c: char)
    ensures
        html_escape(t.push(c)) == html_escape(t) + html_escape_char(c),
    decreases t.len(),
{
    if t.len() == 0 {
        assert(t.push(c).drop_first() =~= Seq::<char>::empty());
        assert(t.push(c)[0] == c);
        assert(html_escape(t.push(c)) == html_escape_char(c) + html_escape(
            t.push(c).drop_first(),
        ));
        assert(html_escape(t.push(c).drop_first()) == Seq::<char>::empty());
        assert(html_escape(t) == Seq::<char>::empty());
        assert(html_escape(t.push(c)) =~= html_escape(t) + html_escape_char(c));
    } else {
        lemma_html_escape_snoc(t.drop_first(), c);
        assert(t.push(c).drop_first() =~= t.drop_first().push(c));
        assert(t.push(c)[0] == t[0]);
        assert(html_escape(t.push(c)) == html_escape_char(t[0]) + html_escape(
            t.drop_first().push(c),
        ));
        assert(html_escape(t.push(c)) == html_escape_char(t[0]) + (html_escape(t.drop_first())
            + html_escape_char(c)));
        assert(html_escape(t) == html_escape_char(t[0]) + html_escape(t.drop_first()));
        assert(html_escape_char(t[0]) + (html_escape(t.drop_first()) + html_escape_char(c)) =~= (
        html_escape_char(t[0]) + html_escape(t.drop_first())) + html_escape_char(c));
    }
}

fn push_hex_digit(out: &mut String, value: u8)
    requires
        value < 16,
    ensures
        final(out)@ == old(out)@.push(hex_digit(value as int)),
{
    let c = match value {
        0 => '0',
        1 => '1',
        2 => '2',
        3 => '3',
        4 => '4',
        5 => '5',
        6 => '6',
        7 => '7',
        8 => '8',
        9 => '9',
        10 => 'A',
        11 => 'B',
        12 => 'C',
        13 => 'D',
        14 => 'E',
        _ => 'F',
    };
    out.push(c);
}

/// Percent-encode a name for use inside a link target.
pub fn url_encode_str(s: &str) -> (r: String)
    ensures
        r@ == url_encode(s@),
{
    let n: usize = s.unicode_len();
    let mut r = String::new();
    let mut i: usize = 0;
    while i < n
        invariant
            n == s@.len(),
            0 <= i <= n,
            r@ == url_encode(s@.take(i as int)),
        decreases n - i,
    {
        let c = s.get_char(i);
        let u = c as u32;
        if u < 0x20 || u == 0x7f || c == ' ' || c == '"' || c == '%' || c == '<' || c == '>'
            || c == '#' || c == '?' {
            r.push('%');
            push_hex_digit(&mut r, (u / 16) as u8);
            push_hex_digit(&mut r, (u % 16) as u8);
            proof {
                assert(r@ =~= url_encode(s@.take(i as int)) + url_escape_char(c));
            }
        } else {
            r.push(c);
            proof {
                assert(r@ =~= url_encode(s@.take(i as int)) + url_escape_char(c));
            }
        }
        proof {
            lemma_url_encode_snoc(s@.take(i as int), c);
            assert(s@.take(i as int).push(c) =~= s@.take(i as int + 1));
        }
        i = i + 1;
    }
    proof {
        assert(s@.take(n as int) =~= s@);
    }
    r
}

/// HTML-escape a name for use as a visible label.
pub fn html_escape_str(s: &str) -> (r: String)
    ensures
        r@ == html_escape(s@),
{
    let n: usize = s.unicode_len();
    let mut r = String::new();
    let mut i: usize = 0;
    while i < n
        invariant
            n == s@.len(),
            0 <= i <= n,
            r@ == html_escape(s@.take(i as int)),
        decreases n - i,
    {
        let c = s.get_char(i);
        if c == '&' {
            r.append("&amp;");
        } else if c == '<' {
            r.append("&lt;");
        } else if c == '>' {
            r.append("&gt;");
        } else if c == '"' {
            r.append("&quot;");
        } else if c == '\'' {
            r.append("&#x27;");
        } else {
            r.push(c);
        }
        proof {
            reveal_strlit("&amp;");
            reveal_strlit("&lt;");
            reveal_strlit("&gt;");
            reveal_strlit("&quot;");
            reveal_strlit("&#x27;");
            assert("&amp;"@ =~= amp_entity());
            assert("&lt;"@ =~= lt_entity());
            assert("&gt;"@ =~= gt_entity());
            assert("&quot;"@ =~= quot_entity());
            assert("&#x27;"@ =~= apos_entity());
            assert(r@ =~= html_escape(s@.take(i as int)) + html_escape_char(c));
            lemma_html_escape_snoc(s@.take(i as int), c);
            assert(s@.take(i as int).push(c) =~= s@.take(i as int + 1));
        }
        i = i + 1;
    }
    proof {
        assert(s@.take(n as int) =~= s@);
    }
    r
}

} // verus!
