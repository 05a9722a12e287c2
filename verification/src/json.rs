//! A JSON value model and a verified compact serializer.
//!
//! Upstream payloads reach the library as values of [`Json`]; numbers carry
//! their textual forms, computed at the boundary, so that the decoding rules
//! stay pure. The serializer emits the compact form (no added whitespace,
//! strings escaped as the de-facto standard encoders do).

use vstd::prelude::*;

use crate::strings::push_char;

verus! {

/// A JSON value.
///
/// A number carries the texts the logic needs: `text` is its original source
/// token, `float_text` the decimal form of its floating-point value, and
/// `int_text` the decimal form of its integer value when it is one.
pub enum Json {
    Null,
    Bool(bool),
    Num { text: String, float_text: String, int_text: Option<String> },
    Str(String),
    Arr(Vec<Json>),
    Obj(Vec<(String, Json)>),
}

/// The lower-case hexadecimal digit for `d` (`0 <= d <= 15`).
pub open spec fn hex_lc(d: int) -> char {
    if d == 0 {
        '0'
    } else if d == 1 {
        '1'
    } else if d == 2 {
        '2'
    } else if d == 3 {
        '3'
    } else if d == 4 {
        '4'
    } else if d == 5 {
        '5'
    } else if d == 6 {
        '6'
    } else if d == 7 {
        '7'
    } else if d == 8 {
        '8'
    } else if d == 9 {
        '9'
    } else if d == 10 {
        'a'
    } else if d == 11 {
        'b'
    } else if d == 12 {
        'c'
    } else if d == 13 {
        'd'
    } else if d == 14 {
        'e'
    } else {
        'f'
    }
}

/// The escape of one character inside a JSON string: quote and backslash get
/// a backslash, the named control characters their short forms, the other
/// control characters a `\u00xx` form, and everything else stands as itself.
pub open spec fn esc_char(c: char) -> Seq<char> {
    if c == '"' {
        seq!['\\', '"']
    } else if c == '\\' {
        seq!['\\', '\\']
    } else if c == '\u{8}' {
        seq!['\\', 'b']
    } else if c == '\u{c}' {
        seq!['\\', 'f']
    } else if c == '\n' {
        seq!['\\', 'n']
    } else if c == '\r' {
        seq!['\\', 'r']
    } else if c == '\t' {
        seq!['\\', 't']
    } else if (c as u32) < 0x20 {
        seq!['\\', 'u', '0', '0', hex_lc((c as u32 / 16) as int), hex_lc((c as u32 % 16) as int)]
    } else {
        seq![c]
    }
}

/// The escaped body of a JSON string.
pub open spec fn esc(s: Seq<char>) -> Seq<char>
    decreases s.len(),
{
    if s.len() == 0 {
        Seq::empty()
    } else {
        esc_char(s[0]) + esc(s.drop_first())
    }
}

/// A JSON string token: the escaped body in quotes.
pub open spec fn jstr(s: Seq<char>) -> Seq<char> {
    seq!['"'] + esc(s) + seq!['"']
}

/// Escaping distributes over concatenation.
pub proof fn lemma_esc_append(a: Seq<char>, b: Seq<char>)
    ensures
        esc(a + b) == esc(a) + esc(b),
    decreases a.len(),
{
    if a.len() == 0 {
        assert(a + b =~= b);
        assert(esc(a) + esc(b) =~= esc(b));
    } else {
        lemma_esc_append(a.drop_first(), b);
        assert((a + b).drop_first() =~= a.drop_first() + b);
        assert((a + b)[0] == a[0]);
        assert(esc_char(a[0]) + (esc(a.drop_first()) + esc(b)) =~= (esc_char(a[0]) + esc(
            a.drop_first(),
        )) + esc(b));
    }
}

/// The escape of a single character appended.
pub proof fn lemma_esc_snoc(s: Seq<char>, i: int)
    requires
        0 <= i < s.len(),
    ensures
        esc(s.take(i + 1)) == esc(s.take(i)) + esc_char(s[i]),
{
    lemma_esc_append(s.take(i), seq![s[i]]);
    assert(s.take(i + 1) =~= s.take(i) + seq![s[i]]);
    let single = seq![s[i]];
    assert(single.len() == 1 && single[0] == s[i]);
    assert(esc(single) == esc_char(s[i]) + esc(single.drop_first()));
    assert(single.drop_first() =~= Seq::<char>::empty());
    assert(esc(Seq::<char>::empty()) == Seq::<char>::empty());
    assert(esc(single) =~= esc_char(s[i]));
}

fn hex_lc_char(d: u32) -> (r: char)
    requires
        d < 16,
    ensures
        r == hex_lc(d as int),
{
    match d {
        0 => '0',
        1 => '1',
        2 => '2',
        3 => '3',
        4 => '4',
        5 => '5',
        6 => '6',
        7 => '7',
        8 => '8',
        9 => '9',
        10 => 'a',
        11 => 'b',
        12 => 'c',
        13 => 'd',
        14 => 'e',
        _ => 'f',
    }
}

fn push_escaped_char(out: &mut String, c: char)
    ensures
        final(out)@ == old(out)@ + esc_char(c),
{
    if c == '"' {
        push_char(out, '\\');
        push_char(out, '"');
    } else if c == '\\' {
        push_char(out, '\\');
        push_char(out, '\\');
    } else if c == '\u{8}' {
        push_char(out, '\\');
        push_char(out, 'b');
    } else if c == '\u{c}' {
        push_char(out, '\\');
        push_char(out, 'f');
    } else if c == '\n' {
        push_char(out, '\\');
        push_char(out, 'n');
    } else if c == '\r' {
        push_char(out, '\\');
        push_char(out, 'r');
    } else if c == '\t' {
        push_char(out, '\\');
        push_char(out, 't');
    } else if (c as u32) < 0x20 {
        push_char(out, '\\');
        push_char(out, 'u');
        push_char(out, '0');
        push_char(out, '0');
        push_char(out, hex_lc_char((c as u32) / 16));
        push_char(out, hex_lc_char((c as u32) % 16));
    } else {
        push_char(out, c);
    }
    proof {
        assert(out@ =~= old(out)@ + esc_char(c));
    }
}

/// Appends the escaped body of `s`.
fn escape_json_into(out: &mut String, s: &str)
    ensures
        final(out)@ == old(out)@ + esc(s@),
{
    let n = s.unicode_len();
    let mut i: usize = 0;
    proof {
        assert(s@.take(0) =~= Seq::<char>::empty());
        assert(out@ =~= old(out)@ + esc(s@.take(0)));
    }
    while i < n
        invariant
            0 <= i <= n,
            n == s@.len(),
            out@ == old(out)@ + esc(s@.take(i as int)),
        decreases n - i,
    {
        let c = s.get_char(i);
        push_escaped_char(out, c);
        proof {
            lemma_esc_snoc(s@, i as int);
        }
        i = i + 1;
    }
    proof {
        assert(s@.take(n as int) =~= s@);
    }
}

/// Appends a JSON string token for `s`.
pub fn append_json_string(out: &mut String, s: &str)
    ensures
        final(out)@ == old(out)@ + jstr(s@),
{
    push_char(out, '"');
    escape_json_into(out, s);
    push_char(out, '"');
    proof {
        assert(out@ =~= old(out)@ + jstr(s@));
    }
}

/// The compact serialization of a JSON value.
pub open spec fn js_of(v: Json) -> Seq<char>
    decreases v,
{
    match v {
        Json::Null => "null"@,
        Json::Bool(b) => if b {
            "true"@
        } else {
            "false"@
        },
        Json::Num { text, .. } => text@,
        Json::Str(s) => jstr(s@),
        Json::Arr(xs) => "["@ + js_list(xs@) + "]"@,
        Json::Obj(ps) => "{"@ + js_members(ps@) + "}"@,
    }
}

/// Array elements joined by commas.
pub open spec fn js_list(xs: Seq<Json>) -> Seq<char>
    decreases xs,
{
    if xs.len() == 0 {
        Seq::empty()
    } else if xs.len() == 1 {
        js_of(xs[0])
    } else {
        js_list(xs.drop_last()) + ","@ + js_of(xs.last())
    }
}

/// Object members joined by commas.
pub open spec fn js_members(ps: Seq<(String, Json)>) -> Seq<char>
    decreases ps,
{
    if ps.len() == 0 {
        Seq::empty()
    } else if ps.len() == 1 {
        jstr(ps[0].0@) + ":"@ + js_of(ps[0].1)
    } else {
        js_members(ps.drop_last()) + ","@ + jstr(ps.last().0@) + ":"@ + js_of(ps.last().1)
    }
}

/// Appends the compact serialization of `v`.
pub fn write_json(out: &mut String, v: &Json)
    ensures
        final(out)@ == old(out)@ + js_of(*v),
    decreases *v,
{
    match v {
        Json::Null => {
            out.append("null");
        },
        Json::Bool(b) => {
            if *b {
                out.append("true");
            } else {
                out.append("false");
            }
        },
        Json::Num { text, .. } => {
            out.append(text.as_str());
        },
        Json::Str(s) => {
            append_json_string(out, s.as_str());
        },
        Json::Arr(xs) => {
            out.append("[");
            let mut i: usize = 0;
            proof {
                assert(out@ =~= old(out)@ + "["@ + js_list(xs@.take(0)));
            }
            while i < xs.len()
                invariant
                    0 <= i <= xs@.len(),
                    out@ == old(out)@ + "["@ + js_list(xs@.take(i as int)),
                    decreases_to!(*v => xs@),
                decreases xs@.len() - i,
            {
                if i > 0 {
                    out.append(",");
                }
                proof {
                    assert(decreases_to!(xs@ => xs@[i as int]));
                }
                write_json(out, &xs[i]);
                proof {
                    assert(xs@.take(i as int + 1).drop_last() =~= xs@.take(i as int));
                    assert(xs@.take(i as int + 1).last() == xs@[i as int]);
                    assert(out@ =~= old(out)@ + "["@ + js_list(xs@.take(i as int + 1)));
                }
                i = i + 1;
            }
            out.append("]");
            proof {
                assert(xs@.take(xs@.len() as int) =~= xs@);
                assert(out@ =~= old(out)@ + js_of(*v));
            }
        },
        Json::Obj(ps) => {
            out.append("{");
            let mut i: usize = 0;
            proof {
                assert(out@ =~= old(out)@ + "{"@ + js_members(ps@.take(0)));
            }
            while i < ps.len()
                invariant
                    0 <= i <= ps@.len(),
                    out@ == old(out)@ + "{"@ + js_members(ps@.take(i as int)),
                    decreases_to!(*v => ps@),
                decreases ps@.len() - i,
            {
                if i > 0 {
                    out.append(",");
                }
                append_json_string(out, ps[i].0.as_str());
                out.append(":");
                proof {
                    assert(decreases_to!(ps@ => ps@[i as int]));
                    assert(decreases_to!(ps@[i as int] => ps@[i as int].1));
                }
                write_json(out, &ps[i].1);
                proof {
                    assert(ps@.take(i as int + 1).drop_last() =~= ps@.take(i as int));
                    assert(ps@.take(i as int + 1).last() == ps@[i as int]);
                    assert(out@ =~= old(out)@ + "{"@ + js_members(ps@.take(i as int + 1)));
                }
                i = i + 1;
            }
            out.append("}");
            proof {
                assert(ps@.take(ps@.len() as int) =~= ps@);
                assert(out@ =~= old(out)@ + js_of(*v));
            }
        },
    }
}

// ---------------------------------------------------------------------------
// A small JSON parser, enough for the job codec
// ---------------------------------------------------------------------------

/// JSON insignificant whitespace.
pub open spec fn is_json_ws(c: char) -> bool {
    c == ' ' || c == '\t' || c == '\n' || c == '\r'
}

/// The input with leading whitespace dropped.
pub open spec fn sp_ws(s: Seq<char>) -> Seq<char>
    decreases s.len(),
{
    if s.len() > 0 && is_json_ws(s[0]) {
        sp_ws(s.drop_first())
    } else {
        s
    }
}

/// What a short escape decodes to.
pub open spec fn unescape_map(c: char) -> Option<char> {
    if c == '"' {
        Some('"')
    } else if c == '\\' {
        Some('\\')
    } else if c == '/' {
        Some('/')
    } else if c == 'b' {
        Some('\u{8}')
    } else if c == 'f' {
        Some('\u{c}')
    } else if c == 'n' {
        Some('\n')
    } else if c == 'r' {
        Some('\r')
    } else if c == 't' {
        Some('\t')
    } else {
        None
    }
}

/// The value of a hexadecimal digit, if it is one.
pub open spec fn hex_val_of(c: char) -> Option<int> {
    if '0' <= c && c <= '9' {
        Some(c as int - '0' as int)
    } else if 'a' <= c && c <= 'f' {
        Some(c as int - 'a' as int + 10)
    } else if 'A' <= c && c <= 'F' {
        Some(c as int - 'A' as int + 10)
    } else {
        None
    }
}

/// Parses the body of a JSON string after the opening quote: the decoded text
/// and the remainder after the closing quote. Unicode escapes are accepted up
/// to `ÿ`.
pub open spec fn p_str_body(s: Seq<char>) -> Option<(Seq<char>, Seq<char>)>
    decreases s.len(),
{
    if s.len() == 0 {
        None
    } else if s[0] == '"' {
        Some((Seq::empty(), s.drop_first()))
    } else if s[0] == '\\' {
        if s.len() < 2 {
            None
        } else if s[1] == 'u' {
            if s.len() < 6 {
                None
            } else {
                match (hex_val_of(s[2]), hex_val_of(s[3]), hex_val_of(s[4]), hex_val_of(s[5])) {
                    (Some(v2), Some(v3), Some(v4), Some(v5)) => {
                        let val = v2 * 4096 + v3 * 256 + v4 * 16 + v5;
                        if val < 0x100 {
                            match p_str_body(s.skip(6)) {
                                Some((t, r)) => Some((seq![(val as u8) as char] + t, r)),
                                None => None,
                            }
                        } else {
                            None
                        }
                    },
                    _ => None,
                }
            }
        } else {
            match unescape_map(s[1]) {
                None => None,
                Some(c) => match p_str_body(s.skip(2)) {
                    Some((t, r)) => Some((seq![c] + t, r)),
                    None => None,
                },
            }
        }
    } else {
        match p_str_body(s.drop_first()) {
            Some((t, r)) => Some((seq![s[0]] + t, r)),
            None => None,
        }
    }
}

/// Parses one expected character after whitespace.
pub open spec fn sp_exact(s: Seq<char>, c: char) -> Option<Seq<char>> {
    let t = sp_ws(s);
    if t.len() > 0 && t[0] == c {
        Some(t.drop_first())
    } else {
        None
    }
}

/// Parses a JSON string token after whitespace.
pub open spec fn sp_string(s: Seq<char>) -> Option<(Seq<char>, Seq<char>)> {
    let t = sp_ws(s);
    if t.len() > 0 && t[0] == '"' {
        p_str_body(t.drop_first())
    } else {
        None
    }
}

/// Parsing inverts escaping: the body parser applied to an escaped text, its
/// closing quote and a remainder yields exactly that text and remainder.
#[verifier::rlimit(100)]
pub proof fn lemma_p_str_roundtrip(x: Seq<char>, rest: Seq<char>)
    ensures
        p_str_body(esc(x) + seq!['"'] + rest) == Some((x, rest)),
    decreases x.len(),
{
    if x.len() == 0 {
        let s = esc(x) + seq!['"'] + rest;
        assert(s =~= seq!['"'] + rest);
        assert(s[0] == '"');
        assert(s.drop_first() =~= rest);
        assert(x =~= Seq::<char>::empty());
    } else {
        let c = x[0];
        let x1 = x.drop_first();
        lemma_p_str_roundtrip(x1, rest);
        let s1 = esc(x1) + seq!['"'] + rest;
        let s = esc(x) + seq!['"'] + rest;
        assert(esc(x) == esc_char(c) + esc(x1));
        assert(s =~= esc_char(c) + s1);
        if c == '"' || c == '\\' || c == '\u{8}' || c == '\u{c}' || c == '\n' || c == '\r' || c
            == '\t' {
            assert(s[0] == '\\');
            assert(s.skip(2) =~= s1);
            assert(seq![c] + x1 =~= x);
        } else if (c as u32) < 0x20 {
            let hi = (c as u32 / 16) as int;
            let lo = (c as u32 % 16) as int;
            assert(s[0] == '\\' && s[1] == 'u' && s[2] == '0' && s[3] == '0' && s[4] == hex_lc(hi)
                && s[5] == hex_lc(lo));
            assert(hex_val_of('0') == Some(0int));
            assert(0 <= hi < 2 && 0 <= lo < 16);
            assert(hex_val_of(hex_lc(hi)) == Some(hi)) by {
                assert(hi == 0 || hi == 1);
            }
            assert(hex_val_of(hex_lc(lo)) == Some(lo)) by {
                assert(lo == 0 || lo == 1 || lo == 2 || lo == 3 || lo == 4 || lo == 5 || lo == 6
                    || lo == 7 || lo == 8 || lo == 9 || lo == 10 || lo == 11 || lo == 12 || lo
                    == 13 || lo == 14 || lo == 15);
            }
            assert(hi * 16 + lo == c as u32);
            assert(s.skip(6) =~= s1);
            assert(((hi * 16 + lo) as u8) as char == c) by {
                vstd::utf8::char_u32_cast(c, c as u32);
                assert(((hi * 16 + lo) as u8) as u32 == c as u32);
            }
            assert(seq![c] + x1 =~= x);
        } else {
            assert(s[0] == c && c != '"' && c != '\\');
            assert(s.drop_first() =~= s1);
            assert(seq![c] + x1 =~= x);
        }
    }
}

/// A string token parses back to the text it encodes.
pub proof fn lemma_sp_string_roundtrip(x: Seq<char>, rest: Seq<char>)
    ensures
        sp_string(jstr(x) + rest) == Some((x, rest)),
{
    let s = jstr(x) + rest;
    assert(s[0] == '"');
    assert(!is_json_ws('"'));
    assert(sp_ws(s) == s);
    assert(s.drop_first() =~= esc(x) + seq!['"'] + rest);
    lemma_p_str_roundtrip(x, rest);
}

/// An expected character parses off the front when it is not whitespace.
pub proof fn lemma_sp_exact(c: char, rest: Seq<char>)
    requires
        !is_json_ws(c),
    ensures
        sp_exact(seq![c] + rest, c) == Some(rest),
{
    let s = seq![c] + rest;
    assert(s[0] == c);
    assert(sp_ws(s) == s);
    assert(s.drop_first() =~= rest);
}

/// Skips whitespace from position `i`, returning the first significant
/// position.
fn json_ws_at(s: &str, i: usize) -> (r: bool)
    requires
        i < s@.len(),
    ensures
        r == is_json_ws(s@[i as int]),
{
    let c = s.get_char(i);
    c == ' ' || c == '\t' || c == '\n' || c == '\r'
}

pub fn skip_json_ws(s: &str, i: usize) -> (r: usize)
    requires
        i <= s@.len(),
    ensures
        i <= r <= s@.len(),
        s@.skip(r as int) == sp_ws(s@.skip(i as int)),
{
    let n = s.unicode_len();
    let mut cur = i;
    while cur < n && json_ws_at(s, cur)
        invariant
            i <= cur <= n,
            n == s@.len(),
            sp_ws(s@.skip(cur as int)) == sp_ws(s@.skip(i as int)),
        decreases n - cur,
    {
        proof {
            assert(s@.skip(cur as int)[0] == s@[cur as int]);
            assert(s@.skip(cur as int).drop_first() =~= s@.skip(cur as int + 1));
        }
        cur = cur + 1;
    }
    proof {
        if cur < n {
            assert(s@.skip(cur as int)[0] == s@[cur as int]);
        } else {
            assert(s@.skip(cur as int).len() == 0);
        }
        assert(sp_ws(s@.skip(cur as int)) == s@.skip(cur as int));
    }
    cur
}

/// Parses one expected character after whitespace, from position `i`.
pub fn expect_json_char(s: &str, i: usize, c: char) -> (r: Option<usize>)
    requires
        i <= s@.len(),
    ensures
        match r {
            Some(j) => j <= s@.len() && sp_exact(s@.skip(i as int), c) == Some(
                s@.skip(j as int),
            ),
            None => sp_exact(s@.skip(i as int), c) is None,
        },
{
    let n = s.unicode_len();
    let t = skip_json_ws(s, i);
    if t < n && s.get_char(t) == c {
        proof {
            assert(s@.skip(t as int)[0] == s@[t as int]);
            assert(s@.skip(t as int).drop_first() =~= s@.skip(t as int + 1));
        }
        Some(t + 1)
    } else {
        proof {
            if t < n {
                assert(s@.skip(t as int)[0] == s@[t as int]);
            } else {
                assert(s@.skip(t as int).len() == 0);
            }
        }
        None
    }
}

fn hex_val_char(c: char) -> (r: Option<u32>)
    ensures
        match r {
            Some(v) => hex_val_of(c) == Some(v as int) && v < 16,
            None => hex_val_of(c) is None,
        },
{
    if '0' <= c && c <= '9' {
        Some(c as u32 - '0' as u32)
    } else if 'a' <= c && c <= 'f' {
        Some(c as u32 - 'a' as u32 + 10)
    } else if 'A' <= c && c <= 'F' {
        Some(c as u32 - 'A' as u32 + 10)
    } else {
        None
    }
}

/// Parses a JSON string token after whitespace, from position `i`: the
/// decoded text and the position after the closing quote.
pub fn parse_json_string(s: &str, i: usize) -> (r: Option<(String, usize)>)
    requires
        i <= s@.len(),
    ensures
        match r {
            Some(v) => v.1 <= s@.len() && sp_string(s@.skip(i as int)) == Some(
                (v.0@, s@.skip(v.1 as int)),
            ),
            None => sp_string(s@.skip(i as int)) is None,
        },
{
    let n = s.unicode_len();
    let t = skip_json_ws(s, i);
    if !(t < n && s.get_char(t) == '"') {
        proof {
            if t < n {
                assert(s@.skip(t as int)[0] == s@[t as int]);
            } else {
                assert(s@.skip(t as int).len() == 0);
            }
        }
        return None;
    }
    proof {
        assert(s@.skip(t as int)[0] == s@[t as int]);
        assert(s@.skip(t as int).drop_first() =~= s@.skip(t as int + 1));
    }
    parse_str_body(s, t + 1)
}

fn parse_str_body(s: &str, body0: usize) -> (r: Option<(String, usize)>)
    requires
        body0 <= s@.len(),
    ensures
        match r {
            Some(v) => v.1 <= s@.len() && p_str_body(s@.skip(body0 as int)) == Some(
                (v.0@, s@.skip(v.1 as int)),
            ),
            None => p_str_body(s@.skip(body0 as int)) is None,
        },
{
    let n = s.unicode_len();
    let mut acc = String::new();
    let mut cur = body0;
    while cur < n
        invariant
            body0 <= cur <= n,
            n == s@.len(),
            match p_str_body(s@.skip(cur as int)) {
                Some(p) => p_str_body(s@.skip(body0 as int)) == Some((acc@ + p.0, p.1)),
                None => p_str_body(s@.skip(body0 as int)) is None,
            },
        decreases n - cur,
    {
        let c = s.get_char(cur);
        proof {
            assert(s@.skip(cur as int)[0] == s@[cur as int]);
        }
        if c == '"' {
            proof {
                assert(s@.skip(cur as int).drop_first() =~= s@.skip(cur as int + 1));
                assert(acc@ + Seq::<char>::empty() =~= acc@);
            }
            return Some((acc, cur + 1));
        } else if c == '\\' {
            if cur + 1 >= n {
                proof {
                    assert(s@.skip(cur as int).len() < 2);
                }
                return None;
            }
            let c2 = s.get_char(cur + 1);
            proof {
                assert(s@.skip(cur as int)[1] == s@[cur as int + 1]);
            }
            if c2 == 'u' {
                if n - cur < 6 {
                    proof {
                        assert(s@.skip(cur as int).len() < 6);
                    }
                    return None;
                }
                proof {
                    assert(s@.skip(cur as int)[2] == s@[cur as int + 2]);
                    assert(s@.skip(cur as int)[3] == s@[cur as int + 3]);
                    assert(s@.skip(cur as int)[4] == s@[cur as int + 4]);
                    assert(s@.skip(cur as int)[5] == s@[cur as int + 5]);
                }
                let h2 = hex_val_char(s.get_char(cur + 2));
                let h3 = hex_val_char(s.get_char(cur + 3));
                let h4 = hex_val_char(s.get_char(cur + 4));
                let h5 = hex_val_char(s.get_char(cur + 5));
                match (h2, h3, h4, h5) {
                    (Some(v2), Some(v3), Some(v4), Some(v5)) => {
                        let val: u32 = v2 * 4096 + v3 * 256 + v4 * 16 + v5;
                        if val >= 0x100 {
                            return None;
                        }
                        push_char(&mut acc, (val as u8) as char);
                        proof {
                            assert(s@.skip(cur as int).skip(6) =~= s@.skip(cur as int + 6));
                            if p_str_body(s@.skip(cur as int + 6)) is Some {
                                let p = p_str_body(s@.skip(cur as int + 6)).unwrap();
                                assert(acc@ + p.0 =~= (acc@.drop_last()) + (seq![
                                    ((val as u8) as char),
                                ] + p.0));
                            }
                        }
                        cur = cur + 6;
                    },
                    _ => {
                        return None;
                    },
                }
            } else {
                let decoded: Option<char> = if c2 == '"' {
                    Some('"')
                } else if c2 == '\\' {
                    Some('\\')
                } else if c2 == '/' {
                    Some('/')
                } else if c2 == 'b' {
                    Some('\u{8}')
                } else if c2 == 'f' {
                    Some('\u{c}')
                } else if c2 == 'n' {
                    Some('\n')
                } else if c2 == 'r' {
                    Some('\r')
                } else if c2 == 't' {
                    Some('\t')
                } else {
                    None
                };
                match decoded {
                    None => {
                        return None;
                    },
                    Some(d) => {
                        push_char(&mut acc, d);
                        proof {
                            assert(s@.skip(cur as int).skip(2) =~= s@.skip(cur as int + 2));
                            if p_str_body(s@.skip(cur as int + 2)) is Some {
                                let p = p_str_body(s@.skip(cur as int + 2)).unwrap();
                                assert(acc@ + p.0 =~= (acc@.drop_last()) + (seq![d] + p.0));
                            }
                        }
                        cur = cur + 2;
                    },
                }
            }
        } else {
            push_char(&mut acc, c);
            proof {
                assert(s@.skip(cur as int).drop_first() =~= s@.skip(cur as int + 1));
                if p_str_body(s@.skip(cur as int + 1)) is Some {
                    let p = p_str_body(s@.skip(cur as int + 1)).unwrap();
                    assert(acc@ + p.0 =~= (acc@.drop_last()) + (seq![c] + p.0));
                }
            }
            cur = cur + 1;
        }
    }
    proof {
        assert(s@.skip(cur as int).len() == 0);
    }
    None
}

/// The compact serialization of a JSON value.
pub fn json_to_string(v: &Json) -> (r: String)
    ensures
        r@ == js_of(*v),
{
    let mut out = String::new();
    write_json(&mut out, v);
    proof {
        assert(out@ =~= js_of(*v));
    }
    out
}

} // verus!
