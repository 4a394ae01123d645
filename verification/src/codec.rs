//! A JSON codec for [`Post`] payloads.
//!
//! The encoder writes one canonical object shape, escaping quotes,
//! backslashes and control characters. The decoder reads the object's six
//! fields in any order, tolerates JSON whitespace between tokens, and is
//! proved to invert the encoder on every post.

use vstd::prelude::*;

use crate::posts::{Post, PostView};
use crate::strings::{
    all_dec_digits, chars_to_string, dec_str_of, dec_val, digit_val, is_dec_digit,
    lemma_dec_str_of_val, lemma_dec_val_prefix_le, u64_to_string,
};

verus! {

// ---------------------------------------------------------------------------
// The canonical object shape, as literal character chunks.
// ---------------------------------------------------------------------------

pub open spec fn lit_obj_id() -> Seq<char> {
    seq!['{', '"', 'i', 'd', '"', ':']
}

pub open spec fn lit_title() -> Seq<char> {
    seq![',', '"', 't', 'i', 't', 'l', 'e', '"', ':']
}

pub open spec fn lit_content() -> Seq<char> {
    seq![',', '"', 'c', 'o', 'n', 't', 'e', 'n', 't', '"', ':']
}

pub open spec fn lit_date() -> Seq<char> {
    seq![',', '"', 'd', 'a', 't', 'e', '"', ':']
}

pub open spec fn lit_author() -> Seq<char> {
    seq![',', '"', 'a', 'u', 't', 'h', 'o', 'r', '_', 'i', 'd', '"', ':']
}

pub open spec fn lit_fragment() -> Seq<char> {
    seq![',', '"', 'u', 'r', 'l', '_', 'f', 'r', 'a', 'g', 'm', 'e', 'n', 't', '"', ':']
}

pub open spec fn lit_close() -> Seq<char> {
    seq!['}']
}

pub open spec fn lit_null() -> Seq<char> {
    seq!['n', 'u', 'l', 'l']
}

/// The member keys of the object shape.
pub open spec fn key_id() -> Seq<char> {
    seq!['i', 'd']
}

pub open spec fn key_title() -> Seq<char> {
    seq!['t', 'i', 't', 'l', 'e']
}

pub open spec fn key_content() -> Seq<char> {
    seq!['c', 'o', 'n', 't', 'e', 'n', 't']
}

pub open spec fn key_date() -> Seq<char> {
    seq!['d', 'a', 't', 'e']
}

pub open spec fn key_author() -> Seq<char> {
    seq!['a', 'u', 't', 'h', 'o', 'r', '_', 'i', 'd']
}

pub open spec fn key_fragment() -> Seq<char> {
    seq!['u', 'r', 'l', '_', 'f', 'r', 'a', 'g', 'm', 'e', 'n', 't']
}

// ---------------------------------------------------------------------------
// Encoding.
// ---------------------------------------------------------------------------

/// True when `c` reads as a hexadecimal digit.
pub open spec fn is_hex_digit(c: char) -> bool {
    ('0' <= c && c <= '9') || ('a' <= c && c <= 'f') || ('A' <= c && c <= 'F')
}

/// The value of a hexadecimal digit character.
pub open spec fn hex_val(c: char) -> nat {
    if '0' <= c && c <= '9' {
        (c as int - '0' as int) as nat
    } else if 'a' <= c && c <= 'f' {
        (c as int - 'a' as int + 10) as nat
    } else {
        (c as int - 'A' as int + 10) as nat
    }
}

/// The lowercase hexadecimal digit character for a value below sixteen.
pub open spec fn hex_digit_char(d: nat) -> char {
    if d < 10 {
        (('0' as int) + d) as char
    } else {
        (('a' as int) + (d - 10)) as char
    }
}

/// A hex digit below sixteen renders as a digit with that value.
proof fn lemma_hex_digit_char_val(d: nat)
    requires
        d < 16,
    ensures
        is_hex_digit(hex_digit_char(d)),
        hex_val(hex_digit_char(d)) == d,
{
    if d < 10 {
        assert((hex_digit_char(d)) as int == ('0' as int) + d);
    } else {
        assert((hex_digit_char(d)) as int == ('a' as int) + (d - 10));
    }
}

/// How one character is written inside a JSON string literal: a backslash
/// before a quote or backslash, a `\u00..` escape for a control character,
/// the character itself otherwise.
pub open spec fn esc_char(c: char) -> Seq<char> {
    if c == '"' || c == '\\' {
        seq!['\\', c]
    } else if (c as nat) < 0x20 {
        seq!['\\', 'u', '0', '0', hex_digit_char((c as nat) / 16), hex_digit_char((c as nat) % 16)]
    } else {
        seq![c]
    }
}

/// JSON string escaping, character by character.
pub open spec fn esc(s: Seq<char>) -> Seq<char>
    decreases s.len(),
{
    if s.len() == 0 {
        Seq::empty()
    } else {
        esc_char(s[0]) + esc(s.skip(1))
    }
}

/// A JSON string literal: the escaped value between quotes.
pub open spec fn enc_str(s: Seq<char>) -> Seq<char> {
    seq!['"'] + (esc(s) + seq!['"'])
}

/// A JSON number: the canonical decimal rendering.
pub open spec fn enc_u64(n: u64) -> Seq<char> {
    dec_str_of(n as nat)
}

/// An optional id: `null` or its decimal value.
pub open spec fn enc_id(id: Option<u32>) -> Seq<char> {
    match id {
        None => lit_null(),
        Some(n) => dec_str_of(n as nat),
    }
}

/// The canonical JSON encoding of a post.
pub open spec fn encode_post(p: PostView) -> Seq<char> {
    lit_obj_id() + (enc_id(p.id) + (lit_title() + (enc_str(p.title) + (lit_content() + (enc_str(
        p.content,
    ) + (lit_date() + (enc_u64(p.date) + (lit_author() + (enc_u64(p.author_id as u64) + (
    lit_fragment() + (enc_str(p.url_fragment) + lit_close())))))))))))
}

// ---------------------------------------------------------------------------
// Decoding.
// ---------------------------------------------------------------------------

/// Consume an exact literal prefix.
pub open spec fn expect(s: Seq<char>, lit: Seq<char>) -> Option<Seq<char>> {
    if lit.is_prefix_of(s) {
        Some(s.skip(lit.len() as int))
    } else {
        None
    }
}

/// Consume a string body up to its closing quote, undoing escapes: a
/// backslash before a quote or backslash, or a `\u00..` escape. `s` is what
/// follows the opening quote; the result pairs the decoded value with what
/// follows the closing quote.
pub open spec fn dec_str_body(s: Seq<char>) -> Option<(Seq<char>, Seq<char>)>
    decreases s.len(),
{
    if s.len() == 0 {
        None
    } else if s[0] == '"' {
        Some((Seq::empty(), s.skip(1)))
    } else if s[0] == '\\' {
        if s.len() >= 2 && (s[1] == '"' || s[1] == '\\') {
            match dec_str_body(s.skip(2)) {
                Some((v, r)) => Some((seq![s[1]] + v, r)),
                None => None,
            }
        } else if s.len() >= 6 && s[1] == 'u' && s[2] == '0' && s[3] == '0' && is_hex_digit(s[4])
            && is_hex_digit(s[5]) {
            match dec_str_body(s.skip(6)) {
                Some((v, r)) => Some((seq![((hex_val(s[4]) * 16 + hex_val(s[5])) as char)] + v, r)),
                None => None,
            }
        } else {
            None
        }
    } else {
        match dec_str_body(s.skip(1)) {
            Some((v, r)) => Some((seq![s[0]] + v, r)),
            None => None,
        }
    }
}

/// Consume a JSON string literal.
pub open spec fn dec_string(s: Seq<char>) -> Option<(Seq<char>, Seq<char>)> {
    if s.len() > 0 && s[0] == '"' {
        dec_str_body(s.skip(1))
    } else {
        None
    }
}

/// The length of the leading run of decimal digits.
pub open spec fn num_len(s: Seq<char>) -> nat
    decreases s.len(),
{
    if s.len() > 0 && is_dec_digit(s[0]) {
        1 + num_len(s.skip(1))
    } else {
        0
    }
}

/// Consume a nonempty run of digits as an unbounded number.
pub open spec fn dec_num(s: Seq<char>) -> Option<(nat, Seq<char>)> {
    if num_len(s) == 0 {
        None
    } else {
        Some((dec_val(s.take(num_len(s) as int)), s.skip(num_len(s) as int)))
    }
}

/// Consume a number that must fit in a `u64`.
pub open spec fn dec_num_u64(s: Seq<char>) -> Option<(u64, Seq<char>)> {
    match dec_num(s) {
        Some((n, r)) => if n <= u64::MAX {
            Some((n as u64, r))
        } else {
            None
        },
        None => None,
    }
}

/// JSON insignificant whitespace.
pub open spec fn is_json_ws(c: char) -> bool {
    c == ' ' || c == '\t' || c == '\n' || c == '\r'
}

/// The length of the leading whitespace run.
pub open spec fn ws_len(s: Seq<char>) -> nat
    decreases s.len(),
{
    if s.len() > 0 && is_json_ws(s[0]) {
        1 + ws_len(s.skip(1))
    } else {
        0
    }
}

/// A whitespace run never runs past the end.
proof fn lemma_ws_len_le(s: Seq<char>)
    ensures
        ws_len(s) <= s.len(),
    decreases s.len(),
{
    if s.len() > 0 && is_json_ws(s[0]) {
        lemma_ws_len_le(s.skip(1));
    }
}

/// What follows the leading whitespace.
pub open spec fn skip_ws(s: Seq<char>) -> Seq<char> {
    s.skip(ws_len(s) as int)
}

/// Text that does not begin with whitespace has none to skip.
proof fn lemma_skip_ws_nonws(s: Seq<char>)
    requires
        s.len() == 0 || !is_json_ws(s[0]),
    ensures
        skip_ws(s) == s,
{
    assert(ws_len(s) == 0);
    assert(s.skip(0) =~= s);
}

/// Skipping whitespace steps over one whitespace character at a time.
proof fn lemma_skip_ws_step(s: Seq<char>)
    requires
        s.len() > 0,
        is_json_ws(s[0]),
    ensures
        skip_ws(s) == skip_ws(s.skip(1)),
{
    lemma_ws_len_le(s.skip(1));
    assert(ws_len(s) == 1 + ws_len(s.skip(1)));
    assert(s.skip(ws_len(s) as int) =~= s.skip(1).skip(ws_len(s.skip(1)) as int));
}

/// One member value of the object shape: a string, an unsigned number that
/// fits a `u64`, or `null`.
pub enum JsonScalar {
    Text(Seq<char>),
    Num(u64),
    Null,
}

/// Consume one scalar: a string literal, `null`, or a number.
pub open spec fn dec_scalar(s: Seq<char>) -> Option<(JsonScalar, Seq<char>)> {
    if s.len() > 0 && s[0] == '"' {
        match dec_str_body(s.skip(1)) {
            Some((v, r)) => Some((JsonScalar::Text(v), r)),
            None => None,
        }
    } else if lit_null().is_prefix_of(s) {
        Some((JsonScalar::Null, s.skip(4)))
    } else {
        match dec_num_u64(s) {
            Some((n, r)) => Some((JsonScalar::Num(n), r)),
            None => None,
        }
    }
}

/// First-wins lookup of `k` among decoded members.
pub open spec fn lookup_member(m: Seq<(Seq<char>, JsonScalar)>, k: Seq<char>) -> Option<JsonScalar>
    decreases m.len(),
{
    if m.len() == 0 {
        None
    } else if m[0].0 == k {
        Some(m[0].1)
    } else {
        lookup_member(m.skip(1), k)
    }
}

/// Consume the members of an object, after its opening brace and any
/// whitespace, when at least one member follows: a key, a colon and a
/// scalar, separated by commas, up to and including the closing brace.
/// A successful step always consumes at least the key and a separator, so
/// the length bound before the recursive call never rejects a real parse;
/// it keeps the recursion visibly finite.
pub open spec fn dec_members(s: Seq<char>) -> Option<(Seq<(Seq<char>, JsonScalar)>, Seq<char>)>
    decreases s.len(),
{
    match dec_string(s) {
        None => None,
        Some((key, s1)) => {
            let s2 = skip_ws(s1);
            if s2.len() == 0 || s2[0] != ':' {
                None
            } else {
                let s3 = skip_ws(s2.skip(1));
                match dec_scalar(s3) {
                    None => None,
                    Some((value, s4)) => {
                        let s5 = skip_ws(s4);
                        if s5.len() > 0 && s5[0] == ',' {
                            let s6 = skip_ws(s5.skip(1));
                            if s6.len() < s.len() {
                                match dec_members(s6) {
                                    None => None,
                                    Some((rest, s7)) => Some((seq![(key, value)] + rest, s7)),
                                }
                            } else {
                                None
                            }
                        } else if s5.len() > 0 && s5[0] == '}' {
                            Some((seq![(key, value)], s5.skip(1)))
                        } else {
                            None
                        }
                    },
                }
            }
        },
    }
}

/// The post a member list describes: each field present under its key with
/// a value of the right kind — `id` may be `null` — and the numbers within
/// range; otherwise no post.
pub open spec fn post_of_members(m: Seq<(Seq<char>, JsonScalar)>) -> Option<PostView> {
    match (
        lookup_member(m, key_id()),
        lookup_member(m, key_title()),
        lookup_member(m, key_content()),
        lookup_member(m, key_date()),
        lookup_member(m, key_author()),
        lookup_member(m, key_fragment()),
    ) {
        (
            Some(id_v),
            Some(JsonScalar::Text(title)),
            Some(JsonScalar::Text(content)),
            Some(JsonScalar::Num(date)),
            Some(JsonScalar::Num(author)),
            Some(JsonScalar::Text(url_fragment)),
        ) => {
            let id = match id_v {
                JsonScalar::Null => Some(Option::<u32>::None),
                JsonScalar::Num(n) => if n <= u32::MAX {
                    Some(Some(n as u32))
                } else {
                    None
                },
                JsonScalar::Text(_) => None,
            };
            match id {
                Some(id) => if author <= u32::MAX {
                    Some(
                        PostView {
                            id,
                            title,
                            content,
                            date,
                            author_id: author as u32,
                            url_fragment,
                        },
                    )
                } else {
                    None
                },
                None => None,
            }
        },
        _ => None,
    }
}

/// Decode a post: an object holding the six fields, in any order, with JSON
/// whitespace tolerated anywhere between tokens; nothing but whitespace may
/// follow the closing brace. An empty object lacks every required field.
pub open spec fn decode_post(s: Seq<char>) -> Option<PostView> {
    let s0 = skip_ws(s);
    if s0.len() > 0 && s0[0] == '{' {
        let s1 = skip_ws(s0.skip(1));
        if s1.len() > 0 && s1[0] == '}' {
            None
        } else {
            match dec_members(s1) {
                None => None,
                Some((members, rest)) => if skip_ws(rest).len() == 0 {
                    post_of_members(members)
                } else {
                    None
                },
            }
        }
    } else {
        None
    }
}

// ---------------------------------------------------------------------------
// The round trip: decoding inverts encoding.
// ---------------------------------------------------------------------------

/// Decoding a string body inverts escaping: the escaped value, a closing
/// quote, then anything at all.
proof fn lemma_dec_str_body_inverts(v: Seq<char>, rest: Seq<char>)
    ensures
        dec_str_body(esc(v) + (seq!['"'] + rest)) == Some((v, rest)),
    decreases v.len(),
{
    let s = esc(v) + (seq!['"'] + rest);
    if v.len() == 0 {
        assert(esc(v) =~= Seq::<char>::empty());
        assert(s =~= seq!['"'] + rest);
        assert(s[0] == '"');
        assert(s.skip(1) =~= rest);
    } else {
        lemma_dec_str_body_inverts(v.skip(1), rest);
        let c = v[0];
        if c == '"' || c == '\\' {
            assert(esc(v) =~= seq!['\\', c] + esc(v.skip(1)));
            assert(s[0] == '\\');
            assert(s[1] == c);
            assert(s.skip(2) =~= esc(v.skip(1)) + (seq!['"'] + rest));
            assert(dec_str_body(s.skip(2)) == Some((v.skip(1), rest)));
            assert(seq![s[1]] + v.skip(1) =~= v);
        } else if (c as nat) < 0x20 {
            let hi = hex_digit_char((c as nat) / 16);
            let lo = hex_digit_char((c as nat) % 16);
            lemma_hex_digit_char_val((c as nat) / 16);
            lemma_hex_digit_char_val((c as nat) % 16);
            assert(esc(v) =~= seq!['\\', 'u', '0', '0', hi, lo] + esc(v.skip(1)));
            assert(s[0] == '\\' && s[1] == 'u' && s[2] == '0' && s[3] == '0');
            assert(s[4] == hi && s[5] == lo);
            assert(s.len() >= 6);
            assert(s.skip(6) =~= esc(v.skip(1)) + (seq!['"'] + rest));
            assert(dec_str_body(s.skip(6)) == Some((v.skip(1), rest)));
            assert((c as nat) / 16 * 16 + (c as nat) % 16 == c as nat) by (nonlinear_arith);
            assert(hex_val(s[4]) * 16 + hex_val(s[5]) == c as nat);
            vstd::utf8::char_u32_cast(c, c as u32);
            assert(((hex_val(s[4]) * 16 + hex_val(s[5])) as char) == c);
            assert(seq![c] + v.skip(1) =~= v);
        } else {
            assert(esc(v) =~= seq![c] + esc(v.skip(1)));
            assert(s[0] == c);
            assert(s[0] != '"' && s[0] != '\\');
            assert(s.skip(1) =~= esc(v.skip(1)) + (seq!['"'] + rest));
            assert(dec_str_body(s.skip(1)) == Some((v.skip(1), rest)));
            assert(seq![s[0]] + v.skip(1) =~= v);
        }
    }
}

/// Decoding a string literal inverts encoding one.
proof fn lemma_dec_string_inverts(v: Seq<char>, rest: Seq<char>)
    ensures
        dec_string(enc_str(v) + rest) == Some((v, rest)),
{
    let s = enc_str(v) + rest;
    assert(s[0] == '"');
    assert(s.skip(1) =~= esc(v) + (seq!['"'] + rest));
    lemma_dec_str_body_inverts(v, rest);
}

/// The digit run of all-digit text followed by a non-digit boundary is
/// exactly that text.
proof fn lemma_num_len_boundary(d: Seq<char>, rest: Seq<char>)
    requires
        all_dec_digits(d),
        rest.len() == 0 || !is_dec_digit(rest[0]),
    ensures
        num_len(d + rest) == d.len(),
    decreases d.len(),
{
    let s = d + rest;
    if d.len() == 0 {
        assert(s =~= rest);
    } else {
        assert(s[0] == d[0]);
        assert(is_dec_digit(s[0]));
        assert(s.skip(1) =~= d.skip(1) + rest);
        assert(all_dec_digits(d.skip(1)));
        lemma_num_len_boundary(d.skip(1), rest);
    }
}

/// Decoding a number inverts rendering one, up to a non-digit boundary.
proof fn lemma_dec_num_inverts(n: nat, rest: Seq<char>)
    requires
        rest.len() == 0 || !is_dec_digit(rest[0]),
    ensures
        dec_num(dec_str_of(n) + rest) == Some((n, rest)),
{
    let d = dec_str_of(n);
    lemma_dec_str_of_val(n);
    lemma_num_len_boundary(d, rest);
    let s = d + rest;
    assert(num_len(s) == d.len());
    assert(s.take(d.len() as int) =~= d);
    assert(s.skip(d.len() as int) =~= rest);
}

/// A character that is written as itself inside a string literal.
pub open spec fn is_plain_char(c: char) -> bool {
    c != '"' && c != '\\' && (c as nat) >= 0x20
}

/// Escaping leaves text of plain characters unchanged.
proof fn lemma_esc_plain(s: Seq<char>)
    requires
        forall|i: int| 0 <= i < s.len() ==> is_plain_char(#[trigger] s[i]),
    ensures
        esc(s) == s,
    decreases s.len(),
{
    if s.len() == 0 {
        assert(esc(s) =~= s);
    } else {
        assert(is_plain_char(s[0]));
        assert(esc_char(s[0]) =~= seq![s[0]]);
        assert(forall|i: int| 0 <= i < s.skip(1).len() ==> is_plain_char(#[trigger] s.skip(1)[i]));
        lemma_esc_plain(s.skip(1));
        assert(esc(s) =~= s);
    }
}

/// A scalar read off an encoded string literal.
proof fn lemma_dec_scalar_text(v: Seq<char>, rest: Seq<char>)
    ensures
        dec_scalar(enc_str(v) + rest) == Some((JsonScalar::Text(v), rest)),
{
    let s = enc_str(v) + rest;
    assert(s[0] == '"');
    assert(s.skip(1) =~= esc(v) + (seq!['"'] + rest));
    lemma_dec_str_body_inverts(v, rest);
}

/// A scalar read off an encoded number, up to a non-digit boundary.
proof fn lemma_dec_scalar_num(n: u64, rest: Seq<char>)
    requires
        rest.len() > 0,
        !is_dec_digit(rest[0]),
    ensures
        dec_scalar(dec_str_of(n as nat) + rest) == Some((JsonScalar::Num(n), rest)),
{
    let d = dec_str_of(n as nat);
    lemma_dec_str_of_val(n as nat);
    let s = d + rest;
    assert(s[0] == d[0]);
    assert(is_dec_digit(s[0]));
    assert(s[0] != '"');
    assert(!lit_null().is_prefix_of(s)) by {
        if lit_null().is_prefix_of(s) {
            assert(s.subrange(0, 4)[0] == s[0]);
            assert(lit_null()[0] == s[0]);
        }
    }
    lemma_dec_num_inverts(n as nat, rest);
}

/// A scalar read off the `null` literal.
proof fn lemma_dec_scalar_null(rest: Seq<char>)
    ensures
        dec_scalar(lit_null() + rest) == Some((JsonScalar::Null, rest)),
{
    let s = lit_null() + rest;
    assert(s[0] == 'n');
    assert(s[0] != '"');
    assert(s.subrange(0, 4) =~= lit_null());
    assert(lit_null().is_prefix_of(s));
    assert(s.skip(4) =~= rest);
}

/// A successfully decoded scalar never begins with whitespace.
proof fn lemma_dec_scalar_head(s: Seq<char>)
    requires
        dec_scalar(s) is Some,
    ensures
        s.len() > 0,
        !is_json_ws(s[0]),
{
    if s.len() > 0 && s[0] == '"' {
    } else if lit_null().is_prefix_of(s) {
        assert(s.subrange(0, 4)[0] == s[0]);
        assert(lit_null()[0] == 'n');
    } else {
        assert(dec_num_u64(s) is Some);
        assert(num_len(s) > 0);
        assert(is_dec_digit(s[0]));
    }
}

/// One member followed by a comma: the member is read, then the rest.
proof fn lemma_dec_members_cons(key: Seq<char>, sv: JsonScalar, venc: Seq<char>, tail: Seq<char>)
    requires
        dec_scalar(venc + (seq![','] + tail)) == Some((sv, seq![','] + tail)),
        tail.len() > 0,
        !is_json_ws(tail[0]),
    ensures
        dec_members(enc_str(key) + (seq![':'] + (venc + (seq![','] + tail)))) == (
        match dec_members(tail) {
            Some(p) => Some((seq![(key, sv)] + p.0, p.1)),
            None => None::<(Seq<(Seq<char>, JsonScalar)>, Seq<char>)>,
        }),
{
    let s = enc_str(key) + (seq![':'] + (venc + (seq![','] + tail)));
    let r1 = seq![':'] + (venc + (seq![','] + tail));
    lemma_dec_string_inverts(key, r1);
    assert(dec_string(s) == Some((key, r1)));
    assert(r1[0] == ':');
    lemma_skip_ws_nonws(r1);
    let r2 = venc + (seq![','] + tail);
    assert(r1.skip(1) =~= r2);
    lemma_dec_scalar_head(r2);
    lemma_skip_ws_nonws(r2);
    let r4 = seq![','] + tail;
    assert(r4[0] == ',');
    lemma_skip_ws_nonws(r4);
    assert(r4.skip(1) =~= tail);
    lemma_skip_ws_nonws(tail);
    assert(tail.len() < s.len());
    match dec_members(tail) {
        Some(p) => {
            assert(dec_members(s) == Some((seq![(key, sv)] + p.0, p.1)));
        },
        None => {
            assert(dec_members(s) is None);
        },
    }
}

/// The last member, closed by the brace: the member is read and nothing
/// remains.
proof fn lemma_dec_members_last(key: Seq<char>, sv: JsonScalar, venc: Seq<char>)
    requires
        dec_scalar(venc + seq!['}']) == Some((sv, seq!['}'])),
    ensures
        dec_members(enc_str(key) + (seq![':'] + (venc + seq!['}']))) == Some(
            (seq![(key, sv)], Seq::<char>::empty()),
        ),
{
    let s = enc_str(key) + (seq![':'] + (venc + seq!['}']));
    let r1 = seq![':'] + (venc + seq!['}']);
    lemma_dec_string_inverts(key, r1);
    assert(dec_string(s) == Some((key, r1)));
    assert(r1[0] == ':');
    lemma_skip_ws_nonws(r1);
    let r2 = venc + seq!['}'];
    assert(r1.skip(1) =~= r2);
    lemma_dec_scalar_head(r2);
    lemma_skip_ws_nonws(r2);
    let r4 = seq!['}'];
    assert(r4[0] == '}');
    lemma_skip_ws_nonws(r4);
    assert(r4.skip(1) =~= Seq::<char>::empty());
    assert(dec_members(s) == Some((seq![(key, sv)], Seq::<char>::empty())));
}

/// Each literal chunk of the canonical encoding is a brace or comma, the
/// quoted key, and the colon.
proof fn lemma_key_chunks()
    ensures
        lit_obj_id() == seq!['{'] + (enc_str(key_id()) + seq![':']),
        lit_title() == seq![','] + (enc_str(key_title()) + seq![':']),
        lit_content() == seq![','] + (enc_str(key_content()) + seq![':']),
        lit_date() == seq![','] + (enc_str(key_date()) + seq![':']),
        lit_author() == seq![','] + (enc_str(key_author()) + seq![':']),
        lit_fragment() == seq![','] + (enc_str(key_fragment()) + seq![':']),
{
    assert(forall|i: int| 0 <= i < key_id().len() ==> is_plain_char(#[trigger] key_id()[i]));
    assert(forall|i: int| 0 <= i < key_title().len() ==> is_plain_char(#[trigger] key_title()[i]));
    assert(forall|i: int|
        0 <= i < key_content().len() ==> is_plain_char(#[trigger] key_content()[i]));
    assert(forall|i: int| 0 <= i < key_date().len() ==> is_plain_char(#[trigger] key_date()[i]));
    assert(forall|i: int|
        0 <= i < key_author().len() ==> is_plain_char(#[trigger] key_author()[i]));
    assert(forall|i: int|
        0 <= i < key_fragment().len() ==> is_plain_char(#[trigger] key_fragment()[i]));
    lemma_esc_plain(key_id());
    lemma_esc_plain(key_title());
    lemma_esc_plain(key_content());
    lemma_esc_plain(key_date());
    lemma_esc_plain(key_author());
    lemma_esc_plain(key_fragment());
    assert(lit_obj_id() =~= seq!['{'] + (enc_str(key_id()) + seq![':']));
    assert(lit_title() =~= seq![','] + (enc_str(key_title()) + seq![':']));
    assert(lit_content() =~= seq![','] + (enc_str(key_content()) + seq![':']));
    assert(lit_date() =~= seq![','] + (enc_str(key_date()) + seq![':']));
    assert(lit_author() =~= seq![','] + (enc_str(key_author()) + seq![':']));
    assert(lit_fragment() =~= seq![','] + (enc_str(key_fragment()) + seq![':']));
}

/// Decoding inverts encoding: reading back a post's canonical JSON yields
/// that post, for every post.
#[verifier::rlimit(100)]
pub proof fn lemma_post_round_trip(p: PostView)
    ensures
        decode_post(encode_post(p)) == Some(p),
{
    lemma_key_chunks();
    let v1 = enc_id(p.id);
    let v2 = enc_str(p.title);
    let v3 = enc_str(p.content);
    let v4 = enc_u64(p.date);
    let v5 = enc_u64(p.author_id as u64);
    let v6 = enc_str(p.url_fragment);
    let b6 = enc_str(key_fragment()) + (seq![':'] + (v6 + seq!['}']));
    let b5 = enc_str(key_author()) + (seq![':'] + (v5 + (seq![','] + b6)));
    let b4 = enc_str(key_date()) + (seq![':'] + (v4 + (seq![','] + b5)));
    let b3 = enc_str(key_content()) + (seq![':'] + (v3 + (seq![','] + b4)));
    let b2 = enc_str(key_title()) + (seq![':'] + (v2 + (seq![','] + b3)));
    let b1 = enc_str(key_id()) + (seq![':'] + (v1 + (seq![','] + b2)));

    // The canonical text is the opening brace followed by the six members.
    let t6 = v6 + lit_close();
    assert(lit_fragment() + t6 =~= seq![','] + b6);
    let t5 = v5 + (lit_fragment() + t6);
    assert(lit_author() + t5 =~= seq![','] + b5);
    let t4 = v4 + (lit_author() + t5);
    assert(lit_date() + t4 =~= seq![','] + b4);
    let t3 = v3 + (lit_date() + t4);
    assert(lit_content() + t3 =~= seq![','] + b3);
    let t2 = v2 + (lit_content() + t3);
    assert(lit_title() + t2 =~= seq![','] + b2);
    let t1 = v1 + (lit_title() + t2);
    assert(lit_obj_id() + t1 =~= seq!['{'] + b1);
    assert(encode_post(p) == lit_obj_id() + t1);
    let s = encode_post(p);

    // Each member reads back, innermost first.
    lemma_dec_scalar_text(p.url_fragment, seq!['}']);
    lemma_dec_members_last(key_fragment(), JsonScalar::Text(p.url_fragment), v6);
    let e6 = (key_fragment(), JsonScalar::Text(p.url_fragment));
    let m6 = seq![e6];
    assert(dec_members(b6) == Some((m6, Seq::<char>::empty())));

    assert(b6[0] == '"' && !is_json_ws(b6[0]));
    lemma_dec_scalar_num(p.author_id as u64, seq![','] + b6);
    assert(dec_str_of((p.author_id as u64) as nat) == v5);
    lemma_dec_members_cons(key_author(), JsonScalar::Num(p.author_id as u64), v5, b6);
    let e5 = (key_author(), JsonScalar::Num(p.author_id as u64));
    let m5 = seq![e5] + m6;
    assert(dec_members(b5) == Some((m5, Seq::<char>::empty())));

    assert(b5[0] == '"' && !is_json_ws(b5[0]));
    lemma_dec_scalar_num(p.date, seq![','] + b5);
    assert(dec_str_of(p.date as nat) == v4);
    lemma_dec_members_cons(key_date(), JsonScalar::Num(p.date), v4, b5);
    let e4 = (key_date(), JsonScalar::Num(p.date));
    let m4 = seq![e4] + m5;
    assert(dec_members(b4) == Some((m4, Seq::<char>::empty())));

    assert(b4[0] == '"' && !is_json_ws(b4[0]));
    lemma_dec_scalar_text(p.content, seq![','] + b4);
    lemma_dec_members_cons(key_content(), JsonScalar::Text(p.content), v3, b4);
    let e3 = (key_content(), JsonScalar::Text(p.content));
    let m3 = seq![e3] + m4;
    assert(dec_members(b3) == Some((m3, Seq::<char>::empty())));

    assert(b3[0] == '"' && !is_json_ws(b3[0]));
    lemma_dec_scalar_text(p.title, seq![','] + b3);
    lemma_dec_members_cons(key_title(), JsonScalar::Text(p.title), v2, b3);
    let e2 = (key_title(), JsonScalar::Text(p.title));
    let m2 = seq![e2] + m3;
    assert(dec_members(b2) == Some((m2, Seq::<char>::empty())));

    assert(b2[0] == '"' && !is_json_ws(b2[0]));
    let sv1 = match p.id {
        Some(n) => JsonScalar::Num(n as u64),
        None => JsonScalar::Null,
    };
    match p.id {
        Some(n) => {
            lemma_dec_scalar_num(n as u64, seq![','] + b2);
            assert(dec_str_of((n as u64) as nat) == dec_str_of(n as nat));
            assert(v1 == dec_str_of(n as nat));
        },
        None => {
            lemma_dec_scalar_null(seq![','] + b2);
            assert(v1 == lit_null());
        },
    }
    assert(dec_scalar(v1 + (seq![','] + b2)) == Some((sv1, seq![','] + b2)));
    lemma_dec_members_cons(key_id(), sv1, v1, b2);
    let e1 = (key_id(), sv1);
    let m1 = seq![e1] + m2;
    assert(dec_members(b1) == Some((m1, Seq::<char>::empty())));

    // Walk the whole decode.
    assert(s[0] == '{' && !is_json_ws(s[0]));
    lemma_skip_ws_nonws(s);
    assert(s.skip(1) =~= b1);
    assert(b1[0] == '"' && !is_json_ws(b1[0]) && b1[0] != '}');
    lemma_skip_ws_nonws(b1);
    lemma_skip_ws_nonws(Seq::<char>::empty());
    assert(decode_post(s) == post_of_members(m1));

    // The member list yields exactly `p`.
    let m = seq![e1, e2, e3, e4, e5, e6];
    assert(m1 =~= m);
    assert(key_id().len() == 2 && key_title().len() == 5 && key_content().len() == 7
        && key_date().len() == 4 && key_author().len() == 9 && key_fragment().len() == 12);
    let w1 = m.skip(1);
    assert(w1 =~= seq![e2, e3, e4, e5, e6]);
    let w2 = w1.skip(1);
    assert(w2 =~= seq![e3, e4, e5, e6]);
    let w3 = w2.skip(1);
    assert(w3 =~= seq![e4, e5, e6]);
    let w4 = w3.skip(1);
    assert(w4 =~= seq![e5, e6]);
    let w5 = w4.skip(1);
    assert(w5 =~= seq![e6]);

    assert(lookup_member(m, key_id()) == Some(sv1));
    assert(lookup_member(m, key_title()) == lookup_member(w1, key_title()));
    assert(lookup_member(w1, key_title()) == Some(JsonScalar::Text(p.title)));
    assert(lookup_member(m, key_content()) == lookup_member(w1, key_content()));
    assert(lookup_member(w1, key_content()) == lookup_member(w2, key_content()));
    assert(lookup_member(w2, key_content()) == Some(JsonScalar::Text(p.content)));
    assert(lookup_member(m, key_date()) == lookup_member(w1, key_date()));
    assert(lookup_member(w1, key_date()) == lookup_member(w2, key_date()));
    assert(lookup_member(w2, key_date()) == lookup_member(w3, key_date()));
    assert(lookup_member(w3, key_date()) == Some(JsonScalar::Num(p.date)));
    assert(lookup_member(m, key_author()) == lookup_member(w1, key_author()));
    assert(lookup_member(w1, key_author()) == lookup_member(w2, key_author()));
    assert(lookup_member(w2, key_author()) == lookup_member(w3, key_author()));
    assert(lookup_member(w3, key_author()) == lookup_member(w4, key_author()));
    assert(lookup_member(w4, key_author()) == Some(JsonScalar::Num(p.author_id as u64)));
    assert(lookup_member(m, key_fragment()) == lookup_member(w1, key_fragment()));
    assert(lookup_member(w1, key_fragment()) == lookup_member(w2, key_fragment()));
    assert(lookup_member(w2, key_fragment()) == lookup_member(w3, key_fragment()));
    assert(lookup_member(w3, key_fragment()) == lookup_member(w4, key_fragment()));
    assert(lookup_member(w4, key_fragment()) == lookup_member(w5, key_fragment()));
    assert(lookup_member(w5, key_fragment()) == Some(JsonScalar::Text(p.url_fragment)));

    assert(post_of_members(m) == Some(p));
}

// ---------------------------------------------------------------------------
// The executable encoder.
// ---------------------------------------------------------------------------

/// Escaping distributes over concatenation.
proof fn lemma_esc_append(a: Seq<char>, b: Seq<char>)
    ensures
        esc(a + b) == esc(a) + esc(b),
    decreases a.len(),
{
    if a.len() == 0 {
        assert(a + b =~= b);
        assert(esc(a) =~= Seq::<char>::empty());
        assert(esc(a) + esc(b) =~= esc(b));
    } else {
        lemma_esc_append(a.skip(1), b);
        assert((a + b).skip(1) =~= a.skip(1) + b);
        assert((a + b)[0] == a[0]);
        assert(esc(a + b) =~= esc(a) + esc(b));
    }
}

/// The encoding, flattened: the same chunks, associated to the left as a
/// builder appends them.
#[verifier::rlimit(100)]
proof fn lemma_encode_post_flat(p: PostView)
    ensures
        encode_post(p) == lit_obj_id() + enc_id(p.id) + lit_title() + enc_str(p.title)
            + lit_content() + enc_str(p.content) + lit_date() + enc_u64(p.date) + lit_author()
            + enc_u64(p.author_id as u64) + lit_fragment() + enc_str(p.url_fragment) + lit_close(),
{
    assert(encode_post(p) =~= lit_obj_id() + enc_id(p.id) + lit_title() + enc_str(p.title)
        + lit_content() + enc_str(p.content) + lit_date() + enc_u64(p.date) + lit_author()
        + enc_u64(p.author_id as u64) + lit_fragment() + enc_str(p.url_fragment) + lit_close());
}

/// The lowercase hexadecimal digit for a value below sixteen.
fn hex_char(d: u32) -> (r: char)
    requires
        d < 16,
    ensures
        r == hex_digit_char(d as nat),
{
    let r: char = match d {
        0 => '0',
        1 => '1',
        2 => '2',
        3 => '3',
        4 => '4',
        5 => '5',
        6 => '6',
        7 => '7',
        8 => '8',
        9 => '9',
        10 => 'a',
        11 => 'b',
        12 => 'c',
        13 => 'd',
        14 => 'e',
        _ => 'f',
    };
    r
}

/// Escape a string for a JSON string literal.
fn json_escape(s: &str) -> (r: Vec<char>)
    ensures
        r@ == esc(s@),
{
    let n: usize = s.unicode_len();
    let mut out: Vec<char> = Vec::new();
    let mut i: usize = 0;
    assert(s@.take(0) =~= Seq::<char>::empty());
    while i < n
        invariant
            n == s@.len(),
            0 <= i <= n,
            out@ == esc(s@.take(i as int)),
        decreases n - i,
    {
        let c = s.get_char(i);
        if c == '"' || c == '\\' {
            out.push('\\');
            out.push(c);
        } else if (c as u32) < 0x20 {
            let v = c as u32;
            out.push('\\');
            out.push('u');
            out.push('0');
            out.push('0');
            out.push(hex_char(v / 16));
            out.push(hex_char(v % 16));
        } else {
            out.push(c);
        }
        proof {
            lemma_esc_append(s@.take(i as int), seq![s@[i as int]]);
            assert(s@.take(i + 1) =~= s@.take(i as int) + seq![s@[i as int]]);
            assert(seq![c].skip(1) =~= Seq::<char>::empty());
            assert(esc(Seq::<char>::empty()) =~= Seq::<char>::empty());
            assert(esc(seq![c]) =~= esc_char(c));
            assert(out@ =~= esc(s@.take(i + 1)));
        }
        i = i + 1;
    }
    assert(s@.take(n as int) =~= s@);
    out
}

/// A JSON string literal for `s`.
fn json_string(s: &str) -> (r: String)
    ensures
        r@ == enc_str(s@),
{
    let mut out: Vec<char> = Vec::new();
    out.push('"');
    let mut esc_chars = json_escape(s);
    out.append(&mut esc_chars);
    out.push('"');
    assert(out@ =~= enc_str(s@));
    chars_to_string(&out)
}

/// Encode a post as its canonical JSON text.
pub fn post_to_json(p: &Post) -> (r: String)
    ensures
        r@ == encode_post(p@),
{
    let mut out = String::new();
    out.append("{\"id\":");
    proof {
        reveal_strlit("{\"id\":");
        assert("{\"id\":"@ =~= lit_obj_id());
    }
    match p.id {
        None => {
            out.append("null");
            proof {
                reveal_strlit("null");
                assert("null"@ =~= lit_null());
            }
        },
        Some(n) => {
            let digits = u64_to_string(n as u64);
            out.append(digits.as_str());
        },
    }
    out.append(",\"title\":");
    proof {
        reveal_strlit(",\"title\":");
        assert(",\"title\":"@ =~= lit_title());
    }
    let title = json_string(p.title.as_str());
    out.append(title.as_str());
    out.append(",\"content\":");
    proof {
        reveal_strlit(",\"content\":");
        assert(",\"content\":"@ =~= lit_content());
    }
    let content = json_string(p.content.as_str());
    out.append(content.as_str());
    out.append(",\"date\":");
    proof {
        reveal_strlit(",\"date\":");
        assert(",\"date\":"@ =~= lit_date());
    }
    let date = u64_to_string(p.date);
    out.append(date.as_str());
    out.append(",\"author_id\":");
    proof {
        reveal_strlit(",\"author_id\":");
        assert(",\"author_id\":"@ =~= lit_author());
    }
    let author = u64_to_string(p.author_id as u64);
    out.append(author.as_str());
    out.append(",\"url_fragment\":");
    proof {
        reveal_strlit(",\"url_fragment\":");
        assert(",\"url_fragment\":"@ =~= lit_fragment());
    }
    let fragment = json_string(p.url_fragment.as_str());
    out.append(fragment.as_str());
    out.append("}");
    proof {
        reveal_strlit("}");
        assert("}"@ =~= lit_close());
        lemma_encode_post_flat(p@);
    }
    out
}

// ---------------------------------------------------------------------------
// Encoding a list of posts as a JSON array.
// ---------------------------------------------------------------------------

/// The posts after the first, each preceded by a comma, then the closing
/// bracket.
pub open spec fn enc_posts_tail(l: Seq<PostView>) -> Seq<char>
    decreases l.len(),
{
    if l.len() == 0 {
        seq![']']
    } else {
        seq![','] + (encode_post(l[0]) + enc_posts_tail(l.skip(1)))
    }
}

/// The canonical JSON array of a list of posts.
pub open spec fn encode_posts(l: Seq<PostView>) -> Seq<char> {
    if l.len() == 0 {
        seq!['[', ']']
    } else {
        seq!['['] + (encode_post(l[0]) + enc_posts_tail(l.skip(1)))
    }
}

/// Encode a list of posts as its canonical JSON array text.
pub fn posts_to_json(list: &Vec<Post>) -> (r: String)
    ensures
        r@ == encode_posts(crate::posts::posts_view(list@)),
{
    let ghost lv = crate::posts::posts_view(list@);
    let mut out = String::new();
    out.append("[");
    proof {
        reveal_strlit("[");
    }
    if list.len() == 0 {
        out.append("]");
        proof {
            reveal_strlit("]");
            assert(out@ =~= encode_posts(lv));
        }
        return out;
    }
    let first = post_to_json(&list[0]);
    out.append(first.as_str());
    let mut j: usize = 1;
    assert(out@ + enc_posts_tail(lv.skip(1)) =~= encode_posts(lv));
    while j < list.len()
        invariant
            1 <= j <= list@.len(),
            lv == crate::posts::posts_view(list@),
            lv.len() == list@.len(),
            out@ + enc_posts_tail(lv.skip(j as int)) == encode_posts(lv),
        decreases list@.len() - j,
    {
        let ghost out0 = out@;
        out.append(",");
        proof {
            reveal_strlit(",");
        }
        let enc = post_to_json(&list[j]);
        out.append(enc.as_str());
        proof {
            assert(lv.skip(j as int)[0] == lv[j as int]);
            assert(lv.skip(j as int).skip(1) =~= lv.skip(j + 1));
            assert(out@ + enc_posts_tail(lv.skip(j + 1)) =~= out0 + enc_posts_tail(
                lv.skip(j as int),
            ));
        }
        j = j + 1;
    }
    out.append("]");
    proof {
        reveal_strlit("]");
        assert(lv.skip(lv.len() as int) =~= Seq::<PostView>::empty());
        assert(out@ =~= encode_posts(lv));
    }
    out
}

// ---------------------------------------------------------------------------
// The executable decoder.
// ---------------------------------------------------------------------------

/// The buffered text is not a canonical post object.
#[derive(Debug, Clone, Copy, PartialEq, Eq, Structural)]
pub struct DecodeError;

/// Consume the literal `lit` at position `i`, returning the position after
/// it; mirrors [`expect`] on the remainder `v@.skip(i)`.
fn ex_expect(v: &Vec<char>, i: usize, lit: &Vec<char>) -> (r: Option<usize>)
    requires
        i <= v@.len(),
    ensures
        match r {
            Some(j) => i <= j <= v@.len() && expect(v@.skip(i as int), lit@) == Some(
                v@.skip(j as int),
            ),
            None => expect(v@.skip(i as int), lit@) is None,
        },
{
    let ghost s = v@.skip(i as int);
    let n = v.len();
    let w = lit.len();
    if n - i < w {
        proof {
            assert(s.len() < lit@.len());
        }
        return None;
    }
    let mut k: usize = 0;
    while k < w
        invariant
            i <= v@.len(),
            s == v@.skip(i as int),
            n == v@.len(),
            w == lit@.len(),
            i + w <= n,
            lit@.len() <= s.len(),
            0 <= k <= w,
            forall|m: int| 0 <= m < k ==> s[m] == lit@[m],
        decreases lit@.len() - k,
    {
        assert(s[k as int] == v@[i + k]);
        if v[i + k] != lit[k] {
            proof {
                if lit@.is_prefix_of(s) {
                    assert(s.subrange(0, lit@.len() as int)[k as int] == s[k as int]);
                }
            }
            return None;
        }
        k = k + 1;
    }
    proof {
        assert(s.subrange(0, lit@.len() as int) =~= lit@);
        assert(lit@.is_prefix_of(s));
        assert(s.skip(lit@.len() as int) =~= v@.skip(i + lit@.len()));
    }
    Some(i + lit.len())
}

/// Prepend already-decoded characters onto a string-body decode result.
spec fn body_cont(acc: Seq<char>, o: Option<(Seq<char>, Seq<char>)>) -> Option<
    (Seq<char>, Seq<char>),
> {
    match o {
        Some(p) => Some((acc + p.0, p.1)),
        None => None,
    }
}

/// The value of a hexadecimal digit character, or `None` for anything else.
fn hex_digit_val(c: char) -> (r: Option<u32>)
    ensures
        r is Some <==> is_hex_digit(c),
        r is Some ==> r->Some_0 == hex_val(c) && r->Some_0 < 16,
{
    if c >= '0' && c <= '9' {
        Some((c as u32) - ('0' as u32))
    } else if c >= 'a' && c <= 'f' {
        Some((c as u32) - ('a' as u32) + 10)
    } else if c >= 'A' && c <= 'F' {
        Some((c as u32) - ('A' as u32) + 10)
    } else {
        None
    }
}

/// Consume a JSON string literal at position `i`; mirrors [`dec_string`].
fn ex_dec_string(v: &Vec<char>, i: usize) -> (r: Option<(String, usize)>)
    requires
        i <= v@.len(),
    ensures
        match r {
            Some(p) => p.1 <= v@.len() && dec_string(v@.skip(i as int)) == Some(
                (p.0@, v@.skip(p.1 as int)),
            ),
            None => dec_string(v@.skip(i as int)) is None,
        },
{
    if i >= v.len() || v[i] != '"' {
        return None;
    }
    assert(v@.skip(i as int)[0] == v@[i as int]);
    let ghost s0 = v@.skip(i + 1);
    assert(v@.skip(i as int).skip(1) =~= s0);
    let mut acc: Vec<char> = Vec::new();
    let mut cur: usize = i + 1;
    assert(acc@ + Seq::<char>::empty() =~= acc@);
    while cur < v.len()
        invariant
            i < v@.len(),
            i + 1 <= cur <= v@.len(),
            s0 == v@.skip(i + 1),
            v@.skip(i as int).len() > 0,
            v@.skip(i as int)[0] == '"',
            v@.skip(i as int).skip(1) == s0,
            dec_str_body(s0) == body_cont(acc@, dec_str_body(v@.skip(cur as int))),
        decreases v@.len() - cur,
    {
        let ghost rem = v@.skip(cur as int);
        assert(rem[0] == v@[cur as int]);
        let c = v[cur];
        if c == '"' {
            assert(rem.skip(1) =~= v@.skip(cur + 1));
            assert(dec_str_body(rem) == Some((Seq::<char>::empty(), v@.skip(cur + 1))));
            assert(acc@ + Seq::<char>::empty() =~= acc@);
            let out = chars_to_string(&acc);
            return Some((out, cur + 1));
        } else if c == '\\' {
            if cur + 1 >= v.len() {
                assert(rem.len() < 2);
                assert(dec_str_body(rem) is None);
                return None;
            }
            assert(rem[1] == v@[cur + 1]);
            let c2 = v[cur + 1];
            if c2 == '"' || c2 == '\\' {
                let ghost acc0 = acc@;
                acc.push(c2);
                proof {
                    assert(rem.skip(2) =~= v@.skip(cur + 2));
                    let inner = dec_str_body(v@.skip(cur + 2));
                    match inner {
                        Some(p) => {
                            assert(dec_str_body(rem) == Some((seq![rem[1]] + p.0, p.1)));
                            assert(acc0 + (seq![c2] + p.0) =~= acc@ + p.0);
                        },
                        None => {
                            assert(dec_str_body(rem) is None);
                        },
                    }
                }
                cur = cur + 2;
            } else if c2 == 'u' {
                if v.len() - cur < 6 {
                    assert(rem.len() < 6);
                    assert(dec_str_body(rem) is None);
                    return None;
                }
                assert(rem[2] == v@[cur + 2] && rem[3] == v@[cur + 3] && rem[4] == v@[cur + 4]
                    && rem[5] == v@[cur + 5]);
                if v[cur + 2] != '0' || v[cur + 3] != '0' {
                    assert(dec_str_body(rem) is None);
                    return None;
                }
                let hi = match hex_digit_val(v[cur + 4]) {
                    Some(d) => d,
                    None => {
                        assert(dec_str_body(rem) is None);
                        return None;
                    },
                };
                let lo = match hex_digit_val(v[cur + 5]) {
                    Some(d) => d,
                    None => {
                        assert(dec_str_body(rem) is None);
                        return None;
                    },
                };
                let decoded: char = ((hi * 16 + lo) as u8) as char;
                assert(decoded == ((hex_val(rem[4]) * 16 + hex_val(rem[5])) as char));
                let ghost acc0 = acc@;
                acc.push(decoded);
                proof {
                    assert(rem.skip(6) =~= v@.skip(cur + 6));
                    let inner = dec_str_body(v@.skip(cur + 6));
                    match inner {
                        Some(p) => {
                            assert(dec_str_body(rem) == Some(
                                (seq![((hex_val(rem[4]) * 16 + hex_val(rem[5])) as char)] + p.0, p.1),
                            ));
                            assert(acc0 + (seq![decoded] + p.0) =~= acc@ + p.0);
                        },
                        None => {
                            assert(dec_str_body(rem) is None);
                        },
                    }
                }
                cur = cur + 6;
            } else {
                assert(dec_str_body(rem) is None);
                return None;
            }
        } else {
            let ghost acc0 = acc@;
            acc.push(c);
            proof {
                assert(rem.skip(1) =~= v@.skip(cur + 1));
                let inner = dec_str_body(v@.skip(cur + 1));
                match inner {
                    Some(p) => {
                        assert(dec_str_body(rem) == Some((seq![rem[0]] + p.0, p.1)));
                        assert(acc0 + (seq![c] + p.0) =~= acc@ + p.0);
                    },
                    None => {
                        assert(dec_str_body(rem) is None);
                    },
                }
            }
            cur = cur + 1;
        }
    }
    assert(v@.skip(cur as int).len() == 0);
    assert(dec_str_body(v@.skip(cur as int)) is None);
    None
}

/// A run of leading digits never runs past the end.
proof fn lemma_num_len_le(s: Seq<char>)
    ensures
        num_len(s) <= s.len(),
    decreases s.len(),
{
    if s.len() > 0 && is_dec_digit(s[0]) {
        lemma_num_len_le(s.skip(1));
    }
}

/// A run of leading digits is never shorter than any all-digit prefix.
proof fn lemma_num_len_ge(s: Seq<char>, k: int)
    requires
        0 <= k <= s.len(),
        all_dec_digits(s.take(k)),
    ensures
        num_len(s) >= k,
    decreases k,
{
    if k > 0 {
        assert(s.take(k)[0] == s[0]);
        assert(is_dec_digit(s[0]));
        assert(s.skip(1).take(k - 1) =~= s.take(k).skip(1));
        assert(all_dec_digits(s.skip(1).take(k - 1)));
        lemma_num_len_ge(s.skip(1), k - 1);
    }
}

/// Consume a `u64` number at position `i`; mirrors [`dec_num_u64`].
fn ex_dec_u64(v: &Vec<char>, i: usize) -> (r: Option<(u64, usize)>)
    requires
        i <= v@.len(),
    ensures
        match r {
            Some(p) => p.1 <= v@.len() && dec_num_u64(v@.skip(i as int)) == Some(
                (p.0, v@.skip(p.1 as int)),
            ),
            None => dec_num_u64(v@.skip(i as int)) is None,
        },
{
    let ghost s = v@.skip(i as int);
    let mut acc: u64 = 0;
    let mut cur: usize = i;
    assert(s.take(0) =~= Seq::<char>::empty());
    loop
        invariant
            i <= cur <= v@.len(),
            s == v@.skip(i as int),
            cur - i <= s.len(),
            all_dec_digits(s.take(cur - i)),
            acc == dec_val(s.take(cur - i)),
        ensures
            i <= cur <= v@.len(),
            s == v@.skip(i as int),
            cur - i <= s.len(),
            all_dec_digits(s.take(cur - i)),
            acc == dec_val(s.take(cur - i)),
            cur - i == s.len() || !is_dec_digit(s[cur - i]),
        decreases v@.len() - cur,
    {
        let ghost k: int = cur - i;
        if cur == v.len() {
            break;
        }
        assert(s[k] == v@[cur as int]);
        let c = v[cur];
        if c < '0' || c > '9' {
            assert(!is_dec_digit(s[k]));
            break;
        }
        let d: u64 = ((c as u32) - ('0' as u32)) as u64;
        assert(is_dec_digit(s[k]) && d == digit_val(s[k]));
        proof {
            assert(s.take(k + 1).drop_last() =~= s.take(k));
            assert(s.take(k + 1).last() == s[k]);
            assert(all_dec_digits(s.take(k + 1)));
            assert(dec_val(s.take(k + 1)) == acc * 10 + d);
        }
        if acc > (u64::MAX - d) / 10 {
            // The run continues past a value too large for a `u64`.
            proof {
                assert(acc * 10 + d > u64::MAX) by (nonlinear_arith)
                    requires
                        acc > (u64::MAX - d) / 10,
                        d <= 9,
                ;
                lemma_num_len_le(s);
                lemma_num_len_ge(s, k + 1);
                lemma_dec_val_prefix_le(s, k + 1, num_len(s) as int);
                assert(dec_num(s)->Some_0.0 > u64::MAX);
            }
            return None;
        }
        assert(acc * 10 + d <= u64::MAX) by (nonlinear_arith)
            requires
                acc <= (u64::MAX - d) / 10,
                d <= 9,
        ;
        acc = acc * 10 + d;
        cur = cur + 1;
    }
    // The loop left `cur` at the first non-digit (or the end).
    let ghost k: int = cur - i;
    proof {
        assert(s.skip(k).len() == 0 || !is_dec_digit(s.skip(k)[0]));
        assert(s.take(k) + s.skip(k) =~= s);
        lemma_num_len_boundary(s.take(k), s.skip(k));
        assert(num_len(s) == k);
    }
    if cur == i {
        assert(num_len(s) == 0);
        return None;
    }
    assert(dec_num(s) == Some((dec_val(s.take(k)), s.skip(k))));
    assert(s.skip(k) =~= v@.skip(cur as int));
    Some((acc, cur))
}

/// Step over leading whitespace from position `i`; mirrors [`skip_ws`].
fn ex_skip_ws(v: &Vec<char>, i: usize) -> (j: usize)
    requires
        i <= v@.len(),
    ensures
        i <= j <= v@.len(),
        v@.skip(j as int) == skip_ws(v@.skip(i as int)),
{
    let mut cur: usize = i;
    loop
        invariant
            i <= cur <= v@.len(),
            skip_ws(v@.skip(i as int)) == skip_ws(v@.skip(cur as int)),
        ensures
            i <= cur <= v@.len(),
            skip_ws(v@.skip(i as int)) == skip_ws(v@.skip(cur as int)),
            cur == v@.len() || !is_json_ws(v@.skip(cur as int)[0]),
        decreases v@.len() - cur,
    {
        if cur == v.len() {
            break;
        }
        assert(v@.skip(cur as int)[0] == v@[cur as int]);
        let c = v[cur];
        if !(c == ' ' || c == '\t' || c == '\n' || c == '\r') {
            break;
        }
        proof {
            lemma_skip_ws_step(v@.skip(cur as int));
            assert(v@.skip(cur as int).skip(1) =~= v@.skip(cur + 1));
        }
        cur = cur + 1;
    }
    proof {
        lemma_skip_ws_nonws(v@.skip(cur as int));
    }
    cur
}

/// One member value, as the decoder holds it.
enum ScalarValue {
    Text(String),
    Num(u64),
    Null,
}

impl View for ScalarValue {
    type V = JsonScalar;

    closed spec fn view(&self) -> JsonScalar {
        match self {
            ScalarValue::Text(s) => JsonScalar::Text(s@),
            ScalarValue::Num(n) => JsonScalar::Num(*n),
            ScalarValue::Null => JsonScalar::Null,
        }
    }
}

/// The values of a decoded member list.
spec fn members_view(m: Seq<(String, ScalarValue)>) -> Seq<(Seq<char>, JsonScalar)> {
    m.map_values(|p: (String, ScalarValue)| (p.0@, p.1@))
}

/// The `null` literal, as a character vector.
fn null_chars() -> (r: Vec<char>)
    ensures
        r@ == lit_null(),
{
    let r = vec!['n', 'u', 'l', 'l'];
    assert(r@ =~= lit_null());
    r
}

/// Consume one scalar at position `i`; mirrors [`dec_scalar`].
fn ex_dec_scalar(v: &Vec<char>, i: usize, null_lit: &Vec<char>) -> (r: Option<(ScalarValue, usize)>)
    requires
        i <= v@.len(),
        null_lit@ == lit_null(),
    ensures
        match r {
            Some(p) => p.1 <= v@.len() && dec_scalar(v@.skip(i as int)) == Some(
                (p.0@, v@.skip(p.1 as int)),
            ),
            None => dec_scalar(v@.skip(i as int)) is None,
        },
{
    let ghost s = v@.skip(i as int);
    proof {
        if i < v@.len() {
            assert(s[0] == v@[i as int]);
        }
    }
    if i < v.len() && v[i] == '"' {
        match ex_dec_string(v, i) {
            Some((text, j)) => Some((ScalarValue::Text(text), j)),
            None => None,
        }
    } else {
        match ex_expect(v, i, null_lit) {
            Some(j) => {
                proof {
                    assert(lit_null().is_prefix_of(s));
                    assert(s.skip(4) == v@.skip(j as int));
                }
                Some((ScalarValue::Null, j))
            },
            None => {
                assert(!lit_null().is_prefix_of(s));
                match ex_dec_u64(v, i) {
                    Some((n, j)) => Some((ScalarValue::Num(n), j)),
                    None => None,
                }
            },
        }
    }
}

/// Consume the members from position `i`; mirrors [`dec_members`].
fn ex_dec_members(v: &Vec<char>, i: usize, null_lit: &Vec<char>) -> (r: Option<
    (Vec<(String, ScalarValue)>, usize),
>)
    requires
        i <= v@.len(),
        null_lit@ == lit_null(),
    ensures
        match r {
            Some(p) => p.1 <= v@.len() && dec_members(v@.skip(i as int)) == Some(
                (members_view(p.0@), v@.skip(p.1 as int)),
            ),
            None => dec_members(v@.skip(i as int)) is None,
        },
    decreases v@.len() - i,
{
    let ghost s = v@.skip(i as int);
    let (key, j1) = match ex_dec_string(v, i) {
        Some(p) => p,
        None => {
            return None;
        },
    };
    let j2 = ex_skip_ws(v, j1);
    if j2 == v.len() {
        assert(skip_ws(v@.skip(j1 as int)).len() == 0);
        return None;
    }
    assert(v@.skip(j2 as int)[0] == v@[j2 as int]);
    if v[j2] != ':' {
        return None;
    }
    proof {
        assert(v@.skip(j2 as int).skip(1) =~= v@.skip(j2 + 1));
    }
    let j3 = ex_skip_ws(v, j2 + 1);
    let (value, j4) = match ex_dec_scalar(v, j3, null_lit) {
        Some(p) => p,
        None => {
            return None;
        },
    };
    let ghost kv = (key@, value@);
    let j5 = ex_skip_ws(v, j4);
    if j5 == v.len() {
        assert(skip_ws(v@.skip(j4 as int)).len() == 0);
        return None;
    }
    assert(v@.skip(j5 as int)[0] == v@[j5 as int]);
    let c = v[j5];
    if c == ',' {
        proof {
            assert(v@.skip(j5 as int).skip(1) =~= v@.skip(j5 + 1));
        }
        let j6 = ex_skip_ws(v, j5 + 1);
        if j6 <= i {
            proof {
                assert(v@.skip(j6 as int).len() >= s.len());
            }
            return None;
        }
        match ex_dec_members(v, j6, null_lit) {
            Some((rest, j7)) => {
                let ghost rest0 = rest@;
                let mut out: Vec<(String, ScalarValue)> = Vec::new();
                out.push((key, value));
                let mut rest = rest;
                out.append(&mut rest);
                proof {
                    assert(members_view(out@) =~= seq![kv] + members_view(rest0));
                }
                Some((out, j7))
            },
            None => None,
        }
    } else if c == '}' {
        proof {
            assert(v@.skip(j5 as int).skip(1) =~= v@.skip(j5 + 1));
        }
        let mut out: Vec<(String, ScalarValue)> = Vec::new();
        out.push((key, value));
        proof {
            assert(members_view(out@) =~= seq![kv]);
        }
        Some((out, j5 + 1))
    } else {
        None
    }
}

/// First-wins lookup of `key` among decoded members; mirrors
/// [`lookup_member`].
fn ex_lookup_member<'a>(m: &'a Vec<(String, ScalarValue)>, key: &str) -> (r: Option<
    &'a ScalarValue,
>)
    ensures
        r is Some <==> lookup_member(members_view(m@), key@) is Some,
        r is Some ==> r->Some_0@ == lookup_member(members_view(m@), key@)->Some_0,
{
    let ghost mv = members_view(m@);
    let mut i: usize = 0;
    assert(mv.skip(0) =~= mv);
    while i < m.len()
        invariant
            0 <= i <= m@.len(),
            mv == members_view(m@),
            mv.len() == m@.len(),
            lookup_member(mv, key@) == lookup_member(mv.skip(i as int), key@),
        decreases m@.len() - i,
    {
        assert(mv.skip(i as int)[0] == mv[i as int]);
        assert(mv[i as int] == (m@[i as int].0@, m@[i as int].1@));
        if crate::strings::str_eq(m[i].0.as_str(), key) {
            assert(lookup_member(mv.skip(i as int), key@) == Some(mv[i as int].1));
            return Some(&m[i].1);
        }
        assert(mv.skip(i as int).skip(1) =~= mv.skip(i + 1));
        i = i + 1;
    }
    assert(mv.skip(m@.len() as int) =~= Seq::<(Seq<char>, JsonScalar)>::empty());
    None
}

/// Build a post from decoded members; mirrors [`post_of_members`].
fn post_of_member_list(m: &Vec<(String, ScalarValue)>) -> (r: Option<Post>)
    ensures
        r is Some <==> post_of_members(members_view(m@)) is Some,
        r is Some ==> r->Some_0@ == post_of_members(members_view(m@))->Some_0,
{
    proof {
        reveal_strlit("id");
        reveal_strlit("title");
        reveal_strlit("content");
        reveal_strlit("date");
        reveal_strlit("author_id");
        reveal_strlit("url_fragment");
        assert("id"@ =~= key_id());
        assert("title"@ =~= key_title());
        assert("content"@ =~= key_content());
        assert("date"@ =~= key_date());
        assert("author_id"@ =~= key_author());
        assert("url_fragment"@ =~= key_fragment());
    }
    let id_v = match ex_lookup_member(m, "id") {
        Some(x) => x,
        None => {
            return None;
        },
    };
    let title_v = match ex_lookup_member(m, "title") {
        Some(x) => x,
        None => {
            return None;
        },
    };
    let content_v = match ex_lookup_member(m, "content") {
        Some(x) => x,
        None => {
            return None;
        },
    };
    let date_v = match ex_lookup_member(m, "date") {
        Some(x) => x,
        None => {
            return None;
        },
    };
    let author_v = match ex_lookup_member(m, "author_id") {
        Some(x) => x,
        None => {
            return None;
        },
    };
    let fragment_v = match ex_lookup_member(m, "url_fragment") {
        Some(x) => x,
        None => {
            return None;
        },
    };
    let id: Option<u32> = match id_v {
        ScalarValue::Null => None,
        ScalarValue::Num(n) => {
            if *n <= u32::MAX as u64 {
                Some(*n as u32)
            } else {
                return None;
            }
        },
        ScalarValue::Text(_) => {
            return None;
        },
    };
    let title: String = match title_v {
        ScalarValue::Text(t) => t.clone(),
        _ => {
            return None;
        },
    };
    let content: String = match content_v {
        ScalarValue::Text(t) => t.clone(),
        _ => {
            return None;
        },
    };
    let date: u64 = match date_v {
        ScalarValue::Num(n) => *n,
        _ => {
            return None;
        },
    };
    let author: u64 = match author_v {
        ScalarValue::Num(n) => *n,
        _ => {
            return None;
        },
    };
    let url_fragment: String = match fragment_v {
        ScalarValue::Text(t) => t.clone(),
        _ => {
            return None;
        },
    };
    if author > u32::MAX as u64 {
        return None;
    }
    Some(Post { id, title, content, date, author_id: author as u32, url_fragment })
}

/// Decode a post from JSON text; mirrors [`decode_post`] exactly, including
/// the demand that nothing but whitespace follow the object.
pub fn post_from_json(text: &str) -> (r: Result<Post, DecodeError>)
    ensures
        r is Ok <==> decode_post(text@) is Some,
        r is Ok ==> r->Ok_0@ == decode_post(text@)->Some_0,
{
    let v = crate::strings::str_to_chars(text);
    assert(v@.skip(0) =~= v@);
    let null_lit = null_chars();
    let j0 = ex_skip_ws(&v, 0);
    if j0 == v.len() {
        assert(skip_ws(v@).len() == 0);
        return Err(DecodeError);
    }
    assert(v@.skip(j0 as int)[0] == v@[j0 as int]);
    if v[j0] != '{' {
        return Err(DecodeError);
    }
    proof {
        assert(v@.skip(j0 as int).skip(1) =~= v@.skip(j0 + 1));
    }
    let j1 = ex_skip_ws(&v, j0 + 1);
    if j1 == v.len() {
        assert(dec_string(v@.skip(j1 as int)) is None);
        return Err(DecodeError);
    }
    assert(v@.skip(j1 as int)[0] == v@[j1 as int]);
    if v[j1] == '}' {
        return Err(DecodeError);
    }
    let (members, j7) = match ex_dec_members(&v, j1, &null_lit) {
        Some(p) => p,
        None => {
            return Err(DecodeError);
        },
    };
    let j8 = ex_skip_ws(&v, j7);
    if j8 != v.len() {
        assert(skip_ws(v@.skip(j7 as int)).len() != 0);
        return Err(DecodeError);
    }
    assert(skip_ws(v@.skip(j7 as int)).len() == 0);
    match post_of_member_list(&members) {
        Some(post) => Ok(post),
        None => Err(DecodeError),
    }
}

} // verus!
