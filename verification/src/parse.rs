//! Decoding wire bytes back into an envelope: a recursive-descent parser
//! for the four-field record, taking its members in any order, tolerant
//! of JSON whitespace between tokens and of the standard string escapes.

use vstd::prelude::*;
use vstd::string::StrSliceExecFns;
use vstd::string::StringExecFns;
use vstd::utf8::decode_utf8;
use vstd::utf8::is_scalar;
use vstd::utf8::valid_utf8;

use crate::message::Message;
use crate::message::MessageModel;
use crate::message::MessageType;
use crate::text::bytes_as_str;
use crate::text::char_from_u32;
use crate::text::push_char;
use crate::wire::tag_to_type;

verus! {

broadcast use vstd::string::group_string_axioms;

/// Why a byte sequence failed to decode.
#[derive(Debug, Clone, Copy, PartialEq, Eq, Structural)]
pub enum DecodeError {
    /// The bytes are not a structurally valid record.
    Malformed,
    /// The record is well-formed but its type tag names no known kind.
    UnknownVariant,
}

/// The four JSON whitespace characters.
pub open spec fn is_ws(c: char) -> bool {
    c == ' ' || c == '\t' || c == '\n' || c == '\r'
}

/// The given text without its leading whitespace.
pub open spec fn ws_trim(s: Seq<char>) -> Seq<char>
    decreases s.len(),
{
    if s.len() > 0 && is_ws(s[0]) {
        ws_trim(s.drop_first())
    } else {
        s
    }
}

/// Consumes leading whitespace and then the one expected character,
/// yielding the remainder.
pub open spec fn parse_char(s: Seq<char>, c: char) -> Option<Seq<char>> {
    let t = ws_trim(s);
    if t.len() > 0 && t[0] == c {
        Some(t.drop_first())
    } else {
        None
    }
}

pub open spec fn is_digit(c: char) -> bool {
    48 <= c as u32 && c as u32 <= 57
}

pub open spec fn is_hex_digit(c: char) -> bool {
    is_digit(c) || (97 <= c as u32 && c as u32 <= 102) || (65 <= c as u32 && c as u32 <= 70)
}

/// The value of a hexadecimal digit, either case.
pub open spec fn hex_val(c: char) -> u32 {
    if is_digit(c) {
        (c as u32 - 48) as u32
    } else if 97 <= c as u32 {
        (c as u32 - 87) as u32
    } else {
        (c as u32 - 55) as u32
    }
}

/// The character a two-character escape stands for, if the second
/// character is one of the eight JSON escape codes.
pub open spec fn escape_code(e: char) -> Option<char> {
    if e == '"' {
        Some('"')
    } else if e == '\\' {
        Some('\\')
    } else if e == '/' {
        Some('/')
    } else if e == 'b' {
        Some('\u{08}')
    } else if e == 'f' {
        Some('\u{0c}')
    } else if e == 'n' {
        Some('\n')
    } else if e == 'r' {
        Some('\r')
    } else if e == 't' {
        Some('\t')
    } else {
        None
    }
}

/// The supplementary-plane scalar a UTF-16 surrogate pair stands for.
pub open spec fn surrogate_scalar(hi: u32, lo: u32) -> u32 {
    (0x10000 + (hi - 0xD800) * 0x400 + (lo - 0xDC00)) as u32
}

/// Consumes the body of a string literal up to and including its closing
/// quote, yielding the text it stands for and the remainder. Raw control
/// characters are refused; a `\uXXXX` escape must name a Unicode scalar,
/// except that a high-surrogate escape followed at once by a low-surrogate
/// escape stands for the supplementary-plane character the pair encodes.
pub open spec fn parse_str_body(s: Seq<char>) -> Option<(Seq<char>, Seq<char>)>
    decreases s.len(),
{
    if s.len() == 0 {
        None
    } else if s[0] == '"' {
        Some((Seq::empty(), s.drop_first()))
    } else if s[0] == '\\' {
        if s.len() < 2 {
            None
        } else if s[1] == 'u' {
            if s.len() >= 6 && is_hex_digit(s[2]) && is_hex_digit(s[3]) && is_hex_digit(s[4])
                && is_hex_digit(s[5]) {
                let v = (hex_val(s[2]) * 4096 + hex_val(s[3]) * 256 + hex_val(s[4]) * 16 + hex_val(
                    s[5],
                )) as u32;
                if 0xD800 <= v && v <= 0xDBFF {
                    if s.len() >= 12 && s[6] == '\\' && s[7] == 'u' && is_hex_digit(s[8])
                        && is_hex_digit(s[9]) && is_hex_digit(s[10]) && is_hex_digit(s[11]) {
                        let w = (hex_val(s[8]) * 4096 + hex_val(s[9]) * 256 + hex_val(s[10]) * 16
                            + hex_val(s[11])) as u32;
                        if 0xDC00 <= w && w <= 0xDFFF {
                            match parse_str_body(s.skip(12)) {
                                Some(p) => Some(
                                    (seq![surrogate_scalar(v, w) as char] + p.0, p.1),
                                ),
                                None => None,
                            }
                        } else {
                            None
                        }
                    } else {
                        None
                    }
                } else if is_scalar(v) {
                    match parse_str_body(s.skip(6)) {
                        Some(p) => Some((seq![v as char] + p.0, p.1)),
                        None => None,
                    }
                } else {
                    None
                }
            } else {
                None
            }
        } else {
            match escape_code(s[1]) {
                Some(c0) => match parse_str_body(s.skip(2)) {
                    Some(p) => Some((seq![c0] + p.0, p.1)),
                    None => None,
                },
                None => None,
            }
        }
    } else if (s[0] as u32) < 0x20 {
        None
    } else {
        match parse_str_body(s.drop_first()) {
            Some(p) => Some((seq![s[0]] + p.0, p.1)),
            None => None,
        }
    }
}

/// Consumes a whole string literal after optional whitespace.
pub open spec fn parse_string(s: Seq<char>) -> Option<(Seq<char>, Seq<char>)> {
    match parse_char(s, '"') {
        Some(r) => parse_str_body(r),
        None => None,
    }
}

/// Consumes decimal digits, accumulating their value; fails when the
/// value would not fit in 64 bits.
pub open spec fn parse_num_acc(s: Seq<char>, acc: u64) -> Option<(u64, Seq<char>)>
    decreases s.len(),
{
    if s.len() > 0 && is_digit(s[0]) {
        let d = (s[0] as u32 - 48) as u64;
        if acc <= (u64::MAX - d) / 10 {
            parse_num_acc(s.drop_first(), (acc * 10 + d) as u64)
        } else {
            None
        }
    } else {
        Some((acc, s))
    }
}

/// Consumes a non-negative integer after optional whitespace. A leading
/// zero is allowed only as the single digit of zero itself.
pub open spec fn parse_num(s: Seq<char>) -> Option<(u64, Seq<char>)> {
    let t = ws_trim(s);
    if t.len() > 0 && is_digit(t[0]) {
        if t[0] == '0' && t.len() > 1 && is_digit(t[1]) {
            None
        } else {
            parse_num_acc(t, 0)
        }
    } else {
        None
    }
}

/// The fields of a record gathered so far, each at most once.
pub ghost struct Partial {
    pub tag: Option<Seq<char>>,
    pub content: Option<Seq<char>>,
    pub timestamp: Option<u64>,
    pub author: Option<Seq<char>>,
}

/// Consumes one `"key": value` member and records it: the `timestamp`
/// key takes a number, the other three take strings, a repeated or
/// unrecognized key is refused.
pub open spec fn parse_field(s: Seq<char>, acc: Partial) -> Option<(Partial, Seq<char>)> {
    match parse_string(s) {
        None => None,
        Some(pk) => match parse_char(pk.1, ':') {
            None => None,
            Some(r) => if pk.0 == "type"@ {
                if acc.tag is Some {
                    None
                } else {
                    match parse_string(r) {
                        None => None,
                        Some(pv) => Some((Partial { tag: Some(pv.0), ..acc }, pv.1)),
                    }
                }
            } else if pk.0 == "content"@ {
                if acc.content is Some {
                    None
                } else {
                    match parse_string(r) {
                        None => None,
                        Some(pv) => Some((Partial { content: Some(pv.0), ..acc }, pv.1)),
                    }
                }
            } else if pk.0 == "timestamp"@ {
                if acc.timestamp is Some {
                    None
                } else {
                    match parse_num(r) {
                        None => None,
                        Some(pv) => Some((Partial { timestamp: Some(pv.0), ..acc }, pv.1)),
                    }
                }
            } else if pk.0 == "author"@ {
                if acc.author is Some {
                    None
                } else {
                    match parse_string(r) {
                        None => None,
                        Some(pv) => Some((Partial { author: Some(pv.0), ..acc }, pv.1)),
                    }
                }
            } else {
                None
            },
        },
    }
}

/// The empty gathering of fields.
pub open spec fn partial_empty() -> Partial {
    Partial { tag: None, content: None, timestamp: None, author: None }
}

/// What decoding a record's characters yields: the envelope model for a
/// well-formed record with a known tag, `UnknownVariant` for a well-formed
/// record with an unrecognized tag, and `Malformed` otherwise. The four
/// members may appear in any order, each exactly once.
pub open spec fn parse_record(s: Seq<char>) -> Result<MessageModel, DecodeError> {
    match parse_char(s, '{') {
        None => Err(DecodeError::Malformed),
        Some(s1) => match parse_field(s1, partial_empty()) {
            None => Err(DecodeError::Malformed),
            Some(f1) => match parse_char(f1.1, ',') {
                None => Err(DecodeError::Malformed),
                Some(s2) => match parse_field(s2, f1.0) {
                    None => Err(DecodeError::Malformed),
                    Some(f2) => match parse_char(f2.1, ',') {
                        None => Err(DecodeError::Malformed),
                        Some(s3) => match parse_field(s3, f2.0) {
                            None => Err(DecodeError::Malformed),
                            Some(f3) => match parse_char(f3.1, ',') {
                                None => Err(DecodeError::Malformed),
                                Some(s4) => match parse_field(s4, f3.0) {
                                    None => Err(DecodeError::Malformed),
                                    Some(f4) => match parse_char(f4.1, '}') {
                                        None => Err(DecodeError::Malformed),
                                        Some(rend) => if ws_trim(rend).len() != 0 {
                                            Err(DecodeError::Malformed)
                                        } else {
                                            match (f4.0.tag, f4.0.content, f4.0.timestamp, f4.0.author) {
                                                (
                                                    Some(tag),
                                                    Some(content),
                                                    Some(ts),
                                                    Some(author),
                                                ) => match tag_to_type(tag) {
                                                    Some(k) => Ok(
                                                        MessageModel {
                                                            msg_type: k,
                                                            content,
                                                            timestamp: ts,
                                                            author,
                                                        },
                                                    ),
                                                    None => Err(DecodeError::UnknownVariant),
                                                },
                                                _ => Err(DecodeError::Malformed),
                                            }
                                        },
                                    },
                                },
                            },
                        },
                    },
                },
            },
        },
    }
}

/// What decoding yields for given bytes: bytes that are not UTF-8 are
/// malformed; otherwise the record parse of their text decides.
pub open spec fn decode_spec(bytes: Seq<u8>) -> Result<MessageModel, DecodeError> {
    if valid_utf8(bytes) {
        parse_record(decode_utf8(bytes))
    } else {
        Err(DecodeError::Malformed)
    }
}

/// The characters of a text, in order.
fn str_chars(s: &str) -> (r: Vec<char>)
    ensures
        r@ == s@,
{
    let n = s.unicode_len();
    let mut r: Vec<char> = Vec::new();
    let mut i: usize = 0;
    while i < n
        invariant
            n == s@.len(),
            0 <= i <= n,
            r@ == s@.subrange(0, i as int),
        decreases n - i,
    {
        r.push(s.get_char(i));
        proof {
            assert(s@.subrange(0, i as int).push(s@[i as int]) =~= s@.subrange(0, i as int + 1));
        }
        i = i + 1;
    }
    proof {
        assert(s@.subrange(0, n as int) =~= s@);
    }
    r
}

fn exec_ws(cs: &Vec<char>, i: usize) -> (j: usize)
    requires
        i <= cs@.len(),
    ensures
        i <= j <= cs@.len(),
        cs@.skip(j as int) == ws_trim(cs@.skip(i as int)),
    decreases cs@.len() - i,
{
    if i < cs.len() {
        let c = cs[i];
        if c == ' ' || c == '\t' || c == '\n' || c == '\r' {
            proof {
                assert(cs@.skip(i as int).drop_first() =~= cs@.skip(i as int + 1));
            }
            return exec_ws(cs, i + 1);
        }
    }
    i
}

fn exec_char(cs: &Vec<char>, i: usize, c: char) -> (r: Option<usize>)
    requires
        i <= cs@.len(),
    ensures
        r matches Some(j) ==> i <= j <= cs@.len() && parse_char(cs@.skip(i as int), c) == Some(
            cs@.skip(j as int),
        ),
        r is None ==> parse_char(cs@.skip(i as int), c) is None,
{
    let j = exec_ws(cs, i);
    if j < cs.len() && cs[j] == c {
        proof {
            assert(cs@.skip(j as int).drop_first() =~= cs@.skip(j as int + 1));
        }
        Some(j + 1)
    } else {
        None
    }
}

/// The field gathering that the given executable option values stand for.
pub open spec fn partial_of(
    tag: Option<String>,
    content: Option<String>,
    ts: Option<u64>,
    author: Option<String>,
) -> Partial {
    Partial {
        tag: match tag {
            Some(s) => Some(s@),
            None => None,
        },
        content: match content {
            Some(s) => Some(s@),
            None => None,
        },
        timestamp: ts,
        author: match author {
            Some(s) => Some(s@),
            None => None,
        },
    }
}

fn exec_field(
    cs: &Vec<char>,
    i: usize,
    tag: &mut Option<String>,
    content: &mut Option<String>,
    ts: &mut Option<u64>,
    author: &mut Option<String>,
) -> (r: Option<usize>)
    requires
        i <= cs@.len(),
    ensures
        r matches Some(j) ==> j <= cs@.len() && parse_field(
            cs@.skip(i as int),
            partial_of(*old(tag), *old(content), *old(ts), *old(author)),
        ) == Some(
            (partial_of(*final(tag), *final(content), *final(ts), *final(author)), cs@.skip(
                j as int,
            )),
        ),
        r is None ==> parse_field(
            cs@.skip(i as int),
            partial_of(*old(tag), *old(content), *old(ts), *old(author)),
        ) is None,
{
    proof {
        reveal_strlit("type");
        reveal_strlit("content");
        reveal_strlit("timestamp");
        reveal_strlit("author");
    }
    let (key, r0) = match exec_string(cs, i) {
        None => {
            return None;
        },
        Some(p) => p,
    };
    let r1 = match exec_char(cs, r0, ':') {
        None => {
            return None;
        },
        Some(j) => j,
    };
    if key == String::from_str("type") {
        if tag.is_some() {
            return None;
        }
        match exec_string(cs, r1) {
            None => None,
            Some((v, j)) => {
                *tag = Some(v);
                Some(j)
            },
        }
    } else if key == String::from_str("content") {
        if content.is_some() {
            return None;
        }
        match exec_string(cs, r1) {
            None => None,
            Some((v, j)) => {
                *content = Some(v);
                Some(j)
            },
        }
    } else if key == String::from_str("timestamp") {
        if ts.is_some() {
            return None;
        }
        match exec_num(cs, r1) {
            None => None,
            Some((n, j)) => {
                *ts = Some(n);
                Some(j)
            },
        }
    } else if key == String::from_str("author") {
        if author.is_some() {
            return None;
        }
        match exec_string(cs, r1) {
            None => None,
            Some((v, j)) => {
                *author = Some(v);
                Some(j)
            },
        }
    } else {
        None
    }
}

fn exec_esc_code(e: char) -> (r: Option<char>)
    ensures
        r == escape_code(e),
{
    if e == '"' {
        Some('"')
    } else if e == '\\' {
        Some('\\')
    } else if e == '/' {
        Some('/')
    } else if e == 'b' {
        Some('\u{08}')
    } else if e == 'f' {
        Some('\u{0c}')
    } else if e == 'n' {
        Some('\n')
    } else if e == 'r' {
        Some('\r')
    } else if e == 't' {
        Some('\t')
    } else {
        None
    }
}

fn exec_hex_val(c: char) -> (r: Option<u32>)
    ensures
        r is Some <==> is_hex_digit(c),
        r matches Some(v) ==> v == hex_val(c) && v < 16,
{
    let u = c as u32;
    if 48 <= u && u <= 57 {
        Some(u - 48)
    } else if 97 <= u && u <= 102 {
        Some(u - 87)
    } else if 65 <= u && u <= 70 {
        Some(u - 55)
    } else {
        None
    }
}

#[verifier::rlimit(100)]
fn exec_str_body(cs: &Vec<char>, i: usize, out: &mut String) -> (r: Option<usize>)
    requires
        i <= cs@.len(),
    ensures
        r matches Some(j) ==> i <= j <= cs@.len() && (parse_str_body(cs@.skip(i as int))
            matches Some(p) && final(out)@ == old(out)@ + p.0 && p.1 == cs@.skip(j as int)),
        r is None ==> parse_str_body(cs@.skip(i as int)) is None,
    decreases cs@.len() - i,
{
    if i >= cs.len() {
        return None;
    }
    let c = cs[i];
    if c == '"' {
        proof {
            assert(final(out)@ =~= old(out)@ + Seq::<char>::empty());
            assert(cs@.skip(i as int).drop_first() =~= cs@.skip(i as int + 1));
        }
        return Some(i + 1);
    }
    if c == '\\' {
        if i + 1 >= cs.len() {
            return None;
        }
        let e = cs[i + 1];
        if e == 'u' {
            if cs.len() - i < 6 {
                return None;
            }
            let h0 = exec_hex_val(cs[i + 2]);
            let h1 = exec_hex_val(cs[i + 3]);
            let h2 = exec_hex_val(cs[i + 4]);
            let h3 = exec_hex_val(cs[i + 5]);
            match (h0, h1, h2, h3) {
                (Some(a), Some(b), Some(x), Some(y)) => {
                    let v: u32 = a * 4096 + b * 256 + x * 16 + y;
                    if 0xD800 <= v && v <= 0xDBFF {
                        if cs.len() - i < 12 {
                            return None;
                        }
                        if !(cs[i + 6] == '\\' && cs[i + 7] == 'u') {
                            return None;
                        }
                        let g0 = exec_hex_val(cs[i + 8]);
                        let g1 = exec_hex_val(cs[i + 9]);
                        let g2 = exec_hex_val(cs[i + 10]);
                        let g3 = exec_hex_val(cs[i + 11]);
                        match (g0, g1, g2, g3) {
                            (Some(a2), Some(b2), Some(x2), Some(y2)) => {
                                let w: u32 = a2 * 4096 + b2 * 256 + x2 * 16 + y2;
                                if !(0xDC00 <= w && w <= 0xDFFF) {
                                    return None;
                                }
                                let u: u32 = 0x10000 + (v - 0xD800) * 0x400 + (w - 0xDC00);
                                proof {
                                    assert(u == surrogate_scalar(v, w));
                                    assert(is_scalar(u));
                                }
                                match char_from_u32(u) {
                                    None => {
                                        proof {
                                            assert(false);
                                        }
                                        None
                                    },
                                    Some(ch) => {
                                        proof {
                                            assert(cs@.skip(i as int).skip(12) =~= cs@.skip(
                                                i as int + 12,
                                            ));
                                        }
                                        push_char(out, ch);
                                        let rec = exec_str_body(cs, i + 12, out);
                                        match rec {
                                            None => None,
                                            Some(j) => {
                                                proof {
                                                    vstd::utf8::char_u32_cast(ch, u);
                                                    let p = parse_str_body(
                                                        cs@.skip(i as int + 12),
                                                    ).unwrap();
                                                    assert((old(out)@.push(ch)) + p.0 =~= old(out)@
                                                        + (seq![ch] + p.0));
                                                }
                                                Some(j)
                                            },
                                        }
                                    },
                                }
                            },
                            _ => None,
                        }
                    } else {
                        match char_from_u32(v) {
                            None => None,
                            Some(ch) => {
                                proof {
                                    assert(cs@.skip(i as int).skip(6) =~= cs@.skip(i as int + 6));
                                }
                                push_char(out, ch);
                                let rec = exec_str_body(cs, i + 6, out);
                                match rec {
                                    None => None,
                                    Some(j) => {
                                        proof {
                                            vstd::utf8::char_u32_cast(ch, v);
                                            let p = parse_str_body(
                                                cs@.skip(i as int + 6),
                                            ).unwrap();
                                            assert((old(out)@.push(ch)) + p.0 =~= old(out)@ + (
                                            seq![ch] + p.0));
                                        }
                                        Some(j)
                                    },
                                }
                            },
                        }
                    }
                },
                _ => None,
            }
        } else {
            match exec_esc_code(e) {
                None => None,
                Some(c0) => {
                    proof {
                        assert(cs@.skip(i as int).skip(2) =~= cs@.skip(i as int + 2));
                    }
                    push_char(out, c0);
                    let rec = exec_str_body(cs, i + 2, out);
                    match rec {
                        None => None,
                        Some(j) => {
                            proof {
                                let p = parse_str_body(cs@.skip(i as int + 2)).unwrap();
                                assert((old(out)@.push(c0)) + p.0 =~= old(out)@ + (seq![c0] + p.0));
                            }
                            Some(j)
                        },
                    }
                },
            }
        }
    } else if (c as u32) < 32 {
        None
    } else {
        proof {
            assert(cs@.skip(i as int).drop_first() =~= cs@.skip(i as int + 1));
        }
        push_char(out, c);
        let rec = exec_str_body(cs, i + 1, out);
        match rec {
            None => None,
            Some(j) => {
                proof {
                    let p = parse_str_body(cs@.skip(i as int + 1)).unwrap();
                    assert((old(out)@.push(c)) + p.0 =~= old(out)@ + (seq![c] + p.0));
                }
                Some(j)
            },
        }
    }
}

fn exec_string(cs: &Vec<char>, i: usize) -> (r: Option<(String, usize)>)
    requires
        i <= cs@.len(),
    ensures
        r matches Some(p) ==> p.1 <= cs@.len() && (parse_string(cs@.skip(i as int)) matches Some(q)
            && q.0 == p.0@ && q.1 == cs@.skip(p.1 as int)),
        r is None ==> parse_string(cs@.skip(i as int)) is None,
{
    match exec_char(cs, i, '"') {
        None => None,
        Some(j) => {
            let mut out = String::new();
            match exec_str_body(cs, j, &mut out) {
                None => None,
                Some(j2) => {
                    proof {
                        let p = parse_str_body(cs@.skip(j as int)).unwrap();
                        assert(Seq::<char>::empty() + p.0 =~= p.0);
                    }
                    Some((out, j2))
                },
            }
        },
    }
}

fn exec_num_acc(cs: &Vec<char>, i: usize, acc: u64) -> (r: Option<(u64, usize)>)
    requires
        i <= cs@.len(),
    ensures
        r matches Some(p) ==> p.1 <= cs@.len() && parse_num_acc(cs@.skip(i as int), acc) == Some(
            (p.0, cs@.skip(p.1 as int)),
        ),
        r is None ==> parse_num_acc(cs@.skip(i as int), acc) is None,
    decreases cs@.len() - i,
{
    if i < cs.len() {
        let c = cs[i];
        let cv = c as u32;
        if 48 <= cv && cv <= 57 {
            let d = (cv - 48) as u64;
            if acc <= (u64::MAX - d) / 10 {
                proof {
                    let x = (u64::MAX - d) as int;
                    vstd::arithmetic::div_mod::lemma_fundamental_div_mod(x, 10);
                    assert(10 * (acc as int) <= 10 * (x / 10)) by (nonlinear_arith)
                        requires
                            acc as int <= x / 10,
                    ;
                    assert(cs@.skip(i as int).drop_first() =~= cs@.skip(i as int + 1));
                }
                return exec_num_acc(cs, i + 1, acc * 10 + d);
            } else {
                return None;
            }
        }
    }
    Some((acc, i))
}

fn exec_num(cs: &Vec<char>, i: usize) -> (r: Option<(u64, usize)>)
    requires
        i <= cs@.len(),
    ensures
        r matches Some(p) ==> p.1 <= cs@.len() && parse_num(cs@.skip(i as int)) == Some(
            (p.0, cs@.skip(p.1 as int)),
        ),
        r is None ==> parse_num(cs@.skip(i as int)) is None,
{
    let t = exec_ws(cs, i);
    if t >= cs.len() {
        return None;
    }
    let cv = cs[t] as u32;
    if !(48 <= cv && cv <= 57) {
        return None;
    }
    if cs[t] == '0' && t + 1 < cs.len() {
        let nv = cs[t + 1] as u32;
        if 48 <= nv && nv <= 57 {
            return None;
        }
    }
    exec_num_acc(cs, t, 0)
}

fn exec_tag_to_type(tag: &String) -> (r: Option<MessageType>)
    ensures
        r == tag_to_type(tag@),
{
    if *tag == String::from_str("message") {
        Some(MessageType::Message)
    } else if *tag == String::from_str("status") {
        Some(MessageType::Status)
    } else if *tag == String::from_str("microblog") {
        Some(MessageType::Microblog)
    } else {
        None
    }
}

/// Parses a whole record from its characters.
fn exec_record(cs: &Vec<char>) -> (r: Result<Message, DecodeError>)
    ensures
        r matches Ok(m) ==> parse_record(cs@) == Ok::<MessageModel, DecodeError>(m@),
        r matches Err(e) ==> parse_record(cs@) == Err::<MessageModel, DecodeError>(e),
{
    proof {
        assert(cs@.skip(0) =~= cs@);
    }
    let mut tag: Option<String> = None;
    let mut content: Option<String> = None;
    let mut ts: Option<u64> = None;
    let mut author: Option<String> = None;
    let s1 = match exec_char(cs, 0, '{') {
        None => {
            return Err(DecodeError::Malformed);
        },
        Some(j) => j,
    };
    let r1 = match exec_field(cs, s1, &mut tag, &mut content, &mut ts, &mut author) {
        None => {
            return Err(DecodeError::Malformed);
        },
        Some(j) => j,
    };
    let s2 = match exec_char(cs, r1, ',') {
        None => {
            return Err(DecodeError::Malformed);
        },
        Some(j) => j,
    };
    let r2 = match exec_field(cs, s2, &mut tag, &mut content, &mut ts, &mut author) {
        None => {
            return Err(DecodeError::Malformed);
        },
        Some(j) => j,
    };
    let s3 = match exec_char(cs, r2, ',') {
        None => {
            return Err(DecodeError::Malformed);
        },
        Some(j) => j,
    };
    let r3 = match exec_field(cs, s3, &mut tag, &mut content, &mut ts, &mut author) {
        None => {
            return Err(DecodeError::Malformed);
        },
        Some(j) => j,
    };
    let s4 = match exec_char(cs, r3, ',') {
        None => {
            return Err(DecodeError::Malformed);
        },
        Some(j) => j,
    };
    let r4 = match exec_field(cs, s4, &mut tag, &mut content, &mut ts, &mut author) {
        None => {
            return Err(DecodeError::Malformed);
        },
        Some(j) => j,
    };
    let s5 = match exec_char(cs, r4, '}') {
        None => {
            return Err(DecodeError::Malformed);
        },
        Some(j) => j,
    };
    let e = exec_ws(cs, s5);
    if e < cs.len() {
        return Err(DecodeError::Malformed);
    }
    match (tag, content, ts, author) {
        (Some(tg), Some(ct), Some(n), Some(au)) => match exec_tag_to_type(&tg) {
            Some(k) => Ok(Message { msg_type: k, content: ct, timestamp: n, author: au }),
            None => Err(DecodeError::UnknownVariant),
        },
        _ => Err(DecodeError::Malformed),
    }
}

impl Message {
    /// Decodes wire bytes into an envelope, without validating it: a
    /// structurally well-formed record with empty or overlong content
    /// still decodes, and `validate` judges it separately.
    pub fn from_json(data: &[u8]) -> (r: Result<Self, DecodeError>)
        ensures
            r matches Ok(m) ==> decode_spec(data@) == Ok::<MessageModel, DecodeError>(m@),
            r matches Err(e) ==> decode_spec(data@) == Err::<MessageModel, DecodeError>(e),
    {
        match bytes_as_str(data) {
            None => Err(DecodeError::Malformed),
            Some(s) => {
                let cs = str_chars(s);
                exec_record(&cs)
            },
        }
    }
}

} // verus!
