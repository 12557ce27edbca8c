//! The laws of the codec, proved once and for all: a canonical record
//! always parses back to the fields it was built from, so decoding an
//! encoding returns the original envelope, and a well-formed record with
//! an unrecognized tag is rejected as such.

use vstd::prelude::*;
use vstd::utf8::encode_utf8;
use vstd::utf8::encode_utf8_decode_utf8;
use vstd::utf8::encode_utf8_valid_utf8;

use crate::message::MessageModel;
use crate::message::ValidationError;
use crate::message::validate_spec;
use crate::parse::DecodeError;
use crate::parse::decode_spec;
use crate::parse::escape_code;
use crate::parse::hex_val;
use crate::parse::is_digit;
use crate::parse::is_hex_digit;
use crate::parse::is_ws;
use crate::parse::parse_char;
use crate::parse::parse_field;
use crate::parse::partial_empty;
use crate::parse::Partial;
use crate::parse::parse_num;
use crate::parse::parse_num_acc;
use crate::parse::parse_record;
use crate::parse::parse_str_body;
use crate::parse::parse_string;
use crate::parse::ws_trim;
use crate::wire::dec_digits;
use crate::wire::encode_spec;
use crate::wire::escape;
use crate::wire::escape_char;
use crate::wire::hex_char;
use crate::wire::json_chars;
use crate::wire::lemma_escape_plain;
use crate::wire::lemma_tags;
use crate::wire::plain_char;
use crate::wire::quoted;
use crate::wire::record_chars;
use crate::wire::tag_of;
use crate::wire::tag_to_type;

verus! {

proof fn lemma_parse_char_exact(c: char, rest: Seq<char>)
    requires
        !is_ws(c),
    ensures
        parse_char(seq![c] + rest, c) == Some(rest),
{
    let s = seq![c] + rest;
    assert(s[0] == c);
    assert(ws_trim(s) == s);
    assert(s.drop_first() =~= rest);
}

/// Each of the four field names is made of plain characters, so each is
/// its own escaped form.
proof fn lemma_keys_plain()
    ensures
        escape("type"@) == "type"@,
        escape("content"@) == "content"@,
        escape("timestamp"@) == "timestamp"@,
        escape("author"@) == "author"@,
{
    reveal_strlit("type");
    reveal_strlit("content");
    reveal_strlit("timestamp");
    reveal_strlit("author");
    assert(forall|i: int| 0 <= i < "type"@.len() ==> plain_char("type"@[i]));
    lemma_escape_plain("type"@);
    assert(forall|i: int| 0 <= i < "content"@.len() ==> plain_char("content"@[i]));
    lemma_escape_plain("content"@);
    assert(forall|i: int| 0 <= i < "timestamp"@.len() ==> plain_char("timestamp"@[i]));
    lemma_escape_plain("timestamp"@);
    assert(forall|i: int| 0 <= i < "author"@.len() ==> plain_char("author"@[i]));
    lemma_escape_plain("author"@);
}

/// A canonical member opening: the quoted key and its colon parse to the
/// key's name and leave the value.
proof fn lemma_key_colon(name: Seq<char>, rest: Seq<char>)
    requires
        escape(name) == name,
    ensures
        parse_string(quoted(name) + (seq![':'] + rest)) == Some((name, seq![':'] + rest)),
        parse_char(seq![':'] + rest, ':') == Some(rest),
{
    let s = quoted(name) + (seq![':'] + rest);
    assert(s =~= seq!['"'] + (name + (seq!['"'] + (seq![':'] + rest))));
    lemma_parse_char_exact('"', name + (seq!['"'] + (seq![':'] + rest)));
    lemma_parse_body_escape(name, seq![':'] + rest);
    lemma_parse_char_exact(':', rest);
}

proof fn lemma_hex(d: u32)
    requires
        d < 16,
    ensures
        is_hex_digit(hex_char(d)),
        hex_val(hex_char(d)) == d,
{
}

/// The escaped body of a string literal parses back to the text it was
/// built from, leaving whatever follows the closing quote.
proof fn lemma_parse_body_escape(t: Seq<char>, rest: Seq<char>)
    ensures
        parse_str_body(escape(t) + (seq!['"'] + rest)) == Some((t, rest)),
    decreases t.len(),
{
    let s = escape(t) + (seq!['"'] + rest);
    if t.len() == 0 {
        assert(escape(t) =~= Seq::<char>::empty());
        assert(s =~= seq!['"'] + rest);
        assert(s[0] == '"');
        assert(s.drop_first() =~= rest);
        assert(t =~= Seq::<char>::empty());
    } else {
        let c = t[0];
        let t2 = t.drop_first();
        let tail = escape(t2) + (seq!['"'] + rest);
        lemma_parse_body_escape(t2, rest);
        assert(s =~= escape_char(c) + tail);
        assert(seq![c] + t2 =~= t);
        if c == '"' || c == '\\' || c == '\n' || c == '\r' || c == '\t' || c == '\u{08}' || c
            == '\u{0c}' {
            assert(s[0] == '\\');
            assert(s.skip(2) =~= tail);
            assert(escape_code(s[1]) == Some(c));
        } else if (c as u32) < 0x20 {
            let v = c as u32;
            vstd::arithmetic::div_mod::lemma_fundamental_div_mod(v as int, 16);
            lemma_hex(v / 16);
            lemma_hex(v % 16);
            assert(s[0] == '\\');
            assert(s[1] == 'u');
            assert(s[2] == '0');
            assert(s[3] == '0');
            assert(s[4] == hex_char(v / 16));
            assert(s[5] == hex_char(v % 16));
            assert(hex_val(s[2]) * 4096 + hex_val(s[3]) * 256 + hex_val(s[4]) * 16 + hex_val(s[5])
                == v);
            vstd::utf8::char_u32_cast(c, v);
            assert(s.skip(6) =~= tail);
        } else {
            assert(s[0] == c);
            assert(s.drop_first() =~= tail);
        }
    }
}

/// The value a digit sequence accumulates onto `acc`, as the parser reads
/// it left to right.
spec fn digits_val(ds: Seq<char>, acc: int) -> int
    decreases ds.len(),
{
    if ds.len() == 0 {
        acc
    } else {
        digits_val(ds.drop_first(), acc * 10 + (ds[0] as u32 - 48))
    }
}

proof fn lemma_digits_val_ge(ds: Seq<char>, acc: int)
    requires
        acc >= 0,
        forall|i: int| 0 <= i < ds.len() ==> is_digit(ds[i]),
    ensures
        digits_val(ds, acc) >= acc,
    decreases ds.len(),
{
    if ds.len() > 0 {
        let d = ds[0] as u32 - 48;
        lemma_digits_val_ge(ds.drop_first(), acc * 10 + d);
    }
}

proof fn lemma_digits_val_push(ds: Seq<char>, x: char, acc: int)
    ensures
        digits_val(ds.push(x), acc) == digits_val(ds, acc) * 10 + (x as u32 - 48),
    decreases ds.len(),
{
    if ds.len() == 0 {
        assert(ds.push(x).drop_first() =~= Seq::<char>::empty());
        assert(ds.push(x)[0] == x);
        assert(digits_val(Seq::<char>::empty(), acc * 10 + (x as u32 - 48)) == acc * 10 + (
        x as u32 - 48));
    } else {
        assert(ds.push(x).drop_first() =~= ds.drop_first().push(x));
        assert(ds.push(x)[0] == ds[0]);
        lemma_digits_val_push(ds.drop_first(), x, acc * 10 + (ds[0] as u32 - 48));
    }
}

proof fn lemma_dec_digits_all(n: u64)
    ensures
        dec_digits(n).len() >= 1,
        forall|i: int| 0 <= i < dec_digits(n).len() ==> is_digit(#[trigger] dec_digits(n)[i]),
    decreases n,
{
    if n < 10 {
        assert(dec_digits(n)[0] == ((48 + n) as u8) as char);
    } else {
        lemma_dec_digits_all(n / 10);
        let ds = dec_digits(n / 10);
        let x = ((48 + n % 10) as u8) as char;
        assert(forall|i: int| 0 <= i < ds.len() ==> ds.push(x)[i] == ds[i]);
        assert(ds.push(x)[ds.len() as int] == x);
    }
}

proof fn lemma_digits_val_of_dec(n: u64)
    ensures
        digits_val(dec_digits(n), 0) == n,
    decreases n,
{
    if n < 10 {
        let x = ((48 + n) as u8) as char;
        assert(dec_digits(n) =~= seq![x]);
        assert(seq![x].drop_first() =~= Seq::<char>::empty());
        assert(digits_val(Seq::<char>::empty(), x as u32 - 48) == x as u32 - 48);
        assert(digits_val(seq![x], 0) == x as u32 - 48);
    } else {
        lemma_digits_val_of_dec(n / 10);
        let x = ((48 + n % 10) as u8) as char;
        lemma_digits_val_push(dec_digits(n / 10), x, 0);
        vstd::arithmetic::div_mod::lemma_fundamental_div_mod(n as int, 10);
    }
}

proof fn lemma_parse_acc(ds: Seq<char>, rest: Seq<char>, acc: u64)
    requires
        forall|i: int| 0 <= i < ds.len() ==> is_digit(#[trigger] ds[i]),
        rest.len() == 0 || !is_digit(rest[0]),
        digits_val(ds, acc as int) <= u64::MAX,
    ensures
        parse_num_acc(ds + rest, acc) == Some((digits_val(ds, acc as int) as u64, rest)),
    decreases ds.len(),
{
    let s = ds + rest;
    if ds.len() == 0 {
        assert(s =~= rest);
    } else {
        assert(s[0] == ds[0]);
        let d = (ds[0] as u32 - 48) as u64;
        let acc2 = acc as int * 10 + d;
        lemma_digits_val_ge(ds.drop_first(), acc2);
        let x = (u64::MAX - d) as int;
        vstd::arithmetic::div_mod::lemma_fundamental_div_mod(x, 10);
        assert(acc as int <= x / 10) by (nonlinear_arith)
            requires
                10 * (acc as int) + (d as int) <= u64::MAX as int,
                x == (u64::MAX - d) as int,
                x == 10 * (x / 10) + x % 10,
                0 <= x % 10 < 10,
        ;
        assert(s.drop_first() =~= ds.drop_first() + rest);
        lemma_parse_acc(ds.drop_first(), rest, acc2 as u64);
    }
}

/// The canonical digits of a positive number do not start with zero.
proof fn lemma_dec_digits_lead(n: u64)
    requires
        n > 0,
    ensures
        dec_digits(n)[0] != '0',
    decreases n,
{
    if n < 10 {
        assert(dec_digits(n)[0] == ((48 + n) as u8) as char);
    } else {
        lemma_dec_digits_all(n / 10);
        lemma_dec_digits_lead(n / 10);
        assert(dec_digits(n)[0] == dec_digits(n / 10)[0]);
    }
}

proof fn lemma_parse_num_exact(n: u64, rest: Seq<char>)
    requires
        rest.len() == 0 || !is_digit(rest[0]),
    ensures
        parse_num(dec_digits(n) + rest) == Some((n, rest)),
{
    lemma_dec_digits_all(n);
    lemma_digits_val_of_dec(n);
    let s = dec_digits(n) + rest;
    assert(s[0] == dec_digits(n)[0]);
    assert(!is_ws(s[0]));
    assert(ws_trim(s) == s);
    if n == 0 {
        assert(dec_digits(0) =~= seq!['0']);
        assert(s.len() > 1 ==> s[1] == rest[0]);
    } else {
        lemma_dec_digits_lead(n);
        assert(s[0] != '0');
    }
    lemma_parse_acc(dec_digits(n), rest, 0);
}

/// A canonical record parses to exactly the fields it was built from:
/// the envelope when the tag names a kind, `UnknownVariant` otherwise.
#[verifier::rlimit(100)]
pub proof fn lemma_parse_record_canonical(
    tag: Seq<char>,
    content: Seq<char>,
    ts: u64,
    author: Seq<char>,
)
    ensures
        parse_record(record_chars(tag, content, ts, author)) == (match tag_to_type(tag) {
            Some(k) => Ok::<MessageModel, DecodeError>(
                MessageModel { msg_type: k, content, timestamp: ts, author },
            ),
            None => Err::<MessageModel, DecodeError>(DecodeError::UnknownVariant),
        }),
{
    let r12: Seq<char> = seq!['}'];
    let r11 = seq!['"'] + (escape(author) + (seq!['"'] + r12));
    let r10 = quoted("author"@) + (seq![':'] + r11);
    let r9 = seq![','] + r10;
    let r8 = dec_digits(ts) + r9;
    let r7 = quoted("timestamp"@) + (seq![':'] + r8);
    let r6 = seq![','] + r7;
    let r5 = seq!['"'] + (escape(content) + (seq!['"'] + r6));
    let r4 = quoted("content"@) + (seq![':'] + r5);
    let r3 = seq![','] + r4;
    let r2 = seq!['"'] + (escape(tag) + (seq!['"'] + r3));
    let r1 = quoted("type"@) + (seq![':'] + r2);
    let s = seq!['{'] + r1;
    assert(record_chars(tag, content, ts, author) == s);

    reveal_strlit("type");
    reveal_strlit("content");
    reveal_strlit("timestamp");
    reveal_strlit("author");
    lemma_keys_plain();

    lemma_parse_char_exact('{', r1);

    lemma_key_colon("type"@, r2);
    lemma_parse_char_exact('"', escape(tag) + (seq!['"'] + r3));
    lemma_parse_body_escape(tag, r3);
    assert(parse_string(r2) == Some((tag, r3)));
    let p1 = Partial { tag: Some(tag), content: None, timestamp: None, author: None };
    assert(parse_field(r1, partial_empty()) == Some((p1, r3)));

    lemma_parse_char_exact(',', r4);

    lemma_key_colon("content"@, r5);
    lemma_parse_char_exact('"', escape(content) + (seq!['"'] + r6));
    lemma_parse_body_escape(content, r6);
    assert(parse_string(r5) == Some((content, r6)));
    assert("content"@ != "type"@);
    let p2 = Partial { tag: Some(tag), content: Some(content), timestamp: None, author: None };
    assert(parse_field(r4, p1) == Some((p2, r6)));

    lemma_parse_char_exact(',', r7);

    lemma_key_colon("timestamp"@, r8);
    assert(r9[0] == ',');
    assert(!is_digit(r9[0]));
    lemma_parse_num_exact(ts, r9);
    assert("timestamp"@ != "type"@);
    assert("timestamp"@ != "content"@);
    let p3 = Partial {
        tag: Some(tag),
        content: Some(content),
        timestamp: Some(ts),
        author: None,
    };
    assert(parse_field(r7, p2) == Some((p3, r9)));

    lemma_parse_char_exact(',', r10);

    lemma_key_colon("author"@, r11);
    lemma_parse_char_exact('"', escape(author) + (seq!['"'] + r12));
    lemma_parse_body_escape(author, r12);
    assert(parse_string(r11) == Some((author, r12)));
    assert("author"@ != "type"@);
    assert("author"@ != "content"@);
    assert("author"@ != "timestamp"@);
    let p4 = Partial {
        tag: Some(tag),
        content: Some(content),
        timestamp: Some(ts),
        author: Some(author),
    };
    assert(parse_field(r10, p3) == Some((p4, r12)));

    assert(r12 =~= seq!['}'] + Seq::<char>::empty());
    lemma_parse_char_exact('}', Seq::<char>::empty());
    assert(ws_trim(Seq::<char>::empty()).len() == 0);
}

/// Round trip: decoding the canonical encoding of any envelope — valid or
/// not — returns that envelope, equal in every field.
pub proof fn lemma_round_trip(m: MessageModel)
    ensures
        decode_spec(encode_spec(m)) == Ok::<MessageModel, DecodeError>(m),
{
    let jc = json_chars(m);
    encode_utf8_valid_utf8(jc);
    encode_utf8_decode_utf8(jc);
    lemma_tags(m.msg_type);
    lemma_parse_record_canonical(tag_of(m.msg_type), m.content, m.timestamp, m.author);
    assert(MessageModel {
        msg_type: m.msg_type,
        content: m.content,
        timestamp: m.timestamp,
        author: m.author,
    } =~= m);
}

/// A well-formed record whose type tag names no kind — however its other
/// fields read — decodes to `UnknownVariant`, not to an envelope.
pub proof fn lemma_decode_rejects_unknown_tag(
    tag: Seq<char>,
    content: Seq<char>,
    ts: u64,
    author: Seq<char>,
)
    requires
        tag_to_type(tag) is None,
    ensures
        decode_spec(encode_utf8(record_chars(tag, content, ts, author))) == Err::<
            MessageModel,
            DecodeError,
        >(DecodeError::UnknownVariant),
{
    let rc = record_chars(tag, content, ts, author);
    encode_utf8_valid_utf8(rc);
    encode_utf8_decode_utf8(rc);
    lemma_parse_record_canonical(tag, content, ts, author);
}

/// Tag mapping: a conversational envelope encodes under the wire tag
/// `"message"`, a status one under `"status"`, a microblog one under
/// `"microblog"`.
pub proof fn lemma_tag_mapping(m: MessageModel)
    ensures
        m.msg_type is Message ==> json_chars(m) == record_chars(
            "message"@,
            m.content,
            m.timestamp,
            m.author,
        ),
        m.msg_type is Status ==> json_chars(m) == record_chars(
            "status"@,
            m.content,
            m.timestamp,
            m.author,
        ),
        m.msg_type is Microblog ==> json_chars(m) == record_chars(
            "microblog"@,
            m.content,
            m.timestamp,
            m.author,
        ),
{
}

/// Empty content fails validation with `EmptyContent`, whatever the kind
/// and before any length rule is consulted.
pub proof fn lemma_empty_content(m: MessageModel)
    requires
        m.content.len() == 0,
    ensures
        validate_spec(m) == Err::<(), ValidationError>(ValidationError::EmptyContent),
{
}

/// The microblog boundary: 280 code points of content validate, one more
/// fails with `MicroblogTooLong`.
pub proof fn lemma_microblog_boundary(m: MessageModel)
    requires
        m.msg_type is Microblog,
    ensures
        1 <= m.content.len() <= 280 ==> validate_spec(m) == Ok::<(), ValidationError>(()),
        m.content.len() > 280 ==> validate_spec(m) == Err::<(), ValidationError>(
            ValidationError::MicroblogTooLong,
        ),
{
}

} // verus!
