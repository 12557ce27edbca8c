//! The canonical wire encoding: one JSON object with the four fields
//! `type`, `content`, `timestamp`, `author`, in that order, with the
//! standard JSON string escapes and no added whitespace.

use vstd::prelude::*;
use vstd::string::StringExecFns;
use vstd::string::StrSliceExecFns;
use vstd::utf8::encode_utf8;

use crate::message::Message;
use crate::message::MessageModel;
use crate::message::MessageType;
use crate::text::push_char;

verus! {

broadcast use vstd::string::group_string_axioms;

/// Why an encoding could fail. Encoding an envelope is total, so the one
/// variant is reserved for serialization-layer faults and is never produced.
#[derive(Debug, Clone, Copy, PartialEq, Eq, Structural)]
pub enum EncodeError {
    Unrepresentable,
}

/// The wire tag of each message kind. The conversational kind keeps its
/// historical tag `"message"`.
pub open spec fn tag_of(t: MessageType) -> Seq<char> {
    match t {
        MessageType::Message => "message"@,
        MessageType::Status => "status"@,
        MessageType::Microblog => "microblog"@,
    }
}

/// The message kind a wire tag names, if any.
pub open spec fn tag_to_type(t: Seq<char>) -> Option<MessageType> {
    if t == "message"@ {
        Some(MessageType::Message)
    } else if t == "status"@ {
        Some(MessageType::Status)
    } else if t == "microblog"@ {
        Some(MessageType::Microblog)
    } else {
        None
    }
}

/// The lowercase hexadecimal digit of a value below 16.
pub open spec fn hex_char(d: u32) -> char {
    if d < 10 {
        ((48 + d) as u8) as char
    } else {
        ((87 + d) as u8) as char
    }
}

/// How one character appears inside a JSON string literal: itself when
/// printable and unremarkable, a two-character escape for quote, backslash
/// and the common controls, and a `\u00XX` escape for the other controls.
pub open spec fn escape_char(c: char) -> Seq<char> {
    if c == '"' {
        seq!['\\', '"']
    } else if c == '\\' {
        seq!['\\', '\\']
    } else if c == '\n' {
        seq!['\\', 'n']
    } else if c == '\r' {
        seq!['\\', 'r']
    } else if c == '\t' {
        seq!['\\', 't']
    } else if c == '\u{08}' {
        seq!['\\', 'b']
    } else if c == '\u{0c}' {
        seq!['\\', 'f']
    } else if (c as u32) < 0x20 {
        seq!['\\', 'u', '0', '0', hex_char((c as u32) / 16), hex_char((c as u32) % 16)]
    } else {
        seq![c]
    }
}

/// The body of a JSON string literal holding the given text.
pub open spec fn escape(s: Seq<char>) -> Seq<char>
    decreases s.len(),
{
    if s.len() == 0 {
        Seq::empty()
    } else {
        escape_char(s[0]) + escape(s.drop_first())
    }
}

/// A JSON object key: the name between quotes.
pub open spec fn quoted(name: Seq<char>) -> Seq<char> {
    seq!['"'] + name + seq!['"']
}

/// The decimal digits of `n`, most significant first, no sign, no leading
/// zero except for the single digit of zero itself.
pub open spec fn dec_digits(n: u64) -> Seq<char>
    decreases n,
{
    if n < 10 {
        seq![((48 + n) as u8) as char]
    } else {
        dec_digits(n / 10).push(((48 + n % 10) as u8) as char)
    }
}

/// The characters of the canonical record with the given tag, texts and
/// timestamp. Grouped to the right so that each parsing step peels one
/// piece off the front.
pub open spec fn record_chars(tag: Seq<char>, content: Seq<char>, ts: u64, author: Seq<char>) -> Seq<
    char,
> {
    seq!['{'] + (quoted("type"@) + (seq![':'] + (seq!['"'] + (escape(tag) + (seq!['"'] + (seq![',']
        + (quoted("content"@) + (seq![':'] + (seq!['"'] + (escape(content) + (seq!['"'] + (seq![',']
        + (quoted("timestamp"@) + (seq![':'] + (dec_digits(ts) + (seq![','] + (quoted("author"@) + (
    seq![':'] + (seq!['"'] + (escape(author) + (seq!['"'] + seq!['}'])))))))))))))))))))))
}

/// The characters of the canonical encoding of an envelope.
pub open spec fn json_chars(m: MessageModel) -> Seq<char> {
    record_chars(tag_of(m.msg_type), m.content, m.timestamp, m.author)
}

/// The canonical encoding of an envelope: the UTF-8 bytes of its record.
pub open spec fn encode_spec(m: MessageModel) -> Seq<u8> {
    encode_utf8(json_chars(m))
}

/// Escaping distributes over concatenation.
pub proof fn lemma_escape_append(a: Seq<char>, b: Seq<char>)
    ensures
        escape(a + b) == escape(a) + escape(b),
    decreases a.len(),
{
    if a.len() == 0 {
        assert(a + b =~= b);
        assert(escape(a) + escape(b) =~= escape(b));
    } else {
        assert((a + b).drop_first() =~= a.drop_first() + b);
        lemma_escape_append(a.drop_first(), b);
        assert(escape_char((a + b)[0]) + (escape(a.drop_first()) + escape(b)) =~= (escape_char(a[0])
            + escape(a.drop_first())) + escape(b));
    }
}

/// A character that stands for itself inside a string literal.
pub open spec fn plain_char(c: char) -> bool {
    c != '"' && c != '\\' && (c as u32) >= 0x20
}

/// Text made of plain characters is its own escaped form.
pub proof fn lemma_escape_plain(s: Seq<char>)
    requires
        forall|i: int| 0 <= i < s.len() ==> plain_char(s[i]),
    ensures
        escape(s) == s,
    decreases s.len(),
{
    if s.len() == 0 {
        assert(escape(s) =~= s);
    } else {
        lemma_escape_plain(s.drop_first());
        assert(escape_char(s[0]) =~= seq![s[0]]);
        assert(seq![s[0]] + s.drop_first() =~= s);
    }
}

/// Each of the three wire tags is made of plain characters, so each is its
/// own escaped form, and each names its own kind and no other.
pub proof fn lemma_tags(t: MessageType)
    ensures
        escape(tag_of(t)) == tag_of(t),
        tag_to_type(tag_of(t)) == Some(t),
{
    reveal_strlit("message");
    reveal_strlit("status");
    reveal_strlit("microblog");
    match t {
        MessageType::Message => {
            assert(forall|i: int| 0 <= i < "message"@.len() ==> plain_char("message"@[i]));
            lemma_escape_plain("message"@);
        },
        MessageType::Status => {
            assert(forall|i: int| 0 <= i < "status"@.len() ==> plain_char("status"@[i]));
            lemma_escape_plain("status"@);
            assert("status"@ != "message"@);
        },
        MessageType::Microblog => {
            assert(forall|i: int| 0 <= i < "microblog"@.len() ==> plain_char("microblog"@[i]));
            lemma_escape_plain("microblog"@);
            assert("microblog"@ != "message"@);
            assert("microblog"@ != "status"@);
        },
    }
}

/// Appends the escaped form of one character.
fn push_escaped(out: &mut String, c: char)
    ensures
        final(out)@ == old(out)@ + escape_char(c),
{
    let v = c as u32;
    if c == '"' {
        push_char(out, '\\');
        push_char(out, '"');
        assert(final(out)@ =~= old(out)@ + escape_char(c));
    } else if c == '\\' {
        push_char(out, '\\');
        push_char(out, '\\');
        assert(final(out)@ =~= old(out)@ + escape_char(c));
    } else if c == '\n' {
        push_char(out, '\\');
        push_char(out, 'n');
        assert(final(out)@ =~= old(out)@ + escape_char(c));
    } else if c == '\r' {
        push_char(out, '\\');
        push_char(out, 'r');
        assert(final(out)@ =~= old(out)@ + escape_char(c));
    } else if c == '\t' {
        push_char(out, '\\');
        push_char(out, 't');
        assert(final(out)@ =~= old(out)@ + escape_char(c));
    } else if c == '\u{08}' {
        push_char(out, '\\');
        push_char(out, 'b');
        assert(final(out)@ =~= old(out)@ + escape_char(c));
    } else if c == '\u{0c}' {
        push_char(out, '\\');
        push_char(out, 'f');
        assert(final(out)@ =~= old(out)@ + escape_char(c));
    } else if v < 0x20 {
        push_char(out, '\\');
        push_char(out, 'u');
        push_char(out, '0');
        push_char(out, '0');
        let hi = v / 16;
        let lo = v % 16;
        let hc: char = if hi < 10 {
            ((48 + hi) as u8) as char
        } else {
            ((87 + hi) as u8) as char
        };
        let lc: char = if lo < 10 {
            ((48 + lo) as u8) as char
        } else {
            ((87 + lo) as u8) as char
        };
        push_char(out, hc);
        push_char(out, lc);
        assert(final(out)@ =~= old(out)@ + escape_char(c));
    } else {
        push_char(out, c);
        assert(final(out)@ =~= old(out)@ + escape_char(c));
    }
}

/// Appends the escaped body of a string literal holding `s`.
fn push_escaped_str(out: &mut String, s: &str)
    ensures
        final(out)@ == old(out)@ + escape(s@),
{
    let n = s.unicode_len();
    let mut i: usize = 0;
    while i < n
        invariant
            n == s@.len(),
            0 <= i <= n,
            out@ == old(out)@ + escape(s@.take(i as int)),
        decreases n - i,
    {
        let c = s.get_char(i);
        proof {
            lemma_escape_append(s@.take(i as int), seq![c]);
            assert(s@.take(i as int) + seq![c] =~= s@.take(i as int + 1));
            assert(seq![c].drop_first() =~= Seq::<char>::empty());
            assert(escape(Seq::<char>::empty()) =~= Seq::<char>::empty());
            assert(escape_char(c) + Seq::<char>::empty() =~= escape_char(c));
            assert(escape(seq![c]) == escape_char(c));
        }
        push_escaped(out, c);
        proof {
            assert((old(out)@ + escape(s@.take(i as int))) + escape_char(c) =~= old(out)@ + escape(
                s@.take(i as int + 1),
            ));
        }
        i = i + 1;
    }
    proof {
        assert(s@.take(n as int) =~= s@);
    }
}

/// Appends the decimal digits of `n`.
fn push_digits(out: &mut String, n: u64)
    ensures
        final(out)@ == old(out)@ + dec_digits(n),
    decreases n,
{
    if n < 10 {
        push_char(out, ((48 + n) as u8) as char);
        assert(final(out)@ =~= old(out)@ + dec_digits(n));
    } else {
        push_digits(out, n / 10);
        push_char(out, ((48 + n % 10) as u8) as char);
        assert(final(out)@ =~= old(out)@ + dec_digits(n));
    }
}

/// Appends a full quoted string literal holding `s`.
fn push_string_lit(out: &mut String, s: &str)
    ensures
        final(out)@ == old(out)@ + (seq!['"'] + (escape(s@) + seq!['"'])),
{
    push_char(out, '"');
    push_escaped_str(out, s);
    push_char(out, '"');
    assert(final(out)@ =~= old(out)@ + (seq!['"'] + (escape(s@) + seq!['"'])));
}

/// Appends `"name":` for a field name.
fn push_key(out: &mut String, name: &str)
    ensures
        final(out)@ == old(out)@ + (quoted(name@) + seq![':']),
{
    push_char(out, '"');
    out.append(name);
    push_char(out, '"');
    push_char(out, ':');
    assert(final(out)@ =~= old(out)@ + (quoted(name@) + seq![':']));
}

impl Message {
    /// Encodes the envelope to its canonical bytes. Total — every envelope,
    /// valid or not, has an encoding — so the error case never occurs.
    #[verifier::rlimit(100)]
    pub fn to_json(&self) -> (r: Result<Vec<u8>, EncodeError>)
        ensures
            r matches Ok(bytes) && bytes@ == encode_spec(self@),
    {
        let mut out = String::new();
        push_char(&mut out, '{');
        push_key(&mut out, "type");
        let tag: &str = match self.msg_type {
            MessageType::Message => "message",
            MessageType::Status => "status",
            MessageType::Microblog => "microblog",
        };
        push_string_lit(&mut out, tag);
        push_char(&mut out, ',');
        push_key(&mut out, "content");
        push_string_lit(&mut out, self.content.as_str());
        push_char(&mut out, ',');
        push_key(&mut out, "timestamp");
        push_digits(&mut out, self.timestamp);
        push_char(&mut out, ',');
        push_key(&mut out, "author");
        push_string_lit(&mut out, self.author.as_str());
        push_char(&mut out, '}');
        proof {
            lemma_tags(self.msg_type);
            assert(out@ =~= json_chars(self@));
        }
        Ok(out.as_str().as_bytes_vec())
    }
}

} // verus!
