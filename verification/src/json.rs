use vstd::prelude::*;
use vstd::string::*;

use crate::message::{ChatMessage, ChatMessageView, type_code};

verus! {

/// The error type of `serde_json`, carried through opaquely.
#[verifier::external_type_specification]
#[verifier::external_body]
pub struct ExJsonError(serde_json::Error);

/// Encodes a string as a JSON string literal with `serde_json::to_string`.
/// Trusted: writing into memory never fails, and the literal is the
/// characters between double quotes, with the quote, the backslash and every
/// control character below 0x20 escaped as `serde_json` escapes them.
#[verifier::external_body]
pub(crate) fn json_string(s: &str) -> (r: Result<String, serde_json::Error>)
    ensures
        match r {
            Ok(t) => t@ == json_quoted(s@),
            Err(_) => false,
        },
{
    serde_json::to_string(s)
}

/// The lowercase hexadecimal digit of a number below 16.
pub open spec fn hex_digit(d: int) -> char {
    if d < 10 { digit_char(d) }
    else if d == 10 { 'a' }
    else if d == 11 { 'b' }
    else if d == 12 { 'c' }
    else if d == 13 { 'd' }
    else if d == 14 { 'e' }
    else { 'f' }
}

/// How one character stands inside a JSON string literal.
pub open spec fn escaped_char(c: char) -> Seq<char> {
    if c == '"' { seq!['\\', '"'] }
    else if c == '\\' { seq!['\\', '\\'] }
    else if c == '\u{8}' { seq!['\\', 'b'] }
    else if c == '\t' { seq!['\\', 't'] }
    else if c == '\n' { seq!['\\', 'n'] }
    else if c == '\u{c}' { seq!['\\', 'f'] }
    else if c == '\r' { seq!['\\', 'r'] }
    else if (c as u32) < 0x20 {
        seq!['\\', 'u', '0', '0', hex_digit((c as int) / 16), hex_digit((c as int) % 16)]
    } else {
        seq![c]
    }
}

/// The characters of a string as they stand inside a JSON string literal.
pub open spec fn escaped(s: Seq<char>) -> Seq<char>
    decreases s.len(),
{
    if s.len() == 0 {
        Seq::empty()
    } else {
        escaped(s.drop_last()) + escaped_char(s.last())
    }
}

/// The JSON string literal of a string.
pub open spec fn json_quoted(s: Seq<char>) -> Seq<char> {
    seq!['"'] + escaped(s) + seq!['"']
}

/// The character of a decimal digit.
pub open spec fn digit_char(d: int) -> char {
    if d == 0 { '0' }
    else if d == 1 { '1' }
    else if d == 2 { '2' }
    else if d == 3 { '3' }
    else if d == 4 { '4' }
    else if d == 5 { '5' }
    else if d == 6 { '6' }
    else if d == 7 { '7' }
    else if d == 8 { '8' }
    else { '9' }
}

/// The decimal notation of a natural number, without sign or leading zeros:
/// how JSON writes an unsigned integer.
pub open spec fn decimal(n: nat) -> Seq<char>
    decreases n,
{
    if n < 10 {
        seq![digit_char(n as int)]
    } else {
        decimal(n / 10) + seq![digit_char((n % 10) as int)]
    }
}

fn digit_text(d: u64) -> (r: &'static str)
    requires
        d < 10,
    ensures
        r@ == seq![digit_char(d as int)],
{
    if d == 0 {
        proof { reveal_strlit("0"); }
        "0"
    } else if d == 1 {
        proof { reveal_strlit("1"); }
        "1"
    } else if d == 2 {
        proof { reveal_strlit("2"); }
        "2"
    } else if d == 3 {
        proof { reveal_strlit("3"); }
        "3"
    } else if d == 4 {
        proof { reveal_strlit("4"); }
        "4"
    } else if d == 5 {
        proof { reveal_strlit("5"); }
        "5"
    } else if d == 6 {
        proof { reveal_strlit("6"); }
        "6"
    } else if d == 7 {
        proof { reveal_strlit("7"); }
        "7"
    } else if d == 8 {
        proof { reveal_strlit("8"); }
        "8"
    } else {
        proof { reveal_strlit("9"); }
        "9"
    }
}

/// The decimal notation of `n`, as JSON writes it.
pub fn decimal_text(n: u64) -> (r: String)
    ensures
        r@ == decimal(n as nat),
    decreases n,
{
    if n < 10 {
        String::from_str(digit_text(n))
    } else {
        let mut s = decimal_text(n / 10);
        s.append(digit_text(n % 10));
        s
    }
}

/// The JSON line of a chat message, given the JSON literals of its two
/// string fields: the fields in declaration order under their wire names,
/// no spaces, and a closing newline.
pub open spec fn chat_json_frame(m: ChatMessageView, sender_json: Seq<char>, content_json: Seq<char>) -> Seq<char> {
    "{\"sendId\":"@ + decimal(m.send_id as nat)
        + ",\"recvId\":"@ + decimal(m.recv_id as nat)
        + ",\"type\":"@ + decimal(type_code(m.msg_type) as nat)
        + ",\"clusterId\":"@ + decimal(m.cluster_id as nat)
        + ",\"sender\":"@ + sender_json
        + ",\"content\":"@ + content_json
        + "}\n"@
}

/// The line a client receives for a message: its JSON form and a newline.
pub open spec fn chat_json(m: ChatMessageView) -> Seq<char> {
    chat_json_frame(m, json_quoted(m.sender), json_quoted(m.content))
}

/// Builds the JSON line of `m` around the already encoded string fields.
pub fn assemble_chat_json(m: &ChatMessage, sender_json: &str, content_json: &str) -> (r: String)
    ensures
        r@ == chat_json_frame(m@, sender_json@, content_json@),
{
    let mut out = String::from_str("{\"sendId\":");
    let t = decimal_text(m.send_id);
    out.append(t.as_str());
    out.append(",\"recvId\":");
    let t = decimal_text(m.recv_id);
    out.append(t.as_str());
    out.append(",\"type\":");
    let t = decimal_text(m.msg_type.to_u8() as u64);
    out.append(t.as_str());
    out.append(",\"clusterId\":");
    let t = decimal_text(m.cluster_id);
    out.append(t.as_str());
    out.append(",\"sender\":");
    out.append(sender_json);
    out.append(",\"content\":");
    out.append(content_json);
    out.append("}\n");
    out
}

/// Characters free of line breaks stay so when joined.
pub(crate) proof fn lemma_no_newline_add(a: Seq<char>, b: Seq<char>)
    requires
        !a.contains('\n'),
        !b.contains('\n'),
    ensures
        !(a + b).contains('\n'),
{
    assert forall|i: int| 0 <= i < (a + b).len() implies (a + b)[i] != '\n' by {
        if i < a.len() {
            assert((a + b)[i] == a[i]);
        } else {
            assert((a + b)[i] == b[i - a.len()]);
        }
    }
}

pub(crate) proof fn lemma_decimal_no_newline(n: nat)
    ensures
        !decimal(n).contains('\n'),
    decreases n,
{
    if n >= 10 {
        lemma_decimal_no_newline(n / 10);
        lemma_no_newline_add(decimal(n / 10), seq![digit_char((n % 10) as int)]);
    }
}

proof fn lemma_escaped_char_no_newline(c: char)
    ensures
        !escaped_char(c).contains('\n'),
{
    let e = escaped_char(c);
    if c == '"' || c == '\\' || c == '\u{8}' || c == '\t' || c == '\n' || c == '\u{c}' || c == '\r' {
        assert(e.len() == 2 && e[0] == '\\' && e[1] != '\n');
        assert forall|i: int| 0 <= i < e.len() implies e[i] != '\n' by {}
    } else if (c as u32) < 0x20 {
        let hi = hex_digit((c as int) / 16);
        let lo = hex_digit((c as int) % 16);
        assert(hi != '\n' && lo != '\n');
        assert(e =~= seq!['\\', 'u', '0', '0', hi, lo]);
        assert forall|i: int| 0 <= i < e.len() implies e[i] != '\n' by {}
    } else {
        assert(('\n' as u32) == 10);
        assert(e =~= seq![c]);
        assert(c != '\n');
        assert forall|i: int| 0 <= i < e.len() implies e[i] != '\n' by {}
    }
}

pub(crate) proof fn lemma_escaped_no_newline(s: Seq<char>)
    ensures
        !escaped(s).contains('\n'),
    decreases s.len(),
{
    if s.len() > 0 {
        lemma_escaped_no_newline(s.drop_last());
        lemma_escaped_char_no_newline(s.last());
        lemma_no_newline_add(escaped(s.drop_last()), escaped_char(s.last()));
    }
}

/// A JSON string literal holds no line break.
pub(crate) proof fn lemma_quoted_no_newline(s: Seq<char>)
    ensures
        !json_quoted(s).contains('\n'),
{
    lemma_escaped_no_newline(s);
    lemma_no_newline_add(seq!['"'], escaped(s));
    lemma_no_newline_add(seq!['"'] + escaped(s), seq!['"']);
}

/// The JSON line of a message opens with a brace and ends with its only
/// line break.
pub(crate) proof fn lemma_frame_one_line(m: ChatMessageView, sender_json: Seq<char>, content_json: Seq<char>)
    requires
        !sender_json.contains('\n'),
        !content_json.contains('\n'),
    ensures
        chat_json_frame(m, sender_json, content_json)[0] == '{',
        chat_json_frame(m, sender_json, content_json).last() == '\n',
        !chat_json_frame(m, sender_json, content_json).drop_last().contains('\n'),
{
    reveal_strlit("{\"sendId\":");
    reveal_strlit(",\"recvId\":");
    reveal_strlit(",\"type\":");
    reveal_strlit(",\"clusterId\":");
    reveal_strlit(",\"sender\":");
    reveal_strlit(",\"content\":");
    reveal_strlit("}\n");
    lemma_decimal_no_newline(m.send_id as nat);
    lemma_decimal_no_newline(m.recv_id as nat);
    lemma_decimal_no_newline(type_code(m.msg_type) as nat);
    lemma_decimal_no_newline(m.cluster_id as nat);
    let p1 = "{\"sendId\":"@;
    let p2 = ",\"recvId\":"@;
    let p3 = ",\"type\":"@;
    let p4 = ",\"clusterId\":"@;
    let p5 = ",\"sender\":"@;
    let p6 = ",\"content\":"@;
    assert(!p1.contains('\n'));
    assert(!p2.contains('\n'));
    assert(!p3.contains('\n'));
    assert(!p4.contains('\n'));
    assert(!p5.contains('\n'));
    assert(!p6.contains('\n'));
    let x1 = p1 + decimal(m.send_id as nat);
    lemma_no_newline_add(p1, decimal(m.send_id as nat));
    let x2 = x1 + p2;
    lemma_no_newline_add(x1, p2);
    let x3 = x2 + decimal(m.recv_id as nat);
    lemma_no_newline_add(x2, decimal(m.recv_id as nat));
    let x4 = x3 + p3;
    lemma_no_newline_add(x3, p3);
    let x5 = x4 + decimal(type_code(m.msg_type) as nat);
    lemma_no_newline_add(x4, decimal(type_code(m.msg_type) as nat));
    let x6 = x5 + p4;
    lemma_no_newline_add(x5, p4);
    let x7 = x6 + decimal(m.cluster_id as nat);
    lemma_no_newline_add(x6, decimal(m.cluster_id as nat));
    let x8 = x7 + p5;
    lemma_no_newline_add(x7, p5);
    let x9 = x8 + sender_json;
    lemma_no_newline_add(x8, sender_json);
    let x10 = x9 + p6;
    lemma_no_newline_add(x9, p6);
    let x11 = x10 + content_json;
    lemma_no_newline_add(x10, content_json);
    let x12 = x11 + seq!['}'];
    lemma_no_newline_add(x11, seq!['}']);
    let f = chat_json_frame(m, sender_json, content_json);
    assert(f =~= x12.push('\n'));
    assert(f.drop_last() =~= x12);
    assert(f[0] == '{') by {
        assert(x1[0] == p1[0]);
    }
}

} // verus!
