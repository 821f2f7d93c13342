use vstd::prelude::*;

use crate::chunk::{ChatRequest, Message, MessageModel, Role};
use crate::text::push_char;

verus! {

// The request body of one turn is the JSON object
// `{"message":<string>,"history":[{"role":...,"content":...},...]}`.
// Message ids are a local concern and are never serialized.

/// The lowercase hex digit for a value below sixteen.
pub open spec fn hex_digit(d: int) -> char {
    if d == 0 {
        '0'
    } else if d == 1 {
        '1'
    } else if d == 2 {
        '2'
    } else if d == 3 {
        '3'
    } else if d == 4 {
        '4'
    } else if d == 5 {
        '5'
    } else if d == 6 {
        '6'
    } else if d == 7 {
        '7'
    } else if d == 8 {
        '8'
    } else if d == 9 {
        '9'
    } else if d == 10 {
        'a'
    } else if d == 11 {
        'b'
    } else if d == 12 {
        'c'
    } else if d == 13 {
        'd'
    } else if d == 14 {
        'e'
    } else {
        'f'
    }
}

fn hex_digit_exec(d: u32) -> (c: char)
    requires
        d < 16,
    ensures
        c == hex_digit(d as int),
{
    if d == 0 {
        '0'
    } else if d == 1 {
        '1'
    } else if d == 2 {
        '2'
    } else if d == 3 {
        '3'
    } else if d == 4 {
        '4'
    } else if d == 5 {
        '5'
    } else if d == 6 {
        '6'
    } else if d == 7 {
        '7'
    } else if d == 8 {
        '8'
    } else if d == 9 {
        '9'
    } else if d == 10 {
        'a'
    } else if d == 11 {
        'b'
    } else if d == 12 {
        'c'
    } else if d == 13 {
        'd'
    } else if d == 14 {
        'e'
    } else {
        'f'
    }
}

/// How one character is written inside a JSON string literal: quote and
/// backslash are escaped, control characters take their short escape or
/// the `\u00` form with lowercase hex digits, all else stands as is.
pub open spec fn esc_char(c: char) -> Seq<char> {
    if c == '"' {
        seq!['\\', '"']
    } else if c == '\\' {
        seq!['\\', '\\']
    } else if c == '\u{8}' {
        seq!['\\', 'b']
    } else if c == '\t' {
        seq!['\\', 't']
    } else if c == '\n' {
        seq!['\\', 'n']
    } else if c == '\u{c}' {
        seq!['\\', 'f']
    } else if c == '\r' {
        seq!['\\', 'r']
    } else if (c as u32) < 0x20 {
        seq!['\\', 'u', '0', '0', hex_digit((c as u32) as int / 16), hex_digit((c as u32) as int % 16)]
    } else {
        seq![c]
    }
}

/// The body of a JSON string literal: every character escaped in order.
pub open spec fn json_escape(s: Seq<char>) -> Seq<char>
    decreases s.len(),
{
    if s.len() == 0 {
        Seq::empty()
    } else {
        json_escape(s.drop_last()) + esc_char(s.last())
    }
}

/// The JSON string literal for `s`.
pub open spec fn json_string(s: Seq<char>) -> Seq<char> {
    seq!['"'] + json_escape(s) + seq!['"']
}

fn esc_char_exec(c: char) -> (v: Vec<char>)
    ensures
        v@ == esc_char(c),
{
    let mut v: Vec<char> = Vec::new();
    if c == '"' {
        v.push('\\');
        v.push('"');
        proof {
            assert(v@ =~= esc_char(c));
        }
    } else if c == '\\' {
        v.push('\\');
        v.push('\\');
        proof {
            assert(v@ =~= esc_char(c));
        }
    } else if c == '\u{8}' {
        v.push('\\');
        v.push('b');
        proof {
            assert(v@ =~= esc_char(c));
        }
    } else if c == '\t' {
        v.push('\\');
        v.push('t');
        proof {
            assert(v@ =~= esc_char(c));
        }
    } else if c == '\n' {
        v.push('\\');
        v.push('n');
        proof {
            assert(v@ =~= esc_char(c));
        }
    } else if c == '\u{c}' {
        v.push('\\');
        v.push('f');
        proof {
            assert(v@ =~= esc_char(c));
        }
    } else if c == '\r' {
        v.push('\\');
        v.push('r');
        proof {
            assert(v@ =~= esc_char(c));
        }
    } else if (c as u32) < 0x20 {
        let u = c as u32;
        v.push('\\');
        v.push('u');
        v.push('0');
        v.push('0');
        v.push(hex_digit_exec(u / 16));
        v.push(hex_digit_exec(u % 16));
        proof {
            assert(v@ =~= esc_char(c));
        }
    } else {
        v.push(c);
        proof {
            assert(v@ =~= esc_char(c));
        }
    }
    v
}

fn append_chars(out: &mut String, v: &Vec<char>)
    ensures
        final(out)@ == old(out)@ + v@,
{
    let mut i: usize = 0;
    while i < v.len()
        invariant
            i <= v@.len(),
            out@ == old(out)@ + v@.take(i as int),
        decreases v@.len() - i,
    {
        push_char(out, v[i]);
        proof {
            assert((old(out)@ + v@.take(i as int)).push(v@[i as int]) =~= old(out)@ + v@.take(
                i + 1 as int,
            ));
        }
        i = i + 1;
    }
    proof {
        assert(v@.take(v@.len() as int) =~= v@);
    }
}

/// Appends the JSON string literal for `s`.
fn append_json_string(out: &mut String, s: &str)
    ensures
        final(out)@ == old(out)@ + json_string(s@),
{
    push_char(out, '"');
    let n = s.unicode_len();
    let mut i: usize = 0;
    while i < n
        invariant
            i <= n,
            n == s@.len(),
            out@ == old(out)@.push('"') + json_escape(s@.take(i as int)),
        decreases n - i,
    {
        let c = s.get_char(i);
        let e = esc_char_exec(c);
        append_chars(out, &e);
        proof {
            let t = s@.take(i + 1 as int);
            assert(t.drop_last() =~= s@.take(i as int));
            assert(t.last() == s@[i as int]);
            assert((old(out)@.push('"') + json_escape(s@.take(i as int))) + esc_char(c) =~= old(
                out,
            )@.push('"') + json_escape(t));
        }
        i = i + 1;
    }
    push_char(out, '"');
    proof {
        assert(s@.take(n as int) =~= s@);
        assert((old(out)@.push('"') + json_escape(s@)).push('"') =~= old(out)@ + json_string(s@));
    }
}

/// The wire spelling of a role.
pub open spec fn role_str(r: Role) -> Seq<char> {
    if r is User {
        seq!['u', 's', 'e', 'r']
    } else {
        seq!['a', 's', 's', 'i', 's', 't', 'a', 'n', 't']
    }
}

/// One history entry on the wire: role and content, no id.
pub open spec fn message_json(m: MessageModel) -> Seq<char> {
    seq!['{', '"', 'r', 'o', 'l', 'e', '"', ':'] + json_string(role_str(m.role)) + seq![
        ',',
        '"',
        'c',
        'o',
        'n',
        't',
        'e',
        'n',
        't',
        '"',
        ':',
    ] + json_string(m.content) + seq!['}']
}

/// The history array's elements, comma separated, in order.
pub open spec fn history_json(h: Seq<MessageModel>) -> Seq<char>
    decreases h.len(),
{
    if h.len() == 0 {
        Seq::empty()
    } else if h.len() == 1 {
        message_json(h[0])
    } else {
        history_json(h.drop_last()) + seq![','] + message_json(h.last())
    }
}

/// The whole request body for one turn.
pub open spec fn request_json(message: Seq<char>, history: Seq<MessageModel>) -> Seq<char> {
    seq!['{', '"', 'm', 'e', 's', 's', 'a', 'g', 'e', '"', ':'] + json_string(message) + seq![
        ',',
        '"',
        'h',
        'i',
        's',
        't',
        'o',
        'r',
        'y',
        '"',
        ':',
        '[',
    ] + history_json(history) + seq![']', '}']
}

fn append_message(out: &mut String, m: &Message)
    ensures
        final(out)@ == old(out)@ + message_json(m@),
{
    out.append("{\"role\":");
    proof {
        reveal_strlit("{\"role\":");
        assert("{\"role\":"@ =~= seq!['{', '"', 'r', 'o', 'l', 'e', '"', ':']);
    }
    match m.role {
        Role::User => {
            append_json_string(out, "user");
            proof {
                reveal_strlit("user");
                assert("user"@ =~= role_str(Role::User));
            }
        },
        Role::Assistant => {
            append_json_string(out, "assistant");
            proof {
                reveal_strlit("assistant");
                assert("assistant"@ =~= role_str(Role::Assistant));
            }
        },
    }
    out.append(",\"content\":");
    proof {
        reveal_strlit(",\"content\":");
        assert(",\"content\":"@ =~= seq![',', '"', 'c', 'o', 'n', 't', 'e', 'n', 't', '"', ':']);
    }
    append_json_string(out, m.content.as_str());
    push_char(out, '}');
    proof {
        assert(final(out)@ =~= old(out)@ + message_json(m@));
    }
}

/// Serializes one turn request as its wire body, exactly as
/// [`request_json`] says; message ids are left out.
pub fn request_body(req: &ChatRequest) -> (s: String)
    ensures
        s@ == request_json(req.message@, req.history.deep_view()),
{
    let ghost h = req.history.deep_view();
    let mut out = String::new();
    out.append("{\"message\":");
    proof {
        reveal_strlit("{\"message\":");
        assert(out@ =~= seq!['{', '"', 'm', 'e', 's', 's', 'a', 'g', 'e', '"', ':']);
    }
    append_json_string(&mut out, req.message.as_str());
    out.append(",\"history\":[");
    proof {
        reveal_strlit(",\"history\":[");
        assert(out@ =~= seq!['{', '"', 'm', 'e', 's', 's', 'a', 'g', 'e', '"', ':'] + json_string(
            req.message@,
        ) + seq![',', '"', 'h', 'i', 's', 't', 'o', 'r', 'y', '"', ':', '[']);
    }
    let ghost head = out@;
    let mut i: usize = 0;
    while i < req.history.len()
        invariant
            i <= req.history@.len(),
            h == req.history.deep_view(),
            h.len() == req.history@.len(),
            forall|k: int| 0 <= k < h.len() ==> h[k] == req.history@[k]@,
            out@ == head + history_json(h.take(i as int)),
        decreases req.history@.len() - i,
    {
        if i > 0 {
            push_char(&mut out, ',');
        }
        append_message(&mut out, &req.history[i]);
        proof {
            let t = h.take(i + 1 as int);
            assert(t.drop_last() =~= h.take(i as int));
            assert(t.last() == h[i as int]);
            if i == 0 {
                assert(history_json(h.take(0)) =~= Seq::<char>::empty());
                assert(out@ =~= head + history_json(t));
            } else {
                assert(out@ =~= head + history_json(t));
            }
        }
        i = i + 1;
    }
    out.append("]}");
    proof {
        reveal_strlit("]}");
        assert(h.take(h.len() as int) =~= h);
        assert(out@ =~= request_json(req.message@, h));
    }
    out
}

/// The decimal digit for a value below ten.
pub open spec fn digit_char(d: int) -> char {
    if d == 0 {
        '0'
    } else if d == 1 {
        '1'
    } else if d == 2 {
        '2'
    } else if d == 3 {
        '3'
    } else if d == 4 {
        '4'
    } else if d == 5 {
        '5'
    } else if d == 6 {
        '6'
    } else if d == 7 {
        '7'
    } else if d == 8 {
        '8'
    } else {
        '9'
    }
}

/// The decimal digits of a number, most significant first.
pub open spec fn dec_digits(n: nat) -> Seq<char>
    decreases n,
{
    if n < 10 {
        seq![digit_char(n as int)]
    } else {
        dec_digits(n / 10) + seq![digit_char((n % 10) as int)]
    }
}

fn digit_exec(d: u16) -> (c: char)
    requires
        d < 10,
    ensures
        c == digit_char(d as int),
{
    if d == 0 {
        '0'
    } else if d == 1 {
        '1'
    } else if d == 2 {
        '2'
    } else if d == 3 {
        '3'
    } else if d == 4 {
        '4'
    } else if d == 5 {
        '5'
    } else if d == 6 {
        '6'
    } else if d == 7 {
        '7'
    } else if d == 8 {
        '8'
    } else {
        '9'
    }
}

/// Formats a number in decimal, as an HTTP status is shown in an error
/// message.
pub fn u16_decimal(n: u16) -> (s: String)
    ensures
        s@ == dec_digits(n as nat),
    decreases n,
{
    if n < 10 {
        let mut s = String::new();
        push_char(&mut s, digit_exec(n));
        proof {
            assert(s@ =~= dec_digits(n as nat));
        }
        s
    } else {
        let mut s = u16_decimal(n / 10);
        push_char(&mut s, digit_exec(n % 10));
        proof {
            assert(dec_digits((n / 10) as nat).push(digit_char((n % 10) as int)) =~= dec_digits(
                n as nat,
            ));
        }
        s
    }
}

/// Why a turn failed outside the protocol stream. Every kind ends the turn
/// the same way; only the rendered text differs.
pub enum TurnError {
    /// The host environment offers no request capability.
    Environment,
    /// The request could not be built or serialized.
    Request(String),
    /// The endpoint answered with a non-success HTTP status.
    Http(u16),
    /// The network or the response stream failed.
    Transport(String),
}

/// The message text a failure is rendered with.
pub open spec fn spec_error_text(e: &TurnError) -> Seq<char> {
    match e {
        TurnError::Environment => "no window"@,
        TurnError::Request(s) => s@,
        TurnError::Http(n) => "HTTP "@ + dec_digits(*n as nat),
        TurnError::Transport(s) => s@,
    }
}

impl TurnError {
    /// The message text of this failure, exactly as [`spec_error_text`]
    /// says.
    pub fn text(&self) -> (s: String)
        ensures
            s@ == spec_error_text(self),
    {
        match self {
            TurnError::Environment => "no window".to_owned(),
            TurnError::Request(s) => s.clone(),
            TurnError::Http(n) => {
                let mut s = "HTTP ".to_owned();
                let d = u16_decimal(*n);
                s.append(d.as_str());
                s
            },
            TurnError::Transport(s) => s.clone(),
        }
    }
}

} // verus!
