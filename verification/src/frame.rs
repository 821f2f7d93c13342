use vstd::prelude::*;

use crate::chunk::{ChunkModel, StreamChunk};
use crate::text::{char_from_u32, chars_to_string};

verus! {

// A frame payload is the JSON text after the `data: ` prefix of one line.
// The protocol's five frames are flat JSON objects whose members are string
// literals, so the grammar is regular and is decoded one character at a
// time: `pstep` is the specification of the transition function, `Parser`
// the executable mirror proved equal to it.

/// Position of the payload parser within the object grammar.
#[derive(Clone, Copy, PartialEq, Eq, Structural, Debug)]
pub enum Mode {
    /// Before the opening brace.
    Start,
    /// After `{`: a key or the closing brace may follow.
    WantKeyOrEnd,
    /// After `,`: a key must follow.
    WantKey,
    /// After a key: a colon must follow.
    WantColon,
    /// After `:`: a string value must follow.
    WantValue,
    /// After a value: a comma or the closing brace may follow.
    WantCommaOrEnd,
    /// Inside a string literal.
    Str,
    /// Right after a backslash inside a string literal.
    Esc,
    /// Collecting the four hex digits of a `\u` escape.
    Hex,
    /// After a leading surrogate escape: a backslash must follow.
    PairSlash,
    /// After a leading surrogate escape and `\`: a `u` must follow.
    PairU,
    /// Collecting the hex digits of the trailing surrogate.
    PairHex,
    /// After the closing brace: only white space may follow.
    Tail,
    /// The payload is not a frame; nothing recovers from here.
    Fail,
}

/// The whole parser state: mode, the fields seen so far, and the partial
/// key, string and escape being read.
pub struct Phase {
    pub mode: Mode,
    /// Whether the string being read is a key (else it is a value).
    pub in_key: bool,
    /// The last value seen for the `type`, `content`, `name` and `message`
    /// keys; members under any other key are read and dropped.
    pub ty: Option<Seq<char>>,
    pub co: Option<Seq<char>>,
    pub na: Option<Seq<char>>,
    pub me: Option<Seq<char>>,
    /// The completed key whose value is awaited.
    pub key: Seq<char>,
    /// The characters of the string being read.
    pub cur: Seq<char>,
    /// Value and count of the hex digits collected so far.
    pub hex: u32,
    pub hexn: u32,
    /// The leading surrogate of a pending escape pair.
    pub hi: u32,
}

/// JSON's inter-token white space.
pub open spec fn is_jws(c: char) -> bool {
    c == ' ' || c == '\t' || c == '\n' || c == '\r'
}

/// The value of a hex digit, if `c` is one.
pub open spec fn hex_val(c: char) -> Option<u32> {
    let u = c as u32;
    if 0x30 <= u && u <= 0x39 {
        Some((u - 0x30) as u32)
    } else if 0x61 <= u && u <= 0x66 {
        Some((u - 0x57) as u32)
    } else if 0x41 <= u && u <= 0x46 {
        Some((u - 0x37) as u32)
    } else {
        None
    }
}

/// The character named by a single-letter escape, if any.
pub open spec fn esc_char_of(c: char) -> Option<char> {
    if c == '"' {
        Some('"')
    } else if c == '\\' {
        Some('\\')
    } else if c == '/' {
        Some('/')
    } else if c == 'b' {
        Some('\u{8}')
    } else if c == 'f' {
        Some('\u{c}')
    } else if c == 'n' {
        Some('\n')
    } else if c == 'r' {
        Some('\r')
    } else if c == 't' {
        Some('\t')
    } else {
        None
    }
}

pub open spec fn k_type() -> Seq<char> {
    seq!['t', 'y', 'p', 'e']
}

pub open spec fn k_content() -> Seq<char> {
    seq!['c', 'o', 'n', 't', 'e', 'n', 't']
}

pub open spec fn k_name() -> Seq<char> {
    seq!['n', 'a', 'm', 'e']
}

pub open spec fn k_message() -> Seq<char> {
    seq!['m', 'e', 's', 's', 'a', 'g', 'e']
}

pub open spec fn v_text() -> Seq<char> {
    seq!['t', 'e', 'x', 't']
}

pub open spec fn v_tool_start() -> Seq<char> {
    seq!['t', 'o', 'o', 'l', '_', 's', 't', 'a', 'r', 't']
}

pub open spec fn v_tool_end() -> Seq<char> {
    seq!['t', 'o', 'o', 'l', '_', 'e', 'n', 'd']
}

pub open spec fn v_done() -> Seq<char> {
    seq!['d', 'o', 'n', 'e']
}

pub open spec fn v_error() -> Seq<char> {
    seq!['e', 'r', 'r', 'o', 'r']
}

/// The parser state before any character.
pub open spec fn init_phase() -> Phase {
    Phase {
        mode: Mode::Start,
        in_key: false,
        ty: None,
        co: None,
        na: None,
        me: None,
        key: Seq::empty(),
        cur: Seq::empty(),
        hex: 0,
        hexn: 0,
        hi: 0,
    }
}

/// The payload is rejected; every later character keeps it rejected.
pub open spec fn fail(ph: Phase) -> Phase {
    Phase { mode: Mode::Fail, ..ph }
}

/// A completed member: `ph.cur` is the value for key `ph.key`.
pub open spec fn record(ph: Phase) -> Phase {
    let p = Phase {
        mode: Mode::WantCommaOrEnd,
        in_key: false,
        key: Seq::empty(),
        cur: Seq::empty(),
        hex: 0,
        hexn: 0,
        hi: 0,
        ..ph
    };
    if ph.key == k_type() {
        Phase { ty: Some(ph.cur), ..p }
    } else if ph.key == k_content() {
        Phase { co: Some(ph.cur), ..p }
    } else if ph.key == k_name() {
        Phase { na: Some(ph.cur), ..p }
    } else if ph.key == k_message() {
        Phase { me: Some(ph.cur), ..p }
    } else {
        p
    }
}

/// One step of the payload grammar on character `c`.
pub open spec fn pstep(ph: Phase, c: char) -> Phase {
    match ph.mode {
        Mode::Start => if is_jws(c) {
            ph
        } else if c == '{' {
            Phase { mode: Mode::WantKeyOrEnd, ..ph }
        } else {
            fail(ph)
        },
        Mode::WantKeyOrEnd => if is_jws(c) {
            ph
        } else if c == '"' {
            Phase { mode: Mode::Str, in_key: true, cur: Seq::empty(), ..ph }
        } else if c == '}' {
            Phase { mode: Mode::Tail, ..ph }
        } else {
            fail(ph)
        },
        Mode::WantKey => if is_jws(c) {
            ph
        } else if c == '"' {
            Phase { mode: Mode::Str, in_key: true, cur: Seq::empty(), ..ph }
        } else {
            fail(ph)
        },
        Mode::WantColon => if is_jws(c) {
            ph
        } else if c == ':' {
            Phase { mode: Mode::WantValue, ..ph }
        } else {
            fail(ph)
        },
        Mode::WantValue => if is_jws(c) {
            ph
        } else if c == '"' {
            Phase { mode: Mode::Str, in_key: false, cur: Seq::empty(), ..ph }
        } else {
            fail(ph)
        },
        Mode::WantCommaOrEnd => if is_jws(c) {
            ph
        } else if c == ',' {
            Phase { mode: Mode::WantKey, ..ph }
        } else if c == '}' {
            Phase { mode: Mode::Tail, ..ph }
        } else {
            fail(ph)
        },
        Mode::Str => if c == '"' {
            if ph.in_key {
                Phase { mode: Mode::WantColon, in_key: false, key: ph.cur, cur: Seq::empty(), ..ph }
            } else {
                record(ph)
            }
        } else if c == '\\' {
            Phase { mode: Mode::Esc, ..ph }
        } else if (c as u32) < 0x20 {
            fail(ph)
        } else {
            Phase { cur: ph.cur.push(c), ..ph }
        },
        Mode::Esc => if c == 'u' {
            Phase { mode: Mode::Hex, hex: 0, hexn: 0, ..ph }
        } else {
            match esc_char_of(c) {
                Some(e) => Phase { mode: Mode::Str, cur: ph.cur.push(e), ..ph },
                None => fail(ph),
            }
        },
        Mode::Hex => match hex_val(c) {
            None => fail(ph),
            Some(d) => {
                let v = (ph.hex * 16 + d) as u32;
                if ph.hexn == 3 {
                    if 0xD800 <= v && v <= 0xDBFF {
                        Phase { mode: Mode::PairSlash, hi: v, hex: 0, hexn: 0, ..ph }
                    } else if 0xDC00 <= v && v <= 0xDFFF {
                        fail(ph)
                    } else {
                        Phase {
                            mode: Mode::Str,
                            cur: ph.cur.push(v as char),
                            hex: 0,
                            hexn: 0,
                            ..ph
                        }
                    }
                } else {
                    Phase { hex: v, hexn: (ph.hexn + 1) as u32, ..ph }
                }
            },
        },
        Mode::PairSlash => if c == '\\' {
            Phase { mode: Mode::PairU, ..ph }
        } else {
            fail(ph)
        },
        Mode::PairU => if c == 'u' {
            Phase { mode: Mode::PairHex, hex: 0, hexn: 0, ..ph }
        } else {
            fail(ph)
        },
        Mode::PairHex => match hex_val(c) {
            None => fail(ph),
            Some(d) => {
                let v = (ph.hex * 16 + d) as u32;
                if ph.hexn == 3 {
                    if 0xDC00 <= v && v <= 0xDFFF {
                        let cp = (0x10000 + (ph.hi - 0xD800) * 0x400 + (v - 0xDC00)) as u32;
                        Phase {
                            mode: Mode::Str,
                            cur: ph.cur.push(cp as char),
                            hex: 0,
                            hexn: 0,
                            hi: 0,
                            ..ph
                        }
                    } else {
                        fail(ph)
                    }
                } else {
                    Phase { hex: v, hexn: (ph.hexn + 1) as u32, ..ph }
                }
            },
        },
        Mode::Tail => if is_jws(c) {
            ph
        } else {
            fail(ph)
        },
        Mode::Fail => ph,
    }
}

/// The parser state after the whole payload, character by character.
pub open spec fn prun(ph: Phase, s: Seq<char>) -> Phase
    decreases s.len(),
{
    if s.len() == 0 {
        ph
    } else {
        prun(pstep(ph, s[0]), s.subrange(1, s.len() as int))
    }
}

/// The chunk denoted by a final parser state: the object must have closed,
/// and the `type` member picks the variant and its required field.
pub open spec fn interp(ph: Phase) -> Option<ChunkModel> {
    if ph.mode != Mode::Tail {
        None
    } else if ph.ty == Some(v_text()) {
        match ph.co {
            Some(s) => Some(ChunkModel::Text { content: s }),
            None => None,
        }
    } else if ph.ty == Some(v_tool_start()) {
        match ph.na {
            Some(s) => Some(ChunkModel::ToolStart { name: s }),
            None => None,
        }
    } else if ph.ty == Some(v_tool_end()) {
        match ph.na {
            Some(s) => Some(ChunkModel::ToolEnd { name: s }),
            None => None,
        }
    } else if ph.ty == Some(v_done()) {
        Some(ChunkModel::Done)
    } else if ph.ty == Some(v_error()) {
        match ph.me {
            Some(s) => Some(ChunkModel::Error { message: s }),
            None => None,
        }
    } else {
        None
    }
}

/// The chunk decoded from one frame payload, if the payload is well formed.
pub open spec fn chunk_of_payload(s: Seq<char>) -> Option<ChunkModel> {
    interp(prun(init_phase(), s))
}

/// Bound on the hex accumulator given how many digits were collected.
pub open spec fn hex_cap(n: u32) -> u32 {
    if n == 0 {
        1
    } else if n == 1 {
        16
    } else if n == 2 {
        256
    } else {
        4096
    }
}

/// What every reachable parser state satisfies: the hex accumulator stays
/// within four digits and a pending leading surrogate is in range.
pub open spec fn phase_wf(ph: Phase) -> bool {
    &&& ((ph.mode == Mode::Hex || ph.mode == Mode::PairHex) ==> (ph.hexn <= 3 && ph.hex
        < hex_cap(ph.hexn)))
    &&& ((ph.mode == Mode::PairSlash || ph.mode == Mode::PairU || ph.mode == Mode::PairHex) ==> (
    0xD800 <= ph.hi <= 0xDBFF))
}

proof fn lemma_prun_snoc(ph: Phase, t: Seq<char>, c: char)
    ensures
        prun(ph, t.push(c)) == pstep(prun(ph, t), c),
    decreases t.len(),
{
    if t.len() == 0 {
        assert(t.push(c)[0] == c);
        assert(t.push(c).subrange(1, t.push(c).len() as int) =~= Seq::<char>::empty());
        assert(prun(ph, t.push(c)) == prun(pstep(ph, c), Seq::<char>::empty()));
        assert(prun(ph, t) == ph);
    } else {
        let t1 = t.subrange(1, t.len() as int);
        assert(t.push(c)[0] == t[0]);
        assert(t.push(c).subrange(1, t.push(c).len() as int) =~= t1.push(c));
        lemma_prun_snoc(pstep(ph, t[0]), t1, c);
        assert(prun(ph, t.push(c)) == prun(pstep(ph, t[0]), t1.push(c)));
        assert(prun(ph, t) == prun(pstep(ph, t[0]), t1));
    }
}

/// Which of the tracked keys a completed key is.
pub enum KeyKind {
    KType,
    KContent,
    KName,
    KMessage,
    KOther,
}

pub open spec fn spec_key_kind(s: Seq<char>) -> KeyKind {
    if s == k_type() {
        KeyKind::KType
    } else if s == k_content() {
        KeyKind::KContent
    } else if s == k_name() {
        KeyKind::KName
    } else if s == k_message() {
        KeyKind::KMessage
    } else {
        KeyKind::KOther
    }
}

fn key_kind(v: &Vec<char>) -> (k: KeyKind)
    ensures
        k == spec_key_kind(v@),
{
    let n = v.len();
    if n == 4 && v[0] == 't' && v[1] == 'y' && v[2] == 'p' && v[3] == 'e' {
        proof {
            assert(v@ =~= k_type());
        }
        KeyKind::KType
    } else if n == 7 && v[0] == 'c' && v[1] == 'o' && v[2] == 'n' && v[3] == 't' && v[4] == 'e'
        && v[5] == 'n' && v[6] == 't' {
        proof {
            assert(v@ =~= k_content());
        }
        KeyKind::KContent
    } else if n == 4 && v[0] == 'n' && v[1] == 'a' && v[2] == 'm' && v[3] == 'e' {
        proof {
            assert(v@ =~= k_name());
        }
        KeyKind::KName
    } else if n == 7 && v[0] == 'm' && v[1] == 'e' && v[2] == 's' && v[3] == 's' && v[4] == 'a'
        && v[5] == 'g' && v[6] == 'e' {
        proof {
            assert(v@ =~= k_message());
        }
        KeyKind::KMessage
    } else {
        proof {
            assert(v@ != k_type());
            assert(v@ != k_content());
            assert(v@ != k_name());
            assert(v@ != k_message());
        }
        KeyKind::KOther
    }
}

fn hex_val_exec(c: char) -> (r: Option<u32>)
    ensures
        r == hex_val(c),
{
    let u = c as u32;
    if 0x30 <= u && u <= 0x39 {
        Some(u - 0x30)
    } else if 0x61 <= u && u <= 0x66 {
        Some(u - 0x57)
    } else if 0x41 <= u && u <= 0x46 {
        Some(u - 0x37)
    } else {
        None
    }
}

/// The executable payload parser; its view is the specification state.
pub struct Parser {
    pub mode: Mode,
    pub in_key: bool,
    pub ty: Option<Vec<char>>,
    pub co: Option<Vec<char>>,
    pub na: Option<Vec<char>>,
    pub me: Option<Vec<char>>,
    pub key: Vec<char>,
    pub cur: Vec<char>,
    pub hex: u32,
    pub hexn: u32,
    pub hi: u32,
}

/// The characters of an optional character vector.
pub open spec fn opt_chars(o: Option<Vec<char>>) -> Option<Seq<char>> {
    match o {
        Some(v) => Some(v@),
        None => None,
    }
}

impl View for Parser {
    type V = Phase;

    open spec fn view(&self) -> Phase {
        Phase {
            mode: self.mode,
            in_key: self.in_key,
            ty: opt_chars(self.ty),
            co: opt_chars(self.co),
            na: opt_chars(self.na),
            me: opt_chars(self.me),
            key: self.key@,
            cur: self.cur@,
            hex: self.hex,
            hexn: self.hexn,
            hi: self.hi,
        }
    }
}

impl Parser {
    /// A parser that has seen no character yet.
    pub fn new() -> (p: Parser)
        ensures
            p@ == init_phase(),
            phase_wf(p@),
    {
        let p = Parser {
            mode: Mode::Start,
            in_key: false,
            ty: None,
            co: None,
            na: None,
            me: None,
            key: Vec::new(),
            cur: Vec::new(),
            hex: 0,
            hexn: 0,
            hi: 0,
        };
        proof {
            assert(p@ =~= init_phase());
        }
        p
    }

    /// Consumes one character, exactly as [`pstep`] says.
    #[verifier::rlimit(100)]
    pub fn step(&mut self, c: char)
        requires
            phase_wf(old(self)@),
        ensures
            final(self)@ == pstep(old(self)@, c),
            phase_wf(final(self)@),
    {
        match self.mode {
            Mode::Start => {
                if c == ' ' || c == '\t' || c == '\n' || c == '\r' {
                } else if c == '{' {
                    self.mode = Mode::WantKeyOrEnd;
                } else {
                    self.mode = Mode::Fail;
                }
            },
            Mode::WantKeyOrEnd => {
                if c == ' ' || c == '\t' || c == '\n' || c == '\r' {
                } else if c == '"' {
                    self.mode = Mode::Str;
                    self.in_key = true;
                    self.cur = Vec::new();
                } else if c == '}' {
                    self.mode = Mode::Tail;
                } else {
                    self.mode = Mode::Fail;
                }
            },
            Mode::WantKey => {
                if c == ' ' || c == '\t' || c == '\n' || c == '\r' {
                } else if c == '"' {
                    self.mode = Mode::Str;
                    self.in_key = true;
                    self.cur = Vec::new();
                } else {
                    self.mode = Mode::Fail;
                }
            },
            Mode::WantColon => {
                if c == ' ' || c == '\t' || c == '\n' || c == '\r' {
                } else if c == ':' {
                    self.mode = Mode::WantValue;
                } else {
                    self.mode = Mode::Fail;
                }
            },
            Mode::WantValue => {
                if c == ' ' || c == '\t' || c == '\n' || c == '\r' {
                } else if c == '"' {
                    self.mode = Mode::Str;
                    self.in_key = false;
                    self.cur = Vec::new();
                } else {
                    self.mode = Mode::Fail;
                }
            },
            Mode::WantCommaOrEnd => {
                if c == ' ' || c == '\t' || c == '\n' || c == '\r' {
                } else if c == ',' {
                    self.mode = Mode::WantKey;
                } else if c == '}' {
                    self.mode = Mode::Tail;
                } else {
                    self.mode = Mode::Fail;
                }
            },
            Mode::Str => {
                if c == '"' {
                    if self.in_key {
                        core::mem::swap(&mut self.key, &mut self.cur);
                        self.cur = Vec::new();
                        self.mode = Mode::WantColon;
                        self.in_key = false;
                    } else {
                        let mut v: Vec<char> = Vec::new();
                        core::mem::swap(&mut v, &mut self.cur);
                        let kind = key_kind(&self.key);
                        match kind {
                            KeyKind::KType => self.ty = Some(v),
                            KeyKind::KContent => self.co = Some(v),
                            KeyKind::KName => self.na = Some(v),
                            KeyKind::KMessage => self.me = Some(v),
                            KeyKind::KOther => {},
                        }
                        self.key = Vec::new();
                        self.cur = Vec::new();
                        self.mode = Mode::WantCommaOrEnd;
                        self.in_key = false;
                        self.hex = 0;
                        self.hexn = 0;
                        self.hi = 0;
                        proof {
                            assert(final(self)@ == record(old(self)@));
                        }
                    }
                } else if c == '\\' {
                    self.mode = Mode::Esc;
                } else if (c as u32) < 0x20 {
                    self.mode = Mode::Fail;
                } else {
                    self.cur.push(c);
                }
            },
            Mode::Esc => {
                if c == 'u' {
                    self.mode = Mode::Hex;
                    self.hex = 0;
                    self.hexn = 0;
                } else {
                    let e = match c {
                        '"' => Some('"'),
                        '\\' => Some('\\'),
                        '/' => Some('/'),
                        'b' => Some('\u{8}'),
                        'f' => Some('\u{c}'),
                        'n' => Some('\n'),
                        'r' => Some('\r'),
                        't' => Some('\t'),
                        _ => None,
                    };
                    match e {
                        Some(x) => {
                            self.cur.push(x);
                            self.mode = Mode::Str;
                        },
                        None => {
                            self.mode = Mode::Fail;
                        },
                    }
                }
            },
            Mode::Hex => {
                let d = hex_val_exec(c);
                match d {
                    None => {
                        self.mode = Mode::Fail;
                    },
                    Some(d) => {
                        let v = self.hex * 16 + d;
                        if self.hexn == 3 {
                            if 0xD800 <= v && v <= 0xDBFF {
                                self.hi = v;
                                self.hex = 0;
                                self.hexn = 0;
                                self.mode = Mode::PairSlash;
                            } else if 0xDC00 <= v && v <= 0xDFFF {
                                self.mode = Mode::Fail;
                            } else {
                                let ch = char_from_u32(v);
                                match ch {
                                    Some(x) => {
                                        proof {
                                            vstd::utf8::char_u32_cast(x, v);
                                        }
                                        self.cur.push(x);
                                        self.hex = 0;
                                        self.hexn = 0;
                                        self.mode = Mode::Str;
                                    },
                                    None => {
                                        proof {
                                            assert(false);
                                        }
                                        self.mode = Mode::Fail;
                                    },
                                }
                            }
                        } else {
                            self.hex = v;
                            self.hexn = self.hexn + 1;
                        }
                    },
                }
            },
            Mode::PairSlash => {
                if c == '\\' {
                    self.mode = Mode::PairU;
                } else {
                    self.mode = Mode::Fail;
                }
            },
            Mode::PairU => {
                if c == 'u' {
                    self.mode = Mode::PairHex;
                    self.hex = 0;
                    self.hexn = 0;
                } else {
                    self.mode = Mode::Fail;
                }
            },
            Mode::PairHex => {
                let d = hex_val_exec(c);
                match d {
                    None => {
                        self.mode = Mode::Fail;
                    },
                    Some(d) => {
                        let v = self.hex * 16 + d;
                        if self.hexn == 3 {
                            if 0xDC00 <= v && v <= 0xDFFF {
                                let cp = 0x10000 + (self.hi - 0xD800) * 0x400 + (v - 0xDC00);
                                let ch = char_from_u32(cp);
                                match ch {
                                    Some(x) => {
                                        proof {
                                            vstd::utf8::char_u32_cast(x, cp);
                                        }
                                        self.cur.push(x);
                                        self.hex = 0;
                                        self.hexn = 0;
                                        self.hi = 0;
                                        self.mode = Mode::Str;
                                    },
                                    None => {
                                        proof {
                                            assert(false);
                                        }
                                        self.mode = Mode::Fail;
                                    },
                                }
                            } else {
                                self.mode = Mode::Fail;
                            }
                        } else {
                            self.hex = v;
                            self.hexn = self.hexn + 1;
                        }
                    },
                }
            },
            Mode::Tail => {
                if c == ' ' || c == '\t' || c == '\n' || c == '\r' {
                } else {
                    self.mode = Mode::Fail;
                }
            },
            Mode::Fail => {},
        }
    }

    /// The chunk this parser decoded, once the whole payload was consumed.
    pub fn finish(&self) -> (r: Option<StreamChunk>)
        ensures
            r.deep_view() == interp(self@),
    {
        match self.mode {
            Mode::Tail => {},
            _ => {
                return None;
            },
        }
        match &self.ty {
            None => None,
            Some(t) => {
                let n = t.len();
                if n == 4 && t[0] == 't' && t[1] == 'e' && t[2] == 'x' && t[3] == 't' {
                    proof {
                        assert(t@ =~= v_text());
                    }
                    match &self.co {
                        Some(s) => Some(StreamChunk::Text { content: chars_to_string(s) }),
                        None => None,
                    }
                } else if n == 10 && t[0] == 't' && t[1] == 'o' && t[2] == 'o' && t[3] == 'l'
                    && t[4] == '_' && t[5] == 's' && t[6] == 't' && t[7] == 'a' && t[8] == 'r'
                    && t[9] == 't' {
                    proof {
                        assert(t@ =~= v_tool_start());
                    }
                    match &self.na {
                        Some(s) => Some(StreamChunk::ToolStart { name: chars_to_string(s) }),
                        None => None,
                    }
                } else if n == 8 && t[0] == 't' && t[1] == 'o' && t[2] == 'o' && t[3] == 'l'
                    && t[4] == '_' && t[5] == 'e' && t[6] == 'n' && t[7] == 'd' {
                    proof {
                        assert(t@ =~= v_tool_end());
                    }
                    match &self.na {
                        Some(s) => Some(StreamChunk::ToolEnd { name: chars_to_string(s) }),
                        None => None,
                    }
                } else if n == 4 && t[0] == 'd' && t[1] == 'o' && t[2] == 'n' && t[3] == 'e' {
                    proof {
                        assert(t@ =~= v_done());
                    }
                    Some(StreamChunk::Done)
                } else if n == 5 && t[0] == 'e' && t[1] == 'r' && t[2] == 'r' && t[3] == 'o'
                    && t[4] == 'r' {
                    proof {
                        assert(t@ =~= v_error());
                    }
                    match &self.me {
                        Some(s) => Some(StreamChunk::Error { message: chars_to_string(s) }),
                        None => None,
                    }
                } else {
                    proof {
                        assert(t@ != v_text());
                        assert(t@ != v_tool_start());
                        assert(t@ != v_tool_end());
                        assert(t@ != v_done());
                        assert(t@ != v_error());
                    }
                    None
                }
            },
        }
    }
}

/// Decodes one frame payload, exactly as [`chunk_of_payload`] says.
pub fn parse_chunk(payload: &str) -> (r: Option<StreamChunk>)
    ensures
        r.deep_view() == chunk_of_payload(payload@),
{
    let n = payload.unicode_len();
    let mut p = Parser::new();
    let mut i: usize = 0;
    while i < n
        invariant
            i <= n,
            n == payload@.len(),
            phase_wf(p@),
            p@ == prun(init_phase(), payload@.take(i as int)),
        decreases n - i,
    {
        let c = payload.get_char(i);
        proof {
            lemma_prun_snoc(init_phase(), payload@.take(i as int), c);
            assert(payload@.take(i as int).push(c) =~= payload@.take(i + 1 as int));
        }
        p.step(c);
        i = i + 1;
    }
    proof {
        assert(payload@.take(n as int) =~= payload@);
    }
    p.finish()
}

} // verus!
