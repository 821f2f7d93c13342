use vstd::prelude::*;

use crate::chunk::{is_terminal, ChatRequest, ChunkModel, Message, MessageModel, Role, StreamChunk};
use crate::decoder::{lemma_feed_terminal_last, spec_feed, Decoder};
use crate::text::{trim, trim_str};

verus! {

// One session owns the whole conversation state: the committed messages,
// the id counter, the unsent input, and the in-flight turn (loading flag,
// reply accumulator, running tool). A turn goes from rest through
// submission and streaming back to rest, through exactly one commit or
// failure.

/// Mathematical image of a [`Session`].
pub struct SessionModel {
    pub messages: Seq<MessageModel>,
    pub next_id: int,
    pub input: Seq<char>,
    pub loading: bool,
    pub accumulator: Seq<char>,
    pub active_tool: Option<Seq<char>>,
}

/// The text of an optional tool name.
pub open spec fn opt_text(o: Option<String>) -> Option<Seq<char>> {
    match o {
        Some(s) => Some(s@),
        None => None,
    }
}

/// What every reachable session state satisfies: ids grow with append
/// order and stay below the counter, and nothing accumulates outside a
/// turn.
pub open spec fn session_wf(s: SessionModel) -> bool {
    &&& forall|k: int| 0 <= k < s.messages.len() ==> s.messages[k].id < s.next_id
    &&& forall|j: int, k: int|
        0 <= j < k < s.messages.len() ==> s.messages[j].id < s.messages[k].id
    &&& (!s.loading ==> s.accumulator.len() == 0 && s.active_tool is None)
}

/// The turn commits: `content` becomes the next assistant message and the
/// session returns to rest.
pub open spec fn spec_commit(s: SessionModel, content: Seq<char>) -> SessionModel {
    SessionModel {
        messages: s.messages.push(
            MessageModel { id: s.next_id, role: Role::Assistant, content },
        ),
        next_id: s.next_id + 1,
        loading: false,
        accumulator: Seq::empty(),
        active_tool: None,
        ..s
    }
}

/// What one decoded chunk does to the session: text extends the reply,
/// tool events track the running tool (a tool end also inserts a paragraph
/// break), and a terminal chunk commits the turn — an error as an
/// assistant message prefixed `Error: `.
pub open spec fn spec_apply_chunk(s: SessionModel, c: ChunkModel) -> SessionModel {
    match c {
        ChunkModel::Text { content } => SessionModel { accumulator: s.accumulator + content, ..s },
        ChunkModel::ToolStart { name } => SessionModel { active_tool: Some(name), ..s },
        ChunkModel::ToolEnd { .. } => SessionModel {
            active_tool: None,
            accumulator: s.accumulator + seq!['\n', '\n'],
            ..s
        },
        ChunkModel::Done => spec_commit(s, s.accumulator),
        ChunkModel::Error { message } => spec_commit(s, "Error: "@ + message),
    }
}

/// What a run of decoded chunks does to the session, first to last.
pub open spec fn spec_apply_chunks(s: SessionModel, cs: Seq<ChunkModel>) -> SessionModel
    decreases cs.len(),
{
    if cs.len() == 0 {
        s
    } else {
        spec_apply_chunks(spec_apply_chunk(s, cs[0]), cs.subrange(1, cs.len() as int))
    }
}

proof fn lemma_apply_chunks_snoc(s: SessionModel, cs: Seq<ChunkModel>, c: ChunkModel)
    ensures
        spec_apply_chunks(s, cs.push(c)) == spec_apply_chunk(spec_apply_chunks(s, cs), c),
    decreases cs.len(),
{
    if cs.len() == 0 {
        assert(cs.push(c)[0] == c);
        assert(cs.push(c).subrange(1, cs.push(c).len() as int) =~= Seq::<ChunkModel>::empty());
        assert(spec_apply_chunks(s, cs.push(c)) == spec_apply_chunks(
            spec_apply_chunk(s, c),
            Seq::<ChunkModel>::empty(),
        ));
    } else {
        let cs1 = cs.subrange(1, cs.len() as int);
        assert(cs.push(c)[0] == cs[0]);
        assert(cs.push(c).subrange(1, cs.push(c).len() as int) =~= cs1.push(c));
        lemma_apply_chunks_snoc(spec_apply_chunk(s, cs[0]), cs1, c);
        assert(spec_apply_chunks(s, cs.push(c)) == spec_apply_chunks(
            spec_apply_chunk(s, cs[0]),
            cs1.push(c),
        ));
    }
}

/// The conversation state machine of one mounted client.
pub struct Session {
    messages: Vec<Message>,
    next_id: usize,
    input: String,
    loading: bool,
    accumulator: String,
    active_tool: Option<String>,
}

impl View for Session {
    type V = SessionModel;

    closed spec fn view(&self) -> SessionModel {
        SessionModel {
            messages: self.messages.deep_view(),
            next_id: self.next_id as int,
            input: self.input@,
            loading: self.loading,
            accumulator: self.accumulator@,
            active_tool: opt_text(self.active_tool),
        }
    }
}

impl Message {
    /// A copy of this message, field by field.
    pub fn duplicate(&self) -> (m: Message)
        ensures
            m@ == self@,
    {
        Message { id: self.id, role: self.role, content: self.content.clone() }
    }
}

fn clone_messages(v: &Vec<Message>) -> (r: Vec<Message>)
    ensures
        r.deep_view() == v.deep_view(),
{
    let mut r: Vec<Message> = Vec::new();
    let mut i: usize = 0;
    while i < v.len()
        invariant
            i <= v@.len(),
            r.deep_view() == v.deep_view().take(i as int),
        decreases v@.len() - i,
    {
        let m = v[i].duplicate();
        let ghost before = r.deep_view();
        r.push(m);
        proof {
            assert(r.deep_view() =~= before.push(m@));
            assert(before.push(m@) =~= v.deep_view().take(i + 1 as int));
        }
        i = i + 1;
    }
    proof {
        assert(v.deep_view().take(v@.len() as int) =~= v.deep_view());
    }
    r
}

impl Session {
    /// A fresh session: no history, id counter at zero, at rest.
    pub fn new() -> (s: Session)
        ensures
            s@.messages == Seq::<MessageModel>::empty(),
            s@.next_id == 0,
            s@.input == Seq::<char>::empty(),
            !s@.loading,
            s@.accumulator == Seq::<char>::empty(),
            s@.active_tool is None,
            session_wf(s@),
    {
        let s = Session {
            messages: Vec::new(),
            next_id: 0,
            input: String::new(),
            loading: false,
            accumulator: String::new(),
            active_tool: None,
        };
        proof {
            assert(s@.messages =~= Seq::<MessageModel>::empty());
        }
        s
    }

    /// The committed conversation, in order.
    pub fn messages(&self) -> (r: &Vec<Message>)
        ensures
            r.deep_view() == self@.messages,
    {
        &self.messages
    }

    /// Whether a turn is outstanding.
    pub fn loading(&self) -> (r: bool)
        ensures
            r == self@.loading,
    {
        self.loading
    }

    /// The in-flight assistant reply so far.
    pub fn accumulator(&self) -> (r: &String)
        ensures
            r@ == self@.accumulator,
    {
        &self.accumulator
    }

    /// The tool the assistant is running right now, if any.
    pub fn active_tool(&self) -> (r: &Option<String>)
        ensures
            opt_text(*r) == self@.active_tool,
    {
        &self.active_tool
    }

    /// The id the next committed message will get.
    pub fn next_id(&self) -> (r: usize)
        ensures
            r == self@.next_id,
    {
        self.next_id
    }

    /// The unsent input text.
    pub fn input(&self) -> (r: &String)
        ensures
            r@ == self@.input,
    {
        &self.input
    }

    /// Replaces the unsent input text; nothing else moves.
    pub fn set_input(&mut self, text: String)
        ensures
            final(self)@ == (SessionModel { input: text@, ..old(self)@ }),
    {
        self.input = text;
    }

    /// Starts a turn. While a turn is outstanding, or when the input is
    /// blank after trimming, this is a no-op and the whole session is left
    /// unchanged. Otherwise the input becomes the next user message and
    /// the request to send comes back: the submitted text, plus as history
    /// the messages committed before it.
    pub fn submit(&mut self) -> (r: Option<ChatRequest>)
        requires
            session_wf(old(self)@),
            old(self)@.next_id < usize::MAX,
        ensures
            session_wf(final(self)@),
            (r is None <==> (old(self)@.loading || trim(old(self)@.input).len() == 0)),
            r is None ==> final(self)@ == old(self)@,
            (match r {
                Some(req) => {
                    let o = old(self)@;
                    &&& req@.message == o.input
                    &&& req@.history == o.messages
                    &&& final(self)@ == SessionModel {
                        messages: o.messages.push(
                            MessageModel { id: o.next_id, role: Role::User, content: o.input },
                        ),
                        next_id: o.next_id + 1,
                        input: Seq::<char>::empty(),
                        loading: true,
                        accumulator: Seq::<char>::empty(),
                        active_tool: o.active_tool,
                    }
                },
                None => true,
            }),
    {
        let t = trim_str(self.input.as_str());
        if t.unicode_len() == 0 || self.loading {
            return None;
        }
        let mut message = String::new();
        core::mem::swap(&mut message, &mut self.input);
        self.loading = true;
        self.accumulator = String::new();
        let id = self.next_id;
        self.next_id = id + 1;
        let history = clone_messages(&self.messages);
        let ghost before = self.messages.deep_view();
        self.messages.push(Message { id, role: Role::User, content: message.clone() });
        proof {
            let o = old(self)@;
            assert(self.messages.deep_view() =~= before.push(
                MessageModel { id: o.next_id, role: Role::User, content: o.input },
            ));
            assert(session_wf(final(self)@)) by {
                assert(forall|k: int|
                    0 <= k < o.messages.len() ==> final(self)@.messages[k] == o.messages[k]);
            }
        }
        Some(ChatRequest { message, history })
    }

    fn commit(&mut self, content: String)
        requires
            session_wf(old(self)@),
            old(self)@.loading,
            old(self)@.next_id < usize::MAX,
        ensures
            session_wf(final(self)@),
            final(self)@ == spec_commit(old(self)@, content@),
    {
        let id = self.next_id;
        self.next_id = id + 1;
        let ghost before = self.messages.deep_view();
        self.messages.push(Message { id, role: Role::Assistant, content });
        self.accumulator = String::new();
        self.active_tool = None;
        self.loading = false;
        proof {
            let o = old(self)@;
            assert(self.messages.deep_view() =~= before.push(
                MessageModel { id: o.next_id, role: Role::Assistant, content: content@ },
            ));
            assert(session_wf(final(self)@)) by {
                assert(forall|k: int|
                    0 <= k < o.messages.len() ==> final(self)@.messages[k] == o.messages[k]);
            }
        }
    }

    /// Applies one decoded chunk to the outstanding turn, exactly as
    /// [`spec_apply_chunk`] says.
    pub fn handle_chunk(&mut self, chunk: &StreamChunk)
        requires
            session_wf(old(self)@),
            old(self)@.loading,
            old(self)@.next_id < usize::MAX,
        ensures
            session_wf(final(self)@),
            final(self)@ == spec_apply_chunk(old(self)@, chunk@),
    {
        match chunk {
            StreamChunk::Text { content } => {
                self.accumulator.append(content.as_str());
            },
            StreamChunk::ToolStart { name } => {
                self.active_tool = Some(name.clone());
            },
            StreamChunk::ToolEnd { .. } => {
                self.active_tool = None;
                self.accumulator.append("\n\n");
                proof {
                    reveal_strlit("\n\n");
                    assert("\n\n"@ =~= seq!['\n', '\n']);
                }
            },
            StreamChunk::Done => {
                let mut content = String::new();
                core::mem::swap(&mut content, &mut self.accumulator);
                self.commit(content);
            },
            StreamChunk::Error { message } => {
                let mut text = "Error: ".to_owned();
                text.append(message.as_str());
                self.commit(text);
            },
        }
    }

    /// Consumes one read of the response stream: the bytes go through the
    /// decoder, and every chunk they complete is applied to this session
    /// in arrival order — the decoder stops at a terminal chunk, so no
    /// chunk ever reaches a resolved turn.
    pub fn consume_read(&mut self, decoder: &mut Decoder, bytes: &Vec<u8>)
        requires
            session_wf(old(self)@),
            old(self)@.loading,
            old(self)@.next_id < usize::MAX,
        ensures
            session_wf(final(self)@),
            ({
                let r = spec_feed(old(decoder)@, bytes@);
                &&& final(decoder)@.buf == r.buf
                &&& final(decoder)@.done == r.done
                &&& final(self)@ == spec_apply_chunks(old(self)@, r.out)
            }),
    {
        proof {
            lemma_feed_terminal_last(old(decoder)@, bytes@);
        }
        let out = decoder.feed(bytes);
        let ghost cs = spec_feed(old(decoder)@, bytes@).out;
        let mut i: usize = 0;
        while i < out.len()
            invariant
                i <= out@.len(),
                cs == out.deep_view(),
                cs.len() == out@.len(),
                forall|k: int| 0 <= k < cs.len() ==> cs[k] == out@[k]@,
                forall|k: int| 0 <= k < cs.len() - 1 ==> !is_terminal(cs[k]),
                session_wf(self@),
                self@ == spec_apply_chunks(old(self)@, cs.take(i as int)),
                i < cs.len() ==> self@.loading && self@.next_id == old(self)@.next_id,
                old(self)@.next_id < usize::MAX,
            decreases out@.len() - i,
        {
            proof {
                lemma_apply_chunks_snoc(old(self)@, cs.take(i as int), cs[i as int]);
                assert(cs.take(i as int).push(cs[i as int]) =~= cs.take(i + 1 as int));
            }
            let ghost prev = self@;
            self.handle_chunk(&out[i]);
            proof {
                if i + 1 < cs.len() {
                    assert(!is_terminal(cs[i as int]));
                    assert(self@.loading && self@.next_id == prev.next_id);
                }
            }
            i = i + 1;
        }
        proof {
            assert(cs.take(cs.len() as int) =~= cs);
        }
    }

    /// Ends the turn after a transport failure: the failure text becomes
    /// an assistant error message, exactly as a protocol error chunk
    /// carrying the same text would.
    pub fn fail_turn(&mut self, message: String)
        requires
            session_wf(old(self)@),
            old(self)@.loading,
            old(self)@.next_id < usize::MAX,
        ensures
            session_wf(final(self)@),
            final(self)@ == spec_apply_chunk(
                old(self)@,
                ChunkModel::Error { message: message@ },
            ),
    {
        let mut text = "Error: ".to_owned();
        text.append(message.as_str());
        self.commit(text);
    }
}

} // verus!
