use vstd::prelude::*;

verus! {

/// A participant in the conversation.
#[derive(Clone, Copy, PartialEq, Eq, Structural, Debug)]
pub enum Role {
    User,
    Assistant,
}

/// One conversation turn already committed to history.
///
/// `id` is a session-local identifier; it is never sent over the wire.
#[derive(Debug)]
pub struct Message {
    pub id: usize,
    pub role: Role,
    pub content: String,
}

/// Mathematical image of a [`Message`].
pub struct MessageModel {
    pub id: int,
    pub role: Role,
    pub content: Seq<char>,
}

impl View for Message {
    type V = MessageModel;

    open spec fn view(&self) -> MessageModel {
        MessageModel { id: self.id as int, role: self.role, content: self.content@ }
    }
}

impl DeepView for Message {
    type V = MessageModel;

    open spec fn deep_view(&self) -> MessageModel {
        self.view()
    }
}

/// The payload of one turn request: the newly submitted text plus the
/// history committed before it.
#[derive(Debug)]
pub struct ChatRequest {
    pub message: String,
    pub history: Vec<Message>,
}

/// Mathematical image of a [`ChatRequest`].
pub struct ChatRequestModel {
    pub message: Seq<char>,
    pub history: Seq<MessageModel>,
}

impl View for ChatRequest {
    type V = ChatRequestModel;

    open spec fn view(&self) -> ChatRequestModel {
        ChatRequestModel { message: self.message@, history: self.history.deep_view() }
    }
}

/// One typed event decoded from a single `data: ` frame of the response
/// stream.
#[derive(Debug)]
pub enum StreamChunk {
    /// An incremental delta to append to the in-flight assistant reply.
    Text { content: String },
    /// The assistant started running the named tool.
    ToolStart { name: String },
    /// The named tool finished; a paragraph break joins the reply.
    ToolEnd { name: String },
    /// The turn completed; decoding stops for this turn.
    Done,
    /// The turn failed server-side; decoding stops for this turn.
    Error { message: String },
}

/// Mathematical image of a [`StreamChunk`].
pub enum ChunkModel {
    Text { content: Seq<char> },
    ToolStart { name: Seq<char> },
    ToolEnd { name: Seq<char> },
    Done,
    Error { message: Seq<char> },
}

impl View for StreamChunk {
    type V = ChunkModel;

    open spec fn view(&self) -> ChunkModel {
        match self {
            StreamChunk::Text { content } => ChunkModel::Text { content: content@ },
            StreamChunk::ToolStart { name } => ChunkModel::ToolStart { name: name@ },
            StreamChunk::ToolEnd { name } => ChunkModel::ToolEnd { name: name@ },
            StreamChunk::Done => ChunkModel::Done,
            StreamChunk::Error { message } => ChunkModel::Error { message: message@ },
        }
    }
}

impl DeepView for StreamChunk {
    type V = ChunkModel;

    open spec fn deep_view(&self) -> ChunkModel {
        self.view()
    }
}

/// A chunk that ends decoding for the turn.
pub open spec fn is_terminal(c: ChunkModel) -> bool {
    c is Done || c is Error
}

impl StreamChunk {
    /// Whether this chunk ends decoding for the turn.
    pub fn terminal(&self) -> (r: bool)
        ensures
            r == is_terminal(self@),
    {
        match self {
            StreamChunk::Done => true,
            StreamChunk::Error { .. } => true,
            _ => false,
        }
    }
}

} // verus!
