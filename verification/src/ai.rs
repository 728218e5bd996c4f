//! Chat messages exchanged with a model backend.

use vstd::prelude::*;
use crate::text::{
    byte_len, chars_of, find_first, find_in, lemma_find_from, push_str, slice_sub, starts_with, string_of, trim,
    trim_bounds,
};

verus! {

/// Who wrote a message.
#[derive(Debug, Clone, Copy, PartialEq, Eq, Structural)]
pub enum Role {
    System,
    User,
    Assistant,
}

/// One message of a conversation.
#[derive(Debug, Clone)]
pub struct Message {
    pub role: Role,
    pub content: String,
}

/// A message as plain values.
pub type MessageView = (Role, Seq<char>);

impl Message {
    pub open spec fn view_msg(&self) -> MessageView {
        (self.role, self.content@)
    }

    /// A message from the user.
    pub fn user(content: String) -> (m: Self)
        ensures
            m.role == Role::User,
            m.content@ == content@,
    {
        Message { role: Role::User, content }
    }

    /// A message from the assistant.
    pub fn assistant(content: String) -> (m: Self)
        ensures
            m.role == Role::Assistant,
            m.content@ == content@,
    {
        Message { role: Role::Assistant, content }
    }

    /// A system message.
    pub fn system(content: String) -> (m: Self)
        ensures
            m.role == Role::System,
            m.content@ == content@,
    {
        Message { role: Role::System, content }
    }

    /// A copy of this message.
    pub fn duplicate(&self) -> (m: Self)
        ensures
            m.view_msg() == self.view_msg(),
    {
        Message { role: self.role, content: self.content.clone() }
    }
}

/// The views of a sequence of messages.
pub open spec fn message_views(v: Seq<Message>) -> Seq<MessageView> {
    v.map_values(|m: Message| m.view_msg())
}

/// A copy of every message.
pub fn copy_messages(v: &Vec<Message>) -> (r: Vec<Message>)
    ensures
        message_views(r@) == message_views(v@),
{
    let mut r: Vec<Message> = Vec::new();
    for i in 0..v.len()
        invariant
            message_views(r@) == message_views(v@).take(i as int),
    {
        let ghost before = message_views(r@);
        r.push(v[i].duplicate());
        assert(message_views(r@) =~= before.push(v@[i as int].view_msg()));
        assert(message_views(v@).take(i + 1) =~= message_views(v@).take(i as int).push(
            v@[i as int].view_msg(),
        ));
    }
    assert(message_views(v@).take(v@.len() as int) =~= message_views(v@));
    r
}

/// A chunk streamed back from a model backend.
#[derive(Debug, Clone)]
pub enum StreamChunk {
    Token(String),
    Done,
    Error(String),
}

/// The wire name of a role.
pub open spec fn role_name(role: Role) -> Seq<char> {
    match role {
        Role::User => "user"@,
        Role::Assistant => "assistant"@,
        Role::System => "system"@,
    }
}

/// The wire name of a role, as backends send it.
pub fn role_str(role: &Role) -> (s: &'static str)
    ensures
        s@ == role_name(*role),
{
    match role {
        Role::User => "user",
        Role::Assistant => "assistant",
        Role::System => "system",
    }
}


// ── Server-sent events (OpenAI-compatible streams) ──────────────────────────

/// What one complete line of an event stream amounts to.
#[derive(Debug, Clone)]
pub enum SseLine {
    /// A blank line, a comment, or a line that carries no data.
    Skip,
    /// The stream's end marker, `[DONE]`.
    Done,
    /// The data of a `data: ` line.
    Data(String),
}

/// A line as plain values.
pub enum SseView {
    Skip,
    Done,
    Data(Seq<char>),
}

impl SseLine {
    pub open spec fn view_line(&self) -> SseView {
        match self {
            SseLine::Skip => SseView::Skip,
            SseLine::Done => SseView::Done,
            SseLine::Data(d) => SseView::Data(d@),
        }
    }
}

/// The meaning of a line once trimmed.
pub open spec fn classify_line(raw: Seq<char>) -> SseView {
    let line = trim(raw);
    if line.len() == 0 || line[0] == ':' {
        SseView::Skip
    } else if line.len() >= 6 && line.take(6) == "data: "@ {
        let data = line.skip(6);
        if data == "[DONE]"@ {
            SseView::Done
        } else {
            SseView::Data(data)
        }
    } else {
        SseView::Skip
    }
}

/// Text received from an event stream and not yet split into lines.
#[derive(Debug)]
pub struct SseBuffer {
    pub pending: String,
}

impl SseBuffer {
    /// An empty buffer.
    pub fn new() -> (r: Self)
        ensures
            r.pending@ == Seq::<char>::empty(),
    {
        SseBuffer { pending: String::new() }
    }

    /// Appends received text.
    pub fn feed(&mut self, text: &str)
        ensures
            final(self).pending@ == old(self).pending@ + text@,
    {
        let mut v = chars_of(self.pending.as_str());
        push_str(&mut v, text);
        self.pending = string_of(v.as_slice());
    }

    /// The next complete line, taken out of the buffer; `None` until a newline arrives.
    pub fn next_line(&mut self) -> (r: Option<SseLine>)
        ensures
            match find_first(old(self).pending@, seq!['\n']) {
                None => r is None && final(self).pending@ == old(self).pending@,
                Some(i) => r matches Some(l) && l.view_line() == classify_line(old(self).pending@.take(i))
                    && final(self).pending@ == old(self).pending@.skip(i + 1),
            },
    {
        let cs = chars_of(self.pending.as_str());
        let nl: [char; 1] = ['\n'];
        assert(nl@ =~= seq!['\n']);
        match find_in(cs.as_slice(), nl.as_slice(), 0) {
            None => None,
            Some(i) => {
                proof {
                    lemma_find_from(cs@, seq!['\n'], 0);
                }
                let raw = slice_sub(cs.as_slice(), 0, i);
                let rest = slice_sub(cs.as_slice(), i + 1, cs.len());
                assert(raw@ =~= cs@.take(i as int));
                assert(rest@ =~= cs@.skip(i + 1));
                self.pending = string_of(rest.as_slice());
                let (a, b) = trim_bounds(raw.as_slice());
                let line = slice_sub(raw.as_slice(), a, b);
                let prefix = chars_of("data: ");
                let done = chars_of("[DONE]");
                proof {
                    reveal_strlit("data: ");
                }
                if line.len() == 0 || line[0] == ':' {
                    Some(SseLine::Skip)
                } else if starts_with(line.as_slice(), prefix.as_slice()) {
                    let data = slice_sub(line.as_slice(), 6, line.len());
                    assert(data@ =~= line@.skip(6));
                    let is_done = line.len() == 12 && starts_with(data.as_slice(), done.as_slice());
                    proof {
                        reveal_strlit("[DONE]");
                        if data@ == "[DONE]"@ {
                            assert(data@.take(6) =~= data@);
                        }
                        if is_done {
                            assert(data@.take(6) =~= data@);
                        }
                    }
                    if is_done {
                        Some(SseLine::Done)
                    } else {
                        Some(SseLine::Data(string_of(data.as_slice())))
                    }
                } else {
                    Some(SseLine::Skip)
                }
            },
        }
    }
}

/// The chunks for the choices of one streamed event: each non-empty delta
/// becomes a token; a choice with a finish reason ends the stream there.
pub open spec fn choice_chunks(cs: Seq<(Option<Seq<char>>, bool)>) -> (Seq<ChunkView>, bool)
    decreases cs.len(),
{
    if cs.len() == 0 {
        (seq![], false)
    } else {
        let c = cs[0];
        let tok: Seq<ChunkView> = match c.0 {
            Some(t) => if t.len() > 0 {
                seq![ChunkView::Token(t)]
            } else {
                seq![]
            },
            None => seq![],
        };
        if c.1 {
            (tok + seq![ChunkView::Done], true)
        } else {
            let rest = choice_chunks(cs.drop_first());
            (tok + rest.0, rest.1)
        }
    }
}

/// A stream chunk as plain values.
pub enum ChunkView {
    Token(Seq<char>),
    Done,
    Error(Seq<char>),
}

impl StreamChunk {
    pub open spec fn view_chunk(&self) -> ChunkView {
        match self {
            StreamChunk::Token(t) => ChunkView::Token(t@),
            StreamChunk::Done => ChunkView::Done,
            StreamChunk::Error(e) => ChunkView::Error(e@),
        }
    }
}

pub open spec fn chunk_views(v: Seq<StreamChunk>) -> Seq<ChunkView> {
    v.map_values(|c: StreamChunk| c.view_chunk())
}

pub open spec fn choice_views(v: Seq<(Option<String>, bool)>) -> Seq<(Option<Seq<char>>, bool)> {
    v.map_values(
        |c: (Option<String>, bool)|
            (
                match c.0 {
                    Some(t) => Some(t@),
                    None => None,
                },
                c.1,
            ),
    )
}

/// The chunks for one event's choices (their delta text and whether they
/// carry a finish reason), and whether the stream ended.
pub fn event_chunks(choices: &Vec<(Option<String>, bool)>) -> (r: (Vec<StreamChunk>, bool))
    ensures
        (chunk_views(r.0@), r.1) == choice_chunks(choice_views(choices@)),
{
    let ghost cv = choice_views(choices@);
    let mut out: Vec<StreamChunk> = Vec::new();
    let mut i: usize = 0;
    assert(cv.skip(0) =~= cv);
    while i < choices.len()
        invariant
            i <= choices@.len(),
            cv == choice_views(choices@),
            choice_chunks(cv) == (chunk_views(out@) + choice_chunks(cv.skip(i as int)).0, choice_chunks(
                cv.skip(i as int),
            ).1),
        decreases choices@.len() - i,
    {
        let ghost before = chunk_views(out@);
        assert(cv.skip(i as int)[0] == cv[i as int]);
        assert(cv.skip(i as int).drop_first() =~= cv.skip(i + 1));
        match &choices[i].0 {
            Some(t) => {
                if byte_len(t.as_str()) > 0 {
                    out.push(StreamChunk::Token(t.clone()));
                }
            },
            None => {},
        }
        let ghost mid = chunk_views(out@);
        if choices[i].1 {
            out.push(StreamChunk::Done);
            assert(chunk_views(out@) =~= mid.push(ChunkView::Done));
            assert(chunk_views(out@) =~= before + choice_chunks(cv.skip(i as int)).0);
            return (out, true);
        }
        assert(before + choice_chunks(cv.skip(i as int)).0 =~= mid + choice_chunks(cv.skip(i + 1)).0);
        i = i + 1;
    }
    assert(cv.skip(i as int) =~= Seq::<(Option<Seq<char>>, bool)>::empty());
    assert(chunk_views(out@) + Seq::<ChunkView>::empty() =~= chunk_views(out@));
    (out, false)
}

// ── Line-delimited JSON streams (Ollama) ────────────────────────────────────

/// The non-empty `\n`-separated segments of a byte sequence.
pub open spec fn byte_lines(b: Seq<u8>) -> Seq<Seq<u8>>
    decreases b.len(),
{
    if b.len() == 0 {
        seq![]
    } else {
        let i = first_newline(b);
        proof {
            lemma_first_newline(b);
        }
        if i < b.len() {
            (if i > 0 {
                seq![b.take(i)]
            } else {
                seq![]
            }) + byte_lines(b.skip(i + 1))
        } else {
            seq![b]
        }
    }
}

/// The position of the first `\n` byte, or the length when there is none.
pub open spec fn first_newline(b: Seq<u8>) -> int
    decreases b.len(),
{
    if b.len() == 0 {
        0
    } else if b[0] == 10u8 {
        0
    } else {
        1 + first_newline(b.drop_first())
    }
}

pub proof fn lemma_first_newline(b: Seq<u8>)
    ensures
        0 <= first_newline(b) <= b.len(),
        first_newline(b) < b.len() ==> b[first_newline(b)] == 10u8,
        forall|j: int| 0 <= j < first_newline(b) ==> b[j] != 10u8,
    decreases b.len(),
{
    if b.len() > 0 && b[0] != 10u8 {
        lemma_first_newline(b.drop_first());
        assert forall|j: int| 0 <= j < first_newline(b) implies b[j] != 10u8 by {
            if j > 0 {
                assert(b[j] == b.drop_first()[j - 1]);
            }
        }
    }
}

proof fn lemma_first_newline_at(b: Seq<u8>, i: int)
    requires
        0 <= i <= b.len(),
        i < b.len() ==> b[i] == 10u8,
        forall|j: int| 0 <= j < i ==> b[j] != 10u8,
    ensures
        first_newline(b) == i,
    decreases b.len(),
{
    if b.len() > 0 && i > 0 {
        assert forall|j: int| 0 <= j < i - 1 implies b.drop_first()[j] != 10u8 by {
            assert(b.drop_first()[j] == b[j + 1]);
        }
        lemma_first_newline_at(b.drop_first(), i - 1);
    }
}

/// The non-empty lines of a received chunk of bytes.
pub fn split_byte_lines(bytes: &[u8]) -> (r: Vec<Vec<u8>>)
    ensures
        r@.map_values(|l: Vec<u8>| l@) == byte_lines(bytes@),
{
    let mut out: Vec<Vec<u8>> = Vec::new();
    let mut pos: usize = 0;
    assert(bytes@.skip(0) =~= bytes@);
    while pos < bytes.len()
        invariant
            pos <= bytes@.len(),
            byte_lines(bytes@) == out@.map_values(|l: Vec<u8>| l@) + byte_lines(bytes@.skip(pos as int)),
        decreases bytes@.len() - pos,
    {
        let ghost rest = bytes@.skip(pos as int);
        let ghost before = out@.map_values(|l: Vec<u8>| l@);
        let mut end = pos;
        while end < bytes.len() && bytes[end] != 10u8
            invariant
                pos <= end <= bytes@.len(),
                forall|j: int| pos <= j < end ==> bytes@[j] != 10u8,
            decreases bytes@.len() - end,
        {
            end = end + 1;
        }
        proof {
            lemma_first_newline_at(rest, end - pos);
        }
        let mut line: Vec<u8> = Vec::new();
        let mut k = pos;
        while k < end
            invariant
                pos <= k <= end <= bytes@.len(),
                line@ == bytes@.subrange(pos as int, k as int),
            decreases end - k,
        {
            line.push(bytes[k]);
            assert(bytes@.subrange(pos as int, k + 1) =~= bytes@.subrange(pos as int, k as int).push(bytes@[k as int]));
            k = k + 1;
        }
        if end < bytes.len() {
            if end > pos {
                out.push(line);
                assert(line@ =~= rest.take(end - pos));
                assert(out@.map_values(|l: Vec<u8>| l@) =~= before.push(rest.take(end - pos)));
            }
            assert(rest.skip(end - pos + 1) =~= bytes@.skip(end + 1));
            assert(out@.map_values(|l: Vec<u8>| l@) + byte_lines(bytes@.skip(end + 1)) =~= before
                + byte_lines(rest));
            pos = end + 1;
        } else {
            assert(line@ =~= rest);
            out.push(line);
            assert(out@.map_values(|l: Vec<u8>| l@) =~= before.push(rest));
            assert(bytes@.skip(bytes@.len() as int) =~= Seq::<u8>::empty());
            assert(before.push(rest) + byte_lines(Seq::<u8>::empty()) =~= before + byte_lines(rest));
            pos = end;
        }
    }
    assert(bytes@.skip(pos as int) =~= Seq::<u8>::empty());
    assert(out@.map_values(|l: Vec<u8>| l@) + Seq::<Seq<u8>>::empty() =~= out@.map_values(
        |l: Vec<u8>| l@,
    ));
    out
}

/// The chunks for one streamed line: its non-empty message text as a token,
/// then the end of the stream when it says it is done.
pub fn line_chunks(content: Option<String>, done: bool) -> (r: Vec<StreamChunk>)
    ensures
        chunk_views(r@) == (match content {
            Some(t) => if t@.len() > 0 {
                seq![ChunkView::Token(t@)]
            } else {
                seq![]
            },
            None => seq![],
        }) + (if done {
            seq![ChunkView::Done]
        } else {
            seq![]
        }),
{
    let mut out: Vec<StreamChunk> = Vec::new();
    match content {
        Some(t) => {
            if byte_len(t.as_str()) > 0 {
                out.push(StreamChunk::Token(t));
            }
        },
        None => {},
    }
    if done {
        out.push(StreamChunk::Done);
    }
    assert(chunk_views(out@) =~= (match content {
        Some(t) => if t@.len() > 0 {
            seq![ChunkView::Token(t@)]
        } else {
            seq![]
        },
        None => seq![],
    }) + (if done {
        seq![ChunkView::Done]
    } else {
        seq![]
    }));
    out
}

} // verus!
