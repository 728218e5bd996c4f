//! The planning step: the prompt that asks a small model which tools to run
//! first, the conversation summary it gets, and the reading of its reply.

use vstd::prelude::*;
use crate::ai::{Message, MessageView, Role, message_views};
use crate::args::ToolArgs;
use crate::text::{
    byte_len, byte_prefix, chars_of, find_first, find_in, fit_prefix_len, join, join_chars,
    lemma_find_from, lemma_rfind_char, push_all, push_str, rfind_char, rfind_in, slice_sub,
    starts_with, string_of, trim, trim_bounds, utf8_len, views,
};

verus! {

/// One tool call scheduled by the planner.
#[derive(Debug)]
pub struct PlannedCall {
    /// Tool name; the executor knows the tools by name.
    pub tool: String,
    /// Tool arguments.
    pub args: ToolArgs,
    /// A one-line reason shown in the interface.
    pub reason: String,
}

/// A planned call as plain values.
pub type PlannedView = (Seq<char>, Seq<(Seq<char>, Seq<char>)>, Seq<char>);

impl PlannedCall {
    pub open spec fn view_planned(&self) -> PlannedView {
        (self.tool@, self.args.pairs(), self.reason@)
    }
}

impl PlannedCall {
    /// A copy of this call.
    pub fn duplicate(&self) -> (r: Self)
        ensures
            r.view_planned() == self.view_planned(),
    {
        PlannedCall { tool: self.tool.clone(), args: self.args.duplicate(), reason: self.reason.clone() }
    }
}

/// A copy of every planned call.
pub fn copy_planned(v: &Vec<PlannedCall>) -> (r: Vec<PlannedCall>)
    ensures
        planned_views(r@) == planned_views(v@),
{
    let mut r: Vec<PlannedCall> = Vec::new();
    for i in 0..v.len()
        invariant
            planned_views(r@) == planned_views(v@).take(i as int),
    {
        let ghost before = planned_views(r@);
        r.push(v[i].duplicate());
        assert(planned_views(r@) =~= before.push(v@[i as int].view_planned()));
        assert(planned_views(v@).take(i + 1) =~= planned_views(v@).take(i as int).push(
            v@[i as int].view_planned(),
        ));
    }
    assert(planned_views(v@).take(v@.len() as int) =~= planned_views(v@));
    r
}

/// The views of a sequence of planned calls.
pub open spec fn planned_views(v: Seq<PlannedCall>) -> Seq<PlannedView> {
    v.map_values(|c: PlannedCall| c.view_planned())
}

/// The tools the planner may schedule, as described to it.
pub open spec fn catalogue() -> Seq<char> {
    "Available tools (use exact tool names):\n\nread_file    – Read a file's contents.\n               args: { \"path\": \"<relative or absolute path>\" }\n\nwrite_file   – Write (create or overwrite) a file.\n               args: { \"path\": \"<path>\", \"content\": \"<full file text>\" }\n\nrun_shell    – Run a shell command and return stdout+stderr.\n               args: { \"command\": \"<shell command>\" }\n\nlist_dir     – List files and directories at a path.\n               args: { \"path\": \"<directory path>\" }\n\nweb_search   – Search the web via DuckDuckGo instant answers.\n               args: { \"query\": \"<search query>\" }\n"@
}

/// The tool catalogue text.
pub fn tool_catalogue() -> (r: &'static str)
    ensures
        r@ == catalogue(),
{
    "Available tools (use exact tool names):\n\nread_file    – Read a file's contents.\n               args: { \"path\": \"<relative or absolute path>\" }\n\nwrite_file   – Write (create or overwrite) a file.\n               args: { \"path\": \"<path>\", \"content\": \"<full file text>\" }\n\nrun_shell    – Run a shell command and return stdout+stderr.\n               args: { \"command\": \"<shell command>\" }\n\nlist_dir     – List files and directories at a path.\n               args: { \"path\": \"<directory path>\" }\n\nweb_search   – Search the web via DuckDuckGo instant answers.\n               args: { \"query\": \"<search query>\" }\n"
}

/// The planner prompt around the catalogue, file tree, summary and message.
pub open spec fn prompt_head() -> Seq<char> {
    "You are a planning agent. Your job is to decide which tools (if any) need to run BEFORE a coding assistant answers the user's message.\n\n"@
}

pub open spec fn prompt_tree_head() -> Seq<char> {
    "\n\nCurrent working directory file tree:\n"@
}

pub open spec fn prompt_summary_head() -> Seq<char> {
    "\n\n"@
}

pub open spec fn prompt_message_head() -> Seq<char> {
    "\n\nUser message:\n"@
}

pub open spec fn prompt_tail() -> Seq<char> {
    "\n\nInstructions:\n- Output ONLY a JSON array of tool calls. No prose, no markdown, no explanation.\n- If no tools are needed (the message is conversational, or you already have enough context), output exactly: []\n- Do not schedule write_file unless the user explicitly asks to create or modify a file.\n- Do not schedule run_shell unless the user explicitly asks to run something, build, or test.\n- Prefer read_file and list_dir for exploration tasks.\n- Limit to 5 tool calls maximum.\n- Each element must have exactly: \"tool\", \"args\", \"reason\".\n\nExamples:\n\nUser: \"why is my main.rs failing to compile?\"\nOutput: [{\"tool\":\"run_shell\",\"args\":{\"command\":\"cargo check 2>&1 | head -40\"},\"reason\":\"Get compiler errors\"},{\"tool\":\"read_file\",\"args\":{\"path\":\"src/main.rs\"},\"reason\":\"Read the failing file\"}]\n\nUser: \"what files are in the src directory?\"\nOutput: [{\"tool\":\"list_dir\",\"args\":{\"path\":\"src\"},\"reason\":\"List src directory contents\"}]\n\nUser: \"hello, how are you?\"\nOutput: []\n\nUser: \"what version of tokio should I use?\"\nOutput: [{\"tool\":\"web_search\",\"args\":{\"query\":\"tokio crate latest version 2024\"},\"reason\":\"Find current tokio version\"}]\n\nNow output the JSON array for the user message above:"@
}

fn prompt_head_text() -> (r: &'static str)
    ensures
        r@ == prompt_head(),
{
    "You are a planning agent. Your job is to decide which tools (if any) need to run BEFORE a coding assistant answers the user's message.\n\n"
}

fn prompt_tree_head_text() -> (r: &'static str)
    ensures
        r@ == prompt_tree_head(),
{
    "\n\nCurrent working directory file tree:\n"
}

fn prompt_summary_head_text() -> (r: &'static str)
    ensures
        r@ == prompt_summary_head(),
{
    "\n\n"
}

fn prompt_message_head_text() -> (r: &'static str)
    ensures
        r@ == prompt_message_head(),
{
    "\n\nUser message:\n"
}

fn prompt_tail_text() -> (r: &'static str)
    ensures
        r@ == prompt_tail(),
{
    "\n\nInstructions:\n- Output ONLY a JSON array of tool calls. No prose, no markdown, no explanation.\n- If no tools are needed (the message is conversational, or you already have enough context), output exactly: []\n- Do not schedule write_file unless the user explicitly asks to create or modify a file.\n- Do not schedule run_shell unless the user explicitly asks to run something, build, or test.\n- Prefer read_file and list_dir for exploration tasks.\n- Limit to 5 tool calls maximum.\n- Each element must have exactly: \"tool\", \"args\", \"reason\".\n\nExamples:\n\nUser: \"why is my main.rs failing to compile?\"\nOutput: [{\"tool\":\"run_shell\",\"args\":{\"command\":\"cargo check 2>&1 | head -40\"},\"reason\":\"Get compiler errors\"},{\"tool\":\"read_file\",\"args\":{\"path\":\"src/main.rs\"},\"reason\":\"Read the failing file\"}]\n\nUser: \"what files are in the src directory?\"\nOutput: [{\"tool\":\"list_dir\",\"args\":{\"path\":\"src\"},\"reason\":\"List src directory contents\"}]\n\nUser: \"hello, how are you?\"\nOutput: []\n\nUser: \"what version of tokio should I use?\"\nOutput: [{\"tool\":\"web_search\",\"args\":{\"query\":\"tokio crate latest version 2024\"},\"reason\":\"Find current tokio version\"}]\n\nNow output the JSON array for the user message above:"
}

/// The file tree as the planner sees it.
pub open spec fn tree_text(tree: Seq<Seq<char>>) -> Seq<char> {
    if tree.len() == 0 {
        "(no file tree available)"@
    } else {
        join(tree, "\n"@)
    }
}

/// The prompt sent to the planner model.
pub open spec fn planner_prompt(user_message: Seq<char>, tree: Seq<Seq<char>>, summary: Seq<char>) -> Seq<char> {
    prompt_head() + catalogue() + prompt_tree_head() + tree_text(tree) + prompt_summary_head()
        + summary + prompt_message_head() + user_message + prompt_tail()
}

/// The views of a sequence of strings.
pub open spec fn string_views(v: Seq<String>) -> Seq<Seq<char>> {
    v.map_values(|s: String| s@)
}

/// The prompt asking the planner which tools to run before answering.
pub fn build_planner_prompt(user_message: &str, file_tree: &[String], conversation_summary: &str) -> (r: String)
    ensures
        r@ == planner_prompt(user_message@, string_views(file_tree@), conversation_summary@),
{
    let mut v: Vec<char> = Vec::new();
    push_str(&mut v, prompt_head_text());
    push_str(&mut v, tool_catalogue());
    push_str(&mut v, prompt_tree_head_text());
    if file_tree.len() == 0 {
        push_str(&mut v, "(no file tree available)");
    } else {
        let mut parts: Vec<Vec<char>> = Vec::new();
        for i in 0..file_tree.len()
            invariant
                views(parts@) == string_views(file_tree@).take(i as int),
        {
            let ghost before = views(parts@);
            parts.push(chars_of(file_tree[i].as_str()));
            assert(views(parts@) =~= before.push(file_tree@[i as int]@));
            assert(string_views(file_tree@).take(i + 1) =~= string_views(file_tree@).take(
                i as int,
            ).push(file_tree@[i as int]@));
        }
        assert(string_views(file_tree@).take(file_tree@.len() as int) =~= string_views(
            file_tree@,
        ));
        let nl = chars_of("\n");
        let joined = join_chars(&parts, nl.as_slice());
        push_all(&mut v, joined.as_slice());
    }
    push_str(&mut v, prompt_summary_head_text());
    push_str(&mut v, conversation_summary);
    push_str(&mut v, prompt_message_head_text());
    push_str(&mut v, user_message);
    push_str(&mut v, prompt_tail_text());
    string_of(v.as_slice())
}

// ── Conversation summary ─────────────────────────────────────────────────────

/// The last eight messages, oldest first.
pub open spec fn recent_window(ms: Seq<MessageView>) -> Seq<MessageView> {
    if ms.len() <= 8 {
        ms
    } else {
        ms.skip(ms.len() - 8)
    }
}

/// A message body cut to 300 bytes, with a marker when it was longer.
pub open spec fn clipped(c: Seq<char>) -> Seq<char> {
    if utf8_len(c) > 300 {
        byte_prefix(c, 300) + "… (truncated)"@
    } else {
        c
    }
}

/// The summary line of one message; system messages give none.
pub open spec fn summary_line(m: MessageView) -> Seq<char> {
    match m.0 {
        Role::User => "[User]: "@ + clipped(m.1) + "\n"@,
        Role::Assistant => "[Assistant]: "@ + clipped(m.1) + "\n"@,
        Role::System => seq![],
    }
}

/// The summary lines of `ms`, in order.
pub open spec fn summary_lines(ms: Seq<MessageView>) -> Seq<char>
    decreases ms.len(),
{
    if ms.len() == 0 {
        seq![]
    } else {
        summary_lines(ms.drop_last()) + summary_line(ms.last())
    }
}

/// The header of the conversation summary.
pub open spec fn summary_header() -> Seq<char> {
    "Recent conversation context (for reference — don't re-fetch what's already here):\n"@
}

/// Recent context for the planner, empty when there are no messages.
pub open spec fn conversation_summary(ms: Seq<MessageView>) -> Seq<char> {
    if recent_window(ms).len() == 0 {
        seq![]
    } else {
        summary_header() + summary_lines(recent_window(ms))
    }
}

/// Every long message of the window has a character boundary at byte 300,
/// where it is cut.
pub open spec fn summary_ok(ms: Seq<MessageView>) -> bool {
    forall|i: int|
        0 <= i < recent_window(ms).len() && recent_window(ms)[i].0 != Role::System && utf8_len(
            recent_window(ms)[i].1,
        ) > 300 ==> utf8_len(byte_prefix(#[trigger] recent_window(ms)[i].1, 300)) == 300
}

/// Whether the summary can be made: every long message of the window needs a
/// character boundary at byte 300.
pub fn summary_fits_all(messages: &[Message]) -> (b: bool)
    ensures
        b == summary_ok(message_views(messages@)),
{
    let ghost ms = message_views(messages@);
    let n = messages.len();
    let first = if n > 8 {
        n - 8
    } else {
        0
    };
    let ghost win = recent_window(ms);
    assert(win =~= ms.skip(first as int));
    for i in first..n
        invariant
            first <= n,
            n == messages@.len(),
            ms == message_views(messages@),
            win == ms.skip(first as int),
            win == recent_window(ms),
            forall|j: int|
                0 <= j < i - first && win[j].0 != Role::System && utf8_len(win[j].1) > 300 ==> utf8_len(
                    byte_prefix(#[trigger] win[j].1, 300),
                ) == 300,
    {
        let ghost k = i - first;
        assert(win[k] == messages@[i as int].view_msg());
        let is_system = match messages[i].role {
            Role::System => true,
            _ => false,
        };
        if !is_system && !crate::text::cut_fits(messages[i].content.as_str(), 300) {
            proof {
                assert(recent_window(ms)[k].0 != Role::System);
                assert(utf8_len(recent_window(ms)[k].1) > 300);
                assert(utf8_len(byte_prefix(recent_window(ms)[k].1, 300)) != 300);
            }
            return false;
        }
    }
    true
}

/// A brief window of recent context, so the planner does not fetch again
/// what was already read.
pub fn build_conversation_summary(messages: &[Message]) -> (r: String)
    requires
        summary_ok(message_views(messages@)),
    ensures
        r@ == conversation_summary(message_views(messages@)),
{
    let ghost ms = message_views(messages@);
    let n = messages.len();
    let first = if n > 8 {
        n - 8
    } else {
        0
    };
    let ghost win = recent_window(ms);
    assert(win =~= ms.skip(first as int));
    if n == 0 {
        return String::new();
    }
    let mut v: Vec<char> = Vec::new();
    push_str(&mut v, "Recent conversation context (for reference — don't re-fetch what's already here):\n");
    let ghost head = v@;
    assert(win.take(0) =~= Seq::<MessageView>::empty());
    for i in first..n
        invariant
            first <= n,
            n == messages@.len(),
            ms == message_views(messages@),
            win == ms.skip(first as int),
            win == recent_window(ms),
            summary_ok(ms),
            head == summary_header(),
            v@ == head + summary_lines(win.take(i - first)),
    {
        let ghost k = i - first;
        assert(win[k] == messages@[i as int].view_msg());
        assert(win.take(k + 1).drop_last() =~= win.take(k));
        let m = &messages[i];
        match m.role {
            Role::System => {
            },
            _ => {
                if let Role::User = m.role {
                    push_str(&mut v, "[User]: ");
                } else {
                    push_str(&mut v, "[Assistant]: ");
                }
                if byte_len(m.content.as_str()) > 300 {
                    let cv = chars_of(m.content.as_str());
                    let kk = fit_prefix_len(cv.as_slice(), 300);
                    let cut = slice_sub(cv.as_slice(), 0, kk);
                    assert(cut@ =~= byte_prefix(m.content@, 300));
                    push_all(&mut v, cut.as_slice());
                    push_str(&mut v, "… (truncated)");
                } else {
                    push_str(&mut v, m.content.as_str());
                }
                push_str(&mut v, "\n");
            },
        }
        assert(v@ =~= head + summary_lines(win.take(k + 1)));
    }
    assert(win.take(n - first) =~= win);
    string_of(v.as_slice())
}


// ── Reading the planner's reply ──────────────────────────────────────────────

/// `s` with every leading copy of `p` removed (`str::trim_start_matches`).
pub open spec fn strip_leading(s: Seq<char>, p: Seq<char>) -> Seq<char>
    decreases s.len(),
{
    if p.len() > 0 && p.len() <= s.len() && s.take(p.len() as int) == p {
        strip_leading(s.skip(p.len() as int), p)
    } else {
        s
    }
}

/// `s` with every trailing copy of `p` removed (`str::trim_end_matches`).
pub open spec fn strip_trailing(s: Seq<char>, p: Seq<char>) -> Seq<char>
    decreases s.len(),
{
    if p.len() > 0 && p.len() <= s.len() && s.skip(s.len() - p.len()) == p {
        strip_trailing(s.take(s.len() - p.len()), p)
    } else {
        s
    }
}

/// The reply with surrounding whitespace and markdown code fences removed.
pub open spec fn unfenced(raw: Seq<char>) -> Seq<char> {
    trim(strip_trailing(strip_leading(strip_leading(trim(raw), "```json"@), "```"@), "```"@))
}

/// Why a planner reply holds no JSON array.
#[derive(Debug, Clone, Copy, PartialEq, Eq, Structural)]
pub enum PlanError {
    /// No `[` in the reply.
    NoArray,
    /// A `[` but no `]` in the reply.
    Unclosed,
}

impl PlanError {
    pub open spec fn spec_message(self) -> Seq<char> {
        match self {
            PlanError::NoArray => "No JSON array found in planner response"@,
            PlanError::Unclosed => "Unclosed JSON array in planner response"@,
        }
    }

    /// The error's text.
    pub fn message(&self) -> (r: &'static str)
        ensures
            r@ == self.spec_message(),
    {
        match self {
            PlanError::NoArray => "No JSON array found in planner response",
            PlanError::Unclosed => "Unclosed JSON array in planner response",
        }
    }
}

/// The outermost `[ … ]` of the unfenced reply: from its first `[` through its
/// last `]`. A reply whose last `]` comes before its first `[` holds no array.
pub open spec fn array_text(raw: Seq<char>) -> Result<Seq<char>, PlanError> {
    let s = unfenced(raw);
    match find_first(s, seq!['[']) {
        None => Err(PlanError::NoArray),
        Some(a) => match rfind_char(s, ']') {
            None => Err(PlanError::Unclosed),
            Some(b) => if b < a {
                Err(PlanError::NoArray)
            } else {
                Ok(s.subrange(a, b + 1))
            },
        },
    }
}

pub fn strip_leading_chars(s: Vec<char>, p: &[char]) -> (r: Vec<char>)
    ensures
        r@ == strip_leading(s@, p@),
    decreases s@.len(),
{
    if p.len() > 0 && starts_with(s.as_slice(), p) {
        let rest = slice_sub(s.as_slice(), p.len(), s.len());
        assert(rest@ =~= s@.skip(p@.len() as int));
        strip_leading_chars(rest, p)
    } else {
        s
    }
}

fn strip_trailing_chars(s: Vec<char>, p: &[char]) -> (r: Vec<char>)
    ensures
        r@ == strip_trailing(s@, p@),
    decreases s@.len(),
{
    if p.len() > 0 && p.len() <= s.len() {
        let tail = slice_sub(s.as_slice(), s.len() - p.len(), s.len());
        assert(tail@ =~= s@.skip(s@.len() - p@.len()));
        let is_tail = starts_with(tail.as_slice(), p);
        assert(is_tail == (tail@ == p@)) by {
            assert(tail@.take(p@.len() as int) =~= tail@);
        }
        if is_tail {
            let head = slice_sub(s.as_slice(), 0, s.len() - p.len());
            assert(head@ =~= s@.take(s@.len() - p@.len()));
            return strip_trailing_chars(head, p);
        }
    }
    s
}

/// The JSON array text of a planner reply.
pub fn json_array_text(raw: &str) -> (r: Result<String, PlanError>)
    ensures
        match r {
            Ok(t) => array_text(raw@) == Ok::<Seq<char>, PlanError>(t@),
            Err(e) => array_text(raw@) == Err::<Seq<char>, PlanError>(e),
        },
{
    let v = chars_of(raw);
    let (a, b) = trim_bounds(v.as_slice());
    let t = slice_sub(v.as_slice(), a, b);
    let json_fence = chars_of("```json");
    let fence = chars_of("```");
    let t = strip_leading_chars(t, json_fence.as_slice());
    let t = strip_leading_chars(t, fence.as_slice());
    let t = strip_trailing_chars(t, fence.as_slice());
    let (a, b) = trim_bounds(t.as_slice());
    let s = slice_sub(t.as_slice(), a, b);
    assert(s@ == unfenced(raw@));
    let open: [char; 1] = ['['];
    assert(open@ =~= seq!['[']);
    match find_in(s.as_slice(), open.as_slice(), 0) {
        None => Err(PlanError::NoArray),
        Some(start) => match rfind_in(s.as_slice(), ']') {
            None => Err(PlanError::Unclosed),
            Some(end) => {
                if end < start {
                    Err(PlanError::NoArray)
                } else {
                    proof {
                        lemma_rfind_char(s@, ']');
                    }
                    Ok(string_of(slice_sub(s.as_slice(), start, end + 1).as_slice()))
                }
            },
        },
    }
}

/// At most `max` planned calls, the first ones.
pub fn cap_planned(calls: Vec<PlannedCall>, max: usize) -> (r: Vec<PlannedCall>)
    ensures
        planned_views(r@) == planned_views(calls@).take(
            if calls@.len() <= max {
                calls@.len() as int
            } else {
                max as int
            },
        ),
{
    let mut calls = calls;
    let ghost all = planned_views(calls@);
    if calls.len() > max {
        calls.truncate(max);
    }
    assert(planned_views(calls@) =~= all.take(
        if all.len() <= max {
            all.len() as int
        } else {
            max as int
        },
    ));
    calls
}

} // verus!
