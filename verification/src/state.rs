//! The interface's state and how it reacts: keys in each mode, slash
//! commands, agent events, and the results of the work it hands out.
//!
//! Work that reads or writes the outside world is returned as an `Effect`;
//! the caller performs it and reports back through the `*_done` methods.

use vstd::prelude::*;
use crate::agent::{prose_of, resolve, resolve_path, strip_tool_calls, AgentEvent, AgentStep};
use crate::ai::{copy_messages, message_views, Message, MessageView, Role};
use crate::app::{entry_views, kind_for, AppMode, ChatEntry, EntryKind, EntryView};
use crate::input::{
    backspace_of, buf_text, buf_wf, cur, delete_of, down_of, empty_buf, ins_char, ins_newline,
    left_of, on_boundary, right_of, up_of, BufferView, InputBuffer,
};
use crate::planner::{planned_views, PlannedCall};
use crate::session::{default_session_name, loaded_entries, loaded_messages, Session, SessionMeta};
use crate::text::{
    byte_len, byte_prefix, chars_of, decimal, decimal_string, fit_prefix_len, join, join_chars,
    lines, lines_of, push_all, push_str, slice_sub, str_eq, string_of, trim, trim_bounds,
    utf8_len, views,
};

verus! {

// ── Keys ─────────────────────────────────────────────────────────────────────

/// A key, as the interface reads it.
#[derive(Debug, Clone, Copy, PartialEq, Eq, Structural)]
pub enum KeyCode {
    Char(char),
    Enter,
    Esc,
    Up,
    Down,
    Left,
    Right,
    Home,
    End,
    Backspace,
    Delete,
    Other,
}

/// A key press with its modifiers.
#[derive(Debug, Clone, Copy, PartialEq, Eq, Structural)]
pub struct Key {
    pub code: KeyCode,
    pub ctrl: bool,
    pub alt: bool,
}

// ── Effects ──────────────────────────────────────────────────────────────────

/// Work on the outside world that a reaction asks for.
#[derive(Debug)]
pub enum Effect {
    /// Nothing to do.
    Nothing,
    /// Fetch the backend's models, then report with `models_listed`.
    OpenModelSelect,
    /// Save the session under this name, or a dated one; then `session_saved`.
    SaveSession { name: Option<String> },
    /// List the saved sessions, then report with `sessions_listed`.
    OpenSessionSelect,
    /// Save the session, start a new one, then `start_new_session`.
    NewSession,
    /// Load a session, then `session_loaded` or `session_load_failed`.
    LoadSession { id: String },
    /// Delete a saved session.
    DeleteSession { id: String },
    /// Switch the backend (and the session) to this model.
    SwitchModel { model: String },
    /// Run a shell command, then `shell_done`.
    RunShell { command: String },
    /// Read a file, then `read_done`.
    ReadFile { path: String },
    /// List a directory, then `list_done`.
    ListDir { path: String },
    /// Change into a directory (made canonical), then `cd_done`.
    ChangeDir { path: String },
    /// Start an agent run on the conversation.
    StartAgent,
    /// Save the session.
    Autosave,
}

/// An effect as plain values.
pub enum EffectView {
    Nothing,
    OpenModelSelect,
    SaveSession(Option<Seq<char>>),
    OpenSessionSelect,
    NewSession,
    LoadSession(Seq<char>),
    DeleteSession(Seq<char>),
    SwitchModel(Seq<char>),
    RunShell(Seq<char>),
    ReadFile(Seq<char>),
    ListDir(Seq<char>),
    ChangeDir(Seq<char>),
    StartAgent,
    Autosave,
}

impl Effect {
    pub open spec fn view_effect(&self) -> EffectView {
        match self {
            Effect::Nothing => EffectView::Nothing,
            Effect::OpenModelSelect => EffectView::OpenModelSelect,
            Effect::SaveSession { name } => EffectView::SaveSession(
                match name {
                    Some(n) => Some(n@),
                    None => None,
                },
            ),
            Effect::OpenSessionSelect => EffectView::OpenSessionSelect,
            Effect::NewSession => EffectView::NewSession,
            Effect::LoadSession { id } => EffectView::LoadSession(id@),
            Effect::DeleteSession { id } => EffectView::DeleteSession(id@),
            Effect::SwitchModel { model } => EffectView::SwitchModel(model@),
            Effect::RunShell { command } => EffectView::RunShell(command@),
            Effect::ReadFile { path } => EffectView::ReadFile(path@),
            Effect::ListDir { path } => EffectView::ListDir(path@),
            Effect::ChangeDir { path } => EffectView::ChangeDir(path@),
            Effect::StartAgent => EffectView::StartAgent,
            Effect::Autosave => EffectView::Autosave,
        }
    }
}

// ── State ────────────────────────────────────────────────────────────────────

/// An agent step card as plain values.
pub type StepView = (u32, Seq<char>, Seq<char>, Seq<char>, bool);

/// A session list entry as plain values.
pub type MetaView = (Seq<char>, Seq<char>, i64, Seq<char>, usize);

/// The interface state as plain values.
#[verifier::ext_equal]
pub struct ChatView {
    pub mode: AppMode,
    pub messages: Seq<MessageView>,
    pub chat_log: Seq<EntryView>,
    pub agent_steps: Seq<StepView>,
    pub agent_iteration: u32,
    pub streaming_label: Seq<char>,
    pub input: BufferView,
    pub input_history: Seq<Seq<char>>,
    pub input_history_idx: Option<usize>,
    pub scroll: u16,
    pub scroll_limit: u16,
    pub streaming: bool,
    pub streaming_buffer: Seq<char>,
    pub status: Seq<char>,
    pub available_models: Seq<Seq<char>>,
    pub selected_model_idx: usize,
    pub session_list: Seq<MetaView>,
    pub session_list_idx: usize,
    pub working_dir: Seq<char>,
    pub file_tree: Seq<Seq<char>>,
    pub should_quit: bool,
}

/// The interface state.
#[derive(Debug)]
pub struct ChatState {
    pub mode: AppMode,
    pub messages: Vec<Message>,
    pub chat_log: Vec<ChatEntry>,
    /// Tool call cards of the current agent run.
    pub agent_steps: Vec<AgentStep>,
    /// The iteration of the agent run in progress.
    pub agent_iteration: u32,
    /// What the agent is doing, e.g. "Thinking…".
    pub streaming_label: String,
    pub input: InputBuffer,
    pub input_history: Vec<String>,
    pub input_history_idx: Option<usize>,
    pub scroll: u16,
    /// The last offset at which the end of the chat is shown, as last drawn.
    pub scroll_limit: u16,
    pub streaming: bool,
    pub streaming_buffer: String,
    pub status: String,
    pub available_models: Vec<String>,
    pub selected_model_idx: usize,
    pub session_list: Vec<SessionMeta>,
    pub session_list_idx: usize,
    pub working_dir: String,
    pub file_tree: Vec<String>,
    pub should_quit: bool,
}

pub open spec fn step_view(s: AgentStep) -> StepView {
    (s.iteration, s.tool@, s.summary@, s.output@, s.success)
}

pub open spec fn meta_view(m: SessionMeta) -> MetaView {
    (m.id@, m.name@, m.updated_at, m.model@, m.message_count)
}

pub open spec fn strings(v: Seq<String>) -> Seq<Seq<char>> {
    v.map_values(|s: String| s@)
}

impl ChatState {
    pub open spec fn view_state(&self) -> ChatView {
        ChatView {
            mode: self.mode,
            messages: message_views(self.messages@),
            chat_log: entry_views(self.chat_log@),
            agent_steps: self.agent_steps@.map_values(|s: AgentStep| step_view(s)),
            agent_iteration: self.agent_iteration,
            streaming_label: self.streaming_label@,
            input: self.input.view_buf(),
            input_history: strings(self.input_history@),
            input_history_idx: self.input_history_idx,
            scroll: self.scroll,
            scroll_limit: self.scroll_limit,
            streaming: self.streaming,
            streaming_buffer: self.streaming_buffer@,
            status: self.status@,
            available_models: strings(self.available_models@),
            selected_model_idx: self.selected_model_idx,
            session_list: self.session_list@.map_values(|m: SessionMeta| meta_view(m)),
            session_list_idx: self.session_list_idx,
            working_dir: self.working_dir@,
            file_tree: strings(self.file_tree@),
            should_quit: self.should_quit,
        }
    }
}

/// The state's invariant: the input buffer is well formed and the history
/// position, when set, points into the history.
pub open spec fn state_wf(v: ChatView) -> bool {
    &&& buf_wf(v.input)
    &&& match v.input_history_idx {
        Some(i) => i < v.input_history.len(),
        None => true,
    }
}

/// The entries that were in the log before a step and are still there keep
/// their time stamps.
pub open spec fn stamps_kept(old: Seq<ChatEntry>, new: Seq<ChatEntry>) -> bool {
    forall|i: int| 0 <= i < old.len() && i < new.len() ==> #[trigger] new[i].timestamp == old[i].timestamp
}

/// The scroll position that follows the end of the chat.
pub open spec fn bottom() -> u16 {
    u16::MAX
}

/// `v` with an assistant entry added and the chat scrolled to its end.
pub open spec fn with_note(v: ChatView, content: Seq<char>) -> ChatView {
    ChatView {
        chat_log: v.chat_log.push((Role::Assistant, EntryKind::Assistant, content)),
        scroll: bottom(),
        ..v
    }
}


/// The offset at which the chat is shown: the end while it follows the end,
/// else where the user scrolled, never past the end.
pub open spec fn shown_scroll(v: ChatView) -> u16 {
    if v.scroll == bottom() || v.scroll > v.scroll_limit {
        v.scroll_limit
    } else {
        v.scroll
    }
}

/// Where the chat is drawn is where the state says it is shown, once the
/// state knows the limit of the drawn chat.
pub proof fn law_drawn_scroll(v: ChatView, content_height: u16, view_height: u16)
    requires
        v.scroll_limit == crate::ui::sat_sub16(content_height, view_height),
    ensures
        crate::ui::scroll_at(v.scroll, content_height, view_height) == shown_scroll(v),
{
}

/// One line further down from what is shown, stopping at the end; a chat
/// that follows its end keeps following it.
pub open spec fn scroll_down(v: ChatView) -> u16 {
    if v.scroll == bottom() {
        bottom()
    } else if shown_scroll(v) < v.scroll_limit {
        (shown_scroll(v) + 1) as u16
    } else {
        v.scroll_limit
    }
}

/// One line further up from what is shown, stopping at the top.
pub open spec fn scroll_up(v: ChatView) -> u16 {
    if shown_scroll(v) == 0 {
        0
    } else {
        (shown_scroll(v) - 1) as u16
    }
}

// ── Typing text into the input ───────────────────────────────────────────────

/// Typing one character: a newline breaks the row.
pub open spec fn type_char(b: BufferView, c: char) -> BufferView {
    if c == '\n' {
        ins_newline(b)
    } else {
        ins_char(b, c)
    }
}

/// Typing `s` into `b`, character by character.
pub open spec fn typed(b: BufferView, s: Seq<char>) -> BufferView
    decreases s.len(),
{
    if s.len() == 0 {
        b
    } else {
        type_char(typed(b, s.drop_last()), s.last())
    }
}

// ── Reactions, as plain values ───────────────────────────────────────────────

pub open spec fn normal_key(v: ChatView, k: Key) -> (ChatView, EffectView) {
    match k.code {
        KeyCode::Char(c) => {
            if c == 'q' {
                (ChatView { should_quit: true, ..v }, EffectView::Nothing)
            } else if c == 'c' && k.ctrl {
                (ChatView { should_quit: true, ..v }, EffectView::Nothing)
            } else if c == 'i' || c == 'a' {
                (ChatView { mode: AppMode::Insert, ..v }, EffectView::Nothing)
            } else if c == 'm' {
                (v, EffectView::OpenModelSelect)
            } else if c == 's' && k.ctrl {
                (v, EffectView::SaveSession(None))
            } else if c == '?' {
                (ChatView { mode: AppMode::Help, ..v }, EffectView::Nothing)
            } else if c == 'j' {
                (ChatView { scroll: scroll_down(v), ..v }, EffectView::Nothing)
            } else if c == 'k' {
                (ChatView { scroll: scroll_up(v), ..v }, EffectView::Nothing)
            } else if c == 'g' {
                (ChatView { scroll: 0, ..v }, EffectView::Nothing)
            } else if c == 'G' {
                (ChatView { scroll: bottom(), ..v }, EffectView::Nothing)
            } else {
                (v, EffectView::Nothing)
            }
        },
        KeyCode::Down => (ChatView { scroll: scroll_down(v), ..v }, EffectView::Nothing),
        KeyCode::Up => (ChatView { scroll: scroll_up(v), ..v }, EffectView::Nothing),
        _ => (v, EffectView::Nothing),
    }
}

pub open spec fn is_down_key(k: Key) -> bool {
    k.code == KeyCode::Down || k.code == KeyCode::Char('j')
}

pub open spec fn is_up_key(k: Key) -> bool {
    k.code == KeyCode::Up || k.code == KeyCode::Char('k')
}

pub open spec fn is_cancel_key(k: Key) -> bool {
    k.code == KeyCode::Esc || k.code == KeyCode::Char('q')
}

pub open spec fn model_key(v: ChatView, k: Key) -> (ChatView, EffectView) {
    if is_cancel_key(k) {
        (ChatView { mode: AppMode::Normal, ..v }, EffectView::Nothing)
    } else if is_down_key(k) {
        if v.selected_model_idx + 1 < v.available_models.len() {
            (ChatView { selected_model_idx: (v.selected_model_idx + 1) as usize, ..v }, EffectView::Nothing)
        } else {
            (v, EffectView::Nothing)
        }
    } else if is_up_key(k) {
        (ChatView {
            selected_model_idx: if v.selected_model_idx == 0 {
                0
            } else {
                (v.selected_model_idx - 1) as usize
            },
            ..v
        }, EffectView::Nothing)
    } else if k.code == KeyCode::Enter {
        if v.selected_model_idx < v.available_models.len() {
            let m = v.available_models[v.selected_model_idx as int];
            (ChatView { mode: AppMode::Normal, status: "Switched to model: "@ + m, ..v }, EffectView::SwitchModel(m))
        } else {
            (ChatView { mode: AppMode::Normal, ..v }, EffectView::Nothing)
        }
    } else {
        (v, EffectView::Nothing)
    }
}

pub open spec fn session_key(v: ChatView, k: Key) -> (ChatView, EffectView) {
    if is_cancel_key(k) {
        (ChatView { mode: AppMode::Normal, ..v }, EffectView::Nothing)
    } else if is_down_key(k) {
        if v.session_list_idx + 1 < v.session_list.len() {
            (ChatView { session_list_idx: (v.session_list_idx + 1) as usize, ..v }, EffectView::Nothing)
        } else {
            (v, EffectView::Nothing)
        }
    } else if is_up_key(k) {
        (ChatView {
            session_list_idx: if v.session_list_idx == 0 {
                0
            } else {
                (v.session_list_idx - 1) as usize
            },
            ..v
        }, EffectView::Nothing)
    } else if k.code == KeyCode::Enter {
        if v.session_list_idx < v.session_list.len() {
            (ChatView { mode: AppMode::Normal, ..v }, EffectView::LoadSession(v.session_list[v.session_list_idx as int].0))
        } else {
            (ChatView { mode: AppMode::Normal, ..v }, EffectView::Nothing)
        }
    } else if k.code == KeyCode::Char('d') {
        if v.session_list_idx < v.session_list.len() {
            let list = v.session_list.remove(v.session_list_idx as int);
            (ChatView {
                session_list: list,
                session_list_idx: if v.session_list_idx == 0 {
                    0
                } else {
                    (v.session_list_idx - 1) as usize
                },
                mode: if list.len() == 0 {
                    AppMode::Normal
                } else {
                    v.mode
                },
                status: "Session deleted"@,
                ..v
            }, EffectView::DeleteSession(v.session_list[v.session_list_idx as int].0))
        } else {
            (v, EffectView::Nothing)
        }
    } else {
        (v, EffectView::Nothing)
    }
}

pub open spec fn history_prev(v: ChatView) -> ChatView {
    if v.input_history.len() == 0 {
        v
    } else {
        let idx: int = match v.input_history_idx {
            None => v.input_history.len() - 1,
            Some(i) => if i == 0 {
                0
            } else {
                i - 1
            },
        };
        ChatView {
            input_history_idx: Some(idx as usize),
            input: typed(empty_buf(), v.input_history[idx]),
            ..v
        }
    }
}

pub open spec fn history_next(v: ChatView) -> ChatView {
    match v.input_history_idx {
        None => v,
        Some(i) => if i + 1 >= v.input_history.len() {
            ChatView { input_history_idx: None, input: empty_buf(), ..v }
        } else {
            ChatView {
                input_history_idx: Some((i + 1) as usize),
                input: typed(empty_buf(), v.input_history[i + 1]),
                ..v
            }
        },
    }
}


proof fn lemma_typed_on_boundary(s: Seq<char>)
    ensures
        on_boundary(typed(empty_buf(), s)),
    decreases s.len(),
{
    if s.len() == 0 {
        crate::input::law_new_is_empty();
    } else {
        lemma_typed_on_boundary(s.drop_last());
        let b = typed(empty_buf(), s.drop_last());
        if s.last() == '\n' {
            crate::input::law_insert_newline_text(b);
            lemma_ins_newline_boundary(b);
        } else {
            lemma_ins_char_boundary(b, s.last());
        }
    }
}

/// Typing a text into an empty input gives exactly that text, with the
/// cursor at its end.
pub proof fn law_typed_text(s: Seq<char>)
    ensures
        on_boundary(typed(empty_buf(), s)),
        buf_text(typed(empty_buf(), s)) == s,
        crate::input::text_pos(typed(empty_buf(), s)) == s.len(),
    decreases s.len(),
{
    if s.len() == 0 {
        crate::input::law_new_is_empty();
        assert(cur(empty_buf()) =~= Seq::<char>::empty());
        assert(crate::text::fit_chars(Seq::<char>::empty(), 0) == 0);
    } else {
        let d = s.drop_last();
        law_typed_text(d);
        let b = typed(empty_buf(), d);
        if s.last() == '\n' {
            crate::input::law_insert_newline_text(b);
            lemma_ins_newline_boundary(b);
        } else {
            crate::input::law_insert_char_text(b, s.last());
            lemma_ins_char_boundary(b, s.last());
        }
        assert(d.take(d.len() as int) =~= d);
        assert(d.skip(d.len() as int) =~= Seq::<char>::empty());
        assert(d + seq![s.last()] + Seq::<char>::empty() =~= s);
    }
}

/// Text sent with Ctrl+Enter (or Alt+Enter) is recalled, as it was sent, by
/// the next Alt+Up.
pub proof fn law_sent_text_recalled(v: ChatView, k: Key)
    requires
        state_wf(v),
        v.mode == AppMode::Insert,
        k.code == KeyCode::Enter,
        k.ctrl || k.alt,
        !v.streaming,
        trim(buf_text(v.input)).len() > 0,
    ensures
        ({
            let w = key_reaction(v, k).0;
            &&& w.input_history.last() == trim(buf_text(v.input))
            &&& buf_text(history_prev(w).input) == trim(buf_text(v.input))
            &&& history_prev(w).input_history_idx == Some((w.input_history.len() - 1) as usize)
        }),
{
    let t = trim(buf_text(v.input));
    let u = ChatView {
        input_history: v.input_history.push(t),
        input_history_idx: None,
        input: empty_buf(),
        ..v
    };
    let w = key_reaction(v, k).0;
    assert(w == submitted(u, t).0);
    assert(w.input_history == u.input_history && w.input_history_idx == u.input_history_idx);
    law_typed_text(t);
}

/// Alt+Up from fresh input recalls the newest entry, and Alt+Down right after
/// leaves the history with an empty input.
pub proof fn law_down_after_up(v: ChatView)
    requires
        state_wf(v),
        0 < v.input_history.len() <= usize::MAX,
        v.input_history_idx is None,
    ensures
        buf_text(history_prev(v).input) == v.input_history.last(),
        history_next(history_prev(v)).input == empty_buf(),
        history_next(history_prev(v)).input_history_idx is None,
{
    law_typed_text(v.input_history.last());
}

proof fn lemma_ins_char_boundary(b: BufferView, c: char)
    requires
        on_boundary(b),
    ensures
        on_boundary(ins_char(b, c)),
{
    crate::input::law_insert_char_text(b, c);
    let k = crate::input::cur_k(b);
    let l = cur(b);
    crate::input::lemma_boundary_k(l, b.col);
    let nl = l.take(k) + seq![c] + l.skip(k);
    assert(nl.take(k + 1) =~= l.take(k).push(c));
    assert(nl.take(k + 1).drop_last() =~= l.take(k));
    crate::input::lemma_take_is_boundary(nl, k + 1);
    crate::text::lemma_utf8_len_take_mono(nl, k + 1, nl.len() as int);
    assert(nl.take(nl.len() as int) =~= nl);
}

proof fn lemma_ins_newline_boundary(b: BufferView)
    requires
        on_boundary(b),
    ensures
        on_boundary(ins_newline(b)),
{
    let k = crate::input::cur_k(b);
    let l = cur(b);
    crate::input::lemma_boundary_k(l, b.col);
    assert(l.skip(k).take(0) =~= Seq::<char>::empty());
    crate::input::lemma_take_is_boundary(l.skip(k), 0);
}

impl ChatState {
    /// Adds an assistant entry and scrolls to the end of the chat.
    pub fn push_assistant(&mut self, content: String)
        ensures
            final(self).view_state() == with_note(old(self).view_state(), content@),
            state_wf(old(self).view_state()) ==> state_wf(final(self).view_state()),
            stamps_kept(old(self).chat_log@, final(self).chat_log@),
            final(self).chat_log@.len() == old(self).chat_log@.len() + 1,
    {
        let ghost v = self.view_state();
        self.chat_log.push(ChatEntry::new(Role::Assistant, content));
        self.scroll = u16::MAX;
        assert(self.view_state() =~= with_note(v, content@));
    }

    /// Replaces the input with `text`, typed character by character.
    fn load_input(&mut self, text: &str)
        ensures
            final(self).view_state() == (ChatView {
                input: typed(empty_buf(), text@),
                ..old(self).view_state()
            }),
            on_boundary(final(self).input.view_buf()),
            final(self).chat_log@ == old(self).chat_log@,
    {
        let ghost v = self.view_state();
        let ghost log0 = self.chat_log@;
        let cs = chars_of(text);
        self.input.clear();
        proof {
            crate::input::law_new_is_empty();
        }
        assert(cs@.take(0) =~= Seq::<char>::empty());
        for i in 0..cs.len()
            invariant
                cs@ == text@,
                self.input.view_buf() == typed(empty_buf(), cs@.take(i as int)),
                on_boundary(self.input.view_buf()),
                self.view_state() == (ChatView { input: self.input.view_buf(), ..v }),
                self.chat_log@ == log0,
        {
            assert(cs@.take(i + 1).drop_last() =~= cs@.take(i as int));
            if cs[i] == '\n' {
                self.input.insert_newline();
            } else {
                self.input.insert_char(cs[i]);
            }
            assert(self.view_state() =~= (ChatView { input: self.input.view_buf(), ..v }));
        }
        assert(cs@.take(cs@.len() as int) =~= cs@);
        assert(self.view_state() =~= (ChatView { input: typed(empty_buf(), text@), ..v }));
    }

    /// Recalls the previous history entry into the input.
    pub fn history_prev(&mut self)
        requires
            state_wf(old(self).view_state()),
        ensures
            final(self).view_state() == history_prev(old(self).view_state()),
            state_wf(final(self).view_state()),
            stamps_kept(old(self).chat_log@, final(self).chat_log@),
    {
        let ghost v = self.view_state();
        if self.input_history.len() == 0 {
            return;
        }
        let idx = match self.input_history_idx {
            None => self.input_history.len() - 1,
            Some(i) => if i == 0 {
                0
            } else {
                i - 1
            },
        };
        self.input_history_idx = Some(idx);
        let text = self.input_history[idx].clone();
        self.load_input(text.as_str());
        assert(self.view_state() =~= history_prev(v));
    }

    /// Recalls the next history entry, or clears the input past the newest one.
    pub fn history_next(&mut self)
        requires
            state_wf(old(self).view_state()),
        ensures
            final(self).view_state() == history_next(old(self).view_state()),
            state_wf(final(self).view_state()),
            stamps_kept(old(self).chat_log@, final(self).chat_log@),
    {
        let ghost v = self.view_state();
        match self.input_history_idx {
            None => {},
            Some(i) => {
                let n = self.input_history.len();
                assert(i < n);
                if i + 1 >= n {
                    self.input_history_idx = None;
                    self.input.clear();
                    assert(self.view_state() =~= history_next(v));
                } else {
                    self.input_history_idx = Some(i + 1);
                    let text = self.input_history[i + 1].clone();
                    self.load_input(text.as_str());
                    assert(self.view_state() =~= history_next(v));
                }
            },
        }
    }

    /// The offset at which the chat is shown.
    pub fn shown_scroll(&self) -> (r: u16)
        ensures
            r == shown_scroll(self.view_state()),
    {
        if self.scroll == u16::MAX || self.scroll > self.scroll_limit {
            self.scroll_limit
        } else {
            self.scroll
        }
    }

    fn scrolled_down(&self) -> (r: u16)
        ensures
            r == scroll_down(self.view_state()),
    {
        let s = self.shown_scroll();
        if self.scroll == u16::MAX {
            u16::MAX
        } else if s < self.scroll_limit {
            s + 1
        } else {
            self.scroll_limit
        }
    }

    fn scrolled_up(&self) -> (r: u16)
        ensures
            r == scroll_up(self.view_state()),
    {
        let s = self.shown_scroll();
        if s == 0 {
            0
        } else {
            s - 1
        }
    }

    /// The chat was drawn: `limit` is now the last offset at which its end shows.
    pub fn set_scroll_limit(&mut self, limit: u16)
        ensures
            final(self).view_state() == (ChatView { scroll_limit: limit, ..old(self).view_state() }),
            state_wf(old(self).view_state()) ==> state_wf(final(self).view_state()),
            stamps_kept(old(self).chat_log@, final(self).chat_log@),
    {
        let ghost v = self.view_state();
        self.scroll_limit = limit;
        assert(self.view_state() =~= (ChatView { scroll_limit: limit, ..v }));
    }

    /// Reacts to a key in normal mode.
    pub fn handle_normal_key(&mut self, key: Key) -> (e: Effect)
        ensures
            final(self).view_state() == normal_key(old(self).view_state(), key).0,
            e.view_effect() == normal_key(old(self).view_state(), key).1,
            state_wf(old(self).view_state()) ==> state_wf(final(self).view_state()),
            stamps_kept(old(self).chat_log@, final(self).chat_log@),
    {
        let ghost v = self.view_state();
        let e = match key.code {
            KeyCode::Char(c) => {
                if c == 'q' {
                    self.should_quit = true;
                    Effect::Nothing
                } else if c == 'c' && key.ctrl {
                    self.should_quit = true;
                    Effect::Nothing
                } else if c == 'i' || c == 'a' {
                    self.mode = AppMode::Insert;
                    Effect::Nothing
                } else if c == 'm' {
                    Effect::OpenModelSelect
                } else if c == 's' && key.ctrl {
                    Effect::SaveSession { name: None }
                } else if c == '?' {
                    self.mode = AppMode::Help;
                    Effect::Nothing
                } else if c == 'j' {
                    self.scroll = self.scrolled_down();
                    Effect::Nothing
                } else if c == 'k' {
                    self.scroll = self.scrolled_up();
                    Effect::Nothing
                } else if c == 'g' {
                    self.scroll = 0;
                    Effect::Nothing
                } else if c == 'G' {
                    self.scroll = u16::MAX;
                    Effect::Nothing
                } else {
                    Effect::Nothing
                }
            },
            KeyCode::Down => {
                self.scroll = self.scrolled_down();
                Effect::Nothing
            },
            KeyCode::Up => {
                self.scroll = self.scrolled_up();
                Effect::Nothing
            },
            _ => Effect::Nothing,
        };
        assert(self.view_state() =~= normal_key(v, key).0);
        e
    }

    /// Reacts to a key in the model picker.
    pub fn handle_model_select_key(&mut self, key: Key) -> (e: Effect)
        ensures
            final(self).view_state() == model_key(old(self).view_state(), key).0,
            e.view_effect() == model_key(old(self).view_state(), key).1,
            state_wf(old(self).view_state()) ==> state_wf(final(self).view_state()),
            stamps_kept(old(self).chat_log@, final(self).chat_log@),
    {
        let ghost v = self.view_state();
        let e = if key.code == KeyCode::Esc || key.code == KeyCode::Char('q') {
            self.mode = AppMode::Normal;
            Effect::Nothing
        } else if key.code == KeyCode::Down || key.code == KeyCode::Char('j') {
            if self.selected_model_idx < self.available_models.len() && self.selected_model_idx + 1
                < self.available_models.len() {
                self.selected_model_idx = self.selected_model_idx + 1;
            }
            Effect::Nothing
        } else if key.code == KeyCode::Up || key.code == KeyCode::Char('k') {
            self.selected_model_idx = self.selected_model_idx.saturating_sub(1);
            Effect::Nothing
        } else if key.code == KeyCode::Enter {
            let e = if self.selected_model_idx < self.available_models.len() {
                let model = self.available_models[self.selected_model_idx].clone();
                let mut st: Vec<char> = Vec::new();
                push_str(&mut st, "Switched to model: ");
                push_str(&mut st, model.as_str());
                self.status = string_of(st.as_slice());
                Effect::SwitchModel { model }
            } else {
                Effect::Nothing
            };
            self.mode = AppMode::Normal;
            e
        } else {
            Effect::Nothing
        };
        assert(self.view_state() =~= model_key(v, key).0);
        e
    }

    /// Reacts to a key in the session picker.
    pub fn handle_session_select_key(&mut self, key: Key) -> (e: Effect)
        ensures
            final(self).view_state() == session_key(old(self).view_state(), key).0,
            e.view_effect() == session_key(old(self).view_state(), key).1,
            state_wf(old(self).view_state()) ==> state_wf(final(self).view_state()),
            stamps_kept(old(self).chat_log@, final(self).chat_log@),
    {
        let ghost v = self.view_state();
        let e = if key.code == KeyCode::Esc || key.code == KeyCode::Char('q') {
            self.mode = AppMode::Normal;
            Effect::Nothing
        } else if key.code == KeyCode::Down || key.code == KeyCode::Char('j') {
            if self.session_list_idx < self.session_list.len() && self.session_list_idx + 1
                < self.session_list.len() {
                self.session_list_idx = self.session_list_idx + 1;
            }
            Effect::Nothing
        } else if key.code == KeyCode::Up || key.code == KeyCode::Char('k') {
            self.session_list_idx = self.session_list_idx.saturating_sub(1);
            Effect::Nothing
        } else if key.code == KeyCode::Enter {
            let e = if self.session_list_idx < self.session_list.len() {
                Effect::LoadSession { id: self.session_list[self.session_list_idx].id.clone() }
            } else {
                Effect::Nothing
            };
            self.mode = AppMode::Normal;
            e
        } else if key.code == KeyCode::Char('d') {
            if self.session_list_idx < self.session_list.len() {
                let id = self.session_list[self.session_list_idx].id.clone();
                let ghost before = self.session_list@;
                self.session_list.remove(self.session_list_idx);
                assert(self.session_list@.map_values(|m: SessionMeta| meta_view(m)) =~= before.map_values(
                    |m: SessionMeta| meta_view(m),
                ).remove(self.session_list_idx as int));
                self.session_list_idx = self.session_list_idx.saturating_sub(1);
                if self.session_list.len() == 0 {
                    self.mode = AppMode::Normal;
                }
                self.status = "Session deleted".to_owned();
                Effect::DeleteSession { id }
            } else {
                Effect::Nothing
            }
        } else {
            Effect::Nothing
        };
        assert(self.view_state() =~= session_key(v, key).0);
        e
    }
}


// ── Submitting input ─────────────────────────────────────────────────────────

/// The agent run starts: streaming, with the planning label.
pub open spec fn started_agent(v: ChatView) -> ChatView {
    ChatView {
        streaming: true,
        streaming_buffer: seq![],
        streaming_label: "Planning…"@,
        agent_steps: seq![],
        agent_iteration: 0,
        status: "Planning…"@,
        ..v
    }
}

/// A chat message: recorded in the log and the conversation, then the agent runs.
pub open spec fn chat_input(v: ChatView, input: Seq<char>) -> (ChatView, EffectView) {
    (started_agent(ChatView {
        chat_log: v.chat_log.push((Role::User, EntryKind::User, input)),
        messages: v.messages.push((Role::User, input)),
        scroll: bottom(),
        ..v
    }), EffectView::StartAgent)
}

/// The command word of a slash command: up to the first space.
pub open spec fn command_word(input: Seq<char>) -> Seq<char> {
    match crate::text::find_first(input, seq![' ']) {
        Some(i) => input.take(i),
        None => input,
    }
}

/// The arguments of a slash command: after the first space, trimmed.
pub open spec fn command_args(input: Seq<char>) -> Seq<char> {
    match crate::text::find_first(input, seq![' ']) {
        Some(i) => trim(input.skip(i + 1)),
        None => seq![],
    }
}

pub open spec fn command_core(v: ChatView, cmd: Seq<char>, args: Seq<char>) -> (ChatView, EffectView) {
    if cmd == "/quit"@ || cmd == "/exit"@ || cmd == "/q"@ {
        (ChatView { should_quit: true, ..v }, EffectView::Nothing)
    } else if cmd == "/help"@ || cmd == "/?"@ {
        (ChatView { mode: AppMode::Help, ..v }, EffectView::Nothing)
    } else if cmd == "/model"@ || cmd == "/m"@ {
        (v, EffectView::OpenModelSelect)
    } else if cmd == "/save"@ || cmd == "/s"@ {
        (v, EffectView::SaveSession(
            if args.len() == 0 {
                None
            } else {
                Some(args)
            },
        ))
    } else if cmd == "/sessions"@ {
        (v, EffectView::OpenSessionSelect)
    } else if cmd == "/new"@ {
        (v, EffectView::NewSession)
    } else if cmd == "/load"@ {
        if args.len() == 0 {
            (v, EffectView::OpenSessionSelect)
        } else {
            (v, EffectView::LoadSession(args))
        }
    } else if cmd == "/clear"@ {
        (ChatView {
            chat_log: seq![],
            messages: if v.messages.len() > 1 {
                v.messages.take(1)
            } else {
                v.messages
            },
            status: "Chat cleared"@,
            ..v
        }, EffectView::Nothing)
    } else if cmd == "/run"@ || cmd == "/exec"@ || cmd == "/shell"@ {
        if args.len() == 0 {
            (with_note(v, "Usage: /run <command>"@), EffectView::Nothing)
        } else {
            (ChatView {
                status: "Running: "@ + args,
                chat_log: v.chat_log.push((Role::User, EntryKind::User, "$ "@ + args)),
                ..v
            }, EffectView::RunShell(args))
        }
    } else if cmd == "/read"@ || cmd == "/cat"@ {
        if args.len() == 0 {
            (with_note(v, "Usage: /read <file>"@), EffectView::Nothing)
        } else {
            (v, EffectView::ReadFile(args))
        }
    } else if cmd == "/ls"@ || cmd == "/dir"@ {
        (v, EffectView::ListDir(
            if args.len() == 0 {
                v.working_dir
            } else {
                args
            },
        ))
    } else if cmd == "/cd"@ {
        if args.len() == 0 {
            (with_note(v, "Current directory: "@ + v.working_dir), EffectView::Nothing)
        } else {
            (v, EffectView::ChangeDir(resolve_path(v.working_dir, args)))
        }
    } else {
        (with_note(v, "Unknown command: `"@ + cmd + "`. Type /help for available commands."@), EffectView::Nothing)
    }
}

/// A slash command; the chat ends scrolled to its end.
pub open spec fn command(v: ChatView, input: Seq<char>) -> (ChatView, EffectView) {
    let r = command_core(v, command_word(input), command_args(input));
    (ChatView { scroll: bottom(), ..r.0 }, r.1)
}

/// The words that end the program.
pub open spec fn quit_words() -> Set<Seq<char>> {
    set!["/quit"@, "/exit"@, "/q"@]
}

/// `/quit`, `/exit` and `/q`, alone or followed by a space and anything,
/// end the program: nothing else changes but the view following the end, no
/// note is added to the chat, and no outside work is asked for.
pub proof fn law_quit_commands_quit(v: ChatView, w: Seq<char>, input: Seq<char>)
    requires
        quit_words().contains(w),
        input == w || (input.len() > w.len() && input.take(w.len() as int) == w && input[w.len() as int]
            == ' '),
    ensures
        command(v, input).0 == (ChatView { should_quit: true, scroll: bottom(), ..v }),
        command(v, input).0.should_quit,
        command(v, input).0.chat_log == v.chat_log,
        command(v, input).1 == EffectView::Nothing,
{
    reveal_strlit("/quit");
    reveal_strlit("/exit");
    reveal_strlit("/q");
    assert(forall|i: int| 0 <= i < w.len() ==> w[i] != ' ');
    assert forall|j: int| 0 <= j < w.len() implies !crate::text::occurs_at(input, j, seq![' ']) by {
        if crate::text::occurs_at(input, j, seq![' ']) {
            assert(input.subrange(j, j + 1)[0] == input[j]);
            assert(input[j] == input.take(w.len() as int)[j] || input == w);
        }
    }
    if input == w {
        crate::text::lemma_find_from_none(input, seq![' '], 0);
        assert(command_word(input) == w);
    } else {
        assert(crate::text::occurs_at(input, w.len() as int, seq![' '])) by {
            assert(input.subrange(w.len() as int, (w.len() + 1) as int) =~= seq![' ']);
        }
        crate::text::lemma_find_from_unique(input, seq![' '], 0, w.len() as int);
        assert(command_word(input) == w);
    }
}

/// `/help` and `/?` both open the help and change nothing else.
pub proof fn law_help_aliases(v: ChatView, args: Seq<char>)
    ensures
        command_core(v, "/help"@, args) == (ChatView { mode: AppMode::Help, ..v }, EffectView::Nothing),
        command_core(v, "/?"@, args) == (ChatView { mode: AppMode::Help, ..v }, EffectView::Nothing),
{
    reveal_strlit("/quit");
    reveal_strlit("/exit");
    reveal_strlit("/q");
    reveal_strlit("/help");
    reveal_strlit("/?");
    reveal_strlit("/model");
    reveal_strlit("/m");
    reveal_strlit("/save");
    reveal_strlit("/s");
    reveal_strlit("/sessions");
    reveal_strlit("/new");
    reveal_strlit("/load");
    reveal_strlit("/clear");
    reveal_strlit("/run");
    reveal_strlit("/exec");
    reveal_strlit("/shell");
    reveal_strlit("/read");
    reveal_strlit("/cat");
    reveal_strlit("/ls");
    reveal_strlit("/dir");
    reveal_strlit("/cd");
    assert("/help"@[1] != "/quit"@[1]);
    assert("/help"@[1] != "/exit"@[1]);
    assert("/help"@[1] != "/save"@[1]);
    assert("/help"@[1] != "/load"@[1]);
    assert("/help"@[1] != "/exec"@[1]);
    assert("/help"@[1] != "/read"@[1]);
    assert("/?"@[1] != "/q"@[1]);
    assert("/?"@[1] != "/m"@[1]);
    assert("/?"@[1] != "/s"@[1]);
}

/// `/model` and `/m` both open the model picker and change nothing.
pub proof fn law_model_aliases(v: ChatView, args: Seq<char>)
    ensures
        command_core(v, "/model"@, args) == (v, EffectView::OpenModelSelect),
        command_core(v, "/m"@, args) == (v, EffectView::OpenModelSelect),
{
    reveal_strlit("/quit");
    reveal_strlit("/exit");
    reveal_strlit("/q");
    reveal_strlit("/help");
    reveal_strlit("/?");
    reveal_strlit("/model");
    reveal_strlit("/m");
    reveal_strlit("/save");
    reveal_strlit("/s");
    reveal_strlit("/sessions");
    reveal_strlit("/new");
    reveal_strlit("/load");
    reveal_strlit("/clear");
    reveal_strlit("/run");
    reveal_strlit("/exec");
    reveal_strlit("/shell");
    reveal_strlit("/read");
    reveal_strlit("/cat");
    reveal_strlit("/ls");
    reveal_strlit("/dir");
    reveal_strlit("/cd");
    assert("/model"@[1] != "/clear"@[1]);
    assert("/model"@[1] != "/shell"@[1]);
    assert("/m"@[1] != "/q"@[1]);
    assert("/m"@[1] != "/?"@[1]);
    assert("/m"@[1] != "/s"@[1]);
}

/// `/save` and `/s` do the same thing.
pub proof fn law_save_aliases(v: ChatView, args: Seq<char>)
    ensures
        command_core(v, "/save"@, args) == command_core(v, "/s"@, args),
{
    reveal_strlit("/quit");
    reveal_strlit("/exit");
    reveal_strlit("/q");
    reveal_strlit("/help");
    reveal_strlit("/?");
    reveal_strlit("/model");
    reveal_strlit("/m");
    reveal_strlit("/save");
    reveal_strlit("/s");
    reveal_strlit("/sessions");
    reveal_strlit("/new");
    reveal_strlit("/load");
    reveal_strlit("/clear");
    reveal_strlit("/run");
    reveal_strlit("/exec");
    reveal_strlit("/shell");
    reveal_strlit("/read");
    reveal_strlit("/cat");
    reveal_strlit("/ls");
    reveal_strlit("/dir");
    reveal_strlit("/cd");
    assert("/save"@[1] != "/quit"@[1]);
    assert("/save"@[1] != "/exit"@[1]);
    assert("/save"@[1] != "/help"@[1]);
    assert("/save"@[1] != "/load"@[1]);
    assert("/save"@[1] != "/exec"@[1]);
    assert("/save"@[1] != "/read"@[1]);
    assert("/s"@[1] != "/q"@[1]);
    assert("/s"@[1] != "/?"@[1]);
    assert("/s"@[1] != "/m"@[1]);
}

/// `/run`, `/exec` and `/shell` do the same thing.
pub proof fn law_run_aliases(v: ChatView, args: Seq<char>)
    ensures
        command_core(v, "/run"@, args) == command_core(v, "/exec"@, args),
        command_core(v, "/run"@, args) == command_core(v, "/shell"@, args),
{
    reveal_strlit("/quit");
    reveal_strlit("/exit");
    reveal_strlit("/q");
    reveal_strlit("/help");
    reveal_strlit("/?");
    reveal_strlit("/model");
    reveal_strlit("/m");
    reveal_strlit("/save");
    reveal_strlit("/s");
    reveal_strlit("/sessions");
    reveal_strlit("/new");
    reveal_strlit("/load");
    reveal_strlit("/clear");
    reveal_strlit("/run");
    reveal_strlit("/exec");
    reveal_strlit("/shell");
    reveal_strlit("/read");
    reveal_strlit("/cat");
    reveal_strlit("/ls");
    reveal_strlit("/dir");
    reveal_strlit("/cd");
    assert("/run"@[1] != "/new"@[1]);
    assert("/run"@[1] != "/cat"@[1]);
    assert("/run"@[1] != "/dir"@[1]);
    assert("/exec"@[1] != "/quit"@[1]);
    assert("/exec"@[3] != "/exit"@[3]);
    assert("/exec"@[1] != "/help"@[1]);
    assert("/exec"@[1] != "/save"@[1]);
    assert("/exec"@[1] != "/load"@[1]);
    assert("/exec"@[1] != "/read"@[1]);
    assert("/shell"@[1] != "/model"@[1]);
    assert("/shell"@[1] != "/clear"@[1]);
}

/// `/read` and `/cat` do the same thing.
pub proof fn law_read_aliases(v: ChatView, args: Seq<char>)
    ensures
        command_core(v, "/read"@, args) == command_core(v, "/cat"@, args),
{
    reveal_strlit("/quit");
    reveal_strlit("/exit");
    reveal_strlit("/q");
    reveal_strlit("/help");
    reveal_strlit("/?");
    reveal_strlit("/model");
    reveal_strlit("/m");
    reveal_strlit("/save");
    reveal_strlit("/s");
    reveal_strlit("/sessions");
    reveal_strlit("/new");
    reveal_strlit("/load");
    reveal_strlit("/clear");
    reveal_strlit("/run");
    reveal_strlit("/exec");
    reveal_strlit("/shell");
    reveal_strlit("/read");
    reveal_strlit("/cat");
    reveal_strlit("/ls");
    reveal_strlit("/dir");
    reveal_strlit("/cd");
    assert("/read"@[1] != "/quit"@[1]);
    assert("/read"@[1] != "/exit"@[1]);
    assert("/read"@.len() != "/q"@.len());
    assert("/read"@[1] != "/help"@[1]);
    assert("/read"@.len() != "/?"@.len());
    assert("/read"@.len() != "/model"@.len());
    assert("/read"@.len() != "/m"@.len());
    assert("/read"@[1] != "/save"@[1]);
    assert("/read"@.len() != "/s"@.len());
    assert("/read"@.len() != "/sessions"@.len());
    assert("/read"@.len() != "/new"@.len());
    assert("/read"@[1] != "/load"@[1]);
    assert("/read"@.len() != "/clear"@.len());
    assert("/read"@.len() != "/run"@.len());
    assert("/read"@[1] != "/exec"@[1]);
    assert("/read"@.len() != "/shell"@.len());
    assert("/read"@.len() != "/cat"@.len());
    assert("/read"@.len() != "/ls"@.len());
    assert("/read"@.len() != "/dir"@.len());
    assert("/read"@.len() != "/cd"@.len());
    assert("/cat"@.len() != "/quit"@.len());
    assert("/cat"@.len() != "/exit"@.len());
    assert("/cat"@.len() != "/q"@.len());
    assert("/cat"@.len() != "/help"@.len());
    assert("/cat"@.len() != "/?"@.len());
    assert("/cat"@.len() != "/model"@.len());
    assert("/cat"@.len() != "/m"@.len());
    assert("/cat"@.len() != "/save"@.len());
    assert("/cat"@.len() != "/s"@.len());
    assert("/cat"@.len() != "/sessions"@.len());
    assert("/cat"@[1] != "/new"@[1]);
    assert("/cat"@.len() != "/load"@.len());
    assert("/cat"@.len() != "/clear"@.len());
    assert("/cat"@[1] != "/run"@[1]);
    assert("/cat"@.len() != "/exec"@.len());
    assert("/cat"@.len() != "/shell"@.len());
    assert("/cat"@.len() != "/read"@.len());
    assert("/cat"@.len() != "/ls"@.len());
    assert("/cat"@[1] != "/dir"@[1]);
    assert("/cat"@.len() != "/cd"@.len());
}

/// `/ls` and `/dir` do the same thing.
pub proof fn law_ls_aliases(v: ChatView, args: Seq<char>)
    ensures
        command_core(v, "/ls"@, args) == command_core(v, "/dir"@, args),
{
    reveal_strlit("/quit");
    reveal_strlit("/exit");
    reveal_strlit("/q");
    reveal_strlit("/help");
    reveal_strlit("/?");
    reveal_strlit("/model");
    reveal_strlit("/m");
    reveal_strlit("/save");
    reveal_strlit("/s");
    reveal_strlit("/sessions");
    reveal_strlit("/new");
    reveal_strlit("/load");
    reveal_strlit("/clear");
    reveal_strlit("/run");
    reveal_strlit("/exec");
    reveal_strlit("/shell");
    reveal_strlit("/read");
    reveal_strlit("/cat");
    reveal_strlit("/ls");
    reveal_strlit("/dir");
    reveal_strlit("/cd");
    assert("/ls"@[1] != "/cd"@[1]);
    assert("/dir"@[1] != "/new"@[1]);
    assert("/dir"@[1] != "/run"@[1]);
    assert("/dir"@[1] != "/cat"@[1]);
}

/// Submitted text: a slash command, or a message for the agent.
pub open spec fn submitted(v: ChatView, input: Seq<char>) -> (ChatView, EffectView) {
    if input.len() > 0 && input[0] == '/' {
        command(v, input)
    } else {
        chat_input(v, input)
    }
}

/// The input with `f` applied to the buffer.
pub open spec fn with_input(v: ChatView, b: BufferView) -> (ChatView, EffectView) {
    (ChatView { input: b, ..v }, EffectView::Nothing)
}

pub open spec fn insert_key(v: ChatView, k: Key) -> (ChatView, EffectView) {
    match k.code {
        KeyCode::Enter => if k.ctrl || k.alt {
            let t = trim(buf_text(v.input));
            if !v.streaming && t.len() > 0 {
                submitted(ChatView {
                    input_history: v.input_history.push(t),
                    input_history_idx: None,
                    input: empty_buf(),
                    ..v
                }, t)
            } else {
                (v, EffectView::Nothing)
            }
        } else {
            with_input(v, ins_newline(v.input))
        },
        KeyCode::Esc => (ChatView { mode: AppMode::Normal, ..v }, EffectView::Nothing),
        KeyCode::Up => if k.alt {
            (history_prev(v), EffectView::Nothing)
        } else {
            with_input(v, up_of(v.input))
        },
        KeyCode::Down => if k.alt {
            (history_next(v), EffectView::Nothing)
        } else {
            with_input(v, down_of(v.input))
        },
        KeyCode::Left => with_input(v, left_of(v.input)),
        KeyCode::Right => with_input(v, right_of(v.input)),
        KeyCode::Home => with_input(v, BufferView { col: 0, ..v.input }),
        KeyCode::End => with_input(v, BufferView { col: utf8_len(cur(v.input)) as int, ..v.input }),
        KeyCode::Char(c) => if !k.ctrl {
            with_input(v, ins_char(v.input, c))
        } else if c == 'c' {
            (ChatView { should_quit: true, ..v }, EffectView::Nothing)
        } else {
            (v, EffectView::Nothing)
        },
        KeyCode::Backspace => with_input(v, backspace_of(v.input)),
        KeyCode::Delete => with_input(v, delete_of(v.input)),
        KeyCode::Other => (v, EffectView::Nothing),
    }
}

/// The keys of insert mode that edit at the cursor, where the cursor must lie
/// between two characters.
pub open spec fn edits_at_cursor(k: Key) -> bool {
    match k.code {
        KeyCode::Enter => !(k.ctrl || k.alt),
        KeyCode::Left | KeyCode::Right | KeyCode::Backspace | KeyCode::Delete => true,
        KeyCode::Char(_) => !k.ctrl,
        _ => false,
    }
}

/// A key in any mode.
pub open spec fn key_reaction(v: ChatView, k: Key) -> (ChatView, EffectView) {
    match v.mode {
        AppMode::Normal => normal_key(v, k),
        AppMode::Insert => insert_key(v, k),
        AppMode::ModelSelect => model_key(v, k),
        AppMode::SessionSelect => session_key(v, k),
        AppMode::Help => (ChatView { mode: AppMode::Normal, ..v }, EffectView::Nothing),
    }
}

/// A key the state can take: in insert mode an editing key needs the cursor
/// between two characters.
pub open spec fn key_ok(v: ChatView, k: Key) -> bool {
    v.mode == AppMode::Insert && edits_at_cursor(k) ==> on_boundary(v.input)
}

fn concat_strs(a: &str, b: &str) -> (r: String)
    ensures
        r@ == a@ + b@,
{
    let mut v: Vec<char> = Vec::new();
    push_str(&mut v, a);
    push_str(&mut v, b);
    string_of(v.as_slice())
}

fn concat3(a: &str, b: &str, c: &str) -> (r: String)
    ensures
        r@ == a@ + b@ + c@,
{
    let mut v: Vec<char> = Vec::new();
    push_str(&mut v, a);
    push_str(&mut v, b);
    push_str(&mut v, c);
    string_of(v.as_slice())
}

/// The command word and trimmed arguments of a slash command.
fn split_command(input: &str) -> (r: (String, String))
    ensures
        r.0@ == command_word(input@),
        r.1@ == command_args(input@),
{
    let cs = chars_of(input);
    let sp: [char; 1] = [' '];
    assert(sp@ =~= seq![' ']);
    match crate::text::find_in(cs.as_slice(), sp.as_slice(), 0) {
        Some(i) => {
            proof {
                crate::text::lemma_find_from(cs@, seq![' '], 0);
            }
            assert(i < cs.len());
            let word = slice_sub(cs.as_slice(), 0, i);
            let rest = slice_sub(cs.as_slice(), i + 1, cs.len());
            assert(word@ =~= cs@.take(i as int));
            assert(rest@ =~= cs@.skip(i + 1));
            let (a, b) = trim_bounds(rest.as_slice());
            (string_of(word.as_slice()), string_of(slice_sub(rest.as_slice(), a, b).as_slice()))
        },
        None => (input.to_owned(), String::new()),
    }
}

impl ChatState {
    /// The agent run starts.
    fn start_agent(&mut self)
        ensures
            final(self).view_state() == started_agent(old(self).view_state()),
            final(self).chat_log@ == old(self).chat_log@,
    {
        let ghost v = self.view_state();
        self.streaming = true;
        self.streaming_buffer = String::new();
        self.streaming_label = "Planning…".to_owned();
        self.agent_steps = Vec::new();
        self.agent_iteration = 0;
        self.status = "Planning…".to_owned();
        assert(self.view_state() =~= started_agent(v));
    }

    /// Reacts to a slash command.
    pub fn handle_command(&mut self, input: &str) -> (e: Effect)
        ensures
            final(self).view_state() == command(old(self).view_state(), input@).0,
            e.view_effect() == command(old(self).view_state(), input@).1,
            state_wf(old(self).view_state()) ==> state_wf(final(self).view_state()),
            stamps_kept(old(self).chat_log@, final(self).chat_log@),
    {
        let ghost v = self.view_state();
        let (cmd, args) = split_command(input);
        let c = cmd.as_str();
        let no_args = byte_len(args.as_str()) == 0;
        let e = if str_eq(c, "/quit") || str_eq(c, "/exit") || str_eq(c, "/q") {
            self.should_quit = true;
            Effect::Nothing
        } else if str_eq(c, "/help") || str_eq(c, "/?") {
            self.mode = AppMode::Help;
            Effect::Nothing
        } else if str_eq(c, "/model") || str_eq(c, "/m") {
            Effect::OpenModelSelect
        } else if str_eq(c, "/save") || str_eq(c, "/s") {
            Effect::SaveSession {
                name: if no_args {
                    None
                } else {
                    Some(args)
                },
            }
        } else if str_eq(c, "/sessions") {
            Effect::OpenSessionSelect
        } else if str_eq(c, "/new") {
            Effect::NewSession
        } else if str_eq(c, "/load") {
            if no_args {
                Effect::OpenSessionSelect
            } else {
                Effect::LoadSession { id: args }
            }
        } else if str_eq(c, "/clear") {
            self.chat_log = Vec::new();
            let ghost m0 = self.messages@;
            self.messages.truncate(1);
            assert(message_views(self.messages@) =~= (if message_views(m0).len() > 1 {
                message_views(m0).take(1)
            } else {
                message_views(m0)
            }));
            self.status = "Chat cleared".to_owned();
            Effect::Nothing
        } else if str_eq(c, "/run") || str_eq(c, "/exec") || str_eq(c, "/shell") {
            if no_args {
                self.push_assistant("Usage: /run <command>".to_owned());
                Effect::Nothing
            } else {
                self.status = concat_strs("Running: ", args.as_str());
                self.chat_log.push(ChatEntry::new(Role::User, concat_strs("$ ", args.as_str())));
                Effect::RunShell { command: args }
            }
        } else if str_eq(c, "/read") || str_eq(c, "/cat") {
            if no_args {
                self.push_assistant("Usage: /read <file>".to_owned());
                Effect::Nothing
            } else {
                Effect::ReadFile { path: args }
            }
        } else if str_eq(c, "/ls") || str_eq(c, "/dir") {
            Effect::ListDir {
                path: if no_args {
                    self.working_dir.clone()
                } else {
                    args
                },
            }
        } else if str_eq(c, "/cd") {
            if no_args {
                let note = concat_strs("Current directory: ", self.working_dir.as_str());
                self.push_assistant(note);
                Effect::Nothing
            } else {
                Effect::ChangeDir { path: resolve(self.working_dir.as_str(), args.as_str()) }
            }
        } else {
            self.push_assistant(concat3("Unknown command: `", c, "`. Type /help for available commands."));
            Effect::Nothing
        };
        self.scroll = u16::MAX;
        assert(self.view_state() =~= command(v, input@).0);
        e
    }

    /// Reacts to submitted text.
    pub fn handle_input(&mut self, input: String) -> (e: Effect)
        ensures
            final(self).view_state() == submitted(old(self).view_state(), input@).0,
            e.view_effect() == submitted(old(self).view_state(), input@).1,
            state_wf(old(self).view_state()) ==> state_wf(final(self).view_state()),
            stamps_kept(old(self).chat_log@, final(self).chat_log@),
    {
        let ghost v = self.view_state();
        let cs = chars_of(input.as_str());
        if cs.len() > 0 && cs[0] == '/' {
            return self.handle_command(input.as_str());
        }
        self.chat_log.push(ChatEntry::new(Role::User, input.clone()));
        self.messages.push(Message::user(input));
        self.scroll = u16::MAX;
        assert(self.view_state() =~= (ChatView {
            chat_log: v.chat_log.push((Role::User, EntryKind::User, input@)),
            messages: v.messages.push((Role::User, input@)),
            scroll: bottom(),
            ..v
        }));
        self.start_agent();
        Effect::StartAgent
    }
}


impl ChatState {
    /// Reacts to a key in insert mode.
    pub fn handle_insert_key(&mut self, key: Key) -> (e: Effect)
        requires
            state_wf(old(self).view_state()),
            edits_at_cursor(key) ==> on_boundary(old(self).input.view_buf()),
        ensures
            final(self).view_state() == insert_key(old(self).view_state(), key).0,
            e.view_effect() == insert_key(old(self).view_state(), key).1,
            state_wf(final(self).view_state()),
            stamps_kept(old(self).chat_log@, final(self).chat_log@),
    {
        let ghost v = self.view_state();
        match key.code {
            KeyCode::Enter => {
                if key.ctrl || key.alt {
                    let text = self.input.text();
                    let trimmed = crate::text::trimmed(text.as_str());
                    if !self.streaming && byte_len(trimmed.as_str()) > 0 {
                        self.input_history.push(trimmed.clone());
                        self.input_history_idx = None;
                        self.input.clear();
                        assert(self.view_state() =~= (ChatView {
                            input_history: v.input_history.push(trimmed@),
                            input_history_idx: None,
                            input: empty_buf(),
                            ..v
                        }));
                        return self.handle_input(trimmed);
                    }
                    Effect::Nothing
                } else {
                    self.input.insert_newline();
                    assert(self.view_state() =~= insert_key(v, key).0);
                    Effect::Nothing
                }
            },
            KeyCode::Esc => {
                self.mode = AppMode::Normal;
                Effect::Nothing
            },
            KeyCode::Up => {
                if key.alt {
                    self.history_prev();
                } else {
                    self.input.move_up();
                    assert(self.view_state() =~= insert_key(v, key).0);
                }
                Effect::Nothing
            },
            KeyCode::Down => {
                if key.alt {
                    self.history_next();
                } else {
                    self.input.move_down();
                    assert(self.view_state() =~= insert_key(v, key).0);
                }
                Effect::Nothing
            },
            KeyCode::Left => {
                self.input.move_left();
                assert(self.view_state() =~= insert_key(v, key).0);
                Effect::Nothing
            },
            KeyCode::Right => {
                self.input.move_right();
                assert(self.view_state() =~= insert_key(v, key).0);
                Effect::Nothing
            },
            KeyCode::Home => {
                self.input.move_home();
                assert(self.view_state() =~= insert_key(v, key).0);
                Effect::Nothing
            },
            KeyCode::End => {
                self.input.move_end();
                assert(self.view_state() =~= insert_key(v, key).0);
                Effect::Nothing
            },
            KeyCode::Char(c) => {
                if !key.ctrl {
                    self.input.insert_char(c);
                    assert(self.view_state() =~= insert_key(v, key).0);
                } else if c == 'c' {
                    self.should_quit = true;
                }
                Effect::Nothing
            },
            KeyCode::Backspace => {
                self.input.backspace();
                assert(self.view_state() =~= insert_key(v, key).0);
                Effect::Nothing
            },
            KeyCode::Delete => {
                self.input.delete_forward();
                assert(self.view_state() =~= insert_key(v, key).0);
                Effect::Nothing
            },
            KeyCode::Other => Effect::Nothing,
        }
    }

    /// Reacts to a key in whatever mode the interface is in.
    pub fn handle_key(&mut self, key: Key) -> (e: Effect)
        requires
            state_wf(old(self).view_state()),
            key_ok(old(self).view_state(), key),
        ensures
            final(self).view_state() == key_reaction(old(self).view_state(), key).0,
            e.view_effect() == key_reaction(old(self).view_state(), key).1,
            state_wf(final(self).view_state()),
            stamps_kept(old(self).chat_log@, final(self).chat_log@),
    {
        match self.mode {
            AppMode::Normal => self.handle_normal_key(key),
            AppMode::Insert => self.handle_insert_key(key),
            AppMode::ModelSelect => self.handle_model_select_key(key),
            AppMode::SessionSelect => self.handle_session_select_key(key),
            AppMode::Help => {
                self.mode = AppMode::Normal;
                Effect::Nothing
            },
        }
    }

    /// Whether the state can take `key` (see `key_ok`).
    pub fn key_allowed(&self, key: Key) -> (b: bool)
        requires
            state_wf(self.view_state()),
        ensures
            b == key_ok(self.view_state(), key),
    {
        let edits = match key.code {
            KeyCode::Enter => !(key.ctrl || key.alt),
            KeyCode::Left | KeyCode::Right | KeyCode::Backspace | KeyCode::Delete => true,
            KeyCode::Char(_) => !key.ctrl,
            _ => false,
        };
        if self.mode == AppMode::Insert && edits {
            self.input.cursor_on_boundary()
        } else {
            true
        }
    }

    /// Whether the input cursor lies between two characters, as editing keys need.
    pub fn cursor_ok(&self) -> (b: bool)
        requires
            state_wf(self.view_state()),
        ensures
            b == on_boundary(self.view_state().input),
    {
        self.input.cursor_on_boundary()
    }
}


// ── Agent events ─────────────────────────────────────────────────────────────

/// The system prompt that opens every conversation.
pub open spec fn system_prompt_text() -> Seq<char> {
    "You are OwenCode, an autonomous AI coding assistant running in a terminal UI.\nYou help users write, review, debug, and understand code.\n\nA separate planning step has already gathered relevant context for you (file contents, shell output, search results) and injected it above. Use that information to give a thorough, accurate answer.\n\nIf you need additional information that was NOT gathered in the planning step, you can request more tools reactively using XML tool calls anywhere in your response:\n\n<tool_call name=\"read_file\"><path>src/foo.rs</path></tool_call>\n<tool_call name=\"run_shell\"><command>cargo test 2>&1 | tail -20</command></tool_call>\n<tool_call name=\"write_file\"><path>src/foo.rs</path><content>// full content</content></tool_call>\n<tool_call name=\"list_dir\"><path>src/</path></tool_call>\n<tool_call name=\"web_search\"><query>tokio spawn blocking docs</query></tool_call>\n\nGuidelines:\n- Only use reactive tool calls if something critical is missing. The planner should have handled most needs.\n- When editing files, show the complete new file content inside write_file.\n- Keep responses concise. Use markdown code blocks for code.\n- After reactive tool results arrive you will be called again automatically.\n"@
}

/// The system prompt.
pub fn system_prompt() -> (r: &'static str)
    ensures
        r@ == system_prompt_text(),
{
    "You are OwenCode, an autonomous AI coding assistant running in a terminal UI.\nYou help users write, review, debug, and understand code.\n\nA separate planning step has already gathered relevant context for you (file contents, shell output, search results) and injected it above. Use that information to give a thorough, accurate answer.\n\nIf you need additional information that was NOT gathered in the planning step, you can request more tools reactively using XML tool calls anywhere in your response:\n\n<tool_call name=\"read_file\"><path>src/foo.rs</path></tool_call>\n<tool_call name=\"run_shell\"><command>cargo test 2>&1 | tail -20</command></tool_call>\n<tool_call name=\"write_file\"><path>src/foo.rs</path><content>// full content</content></tool_call>\n<tool_call name=\"list_dir\"><path>src/</path></tool_call>\n<tool_call name=\"web_search\"><query>tokio spawn blocking docs</query></tool_call>\n\nGuidelines:\n- Only use reactive tool calls if something critical is missing. The planner should have handled most needs.\n- When editing files, show the complete new file content inside write_file.\n- Keep responses concise. Use markdown code blocks for code.\n- After reactive tool results arrive you will be called again automatically.\n"
}

pub open spec fn thinking_label(model: Seq<char>) -> Seq<char> {
    "Thinking… ["@ + model + "]"@
}

/// The label after a non-empty plan: how many tools and which.
pub open spec fn plan_label(calls: Seq<PlannedCall>) -> Seq<char> {
    "Plan: "@ + decimal(calls.len()) + " tool(s) → "@ + join(calls.map_values(|c: PlannedCall| c.tool@), ", "@)
}

/// The last step card of `name` in `iteration`.
pub open spec fn last_step(steps: Seq<StepView>, name: Seq<char>, iteration: u32) -> Option<int>
    decreases steps.len(),
{
    if steps.len() == 0 {
        None
    } else if steps.last().1 == name && steps.last().0 == iteration {
        Some(steps.len() - 1)
    } else {
        last_step(steps.drop_last(), name, iteration)
    }
}

/// `last_step` is the last card of that tool in that iteration, and there is
/// none exactly when no card matches.
proof fn lemma_last_step(steps: Seq<StepView>, name: Seq<char>, iteration: u32)
    ensures
        match last_step(steps, name, iteration) {
            Some(k) => 0 <= k < steps.len() && steps[k].0 == iteration && steps[k].1 == name
                && forall|j: int| k < j < steps.len() ==> !(steps[j].0 == iteration && steps[j].1 == name),
            None => forall|j: int| 0 <= j < steps.len() ==> !(steps[j].0 == iteration && steps[j].1 == name),
        },
    decreases steps.len(),
{
    if steps.len() > 0 {
        let d = steps.drop_last();
        lemma_last_step(d, name, iteration);
        assert forall|j: int| 0 <= j < d.len() implies d[j] == steps[j] by {}
    }
}

/// When a tool finishes, only its own card changes: the last card of that tool
/// in that iteration takes the output and the success, and every other card,
/// those of other tools above all, stays as it was.
pub proof fn law_tool_done_updates_its_own_card(
    v: ChatView,
    iteration: u32,
    name: String,
    output: String,
    success: bool,
    planner_model: Seq<char>,
    model: Seq<char>,
)
    ensures
        ({
            let r = agent_event(
                v,
                AgentEvent::ToolDone { iteration, name, output, success },
                planner_model,
                model,
            ).0;
            &&& r.agent_steps.len() == v.agent_steps.len()
            &&& forall|j: int|
                0 <= j < v.agent_steps.len() && !(v.agent_steps[j].0 == iteration
                    && v.agent_steps[j].1 == name@) ==> r.agent_steps[j] == v.agent_steps[j]
            &&& forall|k: int|
                0 <= k < v.agent_steps.len() && v.agent_steps[k].0 == iteration
                    && v.agent_steps[k].1 == name@ && (forall|j: int|
                    k < j < v.agent_steps.len() ==> !(v.agent_steps[j].0 == iteration
                        && v.agent_steps[j].1 == name@)) ==> {
                    &&& r.agent_steps[k] == (
                        iteration,
                        name@,
                        v.agent_steps[k].2,
                        output@,
                        success,
                    )
                    &&& forall|j: int|
                        0 <= j < v.agent_steps.len() && j != k ==> r.agent_steps[j]
                            == v.agent_steps[j]
                }
        }),
{
    lemma_last_step(v.agent_steps, name@, iteration);
    match last_step(v.agent_steps, name@, iteration) {
        Some(k) => {
            assert forall|k2: int|
                0 <= k2 < v.agent_steps.len() && v.agent_steps[k2].0 == iteration
                    && v.agent_steps[k2].1 == name@ && (forall|j: int|
                    k2 < j < v.agent_steps.len() ==> !(v.agent_steps[j].0 == iteration
                        && v.agent_steps[j].1 == name@)) implies k2 == k by {
                if k2 < k {
                } else if k < k2 {
                }
            }
        },
        None => {},
    }
}

/// A tool's output as shown on its card: at most 800 bytes, then a marker.
pub open spec fn card_preview(o: Seq<char>) -> Seq<char> {
    if utf8_len(o) > 800 {
        byte_prefix(o, 800) + "\n…(truncated)"@
    } else {
        o
    }
}

/// The messages the chat log stands for: user and assistant entries, in order.
pub open spec fn log_messages(log: Seq<EntryView>) -> Seq<MessageView>
    decreases log.len(),
{
    if log.len() == 0 {
        seq![]
    } else {
        let rest = log_messages(log.drop_last());
        match log.last().0 {
            Role::User => rest.push((Role::User, log.last().2)),
            Role::Assistant => rest.push((Role::Assistant, log.last().2)),
            Role::System => rest,
        }
    }
}

/// The conversation rebuilt from the chat log, behind the first message
/// (or the system prompt when there is none).
pub open spec fn synced_messages(v: ChatView) -> Seq<MessageView> {
    seq![
        if v.messages.len() > 0 {
            v.messages[0]
        } else {
            (Role::System, system_prompt_text())
        },
    ] + log_messages(v.chat_log)
}

/// An event the state can take: a long tool output has a character boundary
/// at byte 800, where its card preview is cut.
pub open spec fn event_ok(ev: AgentEvent) -> bool {
    ev matches AgentEvent::ToolDone { output, .. } ==> (utf8_len(output@) > 800 ==> utf8_len(
        byte_prefix(output@, 800),
    ) == 800)
}

/// Whether the state can take `ev` (see `event_ok`).
pub fn event_fits(ev: &AgentEvent) -> (b: bool)
    ensures
        b == event_ok(*ev),
{
    match ev {
        AgentEvent::ToolDone { output, .. } => crate::text::cut_fits(output.as_str(), 800),
        _ => true,
    }
}

pub open spec fn agent_event(v: ChatView, ev: AgentEvent, planner_model: Seq<char>, model: Seq<char>) -> (ChatView, EffectView) {
    match ev {
        AgentEvent::PlannerStarted => {
            let l = "Planning… ["@ + planner_model + "]"@;
            (ChatView { streaming_label: l, status: l, ..v }, EffectView::Nothing)
        },
        AgentEvent::PlannerDone { calls } => {
            let l = if calls@.len() == 0 {
                thinking_label(model)
            } else {
                plan_label(calls@)
            };
            (ChatView { streaming_label: l, status: l, ..v }, EffectView::Nothing)
        },
        AgentEvent::ReasonerStarted => (ChatView {
            streaming_label: thinking_label(model),
            status: thinking_label(model),
            ..v
        }, EffectView::Nothing),
        AgentEvent::Token(t) => (ChatView { streaming_buffer: v.streaming_buffer + t@, ..v }, EffectView::Nothing),
        AgentEvent::TurnComplete(full) => {
            let prose = prose_of(full@);
            let v1 = if prose.len() > 0 {
                ChatView {
                    chat_log: v.chat_log.push((Role::Assistant, EntryKind::Assistant, prose)),
                    scroll: bottom(),
                    ..v
                }
            } else {
                v
            };
            (ChatView {
                streaming_buffer: seq![],
                streaming_label: "Running tools…"@,
                status: "Running tools…"@,
                ..v1
            }, EffectView::Nothing)
        },
        AgentEvent::ToolStart { iteration, name, summary } => (ChatView {
            agent_iteration: iteration,
            streaming_label: "Tool: "@ + summary@,
            status: "Tool: "@ + summary@,
            agent_steps: v.agent_steps.push((iteration, name@, summary@, seq![], false)),
            scroll: bottom(),
            ..v
        }, EffectView::Nothing),
        AgentEvent::ToolDone { iteration, name, output, success } => {
            let steps = match last_step(v.agent_steps, name@, iteration) {
                Some(j) => v.agent_steps.update(
                    j,
                    (v.agent_steps[j].0, v.agent_steps[j].1, v.agent_steps[j].2, output@, success),
                ),
                None => v.agent_steps,
            };
            let icon = if success {
                "✓"@
            } else {
                "✗"@
            };
            (ChatView {
                agent_steps: steps,
                chat_log: v.chat_log.push(
                    (
                        Role::Assistant,
                        EntryKind::Tool { success },
                        icon + " "@ + name@ + "\n"@ + card_preview(output@),
                    ),
                ),
                scroll: bottom(),
                streaming_label: thinking_label(model),
                status: thinking_label(model),
                ..v
            }, EffectView::Nothing)
        },
        AgentEvent::Done => {
            let left = v.streaming_buffer;
            let v1 = if trim(left).len() > 0 && prose_of(left).len() > 0 {
                ChatView {
                    chat_log: v.chat_log.push((Role::Assistant, EntryKind::Assistant, prose_of(left))),
                    ..v
                }
            } else {
                v
            };
            (ChatView {
                streaming_buffer: seq![],
                messages: synced_messages(v1),
                streaming: false,
                streaming_label: seq![],
                status: "Ready"@,
                scroll: bottom(),
                ..v1
            }, EffectView::Autosave)
        },
        AgentEvent::Error(e) => (ChatView {
            chat_log: v.chat_log.push((Role::Assistant, EntryKind::Assistant, "⚠️  Agent error: "@ + e@)),
            streaming: false,
            streaming_label: seq![],
            status: "Error: "@ + e@,
            ..v
        }, EffectView::Nothing),
    }
}


fn thinking_text(model: &str) -> (r: String)
    ensures
        r@ == thinking_label(model@),
{
    concat3("Thinking… [", model, "]")
}

fn plan_text(calls: &Vec<PlannedCall>) -> (r: String)
    ensures
        r@ == plan_label(calls@),
{
    let mut names: Vec<Vec<char>> = Vec::new();
    let ghost tv = calls@.map_values(|c: PlannedCall| c.tool@);
    for i in 0..calls.len()
        invariant
            tv == calls@.map_values(|c: PlannedCall| c.tool@),
            views(names@) == tv.take(i as int),
    {
        let ghost before = views(names@);
        names.push(chars_of(calls[i].tool.as_str()));
        assert(views(names@) =~= before.push(tv[i as int]));
        assert(tv.take(i + 1) =~= tv.take(i as int).push(tv[i as int]));
    }
    assert(tv.take(calls@.len() as int) =~= tv);
    let sep = chars_of(", ");
    let joined = join_chars(&names, sep.as_slice());
    let mut v: Vec<char> = Vec::new();
    push_str(&mut v, "Plan: ");
    push_str(&mut v, decimal_string(calls.len() as u64).as_str());
    push_str(&mut v, " tool(s) → ");
    push_all(&mut v, joined.as_slice());
    string_of(v.as_slice())
}

fn preview_of(output: &str) -> (r: String)
    requires
        utf8_len(output@) > 800 ==> utf8_len(byte_prefix(output@, 800)) == 800,
    ensures
        r@ == card_preview(output@),
{
    if byte_len(output) > 800 {
        let cs = chars_of(output);
        let k = fit_prefix_len(cs.as_slice(), 800);
        let mut v = slice_sub(cs.as_slice(), 0, k);
        assert(v@ =~= byte_prefix(output@, 800));
        push_str(&mut v, "\n…(truncated)");
        string_of(v.as_slice())
    } else {
        output.to_owned()
    }
}

/// The position of the last step card of `name` in `iteration`.
fn find_last_step(steps: &Vec<AgentStep>, name: &str, iteration: u32) -> (r: Option<usize>)
    ensures
        r matches Some(k) ==> k < steps@.len(),
        match r {
            Some(k) => last_step(steps@.map_values(|s: AgentStep| step_view(s)), name@, iteration)
                == Some(k as int),
            None => last_step(steps@.map_values(|s: AgentStep| step_view(s)), name@, iteration)
                is None,
        },
{
    let ghost sv = steps@.map_values(|s: AgentStep| step_view(s));
    let mut j = steps.len();
    assert(sv.take(j as int) =~= sv);
    while j > 0
        invariant
            j <= steps@.len(),
            sv == steps@.map_values(|s: AgentStep| step_view(s)),
            last_step(sv, name@, iteration) == last_step(sv.take(j as int), name@, iteration),
        decreases j,
    {
        assert(sv.take(j as int).drop_last() =~= sv.take(j - 1));
        assert(sv[j - 1] == step_view(steps@[j - 1]));
        if steps[j - 1].iteration == iteration && str_eq(steps[j - 1].tool.as_str(), name) {
            return Some(j - 1);
        }
        j = j - 1;
    }
    None
}

impl ChatState {
    /// Rebuilds the conversation from the chat log, keeping the first message
    /// (or the system prompt when there is none).
    pub fn sync_messages_from_log(&mut self)
        ensures
            final(self).view_state() == (ChatView {
                messages: synced_messages(old(self).view_state()),
                ..old(self).view_state()
            }),
            state_wf(old(self).view_state()) ==> state_wf(final(self).view_state()),
            stamps_kept(old(self).chat_log@, final(self).chat_log@),
    {
        let ghost v = self.view_state();
        let system = if self.messages.len() > 0 {
            self.messages[0].duplicate()
        } else {
            Message::system(system_prompt().to_owned())
        };
        let mut msgs: Vec<Message> = Vec::new();
        msgs.push(system);
        let ghost lv = entry_views(self.chat_log@);
        assert(lv.take(0) =~= Seq::<EntryView>::empty());
        for i in 0..self.chat_log.len()
            invariant
                lv == entry_views(self.chat_log@),
                message_views(msgs@) == seq![synced_messages(v)[0]] + log_messages(lv.take(i as int)),
        {
            let ghost before = message_views(msgs@);
            assert(lv.take(i + 1).drop_last() =~= lv.take(i as int));
            assert(lv[i as int] == self.chat_log@[i as int].view_entry());
            match self.chat_log[i].role {
                Role::User => {
                    msgs.push(Message::user(self.chat_log[i].content.clone()));
                    assert(message_views(msgs@) =~= before.push((Role::User, lv[i as int].2)));
                },
                Role::Assistant => {
                    msgs.push(Message::assistant(self.chat_log[i].content.clone()));
                    assert(message_views(msgs@) =~= before.push((Role::Assistant, lv[i as int].2)));
                },
                Role::System => {},
            }
        }
        assert(lv.take(self.chat_log@.len() as int) =~= lv);
        self.messages = msgs;
        assert(self.view_state() =~= (ChatView { messages: synced_messages(v), ..v }));
    }

    fn on_tool_done(&mut self, iteration: u32, name: String, output: String, success: bool, model: &str)
        requires
            utf8_len(output@) > 800 ==> utf8_len(byte_prefix(output@, 800)) == 800,
        ensures
            final(self).view_state() == agent_event(
                old(self).view_state(),
                AgentEvent::ToolDone { iteration, name, output, success },
                seq![],
                model@,
            ).0,
            stamps_kept(old(self).chat_log@, final(self).chat_log@),
    {
        let ghost v = self.view_state();
        let ghost sv = v.agent_steps;
        match find_last_step(&self.agent_steps, name.as_str(), iteration) {
            Some(k) => {
                let old_step = &self.agent_steps[k];
                let step = AgentStep {
                    iteration: old_step.iteration,
                    tool: old_step.tool.clone(),
                    summary: old_step.summary.clone(),
                    output: output.clone(),
                    success,
                };
                self.agent_steps.set(k, step);
                assert(self.agent_steps@.map_values(|s: AgentStep| step_view(s)) =~= sv.update(
                    k as int,
                    (sv[k as int].0, sv[k as int].1, sv[k as int].2, output@, success),
                ));
            },
            None => {},
        }
        let preview = preview_of(output.as_str());
        let label = if success {
            concat3("✓", " ", name.as_str())
        } else {
            concat3("✗", " ", name.as_str())
        };
        self.chat_log.push(ChatEntry::tool(label, preview, success));
        self.scroll = u16::MAX;
        self.streaming_label = thinking_text(model);
        self.status = thinking_text(model);
        assert(self.view_state() =~= agent_event(
            v,
            AgentEvent::ToolDone { iteration, name, output, success },
            seq![],
            model@,
        ).0);
    }
}


impl ChatState {
    /// Reacts to an event of the agent run; `planner_model` and `model` name
    /// the models shown in the labels.
    pub fn handle_agent_event(&mut self, event: AgentEvent, planner_model: &str, model: &str) -> (e: Effect)
        requires
            event_ok(event),
        ensures
            final(self).view_state() == agent_event(old(self).view_state(), event, planner_model@, model@).0,
            e.view_effect() == agent_event(old(self).view_state(), event, planner_model@, model@).1,
            state_wf(old(self).view_state()) ==> state_wf(final(self).view_state()),
            stamps_kept(old(self).chat_log@, final(self).chat_log@),
    {
        let ghost v = self.view_state();
        let ghost ev = event;
        match event {
            AgentEvent::PlannerStarted => {
                let l = concat3("Planning… [", planner_model, "]");
                self.streaming_label = l.clone();
                self.status = l;
                assert(self.view_state() =~= agent_event(v, ev, planner_model@, model@).0);
                Effect::Nothing
            },
            AgentEvent::PlannerDone { calls } => {
                let l = if calls.len() == 0 {
                    thinking_text(model)
                } else {
                    plan_text(&calls)
                };
                self.streaming_label = l.clone();
                self.status = l;
                assert(self.view_state() =~= agent_event(v, ev, planner_model@, model@).0);
                Effect::Nothing
            },
            AgentEvent::ReasonerStarted => {
                self.streaming_label = thinking_text(model);
                self.status = thinking_text(model);
                assert(self.view_state() =~= agent_event(v, ev, planner_model@, model@).0);
                Effect::Nothing
            },
            AgentEvent::Token(t) => {
                self.streaming_buffer = concat_strs(self.streaming_buffer.as_str(), t.as_str());
                assert(self.view_state() =~= agent_event(v, ev, planner_model@, model@).0);
                Effect::Nothing
            },
            AgentEvent::TurnComplete(full) => {
                let prose = strip_tool_calls(full.as_str());
                if byte_len(prose.as_str()) > 0 {
                    self.chat_log.push(ChatEntry::new(Role::Assistant, prose));
                    self.scroll = u16::MAX;
                }
                self.streaming_buffer = String::new();
                self.streaming_label = "Running tools…".to_owned();
                self.status = "Running tools…".to_owned();
                assert(self.view_state() =~= agent_event(v, ev, planner_model@, model@).0);
                Effect::Nothing
            },
            AgentEvent::ToolStart { iteration, name, summary } => {
                self.agent_iteration = iteration;
                self.streaming_label = concat_strs("Tool: ", summary.as_str());
                self.status = concat_strs("Tool: ", summary.as_str());
                self.agent_steps.push(
                    AgentStep { iteration, tool: name, summary, output: String::new(), success: false },
                );
                self.scroll = u16::MAX;
                assert(self.view_state() =~= agent_event(v, ev, planner_model@, model@).0);
                Effect::Nothing
            },
            AgentEvent::ToolDone { iteration, name, output, success } => {
                self.on_tool_done(iteration, name, output, success, model);
                Effect::Nothing
            },
            AgentEvent::Done => {
                let leftover = self.streaming_buffer.clone();
                self.streaming_buffer = String::new();
                let t = crate::text::trimmed(leftover.as_str());
                if byte_len(t.as_str()) > 0 {
                    let prose = strip_tool_calls(leftover.as_str());
                    if byte_len(prose.as_str()) > 0 {
                        self.chat_log.push(ChatEntry::new(Role::Assistant, prose));
                    }
                }
                let ghost v1 = if trim(v.streaming_buffer).len() > 0 && prose_of(v.streaming_buffer).len() > 0 {
                    ChatView {
                        chat_log: v.chat_log.push((Role::Assistant, EntryKind::Assistant, prose_of(v.streaming_buffer))),
                        ..v
                    }
                } else {
                    v
                };
                assert(self.view_state() =~= (ChatView { streaming_buffer: seq![], ..v1 }));
                self.sync_messages_from_log();
                self.streaming = false;
                self.streaming_label = String::new();
                self.status = "Ready".to_owned();
                self.scroll = u16::MAX;
                assert(self.view_state() =~= agent_event(v, ev, planner_model@, model@).0);
                Effect::Autosave
            },
            AgentEvent::Error(e) => {
                self.chat_log.push(ChatEntry::new(Role::Assistant, concat_strs("⚠️  Agent error: ", e.as_str())));
                self.streaming = false;
                self.streaming_label = String::new();
                self.status = concat_strs("Error: ", e.as_str());
                assert(self.view_state() =~= agent_event(v, ev, planner_model@, model@).0);
                Effect::Nothing
            },
        }
    }
}


// ── Results of effects ───────────────────────────────────────────────────────

pub open spec fn code_block(head: Seq<char>, body: Seq<char>) -> Seq<char> {
    head + "\n```\n"@ + body + "\n```"@
}

/// A file body in the chat: at most 2000 bytes, then a marker.
pub open spec fn file_preview(o: Seq<char>) -> Seq<char> {
    if utf8_len(o) > 2000 {
        byte_prefix(o, 2000) + "\n…(truncated)"@
    } else {
        o
    }
}

/// The opening note of a new interface: a resumed session is named, a fresh
/// one is welcomed.
pub open spec fn greeting(resumed: bool, session_name: Seq<char>, backend: Seq<char>, model: Seq<char>, wd: Seq<char>) -> Seq<char> {
    if resumed {
        "↩ Resumed session **"@ + session_name + "**\nBackend: "@ + backend + " | Model: "@ + model
            + "\n\nUse /sessions to browse sessions, /new to start fresh."@
    } else {
        "Welcome to **OwenCode** 🤖\n\nBackend: "@ + backend + " | Model: "@ + model
            + "\nWorking dir: "@ + wd
            + "\n\nPress **[i]** to start typing. Use **Ctrl+Enter** to send, **Enter** for new line.\nType /help for all commands."@
    }
}

/// A fresh interface state over a conversation and chat log.
pub open spec fn fresh_state(messages: Seq<MessageView>, log: Seq<EntryView>, wd: Seq<char>) -> ChatView {
    ChatView {
        mode: AppMode::Normal,
        messages,
        chat_log: log,
        agent_steps: seq![],
        agent_iteration: 0,
        streaming_label: seq![],
        input: empty_buf(),
        input_history: seq![],
        input_history_idx: None,
        scroll: bottom(),
        scroll_limit: 0,
        streaming: false,
        streaming_buffer: seq![],
        status: "Ready"@,
        available_models: seq![],
        selected_model_idx: 0,
        session_list: seq![],
        session_list_idx: 0,
        working_dir: wd,
        file_tree: seq![],
        should_quit: false,
    }
}

impl ChatState {
    /// A fresh state over a conversation and chat log, in `working_dir`.
    pub fn new(messages: Vec<Message>, chat_log: Vec<ChatEntry>, working_dir: String) -> (r: Self)
        ensures
            r.view_state() == fresh_state(message_views(messages@), entry_views(chat_log@), working_dir@),
            state_wf(r.view_state()),
            r.chat_log@ == chat_log@,
    {
        let r = ChatState {
            mode: AppMode::Normal,
            messages,
            chat_log,
            agent_steps: Vec::new(),
            agent_iteration: 0,
            streaming_label: String::new(),
            input: InputBuffer::new(),
            input_history: Vec::new(),
            input_history_idx: None,
            scroll: u16::MAX,
            scroll_limit: 0,
            streaming: false,
            streaming_buffer: String::new(),
            status: "Ready".to_owned(),
            available_models: Vec::new(),
            selected_model_idx: 0,
            session_list: Vec::new(),
            session_list_idx: 0,
            working_dir,
            file_tree: Vec::new(),
            should_quit: false,
        };
        proof {
            crate::input::law_new_is_empty();
        }
        assert(r.view_state() =~= fresh_state(message_views(messages@), entry_views(chat_log@), working_dir@));
        r
    }

    /// Adds the opening note: a session that already has a chat log is resumed.
    pub fn greet(&mut self, session_name: &str, backend: &str, model: &str)
        ensures
            final(self).view_state() == with_note(
                old(self).view_state(),
                greeting(old(self).chat_log@.len() > 0, session_name@, backend@, model@, old(self).working_dir@),
            ),
            state_wf(old(self).view_state()) ==> state_wf(final(self).view_state()),
            stamps_kept(old(self).chat_log@, final(self).chat_log@),
            final(self).chat_log@.len() == old(self).chat_log@.len() + 1,
    {
        let mut v: Vec<char> = Vec::new();
        if self.chat_log.len() > 0 {
            push_str(&mut v, "↩ Resumed session **");
            push_str(&mut v, session_name);
            push_str(&mut v, "**\nBackend: ");
            push_str(&mut v, backend);
            push_str(&mut v, " | Model: ");
            push_str(&mut v, model);
            push_str(&mut v, "\n\nUse /sessions to browse sessions, /new to start fresh.");
        } else {
            push_str(&mut v, "Welcome to **OwenCode** 🤖\n\nBackend: ");
            push_str(&mut v, backend);
            push_str(&mut v, " | Model: ");
            push_str(&mut v, model);
            push_str(&mut v, "\nWorking dir: ");
            push_str(&mut v, self.working_dir.as_str());
            push_str(
                &mut v,
                "\n\nPress **[i]** to start typing. Use **Ctrl+Enter** to send, **Enter** for new line.\nType /help for all commands.",
            );
        }
        self.push_assistant(string_of(v.as_slice()));
    }

    /// A shell command finished with `(output, success)`, or could not run.
    pub fn shell_done(&mut self, command: &str, outcome: Result<(String, bool), String>)
        ensures
            final(self).view_state() == (ChatView {
                status: "Ready"@,
                ..with_note(
                    old(self).view_state(),
                    match outcome {
                        Ok(o) => code_block(
                            (if o.1 {
                                "✓"@
                            } else {
                                "✗"@
                            }) + " `"@ + command@ + "`"@,
                            o.0@,
                        ),
                        Err(e) => "⚠️  Shell error: "@ + e@,
                    },
                )
            }),
            state_wf(old(self).view_state()) ==> state_wf(final(self).view_state()),
            stamps_kept(old(self).chat_log@, final(self).chat_log@),
    {
        let note = match outcome {
            Ok(o) => {
                let mut v: Vec<char> = Vec::new();
                if o.1 {
                    push_str(&mut v, "✓");
                } else {
                    push_str(&mut v, "✗");
                }
                push_str(&mut v, " `");
                push_str(&mut v, command);
                push_str(&mut v, "`");
                push_str(&mut v, "\n```\n");
                push_str(&mut v, o.0.as_str());
                push_str(&mut v, "\n```");
                string_of(v.as_slice())
            },
            Err(e) => concat_strs("⚠️  Shell error: ", e.as_str()),
        };
        self.push_assistant(note);
        self.status = "Ready".to_owned();
    }

    /// A file read for `/read` gave `outcome`: shown in the chat and added to
    /// the conversation.
    pub fn read_done(&mut self, path: &str, outcome: Result<String, String>)
        requires
            outcome matches Ok(o) ==> (utf8_len(o@) > 2000 ==> utf8_len(byte_prefix(o@, 2000)) == 2000),
        ensures
            final(self).view_state() == (match outcome {
                Ok(o) => ChatView {
                    messages: old(self).view_state().messages.push(
                        (Role::User, "File contents of `"@ + path@ + "`:\n```\n"@ + o@ + "\n```"@),
                    ),
                    ..with_note(old(self).view_state(), code_block("📄 "@ + path@, file_preview(o@)))
                },
                Err(e) => with_note(old(self).view_state(), "⚠️  Read error: "@ + e@),
            }),
            state_wf(old(self).view_state()) ==> state_wf(final(self).view_state()),
            stamps_kept(old(self).chat_log@, final(self).chat_log@),
    {
        let ghost v = self.view_state();
        match outcome {
            Ok(o) => {
                let preview = if byte_len(o.as_str()) > 2000 {
                    let cs = chars_of(o.as_str());
                    let k = fit_prefix_len(cs.as_slice(), 2000);
                    let mut p = slice_sub(cs.as_slice(), 0, k);
                    assert(p@ =~= byte_prefix(o@, 2000));
                    push_str(&mut p, "\n…(truncated)");
                    string_of(p.as_slice())
                } else {
                    o.clone()
                };
                let mut n: Vec<char> = Vec::new();
                push_str(&mut n, "📄 ");
                push_str(&mut n, path);
                push_str(&mut n, "\n```\n");
                push_str(&mut n, preview.as_str());
                push_str(&mut n, "\n```");
                self.push_assistant(string_of(n.as_slice()));
                let mut m: Vec<char> = Vec::new();
                push_str(&mut m, "File contents of `");
                push_str(&mut m, path);
                push_str(&mut m, "`:\n```\n");
                push_str(&mut m, o.as_str());
                push_str(&mut m, "\n```");
                self.messages.push(Message::user(string_of(m.as_slice())));
            },
            Err(e) => {
                self.push_assistant(concat_strs("⚠️  Read error: ", e.as_str()));
            },
        }
    }

    /// A directory listing for `/ls` gave `outcome`.
    pub fn list_done(&mut self, path: &str, outcome: Result<String, String>)
        ensures
            final(self).view_state() == with_note(
                old(self).view_state(),
                match outcome {
                    Ok(o) => code_block("📁 "@ + path@, o@),
                    Err(e) => "⚠️  List error: "@ + e@,
                },
            ),
            state_wf(old(self).view_state()) ==> state_wf(final(self).view_state()),
            stamps_kept(old(self).chat_log@, final(self).chat_log@),
    {
        let note = match outcome {
            Ok(o) => {
                let mut n: Vec<char> = Vec::new();
                push_str(&mut n, "📁 ");
                push_str(&mut n, path);
                push_str(&mut n, "\n```\n");
                push_str(&mut n, o.as_str());
                push_str(&mut n, "\n```");
                string_of(n.as_slice())
            },
            Err(e) => concat_strs("⚠️  List error: ", e.as_str()),
        };
        self.push_assistant(note);
    }

    /// Changing directory for `/cd` gave the canonical path, or an error.
    pub fn cd_done(&mut self, outcome: Result<String, String>)
        ensures
            final(self).view_state() == (match outcome {
                Ok(p) => ChatView {
                    working_dir: p@,
                    status: "cd: "@ + p@,
                    ..old(self).view_state()
                },
                Err(e) => with_note(old(self).view_state(), "⚠️  cd error: "@ + e@),
            }),
            state_wf(old(self).view_state()) ==> state_wf(final(self).view_state()),
            stamps_kept(old(self).chat_log@, final(self).chat_log@),
    {
        let ghost v = self.view_state();
        match outcome {
            Ok(p) => {
                self.status = concat_strs("cd: ", p.as_str());
                self.working_dir = p;
                assert(self.view_state() =~= (ChatView { working_dir: self.working_dir@, status: self.status@, ..v }));
            },
            Err(e) => {
                self.push_assistant(concat_strs("⚠️  cd error: ", e.as_str()));
            },
        }
    }

    /// The session was saved under `name`.
    pub fn session_saved(&mut self, name: &str)
        ensures
            final(self).view_state() == with_note(old(self).view_state(), "💾 Session saved as **"@ + name@ + "**"@),
            state_wf(old(self).view_state()) ==> state_wf(final(self).view_state()),
            stamps_kept(old(self).chat_log@, final(self).chat_log@),
    {
        self.push_assistant(concat3("💾 Session saved as **", name, "**"));
    }

    /// A new session started: the conversation is the system prompt alone.
    pub fn start_new_session(&mut self)
        ensures
            final(self).view_state() == with_note(
                ChatView {
                    messages: seq![(Role::System, system_prompt_text())],
                    chat_log: seq![],
                    ..old(self).view_state()
                },
                "🆕 New session started. Previous session was auto-saved."@,
            ),
            state_wf(old(self).view_state()) ==> state_wf(final(self).view_state()),
    {
        let ghost v = self.view_state();
        let mut msgs: Vec<Message> = Vec::new();
        msgs.push(Message::system(system_prompt().to_owned()));
        self.messages = msgs;
        self.chat_log = Vec::new();
        assert(self.view_state() =~= (ChatView {
            messages: seq![(Role::System, system_prompt_text())],
            chat_log: seq![],
            ..v
        }));
        self.push_assistant("🆕 New session started. Previous session was auto-saved.".to_owned());
    }

    /// A saved session was loaded: its conversation, log and directory replace the current ones.
    pub fn session_loaded(&mut self, name: &str, messages: Vec<Message>, chat_log: Vec<ChatEntry>, working_dir: String)
        ensures
            final(self).view_state() == with_note(
                ChatView {
                    messages: message_views(messages@),
                    chat_log: entry_views(chat_log@),
                    working_dir: working_dir@,
                    status: "Loaded: "@ + name@,
                    ..old(self).view_state()
                },
                "↩ Loaded session **"@ + name@ + "**"@,
            ),
            state_wf(old(self).view_state()) ==> state_wf(final(self).view_state()),
            forall|i: int| 0 <= i < chat_log@.len() ==> #[trigger] final(self).chat_log@[i].timestamp == chat_log@[i].timestamp,
    {
        let ghost v = self.view_state();
        let ghost loaded = chat_log@;
        self.messages = messages;
        self.chat_log = chat_log;
        self.working_dir = working_dir;
        self.scroll = u16::MAX;
        self.status = concat_strs("Loaded: ", name);
        assert(self.view_state() =~= (ChatView {
            messages: message_views(messages@),
            chat_log: entry_views(chat_log@),
            working_dir: working_dir@,
            status: "Loaded: "@ + name@,
            scroll: bottom(),
            ..v
        }));
        let ghost before = self.chat_log@;
        self.push_assistant(concat3("↩ Loaded session **", name, "**"));
        assert(self.chat_log@.len() == before.len() + 1);
        assert(forall|i: int| 0 <= i < loaded.len() ==> #[trigger] self.chat_log@[i].timestamp == before[i].timestamp);
    }

    /// Loading a session failed.
    pub fn session_load_failed(&mut self, error: &str)
        ensures
            final(self).view_state() == (ChatView {
                status: "Failed to load session: "@ + error@,
                ..old(self).view_state()
            }),
            state_wf(old(self).view_state()) ==> state_wf(final(self).view_state()),
            stamps_kept(old(self).chat_log@, final(self).chat_log@),
    {
        let ghost v = self.view_state();
        self.status = concat_strs("Failed to load session: ", error);
        assert(self.view_state() =~= (ChatView { status: "Failed to load session: "@ + error@, ..v }));
    }

    /// Listing the saved sessions gave `outcome`.
    pub fn sessions_listed(&mut self, outcome: Result<Vec<SessionMeta>, String>)
        ensures
            final(self).view_state() == (match outcome {
                Ok(list) => if list@.len() == 0 {
                    with_note(old(self).view_state(), "No saved sessions. Use /save to save the current session."@)
                } else {
                    ChatView {
                        session_list: list@.map_values(|m: SessionMeta| meta_view(m)),
                        session_list_idx: 0,
                        mode: AppMode::SessionSelect,
                        status: "Select a session"@,
                        ..old(self).view_state()
                    }
                },
                Err(e) => ChatView { status: "Failed to list sessions: "@ + e@, ..old(self).view_state() },
            }),
            state_wf(old(self).view_state()) ==> state_wf(final(self).view_state()),
            stamps_kept(old(self).chat_log@, final(self).chat_log@),
    {
        let ghost v = self.view_state();
        match outcome {
            Ok(list) => {
                if list.len() == 0 {
                    self.push_assistant(
                        "No saved sessions. Use /save to save the current session.".to_owned(),
                    );
                } else {
                    self.session_list = list;
                    self.session_list_idx = 0;
                    self.mode = AppMode::SessionSelect;
                    self.status = "Select a session".to_owned();
                    assert(self.view_state() =~= (ChatView {
                        session_list: self.session_list@.map_values(|m: SessionMeta| meta_view(m)),
                        session_list_idx: 0,
                        mode: AppMode::SessionSelect,
                        status: "Select a session"@,
                        ..v
                    }));
                }
            },
            Err(e) => {
                self.status = concat_strs("Failed to list sessions: ", e.as_str());
                assert(self.view_state() =~= (ChatView { status: self.status@, ..v }));
            },
        }
    }

    /// Fetching the backend's models starts.
    pub fn begin_model_fetch(&mut self)
        ensures
            final(self).view_state() == (ChatView { status: "Fetching models…"@, ..old(self).view_state() }),
            state_wf(old(self).view_state()) ==> state_wf(final(self).view_state()),
            stamps_kept(old(self).chat_log@, final(self).chat_log@),
    {
        let ghost v = self.view_state();
        self.status = "Fetching models…".to_owned();
        assert(self.view_state() =~= (ChatView { status: "Fetching models…"@, ..v }));
    }

    /// The backend's models came back; the picker opens on the current model.
    pub fn models_listed(&mut self, current: &str, outcome: Result<Vec<String>, String>)
        ensures
            final(self).view_state() == (match outcome {
                Ok(models) => ChatView {
                    available_models: strings(models@),
                    selected_model_idx: match first_index(strings(models@), current@) {
                        Some(i) => i as usize,
                        None => 0,
                    },
                    mode: AppMode::ModelSelect,
                    status: "Select a model"@,
                    ..old(self).view_state()
                },
                Err(e) => ChatView { status: "Failed to list models: "@ + e@, ..old(self).view_state() },
            }),
            state_wf(old(self).view_state()) ==> state_wf(final(self).view_state()),
            stamps_kept(old(self).chat_log@, final(self).chat_log@),
    {
        let ghost v = self.view_state();
        match outcome {
            Ok(models) => {
                let idx = match position_of(&models, current) {
                    Some(i) => i,
                    None => 0,
                };
                self.available_models = models;
                self.selected_model_idx = idx;
                self.mode = AppMode::ModelSelect;
                self.status = "Select a model".to_owned();
                assert(self.view_state() =~= (ChatView {
                    available_models: strings(self.available_models@),
                    selected_model_idx: idx,
                    mode: AppMode::ModelSelect,
                    status: "Select a model"@,
                    ..v
                }));
            },
            Err(e) => {
                self.status = concat_strs("Failed to list models: ", e.as_str());
                assert(self.view_state() =~= (ChatView { status: self.status@, ..v }));
            },
        }
    }

    /// The file tree is the lines of a directory listing.
    pub fn set_file_tree(&mut self, listing: &str)
        ensures
            final(self).view_state() == (ChatView { file_tree: lines(listing@), ..old(self).view_state() }),
            state_wf(old(self).view_state()) ==> state_wf(final(self).view_state()),
            stamps_kept(old(self).chat_log@, final(self).chat_log@),
    {
        let ghost v = self.view_state();
        let cs = chars_of(listing);
        let ls = lines_of(cs.as_slice());
        let mut tree: Vec<String> = Vec::new();
        for i in 0..ls.len()
            invariant
                strings(tree@) == views(ls@).take(i as int),
        {
            let ghost before = strings(tree@);
            tree.push(string_of(ls[i].as_slice()));
            assert(strings(tree@) =~= before.push(views(ls@)[i as int]));
            assert(views(ls@).take(i + 1) =~= views(ls@).take(i as int).push(views(ls@)[i as int]));
        }
        assert(views(ls@).take(ls@.len() as int) =~= views(ls@));
        self.file_tree = tree;
        assert(self.view_state() =~= (ChatView { file_tree: lines(listing@), ..v }));
    }
}

/// The first position of `x` in `s`.
pub open spec fn first_index(s: Seq<Seq<char>>, x: Seq<char>) -> Option<int>
    decreases s.len(),
{
    if s.len() == 0 {
        None
    } else if s[0] == x {
        Some(0)
    } else {
        match first_index(s.drop_first(), x) {
            Some(i) => Some(i + 1),
            None => None,
        }
    }
}

fn position_of(v: &Vec<String>, x: &str) -> (r: Option<usize>)
    ensures
        match r {
            Some(i) => first_index(strings(v@), x@) == Some(i as int),
            None => first_index(strings(v@), x@) is None,
        },
{
    let ghost sv = strings(v@);
    assert(sv.skip(0) =~= sv);
    for i in 0..v.len()
        invariant
            sv == strings(v@),
            first_index(sv, x@) == (match first_index(sv.skip(i as int), x@) {
                Some(j) => Some(j + i),
                None => None,
            }),
    {
        assert(sv.skip(i as int)[0] == v@[i as int]@);
        if str_eq(v[i].as_str(), x) {
            return Some(i);
        }
        assert(sv.skip(i as int).drop_first() =~= sv.skip(i + 1));
    }
    assert(sv.skip(v@.len() as int) =~= Seq::<Seq<char>>::empty());
    None
}


/// The interface at start: the last session resumed when there is one, a
/// new session (with the system prompt) otherwise, and the opening note.
pub fn startup(last: Option<Session>, working_dir: String, backend_name: &str, model: &str) -> (r: (ChatState, Session))
    ensures
        state_wf(r.0.view_state()),
        last matches Some(l) ==> forall|i: int|
            0 <= i < l.chat_log@.len() ==> #[trigger] r.0.chat_log@[i].timestamp == l.chat_log@[i].timestamp,
        match last {
            Some(l) => {
                &&& r.1 == l
                &&& r.0.view_state() == with_note(
                    fresh_state(loaded_messages(l.message_pairs()), loaded_entries(l.entry_triples()), working_dir@),
                    greeting(l.chat_log@.len() > 0, l.name@, backend_name@, model@, working_dir@),
                )
            },
            None => {
                &&& r.1.working_dir@ == working_dir@
                &&& r.1.backend@ == backend_name@
                &&& r.1.model@ == model@
                &&& r.1.message_pairs() == seq![("system"@, system_prompt_text())]
                &&& r.1.entry_triples() == Seq::<(Seq<char>, Seq<char>, i64)>::empty()
                &&& r.0.view_state() == with_note(
                    fresh_state(seq![(Role::System, system_prompt_text())], seq![], working_dir@),
                    greeting(false, r.1.name@, backend_name@, model@, working_dir@),
                )
            },
        },
{
    match last {
        Some(l) => {
            let messages = l.to_messages();
            let log = l.to_chat_log();
            let mut st = ChatState::new(messages, log, working_dir);
            proof {
                crate::input::law_new_is_empty();
            }
            st.greet(l.name.as_str(), backend_name, model);
            (st, l)
        },
        None => {
            let mut sys: Vec<Message> = Vec::new();
            sys.push(Message::system(system_prompt().to_owned()));
            let session = Session::new(
                default_session_name(),
                working_dir.clone(),
                backend_name.to_owned(),
                model.to_owned(),
                sys.as_slice(),
                &[],
            );
            assert(message_views(sys@) =~= seq![(Role::System, system_prompt_text())]);
            assert(crate::session::stored_messages(message_views(sys@)) =~= seq![
                (crate::ai::role_name(Role::System), system_prompt_text()),
            ]);
            assert(crate::session::stored_entries(Seq::<ChatEntry>::empty()) =~= Seq::<(Seq<char>, Seq<char>, i64)>::empty());
            let mut st = ChatState::new(sys, Vec::new(), working_dir);
            assert(entry_views(Seq::<ChatEntry>::empty()) =~= Seq::<EntryView>::empty());
            st.greet(session.name.as_str(), backend_name, model);
            (st, session)
        },
    }
}

} // verus!
