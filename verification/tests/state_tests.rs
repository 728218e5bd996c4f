use ocode::state::event_fits;
use ocode::agent::AgentEvent;
use ocode::ai::{Message, Role};
use ocode::app::{AppMode, ChatEntry, EntryKind};
use ocode::args::ToolArgs;
use ocode::planner::PlannedCall;
use ocode::session::SessionMeta;
use ocode::state::{startup, system_prompt, ChatState, Effect, Key, KeyCode};

fn key(code: KeyCode) -> Key {
    Key { code, ctrl: false, alt: false }
}

fn ctrl(code: KeyCode) -> Key {
    Key { code, ctrl: true, alt: false }
}

fn alt(code: KeyCode) -> Key {
    Key { code, ctrl: false, alt: true }
}

fn fresh() -> ChatState {
    ChatState::new(vec![Message::system("sys".to_string())], Vec::new(), "/work".to_string())
}

fn type_text(st: &mut ChatState, s: &str) {
    for c in s.chars() {
        if c == '\n' {
            st.handle_key(key(KeyCode::Enter));
        } else {
            st.handle_key(key(KeyCode::Char(c)));
        }
    }
}

fn last_note(st: &ChatState) -> String {
    st.chat_log.last().map(|e| e.content.clone()).unwrap_or_default()
}

fn meta(id: &str) -> SessionMeta {
    SessionMeta { id: id.to_string(), name: id.to_string(), updated_at: 0, model: "m".to_string(), message_count: 1 }
}

#[test]
fn fresh_state_defaults() {
    let st = fresh();
    assert_eq!(st.mode, AppMode::Normal);
    assert_eq!(st.status, "Ready");
    assert_eq!(st.scroll, u16::MAX);
    assert!(!st.streaming && !st.should_quit);
    assert!(st.input.is_empty());
    assert_eq!(st.working_dir, "/work");
}

#[test]
fn normal_mode_keys() {
    let mut st = fresh();
    assert!(matches!(st.handle_key(key(KeyCode::Char('m'))), Effect::OpenModelSelect));
    assert!(matches!(st.handle_key(ctrl(KeyCode::Char('s'))), Effect::SaveSession { name: None }));
    st.set_scroll_limit(10);
    st.handle_key(key(KeyCode::Char('g')));
    assert_eq!(st.scroll, 0);
    st.handle_key(key(KeyCode::Char('k')));
    assert_eq!(st.scroll, 0);
    st.handle_key(key(KeyCode::Char('j')));
    st.handle_key(key(KeyCode::Down));
    assert_eq!(st.scroll, 2);
    st.handle_key(key(KeyCode::Up));
    assert_eq!(st.scroll, 1);
    st.handle_key(key(KeyCode::Char('G')));
    assert_eq!(st.scroll, u16::MAX);
    st.handle_key(key(KeyCode::Char('j')));
    assert_eq!(st.scroll, u16::MAX);
    st.handle_key(key(KeyCode::Down));
    assert_eq!(st.scroll, u16::MAX);
    st.handle_key(key(KeyCode::Char('?')));
    assert_eq!(st.mode, AppMode::Help);
    st.handle_key(key(KeyCode::Char('x')));
    assert_eq!(st.mode, AppMode::Normal);
    st.handle_key(key(KeyCode::Char('a')));
    assert_eq!(st.mode, AppMode::Insert);
    st.handle_key(key(KeyCode::Esc));
    assert_eq!(st.mode, AppMode::Normal);
    st.handle_key(key(KeyCode::Char('q')));
    assert!(st.should_quit);
}

#[test]
fn ctrl_c_quits_in_insert_mode() {
    let mut st = fresh();
    st.handle_key(key(KeyCode::Char('i')));
    st.handle_key(ctrl(KeyCode::Char('c')));
    assert!(st.should_quit);
    assert!(st.input.is_empty());
}

#[test]
fn sending_a_message_starts_the_agent() {
    let mut st = fresh();
    st.handle_key(key(KeyCode::Char('i')));
    type_text(&mut st, "  explain\nthis  ");
    assert_eq!(st.input.text(), "  explain\nthis  ");
    let e = st.handle_key(ctrl(KeyCode::Enter));
    assert!(matches!(e, Effect::StartAgent));
    assert!(st.input.is_empty());
    assert_eq!(st.input_history, vec!["explain\nthis".to_string()]);
    assert_eq!(st.messages.last().unwrap().content, "explain\nthis");
    assert_eq!(st.messages.last().unwrap().role, Role::User);
    assert_eq!(st.chat_log.last().unwrap().kind, EntryKind::User);
    assert!(st.streaming);
    assert_eq!(st.status, "Planning…");
    assert_eq!(st.streaming_label, "Planning…");
    // While streaming, sending does nothing.
    type_text(&mut st, "more");
    assert!(matches!(st.handle_key(alt(KeyCode::Enter)), Effect::Nothing));
    assert_eq!(st.input.text(), "more");
}

#[test]
fn blank_input_is_not_sent() {
    let mut st = fresh();
    st.handle_key(key(KeyCode::Char('i')));
    type_text(&mut st, "   ");
    assert!(matches!(st.handle_key(ctrl(KeyCode::Enter)), Effect::Nothing));
    assert!(st.input_history.is_empty());
}

#[test]
fn sent_text_is_recalled_by_history() {
    let mut st = fresh();
    st.handle_key(key(KeyCode::Char('i')));
    type_text(&mut st, "/ls src");
    st.handle_key(ctrl(KeyCode::Enter));
    type_text(&mut st, "/help");
    st.handle_key(alt(KeyCode::Enter));
    st.mode = AppMode::Insert;
    st.handle_key(alt(KeyCode::Up));
    assert_eq!(st.input.text(), "/help");
    assert_eq!(st.input_history_idx, Some(1));
    st.handle_key(alt(KeyCode::Up));
    assert_eq!(st.input.text(), "/ls src");
    st.handle_key(alt(KeyCode::Up));
    assert_eq!(st.input.text(), "/ls src");
    assert_eq!(st.input_history_idx, Some(0));
    st.handle_key(alt(KeyCode::Down));
    assert_eq!(st.input.text(), "/help");
    st.handle_key(alt(KeyCode::Down));
    assert!(st.input.is_empty());
    assert_eq!(st.input_history_idx, None);
}

#[test]
fn history_without_entries_keeps_input() {
    let mut st = fresh();
    st.handle_key(key(KeyCode::Char('i')));
    type_text(&mut st, "draft");
    st.handle_key(alt(KeyCode::Up));
    assert_eq!(st.input.text(), "draft");
    st.handle_key(alt(KeyCode::Down));
    assert_eq!(st.input.text(), "draft");
}

#[test]
fn slash_commands_effects() {
    let mut st = fresh();
    assert!(matches!(st.handle_command("/model"), Effect::OpenModelSelect));
    assert!(matches!(st.handle_command("/m"), Effect::OpenModelSelect));
    match st.handle_command("/save my work ") {
        Effect::SaveSession { name } => assert_eq!(name.as_deref(), Some("my work")),
        other => panic!("{:?}", other),
    }
    assert!(matches!(st.handle_command("/s"), Effect::SaveSession { name: None }));
    assert!(matches!(st.handle_command("/sessions"), Effect::OpenSessionSelect));
    assert!(matches!(st.handle_command("/new"), Effect::NewSession));
    assert!(matches!(st.handle_command("/load"), Effect::OpenSessionSelect));
    match st.handle_command("/load 20240101_120000") {
        Effect::LoadSession { id } => assert_eq!(id, "20240101_120000"),
        other => panic!("{:?}", other),
    }
    match st.handle_command("/run  cargo test ") {
        Effect::RunShell { command } => assert_eq!(command, "cargo test"),
        other => panic!("{:?}", other),
    }
    assert_eq!(st.status, "Running: cargo test");
    assert_eq!(last_note(&st), "$ cargo test");
    match st.handle_command("/cat notes.md") {
        Effect::ReadFile { path } => assert_eq!(path, "notes.md"),
        other => panic!("{:?}", other),
    }
    match st.handle_command("/ls") {
        Effect::ListDir { path } => assert_eq!(path, "/work"),
        other => panic!("{:?}", other),
    }
    match st.handle_command("/dir src") {
        Effect::ListDir { path } => assert_eq!(path, "src"),
        other => panic!("{:?}", other),
    }
    match st.handle_command("/cd src") {
        Effect::ChangeDir { path } => assert_eq!(path, "/work/src"),
        other => panic!("{:?}", other),
    }
    match st.handle_command("/cd /tmp") {
        Effect::ChangeDir { path } => assert_eq!(path, "/tmp"),
        other => panic!("{:?}", other),
    }
    assert_eq!(st.scroll, u16::MAX);
}

#[test]
fn slash_command_notes() {
    let mut st = fresh();
    st.handle_command("/run");
    assert_eq!(last_note(&st), "Usage: /run <command>");
    st.handle_command("/read");
    assert_eq!(last_note(&st), "Usage: /read <file>");
    st.handle_command("/cd");
    assert_eq!(last_note(&st), "Current directory: /work");
    st.handle_command("/frobnicate now");
    assert_eq!(last_note(&st), "Unknown command: `/frobnicate`. Type /help for available commands.");
    st.handle_command("/help");
    assert_eq!(st.mode, AppMode::Help);
    st.handle_command("/q");
    assert!(st.should_quit);
}

#[test]
fn clear_keeps_the_system_prompt() {
    let mut st = fresh();
    st.handle_input("hello".to_string());
    assert_eq!(st.messages.len(), 2);
    st.handle_command("/clear");
    assert!(st.chat_log.is_empty());
    assert_eq!(st.messages.len(), 1);
    assert_eq!(st.messages[0].content, "sys");
    assert_eq!(st.status, "Chat cleared");
}

#[test]
fn model_picker_keys() {
    let mut st = fresh();
    st.begin_model_fetch();
    assert_eq!(st.status, "Fetching models…");
    st.models_listed("b", Ok(vec!["a".to_string(), "b".to_string(), "c".to_string()]));
    assert_eq!(st.mode, AppMode::ModelSelect);
    assert_eq!(st.selected_model_idx, 1);
    st.handle_key(key(KeyCode::Char('j')));
    st.handle_key(key(KeyCode::Down));
    assert_eq!(st.selected_model_idx, 2);
    st.handle_key(key(KeyCode::Up));
    assert_eq!(st.selected_model_idx, 1);
    match st.handle_key(key(KeyCode::Enter)) {
        Effect::SwitchModel { model } => assert_eq!(model, "b"),
        other => panic!("{:?}", other),
    }
    assert_eq!(st.mode, AppMode::Normal);
    assert_eq!(st.status, "Switched to model: b");
    st.models_listed("zzz", Ok(vec!["a".to_string()]));
    assert_eq!(st.selected_model_idx, 0);
    st.handle_key(key(KeyCode::Char('q')));
    assert_eq!(st.mode, AppMode::Normal);
    st.models_listed("a", Err("offline".to_string()));
    assert_eq!(st.status, "Failed to list models: offline");
}

#[test]
fn session_picker_keys() {
    let mut st = fresh();
    st.sessions_listed(Ok(Vec::new()));
    assert_eq!(last_note(&st), "No saved sessions. Use /save to save the current session.");
    st.sessions_listed(Ok(vec![meta("one"), meta("two")]));
    assert_eq!(st.mode, AppMode::SessionSelect);
    assert_eq!(st.status, "Select a session");
    st.handle_key(key(KeyCode::Down));
    assert_eq!(st.session_list_idx, 1);
    match st.handle_key(key(KeyCode::Char('d'))) {
        Effect::DeleteSession { id } => assert_eq!(id, "two"),
        other => panic!("{:?}", other),
    }
    assert_eq!(st.session_list_idx, 0);
    assert_eq!(st.session_list.len(), 1);
    assert_eq!(st.status, "Session deleted");
    assert_eq!(st.mode, AppMode::SessionSelect);
    match st.handle_key(key(KeyCode::Enter)) {
        Effect::LoadSession { id } => assert_eq!(id, "one"),
        other => panic!("{:?}", other),
    }
    assert_eq!(st.mode, AppMode::Normal);
    st.sessions_listed(Err("denied".to_string()));
    assert_eq!(st.status, "Failed to list sessions: denied");
}

#[test]
fn deleting_the_last_session_closes_the_picker() {
    let mut st = fresh();
    st.sessions_listed(Ok(vec![meta("only")]));
    st.handle_key(key(KeyCode::Char('d')));
    assert!(st.session_list.is_empty());
    assert_eq!(st.mode, AppMode::Normal);
}

#[test]
fn agent_run_events() {
    let mut st = fresh();
    st.handle_input("what is in src?".to_string());
    st.handle_agent_event(AgentEvent::PlannerStarted, "tiny", "big");
    assert_eq!(st.status, "Planning… [tiny]");
    let mut args = ToolArgs::new();
    args.insert("path".to_string(), "src".to_string());
    let calls = vec![
        PlannedCall { tool: "list_dir".to_string(), args, reason: "look".to_string() },
        PlannedCall { tool: "read_file".to_string(), args: ToolArgs::new(), reason: String::new() },
    ];
    st.handle_agent_event(AgentEvent::PlannerDone { calls }, "tiny", "big");
    assert_eq!(st.status, "Plan: 2 tool(s) → list_dir, read_file");
    st.handle_agent_event(
        AgentEvent::ToolStart { iteration: 0, name: "list_dir".to_string(), summary: "ls src".to_string() },
        "tiny",
        "big",
    );
    assert_eq!(st.status, "Tool: ls src");
    assert_eq!(st.agent_steps.len(), 1);
    st.handle_agent_event(
        AgentEvent::ToolDone { iteration: 0, name: "list_dir".to_string(), output: "main.rs".to_string(), success: true },
        "tiny",
        "big",
    );
    assert_eq!(st.agent_steps[0].output, "main.rs");
    assert!(st.agent_steps[0].success);
    assert_eq!(last_note(&st), "✓ list_dir\nmain.rs");
    assert_eq!(st.chat_log.last().unwrap().kind, EntryKind::Tool { success: true });
    assert_eq!(st.status, "Thinking… [big]");
    st.handle_agent_event(AgentEvent::ReasonerStarted, "tiny", "big");
    st.handle_agent_event(AgentEvent::Token("It has ".to_string()), "tiny", "big");
    st.handle_agent_event(AgentEvent::Token("main.rs".to_string()), "tiny", "big");
    assert_eq!(st.streaming_buffer, "It has main.rs");
    st.handle_agent_event(AgentEvent::TurnComplete("It has main.rs".to_string()), "tiny", "big");
    assert_eq!(st.streaming_buffer, "");
    assert_eq!(last_note(&st), "It has main.rs");
    let e = st.handle_agent_event(AgentEvent::Done, "tiny", "big");
    assert!(matches!(e, Effect::Autosave));
    assert!(!st.streaming);
    assert_eq!(st.status, "Ready");
    // The conversation is rebuilt from the log behind the system prompt.
    let roles: Vec<Role> = st.messages.iter().map(|m| m.role).collect();
    assert_eq!(roles, vec![Role::System, Role::User, Role::Assistant, Role::Assistant]);
    assert_eq!(st.messages[0].content, "sys");
    assert_eq!(st.messages[1].content, "what is in src?");
    assert_eq!(st.messages[3].content, "It has main.rs");
}

#[test]
fn empty_plan_and_errors() {
    let mut st = fresh();
    st.handle_agent_event(AgentEvent::PlannerDone { calls: Vec::new() }, "p", "m");
    assert_eq!(st.status, "Thinking… [m]");
    st.streaming = true;
    st.handle_agent_event(AgentEvent::Error("boom".to_string()), "p", "m");
    assert!(!st.streaming);
    assert_eq!(st.status, "Error: boom");
    assert_eq!(last_note(&st), "⚠️  Agent error: boom");
}

#[test]
fn long_tool_output_is_previewed() {
    let mut st = fresh();
    let out = "x".repeat(900);
    st.handle_agent_event(
        AgentEvent::ToolDone { iteration: 1, name: "run_shell".to_string(), output: out, success: false },
        "p",
        "m",
    );
    assert_eq!(last_note(&st), format!("✗ run_shell\n{}\n…(truncated)", "x".repeat(800)));
    assert!(st.agent_steps.is_empty());
}

#[test]
fn leftover_stream_is_kept_when_done() {
    let mut st = fresh();
    st.handle_agent_event(AgentEvent::Token("partial <tool_call name=\"x\"></tool_call> answer".to_string()), "p", "m");
    st.handle_agent_event(AgentEvent::Done, "p", "m");
    assert_eq!(last_note(&st), "partial  answer");
    assert_eq!(st.streaming_buffer, "");
}

#[test]
fn effect_results_are_shown() {
    let mut st = fresh();
    st.shell_done("ls", Ok(("a\nb".to_string(), true)));
    assert_eq!(last_note(&st), "✓ `ls`\n```\na\nb\n```");
    assert_eq!(st.status, "Ready");
    st.shell_done("false", Err("spawn failed".to_string()));
    assert_eq!(last_note(&st), "⚠️  Shell error: spawn failed");
    st.read_done("a.txt", Ok("body".to_string()));
    assert_eq!(last_note(&st), "📄 a.txt\n```\nbody\n```");
    assert_eq!(st.messages.last().unwrap().content, "File contents of `a.txt`:\n```\nbody\n```");
    st.read_done("b.txt", Err("missing".to_string()));
    assert_eq!(last_note(&st), "⚠️  Read error: missing");
    st.list_done("src", Ok("main.rs".to_string()));
    assert_eq!(last_note(&st), "📁 src\n```\nmain.rs\n```");
    st.list_done("nope", Err("denied".to_string()));
    assert_eq!(last_note(&st), "⚠️  List error: denied");
    st.cd_done(Ok("/tmp".to_string()));
    assert_eq!(st.working_dir, "/tmp");
    assert_eq!(st.status, "cd: /tmp");
    st.cd_done(Err("no dir".to_string()));
    assert_eq!(last_note(&st), "⚠️  cd error: no dir");
    st.session_saved("work");
    assert_eq!(last_note(&st), "💾 Session saved as **work**");
    st.session_load_failed("corrupt");
    assert_eq!(st.status, "Failed to load session: corrupt");
}

#[test]
fn long_file_is_previewed_but_sent_whole() {
    let mut st = fresh();
    let body = "y".repeat(2100);
    st.read_done("big", Ok(body.clone()));
    assert_eq!(last_note(&st), format!("📄 big\n```\n{}\n…(truncated)\n```", "y".repeat(2000)));
    assert!(st.messages.last().unwrap().content.contains(&body));
}

#[test]
fn new_and_loaded_sessions() {
    let mut st = fresh();
    st.handle_input("hi".to_string());
    st.start_new_session();
    assert_eq!(st.messages.len(), 1);
    assert_eq!(st.messages[0].content, system_prompt());
    assert_eq!(st.chat_log.len(), 1);
    assert_eq!(last_note(&st), "🆕 New session started. Previous session was auto-saved.");
    let log = vec![ChatEntry::new(Role::User, "old question".to_string())];
    st.session_loaded("Old", vec![Message::user("old question".to_string())], log, "/old".to_string());
    assert_eq!(st.working_dir, "/old");
    assert_eq!(st.status, "Loaded: Old");
    assert_eq!(st.chat_log.len(), 2);
    assert_eq!(last_note(&st), "↩ Loaded session **Old**");
}

#[test]
fn file_tree_and_greeting() {
    let mut st = fresh();
    st.set_file_tree("a\nb\n");
    assert_eq!(st.file_tree, vec!["a".to_string(), "b".to_string()]);
    st.greet("S", "ollama", "llama3.2");
    assert!(last_note(&st).starts_with("Welcome to **OwenCode** 🤖\n\nBackend: ollama | Model: llama3.2\nWorking dir: /work"));
    st.greet("S", "ollama", "llama3.2");
    assert_eq!(last_note(&st), "↩ Resumed session **S**\nBackend: ollama | Model: llama3.2\n\nUse /sessions to browse sessions, /new to start fresh.");
}

#[test]
fn startup_without_a_session() {
    let (st, session) = startup(None, "/proj".to_string(), "ollama", "llama3.2");
    assert_eq!(st.messages.len(), 1);
    assert_eq!(st.messages[0].role, Role::System);
    assert_eq!(st.messages[0].content, system_prompt());
    assert_eq!(st.chat_log.len(), 1);
    assert!(last_note(&st).starts_with("Welcome to **OwenCode**"));
    assert_eq!(session.working_dir, "/proj");
    assert_eq!(session.model, "llama3.2");
    assert_eq!(session.messages.len(), 1);
    assert_eq!(session.messages[0].role, "system");
}

#[test]
fn cursor_check_before_editing() {
    let mut st = fresh();
    st.handle_key(key(KeyCode::Char('i')));
    type_text(&mut st, "éé\nx");
    st.handle_key(key(KeyCode::Up));
    assert_eq!((st.input.row, st.input.col), (0, 0));
    assert!(st.cursor_ok());
    st.input.col = 1;
    assert!(!st.cursor_ok());
    st.handle_key(key(KeyCode::Home));
    assert!(st.cursor_ok());
}

#[test]
fn keys_and_events_the_state_can_take() {
    let mut st = fresh();
    assert!(st.key_allowed(key(KeyCode::Char('x'))));
    st.handle_key(key(KeyCode::Char('i')));
    type_text(&mut st, "éé\nx");
    st.input.row = 0;
    st.input.col = 1;
    assert!(!st.key_allowed(key(KeyCode::Char('y'))));
    assert!(!st.key_allowed(key(KeyCode::Backspace)));
    assert!(st.key_allowed(key(KeyCode::Down)));
    assert!(st.key_allowed(ctrl(KeyCode::Enter)));
    let bad = format!("{}é", "x".repeat(799));
    let ev = AgentEvent::ToolDone { iteration: 0, name: "t".to_string(), output: bad, success: true };
    assert!(!event_fits(&ev));
    assert!(event_fits(&AgentEvent::Done));
}

#[test]
fn scrolling_up_from_the_end_moves_the_view() {
    let mut st = fresh();
    st.set_scroll_limit(12);
    assert_eq!(st.scroll, u16::MAX);
    assert_eq!(st.shown_scroll(), 12);
    st.handle_key(key(KeyCode::Up));
    assert_eq!(st.shown_scroll(), 11);
    st.handle_key(key(KeyCode::Char('k')));
    assert_eq!(st.scroll, 10);
    st.set_scroll_limit(4);
    assert_eq!(st.shown_scroll(), 4);
    st.handle_key(key(KeyCode::Char('j')));
    assert_eq!(st.scroll, 4);
    st.handle_key(key(KeyCode::Char('G')));
    st.handle_key(key(KeyCode::Char('j')));
    assert_eq!(st.scroll, u16::MAX);
    assert_eq!(st.shown_scroll(), 4);
    st.set_scroll_limit(0);
    st.handle_key(key(KeyCode::Char('k')));
    assert_eq!(st.scroll, 0);
}

#[test]
fn entries_keep_their_time_stamps() {
    let mut first = ChatEntry::new(Role::User, "q".to_string());
    first.timestamp = 42;
    let mut st = ChatState::new(vec![Message::system("sys".to_string())], vec![first], "/w".to_string());
    st.handle_input("more".to_string());
    st.handle_agent_event(AgentEvent::Error("x".to_string()), "p", "m");
    st.shell_done("ls", Ok((String::new(), true)));
    assert_eq!(st.chat_log[0].timestamp, 42);
    assert_eq!(st.chat_log.len(), 4);
}
