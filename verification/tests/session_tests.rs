use ocode::ai::{Message, Role};
use ocode::app::{ChatEntry, EntryKind};
use ocode::session::{default_session_name, role_to_str, sort_newest_first, str_to_role, Session, SessionMeta};

fn listed(id: &str, updated_at: i64) -> SessionMeta {
    SessionMeta { id: id.to_string(), name: id.to_string(), updated_at, model: "m".to_string(), message_count: 0 }
}

#[test]
fn role_names_round_trip() {
    for r in [Role::User, Role::Assistant, Role::System] {
        assert_eq!(str_to_role(role_to_str(&r)), r);
    }
    assert_eq!(role_to_str(&Role::Assistant), "assistant");
    assert_eq!(str_to_role("tool"), Role::System);
    assert_eq!(str_to_role("User"), Role::System);
}

#[test]
fn session_stores_and_restores_messages() {
    let messages = vec![
        Message::system("sys".to_string()),
        Message::user("question".to_string()),
        Message::assistant("answer".to_string()),
    ];
    let mut log = vec![ChatEntry::new(Role::User, "question".to_string())];
    log.push(ChatEntry::tool("✓ read_file".to_string(), "text".to_string(), true));
    log[0].timestamp = 1_700_000_000_000;
    let s = Session::new("Work".to_string(), "/w".to_string(), "ollama".to_string(), "llama3.2".to_string(), &messages, &log);
    assert_eq!(s.name, "Work");
    assert_eq!(s.created_at, s.updated_at);
    assert_eq!(s.id.len(), 15);
    assert_eq!(s.messages.len(), 3);
    assert_eq!(s.messages[1].role, "user");
    assert_eq!(s.chat_log[1].role, "assistant");
    assert_eq!(s.chat_log[0].timestamp, 1_700_000_000_000);

    let back = s.to_messages();
    assert_eq!(back.len(), 3);
    for (a, b) in back.iter().zip(messages.iter()) {
        assert_eq!(a.role, b.role);
        assert_eq!(a.content, b.content);
    }
    let entries = s.to_chat_log();
    assert_eq!(entries.len(), 2);
    assert_eq!(entries[0].role, Role::User);
    assert_eq!(entries[0].kind, EntryKind::User);
    assert_eq!(entries[0].timestamp, 1_700_000_000_000);
    assert_eq!(entries[1].role, Role::Assistant);
    assert_eq!(entries[1].kind, EntryKind::Assistant);
    assert_eq!(entries[1].content, "✓ read_file\ntext");
}

#[test]
fn meta_shows_the_session() {
    let log = vec![ChatEntry::new(Role::User, "q".to_string())];
    let s = Session::new("N".to_string(), "/".to_string(), "nim".to_string(), "m1".to_string(), &[], &log);
    let m = s.meta();
    assert_eq!(m.id, s.id);
    assert_eq!(m.name, "N");
    assert_eq!(m.model, "m1");
    assert_eq!(m.updated_at, s.updated_at);
    assert_eq!(m.message_count, 1);
}

#[test]
fn default_name_is_dated() {
    let n = default_session_name();
    assert!(n.starts_with("Session "));
    assert_eq!(n.len(), "Session 2024-01-01 12:00".len());
}

#[test]
fn sessions_newest_first() {
    let sorted = sort_newest_first(vec![listed("a", 10), listed("b", 30), listed("c", 20), listed("d", 30)]);
    let ids: Vec<&str> = sorted.iter().map(|m| m.id.as_str()).collect();
    assert_eq!(ids, vec!["b", "d", "c", "a"]);
    assert!(sort_newest_first(Vec::new()).is_empty());
}
