use ocode::ai::Role;
use ocode::app::{kind_of_role, ChatEntry, EntryKind};

#[test]
fn entries_by_role() {
    let u = ChatEntry::new(Role::User, "hi".to_string());
    assert_eq!(u.kind, EntryKind::User);
    assert_eq!(u.content, "hi");
    assert!(u.timestamp > 1_500_000_000_000);
    assert_eq!(ChatEntry::new(Role::System, "s".to_string()).kind, EntryKind::Assistant);
    assert_eq!(kind_of_role(Role::Assistant), EntryKind::Assistant);
}

#[test]
fn tool_entries() {
    let t = ChatEntry::tool("✗ run_shell".to_string(), "exit 1".to_string(), false);
    assert_eq!(t.role, Role::Assistant);
    assert_eq!(t.kind, EntryKind::Tool { success: false });
    assert_eq!(t.content, "✗ run_shell\nexit 1");
}
