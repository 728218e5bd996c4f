//! Chat history entries and the interface modes.

use vstd::prelude::*;
use crate::ai::Role;
use crate::clock::now_millis;
use crate::text::{push_str, string_of};

verus! {

/// What the interface is waiting for.
#[derive(Debug, Clone, Copy, PartialEq, Eq, Structural)]
pub enum AppMode {
    Normal,
    Insert,
    ModelSelect,
    SessionSelect,
    Help,
}

/// How a chat entry is shown.
#[derive(Debug, Clone, Copy, PartialEq, Eq, Structural)]
pub enum EntryKind {
    User,
    Assistant,
    Tool { success: bool },
}

/// One entry of the chat history.
#[derive(Debug, Clone)]
pub struct ChatEntry {
    pub role: Role,
    pub kind: EntryKind,
    pub content: String,
    /// When the entry was made, in milliseconds since the Unix epoch.
    pub timestamp: i64,
}

/// An entry as plain values (its time left out).
pub type EntryView = (Role, EntryKind, Seq<char>);

/// How an entry by `role` is shown: system entries as assistant ones.
pub open spec fn kind_for(role: Role) -> EntryKind {
    match role {
        Role::User => EntryKind::User,
        Role::Assistant => EntryKind::Assistant,
        Role::System => EntryKind::Assistant,
    }
}

/// The kind of an entry by `role`.
pub fn kind_of_role(role: Role) -> (k: EntryKind)
    ensures
        k == kind_for(role),
{
    match role {
        Role::User => EntryKind::User,
        Role::Assistant => EntryKind::Assistant,
        Role::System => EntryKind::Assistant,
    }
}

impl ChatEntry {
    pub open spec fn view_entry(&self) -> EntryView {
        (self.role, self.kind, self.content@)
    }

    /// An entry by `role`, made now.
    pub fn new(role: Role, content: String) -> (e: Self)
        ensures
            e.role == role,
            e.kind == kind_for(role),
            e.content@ == content@,
    {
        ChatEntry { role, kind: kind_of_role(role), content, timestamp: now_millis() }
    }

    /// A tool card: the label on its first line, the output below.
    pub fn tool(label: String, output: String, success: bool) -> (e: Self)
        ensures
            e.role == Role::Assistant,
            e.kind == (EntryKind::Tool { success }),
            e.content@ == label@ + "\n"@ + output@,
    {
        let mut v: Vec<char> = Vec::new();
        push_str(&mut v, label.as_str());
        push_str(&mut v, "\n");
        push_str(&mut v, output.as_str());
        ChatEntry {
            role: Role::Assistant,
            kind: EntryKind::Tool { success },
            content: string_of(v.as_slice()),
            timestamp: now_millis(),
        }
    }
}

/// The views of a sequence of entries.
pub open spec fn entry_views(v: Seq<ChatEntry>) -> Seq<EntryView> {
    v.map_values(|e: ChatEntry| e.view_entry())
}

} // verus!
