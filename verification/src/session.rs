//! Saved sessions: their stored form, the conversions to and from the live
//! conversation, and the ordering of the session list.

use vstd::prelude::*;
use crate::ai::{message_views, role_name, role_str, Message, MessageView, Role};
use crate::app::{entry_views, kind_for, ChatEntry, EntryView};
use crate::clock::{format_local, now_millis};
use crate::text::{push_str, str_eq, string_of};

verus! {

/// A message as stored in a session file.
#[derive(Debug, Clone)]
pub struct SerializedMessage {
    pub role: String,
    pub content: String,
}

/// A chat entry as stored in a session file.
#[derive(Debug, Clone)]
pub struct SerializedChatEntry {
    pub role: String,
    pub content: String,
    /// Milliseconds since the Unix epoch.
    pub timestamp: i64,
}

/// A saved conversation.
#[derive(Debug, Clone)]
pub struct Session {
    pub id: String,
    pub name: String,
    /// Milliseconds since the Unix epoch.
    pub created_at: i64,
    /// Milliseconds since the Unix epoch.
    pub updated_at: i64,
    pub working_dir: String,
    pub backend: String,
    pub model: String,
    pub messages: Vec<SerializedMessage>,
    pub chat_log: Vec<SerializedChatEntry>,
}

/// What the session list shows of a session.
#[derive(Debug, Clone)]
pub struct SessionMeta {
    pub id: String,
    pub name: String,
    /// Milliseconds since the Unix epoch.
    pub updated_at: i64,
    pub model: String,
    pub message_count: usize,
}

/// Where sessions are kept; its operations read and write files.
pub struct SessionStore;

/// The role a stored role name stands for: unknown names are system.
pub open spec fn role_of(s: Seq<char>) -> Role {
    if s == "user"@ {
        Role::User
    } else if s == "assistant"@ {
        Role::Assistant
    } else {
        Role::System
    }
}

/// The stored name of a role.
pub fn role_to_str(role: &Role) -> (s: &'static str)
    ensures
        s@ == role_name(*role),
{
    role_str(role)
}

/// The role a stored name stands for.
pub fn str_to_role(s: &str) -> (r: Role)
    ensures
        r == role_of(s@),
{
    if str_eq(s, "user") {
        Role::User
    } else if str_eq(s, "assistant") {
        Role::Assistant
    } else {
        Role::System
    }
}

/// Reading back a stored role name gives the role.
pub proof fn law_role_round_trip(r: Role)
    ensures
        role_of(role_name(r)) == r,
{
    reveal_strlit("user");
    reveal_strlit("assistant");
    reveal_strlit("system");
    if r == Role::System {
        assert("system"@ != "user"@) by {
            assert("system"@.len() != "user"@.len());
        }
        assert("system"@ != "assistant"@) by {
            assert("system"@[0] != "assistant"@[0]);
        }
    }
    if r == Role::Assistant {
        assert("assistant"@ != "user"@) by {
            assert("assistant"@.len() != "user"@.len());
        }
    }
}

/// Messages as stored: role names and contents.
pub open spec fn stored_messages(ms: Seq<MessageView>) -> Seq<(Seq<char>, Seq<char>)> {
    ms.map_values(|m: MessageView| (role_name(m.0), m.1))
}

/// Stored messages read back.
pub open spec fn loaded_messages(ss: Seq<(Seq<char>, Seq<char>)>) -> Seq<MessageView> {
    ss.map_values(|s: (Seq<char>, Seq<char>)| (role_of(s.0), s.1))
}

/// Chat entries as stored: role names, contents, times.
pub open spec fn stored_entries(es: Seq<ChatEntry>) -> Seq<(Seq<char>, Seq<char>, i64)> {
    es.map_values(|e: ChatEntry| (role_name(e.role), e.content@, e.timestamp))
}

/// Stored entries read back: role, kind by role, content.
pub open spec fn loaded_entries(ss: Seq<(Seq<char>, Seq<char>, i64)>) -> Seq<EntryView> {
    ss.map_values(|s: (Seq<char>, Seq<char>, i64)| (role_of(s.0), kind_for(role_of(s.0)), s.1))
}

impl Session {
    pub open spec fn message_pairs(&self) -> Seq<(Seq<char>, Seq<char>)> {
        self.messages@.map_values(|m: SerializedMessage| (m.role@, m.content@))
    }

    pub open spec fn entry_triples(&self) -> Seq<(Seq<char>, Seq<char>, i64)> {
        self.chat_log@.map_values(|e: SerializedChatEntry| (e.role@, e.content@, e.timestamp))
    }

    /// A session created now from the live conversation; its id is the local
    /// time of creation.
    pub fn new(
        name: String,
        working_dir: String,
        backend: String,
        model: String,
        messages: &[Message],
        chat_log: &[ChatEntry],
    ) -> (s: Self)
        ensures
            s.name@ == name@,
            s.working_dir@ == working_dir@,
            s.backend@ == backend@,
            s.model@ == model@,
            s.created_at == s.updated_at,
            s.message_pairs() == stored_messages(message_views(messages@)),
            s.entry_triples() == stored_entries(chat_log@),
    {
        let now = now_millis();
        let id = format_local(now, "%Y%m%d_%H%M%S");
        let mut ms: Vec<SerializedMessage> = Vec::new();
        for i in 0..messages.len()
            invariant
                ms@.map_values(|m: SerializedMessage| (m.role@, m.content@)) == stored_messages(
                    message_views(messages@),
                ).take(i as int),
        {
            let ghost before = ms@;
            ms.push(
                SerializedMessage {
                    role: role_to_str(&messages[i].role).to_owned(),
                    content: messages[i].content.clone(),
                },
            );
            assert(ms@.map_values(|m: SerializedMessage| (m.role@, m.content@)) =~= before.map_values(
                |m: SerializedMessage| (m.role@, m.content@),
            ).push((role_name(messages@[i as int].role), messages@[i as int].content@)));
            assert(stored_messages(message_views(messages@)).take(i + 1) =~= stored_messages(
                message_views(messages@),
            ).take(i as int).push(stored_messages(message_views(messages@))[i as int]));
        }
        assert(stored_messages(message_views(messages@)).take(messages@.len() as int)
            =~= stored_messages(message_views(messages@)));
        let mut es: Vec<SerializedChatEntry> = Vec::new();
        for i in 0..chat_log.len()
            invariant
                es@.map_values(|e: SerializedChatEntry| (e.role@, e.content@, e.timestamp))
                    == stored_entries(chat_log@).take(i as int),
        {
            let ghost before = es@;
            es.push(
                SerializedChatEntry {
                    role: role_to_str(&chat_log[i].role).to_owned(),
                    content: chat_log[i].content.clone(),
                    timestamp: chat_log[i].timestamp,
                },
            );
            assert(es@.map_values(|e: SerializedChatEntry| (e.role@, e.content@, e.timestamp))
                =~= before.map_values(|e: SerializedChatEntry| (e.role@, e.content@, e.timestamp)).push(
                stored_entries(chat_log@)[i as int],
            ));
            assert(stored_entries(chat_log@).take(i + 1) =~= stored_entries(chat_log@).take(
                i as int,
            ).push(stored_entries(chat_log@)[i as int]));
        }
        assert(stored_entries(chat_log@).take(chat_log@.len() as int) =~= stored_entries(chat_log@));
        Session {
            id,
            name,
            created_at: now,
            updated_at: now,
            working_dir,
            backend,
            model,
            messages: ms,
            chat_log: es,
        }
    }

    /// The stored messages as a live conversation.
    pub fn to_messages(&self) -> (r: Vec<Message>)
        ensures
            message_views(r@) == loaded_messages(self.message_pairs()),
    {
        let mut r: Vec<Message> = Vec::new();
        for i in 0..self.messages.len()
            invariant
                message_views(r@) == loaded_messages(self.message_pairs()).take(i as int),
        {
            let ghost before = message_views(r@);
            r.push(
                Message {
                    role: str_to_role(self.messages[i].role.as_str()),
                    content: self.messages[i].content.clone(),
                },
            );
            assert(message_views(r@) =~= before.push(loaded_messages(self.message_pairs())[i as int]));
            assert(loaded_messages(self.message_pairs()).take(i + 1) =~= loaded_messages(
                self.message_pairs(),
            ).take(i as int).push(loaded_messages(self.message_pairs())[i as int]));
        }
        assert(loaded_messages(self.message_pairs()).take(self.messages@.len() as int)
            =~= loaded_messages(self.message_pairs()));
        r
    }

    /// The stored chat entries as a live chat log, each keeping its time.
    pub fn to_chat_log(&self) -> (r: Vec<ChatEntry>)
        ensures
            entry_views(r@) == loaded_entries(self.entry_triples()),
            r@.len() == self.chat_log@.len(),
            forall|i: int| 0 <= i < r@.len() ==> #[trigger] r@[i].timestamp == self.chat_log@[i].timestamp,
    {
        let mut r: Vec<ChatEntry> = Vec::new();
        for i in 0..self.chat_log.len()
            invariant
                entry_views(r@) == loaded_entries(self.entry_triples()).take(i as int),
                r@.len() == i,
                forall|j: int| 0 <= j < i ==> #[trigger] r@[j].timestamp == self.chat_log@[j].timestamp,
        {
            let ghost before = entry_views(r@);
            let role = str_to_role(self.chat_log[i].role.as_str());
            r.push(
                ChatEntry {
                    role,
                    kind: crate::app::kind_of_role(role),
                    content: self.chat_log[i].content.clone(),
                    timestamp: self.chat_log[i].timestamp,
                },
            );
            assert(entry_views(r@) =~= before.push(loaded_entries(self.entry_triples())[i as int]));
            assert(loaded_entries(self.entry_triples()).take(i + 1) =~= loaded_entries(
                self.entry_triples(),
            ).take(i as int).push(loaded_entries(self.entry_triples())[i as int]));
        }
        assert(loaded_entries(self.entry_triples()).take(self.chat_log@.len() as int)
            =~= loaded_entries(self.entry_triples()));
        r
    }

    /// What the session list shows of this session.
    pub fn meta(&self) -> (m: SessionMeta)
        ensures
            m.id@ == self.id@,
            m.name@ == self.name@,
            m.updated_at == self.updated_at,
            m.model@ == self.model@,
            m.message_count == self.chat_log@.len(),
    {
        SessionMeta {
            id: self.id.clone(),
            name: self.name.clone(),
            updated_at: self.updated_at,
            model: self.model.clone(),
            message_count: self.chat_log.len(),
        }
    }
}

/// Saving a conversation and loading it back gives the same messages.
pub proof fn law_messages_round_trip(ms: Seq<MessageView>)
    ensures
        loaded_messages(stored_messages(ms)) == ms,
{
    assert forall|i: int| 0 <= i < ms.len() implies #[trigger] loaded_messages(stored_messages(ms))[i]
        == ms[i] by {
        law_role_round_trip(ms[i].0);
    }
    assert(loaded_messages(stored_messages(ms)) =~= ms);
}

/// Saving a chat log and loading it back keeps each entry's role and content.
pub proof fn law_entries_round_trip(es: Seq<ChatEntry>)
    ensures
        loaded_entries(stored_entries(es)).len() == es.len(),
        forall|i: int|
            0 <= i < es.len() ==> (#[trigger] loaded_entries(stored_entries(es))[i]).0 == es[i].role
                && loaded_entries(stored_entries(es))[i].2 == es[i].content@,
{
    assert forall|i: int| 0 <= i < es.len() implies (#[trigger] loaded_entries(stored_entries(es))[i]).0
        == es[i].role by {
        law_role_round_trip(es[i].role);
    }
}

/// The default name of a session: `Session` and the local date and time.
pub fn default_session_name() -> (r: String)
    ensures
        r@.len() >= 8,
        r@.take(8) == "Session "@,
{
    let stamp = format_local(now_millis(), "%Y-%m-%d %H:%M");
    let mut v: Vec<char> = Vec::new();
    push_str(&mut v, "Session ");
    let ghost head = v@;
    push_str(&mut v, stamp.as_str());
    proof {
        reveal_strlit("Session ");
        assert(v@.take(8) =~= head);
    }
    string_of(v.as_slice())
}


// ── Sorting the session list ─────────────────────────────────────────────────

/// `x` placed into the newest-first `sorted` after every entry at least as recent.
pub open spec fn insert_newest_first(sorted: Seq<SessionMeta>, x: SessionMeta) -> Seq<SessionMeta>
    decreases sorted.len(),
{
    if sorted.len() == 0 {
        seq![x]
    } else if sorted.last().updated_at >= x.updated_at {
        sorted.push(x)
    } else {
        insert_newest_first(sorted.drop_last(), x).push(sorted.last())
    }
}

/// `s` ordered newest first; entries updated at the same moment keep their order.
pub open spec fn newest_first(s: Seq<SessionMeta>) -> Seq<SessionMeta>
    decreases s.len(),
{
    if s.len() == 0 {
        seq![]
    } else {
        insert_newest_first(newest_first(s.drop_last()), s.last())
    }
}

/// Ordered from the most recently updated to the least.
pub open spec fn is_newest_first(s: Seq<SessionMeta>) -> bool {
    forall|i: int, j: int| 0 <= i < j < s.len() ==> s[i].updated_at >= s[j].updated_at
}

proof fn lemma_insert_at(sorted: Seq<SessionMeta>, x: SessionMeta, p: int)
    requires
        0 <= p <= sorted.len(),
        p == 0 || sorted[p - 1].updated_at >= x.updated_at,
        forall|j: int| p <= j < sorted.len() ==> sorted[j].updated_at < x.updated_at,
    ensures
        insert_newest_first(sorted, x) == sorted.insert(p, x),
    decreases sorted.len(),
{
    if sorted.len() == 0 {
        assert(sorted.insert(p, x) =~= seq![x]);
    } else if sorted.last().updated_at >= x.updated_at {
        assert(p == sorted.len());
        assert(sorted.insert(p, x) =~= sorted.push(x));
    } else {
        lemma_insert_at(sorted.drop_last(), x, p);
        assert(sorted.drop_last().insert(p, x).push(sorted.last()) =~= sorted.insert(p, x));
    }
}

proof fn lemma_insert_sorted(sorted: Seq<SessionMeta>, x: SessionMeta)
    requires
        is_newest_first(sorted),
    ensures
        is_newest_first(insert_newest_first(sorted, x)),
        insert_newest_first(sorted, x).to_multiset() == sorted.to_multiset().insert(x),
    decreases sorted.len(),
{
    broadcast use vstd::seq_lib::group_to_multiset_ensures;

    if sorted.len() == 0 {
        assert(seq![x] =~= Seq::<SessionMeta>::empty().push(x));
    } else if sorted.last().updated_at >= x.updated_at {
    } else {
        let d = sorted.drop_last();
        assert forall|i: int, j: int| 0 <= i < j < d.len() implies d[i].updated_at >= d[j].updated_at by {
            assert(d[i] == sorted[i] && d[j] == sorted[j]);
        }
        lemma_insert_sorted(d, x);
        let r = insert_newest_first(d, x);
        assert forall|i: int| 0 <= i < r.len() implies #[trigger] r[i].updated_at >= sorted.last().updated_at by {
            assert(r.to_multiset().count(r[i]) > 0);
            assert(r.to_multiset() == d.to_multiset().insert(x));
            if r[i] != x {
                assert(d.to_multiset().count(r[i]) > 0);
                assert(d.contains(r[i]));
                let k = choose|k: int| 0 <= k < d.len() && d[k] == r[i];
                assert(sorted[k] == d[k]);
            }
        }
        assert(sorted =~= d.push(sorted.last()));
    }
}

/// The session list comes out ordered newest first, holding the same sessions.
pub proof fn law_newest_first(s: Seq<SessionMeta>)
    ensures
        is_newest_first(newest_first(s)),
        newest_first(s).to_multiset() == s.to_multiset(),
    decreases s.len(),
{
    broadcast use vstd::seq_lib::group_to_multiset_ensures;

    if s.len() > 0 {
        law_newest_first(s.drop_last());
        lemma_insert_sorted(newest_first(s.drop_last()), s.last());
        assert(s =~= s.drop_last().push(s.last()));
    }
}

/// The sessions ordered newest first, ties in the order given.
pub fn sort_newest_first(metas: Vec<SessionMeta>) -> (r: Vec<SessionMeta>)
    ensures
        r@ == newest_first(metas@),
{
    let mut out: Vec<SessionMeta> = Vec::new();
    let ghost all = metas@;
    let mut rest = metas;
    let total = rest.len();
    let mut done: usize = 0;
    assert(all.take(0) =~= Seq::<SessionMeta>::empty());
    while rest.len() > 0
        invariant
            done + rest@.len() == all.len(),
            all.len() == total,
            rest@ == all.skip(done as int),
            out@ == newest_first(all.take(done as int)),
        decreases rest@.len(),
    {
        let x = rest.remove(0);
        assert(x == all[done as int]);
        assert(all.skip(done as int).drop_first() =~= all.skip(done + 1));
        proof {
            law_newest_first(all.take(done as int));
        }
        let mut p = out.len();
        while p > 0 && out[p - 1].updated_at < x.updated_at
            invariant
                p <= out@.len(),
                forall|j: int| p <= j < out@.len() ==> out@[j].updated_at < x.updated_at,
            decreases p,
        {
            p = p - 1;
        }
        proof {
            lemma_insert_at(out@, x, p as int);
            assert(all.take(done + 1).drop_last() =~= all.take(done as int));
        }
        out.insert(p, x);
        done = done + 1;
    }
    assert(all.take(all.len() as int) =~= all);
    out
}

} // verus!
