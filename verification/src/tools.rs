//! The tools the agent can use, as far as they compute: what a file read,
//! write or listing reports, how shell output is combined, and how a web
//! search answer is written up.

use vstd::prelude::*;
use crate::text::{
    byte_len, byte_prefix, chars_of, decimal, decimal_string, digits, digits_of, fit_prefix_len,
    join, join_chars, push_all, push_str, slice_sub, string_of, trim, trim_bounds, utf8_len, views,
};

verus! {

/// The result of running a tool, as shown in the interface.
#[derive(Debug, Clone)]
pub struct ToolResult {
    pub tool: String,
    pub input: String,
    pub output: String,
    pub success: bool,
}

/// Reading, writing and listing files.
pub struct FileTool;

/// Running shell commands.
pub struct ShellTool;

/// Looking things up on the web.
pub struct WebSearch;

impl ToolResult {
    pub open spec fn has(&self, tool: Seq<char>, input: Seq<char>, output: Seq<char>, success: bool) -> bool {
        self.tool@ == tool && self.input@ == input && self.output@ == output && self.success == success
    }
}

fn concat2(a: &str, b: &str) -> (r: String)
    ensures
        r@ == a@ + b@,
{
    let mut v: Vec<char> = Vec::new();
    push_str(&mut v, a);
    push_str(&mut v, b);
    string_of(v.as_slice())
}

fn concat4(a: &str, b: &str, c: &str, d: &str) -> (r: String)
    ensures
        r@ == a@ + b@ + c@ + d@,
{
    let mut v: Vec<char> = Vec::new();
    push_str(&mut v, a);
    push_str(&mut v, b);
    push_str(&mut v, c);
    push_str(&mut v, d);
    string_of(v.as_slice())
}

impl FileTool {
    /// What reading `path` reports, given the file's text or the read error.
    pub fn read_result(path: &str, content: Result<String, String>) -> (r: ToolResult)
        ensures
            match content {
                Ok(text) => r.has("read_file"@, path@, text@, true),
                Err(e) => r.has("read_file"@, path@, "Error reading file: "@ + e@, false),
            },
    {
        match content {
            Ok(text) => ToolResult {
                tool: "read_file".to_owned(),
                input: path.to_owned(),
                output: text,
                success: true,
            },
            Err(e) => ToolResult {
                tool: "read_file".to_owned(),
                input: path.to_owned(),
                output: concat2("Error reading file: ", e.as_str()),
                success: false,
            },
        }
    }

    /// What writing `content` to `path` reports, given how the write went.
    pub fn write_result(path: &str, content: &str, outcome: Result<(), String>) -> (r: ToolResult)
        ensures
            match outcome {
                Ok(_) => r.has(
                    "write_file"@,
                    path@ + "  ("@ + decimal(utf8_len(content@)) + " bytes)"@,
                    "Successfully wrote "@ + decimal(utf8_len(content@)) + " bytes to "@ + path@,
                    true,
                ),
                Err(e) => r.has("write_file"@, path@, "Error writing file: "@ + e@, false),
            },
    {
        match outcome {
            Ok(_) => {
                let n = decimal_string(byte_len(content) as u64);
                ToolResult {
                    tool: "write_file".to_owned(),
                    input: concat4(path, "  (", n.as_str(), " bytes)"),
                    output: concat4("Successfully wrote ", n.as_str(), " bytes to ", path),
                    success: true,
                }
            },
            Err(e) => ToolResult {
                tool: "write_file".to_owned(),
                input: path.to_owned(),
                output: concat2("Error writing file: ", e.as_str()),
                success: false,
            },
        }
    }

    /// The listed name of a directory entry: directories end with `/`.
    pub fn entry_name(name: &str, is_dir: bool) -> (r: String)
        ensures
            r@ == (if is_dir {
                name@ + "/"@
            } else {
                name@
            }),
    {
        if is_dir {
            concat2(name, "/")
        } else {
            name.to_owned()
        }
    }

    /// What listing `path` reports: the entry names sorted, one per line.
    pub fn list_result(path: &str, names: Vec<String>) -> (r: ToolResult)
        ensures
            r.tool@ == "list_dir"@,
            r.input@ == path@,
            r.output@ == join(sorted_names(names@.map_values(|s: String| s@)), "\n"@),
            r.success,
    {
        let mut parts: Vec<Vec<char>> = Vec::new();
        for i in 0..names.len()
            invariant
                views(parts@) == names@.map_values(|s: String| s@).take(i as int),
        {
            let ghost before = views(parts@);
            parts.push(chars_of(names[i].as_str()));
            assert(views(parts@) =~= before.push(names@[i as int]@));
            assert(names@.map_values(|s: String| s@).take(i + 1) =~= names@.map_values(
                |s: String| s@,
            ).take(i as int).push(names@[i as int]@));
        }
        assert(names@.map_values(|s: String| s@).take(names@.len() as int) =~= names@.map_values(
            |s: String| s@,
        ));
        let sorted = sort_names(parts);
        let nl = chars_of("\n");
        ToolResult {
            tool: "list_dir".to_owned(),
            input: path.to_owned(),
            output: string_of(join_chars(&sorted, nl.as_slice()).as_slice()),
            success: true,
        }
    }
}

// ── Sorting names ────────────────────────────────────────────────────────────

/// `a` comes strictly before `b` in code point order (the byte order of UTF-8).
pub open spec fn name_lt(a: Seq<char>, b: Seq<char>) -> bool
    decreases a.len(),
{
    if a.len() == 0 {
        b.len() > 0
    } else if b.len() == 0 {
        false
    } else if a[0] != b[0] {
        (a[0] as u32) < (b[0] as u32)
    } else {
        name_lt(a.drop_first(), b.drop_first())
    }
}

/// `x` placed into the ascending `sorted` after every name not after it.
pub open spec fn insert_name(sorted: Seq<Seq<char>>, x: Seq<char>) -> Seq<Seq<char>>
    decreases sorted.len(),
{
    if sorted.len() == 0 {
        seq![x]
    } else if !name_lt(x, sorted.last()) {
        sorted.push(x)
    } else {
        insert_name(sorted.drop_last(), x).push(sorted.last())
    }
}

/// The names in ascending order.
pub open spec fn sorted_names(s: Seq<Seq<char>>) -> Seq<Seq<char>>
    decreases s.len(),
{
    if s.len() == 0 {
        seq![]
    } else {
        insert_name(sorted_names(s.drop_last()), s.last())
    }
}

/// `a` comes no later than `b`.
pub open spec fn name_le(a: Seq<char>, b: Seq<char>) -> bool {
    !name_lt(b, a)
}

/// Each name comes no later than the ones after it.
pub open spec fn names_ascending(s: Seq<Seq<char>>) -> bool {
    forall|i: int, j: int| 0 <= i < j < s.len() ==> name_le(#[trigger] s[i], #[trigger] s[j])
}

proof fn lemma_name_lt_irreflexive(a: Seq<char>)
    ensures
        !name_lt(a, a),
    decreases a.len(),
{
    if a.len() > 0 {
        lemma_name_lt_irreflexive(a.drop_first());
    }
}

proof fn lemma_name_lt_transitive(a: Seq<char>, b: Seq<char>, c: Seq<char>)
    requires
        name_lt(a, b),
        name_lt(b, c),
    ensures
        name_lt(a, c),
    decreases a.len(),
{
    if a.len() > 0 && b.len() > 0 && c.len() > 0 && a[0] == b[0] && b[0] == c[0] {
        lemma_name_lt_transitive(a.drop_first(), b.drop_first(), c.drop_first());
    }
}

proof fn lemma_name_lt_total(a: Seq<char>, b: Seq<char>)
    ensures
        a == b || name_lt(a, b) || name_lt(b, a),
    decreases a.len(),
{
    if a.len() == 0 {
        if b.len() == 0 {
            assert(a =~= b);
        }
    } else if b.len() > 0 && a[0] != b[0] {
        vstd::utf8::char_u32_cast(a[0], a[0] as u32);
        vstd::utf8::char_u32_cast(b[0], b[0] as u32);
    } else if b.len() > 0 && a[0] == b[0] {
        lemma_name_lt_total(a.drop_first(), b.drop_first());
        if a.drop_first() == b.drop_first() {
            assert(a =~= seq![a[0]] + a.drop_first());
            assert(b =~= seq![b[0]] + b.drop_first());
        }
    }
}

proof fn lemma_name_le_transitive(a: Seq<char>, b: Seq<char>, c: Seq<char>)
    requires
        name_le(a, b),
        name_le(b, c),
    ensures
        name_le(a, c),
{
    if name_lt(c, a) {
        lemma_name_lt_total(a, b);
        if name_lt(a, b) {
            lemma_name_lt_transitive(c, a, b);
        }
    }
}

proof fn lemma_name_lt_le(a: Seq<char>, b: Seq<char>)
    requires
        name_lt(a, b),
    ensures
        name_le(a, b),
{
    if name_lt(b, a) {
        lemma_name_lt_transitive(a, b, a);
        lemma_name_lt_irreflexive(a);
    }
}

proof fn lemma_insert_name_sorted(s: Seq<Seq<char>>, x: Seq<char>)
    requires
        names_ascending(s),
    ensures
        names_ascending(insert_name(s, x)),
        insert_name(s, x).to_multiset() == s.to_multiset().insert(x),
        insert_name(s, x).len() == s.len() + 1,
        forall|i: int|
            0 <= i < insert_name(s, x).len() ==> #[trigger] insert_name(s, x)[i] == x || s.contains(
                insert_name(s, x)[i],
            ),
    decreases s.len(),
{
    broadcast use vstd::seq_lib::to_multiset_build;

    if s.len() == 0 {
        assert(insert_name(s, x) =~= s.push(x));
    } else {
        let l = s.last();
        let d = s.drop_last();
        assert(s =~= d.push(l));
        if !name_lt(x, l) {
            let r = s.push(x);
            assert forall|i: int, j: int| 0 <= i < j < r.len() implies name_le(#[trigger] r[i], #[trigger] r[j]) by {
                if j == s.len() {
                    if i < s.len() - 1 {
                        lemma_name_le_transitive(s[i], l, x);
                    }
                }
            }
            assert forall|i: int| 0 <= i < r.len() implies #[trigger] r[i] == x || s.contains(r[i]) by {
                if i < s.len() {
                    assert(s[i] == r[i]);
                }
            }
        } else {
            lemma_insert_name_sorted(d, x);
            let m = insert_name(d, x);
            let r = m.push(l);
            assert(r == insert_name(s, x));
            lemma_name_lt_le(x, l);
            assert forall|i: int, j: int| 0 <= i < j < r.len() implies name_le(#[trigger] r[i], #[trigger] r[j]) by {
                if j == m.len() {
                    assert(r[i] == m[i]);
                    if m[i] != x {
                        assert(d.contains(m[i]));
                        let k = choose|k: int| 0 <= k < d.len() && d[k] == m[i];
                        assert(s[k] == d[k]);
                        assert(name_le(s[k], s[s.len() - 1]));
                    }
                } else {
                    assert(r[i] == m[i] && r[j] == m[j]);
                }
            }
            assert forall|i: int| 0 <= i < r.len() implies #[trigger] r[i] == x || s.contains(r[i]) by {
                if i < m.len() {
                    assert(r[i] == m[i]);
                    if m[i] != x {
                        let k = choose|k: int| 0 <= k < d.len() && d[k] == m[i];
                        assert(s[k] == d[k]);
                    }
                } else {
                    assert(s[s.len() - 1] == r[i]);
                }
            }
            assert(s.to_multiset() == d.push(l).to_multiset());
            assert(r.to_multiset() =~= s.to_multiset().insert(x));
        }
    }
}

/// Sorting gives the names in ascending order, each name as often as it came.
pub proof fn law_sorted_names(s: Seq<Seq<char>>)
    ensures
        names_ascending(sorted_names(s)),
        sorted_names(s).to_multiset() == s.to_multiset(),
    decreases s.len(),
{
    broadcast use vstd::seq_lib::to_multiset_build;

    if s.len() > 0 {
        law_sorted_names(s.drop_last());
        lemma_insert_name_sorted(sorted_names(s.drop_last()), s.last());
        assert(s =~= s.drop_last().push(s.last()));
        assert(s.to_multiset() == s.drop_last().push(s.last()).to_multiset());
    } else {
        assert(sorted_names(s) =~= s);
    }
}

fn less_than(a: &[char], b: &[char]) -> (r: bool)
    ensures
        r == name_lt(a@, b@),
{
    let mut i: usize = 0;
    assert(a@.skip(0) =~= a@);
    assert(b@.skip(0) =~= b@);
    while i < a.len() && i < b.len() && a[i] == b[i]
        invariant
            i <= a@.len(),
            i <= b@.len(),
            name_lt(a@, b@) == name_lt(a@.skip(i as int), b@.skip(i as int)),
        decreases a@.len() - i,
    {
        assert(a@.skip(i as int).drop_first() =~= a@.skip(i + 1));
        assert(b@.skip(i as int).drop_first() =~= b@.skip(i + 1));
        i = i + 1;
    }
    if i == a.len() {
        assert(a@.skip(i as int).len() == 0);
        i < b.len()
    } else if i == b.len() {
        assert(b@.skip(i as int).len() == 0);
        false
    } else {
        assert(a@.skip(i as int)[0] == a@[i as int]);
        assert(b@.skip(i as int)[0] == b@[i as int]);
        (a[i] as u32) < (b[i] as u32)
    }
}

proof fn lemma_insert_name_at(sorted: Seq<Seq<char>>, x: Seq<char>, p: int)
    requires
        0 <= p <= sorted.len(),
        p == 0 || !name_lt(x, sorted[p - 1]),
        forall|j: int| p <= j < sorted.len() ==> name_lt(x, #[trigger] sorted[j]),
    ensures
        insert_name(sorted, x) == sorted.insert(p, x),
    decreases sorted.len(),
{
    if sorted.len() == 0 {
        assert(sorted.insert(p, x) =~= seq![x]);
    } else if !name_lt(x, sorted.last()) {
        assert(p == sorted.len());
        assert(sorted.insert(p, x) =~= sorted.push(x));
    } else {
        lemma_insert_name_at(sorted.drop_last(), x, p);
        assert(sorted.drop_last().insert(p, x).push(sorted.last()) =~= sorted.insert(p, x));
    }
}

/// The names in ascending order, equal names in the order given.
pub fn sort_names(names: Vec<Vec<char>>) -> (r: Vec<Vec<char>>)
    ensures
        views(r@) == sorted_names(views(names@)),
{
    let ghost all = views(names@);
    let mut out: Vec<Vec<char>> = Vec::new();
    let mut rest = names;
    let total = rest.len();
    let mut done: usize = 0;
    assert(all.take(0) =~= Seq::<Seq<char>>::empty());
    while rest.len() > 0
        invariant
            done + rest@.len() == all.len(),
            all.len() == total,
            views(rest@) == all.skip(done as int),
            views(out@) == sorted_names(all.take(done as int)),
        decreases rest@.len(),
    {
        let ghost r0 = rest@;
        let x = rest.remove(0);
        assert(x == r0[0]);
        assert(views(r0)[0] == x@);
        assert(rest@ =~= r0.drop_first());
        assert(views(rest@) =~= views(r0).drop_first());
        assert(views(rest@) =~= all.skip(done + 1));
        let mut p = out.len();
        while p > 0 && less_than(x.as_slice(), out[p - 1].as_slice())
            invariant
                p <= out@.len(),
                forall|j: int| p <= j < out@.len() ==> name_lt(x@, #[trigger] views(out@)[j]),
            decreases p,
        {
            p = p - 1;
        }
        proof {
            lemma_insert_name_at(views(out@), x@, p as int);
            assert(all.take(done + 1).drop_last() =~= all.take(done as int));
        }
        let ghost before = views(out@);
        out.insert(p, x);
        assert(views(out@) =~= before.insert(p as int, x@));
        done = done + 1;
    }
    assert(all.take(all.len() as int) =~= all);
    out
}

// ── Shell ────────────────────────────────────────────────────────────────────

/// Standard output and standard error as one text.
pub open spec fn combined_output(stdout: Seq<char>, stderr: Seq<char>) -> Seq<char> {
    if stderr.len() == 0 {
        stdout
    } else if stdout.len() == 0 {
        stderr
    } else {
        stdout + "\n--- stderr ---\n"@ + stderr
    }
}

impl ShellTool {
    /// What running `cmd` reports, given its output streams and exit status.
    pub fn shell_result(cmd: &str, stdout: &str, stderr: &str, success: bool) -> (r: ToolResult)
        ensures
            r.has(
                "shell"@,
                cmd@,
                if combined_output(stdout@, stderr@).len() == 0 {
                    "(no output)"@
                } else {
                    combined_output(stdout@, stderr@)
                },
                success,
            ),
    {
        let combined = if byte_len(stderr) == 0 {
            stdout.to_owned()
        } else if byte_len(stdout) == 0 {
            stderr.to_owned()
        } else {
            concat4(stdout, "\n--- stderr ---\n", stderr, "")
        };
        assert(combined@ == combined_output(stdout@, stderr@)) by {
            assert(stdout@ + "\n--- stderr ---\n"@ + stderr@ + ""@ =~= stdout@ + "\n--- stderr ---\n"@
                + stderr@) by {
                reveal_strlit("");
            }
        }
        let output = if byte_len(combined.as_str()) == 0 {
            "(no output)".to_owned()
        } else {
            combined
        };
        ToolResult { tool: "shell".to_owned(), input: cmd.to_owned(), output, success }
    }
}


// ── Web search ───────────────────────────────────────────────────────────────

/// A character kept as it is in a query string.
pub open spec fn is_unreserved(c: char) -> bool {
    ('A' <= c && c <= 'Z') || ('a' <= c && c <= 'z') || ('0' <= c && c <= '9') || c == '-' || c
        == '_' || c == '.' || c == '~'
}

/// `%` and the code point in upper-case hex, at least two digits.
pub open spec fn percent_code(c: char) -> Seq<char> {
    let h = digits(c as u32 as nat, 16);
    seq!['%'] + (if h.len() < 2 {
        seq!['0'] + h
    } else {
        h
    })
}

/// How one character is written in a query string.
pub open spec fn encode_char(c: char) -> Seq<char> {
    if is_unreserved(c) {
        seq![c]
    } else if c == ' ' {
        seq!['+']
    } else {
        percent_code(c)
    }
}

/// `s` written for a query string: unreserved characters kept, spaces as
/// `+`, every other character as `%` and its code point in hex.
pub open spec fn url_encoded(s: Seq<char>) -> Seq<char>
    decreases s.len(),
{
    if s.len() == 0 {
        seq![]
    } else {
        url_encoded(s.drop_last()) + encode_char(s.last())
    }
}

/// `s` encoded for a query string.
pub fn urlenccode(s: &str) -> (r: String)
    ensures
        r@ == url_encoded(s@),
{
    let cs = chars_of(s);
    let mut out: Vec<char> = Vec::new();
    for i in 0..cs.len()
        invariant
            cs@ == s@,
            out@ == url_encoded(cs@.take(i as int)),
    {
        let c = cs[i];
        let ghost before = out@;
        if ('A' <= c && c <= 'Z') || ('a' <= c && c <= 'z') || ('0' <= c && c <= '9') || c == '-'
            || c == '_' || c == '.' || c == '~' {
            out.push(c);
        } else if c == ' ' {
            out.push('+');
        } else {
            out.push('%');
            let h = digits_of(c as u32 as u64, 16);
            if h.len() < 2 {
                out.push('0');
            }
            push_all(&mut out, h.as_slice());
        }
        assert(out@ =~= before + encode_char(c));
        assert(cs@.take(i + 1).drop_last() =~= cs@.take(i as int));
    }
    assert(cs@.take(cs@.len() as int) =~= cs@);
    string_of(out.as_slice())
}

/// At most `max` bytes of `s`, cut back to the last character boundary.
pub fn truncate(s: &str, max: usize) -> (r: String)
    ensures
        r@ == byte_prefix(s@, max as int),
        utf8_len(r@) <= max,
{
    let cs = chars_of(s);
    let k = fit_prefix_len(cs.as_slice(), max);
    string_of(slice_sub(cs.as_slice(), 0, k).as_slice())
}

/// An instant answer from the search service, as plain values.
#[derive(Debug, Clone)]
pub struct SearchAnswer {
    pub abstract_text: String,
    pub abstract_source: String,
    pub abstract_url: String,
    /// Related topics: their text and first URL, where given.
    pub related_topics: Vec<(Option<String>, Option<String>)>,
    pub answer: String,
    pub definition: String,
    pub definition_source: String,
}

/// The related topics that have text, with their URL (empty when none), at most five.
pub open spec fn topic_list(ts: Seq<(Option<String>, Option<String>)>) -> Seq<(Seq<char>, Seq<char>)>
    decreases ts.len(),
{
    if ts.len() == 0 {
        seq![]
    } else {
        let first = ts[0];
        let rest = topic_list(ts.drop_first());
        match first.0 {
            Some(t) => if t@.len() > 0 {
                seq![(
                    t@,
                    match first.1 {
                        Some(u) => u@,
                        None => seq![],
                    },
                )] + rest
            } else {
                rest
            },
            None => rest,
        }
    }
}

/// The first five topics with text.
pub open spec fn shown_topics(ts: Seq<(Option<String>, Option<String>)>) -> Seq<(Seq<char>, Seq<char>)> {
    let all = topic_list(ts);
    if all.len() <= 5 {
        all
    } else {
        all.take(5)
    }
}

/// The line of one related topic.
pub open spec fn topic_line(t: (Seq<char>, Seq<char>)) -> Seq<char> {
    if t.1.len() == 0 {
        "- "@ + byte_prefix(t.0, 120) + "\n"@
    } else {
        "- "@ + byte_prefix(t.0, 100) + " ("@ + t.1 + ")\n"@
    }
}

pub open spec fn topic_lines(ts: Seq<(Seq<char>, Seq<char>)>) -> Seq<char>
    decreases ts.len(),
{
    if ts.len() == 0 {
        seq![]
    } else {
        topic_lines(ts.drop_last()) + topic_line(ts.last())
    }
}

pub open spec fn answer_part(a: SearchAnswer) -> Seq<char> {
    if a.answer@.len() > 0 {
        "**Answer:** "@ + a.answer@ + "\n\n"@
    } else {
        seq![]
    }
}

pub open spec fn abstract_part(a: SearchAnswer) -> Seq<char> {
    if a.abstract_text@.len() > 0 {
        "**"@ + a.abstract_source@ + ":** "@ + a.abstract_text@ + "\n"@ + (if a.abstract_url@.len()
            > 0 {
            "Source: "@ + a.abstract_url@ + "\n"@
        } else {
            seq![]
        }) + "\n"@
    } else {
        seq![]
    }
}

pub open spec fn definition_part(a: SearchAnswer) -> Seq<char> {
    if a.definition@.len() > 0 {
        "**Definition ("@ + a.definition_source@ + "):** "@ + a.definition@ + "\n\n"@
    } else {
        seq![]
    }
}

pub open spec fn related_part(a: SearchAnswer) -> Seq<char> {
    if shown_topics(a.related_topics@).len() > 0 {
        "**Related:**\n"@ + topic_lines(shown_topics(a.related_topics@))
    } else {
        seq![]
    }
}

/// The written-up answer before the fallback for an empty one.
pub open spec fn answer_body(a: SearchAnswer) -> Seq<char> {
    answer_part(a) + abstract_part(a) + definition_part(a) + related_part(a)
}

/// The search result text for `query`: the answer written up, or a note
/// pointing to the search page when nothing useful came back.
pub open spec fn search_text(query: Seq<char>, a: SearchAnswer) -> Seq<char> {
    if trim(answer_body(a)).len() == 0 {
        "No instant answer found for: \""@ + query + "\"\n\nTry a more specific query or check: https://duckduckgo.com/?q="@
            + url_encoded(query)
    } else {
        answer_body(a)
    }
}

fn collect_topics(ts: &Vec<(Option<String>, Option<String>)>) -> (r: Vec<(String, String)>)
    ensures
        r@.map_values(|p: (String, String)| (p.0@, p.1@)) == shown_topics(ts@),
{
    let ghost all = topic_list(ts@);
    let mut r: Vec<(String, String)> = Vec::new();
    let mut i: usize = 0;
    assert(ts@.skip(0) =~= ts@);
    while i < ts.len() && r.len() < 5
        invariant
            i <= ts@.len(),
            r@.len() <= 5,
            all == topic_list(ts@),
            all == r@.map_values(|p: (String, String)| (p.0@, p.1@)) + topic_list(ts@.skip(i as int)),
        decreases ts@.len() - i,
    {
        let ghost before = r@.map_values(|p: (String, String)| (p.0@, p.1@));
        assert(ts@.skip(i as int)[0] == ts@[i as int]);
        assert(ts@.skip(i as int).drop_first() =~= ts@.skip(i + 1));
        match &ts[i].0 {
            Some(t) => {
                if byte_len(t.as_str()) > 0 {
                    let u = match &ts[i].1 {
                        Some(u) => u.clone(),
                        None => String::new(),
                    };
                    r.push((t.clone(), u));
                    assert(r@.map_values(|p: (String, String)| (p.0@, p.1@)) =~= before.push(
                        topic_list(ts@.skip(i as int))[0],
                    ));
                    assert(before.push(topic_list(ts@.skip(i as int))[0]) + topic_list(ts@.skip(i + 1))
                        =~= before + topic_list(ts@.skip(i as int)));
                }
            },
            None => {},
        }
        i = i + 1;
    }
    proof {
        let rv = r@.map_values(|p: (String, String)| (p.0@, p.1@));
        if r@.len() < 5 {
            assert(ts@.skip(i as int).len() == 0);
            assert(all =~= rv);
        } else {
            assert(all.take(5) =~= rv);
        }
    }
    r
}

fn push_answer_part(v: &mut Vec<char>, data: &SearchAnswer)
    ensures
        final(v)@ == old(v)@ + answer_part(*data),
{
    let ghost v0 = v@;
    if byte_len(data.answer.as_str()) > 0 {
        push_str(v, "**Answer:** ");
        push_str(v, data.answer.as_str());
        push_str(v, "\n\n");
        assert(v@ =~= v0 + answer_part(*data));
    } else {
        assert(v@ =~= v0 + answer_part(*data));
    }
}

fn push_abstract_part(v: &mut Vec<char>, data: &SearchAnswer)
    ensures
        final(v)@ == old(v)@ + abstract_part(*data),
{
    let ghost v0 = v@;
    if byte_len(data.abstract_text.as_str()) > 0 {
        push_str(v, "**");
        push_str(v, data.abstract_source.as_str());
        push_str(v, ":** ");
        push_str(v, data.abstract_text.as_str());
        push_str(v, "\n");
        if byte_len(data.abstract_url.as_str()) > 0 {
            push_str(v, "Source: ");
            push_str(v, data.abstract_url.as_str());
            push_str(v, "\n");
        }
        push_str(v, "\n");
        assert(v@ =~= v0 + abstract_part(*data));
    } else {
        assert(v@ =~= v0 + abstract_part(*data));
    }
}

fn push_definition_part(v: &mut Vec<char>, data: &SearchAnswer)
    ensures
        final(v)@ == old(v)@ + definition_part(*data),
{
    let ghost v0 = v@;
    if byte_len(data.definition.as_str()) > 0 {
        push_str(v, "**Definition (");
        push_str(v, data.definition_source.as_str());
        push_str(v, "):** ");
        push_str(v, data.definition.as_str());
        push_str(v, "\n\n");
        assert(v@ =~= v0 + definition_part(*data));
    } else {
        assert(v@ =~= v0 + definition_part(*data));
    }
}

fn push_related_part(v: &mut Vec<char>, data: &SearchAnswer)
    ensures
        final(v)@ == old(v)@ + related_part(*data),
{
    let ghost v0 = v@;
    let topics = collect_topics(&data.related_topics);
    let ghost tv = topics@.map_values(|p: (String, String)| (p.0@, p.1@));
    if topics.len() > 0 {
        push_str(v, "**Related:**\n");
        let ghost p4 = v@;
        assert(tv.take(0) =~= Seq::<(Seq<char>, Seq<char>)>::empty());
        for j in 0..topics.len()
            invariant
                tv == topics@.map_values(|p: (String, String)| (p.0@, p.1@)),
                v@ == p4 + topic_lines(tv.take(j as int)),
        {
            let ghost before = v@;
            let text = chars_of(topics[j].0.as_str());
            push_str(v, "- ");
            if byte_len(topics[j].1.as_str()) == 0 {
                let k = fit_prefix_len(text.as_slice(), 120);
                let cut = slice_sub(text.as_slice(), 0, k);
                push_all(v, cut.as_slice());
                push_str(v, "\n");
                assert(v@ =~= before + topic_line(tv[j as int]));
            } else {
                let k = fit_prefix_len(text.as_slice(), 100);
                let cut = slice_sub(text.as_slice(), 0, k);
                push_all(v, cut.as_slice());
                push_str(v, " (");
                push_str(v, topics[j].1.as_str());
                push_str(v, ")\n");
                assert(v@ =~= before + topic_line(tv[j as int]));
            }
            assert(tv.take(j + 1).drop_last() =~= tv.take(j as int));
        }
        assert(tv.take(topics@.len() as int) =~= tv);
        assert(v@ =~= v0 + related_part(*data));
    } else {
        assert(v@ =~= v0 + related_part(*data));
    }
}

impl WebSearch {
    /// The search result text for `query` given the service's answer.
    pub fn render(query: &str, data: &SearchAnswer) -> (r: String)
        ensures
            r@ == search_text(query@, *data),
    {
        let mut v: Vec<char> = Vec::new();
        push_answer_part(&mut v, data);
        push_abstract_part(&mut v, data);
        push_definition_part(&mut v, data);
        push_related_part(&mut v, data);
        assert(v@ =~= answer_body(*data));
        let (a, b) = trim_bounds(v.as_slice());
        if a == b {
            let mut w: Vec<char> = Vec::new();
            push_str(&mut w, "No instant answer found for: \"");
            push_str(&mut w, query);
            push_str(&mut w, "\"\n\nTry a more specific query or check: https://duckduckgo.com/?q=");
            push_str(&mut w, urlenccode(query).as_str());
            string_of(w.as_slice())
        } else {
            string_of(v.as_slice())
        }
    }
}

} // verus!
