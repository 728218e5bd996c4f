//! The agent's text protocol: reactive tool calls written as XML inside a
//! model's reply, their removal from the displayed prose, tool summaries,
//! and the formatting of tool results fed back to the model.

use vstd::prelude::*;
use crate::args::{pairs_map, ToolArgs};
use crate::text::{lemma_find_from_unique, occurs_at};
use crate::planner::PlannedCall;
use crate::text::{byte_len, byte_prefix, fit_prefix_len, push_str, str_eq, utf8_len,
    find_first, find_from, find_in, is_ws, trim_start, join, lemma_find_from, lemma_find_skip, lines,
    slice_sub, trim, trim_bounds, chars_of, string_of, push_all, views, lines_of, join_chars,
};

verus! {

// ── Markers ──────────────────────────────────────────────────────────────────

/// `<tool_call`
pub open spec fn open_marker() -> Seq<char> {
    seq!['<', 't', 'o', 'o', 'l', '_', 'c', 'a', 'l', 'l']
}

/// `</tool_call>`
pub open spec fn close_marker() -> Seq<char> {
    seq!['<', '/', 't', 'o', 'o', 'l', '_', 'c', 'a', 'l', 'l', '>']
}

/// `name`
pub open spec fn name_attr() -> Seq<char> {
    seq!['n', 'a', 'm', 'e']
}

fn open_marker_exec() -> (r: [char; 10])
    ensures
        r@ == open_marker(),
{
    let r = ['<', 't', 'o', 'o', 'l', '_', 'c', 'a', 'l', 'l'];
    assert(r@ =~= open_marker());
    r
}

fn close_marker_exec() -> (r: [char; 12])
    ensures
        r@ == close_marker(),
{
    let r = ['<', '/', 't', 'o', 'o', 'l', '_', 'c', 'a', 'l', 'l', '>'];
    assert(r@ =~= close_marker());
    r
}

proof fn lemma_skip_skip(s: Seq<char>, a: int, b: int)
    requires
        0 <= a,
        0 <= b,
        a + b <= s.len(),
    ensures
        s.skip(a).skip(b) == s.skip(a + b),
{
    assert(s.skip(a).skip(b) =~= s.skip(a + b));
}

// ── Attributes ──────────────────────────────────────────────────────────────

/// The value of `attr="…"` in `tag`: the text after the first `attr="` up to the next `"`.
pub open spec fn attr_value(tag: Seq<char>, attr: Seq<char>) -> Option<Seq<char>> {
    let needle = attr + seq!['=', '"'];
    match find_first(tag, needle) {
        None => None,
        Some(i) => {
            let start = i + needle.len();
            match find_first(tag.skip(start), seq!['"']) {
                None => None,
                Some(e) => Some(tag.subrange(start, start + e)),
            }
        },
    }
}

fn extract_attr_chars(tag: &[char], attr: &[char]) -> (r: Option<Vec<char>>)
    ensures
        match r {
            Some(v) => attr_value(tag@, attr@) == Some(v@),
            None => attr_value(tag@, attr@) is None,
        },
{
    let mut needle: Vec<char> = Vec::new();
    push_all(&mut needle, attr);
    needle.push('=');
    needle.push('"');
    assert(needle@ =~= attr@ + seq!['=', '"']);
    match find_in(tag, needle.as_slice(), 0) {
        None => None,
        Some(i) => {
            proof {
                lemma_find_from(tag@, needle@, 0);
            }
            assert(i + needle@.len() <= tag.len());
            let start = i + needle.len();
            let quote: [char; 1] = ['"'];
            assert(quote@ =~= seq!['"']);
            proof {
                lemma_find_skip(tag@, seq!['"'], start as int);
                lemma_find_from(tag@, seq!['"'], start as int);
            }
            match find_in(tag, quote.as_slice(), start) {
                None => None,
                Some(e) => Some(slice_sub(tag, start, e)),
            }
        },
    }
}

/// The value of attribute `attr` in an opening tag.
pub fn extract_attr(tag: &str, attr: &str) -> (r: Option<String>)
    ensures
        match r {
            Some(v) => attr_value(tag@, attr@) == Some(v@),
            None => attr_value(tag@, attr@) is None,
        },
{
    let t = chars_of(tag);
    let a = chars_of(attr);
    match extract_attr_chars(t.as_slice(), a.as_slice()) {
        Some(v) => Some(string_of(v.as_slice())),
        None => None,
    }
}

// ── Argument elements ────────────────────────────────────────────────────────

/// The `(name, value)` pairs read from `<name>value</name>` elements, in order.
/// Reading stops at the first element that is not closed.
pub open spec fn xml_pairs(rest: Seq<char>) -> Seq<(Seq<char>, Seq<char>)>
    decreases rest.len(),
{
    match find_first(rest, seq!['<']) {
        None => seq![],
        Some(os) => {
            proof {
                lemma_find_from(rest, seq!['<'], 0);
            }
            let open_rest = rest.skip(os + 1);
            match find_first(open_rest, seq!['>']) {
                None => seq![],
                Some(oe) => {
                    proof {
                        lemma_find_from(open_rest, seq!['>'], 0);
                    }
                    let name = open_rest.take(oe);
                    if name.len() > 0 && name[0] == '/' {
                        xml_pairs(rest.skip(os + 1 + oe + 1))
                    } else {
                        let after = open_rest.skip(oe + 1);
                        let close = seq!['<', '/'] + name + seq!['>'];
                        match find_first(after, close) {
                            None => seq![],
                            Some(cp) => {
                                proof {
                                    lemma_find_from(after, close, 0);
                                }
                                let consumed = os + 1 + oe + 1 + cp + close.len();
                                if consumed >= rest.len() {
                                    seq![(name, after.take(cp))]
                                } else {
                                    seq![(name, after.take(cp))] + xml_pairs(rest.skip(consumed))
                                }
                            },
                        }
                    }
                },
            }
        },
    }
}

fn xml_pairs_into(t: &[char], args: &mut ToolArgs)
    ensures
        final(args).pairs() == old(args).pairs() + xml_pairs(t@),
{
    let lt: [char; 1] = ['<'];
    let gt: [char; 1] = ['>'];
    assert(lt@ =~= seq!['<']);
    assert(gt@ =~= seq!['>']);
    let ghost p0 = args.pairs();
    let mut pos: usize = 0;
    assert(t@.skip(0) =~= t@);
    loop
        invariant
            pos <= t@.len(),
            lt@ == seq!['<'],
            gt@ == seq!['>'],
            p0 == old(args).pairs(),
            p0 + xml_pairs(t@) == args.pairs() + xml_pairs(t@.skip(pos as int)),
        decreases t@.len() - pos,
    {
        let ghost rest = t@.skip(pos as int);
        proof {
            lemma_find_skip(t@, seq!['<'], pos as int);
            lemma_find_from(t@, seq!['<'], pos as int);
        }
        let os = match find_in(t, lt.as_slice(), pos) {
            None => {
                assert(args.pairs() + xml_pairs(rest) =~= args.pairs());
                return;
            },
            Some(os) => os,
        };
        assert(os < t.len());
        let ghost open_rest = rest.skip(os - pos + 1);
        proof {
            lemma_skip_skip(t@, pos as int, os - pos + 1);
            lemma_find_skip(t@, seq!['>'], os + 1);
            lemma_find_from(t@, seq!['>'], os + 1);
        }
        let oe = match find_in(t, gt.as_slice(), os + 1) {
            None => {
                assert(args.pairs() + xml_pairs(rest) =~= args.pairs());
                return;
            },
            Some(oe) => oe,
        };
        let name = slice_sub(t, os + 1, oe);
        assert(name@ =~= open_rest.take(oe - os - 1));
        if name.len() > 0 && name[0] == '/' {
            proof {
                lemma_skip_skip(t@, pos as int, oe + 1 - pos);
            }
            pos = oe + 1;
        } else {
            let mut close: Vec<char> = Vec::new();
            close.push('<');
            close.push('/');
            push_all(&mut close, name.as_slice());
            close.push('>');
            assert(close@ =~= seq!['<', '/'] + name@ + seq!['>']);
            let ghost after = open_rest.skip(oe - os);
            assert(after =~= t@.skip(oe + 1));
            proof {
                lemma_skip_skip(t@, pos as int, oe + 1 - pos);
                lemma_find_skip(t@, close@, oe + 1);
                lemma_find_from(t@, close@, oe + 1);
            }
            let cp = match find_in(t, close.as_slice(), oe + 1) {
                None => {
                    assert(args.pairs() + xml_pairs(rest) =~= args.pairs());
                    return;
                },
                Some(cp) => cp,
            };
            let value = slice_sub(t, oe + 1, cp);
            assert(value@ =~= after.take(cp - oe - 1));
            let consumed = cp + close.len();
            let ghost before = args.pairs();
            args.insert(string_of(name.as_slice()), string_of(value.as_slice()));
            if consumed >= t.len() {
                assert(before + xml_pairs(rest) =~= args.pairs());
                return;
            }
            proof {
                lemma_skip_skip(t@, pos as int, consumed - pos);
                assert(before + xml_pairs(rest) =~= args.pairs() + xml_pairs(t@.skip(
                    consumed as int,
                )));
            }
            pos = consumed;
        }
    }
}

/// The arguments written as `<name>value</name>` elements inside a tool call.
pub fn parse_xml_args(inner: &str) -> (r: ToolArgs)
    ensures
        r.pairs() == xml_pairs(trim(inner@)),
        r.map() == pairs_map(xml_pairs(trim(inner@))),
{
    let v = chars_of(inner);
    let (a, b) = trim_bounds(v.as_slice());
    let t = slice_sub(v.as_slice(), a, b);
    let mut args = ToolArgs::new();
    xml_pairs_into(t.as_slice(), &mut args);
    assert(args.pairs() =~= xml_pairs(trim(inner@)));
    args
}


/// `</n>`
pub open spec fn closing_tag(n: Seq<char>) -> Seq<char> {
    seq!['<', '/'] + n + seq!['>']
}

/// An element `<n>v</n>` gives the argument `n` with the value `v` whole: the
/// value runs up to the closing tag of its own name, so a value holding other
/// elements (an HTML page, say) is kept entire. Whatever follows is read on.
pub proof fn law_element_value_kept_whole(n: Seq<char>, v: Seq<char>, rest: Seq<char>)
    requires
        n.len() > 0,
        n[0] != '/',
        forall|i: int| 0 <= i < n.len() ==> n[i] != '<' && n[i] != '>',
        forall|j: int| !occurs_at(v, j, closing_tag(n)),
    ensures
        xml_pairs(seq!['<'] + n + seq!['>'] + v + closing_tag(n) + rest).len() >= 1,
        xml_pairs(seq!['<'] + n + seq!['>'] + v + closing_tag(n) + rest)[0] == (n, v),
        xml_pairs(seq!['<'] + n + seq!['>'] + v + closing_tag(n)) == seq![(n, v)],
        pairs_map(xml_pairs(seq!['<'] + n + seq!['>'] + v + closing_tag(n)))[n] == v,
{
    lemma_element_pairs(n, v, rest);
    lemma_element_pairs(n, v, seq![]);
    assert(seq!['<'] + n + seq!['>'] + v + closing_tag(n) + seq![] =~= seq!['<'] + n + seq!['>'] + v
        + closing_tag(n));
    let ps = seq![(n, v)];
    assert(ps.drop_last() =~= Seq::<(Seq<char>, Seq<char>)>::empty());
}

proof fn lemma_element_pairs(n: Seq<char>, v: Seq<char>, rest: Seq<char>)
    requires
        n.len() > 0,
        n[0] != '/',
        forall|i: int| 0 <= i < n.len() ==> n[i] != '<' && n[i] != '>',
        forall|j: int| !occurs_at(v, j, closing_tag(n)),
    ensures
        xml_pairs(seq!['<'] + n + seq!['>'] + v + closing_tag(n) + rest) == (if rest.len() == 0 {
            seq![(n, v)]
        } else {
            seq![(n, v)] + xml_pairs(rest)
        }),
{
    let close = closing_tag(n);
    let t = seq!['<'] + n + seq!['>'] + v + close + rest;
    // the element opens at the first character
    assert(occurs_at(t, 0, seq!['<'])) by {
        assert(t.subrange(0, 1) =~= seq!['<']);
    }
    lemma_find_from_unique(t, seq!['<'], 0, 0);
    let open_rest = t.skip(1);
    let nl = n.len() as int;
    // its name ends at the first `>`
    assert(occurs_at(open_rest, nl, seq!['>'])) by {
        assert(open_rest.subrange(nl, nl + 1) =~= seq!['>']);
    }
    assert forall|j: int| 0 <= j < nl implies !occurs_at(open_rest, j, seq!['>']) by {
        assert(open_rest[j] == n[j]);
        if occurs_at(open_rest, j, seq!['>']) {
            assert(open_rest.subrange(j, j + 1)[0] == open_rest[j]);
        }
    }
    lemma_find_from_unique(open_rest, seq!['>'], 0, nl);
    assert(open_rest.take(nl) =~= n);
    let after = open_rest.skip(nl + 1);
    assert(after =~= v + close + rest);
    let vl = v.len() as int;
    let cl = close.len() as int;
    // the value ends at the first `</n>`
    assert(occurs_at(after, vl, close)) by {
        assert(after.subrange(vl, vl + cl) =~= close);
    }
    assert forall|j: int| 0 <= j < vl implies !occurs_at(after, j, close) by {
        if occurs_at(after, j, close) {
            if j + cl <= vl {
                assert(after.subrange(j, j + cl) =~= v.subrange(j, j + cl));
                assert(occurs_at(v, j, close));
            } else {
                let k = vl - j;
                assert(0 < k < cl);
                assert(after.subrange(j, j + cl)[k] == after[vl]);
                assert(after[vl] == '<');
                assert(close[k] == '<');
                if k == 1 {
                } else if k < cl - 1 {
                    assert(close[k] == n[k - 2]);
                } else {
                }
            }
        }
    }
    lemma_find_from_unique(after, close, 0, vl);
    assert(after.take(vl) =~= v);
    let consumed = 1 + nl + 1 + vl + cl;
    assert(t.len() == consumed + rest.len());
    assert(t.skip(consumed) =~= rest);
}


// ── Reactive tool calls ─────────────────────────────────────────────────────

/// A tool call: a tool name and its arguments.
#[derive(Debug)]
pub struct ToolCall {
    pub name: String,
    pub args: ToolArgs,
}

/// A tool call as plain values: its name and its argument pairs in insertion order.
pub type CallView = (Seq<char>, Seq<(Seq<char>, Seq<char>)>);

impl ToolCall {
    pub open spec fn view_call(&self) -> CallView {
        (self.name@, self.args.pairs())
    }
}

impl From<PlannedCall> for ToolCall {
    fn from(p: PlannedCall) -> (r: Self) {
        ToolCall { name: p.tool, args: p.args }
    }
}

impl vstd::std_specs::convert::FromSpecImpl<PlannedCall> for ToolCall {
    open spec fn obeys_from_spec() -> bool {
        true
    }

    open spec fn from_spec(p: PlannedCall) -> ToolCall {
        ToolCall { name: p.tool, args: p.args }
    }
}

impl ToolCall {
    /// A copy of this call.
    pub fn duplicate(&self) -> (r: Self)
        ensures
            r.view_call() == self.view_call(),
    {
        ToolCall { name: self.name.clone(), args: self.args.duplicate() }
    }
}

/// A completed agent step, shown as a card in the chat history.
#[derive(Debug, Clone)]
pub struct AgentStep {
    pub iteration: u32,
    pub tool: String,
    pub summary: String,
    pub output: String,
    pub success: bool,
}

/// What the agent reports to the interface.
#[derive(Debug)]
pub enum AgentEvent {
    /// The planner is running.
    PlannerStarted,
    /// The planner returned its plan (possibly empty).
    PlannerDone { calls: Vec<PlannedCall> },
    /// A tool is about to run.
    ToolStart { iteration: u32, name: String, summary: String },
    /// A tool finished.
    ToolDone { iteration: u32, name: String, output: String, success: bool },
    /// The reasoner started streaming.
    ReasonerStarted,
    /// A streamed token of the reasoner's reply.
    Token(String),
    /// The reasoner finished a turn; the full text of the reply.
    TurnComplete(String),
    /// Nothing more to do.
    Done,
    /// An unrecoverable error.
    Error(String),
}

/// The views of a sequence of tool calls.
pub open spec fn call_views(v: Seq<ToolCall>) -> Seq<CallView> {
    v.map_values(|c: ToolCall| c.view_call())
}

/// The name given by an opening tag, empty when it has none.
pub open spec fn tag_name(tag: Seq<char>) -> Seq<char> {
    match attr_value(tag, name_attr()) {
        Some(n) => n,
        None => seq![],
    }
}

/// The tool calls written in `s` as `<tool_call name="…">…</tool_call>`, in order;
/// `None` when a call's closing marker comes before the end of its opening
/// tag, an input on which the scan cannot slice the call's body.
pub open spec fn scan_calls(s: Seq<char>) -> Option<Seq<CallView>>
    decreases s.len(),
{
    match find_first(s, open_marker()) {
        None => Some(seq![]),
        Some(start) => {
            proof {
                lemma_find_from(s, open_marker(), 0);
            }
            let rest = s.skip(start);
            match find_first(rest, seq!['>']) {
                None => Some(seq![]),
                Some(te) => {
                    let name = tag_name(rest.take(te + 1));
                    if name.len() == 0 {
                        scan_calls(s.skip(start + 1))
                    } else {
                        match find_first(rest, close_marker()) {
                            None => Some(seq![]),
                            Some(end) => {
                                proof {
                                    lemma_find_from(rest, close_marker(), 0);
                                }
                                if end < te + 1 {
                                    None
                                } else {
                                    let call = (name, xml_pairs(trim(rest.subrange(te + 1, end))));
                                    let advance = start + end + close_marker().len();
                                    if advance >= s.len() {
                                        Some(seq![call])
                                    } else {
                                        match scan_calls(s.skip(advance)) {
                                            None => None,
                                            Some(cs) => Some(seq![call] + cs),
                                        }
                                    }
                                }
                            },
                        }
                    }
                },
            }
        },
    }
}

/// The reactive tool calls in `text`, or `None` on an input whose scan cannot
/// slice a call's body (see `scan_calls`).
pub fn scan_tool_calls(text: &str) -> (r: Option<Vec<ToolCall>>)
    ensures
        match r {
            Some(v) => scan_calls(text@) == Some(call_views(v@)),
            None => scan_calls(text@) is None,
        },
{
    let t = chars_of(text);
    let open = open_marker_exec();
    let close = close_marker_exec();
    let gt: [char; 1] = ['>'];
    assert(gt@ =~= seq!['>']);
    let name_v: [char; 4] = ['n', 'a', 'm', 'e'];
    assert(name_v@ =~= name_attr());
    let mut calls: Vec<ToolCall> = Vec::new();
    let mut pos: usize = 0;
    assert(t@.skip(0) =~= t@);
    assert(call_views(calls@) =~= Seq::<CallView>::empty());
    loop
        invariant
            pos <= t@.len(),
            t@ == text@,
            open@ == open_marker(),
            close@ == close_marker(),
            gt@ == seq!['>'],
            name_v@ == name_attr(),
            scan_calls(t@) == (match scan_calls(t@.skip(pos as int)) {
                None => None,
                Some(cs) => Some(call_views(calls@) + cs),
            }),
        decreases t@.len() - pos,
    {
        let ghost s = t@.skip(pos as int);
        let ghost cv = call_views(calls@);
        proof {
            lemma_find_skip(t@, open_marker(), pos as int);
            lemma_find_from(t@, open_marker(), pos as int);
        }
        let start = match find_in(t.as_slice(), open.as_slice(), pos) {
            None => {
                assert(find_first(s, open_marker()) is None);
                assert(scan_calls(s) == Some(Seq::<CallView>::empty()));
                assert(cv + Seq::<CallView>::empty() =~= cv);

                return Some(calls);
            },
            Some(st) => st,
        };
        let ghost rest = s.skip(start - pos);
        proof {
            lemma_skip_skip(t@, pos as int, start - pos);
            lemma_find_skip(t@, seq!['>'], start as int);
            lemma_find_from(t@, seq!['>'], start as int);
        }
        let tag_end = match find_in(t.as_slice(), gt.as_slice(), start) {
            None => {
                assert(cv + Seq::<CallView>::empty() =~= cv);
                return Some(calls);
            },
            Some(te) => te,
        };
        assert(tag_end < t.len());
        let tag = slice_sub(t.as_slice(), start, tag_end + 1);
        assert(tag@ =~= rest.take(tag_end - start + 1));
        let name = match extract_attr_chars(tag.as_slice(), name_v.as_slice()) {
            Some(n) => n,
            None => Vec::new(),
        };
        assert(name@ =~= tag_name(tag@));
        if name.len() == 0 {
            proof {
                lemma_skip_skip(t@, pos as int, start - pos + 1);
            }
            pos = start + 1;
        } else {
            proof {
                lemma_find_skip(t@, close_marker(), start as int);
                lemma_find_from(t@, close_marker(), start as int);
            }
            let end = match find_in(t.as_slice(), close.as_slice(), start) {
                None => {
                    assert(cv + Seq::<CallView>::empty() =~= cv);
                    return Some(calls);
                },
                Some(e) => e,
            };
            if end < tag_end + 1 {
                return None;
            }
            let inner = slice_sub(t.as_slice(), tag_end + 1, end);
            assert(inner@ =~= rest.subrange(tag_end - start + 1, end - start));
            let (a, b) = trim_bounds(inner.as_slice());
            let body = slice_sub(inner.as_slice(), a, b);
            let mut args = ToolArgs::new();
            xml_pairs_into(body.as_slice(), &mut args);
            assert(args.pairs() =~= xml_pairs(trim(inner@)));
            let call = ToolCall { name: string_of(name.as_slice()), args };
            let ghost cview = call.view_call();
            calls.push(call);
            assert(call_views(calls@) =~= cv.push(cview));
            assert(end + 12 <= t.len());
            let advance = end + 12;
            if advance >= t.len() {
                assert(cv + seq![cview] =~= cv.push(cview));
                return Some(calls);
            }
            proof {
                lemma_skip_skip(t@, pos as int, advance - pos);
                match scan_calls(t@.skip(advance as int)) {
                    None => {},
                    Some(cs) => {
                        assert(cv + (seq![cview] + cs) =~= cv.push(cview) + cs);
                    },
                }
            }
            pos = advance;
        }
    }
}

/// The reactive tool calls in `text`, in order.
pub fn parse_tool_calls(text: &str) -> (r: Vec<ToolCall>)
    requires
        scan_calls(text@) is Some,
    ensures
        scan_calls(text@) == Some(call_views(r@)),
{
    match scan_tool_calls(text) {
        Some(v) => v,
        None => Vec::new(),
    }
}


// ── Prose without tool calls ────────────────────────────────────────────────

/// `s` with every `<tool_call … </tool_call>` span cut out: text before an
/// opening marker is kept and scanning resumes after the first closing marker
/// of the remaining text; an opening marker with no closing marker after the
/// scan point keeps the rest as it is.
pub open spec fn cut_calls(s: Seq<char>) -> Seq<char>
    decreases s.len(),
{
    match find_first(s, open_marker()) {
        None => s,
        Some(start) => match find_first(s, close_marker()) {
            None => s.take(start) + s,
            Some(end) => {
                proof {
                    lemma_find_from(s, close_marker(), 0);
                }
                s.take(start) + cut_calls(s.skip(end + close_marker().len()))
            },
        },
    }
}

/// A line made only of whitespace.
pub open spec fn is_blank(l: Seq<char>) -> bool {
    trim(l).len() == 0
}

/// `ls` with every blank line that follows a kept blank line dropped.
pub open spec fn collapse_blank(ls: Seq<Seq<char>>, prev_blank: bool) -> Seq<Seq<char>>
    decreases ls.len(),
{
    if ls.len() == 0 {
        seq![]
    } else if is_blank(ls[0]) && prev_blank {
        collapse_blank(ls.drop_first(), prev_blank)
    } else {
        seq![ls[0]] + collapse_blank(ls.drop_first(), is_blank(ls[0]))
    }
}

/// The prose of a reply: tool calls cut out, runs of blank lines collapsed
/// to one, and surrounding whitespace trimmed.
pub open spec fn prose_of(s: Seq<char>) -> Seq<char> {
    trim(join(collapse_blank(lines(cut_calls(s)), false), seq!['\n']))
}

/// No two adjacent lines of `ls` are both blank.
pub open spec fn no_blank_pair(ls: Seq<Seq<char>>) -> bool {
    forall|i: int, j: int|
        #![trigger ls[i], ls[j]]
        0 <= i && j == i + 1 && j < ls.len() ==> !(is_blank(ls[i]) && is_blank(ls[j]))
}

/// Collapsing drops only a blank line that follows a kept blank line: lines
/// with no two blank lines side by side all stay.
pub proof fn law_collapse_keeps_single_blanks(ls: Seq<Seq<char>>, prev_blank: bool)
    requires
        no_blank_pair(ls),
        prev_blank && ls.len() > 0 ==> !is_blank(ls[0]),
    ensures
        collapse_blank(ls, prev_blank) == ls,
    decreases ls.len(),
{
    if ls.len() > 0 {
        let r = ls.drop_first();
        assert(no_blank_pair(r)) by {
            assert forall|i: int, j: int|
                0 <= i && j == i + 1 && j < r.len() implies !(is_blank(r[i]) && is_blank(r[j])) by {
                assert(r[i] == ls[i + 1] && r[j] == ls[j + 1]);
            }
        }
        if r.len() > 0 {
            assert(r[0] == ls[1]);
            assert(ls[0] == ls[0] && ls[1] == ls[1]);
        }
        law_collapse_keeps_single_blanks(r, is_blank(ls[0]));
        assert(seq![ls[0]] + r =~= ls);
    }
}

/// A reply with no tool call in which no two blank lines are adjacent is
/// shown as it was written, its lines rejoined and trimmed: every blank line
/// that separates two paragraphs stays.
pub proof fn law_prose_keeps_paragraphs(s: Seq<char>)
    requires
        find_first(s, open_marker()) is None,
        no_blank_pair(lines(s)),
    ensures
        prose_of(s) == trim(join(lines(s), seq!['\n'])),
{
    assert(cut_calls(s) == s);
    law_collapse_keeps_single_blanks(lines(s), false);
}

proof fn lemma_join_cons(a: Seq<char>, ls: Seq<Seq<char>>, sep: Seq<char>)
    requires
        ls.len() >= 1,
    ensures
        join(seq![a] + ls, sep) == a + sep + join(ls, sep),
    decreases ls.len(),
{
    let all = seq![a] + ls;
    assert(all.last() == ls.last());
    assert(all.len() >= 2);
    if ls.len() == 1 {
        assert(all.drop_last() =~= seq![a]);
        assert(join(seq![a], sep) == a);
        assert(join(all, sep) == join(all.drop_last(), sep) + sep + all.last());
        assert(join(ls, sep) == ls[0]);
    } else {
        assert(all.drop_last() =~= seq![a] + ls.drop_last());
        assert(join(all, sep) == join(all.drop_last(), sep) + sep + all.last());
        assert(join(ls, sep) == join(ls.drop_last(), sep) + sep + ls.last());
        lemma_join_cons(a, ls.drop_last(), sep);
        assert(a + sep + join(ls.drop_last(), sep) + sep + ls.last() =~= a + sep + (join(
            ls.drop_last(),
            sep,
        ) + sep + ls.last()));
    }
}

/// Rejoining the lines of a text with no carriage return gives the text back,
/// less a final newline.
proof fn lemma_join_lines(s: Seq<char>)
    requires
        forall|i: int| 0 <= i < s.len() ==> s[i] != '\r',
    ensures
        join(lines(s), seq!['\n']) == (if s.len() > 0 && s.last() == '\n' {
            s.drop_last()
        } else {
            s
        }),
    decreases s.len(),
{
    if s.len() > 0 {
        lemma_find_from(s, seq!['\n'], 0);
        match find_first(s, seq!['\n']) {
            None => {
                assert(s.subrange(s.len() - 1, s.len() as int) =~= seq![s.last()]);
                assert(!occurs_at(s, s.len() - 1, seq!['\n']));
            },
            Some(i) => {
                assert(s.subrange(i, i + 1)[0] == s[i]);
                let h = s.take(i);
                let t = s.skip(i + 1);
                if h.len() > 0 {
                    assert(h.last() == s[i - 1]);
                }
                assert(crate::text::strip_cr(h) == h);
                assert forall|j: int| 0 <= j < t.len() implies t[j] != '\r' by {
                    assert(t[j] == s[i + 1 + j]);
                }
                lemma_join_lines(t);
                if t.len() == 0 {
                    assert(lines(s) =~= seq![h]);
                    assert(s.drop_last() =~= h);
                } else {
                    assert(lines(t).len() > 0);
                    lemma_join_cons(h, lines(t), seq!['\n']);
                    assert(s =~= h + seq!['\n'] + t);
                    assert(s.last() == t.last());
                    if t.last() == '\n' {
                        assert(s.drop_last() =~= h + seq!['\n'] + t.drop_last());
                    }
                }
            },
        }
    }
}

proof fn lemma_trim_start_push(x: Seq<char>, c: char)
    requires
        is_ws(c),
    ensures
        trim_start(x.push(c)) == (if trim_start(x).len() == 0 {
            Seq::<char>::empty()
        } else {
            trim_start(x).push(c)
        }),
    decreases x.len(),
{
    if x.len() == 0 {
        assert(x.push(c) =~= seq![c]);
        assert(seq![c].drop_first() =~= Seq::<char>::empty());
        assert(trim_start(Seq::<char>::empty()) == Seq::<char>::empty());
        assert(trim_start(seq![c]) == trim_start(seq![c].drop_first()));
    } else {
        assert(x.push(c)[0] == x[0]);
        if is_ws(x[0]) {
            assert(x.push(c).drop_first() =~= x.drop_first().push(c));
            lemma_trim_start_push(x.drop_first(), c);
        }
    }
}

/// A final whitespace character changes nothing once the text is trimmed.
proof fn lemma_trim_push_ws(x: Seq<char>, c: char)
    requires
        is_ws(c),
    ensures
        trim(x.push(c)) == trim(x),
{
    lemma_trim_start_push(x, c);
    if trim_start(x).len() > 0 {
        assert(trim_start(x).push(c).drop_last() =~= trim_start(x));
    }
}

/// A reply with no tool call and no carriage return, in which no two blank
/// lines are adjacent, is shown exactly as written, trimmed.
pub proof fn law_plain_prose_unchanged(s: Seq<char>)
    requires
        find_first(s, open_marker()) is None,
        no_blank_pair(lines(s)),
        forall|i: int| 0 <= i < s.len() ==> s[i] != '\r',
    ensures
        prose_of(s) == trim(s),
{
    law_prose_keeps_paragraphs(s);
    lemma_join_lines(s);
    if s.len() > 0 && s.last() == '\n' {
        assert(s.drop_last().push('\n') =~= s);
        assert(is_ws('\n'));
        lemma_trim_push_ws(s.drop_last(), '\n');
    }
}

fn cut_calls_chars(t: &[char]) -> (r: Vec<char>)
    ensures
        r@ == cut_calls(t@),
{
    let open = open_marker_exec();
    let close = close_marker_exec();
    let mut out: Vec<char> = Vec::new();
    let mut pos: usize = 0;
    assert(t@.skip(0) =~= t@);
    loop
        invariant
            pos <= t@.len(),
            open@ == open_marker(),
            close@ == close_marker(),
            cut_calls(t@) == out@ + cut_calls(t@.skip(pos as int)),
        decreases t@.len() - pos,
    {
        let ghost s = t@.skip(pos as int);
        proof {
            lemma_find_skip(t@, open_marker(), pos as int);
            lemma_find_from(t@, open_marker(), pos as int);
            lemma_find_skip(t@, close_marker(), pos as int);
            lemma_find_from(t@, close_marker(), pos as int);
        }
        match find_in(t, open.as_slice(), pos) {
            None => {
                let tail = slice_sub(t, pos, t.len());
                push_all(&mut out, tail.as_slice());
                assert(tail@ =~= s);
                return out;
            },
            Some(start) => {
                let head = slice_sub(t, pos, start);
                assert(head@ =~= s.take(start - pos));
                push_all(&mut out, head.as_slice());
                match find_in(t, close.as_slice(), pos) {
                    None => {
                        let tail = slice_sub(t, pos, t.len());
                        assert(tail@ =~= s);
                        push_all(&mut out, tail.as_slice());
                        assert(out@ =~= (out@.subrange(0, out@.len() - s.len() - (start - pos)) + s.take(start - pos)) + s);
                        return out;
                    },
                    Some(end) => {
                        assert(end + 12 <= t.len());
                        proof {
                            lemma_skip_skip(t@, pos as int, end + 12 - pos);
                        }
                        pos = end + 12;
                    },
                }
            },
        }
    }
}

fn line_is_blank(l: &[char]) -> (b: bool)
    ensures
        b == is_blank(l@),
{
    let (a, b) = trim_bounds(l);
    a == b
}

/// `text` without its reactive tool calls, as shown in the chat.
pub fn strip_tool_calls(text: &str) -> (r: String)
    ensures
        r@ == prose_of(text@),
{
    let t = chars_of(text);
    let cut = cut_calls_chars(t.as_slice());
    let ls = lines_of(cut.as_slice());
    let mut kept: Vec<Vec<char>> = Vec::new();
    let mut prev_blank = false;
    let ghost all = views(ls@);
    assert(all.skip(0) =~= all);
    assert(views(kept@) =~= Seq::<Seq<char>>::empty());
    for i in 0..ls.len()
        invariant
            all == views(ls@),
            all.len() == ls@.len(),
            collapse_blank(all, false) == views(kept@) + collapse_blank(all.skip(i as int), prev_blank),
    {
        let blank = line_is_blank(ls[i].as_slice());
        assert(all[i as int] == ls@[i as int]@);
        assert(all.skip(i as int).drop_first() =~= all.skip(i + 1));
        let ghost before = views(kept@);
        if blank && prev_blank {
        } else {
            let mut copy: Vec<char> = Vec::new();
            push_all(&mut copy, ls[i].as_slice());
            kept.push(copy);
            assert(views(kept@) =~= before.push(all[i as int]));
            assert(before.push(all[i as int]) + collapse_blank(all.skip(i + 1), blank) =~= before
                + (seq![all[i as int]] + collapse_blank(all.skip(i + 1), blank)));
            prev_blank = blank;
        }
    }
    assert(all.skip(ls@.len() as int) =~= Seq::<Seq<char>>::empty());
    assert(views(kept@) + Seq::<Seq<char>>::empty() =~= views(kept@));
    let nl: [char; 1] = ['\n'];
    assert(nl@ =~= seq!['\n']);
    let joined = join_chars(&kept, nl.as_slice());
    let (a, b) = trim_bounds(joined.as_slice());
    let body = slice_sub(joined.as_slice(), a, b);
    string_of(body.as_slice())
}


// ── Summaries ────────────────────────────────────────────────────────────────

/// The value of `k` in `m`, or `d` when absent.
pub open spec fn arg_or(m: Map<Seq<char>, Seq<char>>, k: Seq<char>, d: Seq<char>) -> Seq<char> {
    if m.contains_key(k) {
        m[k]
    } else {
        d
    }
}

pub open spec fn is_shell_tool(n: Seq<char>) -> bool {
    n == "run_shell"@ || n == "shell"@ || n == "bash"@
}

pub open spec fn is_list_tool(n: Seq<char>) -> bool {
    n == "list_dir"@ || n == "list_directory"@
}

pub open spec fn is_search_tool(n: Seq<char>) -> bool {
    n == "web_search"@ || n == "search"@
}

/// The shell command of a call: `command`, else `cmd`, else `d`.
pub open spec fn shell_command(m: Map<Seq<char>, Seq<char>>, d: Seq<char>) -> Seq<char> {
    if m.contains_key("command"@) {
        m["command"@]
    } else {
        arg_or(m, "cmd"@, d)
    }
}

/// The search query of a call: `query`, else `q`, else `d`.
pub open spec fn search_query(m: Map<Seq<char>, Seq<char>>, d: Seq<char>) -> Seq<char> {
    if m.contains_key("query"@) {
        m["query"@]
    } else {
        arg_or(m, "q"@, d)
    }
}

/// The one-line label of a tool call shown on its card.
pub open spec fn summary_of(name: Seq<char>, m: Map<Seq<char>, Seq<char>>) -> Seq<char> {
    if name == "read_file"@ {
        "read "@ + arg_or(m, "path"@, "?"@)
    } else if name == "write_file"@ {
        "write "@ + arg_or(m, "path"@, "?"@)
    } else if is_shell_tool(name) {
        let c = shell_command(m, "?"@);
        "$ "@ + (if utf8_len(c) > 60 {
            byte_prefix(c, 60)
        } else {
            c
        })
    } else if is_list_tool(name) {
        "ls "@ + arg_or(m, "path"@, "."@)
    } else if is_search_tool(name) {
        "search: "@ + arg_or(m, "query"@, "?"@)
    } else {
        name
    }
}

/// A shell command longer than 60 bytes has a character boundary at byte 60,
/// where its label is cut.
pub open spec fn summary_ok(name: Seq<char>, m: Map<Seq<char>, Seq<char>>) -> bool {
    is_shell_tool(name) && utf8_len(shell_command(m, "?"@)) > 60 ==> utf8_len(
        byte_prefix(shell_command(m, "?"@), 60),
    ) == 60
}

fn shell_command_of<'a>(args: &'a ToolArgs, default: &'a str) -> (r: &'a str)
    ensures
        r@ == shell_command(args.map(), default@),
{
    match args.get("command") {
        Some(c) => c.as_str(),
        None => args.get_or("cmd", default),
    }
}

fn search_query_of<'a>(args: &'a ToolArgs, default: &'a str) -> (r: &'a str)
    ensures
        r@ == search_query(args.map(), default@),
{
    match args.get("query") {
        Some(c) => c.as_str(),
        None => args.get_or("q", default),
    }
}

fn labelled(label: &str, value: &str) -> (r: String)
    ensures
        r@ == label@ + value@,
{
    let mut v: Vec<char> = Vec::new();
    push_str(&mut v, label);
    push_str(&mut v, value);
    string_of(v.as_slice())
}

/// Whether a call's label can be made: a shell command longer than 60 bytes
/// needs a character boundary at byte 60.
pub fn summary_fits(call: &ToolCall) -> (b: bool)
    ensures
        b == summary_ok(call.name@, call.args.map()),
{
    let name = call.name.as_str();
    if str_eq(name, "run_shell") || str_eq(name, "shell") || str_eq(name, "bash") {
        crate::text::cut_fits(shell_command_of(&call.args, "?"), 60)
    } else {
        true
    }
}

/// The label shown for a tool call.
pub fn tool_summary(call: &ToolCall) -> (r: String)
    requires
        summary_ok(call.name@, call.args.map()),
    ensures
        r@ == summary_of(call.name@, call.args.map()),
{
    let name = call.name.as_str();
    if str_eq(name, "read_file") {
        labelled("read ", call.args.get_or("path", "?"))
    } else if str_eq(name, "write_file") {
        labelled("write ", call.args.get_or("path", "?"))
    } else if str_eq(name, "run_shell") || str_eq(name, "shell") || str_eq(name, "bash") {
        let cmd = shell_command_of(&call.args, "?");
        if byte_len(cmd) > 60 {
            let cv = chars_of(cmd);
            let k = fit_prefix_len(cv.as_slice(), 60);
            let cut = slice_sub(cv.as_slice(), 0, k);
            assert(cut@ =~= byte_prefix(cmd@, 60));
            labelled("$ ", string_of(cut.as_slice()).as_str())
        } else {
            labelled("$ ", cmd)
        }
    } else if str_eq(name, "list_dir") || str_eq(name, "list_directory") {
        labelled("ls ", call.args.get_or("path", "."))
    } else if str_eq(name, "web_search") || str_eq(name, "search") {
        labelled("search: ", call.args.get_or("query", "?"))
    } else {
        name.to_owned()
    }
}

// ── Results fed back to the model ────────────────────────────────────────────

/// One tool result as the model reads it.
pub open spec fn result_block(name: Seq<char>, output: Seq<char>, success: bool) -> Seq<char> {
    "=== "@ + name + " ["@ + (if success {
        "ok"@
    } else {
        "error"@
    }) + "] ===\n"@ + output + "\n"@
}

/// The blocks of a sequence of `(name, output, success)` results.
pub open spec fn result_blocks(rs: Seq<(String, String, bool)>) -> Seq<Seq<char>> {
    rs.map_values(|r: (String, String, bool)| result_block(r.0@, r.1@, r.2))
}

/// Tool results as one text, blocks separated by a blank line.
pub fn format_tool_results(results: &[(String, String, bool)]) -> (r: String)
    ensures
        r@ == join(result_blocks(results@), "\n"@),
{
    let mut blocks: Vec<Vec<char>> = Vec::new();
    for i in 0..results.len()
        invariant
            views(blocks@) == result_blocks(results@).take(i as int),
    {
        let mut b: Vec<char> = Vec::new();
        push_str(&mut b, "=== ");
        push_str(&mut b, results[i].0.as_str());
        push_str(&mut b, " [");
        if results[i].2 {
            push_str(&mut b, "ok");
        } else {
            push_str(&mut b, "error");
        }
        push_str(&mut b, "] ===\n");
        push_str(&mut b, results[i].1.as_str());
        push_str(&mut b, "\n");
        let ghost before = views(blocks@);
        blocks.push(b);
        assert(views(blocks@) =~= before.push(b@));
        assert(result_blocks(results@).take(i + 1) =~= result_blocks(results@).take(i as int).push(
            result_blocks(results@)[i as int],
        ));
    }
    assert(result_blocks(results@).take(results@.len() as int) =~= result_blocks(results@));
    let nl = chars_of("\n");
    string_of(join_chars(&blocks, nl.as_slice()).as_slice())
}

// ── Executing a call ────────────────────────────────────────────────────────

/// What executing a tool call amounts to, as plain values.
pub enum ActionView {
    ReadFile(Seq<char>),
    WriteFile(Seq<char>, Seq<char>),
    RunShell(Seq<char>),
    ListDir(Seq<char>),
    WebSearch(Seq<char>),
    Reject(Seq<char>),
}

/// The work a tool call asks for, or the answer it gets without any work.
#[derive(Debug)]
pub enum ToolAction {
    ReadFile { path: String },
    WriteFile { path: String, content: String },
    RunShell { command: String },
    ListDir { path: String },
    WebSearch { query: String },
    Reject { message: String },
}

impl ToolAction {
    pub open spec fn view_action(&self) -> ActionView {
        match self {
            ToolAction::ReadFile { path } => ActionView::ReadFile(path@),
            ToolAction::WriteFile { path, content } => ActionView::WriteFile(path@, content@),
            ToolAction::RunShell { command } => ActionView::RunShell(command@),
            ToolAction::ListDir { path } => ActionView::ListDir(path@),
            ToolAction::WebSearch { query } => ActionView::WebSearch(query@),
            ToolAction::Reject { message } => ActionView::Reject(message@),
        }
    }
}

/// A path taken as absolute when it starts with `/`, else under `wd`.
pub open spec fn resolve_path(wd: Seq<char>, p: Seq<char>) -> Seq<char> {
    if p.len() > 0 && p[0] == '/' {
        p
    } else {
        wd + "/"@ + p
    }
}

/// The action for tool `name` with arguments `m`, paths resolved under `wd`.
pub open spec fn action_for(name: Seq<char>, m: Map<Seq<char>, Seq<char>>, wd: Seq<char>) -> ActionView {
    if name == "read_file"@ {
        let p = arg_or(m, "path"@, ""@);
        if p.len() == 0 {
            ActionView::Reject("Error: missing path arg"@)
        } else {
            ActionView::ReadFile(resolve_path(wd, p))
        }
    } else if name == "write_file"@ {
        let p = arg_or(m, "path"@, ""@);
        if p.len() == 0 {
            ActionView::Reject("Error: missing path arg"@)
        } else {
            ActionView::WriteFile(resolve_path(wd, p), arg_or(m, "content"@, ""@))
        }
    } else if is_shell_tool(name) {
        let c = shell_command(m, ""@);
        if c.len() == 0 {
            ActionView::Reject("Error: missing command arg"@)
        } else {
            ActionView::RunShell(c)
        }
    } else if is_list_tool(name) {
        ActionView::ListDir(resolve_path(wd, arg_or(m, "path"@, "."@)))
    } else if is_search_tool(name) {
        let q = search_query(m, ""@);
        if q.len() == 0 {
            ActionView::Reject("Error: missing query arg"@)
        } else {
            ActionView::WebSearch(q)
        }
    } else {
        ActionView::Reject("Unknown tool: "@ + name)
    }
}

/// The three names of the shell tool.
pub open spec fn shell_names() -> Set<Seq<char>> {
    set!["run_shell"@, "shell"@, "bash"@]
}

/// A shell tool, whichever of its names the call uses, runs the call's
/// `command` argument (or else its `cmd` argument) when that is not empty, and
/// the names of one tool ask for the same work whatever the arguments.
pub proof fn law_shell_names_run_the_command(
    name: Seq<char>,
    other: Seq<char>,
    m: Map<Seq<char>, Seq<char>>,
    wd: Seq<char>,
)
    requires
        shell_names().contains(name),
        shell_names().contains(other),
    ensures
        m.contains_key("command"@) && m["command"@].len() > 0 ==> action_for(name, m, wd)
            == ActionView::RunShell(m["command"@]),
        !m.contains_key("command"@) && m.contains_key("cmd"@) && m["cmd"@].len() > 0 ==> action_for(
            name,
            m,
            wd,
        ) == ActionView::RunShell(m["cmd"@]),
        action_for(name, m, wd) == action_for(other, m, wd),
{
    reveal_strlit("run_shell");
    reveal_strlit("shell");
    reveal_strlit("bash");
    reveal_strlit("read_file");
    reveal_strlit("write_file");
    assert("run_shell"@[1] != "read_file"@[1]);
    assert("run_shell"@.len() != "write_file"@.len());
    assert("shell"@.len() != "read_file"@.len() && "shell"@.len() != "write_file"@.len());
    assert("bash"@.len() != "read_file"@.len() && "bash"@.len() != "write_file"@.len());
    assert(name != "read_file"@ && name != "write_file"@);
    assert(other != "read_file"@ && other != "write_file"@);
}

/// The two names of the directory listing tool ask for the same work.
pub proof fn law_list_names_agree(m: Map<Seq<char>, Seq<char>>, wd: Seq<char>)
    ensures
        action_for("list_dir"@, m, wd) == action_for("list_directory"@, m, wd),
        action_for("list_dir"@, m, wd) == ActionView::ListDir(resolve_path(wd, arg_or(m, "path"@, "."@))),
{
    reveal_strlit("list_dir");
    reveal_strlit("list_directory");
    reveal_strlit("run_shell");
    reveal_strlit("shell");
    reveal_strlit("bash");
    reveal_strlit("read_file");
    reveal_strlit("write_file");
    assert("list_dir"@.len() != "read_file"@.len() && "list_dir"@.len() != "write_file"@.len());
    assert("list_directory"@.len() != "read_file"@.len());
    assert("list_directory"@.len() != "write_file"@.len());
    assert("list_dir"@ != "read_file"@ && "list_dir"@ != "write_file"@);
    assert("list_directory"@ != "read_file"@ && "list_directory"@ != "write_file"@);
    assert(!is_shell_tool("list_dir"@) && !is_shell_tool("list_directory"@));
}

/// The two names of the web search tool ask for the same work, a search for
/// the `query` argument (or else `q`) when it is not empty.
pub proof fn law_search_names_agree(m: Map<Seq<char>, Seq<char>>, wd: Seq<char>)
    ensures
        action_for("web_search"@, m, wd) == action_for("search"@, m, wd),
        m.contains_key("query"@) && m["query"@].len() > 0 ==> action_for("search"@, m, wd)
            == ActionView::WebSearch(m["query"@]),
{
    reveal_strlit("web_search");
    reveal_strlit("search");
    reveal_strlit("list_dir");
    reveal_strlit("list_directory");
    reveal_strlit("run_shell");
    reveal_strlit("shell");
    reveal_strlit("bash");
    reveal_strlit("read_file");
    reveal_strlit("write_file");
    assert("web_search"@.len() != "read_file"@.len() && "web_search"@[1] != "write_file"@[1]);
    assert("search"@.len() != "read_file"@.len() && "search"@.len() != "write_file"@.len());
    assert("web_search"@ != "read_file"@ && "web_search"@ != "write_file"@);
    assert("search"@ != "read_file"@ && "search"@ != "write_file"@);
    assert(!is_shell_tool("web_search"@) && !is_shell_tool("search"@));
    assert(!is_list_tool("web_search"@) && !is_list_tool("search"@));
}

/// `p` resolved under `wd`.
pub fn resolve(wd: &str, p: &str) -> (r: String)
    ensures
        r@ == resolve_path(wd@, p@),
{
    let pv = chars_of(p);
    if pv.len() > 0 && pv[0] == '/' {
        p.to_owned()
    } else {
        let mut v: Vec<char> = Vec::new();
        push_str(&mut v, wd);
        push_str(&mut v, "/");
        push_all(&mut v, pv.as_slice());
        string_of(v.as_slice())
    }
}

impl ToolAction {
    /// The action a tool call asks for, relative paths taken under `working_dir`.
    pub fn for_call(call: &ToolCall, working_dir: &str) -> (r: ToolAction)
        ensures
            r.view_action() == action_for(call.name@, call.args.map(), working_dir@),
    {
        let name = call.name.as_str();
        if str_eq(name, "read_file") {
            let p = call.args.get_or("path", "");
            if byte_len(p) == 0 {
                ToolAction::Reject { message: "Error: missing path arg".to_owned() }
            } else {
                ToolAction::ReadFile { path: resolve(working_dir, p) }
            }
        } else if str_eq(name, "write_file") {
            let p = call.args.get_or("path", "");
            let c = call.args.get_or("content", "");
            if byte_len(p) == 0 {
                ToolAction::Reject { message: "Error: missing path arg".to_owned() }
            } else {
                ToolAction::WriteFile { path: resolve(working_dir, p), content: c.to_owned() }
            }
        } else if str_eq(name, "run_shell") || str_eq(name, "shell") || str_eq(name, "bash") {
            let c = shell_command_of(&call.args, "");
            if byte_len(c) == 0 {
                ToolAction::Reject { message: "Error: missing command arg".to_owned() }
            } else {
                ToolAction::RunShell { command: c.to_owned() }
            }
        } else if str_eq(name, "list_dir") || str_eq(name, "list_directory") {
            ToolAction::ListDir { path: resolve(working_dir, call.args.get_or("path", ".")) }
        } else if str_eq(name, "web_search") || str_eq(name, "search") {
            let q = search_query_of(&call.args, "");
            if byte_len(q) == 0 {
                ToolAction::Reject { message: "Error: missing query arg".to_owned() }
            } else {
                ToolAction::WebSearch { query: q.to_owned() }
            }
        } else {
            ToolAction::Reject { message: labelled("Unknown tool: ", name) }
        }
    }

    /// The `(output, success)` a call reports once its work has given `outcome`:
    /// the work's own output and success, or the error after a prefix.
    pub fn finish(&self, outcome: Result<(String, bool), String>) -> (r: (String, bool))
        ensures
            r.0@ == (match self {
                ToolAction::Reject { message } => message@,
                _ => match outcome {
                    Ok(o) => o.0@,
                    Err(e) => (if self is WebSearch {
                        "Search error: "@
                    } else {
                        "Error: "@
                    }) + e@,
                },
            }),
            r.1 == (match self {
                ToolAction::Reject { .. } => false,
                _ => match outcome {
                    Ok(o) => o.1,
                    Err(_) => false,
                },
            }),
    {
        match self {
            ToolAction::Reject { message } => (message.clone(), false),
            ToolAction::WebSearch { .. } => match outcome {
                Ok(o) => o,
                Err(e) => (labelled("Search error: ", e.as_str()), false),
            },
            _ => match outcome {
                Ok(o) => o,
                Err(e) => (labelled("Error: ", e.as_str()), false),
            },
        }
    }
}

} // verus!
