//! What the screens show, as far as it is decided by text: shortened paths,
//! list labels, file kinds, markdown lines, tool cards, scrolling and the
//! input cursor. Drawing itself is the terminal library's.

use vstd::prelude::*;
use crate::app::{ChatEntry, EntryKind};
use crate::input::{cur, cur_k, on_boundary, InputBuffer};
use crate::text::{
    byte_len, byte_prefix, chars_of, find_first, find_in, fit_prefix_len, lemma_find_from,
    lemma_find_skip, lines, lines_of, push_all, push_str, slice_sub, starts_with, string_of,
    utf8_len, views,
};

verus! {

// ── Paths ────────────────────────────────────────────────────────────────────

/// The non-empty `/`-separated segments of a path.
pub open spec fn segments(s: Seq<char>) -> Seq<Seq<char>>
    decreases s.len(),
{
    match find_first(s, seq!['/']) {
        None => if s.len() > 0 {
            seq![s]
        } else {
            seq![]
        },
        Some(i) => {
            proof {
                lemma_find_from(s, seq!['/'], 0);
            }
            (if i > 0 {
                seq![s.take(i)]
            } else {
                seq![]
            }) + segments(s.skip(i + 1))
        },
    }
}

/// A path cut to its last two segments behind `…/` when it has more than two.
pub open spec fn short_path(p: Seq<char>) -> Seq<char> {
    let parts = segments(p);
    if parts.len() <= 2 {
        p
    } else {
        "…/"@ + parts[parts.len() - 2] + "/"@ + parts[parts.len() - 1]
    }
}

fn segments_of(s: &[char]) -> (r: Vec<Vec<char>>)
    ensures
        views(r@) == segments(s@),
{
    let mut r: Vec<Vec<char>> = Vec::new();
    let mut pos: usize = 0;
    let slash: [char; 1] = ['/'];
    assert(slash@ =~= seq!['/']);
    assert(s@.skip(0) =~= s@);
    loop
        invariant
            pos <= s@.len(),
            slash@ == seq!['/'],
            segments(s@) == views(r@) + segments(s@.skip(pos as int)),
        decreases s@.len() - pos,
    {
        let ghost rest = s@.skip(pos as int);
        let ghost before = views(r@);
        proof {
            lemma_find_skip(s@, seq!['/'], pos as int);
            lemma_find_from(s@, seq!['/'], pos as int);
        }
        match find_in(s, slash.as_slice(), pos) {
            None => {
                if pos < s.len() {
                    let seg = slice_sub(s, pos, s.len());
                    assert(seg@ =~= rest);
                    r.push(seg);
                    assert(views(r@) =~= before.push(rest));
                } else {
                    assert(rest.len() == 0);
                }
                assert(views(r@) =~= before + segments(rest));
                return r;
            },
            Some(i) => {
                assert(i < s.len());
                if i > pos {
                    let seg = slice_sub(s, pos, i);
                    assert(seg@ =~= rest.take(i - pos));
                    r.push(seg);
                    assert(views(r@) =~= before.push(rest.take(i - pos)));
                }
                assert(rest.skip(i - pos + 1) =~= s@.skip(i + 1));
                assert(views(r@) + segments(s@.skip(i + 1)) =~= before + segments(rest));
                pos = i + 1;
            },
        }
    }
}

/// The working directory as the status bar shows it.
pub fn shorten_path(path: &str) -> (r: String)
    ensures
        r@ == short_path(path@),
{
    let cs = chars_of(path);
    let parts = segments_of(cs.as_slice());
    let n = parts.len();
    if n <= 2 {
        return path.to_owned();
    }
    let mut v: Vec<char> = Vec::new();
    push_str(&mut v, "…/");
    push_all(&mut v, parts[n - 2].as_slice());
    push_str(&mut v, "/");
    push_all(&mut v, parts[n - 1].as_slice());
    string_of(v.as_slice())
}

/// The last `/`-separated part of a path (the whole path when there is no `/`).
pub open spec fn last_part(p: Seq<char>) -> Seq<char> {
    match crate::text::rfind_char(p, '/') {
        Some(i) => p.skip(i + 1),
        None => p,
    }
}

/// The directory name shown above the file tree.
pub fn dir_label(path: &str) -> (r: String)
    ensures
        r@ == last_part(path@),
{
    let cs = chars_of(path);
    match crate::text::rfind_in(cs.as_slice(), '/') {
        Some(i) => {
            proof {
                crate::text::lemma_rfind_char(cs@, '/');
            }
            let tail = slice_sub(cs.as_slice(), i + 1, cs.len());
            assert(tail@ =~= cs@.skip(i + 1));
            string_of(tail.as_slice())
        },
        None => path.to_owned(),
    }
}

// ── List labels ──────────────────────────────────────────────────────────────

/// A label of at most `max` bytes: longer ones cut to `max - 1` bytes and `…`.
pub open spec fn clipped_label(s: Seq<char>, max: nat) -> Seq<char> {
    if utf8_len(s) <= max {
        s
    } else {
        byte_prefix(s, if max >= 1 { max - 1 } else { 0 }) + "…"@
    }
}

/// A long label has a character boundary where it is cut.
pub open spec fn label_ok(s: Seq<char>, max: nat) -> bool {
    utf8_len(s) > max ==> utf8_len(byte_prefix(s, if max >= 1 { max - 1 } else { 0 })) == (if max
        >= 1 {
        max - 1
    } else {
        0
    })
}

/// Whether a label can be cut for the list (see `label_ok`).
pub fn label_fits(s: &str, max: usize) -> (b: bool)
    ensures
        b == label_ok(s@, max as nat),
{
    if byte_len(s) <= max {
        true
    } else {
        crate::text::cut_fits(s, max.saturating_sub(1))
    }
}

/// A session list label cut to `max` bytes.
pub fn truncate(s: &str, max: usize) -> (r: String)
    requires
        label_ok(s@, max as nat),
    ensures
        r@ == clipped_label(s@, max as nat),
{
    if byte_len(s) <= max {
        s.to_owned()
    } else {
        let cs = chars_of(s);
        let cut = max.saturating_sub(1);
        let k = fit_prefix_len(cs.as_slice(), cut);
        let mut v = slice_sub(cs.as_slice(), 0, k);
        assert(v@ =~= byte_prefix(s@, cut as int));
        push_str(&mut v, "…");
        string_of(v.as_slice())
    }
}

// ── File kinds ───────────────────────────────────────────────────────────────

/// The kind of a file, by extension, for its icon and color.
#[derive(Debug, Clone, Copy, PartialEq, Eq, Structural)]
pub enum FileKind {
    Rust,
    Python,
    JavaScript,
    TypeScript,
    Go,
    C,
    Cpp,
    Markdown,
    Config,
    Html,
    Css,
    Shell,
    Lock,
    Other,
}

pub open spec fn kind_of_ext(e: Seq<char>) -> FileKind {
    if e == "rs"@ {
        FileKind::Rust
    } else if e == "py"@ {
        FileKind::Python
    } else if e == "js"@ || e == "mjs"@ || e == "cjs"@ {
        FileKind::JavaScript
    } else if e == "ts"@ {
        FileKind::TypeScript
    } else if e == "go"@ {
        FileKind::Go
    } else if e == "c"@ || e == "h"@ {
        FileKind::C
    } else if e == "cpp"@ || e == "cxx"@ || e == "cc"@ {
        FileKind::Cpp
    } else if e == "md"@ {
        FileKind::Markdown
    } else if e == "toml"@ || e == "yaml"@ || e == "yml"@ || e == "json"@ {
        FileKind::Config
    } else if e == "html"@ || e == "htm"@ {
        FileKind::Html
    } else if e == "css"@ {
        FileKind::Css
    } else if e == "sh"@ || e == "bash"@ || e == "zsh"@ {
        FileKind::Shell
    } else if e == "lock"@ {
        FileKind::Lock
    } else {
        FileKind::Other
    }
}

/// The extension of a file name: after its last `.` (the whole name when it has none).
pub open spec fn extension(name: Seq<char>) -> Seq<char> {
    match crate::text::rfind_char(name, '.') {
        Some(i) => name.skip(i + 1),
        None => name,
    }
}

/// The kind of a file by the extension of its name.
pub fn file_icon(name: &str) -> (k: FileKind)
    ensures
        k == kind_of_ext(extension(name@)),
{
    let cs = chars_of(name);
    let ext = match crate::text::rfind_in(cs.as_slice(), '.') {
        Some(i) => {
            proof {
                crate::text::lemma_rfind_char(cs@, '.');
            }
            let tail = slice_sub(cs.as_slice(), i + 1, cs.len());
            assert(tail@ =~= cs@.skip(i + 1));
            string_of(tail.as_slice())
        },
        None => name.to_owned(),
    };
    let e = ext.as_str();
    let is = |lit: &str| -> (b: bool)
        ensures
            b == (e@ == lit@),
        { crate::text::str_eq(e, lit) };
    if is("rs") {
        FileKind::Rust
    } else if is("py") {
        FileKind::Python
    } else if is("js") || is("mjs") || is("cjs") {
        FileKind::JavaScript
    } else if is("ts") {
        FileKind::TypeScript
    } else if is("go") {
        FileKind::Go
    } else if is("c") || is("h") {
        FileKind::C
    } else if is("cpp") || is("cxx") || is("cc") {
        FileKind::Cpp
    } else if is("md") {
        FileKind::Markdown
    } else if is("toml") || is("yaml") || is("yml") || is("json") {
        FileKind::Config
    } else if is("html") || is("htm") {
        FileKind::Html
    } else if is("css") {
        FileKind::Css
    } else if is("sh") || is("bash") || is("zsh") {
        FileKind::Shell
    } else if is("lock") {
        FileKind::Lock
    } else {
        FileKind::Other
    }
}

} // verus!

verus! {

// ── Markdown ─────────────────────────────────────────────────────────────────

/// `s` with every occurrence of `pat`, left to right, replaced by `rep` (`str::replace`).
pub open spec fn replace_all(s: Seq<char>, pat: Seq<char>, rep: Seq<char>) -> Seq<char>
    decreases s.len(),
{
    if pat.len() == 0 {
        s
    } else {
        match find_first(s, pat) {
            None => s,
            Some(i) => {
                proof {
                    lemma_find_from(s, pat, 0);
                }
                s.take(i) + rep + replace_all(s.skip(i + pat.len()), pat, rep)
            },
        }
    }
}

fn replace_chars(s: &[char], pat: &[char], rep: &[char]) -> (r: Vec<char>)
    requires
        pat@.len() > 0,
    ensures
        r@ == replace_all(s@, pat@, rep@),
{
    let mut out: Vec<char> = Vec::new();
    let mut pos: usize = 0;
    assert(s@.skip(0) =~= s@);
    loop
        invariant
            pos <= s@.len(),
            pat@.len() > 0,
            replace_all(s@, pat@, rep@) == out@ + replace_all(s@.skip(pos as int), pat@, rep@),
        decreases s@.len() - pos,
    {
        let ghost rest = s@.skip(pos as int);
        proof {
            lemma_find_skip(s@, pat@, pos as int);
            lemma_find_from(s@, pat@, pos as int);
        }
        match find_in(s, pat, pos) {
            None => {
                let tail = slice_sub(s, pos, s.len());
                assert(tail@ =~= rest);
                push_all(&mut out, tail.as_slice());
                return out;
            },
            Some(i) => {
                assert(i + pat@.len() <= s.len());
                let head = slice_sub(s, pos, i);
                assert(head@ =~= rest.take(i - pos));
                let ghost before = out@;
                push_all(&mut out, head.as_slice());
                push_all(&mut out, rep);
                assert(rest.skip(i - pos + pat@.len()) =~= s@.skip(i + pat@.len()));
                assert(out@ + replace_all(s@.skip(i + pat@.len()), pat@, rep@) =~= before
                    + replace_all(rest, pat@, rep@));
                pos = i + pat.len();
            },
        }
    }
}

/// Inline markdown flattened: bold and underline markers dropped, backticks as quotes.
pub open spec fn inline_text(s: Seq<char>) -> Seq<char> {
    replace_all(replace_all(replace_all(s, "**"@, seq![]), "__"@, seq![]), seq!['`'], seq!['\''])
}

/// The text of a line with its inline markdown flattened.
pub fn render_inline_markdown(text: &str) -> (r: String)
    ensures
        r@ == inline_text(text@),
{
    let cs = chars_of(text);
    let bold = chars_of("**");
    let under = chars_of("__");
    proof {
        reveal_strlit("**");
        reveal_strlit("__");
    }
    let empty: Vec<char> = Vec::new();
    let a = replace_chars(cs.as_slice(), bold.as_slice(), empty.as_slice());
    let b = replace_chars(a.as_slice(), under.as_slice(), empty.as_slice());
    let tick: [char; 1] = ['`'];
    let quote: [char; 1] = ['\''];
    assert(tick@ =~= seq!['`']);
    assert(quote@ =~= seq!['\'']);
    assert(empty@ =~= Seq::<char>::empty());
    let c = replace_chars(b.as_slice(), tick.as_slice(), quote.as_slice());
    string_of(c.as_slice())
}

/// One shown line of a message.
#[derive(Debug, Clone)]
pub enum MdLine {
    /// A code block opens, with its language (or `code`).
    CodeStart(String),
    /// A code block closes.
    CodeEnd,
    /// A line inside a code block, as written.
    Code(String),
    /// A `# ` heading.
    Heading1(String),
    /// A `## ` heading.
    Heading2(String),
    /// Any other line, inline markdown flattened.
    Text(String),
}

/// A shown line as plain values.
pub enum MdView {
    CodeStart(Seq<char>),
    CodeEnd,
    Code(Seq<char>),
    Heading1(Seq<char>),
    Heading2(Seq<char>),
    Text(Seq<char>),
}

impl MdLine {
    /// A copy of this line.
    pub fn duplicate(&self) -> (r: Self)
        ensures
            r.view_md() == self.view_md(),
    {
        match self {
            MdLine::CodeStart(s) => MdLine::CodeStart(s.clone()),
            MdLine::CodeEnd => MdLine::CodeEnd,
            MdLine::Code(s) => MdLine::Code(s.clone()),
            MdLine::Heading1(s) => MdLine::Heading1(s.clone()),
            MdLine::Heading2(s) => MdLine::Heading2(s.clone()),
            MdLine::Text(s) => MdLine::Text(s.clone()),
        }
    }

    pub open spec fn view_md(&self) -> MdView {
        match self {
            MdLine::CodeStart(s) => MdView::CodeStart(s@),
            MdLine::CodeEnd => MdView::CodeEnd,
            MdLine::Code(s) => MdView::Code(s@),
            MdLine::Heading1(s) => MdView::Heading1(s@),
            MdLine::Heading2(s) => MdView::Heading2(s@),
            MdLine::Text(s) => MdView::Text(s@),
        }
    }
}

pub open spec fn begins(s: Seq<char>, p: Seq<char>) -> bool {
    p.len() <= s.len() && s.take(p.len() as int) == p
}

/// The label of a code fence: its language, or `code`.
pub open spec fn fence_label(raw: Seq<char>) -> Seq<char> {
    let lang = crate::planner::strip_leading(raw, seq!['`']);
    if lang.len() == 0 {
        "code"@
    } else {
        lang
    }
}

/// The shown lines of `ls`, `in_code` telling whether a code block is open.
pub open spec fn md_lines(ls: Seq<Seq<char>>, in_code: bool) -> Seq<MdView>
    decreases ls.len(),
{
    if ls.len() == 0 {
        seq![]
    } else {
        let raw = ls[0];
        let rest = ls.drop_first();
        if begins(raw, "```"@) {
            if in_code {
                seq![MdView::CodeEnd] + md_lines(rest, false)
            } else {
                seq![MdView::CodeStart(fence_label(raw))] + md_lines(rest, true)
            }
        } else if in_code {
            seq![MdView::Code(raw)] + md_lines(rest, true)
        } else if begins(raw, "# "@) {
            seq![MdView::Heading1(raw.skip(2))] + md_lines(rest, false)
        } else if begins(raw, "## "@) {
            seq![MdView::Heading2(raw.skip(3))] + md_lines(rest, false)
        } else {
            seq![MdView::Text(inline_text(raw))] + md_lines(rest, false)
        }
    }
}

pub open spec fn md_views(v: Seq<MdLine>) -> Seq<MdView> {
    v.map_values(|l: MdLine| l.view_md())
}

/// The shown lines of a message body.
pub fn render_markdown_lines(content: &str) -> (r: Vec<MdLine>)
    ensures
        md_views(r@) == md_lines(lines(content@), false),
{
    let cs = chars_of(content);
    let ls = lines_of(cs.as_slice());
    let ghost lv = views(ls@);
    let fence = chars_of("```");
    let h1 = chars_of("# ");
    let h2 = chars_of("## ");
    proof {
        reveal_strlit("# ");
        reveal_strlit("## ");
    }
    let tick: [char; 1] = ['`'];
    assert(tick@ =~= seq!['`']);
    let mut out: Vec<MdLine> = Vec::new();
    let mut in_code = false;
    assert(lv.skip(0) =~= lv);
    for i in 0..ls.len()
        invariant
            lv == views(ls@),
            lv.len() == ls@.len(),
            fence@ == "```"@,
            h1@ == "# "@,
            h2@ == "## "@,
            h1@.len() == 2,
            h2@.len() == 3,
            tick@ == seq!['`'],
            md_lines(lv, false) == md_views(out@) + md_lines(lv.skip(i as int), in_code),
    {
        let ghost was = in_code;
        let raw = ls[i].as_slice();
        assert(lv[i as int] == raw@);
        assert(lv.skip(i as int)[0] == raw@);
        assert(lv.skip(i as int).drop_first() =~= lv.skip(i + 1));
        let ghost before = md_views(out@);
        let line = if starts_with(raw, fence.as_slice()) {
            if in_code {
                in_code = false;
                MdLine::CodeEnd
            } else {
                in_code = true;
                let lang = crate::planner::strip_leading_chars(slice_sub(raw, 0, raw.len()), tick.as_slice());
                assert(raw@.subrange(0, raw@.len() as int) =~= raw@);
                if lang.len() == 0 {
                    MdLine::CodeStart("code".to_owned())
                } else {
                    MdLine::CodeStart(string_of(lang.as_slice()))
                }
            }
        } else if in_code {
            MdLine::Code(string_of(raw))
        } else if starts_with(raw, h1.as_slice()) {
            let t = slice_sub(raw, 2, raw.len());
            assert(t@ =~= raw@.skip(2));
            MdLine::Heading1(string_of(t.as_slice()))
        } else if starts_with(raw, h2.as_slice()) {
            let t = slice_sub(raw, 3, raw.len());
            assert(t@ =~= raw@.skip(3));
            MdLine::Heading2(string_of(t.as_slice()))
        } else {
            MdLine::Text(render_inline_markdown(string_of(raw).as_str()))
        };
        let ghost lview = line.view_md();
        out.push(line);
        assert(md_views(out@) =~= before.push(lview));
        assert(before.push(lview) + md_lines(lv.skip(i + 1), in_code) =~= before
            + md_lines(lv.skip(i as int), was));
    }
    assert(lv.skip(ls@.len() as int) =~= Seq::<Seq<char>>::empty());
    assert(md_views(out@) + Seq::<MdView>::empty() =~= md_views(out@));
    out
}

} // verus!

verus! {

// ── Tool cards, scrolling, status, cursor ───────────────────────────────────

/// A tool card's label (its first line) and output lines.
pub fn tool_card_parts(content: &str) -> (r: (String, Vec<String>))
    ensures
        r.0@ == (if lines(content@).len() > 0 {
            lines(content@)[0]
        } else {
            seq![]
        }),
        r.1@.map_values(|s: String| s@) == (if lines(content@).len() > 0 {
            lines(content@).drop_first()
        } else {
            seq![]
        }),
{
    let cs = chars_of(content);
    let ls = lines_of(cs.as_slice());
    let ghost lv = views(ls@);
    if ls.len() == 0 {
        let e: Vec<String> = Vec::new();
        assert(e@.map_values(|s: String| s@) =~= Seq::<Seq<char>>::empty());
        return (String::new(), e);
    }
    let label = string_of(ls[0].as_slice());
    let mut rest: Vec<String> = Vec::new();
    let mut i: usize = 1;
    while i < ls.len()
        invariant
            1 <= i <= ls@.len(),
            lv == views(ls@),
            rest@.map_values(|s: String| s@) == lv.subrange(1, i as int),
        decreases ls@.len() - i,
    {
        let ghost before = rest@.map_values(|s: String| s@);
        rest.push(string_of(ls[i].as_slice()));
        assert(rest@.map_values(|s: String| s@) =~= before.push(lv[i as int]));
        assert(lv.subrange(1, i + 1) =~= lv.subrange(1, i as int).push(lv[i as int]));
        i = i + 1;
    }
    assert(lv.subrange(1, ls@.len() as int) =~= lv.drop_first());
    (label, rest)
}

pub open spec fn sat_sub16(a: u16, b: u16) -> u16 {
    if a >= b {
        (a - b) as u16
    } else {
        0
    }
}

/// The first shown line of the chat: following the end, or where the user
/// scrolled, never past the end.
pub open spec fn scroll_at(scroll: u16, content_height: u16, view_height: u16) -> u16 {
    let last = sat_sub16(content_height, view_height);
    if scroll == u16::MAX {
        last
    } else if scroll <= last {
        scroll
    } else {
        last
    }
}

/// Where the chat view starts.
pub fn effective_scroll(scroll: u16, content_height: u16, view_height: u16) -> (r: u16)
    ensures
        r == scroll_at(scroll, content_height, view_height),
{
    let last = content_height.saturating_sub(view_height);
    if scroll == u16::MAX {
        last
    } else if scroll <= last {
        scroll
    } else {
        last
    }
}

/// The last offset at which the end of `content_height` lines still fills a
/// view of `view_height` lines.
pub fn scroll_limit(content_height: u16, view_height: u16) -> (r: u16)
    ensures
        r == sat_sub16(content_height, view_height),
{
    content_height.saturating_sub(view_height)
}

/// The most input lines shown at once.
pub const MAX_INPUT_DISPLAY_LINES: u16 = 8;

/// The height of the input box: its lines, between one and
/// `MAX_INPUT_DISPLAY_LINES`, and a border line above and below.
pub fn input_box_height(line_count: usize) -> (r: u16)
    ensures
        r == (if line_count < 1 {
            1
        } else if line_count > MAX_INPUT_DISPLAY_LINES {
            MAX_INPUT_DISPLAY_LINES as int
        } else {
            line_count as int
        }) + 2,
{
    let shown: u16 = if line_count < 1 {
        1
    } else if line_count > 8 {
        MAX_INPUT_DISPLAY_LINES
    } else {
        line_count as u16
    };
    shown + 2
}

/// The shade of the status line.
#[derive(Debug, Clone, Copy, PartialEq, Eq, Structural)]
pub enum StatusTone {
    Error,
    Busy,
    Calm,
}

/// Errors show as errors, a running agent as busy, anything else calm.
pub fn status_tone(status: &str, streaming: bool) -> (t: StatusTone)
    ensures
        t == (if begins(status@, "Error"@) {
            StatusTone::Error
        } else if streaming {
            StatusTone::Busy
        } else {
            StatusTone::Calm
        }),
{
    let cs = chars_of(status);
    let p = chars_of("Error");
    if starts_with(cs.as_slice(), p.as_slice()) {
        StatusTone::Error
    } else if streaming {
        StatusTone::Busy
    } else {
        StatusTone::Calm
    }
}

/// The line shown while the agent works without streamed text yet.
pub fn working_label(label: &str) -> (r: String)
    ensures
        r@ == (if label@.len() == 0 {
            "⟳ Working…"@
        } else {
            "⟳ "@ + label@
        }),
{
    if byte_len(label) == 0 {
        "⟳ Working…".to_owned()
    } else {
        let mut v: Vec<char> = Vec::new();
        push_str(&mut v, "⟳ ");
        push_str(&mut v, label);
        string_of(v.as_slice())
    }
}

/// The width in terminal columns that unicode-width gives a text.
pub uninterp spec fn text_width(s: Seq<char>) -> nat;

/// `UnicodeWidthStr::width`: the text's display width in columns, a function
/// of the text alone.
#[verifier::external_body]
fn display_width(s: &str) -> (n: usize)
    ensures
        n == text_width(s@),
{
    unicode_width::UnicodeWidthStr::width(s)
}

pub open spec fn min16(a: int, b: int) -> int {
    if a <= b {
        a
    } else {
        b
    }
}

/// The terminal cell of the input cursor in a box at `(x, y)` of `w` by `h`
/// cells: `col_width` columns into row `row`, kept inside the box.
pub open spec fn cursor_at(x: u16, y: u16, w: u16, h: u16, col_width: usize, row: usize) -> (u16, u16) {
    (
        min16(x + (col_width as u16), x + sat_sub16(w, 1)) as u16,
        min16(y + (row as u16), y + sat_sub16(h, 1)) as u16,
    )
}

/// The cursor position fits the terminal's coordinates.
pub open spec fn cursor_fits(x: u16, y: u16, w: u16, h: u16, col_width: usize, row: usize) -> bool {
    &&& x + (col_width as u16) <= u16::MAX
    &&& x + sat_sub16(w, 1) <= u16::MAX
    &&& y + (row as u16) <= u16::MAX
    &&& y + sat_sub16(h, 1) <= u16::MAX
}

/// The terminal cell of the input cursor.
pub fn cursor_cell(x: u16, y: u16, w: u16, h: u16, col_width: usize, row: usize) -> (r: (u16, u16))
    requires
        cursor_fits(x, y, w, h, col_width, row),
    ensures
        r == cursor_at(x, y, w, h, col_width, row),
{
    let cx = x + (col_width as u16);
    let mx = x + w.saturating_sub(1);
    let cy = y + (row as u16);
    let my = y + h.saturating_sub(1);
    (
        if cx <= mx {
            cx
        } else {
            mx
        },
        if cy <= my {
            cy
        } else {
            my
        },
    )
}

/// The terminal cell of the input's cursor, or `None` where the position
/// does not fit the terminal's coordinates.
pub fn input_cursor(input: &InputBuffer, x: u16, y: u16, w: u16, h: u16) -> (r: Option<(u16, u16)>)
    requires
        on_boundary(input.view_buf()),
    ensures
        ({
            let v = input.view_buf();
            let cw = text_width(cur(v).take(cur_k(v)));
            match r {
                Some(c) => cw <= usize::MAX && cursor_fits(x, y, w, h, cw as usize, input.row) && c
                    == cursor_at(x, y, w, h, cw as usize, input.row),
                None => !(cw <= usize::MAX && cursor_fits(x, y, w, h, cw as usize, input.row)),
            }
        }),
{
    let ghost v = input.view_buf();
    let line = chars_of(input.lines[input.row].as_str());
    let k = fit_prefix_len(line.as_slice(), input.col);
    let before = slice_sub(line.as_slice(), 0, k);
    assert(before@ =~= cur(v).take(cur_k(v)));
    let cw = display_width(string_of(before.as_slice()).as_str());
    let cx = cw as u16;
    let ry = input.row as u16;
    let mw = w.saturating_sub(1);
    let mh = h.saturating_sub(1);
    if x <= u16::MAX - cx && x <= u16::MAX - mw && y <= u16::MAX - ry && y <= u16::MAX - mh {
        Some(cursor_cell(x, y, w, h, cw, input.row))
    } else {
        None
    }
}


// ── The chat's lines ─────────────────────────────────────────────────────────

/// Whose text a chat line belongs to.
#[derive(Debug, Clone, Copy, PartialEq, Eq, Structural)]
pub enum Speaker {
    User,
    Assistant,
}

/// One line of the chat view, before it is styled.
#[derive(Debug, Clone)]
pub enum ChatLine {
    /// The head of an entry: who wrote it, and when.
    Header { speaker: Speaker, timestamp: i64 },
    /// The head of the reply being streamed.
    StreamingHeader,
    /// A line of an entry's body.
    Body { speaker: Speaker, line: MdLine },
    /// The label of a tool card.
    CardLabel { label: String, success: bool },
    /// A line of a tool card's output.
    CardOutput { text: String, success: bool },
    /// The bottom of a tool card.
    CardEnd { success: bool },
    /// The bottom of an entry.
    Rule,
    /// An empty line.
    Blank,
    /// The note shown while the agent works and nothing is streamed yet.
    Working(String),
}

/// A chat line as plain values.
pub enum ChatLineView {
    Header(Speaker, i64),
    StreamingHeader,
    Body(Speaker, MdView),
    CardLabel(Seq<char>, bool),
    CardOutput(Seq<char>, bool),
    CardEnd(bool),
    Rule,
    Blank,
    Working(Seq<char>),
}

impl ChatLine {
    pub open spec fn view_line(&self) -> ChatLineView {
        match self {
            ChatLine::Header { speaker, timestamp } => ChatLineView::Header(*speaker, *timestamp),
            ChatLine::StreamingHeader => ChatLineView::StreamingHeader,
            ChatLine::Body { speaker, line } => ChatLineView::Body(*speaker, line.view_md()),
            ChatLine::CardLabel { label, success } => ChatLineView::CardLabel(label@, *success),
            ChatLine::CardOutput { text, success } => ChatLineView::CardOutput(text@, *success),
            ChatLine::CardEnd { success } => ChatLineView::CardEnd(*success),
            ChatLine::Rule => ChatLineView::Rule,
            ChatLine::Blank => ChatLineView::Blank,
            ChatLine::Working(t) => ChatLineView::Working(t@),
        }
    }
}

pub open spec fn line_views(v: Seq<ChatLine>) -> Seq<ChatLineView> {
    v.map_values(|l: ChatLine| l.view_line())
}

/// The body of a message: its markdown lines.
pub open spec fn body_lines(sp: Speaker, content: Seq<char>) -> Seq<ChatLineView> {
    md_lines(lines(content), false).map_values(|m: MdView| ChatLineView::Body(sp, m))
}

/// A tool card: its label, its output lines, its bottom and a blank line.
pub open spec fn card_lines(content: Seq<char>, success: bool) -> Seq<ChatLineView> {
    let ls = lines(content);
    let label = if ls.len() > 0 {
        ls[0]
    } else {
        seq![]
    };
    let outs = if ls.len() > 0 {
        ls.drop_first()
    } else {
        seq![]
    };
    seq![ChatLineView::CardLabel(label, success)] + outs.map_values(
        |o: Seq<char>| ChatLineView::CardOutput(o, success),
    ) + seq![ChatLineView::CardEnd(success), ChatLineView::Blank]
}

/// A message: its head, its body, its bottom and a blank line.
pub open spec fn message_lines(sp: Speaker, content: Seq<char>, timestamp: i64) -> Seq<ChatLineView> {
    seq![ChatLineView::Header(sp, timestamp)] + body_lines(sp, content) + seq![
        ChatLineView::Rule,
        ChatLineView::Blank,
    ]
}

/// The lines of one chat entry.
pub open spec fn entry_lines(e: ChatEntry) -> Seq<ChatLineView> {
    match e.kind {
        EntryKind::Tool { success } => card_lines(e.content@, success),
        EntryKind::User => message_lines(Speaker::User, e.content@, e.timestamp),
        EntryKind::Assistant => message_lines(Speaker::Assistant, e.content@, e.timestamp),
    }
}

/// The lines of a chat log, entry after entry.
pub open spec fn log_lines(log: Seq<ChatEntry>) -> Seq<ChatLineView>
    decreases log.len(),
{
    if log.len() == 0 {
        seq![]
    } else {
        log_lines(log.drop_last()) + entry_lines(log.last())
    }
}

/// What follows the log while the agent works: the reply streamed so far,
/// or a note with what it is doing.
pub open spec fn tail_lines(streaming: bool, buffer: Seq<char>, label: Seq<char>) -> Seq<ChatLineView> {
    if !streaming {
        seq![]
    } else if buffer.len() > 0 {
        seq![ChatLineView::StreamingHeader] + body_lines(Speaker::Assistant, buffer)
    } else {
        seq![
            ChatLineView::Working(
                if label.len() == 0 {
                    "⟳ Working…"@
                } else {
                    "⟳ "@ + label
                },
            ),
        ]
    }
}

fn push_body(out: &mut Vec<ChatLine>, sp: Speaker, content: &str)
    ensures
        line_views(final(out)@) == line_views(old(out)@) + body_lines(sp, content@),
{
    let md = render_markdown_lines(content);
    let ghost v0 = line_views(out@);
    let ghost mv = md_views(md@);
    for i in 0..md.len()
        invariant
            mv == md_views(md@),
            mv == md_lines(lines(content@), false),
            line_views(out@) == v0 + mv.take(i as int).map_values(|m: MdView| ChatLineView::Body(sp, m)),
    {
        let ghost before = line_views(out@);
        let line = md[i].duplicate();
        out.push(ChatLine::Body { speaker: sp, line });
        assert(line_views(out@) =~= before.push(ChatLineView::Body(sp, mv[i as int])));
        assert(mv.take(i + 1).map_values(|m: MdView| ChatLineView::Body(sp, m)) =~= mv.take(
            i as int,
        ).map_values(|m: MdView| ChatLineView::Body(sp, m)).push(ChatLineView::Body(sp, mv[i as int])));
    }
    assert(mv.take(md@.len() as int) =~= mv);
}

fn push_card(out: &mut Vec<ChatLine>, content: &str, success: bool)
    ensures
        line_views(final(out)@) == line_views(old(out)@) + card_lines(content@, success),
{
    let ghost v0 = line_views(out@);
    let (label, rest) = tool_card_parts(content);
    let ghost outs = rest@.map_values(|s: String| s@);
    out.push(ChatLine::CardLabel { label, success });
    let ghost v1 = line_views(out@);
    assert(v1 =~= v0 + seq![ChatLineView::CardLabel(label@, success)]);
    for i in 0..rest.len()
        invariant
            outs == rest@.map_values(|s: String| s@),
            line_views(out@) == v1 + outs.take(i as int).map_values(
                |o: Seq<char>| ChatLineView::CardOutput(o, success),
            ),
    {
        let ghost before = line_views(out@);
        out.push(ChatLine::CardOutput { text: rest[i].clone(), success });
        assert(line_views(out@) =~= before.push(ChatLineView::CardOutput(outs[i as int], success)));
        assert(outs.take(i + 1).map_values(|o: Seq<char>| ChatLineView::CardOutput(o, success))
            =~= outs.take(i as int).map_values(|o: Seq<char>| ChatLineView::CardOutput(o, success)).push(
            ChatLineView::CardOutput(outs[i as int], success),
        ));
    }
    assert(outs.take(rest@.len() as int) =~= outs);
    let ghost v2 = line_views(out@);
    out.push(ChatLine::CardEnd { success });
    out.push(ChatLine::Blank);
    assert(line_views(out@) =~= v2 + seq![ChatLineView::CardEnd(success), ChatLineView::Blank]);
    assert(line_views(out@) =~= v0 + card_lines(content@, success));
}

fn push_message(out: &mut Vec<ChatLine>, sp: Speaker, content: &str, timestamp: i64)
    ensures
        line_views(final(out)@) == line_views(old(out)@) + message_lines(sp, content@, timestamp),
{
    let ghost v0 = line_views(out@);
    out.push(ChatLine::Header { speaker: sp, timestamp });
    let ghost v1 = line_views(out@);
    assert(v1 =~= v0 + seq![ChatLineView::Header(sp, timestamp)]);
    push_body(out, sp, content);
    let ghost v2 = line_views(out@);
    out.push(ChatLine::Rule);
    out.push(ChatLine::Blank);
    assert(line_views(out@) =~= v2 + seq![ChatLineView::Rule, ChatLineView::Blank]);
    assert(line_views(out@) =~= v0 + message_lines(sp, content@, timestamp));
}

/// The chat view's lines: every entry of the log, then what the agent is
/// doing while it works.
pub fn chat_lines(log: &[ChatEntry], streaming: bool, buffer: &str, label: &str) -> (r: Vec<ChatLine>)
    ensures
        line_views(r@) == log_lines(log@) + tail_lines(streaming, buffer@, label@),
{
    let mut out: Vec<ChatLine> = Vec::new();
    for i in 0..log.len()
        invariant
            line_views(out@) == log_lines(log@.take(i as int)),
    {
        let e = &log[i];
        let ghost before = line_views(out@);
        match e.kind {
            EntryKind::Tool { success } => {
                push_card(&mut out, e.content.as_str(), success);
            },
            EntryKind::User => {
                push_message(&mut out, Speaker::User, e.content.as_str(), e.timestamp);
            },
            EntryKind::Assistant => {
                push_message(&mut out, Speaker::Assistant, e.content.as_str(), e.timestamp);
            },
        }
        assert(line_views(out@) =~= before + entry_lines(log@[i as int]));
        assert(log@.take(i + 1).drop_last() =~= log@.take(i as int));
    }
    assert(log@.take(log@.len() as int) =~= log@);
    let ghost before = line_views(out@);
    if streaming {
        if byte_len(buffer) > 0 {
            out.push(ChatLine::StreamingHeader);
            push_body(&mut out, Speaker::Assistant, buffer);
        } else {
            out.push(ChatLine::Working(working_label(label)));
        }
    }
    assert(line_views(out@) =~= before + tail_lines(streaming, buffer@, label@));
    out
}


// ── Drawn texts ──────────────────────────────────────────────────────────────

pub open spec fn text_views(v: Seq<String>) -> Seq<Seq<char>> {
    v.map_values(|t: String| t@)
}

/// The texts of a markdown line's spans, as drawn: fences as a box corner
/// with the language, code behind a bar, headings and text indented.
pub open spec fn md_span_texts(m: MdView) -> Seq<Seq<char>> {
    match m {
        MdView::CodeStart(l) => seq!["  ┌── "@ + l + " "@],
        MdView::CodeEnd => seq!["  └─────────────────────────────────"@],
        MdView::Code(c) => seq!["  │ "@, c],
        MdView::Heading1(h) => seq!["  "@ + h],
        MdView::Heading2(h) => seq!["  "@ + h],
        MdView::Text(t) => seq!["  "@, t],
    }
}

/// The texts of a chat line's spans, as drawn; `time` is the entry's time
/// as the header shows it.
pub open spec fn line_span_texts(l: ChatLineView, time: Seq<char>) -> Seq<Seq<char>> {
    match l {
        ChatLineView::Header(sp, _) => seq![
            match sp {
                Speaker::User => "╭─ You "@,
                Speaker::Assistant => "╭─ Assistant "@,
            },
            time,
        ],
        ChatLineView::StreamingHeader => seq!["╭─ Assistant "@, "⟳ streaming…"@],
        ChatLineView::Body(_, m) => md_span_texts(m),
        ChatLineView::CardLabel(label, _) => seq!["  ┌─ "@, label],
        ChatLineView::CardOutput(t, _) => seq!["  │ "@, t],
        ChatLineView::CardEnd(_) => seq!["  └──────────────────────────────────────"@],
        ChatLineView::Rule => seq!["╰──────────────────────────────────────"@],
        ChatLineView::Blank => seq![],
        ChatLineView::Working(t) => seq!["  "@ + t],
    }
}

fn concat3(a: &str, b: &str, c: &str) -> (r: String)
    ensures
        r@ == a@ + b@ + c@,
{
    let mut v: Vec<char> = Vec::new();
    push_str(&mut v, a);
    push_str(&mut v, b);
    push_str(&mut v, c);
    string_of(v.as_slice())
}

fn concat2(a: &str, b: &str) -> (r: String)
    ensures
        r@ == a@ + b@,
{
    let mut v: Vec<char> = Vec::new();
    push_str(&mut v, a);
    push_str(&mut v, b);
    string_of(v.as_slice())
}

fn one(a: String) -> (r: Vec<String>)
    ensures
        text_views(r@) == seq![a@],
{
    let mut r: Vec<String> = Vec::new();
    r.push(a);
    assert(text_views(r@) =~= seq![a@]);
    r
}

fn two(a: String, b: String) -> (r: Vec<String>)
    ensures
        text_views(r@) == seq![a@, b@],
{
    let mut r: Vec<String> = Vec::new();
    r.push(a);
    r.push(b);
    assert(text_views(r@) =~= seq![a@, b@]);
    r
}

/// The texts of a markdown line's spans.
pub fn md_spans(line: &MdLine) -> (r: Vec<String>)
    ensures
        text_views(r@) == md_span_texts(line.view_md()),
{
    match line {
        MdLine::CodeStart(l) => one(concat3("  ┌── ", l.as_str(), " ")),
        MdLine::CodeEnd => one("  └─────────────────────────────────".to_owned()),
        MdLine::Code(c) => two("  │ ".to_owned(), c.clone()),
        MdLine::Heading1(h) => one(concat2("  ", h.as_str())),
        MdLine::Heading2(h) => one(concat2("  ", h.as_str())),
        MdLine::Text(t) => two("  ".to_owned(), t.clone()),
    }
}

/// The texts of a chat line's spans; `time` is the header's time text.
pub fn line_spans(line: &ChatLine, time: &str) -> (r: Vec<String>)
    ensures
        text_views(r@) == line_span_texts(line.view_line(), time@),
{
    match line {
        ChatLine::Header { speaker, .. } => {
            let who = match speaker {
                Speaker::User => "╭─ You ",
                Speaker::Assistant => "╭─ Assistant ",
            };
            two(who.to_owned(), time.to_owned())
        },
        ChatLine::StreamingHeader => two("╭─ Assistant ".to_owned(), "⟳ streaming…".to_owned()),
        ChatLine::Body { line, .. } => md_spans(line),
        ChatLine::CardLabel { label, .. } => two("  ┌─ ".to_owned(), label.clone()),
        ChatLine::CardOutput { text, .. } => two("  │ ".to_owned(), text.clone()),
        ChatLine::CardEnd { .. } => one("  └──────────────────────────────────────".to_owned()),
        ChatLine::Rule => one("╰──────────────────────────────────────".to_owned()),
        ChatLine::Blank => {
            let r: Vec<String> = Vec::new();
            assert(text_views(r@) =~= Seq::<Seq<char>>::empty());
            r
        },
        ChatLine::Working(t) => one(concat2("  ", t.as_str())),
    }
}

} // verus!
