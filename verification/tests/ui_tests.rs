use ocode::ui::{input_box_height, label_fits, line_spans, md_spans, scroll_limit};
use ocode::ai::Role;
use ocode::app::ChatEntry;
use ocode::input::InputBuffer;
use ocode::ui::{
    chat_lines, cursor_cell, dir_label, effective_scroll, file_icon, input_cursor, render_inline_markdown,
    render_markdown_lines, shorten_path, status_tone, tool_card_parts, truncate, working_label,
    ChatLine, FileKind, MdLine, StatusTone,
};

fn md(line: &MdLine) -> String {
    match line {
        MdLine::CodeStart(l) => format!("start:{l}"),
        MdLine::CodeEnd => "end".to_string(),
        MdLine::Code(c) => format!("code:{c}"),
        MdLine::Heading1(h) => format!("h1:{h}"),
        MdLine::Heading2(h) => format!("h2:{h}"),
        MdLine::Text(t) => format!("text:{t}"),
    }
}

#[test]
fn shorten_path_keeps_last_two_parts() {
    assert_eq!(shorten_path("/home/user/projects/ocode"), "…/projects/ocode");
    assert_eq!(shorten_path("/home/user"), "/home/user");
    assert_eq!(shorten_path("a//b/"), "a//b/");
    assert_eq!(shorten_path("/a/b/c/"), "…/b/c");
    assert_eq!(shorten_path(""), "");
}

#[test]
fn dir_label_is_last_part() {
    assert_eq!(dir_label("/home/user/proj"), "proj");
    assert_eq!(dir_label("proj"), "proj");
    assert_eq!(dir_label("/home/"), "");
}

#[test]
fn truncate_labels() {
    assert_eq!(truncate("short", 10), "short");
    assert_eq!(truncate("a long session name", 8), "a long …");
    assert_eq!(truncate("exact", 5), "exact");
}

#[test]
fn file_kinds_by_extension() {
    assert_eq!(file_icon("main.rs"), FileKind::Rust);
    assert_eq!(file_icon("a.tar.py"), FileKind::Python);
    assert_eq!(file_icon("x.mjs"), FileKind::JavaScript);
    assert_eq!(file_icon("x.ts"), FileKind::TypeScript);
    assert_eq!(file_icon("x.go"), FileKind::Go);
    assert_eq!(file_icon("x.h"), FileKind::C);
    assert_eq!(file_icon("x.cc"), FileKind::Cpp);
    assert_eq!(file_icon("README.md"), FileKind::Markdown);
    assert_eq!(file_icon("Cargo.toml"), FileKind::Config);
    assert_eq!(file_icon("index.htm"), FileKind::Html);
    assert_eq!(file_icon("s.css"), FileKind::Css);
    assert_eq!(file_icon("run.zsh"), FileKind::Shell);
    assert_eq!(file_icon("Cargo.lock"), FileKind::Lock);
    assert_eq!(file_icon("Makefile"), FileKind::Other);
    assert_eq!(file_icon("rs"), FileKind::Rust);
}

#[test]
fn inline_markdown_flattened() {
    assert_eq!(render_inline_markdown("**bold** and __under__ `code`"), "bold and under 'code'");
    assert_eq!(render_inline_markdown("plain"), "plain");
    assert_eq!(render_inline_markdown("***x"), "*x");
}

#[test]
fn markdown_lines() {
    let content = "# Title\n## Sub\nsome **text**\n```rust\nlet x = 1; // **raw**\n```\n```\n# not heading\n```";
    let shown: Vec<String> = render_markdown_lines(content).iter().map(md).collect();
    assert_eq!(
        shown,
        vec![
            "h1:Title",
            "h2:Sub",
            "text:some text",
            "start:rust",
            "code:let x = 1; // **raw**",
            "end",
            "start:code",
            "code:# not heading",
            "end",
        ]
    );
    assert!(render_markdown_lines("").is_empty());
}

#[test]
fn tool_cards_split_label_and_output() {
    let (label, rest) = tool_card_parts("✓ run_shell\nline one\nline two");
    assert_eq!(label, "✓ run_shell");
    assert_eq!(rest, vec!["line one".to_string(), "line two".to_string()]);
    let (l2, r2) = tool_card_parts("");
    assert_eq!(l2, "");
    assert!(r2.is_empty());
}

#[test]
fn scrolling_follows_or_clamps() {
    assert_eq!(effective_scroll(u16::MAX, 100, 20), 80);
    assert_eq!(effective_scroll(5, 100, 20), 5);
    assert_eq!(effective_scroll(90, 100, 20), 80);
    assert_eq!(effective_scroll(3, 10, 20), 0);
}

#[test]
fn status_tones() {
    assert_eq!(status_tone("Error: boom", false), StatusTone::Error);
    assert_eq!(status_tone("Error: boom", true), StatusTone::Error);
    assert_eq!(status_tone("Planning…", true), StatusTone::Busy);
    assert_eq!(status_tone("Ready", false), StatusTone::Calm);
}

#[test]
fn working_labels() {
    assert_eq!(working_label(""), "⟳ Working…");
    assert_eq!(working_label("Thinking… [m]"), "⟳ Thinking… [m]");
}

#[test]
fn cursor_cells_stay_inside_the_box() {
    assert_eq!(cursor_cell(1, 2, 10, 5, 3, 1), (4, 3));
    assert_eq!(cursor_cell(1, 2, 10, 5, 30, 9), (10, 6));
    assert_eq!(cursor_cell(0, 0, 0, 0, 0, 0), (0, 0));
}

#[test]
fn input_cursor_counts_display_columns() {
    let mut b = InputBuffer::new();
    for c in "你好x".chars() {
        b.insert_char(c);
    }
    assert_eq!(b.col, 7);
    assert_eq!(input_cursor(&b, 1, 1, 40, 5), Some((6, 1)));
    b.insert_newline();
    b.insert_char('a');
    assert_eq!(input_cursor(&b, 1, 1, 40, 5), Some((2, 2)));
    assert_eq!(input_cursor(&b, u16::MAX, 1, 40, 5), None);
}

fn shown(l: &ChatLine) -> String {
    match l {
        ChatLine::Header { speaker, timestamp } => format!("head:{:?}:{}", speaker, timestamp),
        ChatLine::StreamingHeader => "streaming".to_string(),
        ChatLine::Body { speaker, line } => format!("body:{:?}:{}", speaker, md(line)),
        ChatLine::CardLabel { label, success } => format!("card:{label}:{success}"),
        ChatLine::CardOutput { text, success } => format!("out:{text}:{success}"),
        ChatLine::CardEnd { success } => format!("end:{success}"),
        ChatLine::Rule => "rule".to_string(),
        ChatLine::Blank => "blank".to_string(),
        ChatLine::Working(t) => format!("working:{t}"),
    }
}

#[test]
fn chat_lines_lay_out_entries() {
    let mut user = ChatEntry::new(Role::User, "# Q\nwhy?".to_string());
    user.timestamp = 7;
    let card = ChatEntry::tool("✓ list_dir".to_string(), "a\nb".to_string(), true);
    let lines: Vec<String> = chat_lines(&[user, card], false, "", "").iter().map(shown).collect();
    assert_eq!(
        lines,
        vec![
            "head:User:7",
            "body:User:h1:Q",
            "body:User:text:why?",
            "rule",
            "blank",
            "card:✓ list_dir:true",
            "out:a:true",
            "out:b:true",
            "end:true",
            "blank",
        ]
    );
}

#[test]
fn chat_lines_while_the_agent_works() {
    let working: Vec<String> = chat_lines(&[], true, "", "Planning…").iter().map(shown).collect();
    assert_eq!(working, vec!["working:⟳ Planning…"]);
    let idle: Vec<String> = chat_lines(&[], true, "", "").iter().map(shown).collect();
    assert_eq!(idle, vec!["working:⟳ Working…"]);
    let streamed: Vec<String> = chat_lines(&[], true, "par**tial**", "x").iter().map(shown).collect();
    assert_eq!(streamed, vec!["streaming", "body:Assistant:text:partial"]);
    assert!(chat_lines(&[], false, "ignored", "x").is_empty());
}

#[test]
fn label_fits_checks_the_cut() {
    assert!(label_fits("short", 28));
    assert!(label_fits("aé", 2));
    assert!(!label_fits("éab", 2));
    assert!(label_fits("abé", 3));
}

#[test]
fn markdown_span_texts() {
    let lines = render_markdown_lines("```py\n# x\n```\n# Head\n## Sub\nplain");
    let spans: Vec<Vec<String>> = lines.iter().map(md_spans).collect();
    assert_eq!(spans[0], vec!["  ┌── py ".to_string()]);
    assert_eq!(spans[1], vec!["  │ ".to_string(), "# x".to_string()]);
    assert!(spans[2][0].starts_with("  └─"));
    assert_eq!(spans[3], vec!["  Head".to_string()]);
    assert_eq!(spans[4], vec!["  Sub".to_string()]);
    assert_eq!(spans[5], vec!["  ".to_string(), "plain".to_string()]);
}

#[test]
fn chat_line_span_texts() {
    let mut user = ChatEntry::new(Role::User, "hi".to_string());
    user.timestamp = 1;
    let card = ChatEntry::tool("✗ bash".to_string(), "boom".to_string(), false);
    let lines = chat_lines(&[user, card], true, "", "");
    let texts: Vec<Vec<String>> = lines.iter().map(|l| line_spans(l, "12:00:00")).collect();
    assert_eq!(texts[0], vec!["╭─ You ".to_string(), "12:00:00".to_string()]);
    assert_eq!(texts[1], vec!["  ".to_string(), "hi".to_string()]);
    assert_eq!(texts[2], vec!["╰──────────────────────────────────────".to_string()]);
    assert!(texts[3].is_empty());
    assert_eq!(texts[4], vec!["  ┌─ ".to_string(), "✗ bash".to_string()]);
    assert_eq!(texts[5], vec!["  │ ".to_string(), "boom".to_string()]);
    assert_eq!(texts[6], vec!["  └──────────────────────────────────────".to_string()]);
    assert!(texts[7].is_empty());
    assert_eq!(texts[8], vec!["  ⟳ Working…".to_string()]);
}

#[test]
fn input_box_and_scroll_limits() {
    assert_eq!(input_box_height(0), 3);
    assert_eq!(input_box_height(1), 3);
    assert_eq!(input_box_height(5), 7);
    assert_eq!(input_box_height(8), 10);
    assert_eq!(input_box_height(30), 10);
    assert_eq!(scroll_limit(100, 20), 80);
    assert_eq!(scroll_limit(5, 20), 0);
}
