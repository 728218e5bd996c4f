use ocode::planner::summary_fits_all;
use ocode::ai::Message;
use ocode::args::ToolArgs;
use ocode::planner::{
    build_conversation_summary, build_planner_prompt, cap_planned, copy_planned, json_array_text,
    tool_catalogue, PlanError, PlannedCall,
};

fn planned(tool: &str) -> PlannedCall {
    PlannedCall { tool: tool.to_string(), args: ToolArgs::new(), reason: String::new() }
}

#[test]
fn catalogue_names_every_tool() {
    let c = tool_catalogue();
    assert!(c.starts_with("Available tools (use exact tool names):\n\nread_file"));
    for t in ["read_file", "write_file", "run_shell", "list_dir", "web_search"] {
        assert!(c.contains(t));
    }
}

#[test]
fn planner_prompt_layout() {
    let tree = vec!["src/".to_string(), "Cargo.toml".to_string()];
    let p = build_planner_prompt("list src", &tree, "SUMMARY");
    assert!(p.starts_with("You are a planning agent."));
    assert!(p.contains(&format!("{}\n\nCurrent working directory file tree:\nsrc/\nCargo.toml\n\nSUMMARY\n\nUser message:\nlist src\n\nInstructions:", tool_catalogue())));
    assert!(p.ends_with("Now output the JSON array for the user message above:"));
}

#[test]
fn planner_prompt_without_tree() {
    let p = build_planner_prompt("hi", &[], "");
    assert!(p.contains("file tree:\n(no file tree available)\n\n\n\nUser message:\nhi\n"));
}

#[test]
fn conversation_summary_empty() {
    assert_eq!(build_conversation_summary(&[]), "");
}

#[test]
fn conversation_summary_skips_system_and_keeps_last_eight() {
    let mut ms = vec![Message::system("sys".to_string())];
    for i in 0..10 {
        ms.push(Message::user(format!("u{i}")));
    }
    let s = build_conversation_summary(&ms);
    let mut expected = String::from("Recent conversation context (for reference — don't re-fetch what's already here):\n");
    for i in 2..10 {
        expected.push_str(&format!("[User]: u{i}\n"));
    }
    assert_eq!(s, expected);
}

#[test]
fn conversation_summary_only_system_is_header() {
    let ms = vec![Message::system("sys".to_string())];
    assert_eq!(
        build_conversation_summary(&ms),
        "Recent conversation context (for reference — don't re-fetch what's already here):\n"
    );
}

#[test]
fn conversation_summary_clips_long_messages() {
    let long = "a".repeat(350);
    let ms = vec![Message::assistant(long)];
    let s = build_conversation_summary(&ms);
    assert!(s.ends_with(&format!("[Assistant]: {}… (truncated)\n", "a".repeat(300))));
}

#[test]
fn json_array_plain_and_fenced() {
    assert_eq!(json_array_text("[]"), Ok("[]".to_string()));
    assert_eq!(
        json_array_text("```json\n[{\"tool\":\"list_dir\"}]\n```"),
        Ok("[{\"tool\":\"list_dir\"}]".to_string())
    );
    assert_eq!(json_array_text("Sure! [1, [2]] done"), Ok("[1, [2]]".to_string()));
}

#[test]
fn json_array_errors() {
    assert_eq!(json_array_text("no tools needed"), Err(PlanError::NoArray));
    assert_eq!(json_array_text("[ unfinished"), Err(PlanError::Unclosed));
    assert_eq!(PlanError::NoArray.message(), "No JSON array found in planner response");
    assert_eq!(PlanError::Unclosed.message(), "Unclosed JSON array in planner response");
}

#[test]
fn reversed_brackets_hold_no_array() {
    assert_eq!(json_array_text("] then ["), Err(PlanError::NoArray));
    assert_eq!(json_array_text("x [a] y"), Ok("[a]".to_string()));
}

#[test]
fn cap_planned_keeps_first() {
    let calls = vec![planned("a"), planned("b"), planned("c")];
    let capped = cap_planned(calls, 2);
    assert_eq!(capped.len(), 2);
    assert_eq!(capped[0].tool, "a");
    assert_eq!(capped[1].tool, "b");
    let all = cap_planned(vec![planned("x")], 5);
    assert_eq!(all.len(), 1);
}

#[test]
fn copy_planned_copies_all() {
    let calls = vec![planned("a"), planned("b")];
    let copy = copy_planned(&calls);
    assert_eq!(copy.len(), 2);
    assert_eq!(copy[1].tool, "b");
}

#[test]
fn summary_fits_all_checks_the_window() {
    let bad = format!("{}é", "x".repeat(299));
    assert!(summary_fits_all(&[Message::user("fine".to_string())]));
    assert!(!summary_fits_all(&[Message::user(bad.clone())]));
    assert!(summary_fits_all(&[Message::system(bad.clone())]));
    let mut ms = vec![Message::user(bad)];
    for _ in 0..8 {
        ms.push(Message::user("ok".to_string()));
    }
    assert!(summary_fits_all(&ms));
}
