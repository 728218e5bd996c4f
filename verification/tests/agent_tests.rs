use ocode::agent::summary_fits;
use ocode::agent::{
    extract_attr, format_tool_results, parse_tool_calls, parse_xml_args, resolve, scan_tool_calls,
    strip_tool_calls, tool_summary, ToolAction, ToolCall,
};
use ocode::args::ToolArgs;
use ocode::planner::PlannedCall;

fn call(name: &str, pairs: &[(&str, &str)]) -> ToolCall {
    let mut args = ToolArgs::new();
    for (k, v) in pairs {
        args.insert(k.to_string(), v.to_string());
    }
    ToolCall { name: name.to_string(), args }
}

#[test]
fn extract_attr_reads_quoted_value() {
    assert_eq!(extract_attr("<tool_call name=\"read_file\">", "name"), Some("read_file".to_string()));
    assert_eq!(extract_attr("<x a=\"1\" b=\"two\">", "b"), Some("two".to_string()));
}

#[test]
fn extract_attr_missing_or_unclosed() {
    assert_eq!(extract_attr("<tool_call>", "name"), None);
    assert_eq!(extract_attr("<tool_call name=\"oops>", "name"), None);
}

#[test]
fn parse_xml_args_reads_elements() {
    let args = parse_xml_args("  <path>src/main.rs</path>\n<content>fn main() {}</content>  ");
    assert_eq!(args.num_pairs(), 2);
    assert_eq!(args.get("path").map(|s| s.as_str()), Some("src/main.rs"));
    assert_eq!(args.get("content").map(|s| s.as_str()), Some("fn main() {}"));
    assert_eq!(args.get("missing"), None);
}

#[test]
fn parse_xml_args_stops_at_unclosed_element() {
    let args = parse_xml_args("<a>1</a><b>2");
    assert_eq!(args.num_pairs(), 1);
    assert_eq!(args.get_or("a", "-"), "1");
    assert_eq!(args.get_or("b", "-"), "-");
}

#[test]
fn parse_xml_args_later_value_wins() {
    let args = parse_xml_args("<a>1</a><a>2</a>");
    assert_eq!(args.get("a").map(|s| s.as_str()), Some("2"));
}

#[test]
fn parse_tool_calls_finds_calls_in_order() {
    let text = "Let me look.\n<tool_call name=\"read_file\"><path>src/foo.rs</path></tool_call>\nand\n<tool_call name=\"run_shell\"><command>ls -la</command></tool_call> done";
    let calls = parse_tool_calls(text);
    assert_eq!(calls.len(), 2);
    assert_eq!(calls[0].name, "read_file");
    assert_eq!(calls[0].args.get_or("path", ""), "src/foo.rs");
    assert_eq!(calls[1].name, "run_shell");
    assert_eq!(calls[1].args.get_or("command", ""), "ls -la");
}

#[test]
fn parse_tool_calls_skips_nameless_and_unclosed() {
    assert!(parse_tool_calls("no calls here").is_empty());
    assert!(parse_tool_calls("<tool_call name=\"read_file\"><path>x</path>").is_empty());
    let calls = parse_tool_calls("<tool_call><p>1</p></tool_call><tool_call name=\"list_dir\"></tool_call>");
    assert_eq!(calls.len(), 1);
    assert_eq!(calls[0].name, "list_dir");
    assert_eq!(calls[0].args.num_pairs(), 0);
}

#[test]
fn scan_tool_calls_refuses_close_inside_tag() {
    assert!(scan_tool_calls("<tool_call name=\"x\" </tool_call> >").is_none());
    assert_eq!(scan_tool_calls("plain").map(|v| v.len()), Some(0));
}

#[test]
fn strip_tool_calls_removes_calls_and_blank_runs() {
    let text = "Before\n\n<tool_call name=\"read_file\"><path>a</path></tool_call>\n\n\nAfter  ";
    assert_eq!(strip_tool_calls(text), "Before\n\nAfter");
    assert_eq!(strip_tool_calls("  just prose \n"), "just prose");
}

#[test]
fn strip_tool_calls_unclosed_keeps_rest() {
    // The text before an unclosed call is kept, and then the rest from the
    // start of the remaining text, as the scan leaves it.
    assert_eq!(strip_tool_calls("Hi <tool_call name=\"x\"> never closed"), "Hi Hi <tool_call name=\"x\"> never closed");
}

#[test]
fn tool_summary_labels() {
    assert_eq!(tool_summary(&call("read_file", &[("path", "a.rs")])), "read a.rs");
    assert_eq!(tool_summary(&call("write_file", &[])), "write ?");
    assert_eq!(tool_summary(&call("bash", &[("cmd", "ls")])), "$ ls");
    assert_eq!(tool_summary(&call("run_shell", &[("command", "echo"), ("cmd", "no")])), "$ echo");
    assert_eq!(tool_summary(&call("list_directory", &[])), "ls .");
    assert_eq!(tool_summary(&call("search", &[("query", "rust")])), "search: rust");
    assert_eq!(tool_summary(&call("mystery", &[])), "mystery");
}

#[test]
fn tool_summary_cuts_long_command_at_sixty_bytes() {
    let long = "x".repeat(75);
    let s = tool_summary(&call("shell", &[("command", long.as_str())]));
    assert_eq!(s, format!("$ {}", "x".repeat(60)));
}

#[test]
fn format_tool_results_blocks() {
    let results = vec![
        ("read_file".to_string(), "hello".to_string(), true),
        ("run_shell".to_string(), "boom".to_string(), false),
    ];
    assert_eq!(
        format_tool_results(&results),
        "=== read_file [ok] ===\nhello\n\n=== run_shell [error] ===\nboom\n"
    );
    assert_eq!(format_tool_results(&[]), "");
}

#[test]
fn resolve_relative_and_absolute() {
    assert_eq!(resolve("/home/u", "src/a.rs"), "/home/u/src/a.rs");
    assert_eq!(resolve("/home/u", "/etc/hosts"), "/etc/hosts");
}

#[test]
fn tool_action_for_each_tool() {
    let wd = "/w";
    match ToolAction::for_call(&call("read_file", &[("path", "a")]), wd) {
        ToolAction::ReadFile { path } => assert_eq!(path, "/w/a"),
        other => panic!("{:?}", other),
    }
    match ToolAction::for_call(&call("write_file", &[("path", "/b"), ("content", "c")]), wd) {
        ToolAction::WriteFile { path, content } => {
            assert_eq!(path, "/b");
            assert_eq!(content, "c");
        }
        other => panic!("{:?}", other),
    }
    match ToolAction::for_call(&call("shell", &[("cmd", "pwd")]), wd) {
        ToolAction::RunShell { command } => assert_eq!(command, "pwd"),
        other => panic!("{:?}", other),
    }
    match ToolAction::for_call(&call("list_dir", &[]), wd) {
        ToolAction::ListDir { path } => assert_eq!(path, "/w/."),
        other => panic!("{:?}", other),
    }
    match ToolAction::for_call(&call("web_search", &[("q", "verus")]), wd) {
        ToolAction::WebSearch { query } => assert_eq!(query, "verus"),
        other => panic!("{:?}", other),
    }
}

#[test]
fn tool_action_rejections() {
    let wd = "/w";
    let cases = [
        (call("read_file", &[]), "Error: missing path arg"),
        (call("write_file", &[("content", "x")]), "Error: missing path arg"),
        (call("bash", &[]), "Error: missing command arg"),
        (call("search", &[]), "Error: missing query arg"),
        (call("teleport", &[]), "Unknown tool: teleport"),
    ];
    for (c, msg) in cases.iter() {
        let action = ToolAction::for_call(c, wd);
        match &action {
            ToolAction::Reject { message } => assert_eq!(message, msg),
            other => panic!("{:?}", other),
        }
        assert_eq!(action.finish(Ok(("ignored".to_string(), true))), (msg.to_string(), false));
    }
}

#[test]
fn tool_action_finish_outcomes() {
    let read = ToolAction::for_call(&call("read_file", &[("path", "a")]), "/w");
    assert_eq!(read.finish(Ok(("text".to_string(), true))), ("text".to_string(), true));
    assert_eq!(read.finish(Err("no such file".to_string())), ("Error: no such file".to_string(), false));
    let search = ToolAction::for_call(&call("web_search", &[("query", "q")]), "/w");
    assert_eq!(search.finish(Err("timeout".to_string())), ("Search error: timeout".to_string(), false));
}

#[test]
fn planned_call_becomes_tool_call() {
    let mut args = ToolArgs::new();
    args.insert("path".to_string(), "Cargo.toml".to_string());
    let p = PlannedCall { tool: "read_file".to_string(), args, reason: "check deps".to_string() };
    let c: ToolCall = p.into();
    assert_eq!(c.name, "read_file");
    assert_eq!(c.args.get_or("path", ""), "Cargo.toml");
    let d = c.duplicate();
    assert_eq!(d.name, "read_file");
    assert_eq!(d.args.num_pairs(), 1);
}

#[test]
fn summary_fits_checks_the_shell_cut() {
    let ok = format!("{}é", "x".repeat(58));
    let bad = format!("{}é", "x".repeat(59));
    assert!(summary_fits(&call("bash", &[("command", ok.as_str())])));
    assert!(!summary_fits(&call("bash", &[("command", bad.as_str())])));
    assert!(summary_fits(&call("read_file", &[("path", bad.as_str())])));
}
