use ocode::tools::{sort_names, truncate, urlenccode, FileTool, SearchAnswer, ShellTool, WebSearch};

fn empty_answer() -> SearchAnswer {
    SearchAnswer {
        abstract_text: String::new(),
        abstract_source: String::new(),
        abstract_url: String::new(),
        related_topics: Vec::new(),
        answer: String::new(),
        definition: String::new(),
        definition_source: String::new(),
    }
}

#[test]
fn read_results() {
    let ok = FileTool::read_result("a.txt", Ok("hello".to_string()));
    assert_eq!((ok.tool.as_str(), ok.input.as_str(), ok.output.as_str(), ok.success), ("read_file", "a.txt", "hello", true));
    let err = FileTool::read_result("b.txt", Err("No such file or directory (os error 2)".to_string()));
    assert_eq!(err.output, "Error reading file: No such file or directory (os error 2)");
    assert!(!err.success);
}

#[test]
fn write_results_count_bytes() {
    let ok = FileTool::write_result("x.rs", "héllo", Ok(()));
    assert_eq!(ok.tool, "write_file");
    assert_eq!(ok.input, "x.rs  (6 bytes)");
    assert_eq!(ok.output, "Successfully wrote 6 bytes to x.rs");
    assert!(ok.success);
    let empty = FileTool::write_result("e", "", Ok(()));
    assert_eq!(empty.output, "Successfully wrote 0 bytes to e");
    let err = FileTool::write_result("x.rs", "abc", Err("denied".to_string()));
    assert_eq!(err.input, "x.rs");
    assert_eq!(err.output, "Error writing file: denied");
    assert!(!err.success);
}

#[test]
fn listing_sorts_names() {
    assert_eq!(FileTool::entry_name("src", true), "src/");
    assert_eq!(FileTool::entry_name("main.rs", false), "main.rs");
    let names = vec!["src/".to_string(), "Cargo.toml".to_string(), "a.rs".to_string(), "Zed".to_string(), "a.rs".to_string()];
    let r = FileTool::list_result("/p", names);
    assert_eq!(r.tool, "list_dir");
    assert_eq!(r.input, "/p");
    assert_eq!(r.output, "Cargo.toml\nZed\na.rs\na.rs\nsrc/");
    assert!(r.success);
    assert_eq!(FileTool::list_result("/e", Vec::new()).output, "");
}

#[test]
fn sort_names_matches_byte_order() {
    let words = ["b", "ä", "a", "ab", "", "B", "a"];
    let input: Vec<Vec<char>> = words.iter().map(|w| w.chars().collect()).collect();
    let sorted: Vec<String> = sort_names(input).into_iter().map(|v| v.into_iter().collect()).collect();
    let mut expected: Vec<String> = words.iter().map(|w| w.to_string()).collect();
    expected.sort();
    assert_eq!(sorted, expected);
}

#[test]
fn shell_results_combine_streams() {
    let both = ShellTool::shell_result("make", "out", "warn", true);
    assert_eq!(both.tool, "shell");
    assert_eq!(both.input, "make");
    assert_eq!(both.output, "out\n--- stderr ---\nwarn");
    assert!(both.success);
    assert_eq!(ShellTool::shell_result("c", "", "only err", false).output, "only err");
    assert_eq!(ShellTool::shell_result("c", "only out", "", true).output, "only out");
    let quiet = ShellTool::shell_result("true", "", "", true);
    assert_eq!(quiet.output, "(no output)");
}

#[test]
fn url_encoding() {
    assert_eq!(urlenccode("rust lang"), "rust+lang");
    assert_eq!(urlenccode("a-b_c.d~e"), "a-b_c.d~e");
    assert_eq!(urlenccode("c++ & go?"), "c%2B%2B+%26+go%3F");
    assert_eq!(urlenccode("\n"), "%0A");
    assert_eq!(urlenccode("é"), "%E9");
    assert_eq!(urlenccode("€"), "%20AC");
    assert_eq!(urlenccode(""), "");
}

#[test]
fn truncate_at_char_boundary() {
    assert_eq!(truncate("hello", 10), "hello");
    assert_eq!(truncate("hello", 3), "hel");
    assert_eq!(truncate("héllo", 2), "h");
    assert_eq!(truncate("héllo", 3), "hé");
    assert_eq!(truncate("abc", 0), "");
}

#[test]
fn search_answer_written_up() {
    let a = SearchAnswer {
        abstract_text: "Rust is a language.".to_string(),
        abstract_source: "Wikipedia".to_string(),
        abstract_url: "https://en.wikipedia.org/wiki/Rust".to_string(),
        related_topics: vec![
            (Some("Cargo - the package manager".to_string()), Some("https://doc.rust-lang.org/cargo".to_string())),
            (None, Some("https://nowhere".to_string())),
            (Some(String::new()), None),
            (Some("Crates".to_string()), None),
        ],
        answer: "42".to_string(),
        definition: "A metal oxide.".to_string(),
        definition_source: "Dictionary".to_string(),
    };
    assert_eq!(
        WebSearch::render("rust", &a),
        "**Answer:** 42\n\n**Wikipedia:** Rust is a language.\nSource: https://en.wikipedia.org/wiki/Rust\n\n**Definition (Dictionary):** A metal oxide.\n\n**Related:**\n- Cargo - the package manager (https://doc.rust-lang.org/cargo)\n- Crates\n"
    );
}

#[test]
fn search_keeps_five_topics_and_cuts_long_ones() {
    let mut a = empty_answer();
    for i in 0..7 {
        a.related_topics.push((Some(format!("t{i}")), None));
    }
    a.related_topics[0].0 = Some("y".repeat(130));
    a.related_topics[1] = (Some("z".repeat(110)), Some("u".to_string()));
    let text = WebSearch::render("q", &a);
    let expected = format!("**Related:**\n- {}\n- {} (u)\n- t2\n- t3\n- t4\n", "y".repeat(120), "z".repeat(100));
    assert_eq!(text, expected);
}

#[test]
fn search_without_answer_points_to_search_page() {
    let mut a = empty_answer();
    a.abstract_source = "ignored".to_string();
    assert_eq!(
        WebSearch::render("tokio spawn", &a),
        "No instant answer found for: \"tokio spawn\"\n\nTry a more specific query or check: https://duckduckgo.com/?q=tokio+spawn"
    );
    a.answer = "   ".to_string();
    assert_eq!(WebSearch::render("x", &a), "**Answer:**    \n\n");
}
