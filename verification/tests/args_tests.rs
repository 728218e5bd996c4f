use ocode::args::ToolArgs;

#[test]
fn args_keep_the_latest_value() {
    let mut a = ToolArgs::new();
    assert_eq!(a.num_pairs(), 0);
    assert_eq!(a.get("path"), None);
    a.insert("path".to_string(), "a".to_string());
    a.insert("mode".to_string(), "w".to_string());
    a.insert("path".to_string(), "b".to_string());
    assert_eq!(a.get("path").map(|s| s.as_str()), Some("b"));
    assert_eq!(a.get_or("mode", "r"), "w");
    assert_eq!(a.get_or("size", "0"), "0");
    assert_eq!(a.num_pairs(), 3);
    let (k, v) = a.pair(0);
    assert_eq!((k.as_str(), v.as_str()), ("path", "a"));
    let d = a.duplicate();
    assert_eq!(d.num_pairs(), 3);
    assert_eq!(d.get_or("path", ""), "b");
}
