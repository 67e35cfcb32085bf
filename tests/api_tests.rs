use dit::get_cli_read_write_paths;

fn args(words: &[&str]) -> Vec<String> {
    words.iter().map(|w| w.to_string()).collect()
}

#[test]
fn cli_splits_read_and_write_paths() {
    let p = get_cli_read_write_paths(&args(&["read", "a", "b/", "write", "c", "/"])).unwrap();
    assert_eq!(p.read_paths, vec!["a".to_string(), "b".to_string()]);
    assert_eq!(p.write_paths, vec!["c".to_string(), "/".to_string()]);
}

#[test]
fn cli_switches_back_and_forth() {
    let p = get_cli_read_write_paths(&args(&["write", "w1", "read", "r1", "write", "w2//"])).unwrap();
    assert_eq!(p.read_paths, vec!["r1".to_string()]);
    assert_eq!(p.write_paths, vec!["w1".to_string(), "w2/".to_string()]);
}

#[test]
fn cli_ignores_paths_before_a_keyword() {
    let p = get_cli_read_write_paths(&args(&["x", "read", "r", "write", "w"])).unwrap();
    assert_eq!(p.read_paths, vec!["r".to_string()]);
    assert_eq!(p.write_paths, vec!["w".to_string()]);
}

#[test]
fn cli_needs_a_read_path() {
    let e = get_cli_read_write_paths(&args(&["write", "w"])).err().unwrap();
    assert_eq!(e.error, "must have at least one read path");
    let e = get_cli_read_write_paths(&args(&[])).err().unwrap();
    assert_eq!(e.error, "must have at least one read path");
}

#[test]
fn cli_needs_a_write_path() {
    let e = get_cli_read_write_paths(&args(&["read", "r", "write"])).err().unwrap();
    assert_eq!(e.error, "must have at least one write path");
}
