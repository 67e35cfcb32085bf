use dit::order::str_lt;
use dit::paths::find_last;
use dit::paths::get_merge_conflict_dest_file_path;
use dit::paths::join_path;
use dit::paths::temp_file_template;
use dit::paths::ConflictKind;

#[test]
fn join_inserts_one_separator() {
    assert_eq!(join_path("C", "x/foo.txt"), "C/x/foo.txt");
    assert_eq!(join_path("C/", "foo"), "C/foo");
    assert_eq!(join_path("", "foo"), "foo");
}

#[test]
fn find_last_locates_the_last_occurrence() {
    assert_eq!(find_last("a/b/c", '/'), Some(3));
    assert_eq!(find_last("abc", '/'), None);
    assert_eq!(find_last("", '/'), None);
}

#[test]
fn conflict_name_with_extension() {
    let p = get_merge_conflict_dest_file_path("C", "A/x/p.txt", "x/p.txt", Some("abc"), ConflictKind::Read);
    assert_eq!(p, "C/x/p.__READ_MERGE_CONFLICT__abc.txt");
}

#[test]
fn conflict_name_without_extension() {
    let p = get_merge_conflict_dest_file_path("C", "A/q", "q", Some("abc"), ConflictKind::Write);
    assert_eq!(p, "C/q.__WRITE_MERGE_CONFLICT__abc");
}

#[test]
fn conflict_name_without_hash() {
    let p = get_merge_conflict_dest_file_path("C", "A/d/a.tar.gz", "d/a.tar.gz", None, ConflictKind::Write);
    assert_eq!(p, "C/d/a.tar.__WRITE_MERGE_CONFLICT__.gz");
}

#[test]
fn conflict_name_of_a_dotted_name_keeps_it_whole() {
    let p = get_merge_conflict_dest_file_path("C", "A/.env", ".env", Some("h"), ConflictKind::Read);
    assert_eq!(p, "C/.env.__READ_MERGE_CONFLICT__h");
}

#[test]
fn temp_template_lives_beside_the_target() {
    assert_eq!(temp_file_template("C/x"), "C/x/__tmp_dit_XXXXXX");
}

#[test]
fn string_order_is_lexicographic() {
    assert!(str_lt("a", "b"));
    assert!(str_lt("a", "ab"));
    assert!(!str_lt("ab", "a"));
    assert!(!str_lt("a", "a"));
    assert!(str_lt("", "a"));
    assert!(str_lt("B", "a"));
    assert!(str_lt("z", "\u{e9}"));
}
