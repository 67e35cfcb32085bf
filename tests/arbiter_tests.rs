use dit::arbiter::collect_variants;
use dit::arbiter::handle_copy_to_dest;
use dit::arbiter::plan_copy_to_dest;
use dit::arbiter::plan_merge;
use dit::hash::hash_bytes;
use dit::message::CopyToDestRequest;
use dit::message::HashResult;
use dit::MergeResult;

fn result(src: &str, hash: &str) -> HashResult {
    HashResult { sub_path: "p".to_string(), src_path: src.to_string(), hash: hash.to_string() }
}

fn strings(v: &[&str]) -> Vec<String> {
    v.iter().map(|s| s.to_string()).collect()
}

#[test]
fn hash_of_known_input() {
    assert_eq!(hash_bytes(b"abc"), "ba7816bf8f01cfea414140de5dae2223b00361a396177a9cb410ff61f20015ad");
    assert_eq!(hash_bytes(b""), "e3b0c44298fc1c149afbf4c8996fb92427ae41e4649b934ca495991b7852b855");
}

#[test]
fn variants_keep_first_per_hash_in_hash_order() {
    let results = vec![Some(result("A/p", "bb")), None, Some(result("C/p", "aa")), Some(result("D/p", "bb"))];
    let v = collect_variants(&results);
    assert_eq!(v.len(), 2);
    assert_eq!(v[0].src_path, "C/p");
    assert_eq!(v[0].hash, "aa");
    assert_eq!(v[1].src_path, "A/p");
    assert_eq!(v[1].hash, "bb");
}

#[test]
fn variants_of_placeholders_only_are_none() {
    let v = collect_variants(&vec![None, None]);
    assert!(v.is_empty());
}

#[test]
fn merge_without_variants_is_an_error() {
    let (plan, r) = plan_merge(&strings(&["C"]), &vec![], false);
    assert!(plan.is_empty());
    assert_eq!(r, MergeResult::Error);
}

#[test]
fn merge_of_one_variant_copies_plainly() {
    let (plan, r) = plan_merge(&strings(&["C", "D"]), &vec![result("A/p", "aa")], false);
    assert_eq!(r, MergeResult::Success);
    assert_eq!(plan.len(), 2);
    assert_eq!(plan[0][0].dest_path, "C/p");
    assert_eq!(plan[1][0].dest_path, "D/p");
    assert_eq!(plan[1][0].src_path, "A/p");
}

#[test]
fn merge_of_one_variant_with_write_conflict() {
    let (plan, r) = plan_merge(&strings(&["C"]), &vec![result("A/p", "aa")], true);
    assert_eq!(r, MergeResult::Conflict);
    assert_eq!(plan[0][0].dest_path, "C/p.__WRITE_MERGE_CONFLICT__aa");
}

#[test]
fn merge_of_two_variants_is_a_read_conflict() {
    let (plan, r) = plan_merge(&strings(&["C", "D"]), &vec![result("A/p", "aa"), result("B/p", "bb")], false);
    assert_eq!(r, MergeResult::Conflict);
    assert_eq!(plan.len(), 2);
    assert_eq!(plan[0].len(), 2);
    assert_eq!(plan[0][0].dest_path, "C/p.__READ_MERGE_CONFLICT__aa");
    assert_eq!(plan[0][1].dest_path, "C/p.__READ_MERGE_CONFLICT__bb");
    assert_eq!(plan[1][1].dest_path, "D/p.__READ_MERGE_CONFLICT__bb");
    assert_eq!(plan[1][1].src_path, "B/p");
}

#[test]
fn copy_to_dest_plain_and_conflicting() {
    let req = CopyToDestRequest { sub_path: "x/q.txt".to_string(), src_path: "A/x/q.txt".to_string() };
    let (plan, r) = plan_copy_to_dest(&strings(&["C", "D"]), &req, false, None);
    assert_eq!(r, MergeResult::Success);
    assert_eq!(plan[0].dest_path, "C/x/q.txt");
    assert_eq!(plan[1].dest_path, "D/x/q.txt");
    let (plan, r) = plan_copy_to_dest(&strings(&["C"]), &req, true, None);
    assert_eq!(r, MergeResult::Conflict);
    assert_eq!(plan[0].dest_path, "C/x/q.__WRITE_MERGE_CONFLICT__.txt");
}

#[test]
fn copy_to_dest_hashes_the_contents_on_conflict() {
    let req = CopyToDestRequest { sub_path: "q".to_string(), src_path: "A/q".to_string() };
    let (plan, r) = handle_copy_to_dest(&strings(&["C"]), &req, true, Some(b"abc"));
    assert_eq!(r, MergeResult::Conflict);
    assert_eq!(
        plan[0].dest_path,
        "C/q.__WRITE_MERGE_CONFLICT__ba7816bf8f01cfea414140de5dae2223b00361a396177a9cb410ff61f20015ad"
    );
}

#[test]
fn variant_order_follows_the_hashes_not_the_sources() {
    let a = collect_variants(&vec![Some(result("A/p", "cc")), Some(result("B/p", "aa")), Some(result("C/p", "bb"))]);
    let b = collect_variants(&vec![Some(result("C/p", "bb")), Some(result("A/p", "cc")), Some(result("B/p", "aa"))]);
    let hashes = |v: &Vec<HashResult>| v.iter().map(|r| r.hash.clone()).collect::<Vec<String>>();
    assert_eq!(hashes(&a), strings(&["aa", "bb", "cc"]));
    assert_eq!(hashes(&a), hashes(&b));
    assert_eq!(a, b);
}
