use dit::arbiter::collect_variants;
use dit::arbiter::handle_copy_to_dest;
use dit::arbiter::plan_merge;
use dit::common::all_files_match;
use dit::common::has_write_merge_conflict;
use dit::common::FileProbe;
use dit::common::MergeTally;
use dit::common::ThreadRunContext;
use dit::copier::next_copy_step;
use dit::copier::CopyStep;
use dit::discover::child_sub_path;
use dit::discover::classify_entry;
use dit::discover::plan_file;
use dit::discover::visible_union;
use dit::discover::Emission;
use dit::discover::EntryClass;
use dit::discover::EntryKind;
use dit::hash::handle_hash_req;
use dit::message::HashRequest;
use dit::message::HashResult;
use dit::message::TransferRequest;
use dit::MergeResult;

const H_ALPHA: &str = "8ed3f6ad685b959ead7022518e1af76cd816f8e8ec7ccdda1ed4018e8f2223f8";
const H_BETA: &str = "f44e64e75f3948e9f73f8dfa94721c4ce8cbb4f265c4790c702b2d41cfbf2753";
const H_DATA: &str = "3a6eb0790f39ac87c94f3856b2dd2c5d110e6811602261a9a923d3bb23adc8b7";
const H_P_BIN: &str = "b413f47d13ee2fe6c845b2ee141af81de858df4ec549a58b7970bb96645bc8d2";

fn strings(v: &[&str]) -> Vec<String> {
    v.iter().map(|s| s.to_string()).collect()
}

fn hash_all(requests: &[Emission], contents: &[&[u8]]) -> Vec<Option<HashResult>> {
    let ctx = ThreadRunContext::new();
    let mut out = vec![];
    for (e, c) in requests.iter().zip(contents) {
        if let Emission::Hash(_, req) = e {
            out.push(handle_hash_req(&ctx, req.clone(), Some(c)));
        }
    }
    out
}

#[test]
fn single_source_new_tree() {
    // A/x/foo.txt = "hi", A/.hidden; B empty.
    let top = visible_union(&vec![strings(&["x", ".hidden"])]);
    assert_eq!(top, strings(&["x"]));
    assert_eq!(classify_entry("x", &vec![EntryKind::Directory]).ok(), Some(EntryClass::Directory));
    let sub = child_sub_path("x", "foo.txt");
    assert_eq!(classify_entry(&sub, &vec![EntryKind::File]).ok(), Some(EntryClass::File));
    let matched = all_files_match(&vec![FileProbe::Present(2)], &vec![FileProbe::Absent]);
    assert!(!matched);
    let e = plan_file(&strings(&["A"]), &sub, &vec![EntryKind::File], matched);
    assert!(matches!(e[1], Emission::Transfer(TransferRequest::Copy)));
    let req = match &e[0] {
        Emission::CopyToDest(r) => r.clone(),
        _ => panic!("expected a copy-to-destination request"),
    };
    let conflict = has_write_merge_conflict(&FileProbe::Present(2), &vec![FileProbe::Absent]);
    let (plan, r) = handle_copy_to_dest(&strings(&["B"]), &req, conflict, None);
    assert_eq!(plan[0].src_path, "A/x/foo.txt");
    assert_eq!(plan[0].dest_path, "B/x/foo.txt");
    let mut tally = MergeTally::new();
    tally.record(r);
    assert_eq!(tally.finish(true), MergeResult::Success);
}

#[test]
fn two_sources_identical_content_two_dests() {
    let e = plan_file(&strings(&["A", "B"]), "p.bin", &vec![EntryKind::File, EntryKind::File], false);
    assert_eq!(e.len(), 3);
    let results = hash_all(&e[..2], &[&[0u8, 1u8], &[0u8, 1u8]]);
    let variants = collect_variants(&results);
    assert_eq!(variants.len(), 1);
    assert_eq!(variants[0].hash, H_P_BIN);
    let conflict = has_write_merge_conflict(&FileProbe::Present(2), &vec![FileProbe::Absent, FileProbe::Absent]);
    let (plan, r) = plan_merge(&strings(&["C", "D"]), &variants, conflict);
    assert_eq!(r, MergeResult::Success);
    assert_eq!(plan[0][0].dest_path, "C/p.bin");
    assert_eq!(plan[1][0].dest_path, "D/p.bin");
    assert_eq!(plan[0][0].src_path, "A/p.bin");
}

#[test]
fn read_merge_conflict() {
    let e = plan_file(&strings(&["A", "B"]), "p.txt", &vec![EntryKind::File, EntryKind::File], false);
    let results = hash_all(&e[..2], &[b"alpha", b"beta"]);
    let variants = collect_variants(&results);
    let (plan, r) = plan_merge(&strings(&["C"]), &variants, false);
    assert_eq!(r, MergeResult::Conflict);
    let mut dests: Vec<(String, String)> =
        plan[0].iter().map(|c| (c.dest_path.clone(), c.src_path.clone())).collect();
    dests.sort();
    let mut expected = vec![
        (format!("C/p.__READ_MERGE_CONFLICT__{}.txt", H_ALPHA), "A/p.txt".to_string()),
        (format!("C/p.__READ_MERGE_CONFLICT__{}.txt", H_BETA), "B/p.txt".to_string()),
    ];
    expected.sort();
    assert_eq!(dests, expected);
    assert!(plan[0].iter().all(|c| c.dest_path != "C/p.txt"));
}

#[test]
fn write_merge_conflict() {
    let matched = all_files_match(&vec![FileProbe::Present(4)], &vec![FileProbe::Present(5)]);
    assert!(!matched);
    let e = plan_file(&strings(&["A"]), "q", &vec![EntryKind::File], matched);
    let req = match &e[0] {
        Emission::CopyToDest(r) => r.clone(),
        _ => panic!("expected a copy-to-destination request"),
    };
    let conflict = has_write_merge_conflict(&FileProbe::Present(4), &vec![FileProbe::Present(5)]);
    assert!(conflict);
    let (plan, r) = handle_copy_to_dest(&strings(&["C"]), &req, conflict, Some(b"data"));
    assert_eq!(r, MergeResult::Conflict);
    assert_eq!(plan[0].dest_path, format!("C/q.__WRITE_MERGE_CONFLICT__{}", H_DATA));
    assert_eq!(plan[0].src_path, "A/q");
}

#[test]
fn idempotent_second_run() {
    let matched = all_files_match(
        &vec![FileProbe::Present(2), FileProbe::Present(2)],
        &vec![FileProbe::Present(2), FileProbe::Present(2)],
    );
    assert!(matched);
    let e = plan_file(&strings(&["A", "B"]), "p.bin", &vec![EntryKind::File, EntryKind::File], matched);
    assert!(e.is_empty());
    assert_eq!(next_copy_step(CopyStep::CheckDest, false), CopyStep::Done);
    let tally = MergeTally::new();
    assert_eq!(tally.finish(true), MergeResult::Success);
}

#[test]
fn hash_failure_mid_run() {
    let root = ThreadRunContext::new();
    let worker = ThreadRunContext::from(&root);
    let req = HashRequest { sub_path: "r".to_string(), src_path: "A/r".to_string() };
    let res = handle_hash_req(&worker, Some(req), None);
    assert!(res.is_none());
    assert!(!worker.is_running());
    assert!(!root.is_clean());
    let mut tally = MergeTally::new();
    tally.record(MergeResult::Success);
    assert_eq!(tally.finish(root.is_clean()), MergeResult::Error);
}

#[test]
fn hash_request_and_placeholder() {
    let ctx = ThreadRunContext::new();
    let req = HashRequest { sub_path: "p".to_string(), src_path: "A/p".to_string() };
    let res = handle_hash_req(&ctx, Some(req), Some(b"alpha")).unwrap();
    assert_eq!(res.hash, H_ALPHA);
    assert_eq!(res.src_path, "A/p");
    assert_eq!(res.sub_path, "p");
    assert!(handle_hash_req(&ctx, None, None).is_none());
    assert!(ctx.is_clean());
}
