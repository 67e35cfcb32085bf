use dit::common::all_files_match;
use dit::common::dit_error;
use dit::common::ensure_valid_read_write_paths;
use dit::common::has_write_merge_conflict;
use dit::common::max_merge_result;
use dit::common::phase_after_timeout;
use dit::common::worker_phase;
use dit::common::DitError;
use dit::common::FileProbe;
use dit::common::MergeTally;
use dit::common::PathKind;
use dit::common::ThreadRunContext;
use dit::common::WorkerPhase;
use dit::MergeResult;
use dit::ReadWritePaths;

fn strings(v: &[&str]) -> Vec<String> {
    v.iter().map(|s| s.to_string()).collect()
}

#[test]
fn error_carries_its_message() {
    assert_eq!(DitError::new("boom").error, "boom");
    let r: Result<u8, DitError> = dit_error("bad");
    assert_eq!(r.err().unwrap().error, "bad");
}

#[test]
fn max_merge_result_orders_results() {
    assert_eq!(max_merge_result(&MergeResult::Success, &MergeResult::Success), MergeResult::Success);
    assert_eq!(max_merge_result(&MergeResult::Success, &MergeResult::Conflict), MergeResult::Conflict);
    assert_eq!(max_merge_result(&MergeResult::Conflict, &MergeResult::Success), MergeResult::Conflict);
    assert_eq!(max_merge_result(&MergeResult::Conflict, &MergeResult::Error), MergeResult::Error);
    assert_eq!(max_merge_result(&MergeResult::Error, &MergeResult::Success), MergeResult::Error);
}

#[test]
fn tally_is_the_worst_result() {
    let mut t = MergeTally::new();
    assert_eq!(t.result(), MergeResult::Success);
    t.record(MergeResult::Success);
    t.record(MergeResult::Conflict);
    t.record(MergeResult::Success);
    assert_eq!(t.result(), MergeResult::Conflict);
    assert_eq!(t.finish(true), MergeResult::Conflict);
    assert_eq!(t.finish(false), MergeResult::Error);
    t.record(MergeResult::Error);
    t.record(MergeResult::Conflict);
    assert_eq!(t.result(), MergeResult::Error);
}

#[test]
fn run_context_flags() {
    let root = ThreadRunContext::new();
    let child = ThreadRunContext::from(&root);
    assert!(child.is_running() && child.is_clean());
    child.shutdown();
    assert!(!child.is_running());
    assert!(child.is_clean() && root.is_clean() && root.is_running());
    let other = ThreadRunContext::from(&root);
    other.unclean_shutdown();
    assert!(!other.is_running());
    assert!(!root.is_clean() && !child.is_clean());
    assert!(root.is_running());
}

#[test]
fn files_match_when_all_lengths_agree() {
    assert!(all_files_match(&vec![FileProbe::Present(4), FileProbe::Absent, FileProbe::Present(4)], &vec![FileProbe::Present(4), FileProbe::Present(4)]));
    assert!(all_files_match(&vec![FileProbe::Present(0)], &vec![]));
}

#[test]
fn files_do_not_match_otherwise() {
    assert!(!all_files_match(&vec![FileProbe::Present(4), FileProbe::Present(5)], &vec![FileProbe::Present(4)]));
    assert!(!all_files_match(&vec![FileProbe::Present(4)], &vec![FileProbe::Absent]));
    assert!(!all_files_match(&vec![FileProbe::Present(4)], &vec![FileProbe::Present(4), FileProbe::Present(3)]));
    assert!(!all_files_match(&vec![FileProbe::Unreadable, FileProbe::Present(4)], &vec![FileProbe::Present(4)]));
    assert!(!all_files_match(&vec![FileProbe::Present(4)], &vec![FileProbe::Unreadable]));
}

#[test]
fn write_conflict_on_any_difference() {
    assert!(!has_write_merge_conflict(&FileProbe::Present(4), &vec![FileProbe::Absent, FileProbe::Present(4)]));
    assert!(!has_write_merge_conflict(&FileProbe::Present(4), &vec![]));
    assert!(has_write_merge_conflict(&FileProbe::Present(4), &vec![FileProbe::Absent, FileProbe::Present(5)]));
    assert!(has_write_merge_conflict(&FileProbe::Present(4), &vec![FileProbe::Unreadable]));
    assert!(has_write_merge_conflict(&FileProbe::Unreadable, &vec![]));
    assert!(has_write_merge_conflict(&FileProbe::Absent, &vec![FileProbe::Present(4)]));
}

#[test]
fn preflight_accepts_and_plans_creation() {
    let p = ReadWritePaths { read_paths: strings(&["a", "b"]), write_paths: strings(&["c", "d", "e"]) };
    let r = ensure_valid_read_write_paths(&p, &vec![PathKind::Directory, PathKind::Directory], &vec![PathKind::Missing, PathKind::Directory, PathKind::Missing]);
    assert!(r.failure.is_none());
    assert_eq!(r.create, strings(&["c", "e"]));
}

#[test]
fn preflight_refuses_bad_read_paths() {
    let p = ReadWritePaths { read_paths: strings(&["a", "/"]), write_paths: strings(&["c"]) };
    let r = ensure_valid_read_write_paths(&p, &vec![PathKind::Directory, PathKind::Directory], &vec![PathKind::Missing]);
    assert_eq!(r.failure.unwrap().error, "can not use '/' as read path");
    assert!(r.create.is_empty());
    let p = ReadWritePaths { read_paths: strings(&["a"]), write_paths: strings(&["c"]) };
    let r = ensure_valid_read_write_paths(&p, &vec![PathKind::Missing], &vec![PathKind::Directory]);
    assert_eq!(r.failure.unwrap().error, "read path does not exist: 'a'");
    let r = ensure_valid_read_write_paths(&p, &vec![PathKind::NotDirectory], &vec![PathKind::Directory]);
    assert_eq!(r.failure.unwrap().error, "read path is not a directory: 'a'");
}

#[test]
fn preflight_refuses_bad_write_paths_after_earlier_creations() {
    let p = ReadWritePaths { read_paths: strings(&["a"]), write_paths: strings(&["c", "d", "/", "e"]) };
    let r = ensure_valid_read_write_paths(&p, &vec![PathKind::Directory], &vec![PathKind::Missing, PathKind::NotDirectory, PathKind::Directory, PathKind::Missing]);
    assert_eq!(r.failure.unwrap().error, "write path exists, but is not a directory: 'd'");
    assert_eq!(r.create, strings(&["c"]));
    let p = ReadWritePaths { read_paths: strings(&["a"]), write_paths: strings(&["c", "/"]) };
    let r = ensure_valid_read_write_paths(&p, &vec![PathKind::Directory], &vec![PathKind::Missing, PathKind::Directory]);
    assert_eq!(r.failure.unwrap().error, "can not use '/' as write path");
    assert_eq!(r.create, strings(&["c"]));
}

#[test]
fn worker_drains_only_on_a_clean_stop() {
    assert_eq!(worker_phase(WorkerPhase::Working, true, true), WorkerPhase::Working);
    assert_eq!(worker_phase(WorkerPhase::Working, false, true), WorkerPhase::Draining);
    assert_eq!(worker_phase(WorkerPhase::Working, false, false), WorkerPhase::Stopped);
    assert_eq!(worker_phase(WorkerPhase::Draining, false, true), WorkerPhase::Draining);
    assert_eq!(worker_phase(WorkerPhase::Draining, false, false), WorkerPhase::Stopped);
    assert_eq!(worker_phase(WorkerPhase::Stopped, true, true), WorkerPhase::Stopped);
    assert_eq!(phase_after_timeout(WorkerPhase::Draining), WorkerPhase::Stopped);
    assert_eq!(phase_after_timeout(WorkerPhase::Working), WorkerPhase::Working);
}
