use dit::copier::next_copy_step;
use dit::copier::CopyStep;

fn run(outcomes: &[bool]) -> Vec<CopyStep> {
    let mut steps = vec![CopyStep::CheckDest];
    for ok in outcomes {
        let last = *steps.last().unwrap();
        steps.push(next_copy_step(last, *ok));
    }
    steps
}

#[test]
fn successful_copy_renames_last() {
    let s = run(&[true; 7]);
    assert_eq!(s, vec![CopyStep::CheckDest, CopyStep::MakeParent, CopyStep::MakeTemp, CopyStep::CopyData, CopyStep::SetTimes, CopyStep::SetMode, CopyStep::Rename, CopyStep::Done]);
}

#[test]
fn existing_destination_is_left_alone() {
    assert_eq!(run(&[false, true, true]), vec![CopyStep::CheckDest, CopyStep::Done, CopyStep::Done, CopyStep::Done]);
}

#[test]
fn failure_after_temp_removes_it() {
    assert_eq!(run(&[true, true, true, false, true]), vec![CopyStep::CheckDest, CopyStep::MakeParent, CopyStep::MakeTemp, CopyStep::CopyData, CopyStep::RemoveTemp, CopyStep::Failed]);
    assert_eq!(next_copy_step(CopyStep::Rename, false), CopyStep::RemoveTemp);
    assert_eq!(next_copy_step(CopyStep::SetTimes, false), CopyStep::RemoveTemp);
    assert_eq!(next_copy_step(CopyStep::SetMode, false), CopyStep::RemoveTemp);
}

#[test]
fn failure_before_temp_fails_directly() {
    assert_eq!(next_copy_step(CopyStep::MakeParent, false), CopyStep::Failed);
    assert_eq!(next_copy_step(CopyStep::MakeTemp, false), CopyStep::Failed);
    assert_eq!(next_copy_step(CopyStep::Failed, true), CopyStep::Failed);
}
