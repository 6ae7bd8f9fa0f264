use nc2mongo::{RunPlan, SinkAction};

#[test]
fn clear_strictly_precedes_upserts() {
    let mut plan = RunPlan::new(2);
    assert!(matches!(plan.next_action(), SinkAction::Clear));
    plan.note_cleared(true);
    assert!(matches!(plan.next_action(), SinkAction::Upsert(0)));
}

#[test]
fn upserts_ascend_one_at_a_time() {
    let mut plan = RunPlan::new(3);
    plan.note_cleared(true);
    for expected in 0..3u64 {
        match plan.next_action() {
            SinkAction::Upsert(i) => assert_eq!(i, expected),
            _ => panic!("expected an upsert"),
        }
        plan.note_upserted(true);
    }
    assert!(matches!(plan.next_action(), SinkAction::Finished));
}

#[test]
fn a_failed_upsert_aborts_the_remaining_profiles() {
    let mut plan = RunPlan::new(5);
    plan.note_cleared(true);
    plan.note_upserted(true);
    plan.note_upserted(false);
    assert!(matches!(plan.next_action(), SinkAction::Finished));
}

#[test]
fn a_failed_clear_writes_nothing() {
    let mut plan = RunPlan::new(5);
    plan.note_cleared(false);
    assert!(matches!(plan.next_action(), SinkAction::Finished));
}

#[test]
fn empty_file_finishes_after_clearing() {
    let mut plan = RunPlan::new(0);
    plan.note_cleared(true);
    assert!(matches!(plan.next_action(), SinkAction::Finished));
}
