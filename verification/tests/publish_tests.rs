use opnsense_bind9::publish::{first_step, next_step, PublishStep, StepOutcome};

fn run_to_end(mut outcome_of: impl FnMut(PublishStep) -> StepOutcome) -> (PublishStep, u32) {
    let mut step = first_step();
    let mut reload_attempts: u32 = 0;
    let mut guard: u32 = 0;
    while step != PublishStep::Done && step != PublishStep::Aborted {
        if step == PublishStep::ReloadForward || step == PublishStep::ReloadReverse {
            reload_attempts += 1;
        }
        let outcome = outcome_of(step);
        step = next_step(step, outcome);
        guard += 1;
        assert!(guard < 32, "the publish run must terminate");
    }
    (step, reload_attempts)
}

#[test]
fn all_steps_succeed_in_order() {
    let mut seen = Vec::new();
    let (end, reloads) = run_to_end(|s| {
        seen.push(s);
        StepOutcome::Success
    });
    assert_eq!(end, PublishStep::Done);
    assert_eq!(reloads, 2);
    assert_eq!(
        seen,
        vec![
            PublishStep::WriteForwardFile,
            PublishStep::BumpForwardSerial,
            PublishStep::WriteReverseFile,
            PublishStep::BumpReverseSerial,
            PublishStep::ReloadForward,
            PublishStep::ReloadReverse,
        ]
    );
}

#[test]
fn forward_reload_failure_still_attempts_reverse_reload() {
    // both reloads are attempted whatever the first reload's outcome
    let (end, reloads) = run_to_end(|s| {
        if s == PublishStep::ReloadForward {
            StepOutcome::Failure
        } else {
            StepOutcome::Success
        }
    });
    assert_eq!(end, PublishStep::Done);
    assert_eq!(reloads, 2);
    assert_eq!(
        next_step(PublishStep::ReloadForward, StepOutcome::Failure),
        PublishStep::ReloadReverse
    );
    assert_eq!(
        next_step(PublishStep::ReloadForward, StepOutcome::Success),
        PublishStep::ReloadReverse
    );
}

#[test]
fn failed_file_write_aborts_before_any_reload() {
    let (end, reloads) = run_to_end(|s| {
        if s == PublishStep::WriteForwardFile {
            StepOutcome::Failure
        } else {
            StepOutcome::Success
        }
    });
    assert_eq!(end, PublishStep::Aborted);
    assert_eq!(reloads, 0);
}

#[test]
fn failed_reverse_serial_bump_aborts_before_any_reload() {
    let (end, reloads) = run_to_end(|s| {
        if s == PublishStep::BumpReverseSerial {
            StepOutcome::Failure
        } else {
            StepOutcome::Success
        }
    });
    assert_eq!(end, PublishStep::Aborted);
    assert_eq!(reloads, 0);
}
