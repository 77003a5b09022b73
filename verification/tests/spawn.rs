use hearsay::spawn::{
    check_spawn,
    already_running_error, broker_address_variable, name_precedes, not_found_error, should_restart, sort_statuses,
    split_arguments, status_after_wait, AppStatus, RestartPolicy, Supervision, WaitOutcome,
};
use hearsay::Error;

#[test]
fn launched_processes_find_the_broker_here() {
    assert_eq!(broker_address_variable(), "HEARSAY_BROKER");
}

#[test]
fn restart_policy_decides_relaunches() {
    let failed = AppStatus::ExitedWithError("exit status: 1".to_string());
    assert!(should_restart(&AppStatus::ExitedSuccessfully, RestartPolicy::Always));
    assert!(should_restart(&failed, RestartPolicy::Always));
    assert!(should_restart(&failed, RestartPolicy::OnFailure));
    assert!(!should_restart(&AppStatus::ExitedSuccessfully, RestartPolicy::OnFailure));
    assert!(!should_restart(&failed, RestartPolicy::Never));
    assert!(!should_restart(&AppStatus::Running, RestartPolicy::Always));
    assert!(!should_restart(&AppStatus::Stopped, RestartPolicy::Always));
    assert_eq!(RestartPolicy::default(), RestartPolicy::Never);
}

#[test]
fn waits_become_statuses() {
    assert_eq!(status_after_wait(WaitOutcome::Running), (AppStatus::Running, true));
    assert_eq!(
        status_after_wait(WaitOutcome::Exited { success: true, description: "exit status: 0".to_string() }),
        (AppStatus::ExitedSuccessfully, false)
    );
    assert_eq!(
        status_after_wait(WaitOutcome::Exited { success: false, description: "exit status: 2".to_string() }),
        (AppStatus::ExitedWithError("exit status: 2".to_string()), false)
    );
    assert_eq!(
        status_after_wait(WaitOutcome::Failed { description: "gone".to_string() }),
        (AppStatus::ExitedWithError("gone".to_string()), false)
    );
}

#[test]
fn spawn_errors_name_the_app() {
    match already_running_error(&"viewer".to_string()) {
        Error::Other(text) => assert_eq!(text, "app 'viewer' is already running"),
        _ => panic!("expected a plain error"),
    }
    match not_found_error(&"viewer".to_string()) {
        Error::Other(text) => assert_eq!(text, "app 'viewer' not found"),
        _ => panic!("expected a plain error"),
    }
}

#[test]
fn arguments_are_cut_at_white_space() {
    assert_eq!(split_arguments("--port 9000  -v"), vec!["--port", "9000", "-v"]);
    assert_eq!(split_arguments("  a\tb\nc  "), vec!["a", "b", "c"]);
    assert!(split_arguments("").is_empty());
    assert!(split_arguments(" \u{3000} ").is_empty());
    assert_eq!(split_arguments("x\u{a0}y"), vec!["x", "y"]);
}

#[test]
fn argument_split_matches_std() {
    for text in ["one two", "\u{2003}lead", "tail\u{2029}", "a\u{85}b c", ""] {
        let expected: Vec<String> = text.split_whitespace().map(str::to_string).collect();
        assert_eq!(split_arguments(text), expected);
    }
}

#[test]
fn names_order_by_code_point() {
    assert!(name_precedes("alpha", "beta"));
    assert!(name_precedes("alpha", "alpha"));
    assert!(name_precedes("al", "alpha"));
    assert!(!name_precedes("beta", "alpha"));
    assert!(name_precedes("Zed", "apple"));
}

#[test]
fn statuses_are_listed_by_name() {
    let statuses = vec![
        ("worker".to_string(), AppStatus::Running),
        ("api".to_string(), AppStatus::Stopped),
        ("monitor".to_string(), AppStatus::ExitedSuccessfully),
    ];
    let sorted = sort_statuses(statuses);
    let names: Vec<&str> = sorted.iter().map(|(name, _)| name.as_str()).collect();
    assert_eq!(names, vec!["api", "monitor", "worker"]);
    assert_eq!(sorted[0].1, AppStatus::Stopped);
}

#[test]
fn stopped_records_stay_stopped() {
    let mut record = Supervision::launched(RestartPolicy::Always);
    assert!(record.holds_process);
    assert_eq!(record.poll(Some(WaitOutcome::Running)), AppStatus::Running);
    record.stop();
    assert!(!record.holds_process);
    for _ in 0..3 {
        assert_eq!(record.poll(None), AppStatus::Stopped);
    }
    assert!(!should_restart(&AppStatus::Stopped, RestartPolicy::Always));
}

#[test]
fn exits_are_remembered_once_seen() {
    let mut record = Supervision::launched(RestartPolicy::Never);
    let status = record.poll(Some(WaitOutcome::Exited { success: false, description: "exit status: 3".to_string() }));
    assert_eq!(status, AppStatus::ExitedWithError("exit status: 3".to_string()));
    assert!(!record.holds_process);
    assert_eq!(record.poll(None), AppStatus::ExitedWithError("exit status: 3".to_string()));
}

#[test]
fn supervision_relaunches_by_policy() {
    let mut always = Supervision::launched(RestartPolicy::Always);
    assert!(always.supervise(Some(WaitOutcome::Exited { success: true, description: "exit status: 0".to_string() })));
    assert!(!always.holds_process);
    always.relaunched();
    assert!(always.holds_process);
    assert_eq!(always.last_status, AppStatus::Running);

    let mut on_failure = Supervision::launched(RestartPolicy::OnFailure);
    assert!(!on_failure.supervise(Some(WaitOutcome::Exited { success: true, description: "exit status: 0".to_string() })));
    let mut failing = Supervision::launched(RestartPolicy::OnFailure);
    assert!(failing.supervise(Some(WaitOutcome::Failed { description: "lost".to_string() })));

    let mut still = Supervision::launched(RestartPolicy::Always);
    assert!(!still.supervise(Some(WaitOutcome::Running)));
    assert!(still.holds_process);
}

#[test]
fn released_handles_keep_the_last_state() {
    let mut record = Supervision::launched(RestartPolicy::Never);
    record.release();
    assert!(!record.holds_process);
    assert_eq!(record.poll(None), AppStatus::Running);
}

#[test]
fn exits_seen_by_a_status_query_are_still_relaunched() {
    let mut record = Supervision::launched(RestartPolicy::OnFailure);
    let status = record.poll(Some(WaitOutcome::Exited { success: false, description: "exit status: 1".to_string() }));
    assert_eq!(status, AppStatus::ExitedWithError("exit status: 1".to_string()));
    assert!(!record.holds_process);
    assert!(record.supervise(None));
    record.relaunched();
    assert_eq!(record.poll(Some(WaitOutcome::Running)), AppStatus::Running);

    let mut stopped = Supervision::launched(RestartPolicy::Always);
    stopped.stop();
    assert!(!stopped.supervise(None));
    assert!(!stopped.supervise(None));
    assert_eq!(stopped.poll(None), AppStatus::Stopped);
}

#[test]
fn only_a_running_app_blocks_a_launch() {
    let name = "viewer".to_string();
    assert!(check_spawn(&name, None).is_ok());
    assert!(check_spawn(&name, Some(AppStatus::Stopped)).is_ok());
    assert!(check_spawn(&name, Some(AppStatus::ExitedSuccessfully)).is_ok());
    match check_spawn(&name, Some(AppStatus::Running)) {
        Err(Error::Other(text)) => assert_eq!(text, "app 'viewer' is already running"),
        _ => panic!("expected a refusal"),
    }
}
