use build_supervisor::supervisor::{ExitCheck, Supervisor};

#[test]
fn start_reports_running() {
    let mut sup = Supervisor::new();
    let id = sup.start_build("dotnet build");
    assert_eq!(id.len(), 36);
    let st = sup.get_build_status(&id, None).unwrap();
    assert_eq!(st.status, "running");
    assert_eq!(st.code, None);
    assert_eq!(st.error, None);
    assert!(st.started_at.is_some());
    assert!(st.finished_at.is_none());
}

#[test]
fn start_ids_are_distinct() {
    let mut sup = Supervisor::new();
    let a = sup.start_build("cmd one");
    let b = sup.start_build("cmd two");
    assert_ne!(a, b);
}

#[test]
fn successful_exit_reports_success() {
    let mut sup = Supervisor::new();
    let id = sup.start_build("short job");
    let st = sup
        .get_build_status(&id, Some(ExitCheck::Exited { code: Some(0), success: true }))
        .unwrap();
    assert_eq!(st.status, "success");
    assert_eq!(st.code, Some(0));
    assert_eq!(st.error, None);
    assert!(st.finished_at.is_some());
}

#[test]
fn nonzero_exit_reports_error_with_code() {
    let mut sup = Supervisor::new();
    let id = sup.start_build("bad job");
    let st = sup
        .get_build_status(&id, Some(ExitCheck::Exited { code: Some(2), success: false }))
        .unwrap();
    assert_eq!(st.status, "error");
    assert_eq!(st.code, Some(2));
    assert_eq!(st.error.as_deref(), Some("Process exited with code Some(2)"));
    assert!(st.finished_at.is_some());
}

#[test]
fn negative_exit_code_is_rendered() {
    let mut sup = Supervisor::new();
    let id = sup.start_build("signalled job");
    let st = sup
        .get_build_status(&id, Some(ExitCheck::Exited { code: Some(-1), success: false }))
        .unwrap();
    assert_eq!(st.error.as_deref(), Some("Process exited with code Some(-1)"));
}

#[test]
fn missing_exit_code_is_rendered() {
    let mut sup = Supervisor::new();
    let id = sup.start_build("killed job");
    let st = sup
        .get_build_status(&id, Some(ExitCheck::Exited { code: None, success: false }))
        .unwrap();
    assert_eq!(st.status, "error");
    assert_eq!(st.code, None);
    assert_eq!(st.error.as_deref(), Some("Process exited with code None"));
}

#[test]
fn failed_check_reports_error_and_finishes() {
    let mut sup = Supervisor::new();
    let id = sup.start_build("odd job");
    let st = sup
        .get_build_status(&id, Some(ExitCheck::CheckFailed("handle gone".to_string())))
        .unwrap();
    assert_eq!(st.status, "error");
    assert_eq!(st.code, None);
    assert_eq!(st.error.as_deref(), Some("Failed to check process: handle gone"));
    assert!(st.finished_at.is_some());
}

#[test]
fn terminal_poll_is_idempotent() {
    let mut sup = Supervisor::new();
    let id = sup.start_build("job");
    let first = sup
        .get_build_status(&id, Some(ExitCheck::Exited { code: Some(0), success: true }))
        .unwrap();
    // Whatever later checks claim, the terminal fields never change.
    let second = sup
        .get_build_status(&id, Some(ExitCheck::Exited { code: Some(7), success: false }))
        .unwrap();
    let third = sup.get_build_status(&id, None).unwrap();
    for st in [&second, &third] {
        assert_eq!(st.status, first.status);
        assert_eq!(st.code, first.code);
        assert_eq!(st.error, first.error);
        assert_eq!(st.started_at, first.started_at);
        assert_eq!(st.finished_at, first.finished_at);
    }
}

#[test]
fn cancel_running_job_wins() {
    let mut sup = Supervisor::new();
    let id = sup.start_build("long job");
    assert_eq!(sup.cancel_build(&id), Ok(true));
    // Even if the process happened to exit right then, cancel sticks.
    let st = sup
        .get_build_status(&id, Some(ExitCheck::Exited { code: Some(0), success: true }))
        .unwrap();
    assert_eq!(st.status, "cancelled");
    assert_eq!(st.code, None);
    assert!(st.finished_at.is_some());
}

#[test]
fn cancel_finished_job_is_a_no_op() {
    let mut sup = Supervisor::new();
    let id = sup.start_build("job");
    let before = sup
        .get_build_status(&id, Some(ExitCheck::Exited { code: Some(0), success: true }))
        .unwrap();
    assert_eq!(sup.cancel_build(&id), Ok(false));
    let after = sup.get_build_status(&id, None).unwrap();
    assert_eq!(after.status, before.status);
    assert_eq!(after.code, before.code);
    assert_eq!(after.finished_at, before.finished_at);
}

#[test]
fn unknown_id_is_not_found_everywhere() {
    let mut sup = Supervisor::new();
    let _ = sup.start_build("real job");
    let ghost_id = "no-such-build".to_string();
    assert_eq!(
        sup.get_build_status(&ghost_id, None).unwrap_err(),
        "Build not found"
    );
    assert_eq!(sup.get_build_logs(&ghost_id, 0).unwrap_err(), "Build not found");
    assert_eq!(sup.cancel_build(&ghost_id).unwrap_err(), "Build not found");
}

#[test]
fn logs_start_with_command_line() {
    let mut sup = Supervisor::new();
    let id = sup.start_build("dotnet \"x.dll\" Target");
    let resp = sup.get_build_logs(&id, 0).unwrap();
    assert_eq!(resp.lines, vec!["Running: dotnet \"x.dll\" Target".to_string()]);
    assert_eq!(resp.next_index, 1);
    assert!(!resp.finished);
}

#[test]
fn three_lines_then_error_are_all_fetched() {
    let mut sup = Supervisor::new();
    let id = sup.start_build("build it");
    assert!(sup.append_log(&id, "line one"));
    assert!(sup.append_log(&id, "line two"));
    assert!(sup.append_log(&id, "line three"));
    let st = sup
        .get_build_status(&id, Some(ExitCheck::Exited { code: Some(6), success: false }))
        .unwrap();
    assert_eq!(st.status, "error");
    assert_eq!(st.code, Some(6));
    let resp = sup.get_build_logs(&id, 0).unwrap();
    assert_eq!(
        resp.lines,
        vec![
            "Running: build it".to_string(),
            "line one".to_string(),
            "line two".to_string(),
            "line three".to_string(),
        ]
    );
    assert_eq!(resp.next_index, 4);
    assert!(resp.finished);
}

#[test]
fn fetch_is_monotonic_across_appends() {
    let mut sup = Supervisor::new();
    let id = sup.start_build("job");
    assert!(sup.append_log(&id, "a"));
    let first = sup.get_build_logs(&id, 0).unwrap();
    assert_eq!(first.lines.len(), 2);
    assert!(sup.append_log(&id, "b"));
    assert!(sup.append_log(&id, "c"));
    let second = sup.get_build_logs(&id, first.next_index).unwrap();
    // Nothing is re-returned, nothing appended since is lost.
    assert_eq!(second.lines, vec!["b".to_string(), "c".to_string()]);
    assert_eq!(second.next_index, 4);
    let third = sup.get_build_logs(&id, second.next_index).unwrap();
    assert!(third.lines.is_empty());
    assert_eq!(third.next_index, 4);
}

#[test]
fn cursor_past_end_reads_empty() {
    let mut sup = Supervisor::new();
    let id = sup.start_build("job");
    let resp = sup.get_build_logs(&id, 100).unwrap();
    assert!(resp.lines.is_empty());
    assert_eq!(resp.next_index, 1);
}

#[test]
fn append_to_unknown_id_reports_false() {
    let mut sup = Supervisor::new();
    let _ = sup.start_build("job");
    assert!(!sup.append_log(&"missing".to_string(), "stray"));
}

#[test]
fn two_jobs_have_independent_buffers() {
    let mut sup = Supervisor::new();
    let one = sup.start_build("first command");
    let two = sup.start_build("second command");
    assert!(sup.append_log(&one, "from one"));
    assert!(sup.append_log(&two, "from two"));
    assert!(sup.append_log(&one, "more from one"));
    let logs_one = sup.get_build_logs(&one, 0).unwrap();
    let logs_two = sup.get_build_logs(&two, 0).unwrap();
    assert_eq!(
        logs_one.lines,
        vec![
            "Running: first command".to_string(),
            "from one".to_string(),
            "more from one".to_string(),
        ]
    );
    assert_eq!(
        logs_two.lines,
        vec!["Running: second command".to_string(), "from two".to_string()]
    );
    // Cancelling one job leaves the other running.
    assert_eq!(sup.cancel_build(&one), Ok(true));
    let st_two = sup.get_build_status(&two, None).unwrap();
    assert_eq!(st_two.status, "running");
}
