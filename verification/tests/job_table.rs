use decon::jobs::{JobOutcome, JobTable, StatusReply};

#[test]
fn submitted_job_is_pending_then_processing() {
    let mut t = JobTable::new();
    t.submit("job-1".to_string(), "/data/a.jsonl".to_string());
    assert!(matches!(t.reply("job-1"), StatusReply::Pending));
    t.start("job-1");
    assert!(matches!(t.reply("job-1"), StatusReply::Processing));
}

#[test]
fn finished_job_reports_its_paths() {
    let mut t = JobTable::new();
    t.submit("job-1".to_string(), "/data/a.jsonl".to_string());
    t.start("job-1");
    t.finish(
        "job-1",
        JobOutcome::Done { output_path: Some("/reports/job-1.report.jsonl".to_string()), purified_path: None },
    );
    match t.reply("job-1") {
        StatusReply::Completed { output_path, purified_path } => {
            assert_eq!(output_path.as_deref(), Some("/reports/job-1.report.jsonl"));
            assert_eq!(purified_path, None);
        }
        _ => panic!("expected a completed job"),
    }
}

#[test]
fn failed_jobs_carry_their_error() {
    let mut t = JobTable::new();
    t.submit("a".to_string(), "x".to_string());
    t.submit("b".to_string(), "y".to_string());
    t.submit("c".to_string(), "z".to_string());
    t.finish("a", JobOutcome::ProcessingError("bad json".to_string()));
    t.finish("b", JobOutcome::TaskError("panicked".to_string()));
    t.mark_queue_failed("c");
    match t.reply("a") {
        StatusReply::Failed(m) => assert_eq!(m, "Processing error: bad json"),
        _ => panic!("expected a failure"),
    }
    match t.reply("b") {
        StatusReply::Failed(m) => assert_eq!(m, "Task error: panicked"),
        _ => panic!("expected a failure"),
    }
    match t.reply("c") {
        StatusReply::Failed(m) => assert_eq!(m, "Failed to queue job"),
        _ => panic!("expected a failure"),
    }
}

#[test]
fn unknown_jobs_are_not_found_and_others_unaffected() {
    let mut t = JobTable::new();
    assert!(matches!(t.reply("missing"), StatusReply::NotFound));
    t.submit("a".to_string(), "x".to_string());
    t.start("missing");
    t.finish("missing", JobOutcome::TaskError("e".to_string()));
    assert!(matches!(t.reply("missing"), StatusReply::NotFound));
    assert!(matches!(t.reply("a"), StatusReply::Pending));
}

#[test]
fn resubmitting_an_id_resets_the_job() {
    let mut t = JobTable::new();
    t.submit("a".to_string(), "x".to_string());
    t.start("a");
    t.submit("a".to_string(), "y".to_string());
    assert!(matches!(t.reply("a"), StatusReply::Pending));
}
