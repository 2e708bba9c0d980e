use autograder_rust::schedule::{emit_in_order, worker_count, JobQueue, ReorderBuffer};
use autograder_rust::testcases::RepoResult;

fn result_with_label(label: &str, score: i64) -> RepoResult {
    RepoResult {
        comment: String::new(),
        results: Vec::new(),
        score,
        student: Some(label.to_string()),
        build_err: None,
    }
}

#[test]
fn emission_follows_input_order_not_completion_order() {
    // Three jobs A, B, C; B completes last; the output must still read A, B, C.
    let arrivals = vec![
        (0usize, result_with_label("A", 1)),
        (2usize, result_with_label("C", 3)),
        (1usize, result_with_label("B", 2)),
    ];
    let out = emit_in_order(3, arrivals);
    let labels: Vec<String> = out.iter().map(|r| r.student.clone().unwrap()).collect();
    assert_eq!(labels, vec!["A".to_string(), "B".to_string(), "C".to_string()]);
}

#[test]
fn emission_is_total_and_order_independent() {
    // The same assignment under two completion orders gives identical output.
    let a1 = vec![
        (1usize, result_with_label("B", 2)),
        (0usize, result_with_label("A", 1)),
        (2usize, result_with_label("C", 3)),
    ];
    let a2 = vec![
        (2usize, result_with_label("C", 3)),
        (1usize, result_with_label("B", 2)),
        (0usize, result_with_label("A", 1)),
    ];
    let o1 = emit_in_order(3, a1);
    let o2 = emit_in_order(3, a2);
    assert_eq!(o1.len(), 3);
    assert_eq!(o2.len(), 3);
    for (x, y) in o1.iter().zip(o2.iter()) {
        assert_eq!(x.student, y.student);
        assert_eq!(x.score, y.score);
    }
}

#[test]
fn emission_of_empty_job_list_is_empty() {
    let out = emit_in_order(0, Vec::new());
    assert_eq!(out.len(), 0);
}

#[test]
fn reorder_buffer_holds_results_until_ready() {
    let mut buf = ReorderBuffer::new(2);
    assert!(buf.pop_ready().is_none());
    buf.insert(1, result_with_label("B", 2));
    // Job 0 has not completed: nothing may be emitted yet.
    assert!(buf.pop_ready().is_none());
    buf.insert(0, result_with_label("A", 1));
    let first = buf.pop_ready().unwrap();
    assert_eq!(first.student.as_deref(), Some("A"));
    let second = buf.pop_ready().unwrap();
    assert_eq!(second.student.as_deref(), Some("B"));
    assert!(buf.pop_ready().is_none());
}

#[test]
fn job_queue_hands_each_job_out_once() {
    let mut q = JobQueue::new(3);
    assert_eq!(q.claim(), Some(0));
    assert_eq!(q.claim(), Some(1));
    assert_eq!(q.claim(), Some(2));
    assert_eq!(q.claim(), None);
    assert_eq!(q.claim(), None);
}

#[test]
fn worker_count_clamps_and_respects_verbose() {
    assert_eq!(worker_count(Some(8), 4, false), 8);
    assert_eq!(worker_count(None, 4, false), 4);
    assert_eq!(worker_count(Some(0), 4, false), 1);
    assert_eq!(worker_count(None, 0, false), 1);
    assert_eq!(worker_count(Some(8), 4, true), 1);
}

#[test]
fn missing_submission_keeps_its_slot() {
    // A submission whose directory does not exist still occupies its
    // position in the ordered output, and its neighbours are unaffected.
    let cfg = autograder_rust::config::TestCfg {
        tests_path: "/tests".into(),
        digital_path: "/opt/digital.jar".into(),
    };
    let runner = autograder_rust::testcases::TestRunner::new(&cfg, false, false, false, "projx".into());
    let repo = autograder_rust::testcases::Repo::student("projx".into(), "ghost".into(), None, None);
    let missing = runner.missing_repo_result(&repo);
    assert_eq!(missing.score, 0);
    assert!(missing.results.is_empty());
    let arrivals = vec![
        (1usize, missing),
        (0usize, result_with_label("A", 4)),
        (2usize, result_with_label("C", 5)),
    ];
    let out = emit_in_order(3, arrivals);
    assert_eq!(out.len(), 3);
    assert_eq!(out[0].student.as_deref(), Some("A"));
    assert_eq!(out[1].student.as_deref(), Some("ghost"));
    assert_eq!(out[1].comment, "Local repo ./projx-ghost does not exist");
    assert_eq!(out[2].student.as_deref(), Some("C"));
}
