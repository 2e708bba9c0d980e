use autograder_rust::cmd::{ExecError, IoFailure, IoKind};
use autograder_rust::config::TestCfg;
use autograder_rust::testcases::{
    classify_stdout_outcome, default_build, default_capture_stderr, default_output,
    default_timeout, BuildPrecheck, OutputSource, ProjectCfg, ProjectToml, Repo, TcResult,
    TestCaseCfg, TestRunner,
};

fn cfg() -> TestCfg {
    TestCfg { tests_path: "/tests".into(), digital_path: "/opt/digital.jar".into() }
}

fn case(name: &str, expected: &str, rubric: i64, case_sensitive: bool) -> TestCaseCfg {
    TestCaseCfg {
        case_sensitive,
        expected: expected.to_string(),
        input: vec!["./$project".to_string(), "$name".to_string()],
        name: name.to_string(),
        output: default_output(),
        rubric,
    }
}

fn runner_with(cases: Vec<TestCaseCfg>) -> TestRunner {
    let mut r = TestRunner::new(&cfg(), false, false, false, "projx".to_string());
    r.load_testcases_from_doc(ProjectToml { project: None, tests: cases });
    r
}

#[test]
fn defaults_match_the_suite_conventions() {
    assert_eq!(default_build(), "make");
    assert_eq!(default_timeout(), 60);
    assert!(default_capture_stderr());
    assert_eq!(default_output(), "stdout");
}

#[test]
fn interpolate_substitutes_all_placeholders() {
    let r = runner_with(vec![]);
    let s = r.interpolate("-cp $digital CLI $project $project_tests/$name.dig", "01");
    assert_eq!(s, "-cp /opt/digital.jar CLI projx /tests/projx/01.dig");
}

#[test]
fn test_command_interpolates_every_argument() {
    let r = runner_with(vec![]);
    let tc = case("02", "ok", 1, false);
    let cmd = r.test_command(&tc);
    assert_eq!(cmd, vec!["./projx".to_string(), "02".to_string()]);
}

#[test]
fn selected_indices_respects_the_name_filter() {
    let r = runner_with(vec![case("01", "a", 1, false), case("02", "b", 2, false), case(
        "01", "c", 3, false,
    )]);
    assert_eq!(r.selected_indices(None), vec![0, 1, 2]);
    assert_eq!(r.selected_indices(Some("01")), vec![0, 2]);
    assert_eq!(r.selected_indices(Some("zz")), Vec::<usize>::new());
}

#[test]
fn match_is_case_insensitive_by_default() {
    let r = runner_with(vec![]);
    let tc = case("01", "Hello World", 1, false);
    assert!(r.match_expected(&tc, "hello world"));
    assert!(r.match_expected(&tc, "HELLO WORLD"));
    assert!(!r.match_expected(&tc, "goodbye"));
}

#[test]
fn match_respects_case_when_asked() {
    let r = runner_with(vec![]);
    let tc = case("01", "Hello", 1, true);
    assert!(r.match_expected(&tc, "Hello"));
    assert!(!r.match_expected(&tc, "hello"));
}

#[test]
fn match_ignores_trailing_whitespace_and_final_newline() {
    let r = runner_with(vec![]);
    let tc = case("01", "ok", 1, false);
    assert!(r.match_expected(&tc, "ok"));
    assert!(r.match_expected(&tc, "ok   "));
    assert!(r.match_expected(&tc, "ok\n"));
    assert!(r.match_expected(&tc, "  ok  \n"));
    assert!(!r.match_expected(&tc, "o k"));
}

#[test]
fn mismatch_earns_zero_without_diagnostic() {
    // A job with two cases, rubrics 2 and 3, where only the second matches:
    // total earned is 3, both results are present in order, and the first
    // carries no diagnostic because it was a content mismatch.
    let r = runner_with(vec![case("01", "alpha", 2, false), case("02", "beta", 3, false)]);
    let tc1 = case("01", "alpha", 2, false);
    let tc2 = case("02", "beta", 3, false);
    let cmd1 = r.test_command(&tc1);
    let res1 = r.run_one_test_outcome(&tc1, &cmd1, Ok("wrong".to_string()));
    let cmd2 = r.test_command(&tc2);
    let res2 = r.run_one_test_outcome(&tc2, &cmd2, Ok("beta".to_string()));
    let repo = Repo::local(".".to_string(), None);
    let rr = r.assemble_repo_result(&repo, None, vec![res1, res2]);
    assert_eq!(rr.score, 3);
    assert_eq!(rr.results.len(), 2);
    assert_eq!(rr.results[0].score, 0);
    assert!(rr.results[0].test_err.is_none());
    assert_eq!(rr.results[1].score, 3);
}

#[test]
fn execution_failures_become_diagnostics() {
    let r = runner_with(vec![case("01", "a", 2, false)]);
    let tc = case("01", "a", 2, false);
    let cmd = vec!["./projx".to_string()];
    let timed = r.run_one_test_outcome(&tc, &cmd, Err(ExecError::Timeout(5_000)));
    assert_eq!(timed.score, 0);
    assert_eq!(timed.test_err.as_deref(), Some("Program timed out (infinite loop?)"));
    let flooded = r.run_one_test_outcome(&tc, &cmd, Err(ExecError::OutputLimit(400_000)));
    assert_eq!(
        flooded.test_err.as_deref(),
        Some("Program produced too much output (infinite loop?)")
    );
    let missing = r.run_one_test_outcome(
        &tc,
        &cmd,
        Err(ExecError::Io(IoFailure { kind: IoKind::NotFound, message: String::new() })),
    );
    assert_eq!(missing.test_err.as_deref(), Some("Program not found (build failed?)"));
    let badbin = r.run_one_test_outcome(
        &tc,
        &cmd,
        Err(ExecError::Io(IoFailure { kind: IoKind::ExecFormat, message: String::new() })),
    );
    assert_eq!(
        badbin.test_err.as_deref(),
        Some("OSError: [Errno 8] Exec format error: './projx'")
    );
}

#[test]
fn strip_output_is_applied_before_comparison() {
    let mut r = runner_with(vec![]);
    r.project_cfg = ProjectCfg {
        build: default_build(),
        strip_output: Some("DEBUG ".to_string()),
        subdir: None,
        timeout: default_timeout(),
        capture_stderr: true,
    };
    let tc = case("01", "ok", 1, false);
    let cmd = r.test_command(&tc);
    let res = r.run_one_test_outcome(&tc, &cmd, Ok("DEBUG ok".to_string()));
    assert_eq!(res.score, 1);
}

#[test]
fn classify_keeps_output_unless_exec_format_like() {
    assert_eq!(classify_stdout_outcome("hi".to_string(), true, Some(0)).unwrap(), "hi");
    assert_eq!(classify_stdout_outcome("fail".to_string(), false, Some(1)).unwrap(), "fail");
    let by_text = classify_stdout_outcome("sh: Exec format error".to_string(), false, Some(1));
    assert!(matches!(by_text, Err(ExecError::Io(f)) if f.kind == IoKind::ExecFormat));
    let by_code = classify_stdout_outcome(String::new(), false, Some(126));
    assert!(matches!(by_code, Err(ExecError::Io(f)) if f.kind == IoKind::ExecFormat));
}

#[test]
fn build_precheck_covers_every_plan() {
    let repo = Repo::local("./repo".to_string(), None);
    let mut r = runner_with(vec![]);
    r.project_cfg.build = "none".to_string();
    assert!(matches!(r.build_precheck(&repo, true, true), BuildPrecheck::Skip));
    r.project_cfg.build = "make".to_string();
    match r.build_precheck(&repo, false, false) {
        BuildPrecheck::Fail(m) => assert_eq!(m, "Repo not found: ./repo"),
        _ => panic!("expected a failure"),
    }
    match r.build_precheck(&repo, true, false) {
        BuildPrecheck::Fail(m) => assert_eq!(m, "Makefile not found: ./repo/Makefile"),
        _ => panic!("expected a failure"),
    }
    match r.build_precheck(&repo, true, true) {
        BuildPrecheck::Run(cmd) => {
            assert_eq!(cmd, vec!["make".to_string(), "-C".to_string(), "./repo".to_string()])
        },
        _ => panic!("expected a command"),
    }
    r.project_cfg.build = "cmake".to_string();
    match r.build_precheck(&repo, true, true) {
        BuildPrecheck::Fail(m) => assert_eq!(m, "Unknown build plan: \"cmake\""),
        _ => panic!("expected a failure"),
    }
    assert!(TestRunner::build_outcome(true).is_none());
    assert_eq!(TestRunner::build_outcome(false).as_deref(), Some(
        "Program did not make successfully",
    ));
}

#[test]
fn missing_directory_yields_empty_zero_result() {
    let r = runner_with(vec![case("01", "a", 2, false)]);
    let repo = Repo::student("projx".to_string(), "alice".to_string(), None, None);
    let rr = r.missing_repo_result(&repo);
    assert_eq!(rr.comment, "Local repo ./projx-alice does not exist");
    assert_eq!(rr.results.len(), 0);
    assert_eq!(rr.score, 0);
    assert_eq!(rr.student.as_deref(), Some("alice"));
    assert!(rr.build_err.is_none());
}

#[test]
fn repo_paths_are_assembled_from_their_parts() {
    let a = Repo::student("projx".to_string(), "bob".to_string(), Some("sub".to_string()), Some(
        "late".to_string(),
    ));
    assert_eq!(a.local_path, "./projx-bob-late/sub");
    assert_eq!(a.display_label, a.local_path);
    let b = Repo::student("projx".to_string(), "bob".to_string(), None, Some(String::new()));
    assert_eq!(b.local_path, "./projx-bob");
    let c = Repo::local("/work/repo".to_string(), Some("sub".to_string()));
    assert_eq!(c.local_path, "/work/repo/sub");
    assert!(c.student.is_none());
}

#[test]
fn earned_avail_sums_scores_and_rubrics() {
    let results = vec![
        TcResult { rubric: 2, score: 2, test: "01".into(), test_err: None },
        TcResult { rubric: 3, score: 0, test: "02".into(), test_err: None },
        TcResult { rubric: 5, score: 5, test: "03".into(), test_err: None },
    ];
    assert_eq!(TestRunner::make_earned_avail_static(&results), "7/10");
    assert_eq!(TestRunner::make_earned_avail_static(&Vec::new()), "0/0");
}

#[test]
fn comment_lays_out_passes_errors_and_total() {
    let r = runner_with(vec![case("01", "a", 2, false), case("02", "b", 3, false)]);
    let results = vec![
        TcResult { rubric: 2, score: 2, test: "01".into(), test_err: None },
        TcResult {
            rubric: 3,
            score: 0,
            test: "02".into(),
            test_err: Some("Program timed out (infinite loop?)".to_string()),
        },
    ];
    let repo = Repo::local(".".to_string(), None);
    let rr = r.assemble_repo_result(&repo, None, results);
    assert_eq!(rr.score, 2);
    assert_eq!(
        rr.comment,
        "01(2/2) 02(0/3)    Program timed out (infinite loop?)\n2/5"
    );
}

#[test]
fn comment_prefixes_the_build_error() {
    let r = runner_with(vec![case("01", "a", 2, false)]);
    let results = vec![TcResult { rubric: 2, score: 0, test: "01".into(), test_err: None }];
    let repo = Repo::local(".".to_string(), None);
    let rr = r.assemble_repo_result(
        &repo,
        Some("Program did not make successfully".to_string()),
        results,
    );
    assert_eq!(rr.comment, "Program did not make successfully 01(0/2) 0/2");
}

#[test]
fn output_source_distinguishes_stdout_from_files() {
    let a = case("01", "x", 1, false);
    assert!(matches!(a.output_source(), OutputSource::Stdout));
    let mut b = case("04", "x", 1, false);
    b.output = "04.txt".to_string();
    match b.output_source() {
        OutputSource::File(f) => assert_eq!(f, "04.txt"),
        _ => panic!("expected a file source"),
    }
}

#[test]
fn histogram_counts_and_orders_scores() {
    let rr = |score: i64, rubric: i64| autograder_rust::testcases::RepoResult {
        comment: String::new(),
        results: vec![TcResult { rubric, score, test: "01".into(), test_err: None }],
        score,
        student: None,
        build_err: None,
    };
    let class = vec![rr(3, 0), rr(7, 10), rr(3, 10), rr(0, 10)];
    assert_eq!(autograder_rust::testcases::histogram_avail(&class), 10);
    let items = autograder_rust::testcases::score_frequencies(&class);
    assert_eq!(items, vec![(7, 1), (3, 2), (0, 1)]);
    assert_eq!(autograder_rust::testcases::count_score(&class, 3), 2);
    assert_eq!(autograder_rust::testcases::count_score(&class, 9), 0);
}
