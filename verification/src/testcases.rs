//! The test case evaluator: one submission's build step plus a sequence of
//! black-box test case runs, turned into one `RepoResult`.
//!
//! Everything that decides or computes is verified here: placeholder
//! interpolation, selection of test cases, classification of execution
//! outcomes, output comparison, scoring, and the assembled comment.  The
//! binary around the library spawns the processes and reads the files, and
//! hands the observed outcomes to these functions.

use vstd::prelude::*;
use vstd::string::*;
use crate::config::TestCfg;
use crate::text::{replace_seq, replace_str, str_eq, views_of};

verus! {

/// The default build plan: run `make`.
pub fn default_build() -> (r: String)
    ensures
        r@ == "make"@,
{
    String::from_str("make")
}

/// The default per-test timeout, in seconds.
pub fn default_timeout() -> (r: u64)
    ensures
        r == 60,
{
    60
}

/// By default stderr is captured together with stdout.
pub fn default_capture_stderr() -> (r: bool)
    ensures
        r,
{
    true
}

/// The default output source of a test case: the child's stdout.
pub fn default_output() -> (r: String)
    ensures
        r@ == "stdout"@,
{
    String::from_str("stdout")
}

/// Per-project settings from the suite definition: the build plan (`make`,
/// `none`, or unknown), an optional substring stripped from every output, an
/// optional subdirectory inside each submission, the per-test timeout in
/// seconds, and whether stderr is captured.
pub struct ProjectCfg {
    pub build: String,
    pub strip_output: Option<String>,
    pub subdir: Option<String>,
    pub timeout: u64,
    pub capture_stderr: bool,
}

/// One test case of the shared suite.
pub struct TestCaseCfg {
    pub case_sensitive: bool,
    pub expected: String,
    pub input: Vec<String>,
    pub name: String,
    /// `stdout`, or the name of a file the child writes.
    pub output: String,
    pub rubric: i64,
}

/// A whole suite definition: project settings and the ordered test cases.
pub struct ProjectToml {
    pub project: Option<ProjectCfg>,
    pub tests: Vec<TestCaseCfg>,
}

/// One submission to grade: the student it belongs to (if any), the label
/// under which results are reported, and the working directory.
pub struct Repo {
    pub student: Option<String>,
    pub display_label: String,
    pub local_path: String,
}

impl Repo {
    /// A submission at an explicit local path, optionally inside a project
    /// subdirectory.
    pub fn local(local: String, subdir: Option<String>) -> (r: Repo)
        ensures
            r.student is None,
            r.local_path@ == match subdir {
                Some(sd) => local@ + "/"@ + sd@,
                None => local@,
            },
            r.display_label@ == r.local_path@,
    {
        let mut p = local;
        match &subdir {
            Some(sd) => {
                p.append("/");
                p.append(sd.as_str());
            },
            None => {},
        }
        let label = p.clone();
        Repo { student: None, display_label: label, local_path: p }
    }

    /// A student's submission, checked out as `./project-student`, with an
    /// optional `-suffix` and an optional project subdirectory.
    pub fn student(project: String, student: String, subdir: Option<String>, suffix: Option<
        String,
    >) -> (r: Repo)
        ensures
            r.student is Some && r.student->0@ == student@,
            r.local_path@ == ({
                let base = project@ + "-"@ + student@;
                let with_suffix = match suffix {
                    Some(suf) => if suf@.len() > 0 {
                        base + "-"@ + suf@
                    } else {
                        base
                    },
                    None => base,
                };
                let with_subdir = match subdir {
                    Some(sd) => with_suffix + "/"@ + sd@,
                    None => with_suffix,
                };
                "./"@ + with_subdir
            }),
            r.display_label@ == r.local_path@,
    {
        let mut p = String::from_str("./");
        p.append(project.as_str());
        p.append("-");
        p.append(student.as_str());
        match &suffix {
            Some(suf) => {
                if suf.unicode_len() > 0 {
                    p.append("-");
                    p.append(suf.as_str());
                }
            },
            None => {},
        }
        match &subdir {
            Some(sd) => {
                p.append("/");
                p.append(sd.as_str());
            },
            None => {},
        }
        let label = p.clone();
        Repo { student: Some(student), display_label: label, local_path: p }
    }
}

/// The result of one test case: the points available, the points earned (all
/// or nothing), the case name, and — only when execution itself failed — a
/// diagnostic.  An output mismatch earns zero points with no diagnostic.
pub struct TcResult {
    pub rubric: i64,
    pub score: i64,
    pub test: String,
    pub test_err: Option<String>,
}

/// The result of one whole submission: the comment shown to the student, the
/// per-case results in suite order, the total earned score, the student, and
/// the build failure if there was one.
pub struct RepoResult {
    pub comment: String,
    pub results: Vec<TcResult>,
    pub score: i64,
    pub student: Option<String>,
    pub build_err: Option<String>,
}

/// Drives one submission through the suite.  The runner holds the suite
/// location, the external simulator path, output flags, and the suite loaded
/// for the current project.
pub struct TestRunner {
    pub tests_path: String,
    pub digital_path: String,
    pub verbose: bool,
    pub very_verbose: bool,
    pub unified_diff: bool,
    pub quiet: bool,
    pub project: String,
    pub project_cfg: ProjectCfg,
    pub testcases: Vec<TestCaseCfg>,
}

/// The name filter: `None` keeps every case, `Some(n)` keeps the cases named
/// `n`.
pub open spec fn case_selected(name: Seq<char>, only: Option<Seq<char>>) -> bool {
    match only {
        None => true,
        Some(n) => name == n,
    }
}

/// The view of an optional name filter.
pub open spec fn spec_only(only: Option<&str>) -> Option<Seq<char>> {
    match only {
        None => None,
        Some(n) => Some(n@),
    }
}

/// The indices, in order, of the cases among the first `i` of `cases` that
/// the filter keeps.
pub open spec fn spec_selected_indices(
    cases: Seq<TestCaseCfg>,
    only: Option<Seq<char>>,
    i: int,
) -> Seq<int>
    decreases i,
{
    if i <= 0 {
        Seq::empty()
    } else {
        spec_selected_indices(cases, only, i - 1) + (if case_selected(cases[i - 1].name@, only) {
            seq![i - 1]
        } else {
            Seq::empty()
        })
    }
}

/// The indices of a `Vec<usize>` as mathematical integers.
pub open spec fn usizes_as_ints(s: Seq<usize>) -> Seq<int> {
    s.map_values(|u: usize| u as int)
}

impl TestRunner {
    /// A fresh runner for one project.  The suite is loaded separately, from
    /// an already-parsed suite definition.
    pub fn new(
        cfg: &TestCfg,
        verbose: bool,
        very_verbose: bool,
        unified_diff: bool,
        project: String,
    ) -> (r: TestRunner)
        ensures
            r.tests_path@ == cfg.tests_path@,
            r.digital_path@ == cfg.digital_path@,
            r.verbose == verbose,
            r.very_verbose == very_verbose,
            r.unified_diff == unified_diff,
            !r.quiet,
            r.project@ == project@,
            r.project_cfg.build@ == "make"@,
            r.project_cfg.strip_output is None,
            r.project_cfg.subdir is None,
            r.project_cfg.timeout == 60,
            r.project_cfg.capture_stderr,
            r.testcases@ =~= Seq::<TestCaseCfg>::empty(),
    {
        TestRunner {
            tests_path: cfg.tests_path.clone(),
            digital_path: cfg.digital_path.clone(),
            verbose,
            very_verbose,
            unified_diff,
            quiet: false,
            project,
            project_cfg: ProjectCfg {
                build: default_build(),
                strip_output: None,
                subdir: None,
                timeout: default_timeout(),
                capture_stderr: default_capture_stderr(),
            },
            testcases: Vec::new(),
        }
    }

    /// Silences the per-case pass/fail lines the caller would print.
    pub fn set_quiet(&mut self, quiet: bool)
        ensures
            final(self).quiet == quiet,
            final(self).tests_path == old(self).tests_path,
            final(self).digital_path == old(self).digital_path,
            final(self).verbose == old(self).verbose,
            final(self).very_verbose == old(self).very_verbose,
            final(self).unified_diff == old(self).unified_diff,
            final(self).project == old(self).project,
            final(self).project_cfg == old(self).project_cfg,
            final(self).testcases == old(self).testcases,
    {
        self.quiet = quiet;
    }

    /// The project subdirectory configured by the suite, if any.
    pub fn project_subdir(&self) -> (r: Option<String>)
        ensures
            match r {
                None => self.project_cfg.subdir is None,
                Some(s) => self.project_cfg.subdir is Some && s@ == self.project_cfg.subdir->0@,
            },
    {
        match &self.project_cfg.subdir {
            None => None,
            Some(s) => Some(s.clone()),
        }
    }

    /// Installs an already-parsed suite definition: its project settings, if
    /// present, replace the defaults, and its test cases become the suite.
    /// Returns whether the suite is empty, so the caller can warn.
    pub fn load_testcases_from_doc(&mut self, doc: ProjectToml) -> (empty: bool)
        ensures
            final(self).testcases == doc.tests,
            final(self).project_cfg == match doc.project {
                Some(p) => p,
                None => old(self).project_cfg,
            },
            final(self).tests_path == old(self).tests_path,
            final(self).digital_path == old(self).digital_path,
            final(self).verbose == old(self).verbose,
            final(self).very_verbose == old(self).very_verbose,
            final(self).unified_diff == old(self).unified_diff,
            final(self).quiet == old(self).quiet,
            final(self).project == old(self).project,
            empty == (doc.tests@.len() == 0),
    {
        let ProjectToml { project, tests } = doc;
        match project {
            Some(p) => {
                self.project_cfg = p;
            },
            None => {},
        }
        let empty = tests.len() == 0;
        self.testcases = tests;
        empty
    }

    /// The directory that holds this project's shared test assets.
    pub open spec fn spec_project_tests_dir(&self) -> Seq<char> {
        self.tests_path@ + "/"@ + self.project@
    }

    /// What [`Self::interpolate`] returns: the four placeholders replaced by
    /// their values, longest placeholder first so that `$project` does not
    /// eat the prefix of `$project_tests`.
    pub open spec fn spec_interpolate(&self, s: Seq<char>, name: Seq<char>) -> Seq<char> {
        replace_seq(
            replace_seq(
                replace_seq(
                    replace_seq(s, "$project_tests"@, self.spec_project_tests_dir()),
                    "$project"@,
                    self.project@,
                ),
                "$digital"@,
                self.digital_path@,
            ),
            "$name"@,
            name,
        )
    }

    /// Substitutes the placeholders in a command argument or expected text:
    /// `$project_tests` (the shared test-asset directory), `$project`,
    /// `$digital` (the external simulator), and `$name` (the current case).
    pub fn interpolate(&self, s: &str, tc_name: &str) -> (r: String)
        ensures
            r@ == self.spec_interpolate(s@, tc_name@),
    {
        let mut pt = String::from_str(self.tests_path.as_str());
        pt.append("/");
        pt.append(self.project.as_str());
        let a = replace_str(s, "$project_tests", pt.as_str());
        let b = replace_str(a.as_str(), "$project", self.project.as_str());
        let c = replace_str(b.as_str(), "$digital", self.digital_path.as_str());
        replace_str(c.as_str(), "$name", tc_name)
    }

    /// The fully interpolated command line of one test case.
    pub open spec fn spec_test_command(&self, input: Seq<String>, name: Seq<char>) -> Seq<
        Seq<char>,
    > {
        Seq::new(input.len(), |i: int| self.spec_interpolate(input[i]@, name))
    }

    /// Builds the command line of one test case, substituting placeholders
    /// in every argument.
    pub fn test_command(&self, tc: &TestCaseCfg) -> (r: Vec<String>)
        ensures
            views_of(r@) == self.spec_test_command(tc.input@, tc.name@),
    {
        let mut out: Vec<String> = Vec::new();
        let mut i: usize = 0;
        while i < tc.input.len()
            invariant
                i <= tc.input@.len(),
                views_of(out@) == self.spec_test_command(tc.input@.subrange(0, i as int), tc.name@),
            decreases tc.input.len() - i,
        {
            let ghost out0 = out@;
            let ghost i0 = i as int;
            let arg = self.interpolate(tc.input[i].as_str(), tc.name.as_str());
            out.push(arg);
            i = i + 1;
            proof {
                assert(out@ =~= out0.push(arg));
                assert(views_of(out0).len() == out0.len());
                assert(out0.len() == i0);
                assert(out@.len() == i as int);
                let s1 = views_of(out@);
                let s2 = self.spec_test_command(tc.input@.subrange(0, i as int), tc.name@);
                assert(s1.len() == i as int);
                assert(s2.len() == i as int);
                assert forall|k: int| 0 <= k < s1.len() implies s1[k] == s2[k] by {
                    assert(tc.input@.subrange(0, i as int)[k] == tc.input@[k]);
                    if k < i0 {
                        assert(views_of(out0)[k] == self.spec_test_command(
                            tc.input@.subrange(0, i0),
                            tc.name@,
                        )[k]);
                        assert(tc.input@.subrange(0, i0)[k] == tc.input@[k]);
                    } else {
                        assert(out@[k] == arg);
                    }
                }
                assert(s1 =~= s2);
            }
        }
        proof {
            assert(tc.input@.subrange(0, tc.input@.len() as int) =~= tc.input@);
            assert(views_of(out@) =~~= self.spec_test_command(tc.input@, tc.name@));
        }
        out
    }

    /// The positions of the test cases the filter keeps, in suite order: all
    /// of them, or exactly those whose name equals the filter.
    pub fn selected_indices(&self, only_name: Option<&str>) -> (r: Vec<usize>)
        ensures
            usizes_as_ints(r@) == spec_selected_indices(
                self.testcases@,
                spec_only(only_name),
                self.testcases@.len() as int,
            ),
    {
        let mut out: Vec<usize> = Vec::new();
        let mut i: usize = 0;
        proof {
            assert(usizes_as_ints(out@) =~= spec_selected_indices(
                self.testcases@,
                spec_only(only_name),
                0,
            ));
        }
        while i < self.testcases.len()
            invariant
                i <= self.testcases@.len(),
                usizes_as_ints(out@) == spec_selected_indices(
                    self.testcases@,
                    spec_only(only_name),
                    i as int,
                ),
            decreases self.testcases.len() - i,
        {
            let keep = match only_name {
                None => true,
                Some(n) => str_eq(self.testcases[i].name.as_str(), n),
            };
            if keep {
                out.push(i);
            }
            i = i + 1;
            proof {
                assert(usizes_as_ints(out@) =~= spec_selected_indices(
                    self.testcases@,
                    spec_only(only_name),
                    i as int,
                ));
            }
        }
        out
    }
}

} // verus!

verus! {

/// The sum of a sequence of integers.
pub open spec fn sum_int(s: Seq<int>) -> int
    decreases s.len(),
{
    if s.len() == 0 {
        0
    } else {
        sum_int(s.drop_last()) + s.last()
    }
}

/// The rubric points of each result.
pub open spec fn rubrics_of(rs: Seq<TcResult>) -> Seq<int> {
    rs.map_values(|t: TcResult| t.rubric as int)
}

/// The earned points of each result.
pub open spec fn scores_of(rs: Seq<TcResult>) -> Seq<int> {
    rs.map_values(|t: TcResult| t.score as int)
}

/// The rubric points of each configured test case.
pub open spec fn case_rubrics_of(cs: Seq<TestCaseCfg>) -> Seq<int> {
    cs.map_values(|t: TestCaseCfg| t.rubric as int)
}

/// A sum of non-negative numbers is non-negative.
pub proof fn lemma_sum_nonneg(s: Seq<int>)
    requires
        forall|k: int| 0 <= k < s.len() ==> s[k] >= 0,
    ensures
        sum_int(s) >= 0,
    decreases s.len(),
{
    if s.len() > 0 {
        lemma_sum_nonneg(s.drop_last());
    }
}

/// With non-negative elements, every prefix sum is at most the whole sum.
pub proof fn lemma_prefix_sum_bound(s: Seq<int>, i: int)
    requires
        0 <= i <= s.len(),
        forall|k: int| 0 <= k < s.len() ==> s[k] >= 0,
    ensures
        sum_int(s.subrange(0, i)) <= sum_int(s),
        sum_int(s.subrange(0, i)) >= 0,
    decreases s.len() - i,
{
    lemma_sum_nonneg(s.subrange(0, i));
    if i == s.len() {
        assert(s.subrange(0, i) =~= s);
    } else {
        assert(s.subrange(0, i + 1).drop_last() =~= s.subrange(0, i));
        assert(sum_int(s.subrange(0, i + 1)) == sum_int(s.subrange(0, i)) + s[i]);
        lemma_prefix_sum_bound(s, i + 1);
    }
}

fn sum_i64_seq(s: &Vec<i64>) -> (r: i64)
    requires
        forall|k: int| 0 <= k < s@.len() ==> s@[k] >= 0,
        sum_int(s@.map_values(|x: i64| x as int)) <= i64::MAX,
    ensures
        r as int == sum_int(s@.map_values(|x: i64| x as int)),
        r >= 0,
{
    let ghost m = s@.map_values(|x: i64| x as int);
    let mut acc: i64 = 0;
    proof {
        assert(m.subrange(0, 0) =~= Seq::<int>::empty());
    }
    let mut i: usize = 0;
    while i < s.len()
        invariant
            i <= s@.len(),
            m == s@.map_values(|x: i64| x as int),
            m.len() == s@.len(),
            forall|k: int| 0 <= k < m.len() ==> m[k] >= 0,
            sum_int(m) <= i64::MAX,
            acc as int == sum_int(m.subrange(0, i as int)),
            acc >= 0,
        decreases s.len() - i,
    {
        proof {
            assert(m.subrange(0, i + 1).drop_last() =~= m.subrange(0, i as int));
            assert(m.subrange(0, i + 1).last() == m[i as int]);
            lemma_prefix_sum_bound(m, i + 1);
        }
        acc = acc + s[i];
        i = i + 1;
    }
    proof {
        assert(m.subrange(0, m.len() as int) =~= m);
    }
    acc
}

impl TestRunner {
    /// The points available over the whole suite: the sum of every
    /// configured case's rubric.  Rubrics are non-negative and their sum
    /// must fit the machine integer.
    pub fn total_rubric(&self) -> (r: i64)
        requires
            forall|k: int| 0 <= k < self.testcases@.len() ==> self.testcases@[k].rubric >= 0,
            sum_int(case_rubrics_of(self.testcases@)) <= i64::MAX,
        ensures
            r as int == sum_int(case_rubrics_of(self.testcases@)),
            r >= 0,
    {
        let ghost m = case_rubrics_of(self.testcases@);
        let mut v: Vec<i64> = Vec::new();
        let mut i: usize = 0;
        while i < self.testcases.len()
            invariant
                i <= self.testcases@.len(),
                v@ == self.testcases@.subrange(0, i as int).map_values(
                    |t: TestCaseCfg| t.rubric,
                ),
            decreases self.testcases.len() - i,
        {
            v.push(self.testcases[i].rubric);
            i = i + 1;
            proof {
                assert(v@ =~= self.testcases@.subrange(0, i as int).map_values(
                    |t: TestCaseCfg| t.rubric,
                ));
            }
        }
        proof {
            assert(self.testcases@.subrange(0, self.testcases@.len() as int) =~= self.testcases@);
            assert(v@.map_values(|x: i64| x as int) =~= m);
        }
        sum_i64_seq(&v)
    }
}

/// What [`TestRunner::make_earned_avail_static`] returns: the earned points
/// over the available points, `earned/avail`.
pub open spec fn spec_earned_avail(earned: int, avail: int) -> Seq<char> {
    crate::text::dec_string(earned) + "/"@ + crate::text::dec_string(avail)
}

impl TestRunner {
    /// Formats `earned/avail` for a finished list of case results: the sum
    /// of earned points over the sum of rubric points.
    pub fn make_earned_avail_static(results: &Vec<TcResult>) -> (r: String)
        requires
            forall|k: int| 0 <= k < results@.len() ==> results@[k].rubric >= 0,
            forall|k: int| 0 <= k < results@.len() ==> results@[k].score >= 0,
            sum_int(rubrics_of(results@)) <= i64::MAX,
            sum_int(scores_of(results@)) <= i64::MAX,
        ensures
            r@ == spec_earned_avail(sum_int(scores_of(results@)), sum_int(rubrics_of(results@))),
    {
        let mut rubs: Vec<i64> = Vec::new();
        let mut scrs: Vec<i64> = Vec::new();
        let mut i: usize = 0;
        while i < results.len()
            invariant
                i <= results@.len(),
                rubs@ == results@.subrange(0, i as int).map_values(|t: TcResult| t.rubric),
                scrs@ == results@.subrange(0, i as int).map_values(|t: TcResult| t.score),
            decreases results.len() - i,
        {
            rubs.push(results[i].rubric);
            scrs.push(results[i].score);
            i = i + 1;
            proof {
                assert(rubs@ =~= results@.subrange(0, i as int).map_values(
                    |t: TcResult| t.rubric,
                ));
                assert(scrs@ =~= results@.subrange(0, i as int).map_values(|t: TcResult| t.score));
            }
        }
        proof {
            assert(results@.subrange(0, results@.len() as int) =~= results@);
            assert(rubs@.map_values(|x: i64| x as int) =~= rubrics_of(results@));
            assert(scrs@.map_values(|x: i64| x as int) =~= scores_of(results@));
        }
        let avail = sum_i64_seq(&rubs);
        let earned = sum_i64_seq(&scrs);
        let mut s = crate::text::i64_to_string(earned);
        s.append("/");
        let av = crate::text::i64_to_string(avail);
        s.append(av.as_str());
        s
    }
}

} // verus!

verus! {

impl TestRunner {
    /// The configured `strip_output` substring removed from a captured
    /// output; the output unchanged when none is configured.
    pub open spec fn spec_strip(&self, out: Seq<char>) -> Seq<char> {
        match self.project_cfg.strip_output {
            None => out,
            Some(st) => replace_seq(out, st@, Seq::empty()),
        }
    }

    /// Expected and actual output agree: after interpolating the expected
    /// text, trimming trailing white space off both whole texts, and
    /// normalizing every line identically, the two line sequences are equal.
    pub open spec fn spec_outputs_match(
        &self,
        expected_raw: Seq<char>,
        actual: Seq<char>,
        case_sensitive: bool,
        name: Seq<char>,
    ) -> bool {
        let exp = self.spec_interpolate(expected_raw, name);
        crate::util::spec_normalize_lines(crate::text::trim_end_seq(exp), case_sensitive)
            == crate::util::spec_normalize_lines(crate::text::trim_end_seq(actual), case_sensitive)
    }

    /// Compares a captured output against the case's expected text, line by
    /// normalized line.  Any difference is full failure; there is no
    /// partial-line credit.
    pub fn match_expected(&self, tc: &TestCaseCfg, actual: &str) -> (r: bool)
        ensures
            r == self.spec_outputs_match(tc.expected@, actual@, tc.case_sensitive, tc.name@),
    {
        let exp = self.interpolate(tc.expected.as_str(), tc.name.as_str());
        let ev = crate::text::chars_of(exp.as_str());
        let et = crate::text::trim_end_chars(&ev);
        let es = crate::text::string_from_chars(&et);
        let lhs = crate::util::normalize_lines(es.as_str(), tc.case_sensitive);
        let av = crate::text::chars_of(actual);
        let at = crate::text::trim_end_chars(&av);
        let act = crate::text::string_from_chars(&at);
        let rhs = crate::util::normalize_lines(act.as_str(), tc.case_sensitive);
        crate::text::string_vecs_eq(&lhs, &rhs)
    }
}

/// A failing exit that smells of a binary built for another machine: the
/// output mentions an exec-format error, or the shell-style exit codes 126
/// or 193 appear.
pub open spec fn spec_enoexec_like(out: Seq<char>, code: Option<i32>) -> bool {
    crate::text::contains_seq(crate::text::lower_seq(out), "exec format error"@) || code == Some(
        126i32,
    ) || code == Some(193i32)
}

/// Classifies a finished stdout-captured run: a successful exit keeps its
/// output; a failing exit that looks like an exec-format problem becomes an
/// executor failure; any other failing exit still keeps its output, so that
/// the comparison decides.
pub fn classify_stdout_outcome(out: String, success: bool, code: Option<i32>) -> (r: Result<
    String,
    crate::cmd::ExecError,
>)
    ensures
        (success || !spec_enoexec_like(out@, code)) ==> r is Ok && r->Ok_0@ == out@,
        (!success && spec_enoexec_like(out@, code)) ==> (r matches Err(
            crate::cmd::ExecError::Io(f),
        ) && f.kind == crate::cmd::IoKind::ExecFormat && f.message@ == "Exec format error"@),
{
    if success {
        Ok(out)
    } else {
        let ov = crate::text::chars_of(out.as_str());
        let lo = crate::text::lower_chars(&ov);
        let pat = crate::text::chars_of("exec format error");
        let textual = crate::text::contains_chars(&lo, &pat);
        let by_code = match code {
            Some(c) => c == 126 || c == 193,
            None => false,
        };
        if textual || by_code {
            Err(
                crate::cmd::ExecError::Io(
                    crate::cmd::IoFailure {
                        kind: crate::cmd::IoKind::ExecFormat,
                        message: String::from_str("Exec format error"),
                    },
                ),
            )
        } else {
            Ok(out)
        }
    }
}

/// The program a diagnostic names: the command line's first word, or a
/// generic `./program` when the command line is empty.
pub open spec fn spec_program_name(cmdline: Seq<String>) -> Seq<char> {
    if cmdline.len() > 0 {
        cmdline[0]@
    } else {
        "./program"@
    }
}

impl TestRunner {
    /// Turns one observed execution outcome into the case's result: on a
    /// captured output, the configured strip is applied and the comparison
    /// decides between full rubric and zero, with no diagnostic; on an
    /// executor failure, the score is zero and the diagnostic names what
    /// went wrong.
    pub fn run_one_test_outcome(
        &self,
        tc: &TestCaseCfg,
        cmdline: &Vec<String>,
        actual: Result<String, crate::cmd::ExecError>,
    ) -> (r: TcResult)
        ensures
            r.rubric == tc.rubric,
            r.test@ == tc.name@,
            match actual {
                Ok(out) => r.test_err is None && r.score == (if self.spec_outputs_match(
                    tc.expected@,
                    self.spec_strip(out@),
                    tc.case_sensitive,
                    tc.name@,
                ) {
                    tc.rubric
                } else {
                    0i64
                }),
                Err(e) => r.score == 0 && r.test_err is Some && r.test_err->0@
                    == crate::cmd::spec_exec_error_message(e, spec_program_name(cmdline@)),
            },
    {
        match actual {
            Ok(out) => {
                let stripped = match &self.project_cfg.strip_output {
                    None => out,
                    Some(st) => {
                        proof {
                            reveal_strlit("");
                            assert(""@ =~= Seq::<char>::empty());
                        }
                        replace_str(out.as_str(), st.as_str(), "")
                    },
                };
                let score: i64 = if self.match_expected(tc, stripped.as_str()) {
                    tc.rubric
                } else {
                    0
                };
                TcResult { rubric: tc.rubric, score, test: tc.name.clone(), test_err: None }
            },
            Err(e) => {
                let program = if cmdline.len() > 0 {
                    cmdline[0].as_str()
                } else {
                    "./program"
                };
                let msg = crate::cmd::exec_error_message(&e, program);
                TcResult { rubric: tc.rubric, score: 0, test: tc.name.clone(), test_err: Some(
                    msg,
                ) }
            },
        }
    }
}

/// What the build step decided before anything ran: nothing to do, a command
/// to run, or a failure already known.
pub enum BuildPrecheck {
    Skip,
    Run(Vec<String>),
    Fail(String),
}

impl TestRunner {
    /// The build step's plan for one submission.  `none` builds nothing;
    /// `make` requires the submission directory and a Makefile and then runs
    /// `make -C <dir>`; any other plan is rejected.  The caller reports
    /// whether the directory and the Makefile exist.
    pub fn build_precheck(&self, repo: &Repo, repo_exists: bool, makefile_exists: bool) -> (r:
        BuildPrecheck)
        ensures
            self.project_cfg.build@ == "none"@ ==> r is Skip,
            (self.project_cfg.build@ != "none"@ && self.project_cfg.build@ != "make"@) ==> (r
                matches BuildPrecheck::Fail(m) && m@ == "Unknown build plan: \""@
                + self.project_cfg.build@ + "\""@),
            (self.project_cfg.build@ == "make"@ && !repo_exists) ==> (r matches BuildPrecheck::Fail(
                m,
            ) && m@ == "Repo not found: "@ + repo.local_path@),
            (self.project_cfg.build@ == "make"@ && repo_exists && !makefile_exists) ==> (r matches
                BuildPrecheck::Fail(m) && m@ == "Makefile not found: "@ + repo.local_path@
                + "/Makefile"@),
            (self.project_cfg.build@ == "make"@ && repo_exists && makefile_exists) ==> (r matches
                BuildPrecheck::Run(cmd) && views_of(cmd@) == seq![
                    "make"@,
                    "-C"@,
                    repo.local_path@,
                ]),
    {
        proof {
            reveal_strlit("none");
            reveal_strlit("make");
        }
        if str_eq(self.project_cfg.build.as_str(), "none") {
            proof {
                assert("none"@[0] == 'n');
                assert("make"@[0] == 'm');
                assert(self.project_cfg.build@ != "make"@);
            }
            BuildPrecheck::Skip
        } else if str_eq(self.project_cfg.build.as_str(), "make") {
            if !repo_exists {
                let mut m = String::from_str("Repo not found: ");
                m.append(repo.local_path.as_str());
                BuildPrecheck::Fail(m)
            } else if !makefile_exists {
                let mut m = String::from_str("Makefile not found: ");
                m.append(repo.local_path.as_str());
                m.append("/Makefile");
                BuildPrecheck::Fail(m)
            } else {
                let mut cmd: Vec<String> = Vec::new();
                cmd.push(String::from_str("make"));
                cmd.push(String::from_str("-C"));
                cmd.push(repo.local_path.clone());
                proof {
                    assert(views_of(cmd@) =~= seq!["make"@, "-C"@, repo.local_path@]);
                }
                BuildPrecheck::Run(cmd)
            }
        } else {
            let mut m = String::from_str("Unknown build plan: \"");
            m.append(self.project_cfg.build.as_str());
            m.append("\"");
            BuildPrecheck::Fail(m)
        }
    }

    /// The job-level diagnostic of a build that ran: nothing on success, the
    /// fixed message otherwise.  A build that could not run at all is
    /// reported the same way.
    pub fn build_outcome(success: bool) -> (r: Option<String>)
        ensures
            success ==> r is None,
            !success ==> r is Some && r->0@ == "Program did not make successfully"@,
    {
        if success {
            None
        } else {
            Some(String::from_str("Program did not make successfully"))
        }
    }

    /// The result of a submission whose directory does not exist: a single
    /// job-level diagnostic, zero test cases run, zero points — and the job
    /// still occupies its place in the ordered output.
    pub fn missing_repo_result(&self, repo: &Repo) -> (rr: RepoResult)
        ensures
            rr.comment@ == "Local repo "@ + repo.local_path@ + " does not exist"@,
            rr.results@.len() == 0,
            rr.score == 0,
            rr.build_err is None,
            match rr.student {
                None => repo.student is None,
                Some(s) => repo.student is Some && s@ == repo.student->0@,
            },
    {
        let mut m = String::from_str("Local repo ");
        m.append(repo.local_path.as_str());
        m.append(" does not exist");
        let student = match &repo.student {
            None => None,
            Some(s) => Some(s.clone()),
        };
        RepoResult { comment: m, results: Vec::new(), score: 0, student, build_err: None }
    }
}

} // verus!

verus! {

/// One step of the comment layout per result, carried through the list as
/// `(out, pass, prefix)`: passing labels are concatenated on one line, and a
/// failing case flushes them, puts its trimmed label and diagnostic on that
/// line, and starts a new one.
pub open spec fn spec_comment_fold(
    results: Seq<TcResult>,
    out: Seq<char>,
    pass: Seq<char>,
    prefix: Seq<char>,
) -> (Seq<char>, Seq<char>, Seq<char>)
    decreases results.len(),
{
    if results.len() == 0 {
        (out, pass, prefix)
    } else {
        let r0 = results[0];
        let label = crate::util::spec_format_pass_fail(r0.test@, r0.rubric as int, r0.score as int);
        match r0.test_err {
            Some(e) => {
                let flushed = if pass.len() > 0 {
                    out + prefix + pass
                } else {
                    out + prefix
                };
                let out2 = flushed + crate::text::trim_end_seq(label) + "    "@ + e@ + "\n"@;
                spec_comment_fold(results.drop_first(), out2, Seq::empty(), Seq::empty())
            },
            None => spec_comment_fold(results.drop_first(), out, pass + label, prefix),
        }
    }
}

impl TestRunner {
    /// The comment a finished submission gets: the build diagnostic as a
    /// prefix, the pass/fail labels laid out by [`spec_comment_fold`], and
    /// the earned points over the suite's total rubric at the end.
    pub open spec fn spec_make_comment(
        &self,
        results: Seq<TcResult>,
        score: int,
        build_err: Option<String>,
    ) -> Seq<char> {
        let prefix0 = match build_err {
            Some(be) => be@ + " "@,
            None => Seq::<char>::empty(),
        };
        let folded = spec_comment_fold(results, Seq::empty(), Seq::empty(), prefix0);
        let earned = spec_earned_avail(score, sum_int(case_rubrics_of(self.testcases@)));
        if folded.1.len() > 0 {
            folded.0 + folded.2 + folded.1 + earned
        } else {
            (if folded.0.len() == 0 {
                folded.2
            } else {
                folded.0
            }) + earned
        }
    }

    /// Lays the per-case results out as the comment body: passing labels
    /// side by side, each failing case with its diagnostic on its own line,
    /// the build diagnostic in front, and `earned/avail` at the end.
    pub fn make_comment(&self, rr: &RepoResult) -> (r: String)
        requires
            forall|k: int| 0 <= k < self.testcases@.len() ==> self.testcases@[k].rubric >= 0,
            sum_int(case_rubrics_of(self.testcases@)) <= i64::MAX,
        ensures
            r@ == self.spec_make_comment(rr.results@, rr.score as int, rr.build_err),
    {
        let ghost prefix0 = match &rr.build_err {
            Some(be) => be@ + " "@,
            None => Seq::<char>::empty(),
        };
        let ghost target = spec_comment_fold(rr.results@, Seq::empty(), Seq::empty(), prefix0);
        let mut out = String::new();
        let mut pass = String::new();
        let mut prefix = match &rr.build_err {
            Some(be) => {
                let mut p = String::from_str(be.as_str());
                p.append(" ");
                p
            },
            None => String::new(),
        };
        let n = rr.results.len();
        proof {
            assert(rr.results@.subrange(0, n as int) =~= rr.results@);
        }
        let mut i: usize = 0;
        while i < n
            invariant
                i <= n,
                n == rr.results@.len(),
                spec_comment_fold(rr.results@.subrange(i as int, n as int), out@, pass@, prefix@)
                    == target,
            decreases n - i,
        {
            let ghost rest = rr.results@.subrange(i as int, n as int);
            proof {
                assert(rest[0] == rr.results@[i as int]);
                assert(rest.drop_first() =~= rr.results@.subrange(i as int + 1, n as int));
            }
            let r = &rr.results[i];
            let label = crate::util::format_pass_fail(r.test.as_str(), r.rubric, r.score);
            match &r.test_err {
                Some(e) => {
                    let ghost flushed = if pass@.len() > 0 {
                        out@ + prefix@ + pass@
                    } else {
                        out@ + prefix@
                    };
                    if pass.unicode_len() > 0 {
                        out.append(prefix.as_str());
                        out.append(pass.as_str());
                        pass = String::new();
                    } else {
                        out.append(prefix.as_str());
                        proof {
                            assert(pass@ =~= Seq::<char>::empty());
                        }
                    }
                    proof {
                        assert(out@ =~= flushed);
                    }
                    let lv = crate::text::chars_of(label.as_str());
                    let lt = crate::text::trim_end_chars(&lv);
                    let ls = crate::text::string_from_chars(&lt);
                    out.append(ls.as_str());
                    out.append("    ");
                    out.append(e.as_str());
                    out.append("\n");
                    prefix = String::new();
                    proof {
                        assert(out@ =~= flushed + crate::text::trim_end_seq(
                            crate::util::spec_format_pass_fail(
                                r.test@,
                                r.rubric as int,
                                r.score as int,
                            ),
                        ) + "    "@ + e@ + "\n"@);
                    }
                },
                None => {
                    pass.append(label.as_str());
                },
            }
            i = i + 1;
        }
        proof {
            assert(rr.results@.subrange(n as int, n as int) =~= Seq::<TcResult>::empty());
            assert((out@, pass@, prefix@) == target);
        }
        let total = self.total_rubric();
        let mut earned = crate::text::i64_to_string(rr.score);
        earned.append("/");
        let av = crate::text::i64_to_string(total);
        earned.append(av.as_str());
        proof {
            assert(earned@ == spec_earned_avail(
                rr.score as int,
                sum_int(case_rubrics_of(self.testcases@)),
            ));
        }
        if pass.unicode_len() > 0 {
            out.append(prefix.as_str());
            out.append(pass.as_str());
            out.append(earned.as_str());
            proof {
                assert(out@ =~= self.spec_make_comment(rr.results@, rr.score as int, rr.build_err));
            }
            out
        } else {
            if out.unicode_len() == 0 {
                proof {
                    assert(out@ =~= Seq::<char>::empty());
                }
                out.append(prefix.as_str());
                proof {
                    assert(out@ =~= prefix@);
                }
            }
            out.append(earned.as_str());
            proof {
                assert(pass@ =~= Seq::<char>::empty());
                assert(out@ =~= self.spec_make_comment(rr.results@, rr.score as int, rr.build_err));
            }
            out
        }
    }

    /// Assembles the submission's result: the per-case results in suite
    /// order, their earned sum as the score, the build diagnostic, the
    /// student, and the comment.
    pub fn assemble_repo_result(
        &self,
        repo: &Repo,
        build_err: Option<String>,
        results: Vec<TcResult>,
    ) -> (rr: RepoResult)
        requires
            forall|k: int| 0 <= k < results@.len() ==> results@[k].rubric >= 0,
            forall|k: int| 0 <= k < results@.len() ==> results@[k].score >= 0,
            sum_int(rubrics_of(results@)) <= i64::MAX,
            sum_int(scores_of(results@)) <= i64::MAX,
            forall|k: int| 0 <= k < self.testcases@.len() ==> self.testcases@[k].rubric >= 0,
            sum_int(case_rubrics_of(self.testcases@)) <= i64::MAX,
        ensures
            rr.results == results,
            rr.score as int == sum_int(scores_of(results@)),
            rr.build_err == build_err,
            match rr.student {
                None => repo.student is None,
                Some(s) => repo.student is Some && s@ == repo.student->0@,
            },
            rr.comment@ == self.spec_make_comment(
                results@,
                sum_int(scores_of(results@)),
                build_err,
            ),
    {
        let mut scrs: Vec<i64> = Vec::new();
        let mut i: usize = 0;
        while i < results.len()
            invariant
                i <= results@.len(),
                scrs@ == results@.subrange(0, i as int).map_values(|t: TcResult| t.score),
            decreases results.len() - i,
        {
            scrs.push(results[i].score);
            i = i + 1;
            proof {
                assert(scrs@ =~= results@.subrange(0, i as int).map_values(|t: TcResult| t.score));
            }
        }
        proof {
            assert(results@.subrange(0, results@.len() as int) =~= results@);
            assert(scrs@.map_values(|x: i64| x as int) =~= scores_of(results@));
        }
        let score = sum_i64_seq(&scrs);
        let student = match &repo.student {
            None => None,
            Some(s) => Some(s.clone()),
        };
        let mut rr = RepoResult { comment: String::new(), results, score, student, build_err };
        let c = self.make_comment(&rr);
        rr.comment = c;
        rr
    }
}

} // verus!

verus! {

impl TestRunner {
    /// Law: the comparison is insensitive to a missing final line
    /// terminator.  An actual output with a final newline compares exactly
    /// as the same output without one, whatever the expected text and the
    /// case mode.
    pub proof fn lemma_final_newline_ignored(
        &self,
        expected: Seq<char>,
        actual: Seq<char>,
        case_sensitive: bool,
        name: Seq<char>,
    )
        ensures
            self.spec_outputs_match(expected, actual.push('\n'), case_sensitive, name)
                == self.spec_outputs_match(expected, actual, case_sensitive, name),
    {
        let a = actual.push('\n');
        assert(a.drop_last() =~= actual);
        assert(crate::text::trim_end_seq(a) == crate::text::trim_end_seq(actual));
    }

    /// Law: the comparison is case-insensitive unless `case_sensitive` is
    /// set.  Two actual outputs that differ only in letter case compare
    /// identically against any expected text when the case mode is off.
    pub proof fn lemma_match_case_insensitive(
        &self,
        expected: Seq<char>,
        actual1: Seq<char>,
        actual2: Seq<char>,
        name: Seq<char>,
    )
        requires
            crate::util::case_variant(actual1, actual2),
        ensures
            self.spec_outputs_match(expected, actual1, false, name) == self.spec_outputs_match(
                expected,
                actual2,
                false,
                name,
            ),
    {
        crate::util::lemma_trim_end_variant(actual1, actual2);
        crate::util::lemma_normalize_case_insensitive(
            crate::text::trim_end_seq(actual1),
            crate::text::trim_end_seq(actual2),
        );
    }
}

} // verus!

verus! {

/// Where a test case's output comes from.
pub enum OutputSource {
    /// The child's captured stdout (and stderr, when configured).
    Stdout,
    /// A file the child writes into the working directory.
    File(String),
}

impl TestCaseCfg {
    /// Reads the case's `output` field: the word `stdout` means the captured
    /// stream, anything else names a file to read after execution.
    pub fn output_source(&self) -> (r: OutputSource)
        ensures
            self.output@ == "stdout"@ ==> r is Stdout,
            self.output@ != "stdout"@ ==> (r matches OutputSource::File(f) && f@ == self.output@),
    {
        if str_eq(self.output.as_str(), "stdout") {
            OutputSource::Stdout
        } else {
            OutputSource::File(self.output.clone())
        }
    }
}

} // verus!

verus! {

/// How many of the first `i` results earned exactly `score` points.
pub open spec fn spec_score_count(rs: Seq<RepoResult>, score: i64, i: int) -> int
    decreases i,
{
    if i <= 0 {
        0
    } else {
        spec_score_count(rs, score, i - 1) + (if rs[i - 1].score == score {
            1int
        } else {
            0int
        })
    }
}

/// The points available for the histogram header: the rubric sum of the
/// first result that has a positive one, scanning from `j`; zero when none
/// does.
pub open spec fn spec_histogram_avail(rs: Seq<RepoResult>, j: int) -> int
    decreases rs.len() - j,
{
    if j < 0 || j >= rs.len() {
        0
    } else if sum_int(rubrics_of(rs[j].results@)) > 0 {
        sum_int(rubrics_of(rs[j].results@))
    } else {
        spec_histogram_avail(rs, j + 1)
    }
}

/// Every result's rubrics are non-negative and their sums fit the machine
/// integer.
pub open spec fn wf_class_rubrics(rs: Seq<RepoResult>) -> bool {
    forall|j: int|
        0 <= j < rs.len() ==> (forall|k: int|
            0 <= k < (#[trigger] rs[j]).results@.len() ==> rs[j].results@[k].rubric >= 0)
            && sum_int(rubrics_of(rs[j].results@)) <= i64::MAX
}

/// The points available over a class run, for the histogram display: the
/// rubric sum of the first submission that has a positive one.
pub fn histogram_avail(rs: &Vec<RepoResult>) -> (r: i64)
    requires
        wf_class_rubrics(rs@),
    ensures
        r as int == spec_histogram_avail(rs@, 0),
{
    let mut j: usize = 0;
    while j < rs.len()
        invariant
            j <= rs@.len(),
            wf_class_rubrics(rs@),
            spec_histogram_avail(rs@, 0) == spec_histogram_avail(rs@, j as int),
        decreases rs.len() - j,
    {
        let mut v: Vec<i64> = Vec::new();
        let mut k: usize = 0;
        while k < rs[j].results.len()
            invariant
                j < rs@.len(),
                k <= rs@[j as int].results@.len(),
                v@ == rs@[j as int].results@.subrange(0, k as int).map_values(
                    |t: TcResult| t.rubric,
                ),
            decreases rs@[j as int].results@.len() - k,
        {
            v.push(rs[j].results[k].rubric);
            k = k + 1;
            proof {
                assert(v@ =~= rs@[j as int].results@.subrange(0, k as int).map_values(
                    |t: TcResult| t.rubric,
                ));
            }
        }
        proof {
            assert(rs@[j as int].results@.subrange(0, rs@[j as int].results@.len() as int)
                =~= rs@[j as int].results@);
            assert(v@.map_values(|x: i64| x as int) =~= rubrics_of(rs@[j as int].results@));
        }
        let s = sum_i64_seq(&v);
        if s > 0 {
            return s;
        }
        j = j + 1;
    }
    0
}

/// How many results earned exactly `score` points.
pub fn count_score(rs: &Vec<RepoResult>, score: i64) -> (r: usize)
    ensures
        r as int == spec_score_count(rs@, score, rs@.len() as int),
{
    let mut count: usize = 0;
    let mut j: usize = 0;
    while j < rs.len()
        invariant
            j <= rs@.len(),
            count as int == spec_score_count(rs@, score, j as int),
            count <= j,
        decreases rs.len() - j,
    {
        if rs[j].score == score {
            count = count + 1;
        }
        j = j + 1;
    }
    count
}

/// Some histogram entry carries the score `sc`.
pub open spec fn has_score(out: Seq<(i64, usize)>, sc: i64) -> bool {
    exists|p: int| 0 <= p < out.len() && (#[trigger] out[p]).0 == sc
}

/// The score histogram of a class run: each distinct score with the number
/// of submissions that earned it, in strictly descending score order, and
/// every earned score listed.
pub fn score_frequencies(rs: &Vec<RepoResult>) -> (out: Vec<(i64, usize)>)
    ensures
        forall|p: int, q: int| #![trigger out@[p], out@[q]]
            0 <= p < q < out@.len() ==> out@[p].0 > out@[q].0,
        forall|p: int|
            0 <= p < out@.len() ==> (#[trigger] out@[p]).1 as int == spec_score_count(
                rs@,
                out@[p].0,
                rs@.len() as int,
            ),
        forall|j: int| 0 <= j < rs@.len() ==> #[trigger] has_score(out@, rs@[j].score),
{
    let mut out: Vec<(i64, usize)> = Vec::new();
    let mut j: usize = 0;
    while j < rs.len()
        invariant
            j <= rs@.len(),
            forall|p: int, q: int| #![trigger out@[p], out@[q]]
                0 <= p < q < out@.len() ==> out@[p].0 > out@[q].0,
            forall|p: int|
                0 <= p < out@.len() ==> (#[trigger] out@[p]).1 as int == spec_score_count(
                    rs@,
                    out@[p].0,
                    rs@.len() as int,
                ),
            forall|jj: int| 0 <= jj < j ==> #[trigger] has_score(out@, rs@[jj].score),
        decreases rs.len() - j,
    {
        let score = rs[j].score;
        let mut seen = false;
        let mut p: usize = 0;
        while p < out.len()
            invariant
                p <= out@.len(),
                seen ==> has_score(out@, score),
                !seen ==> forall|q: int| 0 <= q < p ==> out@[q].0 != score,
            decreases out.len() - p,
        {
            if out[p].0 == score {
                seen = true;
                proof {
                    assert(out@[p as int].0 == score);
                }
            }
            p = p + 1;
        }
        if !seen {
            let count = count_score(rs, score);
            let mut idx: usize = 0;
            while idx < out.len() && out[idx].0 > score
                invariant
                    idx <= out@.len(),
                    forall|q: int| 0 <= q < idx ==> out@[q].0 > score,
                decreases out.len() - idx,
            {
                idx = idx + 1;
            }
            let ghost out0 = out@;
            out.insert(idx, (score, count));
            proof {
                assert(forall|q: int| 0 <= q < idx ==> out@[q] == out0[q]);
                assert(out@[idx as int] == (score, count));
                assert(forall|q: int| idx < q < out@.len() ==> out@[q] == out0[q - 1]);
                assert(forall|q: int| 0 <= q < out0.len() ==> out0[q].0 != score);
                if idx < out0.len() {
                    assert(out0[idx as int].0 <= score);
                    assert(out0[idx as int].0 < score);
                }
                assert forall|pp: int, qq: int| 0 <= pp < qq < out@.len() implies out@[pp].0
                    > out@[qq].0 by {
                    if pp < idx && qq > idx {
                        assert(out@[pp].0 > score);
                        assert(out0[qq - 1].0 < score) by {
                            if qq - 1 >= idx + 1 - 1 && idx < out0.len() {
                                assert(out0[qq - 1].0 <= out0[idx as int].0);
                            }
                        }
                    }
                }
                assert forall|jj: int| 0 <= jj < j implies #[trigger] has_score(
                    out@,
                    rs@[jj].score,
                ) by {
                    assert(has_score(out0, rs@[jj].score));
                    let q = choose|q: int|
                        0 <= q < out0.len() && (#[trigger] out0[q]).0 == rs@[jj].score;
                    if q < idx {
                        assert(out@[q].0 == rs@[jj].score);
                    } else {
                        assert(out@[q + 1].0 == rs@[jj].score);
                    }
                }
                assert(out@[idx as int].0 == score);
                assert(has_score(out@, score));
            }
        }
        j = j + 1;
        proof {
            assert(has_score(out@, score));
            assert(rs@[j - 1].score == score);
        }
    }
    out
}

} // verus!
