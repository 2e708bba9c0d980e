//! The command-line surface as plain data.  Argument parsing itself happens
//! in the binary; the library only sees the parsed command.

use vstd::prelude::*;

verus! {

/// The parsed command line.
pub struct Cli {
    pub command: Commands,
}

/// The subcommands the grader offers.
pub enum Commands {
    /// Grade the submission in the current directory.
    Test {
        project: Option<String>,
        test_name: Option<String>,
        verbose: bool,
        very_verbose: bool,
        unified_diff: bool,
        quiet: bool,
        no_color: bool,
    },
    /// Grade every student's submission.
    Class {
        project: Option<String>,
        verbose: bool,
        very_verbose: bool,
        unified_diff: bool,
        github_action: bool,
        students: Option<Vec<String>>,
        by_date: bool,
        jobs: Option<usize>,
        quiet: bool,
        no_color: bool,
    },
    /// Run one shell command in every student's submission directory.
    Exec {
        project: Option<String>,
        exec_cmd: String,
        students: Option<Vec<String>>,
        jobs: Option<usize>,
        by_date: bool,
    },
    /// Clone every student's repository.
    Clone {
        project: Option<String>,
        students: Option<Vec<String>>,
        verbose: bool,
        date: Option<String>,
        by_date: bool,
    },
    /// Pull every student's repository.
    Pull {
        project: Option<String>,
        students: Option<Vec<String>>,
    },
    /// Upload recorded results to the grading service.
    Upload {
        project: Option<String>,
        file: Option<String>,
        verbose: bool,
    },
    /// Aggregate per-date result files into one rollup.
    Rollup {
        project: Option<String>,
        by_date: bool,
    },
}

} // verus!
