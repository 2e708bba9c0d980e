//! Plain configuration records handed to the library by the caller.
//! Loading and parsing the configuration file is the caller's concern; the
//! library only reads these values.

use vstd::prelude::*;

verus! {

/// Settings for the test runner: where the shared test suites live and the
/// path of the external digital-circuit simulator used by some suites.
pub struct TestCfg {
    pub tests_path: String,
    pub digital_path: String,
}

/// Settings for cloning and pulling student repositories.
pub struct GitCfg {
    /// Organization that owns the per-student repositories.
    pub org: String,
    /// Either "ssh" or "https"; anything else falls back to ssh.
    pub credentials: String,
}

/// Settings for reading workflow results from a repository host.
pub struct GithubCfg {
    pub host_name: String,
    pub access_token: String,
}

/// Settings for the grading-service client.
pub struct CanvasCfg {
    pub host_name: String,
    pub access_token: String,
    pub course_name: String,
}

/// Settings for the roster file that maps repository users to login ids.
pub struct CanvasMapperCfg {
    pub map_path: String,
    pub github_col_name: String,
    pub login_col_name: String,
}

} // verus!
