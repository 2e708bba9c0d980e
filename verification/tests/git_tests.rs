use autograder_rust::config::GitCfg;
use autograder_rust::git::{before_argument, first_line_trimmed, Git};

#[test]
fn remote_url_formats() {
    let g_ssh = Git::new(GitCfg { org: "orgx".into(), credentials: "ssh".into() });
    let g_https = Git::new(GitCfg { org: "orgx".into(), credentials: "https".into() });
    assert_eq!(g_ssh.remote_url("projx-alice"), "git@github.com:orgx/projx-alice.git");
    assert_eq!(g_https.remote_url("projx-alice"), "https://github.com/orgx/projx-alice");
}

#[test]
fn remote_url_unknown_credentials_falls_back_to_ssh() {
    let g = Git::new(GitCfg { org: "orgx".into(), credentials: "token".into() });
    assert_eq!(g.remote_url("projx-bob"), "git@github.com:orgx/projx-bob.git");
}

#[test]
fn first_line_trimmed_takes_first_trimmed_line() {
    assert_eq!(first_line_trimmed("abc123\nrest\n"), Some("abc123".to_string()));
    assert_eq!(first_line_trimmed("  abc123  \n"), Some("abc123".to_string()));
    assert_eq!(first_line_trimmed("abc123"), Some("abc123".to_string()));
    assert_eq!(first_line_trimmed("\nabc"), None);
    assert_eq!(first_line_trimmed("   \nxyz"), None);
    assert_eq!(first_line_trimmed(""), None);
}

#[test]
fn before_argument_defaults_to_midnight() {
    assert_eq!(before_argument("2025-01-01"), "--before=2025-01-01 00:00:00");
    assert_eq!(before_argument("2025-01-01 13:30:00"), "--before=2025-01-01 13:30:00");
}

#[test]
fn default_branch_parsing() {
    let out = "* remote origin\n  Fetch URL: x\n  HEAD branch: main\n  Remote branches:\n";
    assert_eq!(
        autograder_rust::git::parse_default_branch(out),
        Some("main".to_string())
    );
    assert_eq!(autograder_rust::git::parse_default_branch("no marker here"), None);
    assert_eq!(autograder_rust::git::parse_default_branch("HEAD branch:   \nrest"), None);
}
