use amg::cli::{default_codexdir, entry, plan_action, require_dir, should_use_tmux, Action, NO_HOME};
use amg::launch::{
    build_codex_cmd, exit_code, git_dir_for_worktree, git_dir_from_gitfile, join_path, optional_dirs,
    sh_quote_lossy, tmux_new_window_cmd, Cmd, DotGit, SandboxProbes,
};
use amg::scan::Session;
use amg::walk::RelPath;

fn b(s: &str) -> Vec<u8> {
    s.as_bytes().to_vec()
}

fn words(ws: &[&str]) -> Vec<Vec<u8>> {
    ws.iter().map(|w| b(w)).collect()
}

fn session(cwd: &str, id: &str) -> Session {
    Session {
        cwd: cwd.to_string(),
        id: id.to_string(),
        source: RelPath {
            names: words(&["s.jsonl"]),
        },
    }
}

#[test]
fn quoting_for_the_shell() {
    assert_eq!(sh_quote_lossy(&b("")), "''");
    assert_eq!(sh_quote_lossy(&b("abc")), "'abc'");
    assert_eq!(sh_quote_lossy(&b("a b$c")), "'a b$c'");
    assert_eq!(sh_quote_lossy(&b("it's")), "'it'\\''s'");
    assert_eq!(sh_quote_lossy(&b("''")), "''\\'''\\'''");
    assert_eq!(sh_quote_lossy(&vec![b'f', 0xff, b'\'']), "'f\u{fffd}'\\'''");
}

#[test]
fn command_as_shell_line() {
    let cmd = Cmd {
        program: b("codex"),
        args: words(&["--cd", "/a b", "", "x'y"]),
    };
    assert_eq!(cmd.as_shell_string(), "'codex' '--cd' '/a b' '' 'x'\\''y'");
    let bare = Cmd {
        program: b("ls"),
        args: Vec::new(),
    };
    assert_eq!(bare.as_shell_string(), "'ls'");
}

#[test]
fn joining_paths() {
    assert_eq!(join_path(&b("/home/u"), &b(".cargo")), b("/home/u/.cargo"));
    assert_eq!(join_path(&b("/home/u/"), &b("x")), b("/home/u/x"));
    assert_eq!(join_path(&b("/w"), &b("/abs")), b("/abs"));
    assert_eq!(join_path(&b(""), &b("x")), b("x"));
    assert_eq!(join_path(&b("a"), &b("")), b("a/"));
}

#[test]
fn tmux_window_wraps_the_command() {
    let cmd = Cmd {
        program: b("codex"),
        args: words(&["resume", "id"]),
    };
    let t = tmux_new_window_cmd(&b("/w d"), &cmd);
    assert_eq!(t.program, b("tmux"));
    assert_eq!(t.args, words(&["new-window", "-c", "/w d", "codex", "resume", "id"]));
    assert_eq!(
        t.as_shell_string(),
        "'tmux' 'new-window' '-c' '/w d' 'codex' 'resume' 'id'"
    );
}

#[test]
fn optional_directories_in_order() {
    assert_eq!(
        optional_dirs(&b("/s"), &Some(b("/h"))),
        words(&[
            "/s/.codex",
            "/h/.cargo",
            "/h/.rustup",
            "/h/Library/Caches/Mozilla.sccache",
            "/h/.npm",
            "/tmp",
            "/var/folders",
        ])
    );
    assert_eq!(optional_dirs(&b("/s"), &None), words(&["/s/.codex", "/tmp", "/var/folders"]));
}

#[test]
fn resume_command_arguments() {
    let probes = SandboxProbes {
        repo_git_dir: Some(b("/r/.git")),
        cwd_git_dir: None,
        is_dir: vec![true, false, true, false, false, true, false],
    };
    let cmd = build_codex_cmd(&b("/r"), &b("/c"), &session("/s", "sid"), &Some(b("/h")), &probes);
    assert_eq!(cmd.program, b("codex"));
    assert_eq!(
        cmd.args,
        words(&[
            "--search",
            "-a",
            "on-failure",
            "-s",
            "workspace-write",
            "--config",
            "model=gpt-5.2-codex",
            "--config",
            "model_reasoning_effort=high",
            "--config",
            "sandbox_workspace_write.network_access=true",
            "--add-dir",
            "/r",
            "--add-dir",
            "/r/.git",
            "--add-dir",
            "/c",
            "--add-dir",
            "/s",
            "--cd",
            "/s",
            "--add-dir",
            "/s/.codex",
            "--add-dir",
            "/h/.rustup",
            "--add-dir",
            "/tmp",
            "resume",
            "sid",
        ])
    );
}

#[test]
fn resume_command_without_home_or_optional_dirs() {
    let probes = SandboxProbes {
        repo_git_dir: None,
        cwd_git_dir: Some(b("/g")),
        is_dir: vec![false, false, false],
    };
    let cmd = build_codex_cmd(&b("/r"), &b("/c"), &session("/s", "sid"), &None, &probes);
    let tail: Vec<Vec<u8>> = cmd.args[11..].to_vec();
    assert_eq!(
        tail,
        words(&[
            "--add-dir", "/r", "--add-dir", "/c", "--add-dir", "/s", "--cd", "/s", "--add-dir", "/g",
            "resume", "sid",
        ])
    );
}

#[test]
fn gitfile_names_the_git_directory() {
    let w = b("/w");
    assert_eq!(
        git_dir_from_gitfile(&w, "gitdir: ../main/.git/worktrees/x\n"),
        Some(b("/w/../main/.git/worktrees/x"))
    );
    assert_eq!(git_dir_from_gitfile(&w, "gitdir: /abs/dir\r\n"), Some(b("/abs/dir")));
    assert_eq!(git_dir_from_gitfile(&w, "  gitdir:rel  \nsecond"), Some(b("/w/rel")));
    assert_eq!(git_dir_from_gitfile(&w, "gitdir:   \n"), None);
    assert_eq!(git_dir_from_gitfile(&w, "hello"), None);
    assert_eq!(git_dir_from_gitfile(&w, ""), None);
    assert_eq!(git_dir_from_gitfile(&w, "\ngitdir: /x"), None);
    assert_eq!(git_dir_from_gitfile(&w, "GITDIR: /x"), None);
}

#[test]
fn git_directory_of_a_worktree() {
    let w = b("/w");
    assert_eq!(git_dir_for_worktree(&w, DotGit::Directory), Some(b("/w/.git")));
    assert_eq!(
        git_dir_for_worktree(&w, DotGit::File(Some("gitdir: /m/.git/worktrees/w".to_string()))),
        Some(b("/m/.git/worktrees/w"))
    );
    assert_eq!(git_dir_for_worktree(&w, DotGit::File(None)), None);
    assert_eq!(git_dir_for_worktree(&w, DotGit::Other), None);
}

#[test]
fn exit_codes() {
    assert_eq!(exit_code(Some(0)), 0);
    assert_eq!(exit_code(Some(3)), 3);
    assert_eq!(exit_code(Some(255)), 255);
    assert_eq!(exit_code(Some(256)), 1);
    assert_eq!(exit_code(Some(-1)), 1);
    assert_eq!(exit_code(None), 1);
    assert_eq!(entry(Ok(0)), 0);
    assert_eq!(entry(Ok(7)), 7);
    assert_eq!(entry(Err("boom".to_string())), 1);
}

#[test]
fn tmux_only_when_present_and_wanted() {
    assert!(should_use_tmux(false, true));
    assert!(!should_use_tmux(true, true));
    assert!(!should_use_tmux(false, false));
    assert!(!should_use_tmux(true, false));
}

#[test]
fn action_for_each_mode() {
    let cmd = || Cmd {
        program: b("codex"),
        args: words(&["resume", "i"]),
    };
    let cwd = b("/s");
    match plan_action(true, true, &cwd, cmd()) {
        Action::Print(c) => {
            assert_eq!(c.program, b("tmux"));
            assert_eq!(c.args, words(&["new-window", "-c", "/s", "codex", "resume", "i"]));
        }
        _ => panic!("expected a print"),
    }
    match plan_action(true, false, &cwd, cmd()) {
        Action::Print(c) => assert_eq!(c.program, b("codex")),
        _ => panic!("expected a print"),
    }
    assert!(matches!(plan_action(false, true, &cwd, cmd()), Action::RunTmux(_)));
    assert!(matches!(plan_action(false, false, &cwd, cmd()), Action::RunInline(_)));
}

#[test]
fn directory_requirements() {
    assert!(require_dir(true, "repo", Some("CODEX_REPO"), "/x").is_ok());
    assert_eq!(
        require_dir(false, "repo", Some("CODEX_REPO"), "/x"),
        Err("repo (from CODEX_REPO) is not a directory: /x".to_string())
    );
    assert_eq!(
        require_dir(false, "session cwd", None, "/a b"),
        Err("session cwd is not a directory: /a b".to_string())
    );
}

#[test]
fn default_state_directory() {
    assert_eq!(default_codexdir(&Some(b("/home/u"))), Ok(b("/home/u/.codex")));
    assert_eq!(default_codexdir(&Some(b("/"))), Ok(b("/.codex")));
    assert_eq!(default_codexdir(&Some(Vec::new())), Err(NO_HOME.to_string()));
    assert_eq!(default_codexdir(&None), Err(NO_HOME.to_string()));
}
