use codex_usage::auth::auth_candidate_paths_with;
use codex_usage::paths::{components_of, join_path, join_path_with, log_file_path, log_file_path_with};
use codex_usage::runners::{
    ccusage_run_output, ccusage_run_step, collect_runners, dedupe, next_local_query_step,
    path_entries_for, path_entries_with, runner_args, runner_candidates, runner_candidates_with,
    runner_order, LocalQueryStep, RunStep, RunnerKind, CCUSAGE_TIMEOUT_NANOS,
};
use codex_usage::tray::{should_toggle_panel, ButtonState};

fn strings(v: &[&str]) -> Vec<String> {
    v.iter().map(|s| s.to_string()).collect()
}

#[test]
fn builds_log_file_path_from_log_dir() {
    let path = log_file_path("/logs/codex-usage", "Codex 用量");

    assert_eq!(path, "/logs/codex-usage/Codex 用量.log");
}

#[test]
fn log_file_path_replaces_an_existing_extension() {
    assert_eq!(log_file_path("/logs", "app.txt"), "/logs/app.log");
    assert_eq!(log_file_path("/logs/", ".hidden"), "/logs/.hidden.log");
    assert_eq!(log_file_path("/logs", "x/"), "/logs/x.log");
    assert_eq!(log_file_path("/logs", "a/."), "/logs/a.log");
    assert_eq!(log_file_path("/logs", ".."), "/logs/..");
    assert_eq!(log_file_path("/logs", "/"), "/");
}

#[test]
fn joining_paths() {
    assert_eq!(join_path("/a", "b"), "/a/b");
    assert_eq!(join_path("/a/", "b"), "/a/b");
    assert_eq!(join_path("", "b"), "b");
    assert_eq!(join_path("/a", "/b"), "/b");
}

#[test]
fn path_components_ignore_repeated_separators_and_inner_dots() {
    let c = components_of("/usr//local/./bin/", '/');
    let texts: Vec<String> = c.iter().map(|p| p.iter().collect()).collect();
    assert_eq!(texts, strings(&["/", "usr", "local", "bin"]));
    let c = components_of("./a/../b", '/');
    let texts: Vec<String> = c.iter().map(|p| p.iter().collect()).collect();
    assert_eq!(texts, strings(&[".", "a", "..", "b"]));
}

#[test]
fn tray_click_up_toggles_panel() {
    assert!(should_toggle_panel(ButtonState::Up));
}

#[test]
fn tray_click_down_does_not_toggle_panel() {
    assert!(!should_toggle_panel(ButtonState::Down));
}

#[test]
fn runners_are_tried_in_order() {
    assert_eq!(
        runner_order(),
        [
            RunnerKind::Bunx,
            RunnerKind::PnpmDlx,
            RunnerKind::YarnDlx,
            RunnerKind::NpmExec,
            RunnerKind::Npx
        ]
    );
}

#[test]
fn runner_arguments_pin_the_package() {
    assert_eq!(
        runner_args(RunnerKind::Bunx),
        strings(&["--silent", "ccusage@20.0.2", "codex", "daily", "--json", "--order", "desc"])
    );
    assert_eq!(
        runner_args(RunnerKind::PnpmDlx),
        strings(&["-s", "dlx", "ccusage@20.0.2", "codex", "daily", "--json", "--order", "desc"])
    );
    assert_eq!(
        runner_args(RunnerKind::YarnDlx),
        strings(&["dlx", "-q", "ccusage@20.0.2", "codex", "daily", "--json", "--order", "desc"])
    );
    assert_eq!(
        runner_args(RunnerKind::NpmExec),
        strings(&[
            "exec",
            "--yes",
            "--package=ccusage@20.0.2",
            "--",
            "ccusage",
            "codex",
            "daily",
            "--json",
            "--order",
            "desc"
        ])
    );
    assert_eq!(
        runner_args(RunnerKind::Npx),
        strings(&["--yes", "ccusage@20.0.2", "codex", "daily", "--json", "--order", "desc"])
    );
}

#[test]
fn dedupe_drops_blank_and_repeated_values() {
    assert_eq!(
        dedupe(strings(&["a", " ", "b", "a", "", "c", "b"])),
        strings(&["a", "b", "c"])
    );
}

#[test]
fn runner_candidates_list_home_paths_then_names() {
    assert_eq!(
        runner_candidates(RunnerKind::Bunx, Some("/home/alex")),
        strings(&["/home/alex/.bun/bin/bunx", "/home/alex/.bun/bin/bunx.exe", "bunx", "bunx.exe"])
    );
    assert_eq!(
        runner_candidates(RunnerKind::YarnDlx, Some("C:/Users/alex")),
        strings(&["C:/Users/alex/AppData/Roaming/npm/yarn.cmd", "yarn", "yarn.cmd"])
    );
    assert_eq!(runner_candidates(RunnerKind::Npx, None), strings(&["npx", "npx.cmd"]));
}

#[test]
fn path_entries_put_install_dirs_first_and_drop_repeats() {
    let existing = strings(&["/usr/local/bin/", "", "/usr/bin", "/home/alex/.bun/bin"]);
    assert_eq!(
        path_entries_with(Some("/home/alex"), Some(&existing)),
        strings(&[
            "/home/alex/.bun/bin",
            "/home/alex/.local/bin",
            "/home/alex/AppData/Local/pnpm",
            "/home/alex/AppData/Roaming/npm",
            "/opt/homebrew/bin",
            "/usr/local/bin",
            "/usr/bin",
        ])
    );
    assert_eq!(
        path_entries_with(None, None),
        strings(&["/opt/homebrew/bin", "/usr/local/bin"])
    );
}

#[test]
fn collect_runners_takes_first_available_program_per_runner() {
    let found = collect_runners(Some("/home/alex"), |program: &str| {
        program == "bunx.exe" || program == "npm" || program == "npm.cmd" || program == "npx.cmd"
    });
    assert_eq!(
        found,
        vec![
            (RunnerKind::Bunx, "bunx.exe".to_string()),
            (RunnerKind::NpmExec, "npm".to_string()),
            (RunnerKind::Npx, "npx.cmd".to_string()),
        ]
    );
    assert!(collect_runners(None, |_: &str| false).is_empty());
}

#[test]
fn local_query_steps() {
    match next_local_query_step(0, 0) {
        LocalQueryStep::Fail(m) => assert_eq!(m, "no_runner"),
        _ => panic!("expected failure"),
    }
    assert!(matches!(next_local_query_step(3, 1), LocalQueryStep::Run(1)));
    match next_local_query_step(2, 2) {
        LocalQueryStep::Fail(m) => assert_eq!(m, "runner_failed"),
        _ => panic!("expected failure"),
    }
}

#[test]
fn windows_paths_join_with_backslash_and_keep_drives() {
    assert_eq!(join_path_with("C:\\Users\\alex", ".bun/bin/bunx", '\\'), "C:\\Users\\alex\\.bun/bin/bunx");
    assert_eq!(join_path_with("C:\\Users\\alex\\", "x", '\\'), "C:\\Users\\alex\\x");
    assert_eq!(join_path_with("C:/Users/alex/", "x", '\\'), "C:/Users/alex/x");
    assert_eq!(join_path_with("C:", "x", '\\'), "C:x");
    assert_eq!(join_path_with("C:\\a", "\\b", '\\'), "C:\\b");
    assert_eq!(join_path_with("C:\\a", "D:\\b", '\\'), "D:\\b");
    assert_eq!(join_path_with("C:\\a", "\\\\server\\share", '\\'), "\\\\server\\share");
    assert_eq!(join_path_with("/a", "\\b", '/'), "/a/\\b");
}

#[test]
fn windows_auth_candidates_and_log_file() {
    assert_eq!(
        auth_candidate_paths_with(None, "C:\\Users\\alex", '\\'),
        strings(&["C:\\Users\\alex\\.config\\codex\\auth.json", "C:\\Users\\alex\\.codex\\auth.json"])
    );
    assert_eq!(
        log_file_path_with("C:\\logs", "Codex 用量", '\\'),
        "C:\\logs\\Codex 用量.log"
    );
    assert_eq!(log_file_path_with("C:", "app.txt", '\\'), "C:app.log");
}

#[test]
fn windows_path_components_and_search_path() {
    let a = components_of("C:\\Windows\\", '\\');
    let b = components_of("c:/Windows", '\\');
    assert_eq!(a, b);
    let texts: Vec<String> = a.iter().map(|p| p.iter().collect()).collect();
    assert_eq!(texts, strings(&["c:", "/", "Windows"]));
    let existing = strings(&["c:\\Users\\a\\.bun\\bin", "C:\\Windows"]);
    assert_eq!(
        path_entries_for(Some("C:\\Users\\a"), Some(&existing), '\\'),
        strings(&[
            "C:\\Users\\a\\.bun/bin",
            "C:\\Users\\a\\.local/bin",
            "C:\\Users\\a\\AppData/Local/pnpm",
            "C:\\Users\\a\\AppData/Roaming/npm",
            "/opt/homebrew/bin",
            "/usr/local/bin",
            "C:\\Windows",
        ])
    );
    assert_eq!(
        runner_candidates_with(RunnerKind::Npx, Some("C:\\Users\\a"), '\\'),
        strings(&["C:\\Users\\a\\AppData/Roaming/npm/npx.cmd", "npx", "npx.cmd"])
    );
}

#[test]
fn ccusage_run_steps_and_output() {
    assert_eq!(ccusage_run_step(0, None), RunStep::Wait);
    assert_eq!(ccusage_run_step(CCUSAGE_TIMEOUT_NANOS, None), RunStep::Wait);
    assert_eq!(ccusage_run_step(CCUSAGE_TIMEOUT_NANOS + 1, None), RunStep::Kill);
    assert_eq!(ccusage_run_step(u64::MAX, Some(true)), RunStep::Finished(true));
    assert_eq!(ccusage_run_step(5, Some(false)), RunStep::Finished(false));
    assert_eq!(ccusage_run_output(false, "[]", "  boom \n").err().as_deref(), Some("boom"));
    assert_eq!(ccusage_run_output(true, "noise\n[]", "").as_deref(), Ok("{\"daily\":[]}"));
    assert_eq!(
        ccusage_run_output(true, "no json", "").err().as_deref(),
        Some("output parse failed")
    );
}
