use codex_usage::auth::{
    auth_candidate_paths, auth_search_decided, select_auth_state, AuthCandidate, AuthProbe,
    CodexAuth, CodexTokens,
};

fn tokens(access: &str) -> CodexTokens {
    CodexTokens {
        access_token: access.to_string(),
        refresh_token: Some("refresh".to_string()),
        id_token: None,
        account_id: None,
    }
}

fn auth_with_tokens(access: &str) -> CodexAuth {
    CodexAuth { openai_api_key: None, tokens: Some(tokens(access)), last_refresh: None }
}

fn candidate(path: &str, probe: AuthProbe) -> AuthCandidate {
    AuthCandidate { path: path.to_string(), probe }
}

#[test]
fn auth_candidates_prefer_codex_home_when_set() {
    let paths = auth_candidate_paths(Some("/tmp/codex-home"), "/home/alex");

    assert_eq!(paths, vec!["/tmp/codex-home/auth.json".to_string()]);
}

#[test]
fn auth_candidates_fall_back_to_config_then_legacy_home() {
    let paths = auth_candidate_paths(None, "/home/alex");

    assert_eq!(
        paths,
        vec![
            "/home/alex/.config/codex/auth.json".to_string(),
            "/home/alex/.codex/auth.json".to_string(),
        ]
    );
}

#[test]
fn auth_candidates_join_home_with_trailing_separator() {
    let paths = auth_candidate_paths(Some("/tmp/codex-home/"), "/home/alex");
    assert_eq!(paths, vec!["/tmp/codex-home/auth.json".to_string()]);
}

#[test]
fn select_skips_missing_files_and_takes_first_with_tokens() {
    let state = select_auth_state(vec![
        candidate("/a/auth.json", AuthProbe::Missing),
        candidate("/b/auth.json", AuthProbe::Parsed(auth_with_tokens("tok-b"))),
        candidate("/c/auth.json", AuthProbe::Parsed(auth_with_tokens("tok-c"))),
    ])
    .expect("state");
    assert_eq!(state.path, "/b/auth.json");
    assert_eq!(state.auth.tokens.expect("tokens").access_token, "tok-b");
}

#[test]
fn select_without_any_file_is_not_logged_in() {
    let err = select_auth_state(vec![
        candidate("/a/auth.json", AuthProbe::Missing),
        candidate("/b/auth.json", AuthProbe::Missing),
    ])
    .err()
    .expect("error");
    assert_eq!(err, "未登录。请使用文件凭据模式运行 `codex login`。");
    assert_eq!(
        select_auth_state(Vec::new()).err().expect("error"),
        "未登录。请使用文件凭据模式运行 `codex login`。"
    );
}

#[test]
fn select_rejects_api_key_login() {
    let api_only = CodexAuth {
        openai_api_key: Some("sk-test".to_string()),
        tokens: None,
        last_refresh: None,
    };
    let err = select_auth_state(vec![
        candidate("/a/auth.json", AuthProbe::Parsed(api_only)),
        candidate("/b/auth.json", AuthProbe::Parsed(auth_with_tokens("tok"))),
    ])
    .err()
    .expect("error");
    assert_eq!(err, "Codex 用量需要 ChatGPT 登录，不能使用 API key 登录。");
}

#[test]
fn select_skips_file_with_empty_api_key_and_no_tokens() {
    let empty = CodexAuth { openai_api_key: Some(String::new()), tokens: None, last_refresh: None };
    let state = select_auth_state(vec![
        candidate("/a/auth.json", AuthProbe::Parsed(empty)),
        candidate("/b/auth.json", AuthProbe::Parsed(auth_with_tokens("tok"))),
    ])
    .expect("state");
    assert_eq!(state.path, "/b/auth.json");
}

#[test]
fn select_reports_unreadable_and_invalid_files() {
    let err = select_auth_state(vec![candidate(
        "/a/auth.json",
        AuthProbe::Unreadable("permission denied".to_string()),
    )])
    .err()
    .expect("error");
    assert_eq!(err, "读取 Codex auth.json 失败：permission denied");

    let err = select_auth_state(vec![
        candidate("/a/auth.json", AuthProbe::Invalid("expected value at line 1".to_string())),
        candidate("/b/auth.json", AuthProbe::Parsed(auth_with_tokens("tok"))),
    ])
    .err()
    .expect("error");
    assert_eq!(err, "Codex auth.json 不是有效 JSON：expected value at line 1");
}

#[test]
fn search_is_decided_by_the_first_deciding_file() {
    assert!(!auth_search_decided(&Vec::new()));
    assert!(!auth_search_decided(&vec![candidate("/a", AuthProbe::Missing)]));
    let blank = CodexAuth { openai_api_key: None, tokens: None, last_refresh: None };
    assert!(!auth_search_decided(&vec![
        candidate("/a", AuthProbe::Missing),
        candidate("/b", AuthProbe::Parsed(blank)),
    ]));
    assert!(auth_search_decided(&vec![
        candidate("/a", AuthProbe::Missing),
        candidate("/b", AuthProbe::Parsed(auth_with_tokens("t"))),
    ]));
    assert!(auth_search_decided(&vec![candidate("/a", AuthProbe::Invalid("x".to_string()))]));
    assert!(auth_search_decided(&vec![candidate("/a", AuthProbe::Unreadable("x".to_string()))]));
}
