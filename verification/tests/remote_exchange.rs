use codex_usage::auth::{CodexAuth, CodexTokens};
use codex_usage::remote::{
    apply_refresh_reply, next_usage_step, refresh_failure_message, refresh_token_for,
    usage_credentials, RefreshReply, UsageStep,
};

fn auth(refresh: Option<&str>, account: Option<&str>) -> CodexAuth {
    CodexAuth {
        openai_api_key: None,
        tokens: Some(CodexTokens {
            access_token: "old-access".to_string(),
            refresh_token: refresh.map(str::to_string),
            id_token: Some("old-id".to_string()),
            account_id: account.map(str::to_string),
        }),
        last_refresh: None,
    }
}

fn reply(status: u16) -> RefreshReply {
    RefreshReply {
        status,
        error_code: None,
        error: None,
        access_token: None,
        refresh_token: None,
        id_token: None,
    }
}

#[test]
fn credentials_carry_account_only_when_set() {
    let (token, account) = usage_credentials(&auth(None, Some("acct-1"))).expect("credentials");
    assert_eq!(token, "old-access");
    assert_eq!(account.as_deref(), Some("acct-1"));

    let (_, account) = usage_credentials(&auth(None, Some(""))).expect("credentials");
    assert_eq!(account, None);

    let no_tokens = CodexAuth { openai_api_key: None, tokens: None, last_refresh: None };
    assert_eq!(usage_credentials(&no_tokens).err().as_deref(), Some("Codex 用量需要 ChatGPT 登录。"));
}

#[test]
fn refresh_needs_a_refresh_token() {
    assert_eq!(refresh_token_for(&auth(Some("rt"), None)).as_deref(), Ok("rt"));
    let expired = "Codex 会话已过期，请重新运行 `codex login`。";
    assert_eq!(refresh_token_for(&auth(Some(""), None)).err().as_deref(), Some(expired));
    assert_eq!(refresh_token_for(&auth(None, None)).err().as_deref(), Some(expired));
}

#[test]
fn refresh_failure_messages_follow_error_code() {
    assert_eq!(
        refresh_failure_message("refresh_token_expired"),
        "Codex 会话已过期，请重新运行 `codex login`。"
    );
    assert_eq!(
        refresh_failure_message("refresh_token_reused"),
        "Codex token 冲突，请重新运行 `codex login`。"
    );
    assert_eq!(
        refresh_failure_message("refresh_token_invalidated"),
        "Codex token 已撤销，请重新运行 `codex login`。"
    );
    assert_eq!(
        refresh_failure_message("unknown"),
        "Codex token 已过期，请重新运行 `codex login`。"
    );
}

#[test]
fn failed_refresh_reads_error_code_then_error_and_keeps_credentials() {
    let mut a = auth(Some("rt"), None);
    let mut r = reply(400);
    r.error_code = Some("refresh_token_reused".to_string());
    r.error = Some("refresh_token_expired".to_string());
    r.access_token = Some("new".to_string());
    let err = apply_refresh_reply(&mut a, r, "2026-01-01T00:00:00Z".to_string()).err();
    assert_eq!(err.as_deref(), Some("Codex token 冲突，请重新运行 `codex login`。"));
    assert_eq!(a.tokens.as_ref().expect("tokens").access_token, "old-access");
    assert_eq!(a.last_refresh, None);

    let mut r = reply(401);
    r.error = Some("refresh_token_invalidated".to_string());
    let err = apply_refresh_reply(&mut a, r, "t".to_string()).err();
    assert_eq!(err.as_deref(), Some("Codex token 已撤销，请重新运行 `codex login`。"));

    let err = apply_refresh_reply(&mut a, reply(500), "t".to_string()).err();
    assert_eq!(err.as_deref(), Some("Codex token 已过期，请重新运行 `codex login`。"));
}

#[test]
fn successful_refresh_needs_an_access_token() {
    let mut a = auth(Some("rt"), None);
    let err = apply_refresh_reply(&mut a, reply(200), "t".to_string()).err();
    assert_eq!(err.as_deref(), Some("Codex token 刷新响应缺少 access_token。"));
    let mut r = reply(200);
    r.access_token = Some(String::new());
    let err = apply_refresh_reply(&mut a, r, "t".to_string()).err();
    assert_eq!(err.as_deref(), Some("Codex token 刷新响应缺少 access_token。"));
    assert_eq!(a.tokens.as_ref().expect("tokens").access_token, "old-access");
}

#[test]
fn successful_refresh_updates_tokens_and_time() {
    let mut a = auth(Some("old-refresh"), Some("acct"));
    let mut r = reply(200);
    r.access_token = Some("new-access".to_string());
    r.refresh_token = Some("new-refresh".to_string());
    apply_refresh_reply(&mut a, r, "2026-06-13T12:00:00Z".to_string()).expect("applied");
    let t = a.tokens.as_ref().expect("tokens");
    assert_eq!(t.access_token, "new-access");
    assert_eq!(t.refresh_token.as_deref(), Some("new-refresh"));
    assert_eq!(t.id_token.as_deref(), Some("old-id"));
    assert_eq!(t.account_id.as_deref(), Some("acct"));
    assert_eq!(a.last_refresh.as_deref(), Some("2026-06-13T12:00:00Z"));
}

#[test]
fn refresh_reply_for_credentials_without_tokens_fails() {
    let mut a = CodexAuth { openai_api_key: None, tokens: None, last_refresh: None };
    let mut r = reply(204);
    r.access_token = Some("x".to_string());
    let err = apply_refresh_reply(&mut a, r, "t".to_string()).err();
    assert_eq!(err.as_deref(), Some("Codex 用量需要 ChatGPT 登录。"));
    assert!(a.tokens.is_none());
}

#[test]
fn usage_status_leads_to_one_refresh_at_most() {
    assert!(matches!(next_usage_step(401, false), UsageStep::RefreshAuth));
    assert!(matches!(next_usage_step(403, false), UsageStep::RefreshAuth));
    match next_usage_step(401, true) {
        UsageStep::Fail(m) => assert_eq!(m, "Codex 会话已过期，请重新运行 `codex login`。"),
        _ => panic!("expected failure"),
    }
    match next_usage_step(500, false) {
        UsageStep::Fail(m) => assert_eq!(m, "Codex 用量请求失败（HTTP 500）。"),
        _ => panic!("expected failure"),
    }
    match next_usage_step(302, true) {
        UsageStep::Fail(m) => assert_eq!(m, "Codex 用量请求失败（HTTP 302）。"),
        _ => panic!("expected failure"),
    }
    assert!(matches!(next_usage_step(200, false), UsageStep::ReadBody));
    assert!(matches!(next_usage_step(299, true), UsageStep::ReadBody));
}
