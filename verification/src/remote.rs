//! The exchange with the usage endpoint: which credentials a request carries,
//! what an HTTP status leads to, and how a token refresh reply updates the
//! credentials.
use vstd::prelude::*;
use crate::auth::{CodexAuth, CodexTokens};
use crate::numtext::{decimal_chars, decimal_text};
use crate::text::string_from_chars;

verus! {

/// Whether an HTTP status is in the success range `200..300`.
pub open spec fn success_status(status: u16) -> bool {
    200 <= status < 300
}

/// Whether an optional string is present and not empty.
pub open spec fn non_empty(o: Option<String>) -> bool {
    o matches Some(s) && s@.len() > 0
}

/// What a usage request carries: the access token, and the account id where
/// one is set and not empty. Only a ChatGPT login has tokens.
pub open spec fn credentials_of(auth: CodexAuth) -> Result<(Seq<char>, Option<Seq<char>>), Seq<char>> {
    match auth.tokens {
        Some(t) => Ok(
            (
                t.access_token@,
                if non_empty(t.account_id) {
                    Some(t.account_id->0@)
                } else {
                    None
                },
            ),
        ),
        None => Err("Codex 用量需要 ChatGPT 登录。"@),
    }
}

/// The bearer token and the `ChatGPT-Account-Id` header of a usage request
/// (see `credentials_of`).
pub fn usage_credentials(auth: &CodexAuth) -> (r: Result<(String, Option<String>), String>)
    ensures
        match credentials_of(*auth) {
            Ok((token, account)) => r matches Ok((t, a)) && t@ == token && match a {
                Some(a) => account == Some(a@),
                None => account is None,
            },
            Err(e) => r matches Err(m) && m@ == e,
        },
{
    match &auth.tokens {
        Some(t) => {
            let account = match &t.account_id {
                Some(a) => if a.as_str().unicode_len() > 0 {
                    Some(a.clone())
                } else {
                    None
                },
                None => None,
            };
            Ok((t.access_token.clone(), account))
        },
        None => Err(String::from_str("Codex 用量需要 ChatGPT 登录。")),
    }
}

/// The refresh token that a refresh request sends: it must be present and
/// not empty, else the session has expired.
pub open spec fn refresh_token_of(auth: CodexAuth) -> Result<Seq<char>, Seq<char>> {
    match auth.tokens {
        Some(t) => if non_empty(t.refresh_token) {
            Ok(t.refresh_token->0@)
        } else {
            Err("Codex 会话已过期，请重新运行 `codex login`。"@)
        },
        None => Err("Codex 会话已过期，请重新运行 `codex login`。"@),
    }
}

/// The refresh token to send (see `refresh_token_of`).
pub fn refresh_token_for(auth: &CodexAuth) -> (r: Result<String, String>)
    ensures
        match refresh_token_of(*auth) {
            Ok(token) => r matches Ok(t) && t@ == token,
            Err(e) => r matches Err(m) && m@ == e,
        },
{
    if let Some(t) = &auth.tokens {
        if let Some(rt) = &t.refresh_token {
            if rt.as_str().unicode_len() > 0 {
                return Ok(rt.clone());
            }
        }
    }
    Err(String::from_str("Codex 会话已过期，请重新运行 `codex login`。"))
}

/// The reply to a token refresh: its status and the string members of its
/// JSON body.
#[derive(Clone, Debug)]
pub struct RefreshReply {
    pub status: u16,
    /// `error.code`, where it is a string.
    pub error_code: Option<String>,
    /// `error`, where it is a string.
    pub error: Option<String>,
    /// `access_token`, where it is a string.
    pub access_token: Option<String>,
    /// `refresh_token`, where it is a string.
    pub refresh_token: Option<String>,
    /// `id_token`, where it is a string.
    pub id_token: Option<String>,
}

/// The error code of a failed refresh: `error.code`, else `error`, else
/// `unknown`.
pub open spec fn reply_error_code(reply: RefreshReply) -> Seq<char> {
    match reply.error_code {
        Some(c) => c@,
        None => match reply.error {
            Some(e) => e@,
            None => "unknown"@,
        },
    }
}

/// What a failed refresh tells the user, by its error code.
pub open spec fn refresh_failure_text(code: Seq<char>) -> Seq<char> {
    if code == "refresh_token_expired"@ {
        "Codex 会话已过期，请重新运行 `codex login`。"@
    } else if code == "refresh_token_reused"@ {
        "Codex token 冲突，请重新运行 `codex login`。"@
    } else if code == "refresh_token_invalidated"@ {
        "Codex token 已撤销，请重新运行 `codex login`。"@
    } else {
        "Codex token 已过期，请重新运行 `codex login`。"@
    }
}

/// The message for a failed refresh with error code `code` (see
/// `refresh_failure_text`).
pub fn refresh_failure_message(code: &str) -> (r: String)
    ensures
        r@ == refresh_failure_text(code@),
{
    let s = String::from_str(code);
    if s.eq(&String::from_str("refresh_token_expired")) {
        String::from_str("Codex 会话已过期，请重新运行 `codex login`。")
    } else if s.eq(&String::from_str("refresh_token_reused")) {
        String::from_str("Codex token 冲突，请重新运行 `codex login`。")
    } else if s.eq(&String::from_str("refresh_token_invalidated")) {
        String::from_str("Codex token 已撤销，请重新运行 `codex login`。")
    } else {
        String::from_str("Codex token 已过期，请重新运行 `codex login`。")
    }
}

/// Whether a refresh reply can be applied to the credentials, and if not,
/// why: a failed status, a reply without an access token, or credentials
/// without tokens.
pub open spec fn refresh_outcome(auth: CodexAuth, reply: RefreshReply) -> Result<(), Seq<char>> {
    if !success_status(reply.status) {
        Err(refresh_failure_text(reply_error_code(reply)))
    } else if !non_empty(reply.access_token) {
        Err("Codex token 刷新响应缺少 access_token。"@)
    } else if auth.tokens is None {
        Err("Codex 用量需要 ChatGPT 登录。"@)
    } else {
        Ok(())
    }
}

/// The tokens after a refresh: the new access token; the new refresh and ID
/// tokens where the reply has them, else the old ones; the same account.
pub open spec fn tokens_refreshed(before: CodexTokens, after: CodexTokens, reply: RefreshReply) -> bool {
    &&& reply.access_token matches Some(t) && after.access_token@ == t@
    &&& after.refresh_token == if reply.refresh_token is Some {
        reply.refresh_token
    } else {
        before.refresh_token
    }
    &&& after.id_token == if reply.id_token is Some {
        reply.id_token
    } else {
        before.id_token
    }
    &&& after.account_id == before.account_id
}

/// The credentials after an applied refresh at `refreshed_at`: the tokens
/// refreshed, the API key kept, the time of the refresh recorded.
pub open spec fn auth_refreshed(before: CodexAuth, after: CodexAuth, reply: RefreshReply, refreshed_at: Seq<char>) -> bool {
    &&& before.tokens matches Some(b) && after.tokens matches Some(a) && tokens_refreshed(b, a, reply)
    &&& after.openai_api_key == before.openai_api_key
    &&& after.last_refresh matches Some(t) && t@ == refreshed_at
}

/// A refresh takes every token the reply carries: the stored access token
/// is the reply's, and so are the refresh and ID tokens wherever the reply
/// has them; an old one is kept only where the reply has none.
pub proof fn lemma_refresh_takes_reply_tokens(
    before: CodexAuth,
    after: CodexAuth,
    reply: RefreshReply,
    refreshed_at: Seq<char>,
)
    requires
        auth_refreshed(before, after, reply, refreshed_at),
    ensures
        after.tokens matches Some(t) && reply.access_token matches Some(x) && t.access_token@ == x@,
        reply.id_token matches Some(i) ==> after.tokens->0.id_token == Some(i),
        reply.refresh_token matches Some(k) ==> after.tokens->0.refresh_token == Some(k),
        reply.id_token is None ==> after.tokens->0.id_token == before.tokens->0.id_token,
        reply.refresh_token is None ==> after.tokens->0.refresh_token
            == before.tokens->0.refresh_token,
        after.tokens->0.account_id == before.tokens->0.account_id,
{
}

/// Applies the reply to a token refresh made at `refreshed_at`: on success
/// the tokens are updated (see `auth_refreshed`); on failure the credentials
/// stay as they were and the error says why (see `refresh_outcome`).
pub fn apply_refresh_reply(auth: &mut CodexAuth, reply: RefreshReply, refreshed_at: String) -> (r:
    Result<(), String>)
    ensures
        match refresh_outcome(*old(auth), reply) {
            Ok(()) => r is Ok && auth_refreshed(*old(auth), *final(auth), reply, refreshed_at@),
            Err(e) => r matches Err(m) && m@ == e && *final(auth) == *old(auth),
        },
        r is Ok ==> (final(auth).tokens matches Some(t) && (reply.access_token matches Some(x)
            && t.access_token@ == x@) && (reply.id_token is Some ==> t.id_token == reply.id_token)
            && (reply.refresh_token is Some ==> t.refresh_token == reply.refresh_token)),
{
    if !(200 <= reply.status && reply.status < 300) {
        let msg = match &reply.error_code {
            Some(c) => refresh_failure_message(c.as_str()),
            None => match &reply.error {
                Some(e) => refresh_failure_message(e.as_str()),
                None => refresh_failure_message("unknown"),
            },
        };
        return Err(msg);
    }
    let ghost reply0 = reply;
    let access_token = match reply.access_token {
        Some(t) => if t.as_str().unicode_len() > 0 {
            t
        } else {
            return Err(String::from_str("Codex token 刷新响应缺少 access_token。"));
        },
        None => {
            return Err(String::from_str("Codex token 刷新响应缺少 access_token。"));
        },
    };
    if auth.tokens.is_none() {
        return Err(String::from_str("Codex 用量需要 ChatGPT 登录。"));
    }
    let before = auth.tokens.take().unwrap();
    let refresh_token = match reply.refresh_token {
        Some(t) => Some(t),
        None => before.refresh_token,
    };
    let id_token = match reply.id_token {
        Some(t) => Some(t),
        None => before.id_token,
    };
    auth.tokens = Some(
        CodexTokens { access_token, refresh_token, id_token, account_id: before.account_id },
    );
    auth.last_refresh = Some(refreshed_at);
    assert(tokens_refreshed(old(auth).tokens->0, auth.tokens->0, reply0));
    Ok(())
}

/// What follows a usage request's HTTP status.
#[derive(Clone, Debug)]
pub enum UsageStep {
    /// Refresh the token and ask once more.
    RefreshAuth,
    /// Give up with this message.
    Fail(String),
    /// Read the body as the usage report.
    ReadBody,
}

/// What follows a usage request that answered `status`, `refreshed` telling
/// whether the token has already been refreshed: an unauthorised answer
/// leads to one refresh, and after it to an expired session; another status
/// outside `200..300` fails with the status in the message; a success is
/// read.
pub open spec fn usage_step_ok(step: UsageStep, status: u16, refreshed: bool) -> bool {
    if status == 401 || status == 403 {
        if refreshed {
            step matches UsageStep::Fail(m) && m@ == "Codex 会话已过期，请重新运行 `codex login`。"@
        } else {
            step is RefreshAuth
        }
    } else if !success_status(status) {
        step matches UsageStep::Fail(m) && m@ == "Codex 用量请求失败（HTTP "@ + decimal_text(
            status as nat,
        ) + "）。"@
    } else {
        step is ReadBody
    }
}

/// What follows a usage request's answer (see `usage_step_ok`).
pub fn next_usage_step(status: u16, refreshed: bool) -> (r: UsageStep)
    ensures
        usage_step_ok(r, status, refreshed),
{
    if status == 401 || status == 403 {
        if refreshed {
            UsageStep::Fail(String::from_str("Codex 会话已过期，请重新运行 `codex login`。"))
        } else {
            UsageStep::RefreshAuth
        }
    } else if !(200 <= status && status < 300) {
        let digits = decimal_chars(status as u64);
        let mut m = String::from_str("Codex 用量请求失败（HTTP ");
        let d = string_from_chars(&digits);
        m.append(d.as_str());
        m.append("）。");
        UsageStep::Fail(m)
    } else {
        UsageStep::ReadBody
    }
}

/// After one refresh, no answer leads to another: a usage request is
/// retried at most once.
pub proof fn lemma_refresh_at_most_once(status: u16, step: UsageStep)
    requires
        usage_step_ok(step, status, true),
    ensures
        !(step is RefreshAuth),
{
}

} // verus!
