//! The Codex CLI's `auth.json`: where it is looked for and which file is
//! used.
use vstd::prelude::*;
use crate::paths::{
    join_path_with, joined, lemma_join_name_prefix_free, main_separator, prefix_free,
};
use crate::text::{chars_of, opt_chars};

verus! {

/// The `tokens` of `auth.json`.
#[derive(Clone, Debug)]
pub struct CodexTokens {
    pub access_token: String,
    pub refresh_token: Option<String>,
    pub id_token: Option<String>,
    pub account_id: Option<String>,
}

/// The content of `auth.json`.
#[derive(Clone, Debug)]
pub struct CodexAuth {
    /// `OPENAI_API_KEY`.
    pub openai_api_key: Option<String>,
    pub tokens: Option<CodexTokens>,
    pub last_refresh: Option<String>,
}

/// The credentials in use and the file they were read from.
#[derive(Clone, Debug)]
pub struct AuthState {
    pub path: String,
    pub auth: CodexAuth,
}

/// Where `auth.json` is looked for, `sep` being the platform's separator:
/// only in `CODEX_HOME` where that is set, else in `~/.config/codex` and
/// then in `~/.codex`.
pub open spec fn candidate_paths(codex_home: Option<Seq<char>>, home: Seq<char>, sep: char) -> Seq<
    Seq<char>,
> {
    match codex_home {
        Some(h) => seq![joined(h, "auth.json"@, sep)],
        None => seq![
            joined(joined(joined(home, ".config"@, sep), "codex"@, sep), "auth.json"@, sep),
            joined(joined(home, ".codex"@, sep), "auth.json"@, sep),
        ],
    }
}

/// Whether the directory that the candidates are joined onto has no
/// two-separator prefix (see `prefix_free`; only a `\\` separator has
/// such prefixes).
pub open spec fn candidates_modelled(codex_home: Option<Seq<char>>, home: Seq<char>, sep: char) -> bool {
    match codex_home {
        Some(h) => prefix_free(h, sep),
        None => prefix_free(home, sep),
    }
}

pub open spec fn opt_str_chars(o: Option<&str>) -> Option<Seq<char>> {
    match o {
        Some(s) => Some(s@),
        None => None,
    }
}

/// The places where `auth.json` is looked for, in order, `sep` being the
/// platform's separator (see `candidate_paths`).
pub fn auth_candidate_paths_with(codex_home: Option<&str>, home: &str, sep: char) -> (r: Vec<String>)
    ensures
        r@.len() == if codex_home is Some {
            1int
        } else {
            2int
        },
        candidates_modelled(opt_str_chars(codex_home), home@, sep) ==> r@.map_values(
            |s: String| s@,
        ) == candidate_paths(opt_str_chars(codex_home), home@, sep),
{
    let mut out: Vec<String> = Vec::new();
    proof {
        reveal_strlit(".config");
        reveal_strlit("codex");
        reveal_strlit(".codex");
    }
    match codex_home {
        Some(h) => {
            out.push(join_path_with(h, "auth.json", sep));
        },
        None => {
            let config = join_path_with(home, ".config", sep);
            proof {
                if prefix_free(home@, sep) && sep == '\\' {
                    lemma_join_name_prefix_free(home@, ".config"@, sep);
                }
            }
            let config_codex = join_path_with(config.as_str(), "codex", sep);
            proof {
                if prefix_free(home@, sep) && sep == '\\' {
                    lemma_join_name_prefix_free(config@, "codex"@, sep);
                }
            }
            out.push(join_path_with(config_codex.as_str(), "auth.json", sep));
            let legacy = join_path_with(home, ".codex", sep);
            proof {
                if prefix_free(home@, sep) && sep == '\\' {
                    lemma_join_name_prefix_free(home@, ".codex"@, sep);
                }
            }
            out.push(join_path_with(legacy.as_str(), "auth.json", sep));
        },
    }
    proof {
        if candidates_modelled(opt_str_chars(codex_home), home@, sep) {
            assert(out@.map_values(|s: String| s@) =~= candidate_paths(
                opt_str_chars(codex_home),
                home@,
                sep,
            ));
        }
    }
    out
}

/// The places where `auth.json` is looked for, with the platform's separator
/// (see `auth_candidate_paths_with`).
pub fn auth_candidate_paths(codex_home: Option<&str>, home: &str) -> (r: Vec<String>)
    ensures
        r@.len() == if codex_home is Some {
            1int
        } else {
            2int
        },
        exists|sep: char|
            candidates_modelled(opt_str_chars(codex_home), home@, sep) ==> r@.map_values(
                |s: String| s@,
            ) == candidate_paths(opt_str_chars(codex_home), home@, sep),
{
    let sep = main_separator();
    let r = auth_candidate_paths_with(codex_home, home, sep);
    assert(candidates_modelled(opt_str_chars(codex_home), home@, sep) ==> r@.map_values(
        |s: String| s@,
    ) == candidate_paths(opt_str_chars(codex_home), home@, sep));
    r
}

/// What was found at one candidate place.
#[derive(Clone, Debug)]
pub enum AuthProbe {
    /// No file there.
    Missing,
    /// The file could not be read; the error's text.
    Unreadable(String),
    /// The file is not valid `auth.json`; the parser's error text.
    Invalid(String),
    /// The file's content.
    Parsed(CodexAuth),
}

/// One candidate place and what was found there.
#[derive(Clone, Debug)]
pub struct AuthCandidate {
    pub path: String,
    pub probe: AuthProbe,
}

pub open spec fn has_api_key(a: CodexAuth) -> bool {
    a.openai_api_key matches Some(k) && k@.len() > 0
}

/// The credentials that the candidates give, looked at in order: the first
/// file with tokens is used; a file that cannot be read or parsed, or one
/// that holds only an API key, ends the search with an error; with none of
/// these the user is not logged in.
pub open spec fn auth_choice(cs: Seq<AuthCandidate>) -> Result<(Seq<char>, CodexAuth), Seq<char>>
    decreases cs.len(),
{
    if cs.len() == 0 {
        Err("未登录。请使用文件凭据模式运行 `codex login`。"@)
    } else {
        match cs[0].probe {
            AuthProbe::Missing => auth_choice(cs.drop_first()),
            AuthProbe::Unreadable(e) => Err("读取 Codex auth.json 失败："@ + e@),
            AuthProbe::Invalid(e) => Err("Codex auth.json 不是有效 JSON："@ + e@),
            AuthProbe::Parsed(a) => if a.tokens is Some {
                Ok((cs[0].path@, a))
            } else if has_api_key(a) {
                Err("Codex 用量需要 ChatGPT 登录，不能使用 API key 登录。"@)
            } else {
                auth_choice(cs.drop_first())
            },
        }
    }
}

/// A candidate that the search passes over: no file there, or a file with
/// neither tokens nor an API key.
pub open spec fn passed_over(c: AuthCandidate) -> bool {
    match c.probe {
        AuthProbe::Missing => true,
        AuthProbe::Parsed(a) => a.tokens is None && !has_api_key(a),
        _ => false,
    }
}

/// The search reaches the `i`-th candidate, a ChatGPT login (a file with
/// tokens): every candidate before it is passed over.
pub open spec fn login_reached(cs: Seq<AuthCandidate>, i: int) -> bool {
    &&& 0 <= i < cs.len()
    &&& forall|j: int| 0 <= j < i ==> #[trigger] passed_over(cs[j])
    &&& cs[i].probe is Parsed
    &&& cs[i].probe->Parsed_0.tokens is Some
}

/// A ChatGPT login is used as soon as the search reaches it: where every
/// candidate before the `i`-th is passed over and the `i`-th holds tokens,
/// the `i`-th is chosen, with its path and content, whatever API key it
/// also holds.
pub proof fn lemma_first_login_chosen(cs: Seq<AuthCandidate>, i: int, a: CodexAuth)
    requires
        0 <= i < cs.len(),
        forall|j: int| 0 <= j < i ==> #[trigger] passed_over(cs[j]),
        cs[i].probe == AuthProbe::Parsed(a),
        a.tokens is Some,
    ensures
        auth_choice(cs) == Ok::<(Seq<char>, CodexAuth), Seq<char>>((cs[i].path@, a)),
    decreases i,
{
    if i > 0 {
        assert(passed_over(cs[0]));
        let rest = cs.drop_first();
        assert forall|j: int| 0 <= j < i - 1 implies #[trigger] passed_over(rest[j]) by {
            assert(rest[j] == cs[j + 1]);
            assert(passed_over(cs[j + 1]));
        }
        assert(rest[i - 1] == cs[i]);
        lemma_first_login_chosen(rest, i - 1, a);
    }
}

/// What the search chooses is a candidate's own content, and it holds
/// tokens: a file with only an API key is never chosen.
pub proof fn lemma_chosen_has_tokens(cs: Seq<AuthCandidate>)
    ensures
        auth_choice(cs) matches Ok((p, a)) ==> a.tokens is Some && exists|i: int|
            0 <= i < cs.len() && (#[trigger] cs[i]).path@ == p && cs[i].probe == AuthProbe::Parsed(a),
    decreases cs.len(),
{
    if cs.len() > 0 {
        let rest = cs.drop_first();
        lemma_chosen_has_tokens(rest);
        if let Ok((p, a)) = auth_choice(cs) {
            match cs[0].probe {
                AuthProbe::Parsed(b) => {
                    if b.tokens is Some {
                        assert(cs[0].probe == AuthProbe::Parsed(a));
                    } else {
                        let i = choose|i: int|
                            0 <= i < rest.len() && (#[trigger] rest[i]).path@ == p && rest[i].probe
                                == AuthProbe::Parsed(a);
                        assert(cs[i + 1] == rest[i]);
                    }
                },
                AuthProbe::Missing => {
                    let i = choose|i: int|
                        0 <= i < rest.len() && (#[trigger] rest[i]).path@ == p && rest[i].probe
                            == AuthProbe::Parsed(a);
                    assert(cs[i + 1] == rest[i]);
                },
                _ => {},
            }
        }
    }
}

/// Whether the candidates, looked at in order, decide the search: one of
/// them cannot be read or parsed, has tokens, or holds only an API key.
pub open spec fn auth_decided(cs: Seq<AuthCandidate>) -> bool
    decreases cs.len(),
{
    if cs.len() == 0 {
        false
    } else {
        match cs[0].probe {
            AuthProbe::Missing => auth_decided(cs.drop_first()),
            AuthProbe::Parsed(a) => a.tokens is Some || has_api_key(a) || auth_decided(
                cs.drop_first(),
            ),
            _ => true,
        }
    }
}

/// Once the candidates looked at decide the search, the places after them
/// change nothing, so they need not be read; while they do not, the search
/// goes on as if they were not there.
pub proof fn lemma_auth_search_stops(cs: Seq<AuthCandidate>, more: Seq<AuthCandidate>)
    ensures
        auth_decided(cs) ==> auth_choice(cs + more) == auth_choice(cs),
        !auth_decided(cs) ==> auth_choice(cs + more) == auth_choice(more),
    decreases cs.len(),
{
    if cs.len() > 0 {
        assert((cs + more).drop_first() =~= cs.drop_first() + more);
        assert((cs + more)[0] == cs[0]);
        lemma_auth_search_stops(cs.drop_first(), more);
    } else {
        assert(cs + more =~= more);
    }
}

/// Whether the candidates looked at so far decide the search (see
/// `auth_decided`).
pub fn auth_search_decided(candidates: &Vec<AuthCandidate>) -> (r: bool)
    ensures
        r == auth_decided(candidates@),
{
    let mut i: usize = 0;
    assert(candidates@.skip(0) =~= candidates@);
    while i < candidates.len()
        invariant
            i <= candidates@.len(),
            auth_decided(candidates@) == auth_decided(candidates@.skip(i as int)),
        decreases candidates@.len() - i,
    {
        assert(candidates@.skip(i as int).drop_first() =~= candidates@.skip(i + 1));
        assert(candidates@.skip(i as int)[0] == candidates@[i as int]);
        match &candidates[i].probe {
            AuthProbe::Missing => {},
            AuthProbe::Parsed(a) => {
                let key_set = match &a.openai_api_key {
                    Some(k) => k.as_str().unicode_len() > 0,
                    None => false,
                };
                if a.tokens.is_some() || key_set {
                    return true;
                }
            },
            _ => {
                return true;
            },
        }
        i = i + 1;
    }
    assert(candidates@.skip(i as int) =~= Seq::<AuthCandidate>::empty());
    false
}

fn message_with(prefix: &str, detail: &String) -> (r: String)
    ensures
        r@ == prefix@ + detail@,
{
    let mut m = String::from_str(prefix);
    m.append(detail.as_str());
    m
}

/// The credentials to use, from what the candidate places hold (see
/// `auth_choice`).
pub fn select_auth_state(candidates: Vec<AuthCandidate>) -> (r: Result<AuthState, String>)
    ensures
        match auth_choice(candidates@) {
            Ok((path, auth)) => r matches Ok(st) && st.path@ == path && st.auth == auth,
            Err(e) => r matches Err(m) && m@ == e,
        },
        forall|i: int| #[trigger] login_reached(candidates@, i) ==> (r matches Ok(st) && st.path@
            == candidates@[i].path@ && st.auth == candidates@[i].probe->Parsed_0),
        r matches Ok(st) ==> st.auth.tokens is Some,
{
    proof {
        assert forall|i: int| #[trigger] login_reached(candidates@, i) implies auth_choice(candidates@)
            == Ok::<(Seq<char>, CodexAuth), Seq<char>>(
            (candidates@[i].path@, candidates@[i].probe->Parsed_0),
        ) by {
            lemma_first_login_chosen(candidates@, i, candidates@[i].probe->Parsed_0);
        }
        lemma_chosen_has_tokens(candidates@);
    }
    let ghost all = candidates@;
    let mut rest = candidates;
    while rest.len() > 0
        invariant
            all == candidates@,
            auth_choice(all) == auth_choice(rest@),
            forall|i: int| #[trigger] login_reached(all, i) ==> auth_choice(all) == Ok::<
                (Seq<char>, CodexAuth),
                Seq<char>,
            >((all[i].path@, all[i].probe->Parsed_0)),
            auth_choice(all) matches Ok((p, a)) ==> a.tokens is Some,
        decreases rest@.len(),
    {
        let ghost before = rest@;
        let c = rest.remove(0);
        assert(rest@ =~= before.drop_first());
        assert(before[0] == c);
        match c.probe {
            AuthProbe::Missing => {},
            AuthProbe::Unreadable(e) => {
                return Err(message_with("读取 Codex auth.json 失败：", &e));
            },
            AuthProbe::Invalid(e) => {
                return Err(message_with("Codex auth.json 不是有效 JSON：", &e));
            },
            AuthProbe::Parsed(a) => {
                if a.tokens.is_some() {
                    return Ok(AuthState { path: c.path, auth: a });
                }
                let key_set = match &a.openai_api_key {
                    Some(k) => k.as_str().unicode_len() > 0,
                    None => false,
                };
                if key_set {
                    return Err(String::from_str("Codex 用量需要 ChatGPT 登录，不能使用 API key 登录。"));
                }
            },
        }
    }
    Err(String::from_str("未登录。请使用文件凭据模式运行 `codex login`。"))
}

} // verus!
