//! The package runners that can start `ccusage`: which ones are tried, in
//! which order, where they are looked for and what they are given.
use vstd::prelude::*;
use crate::paths::{
    components_of, join_path_with, joined, main_separator, path_components, prefix_free, same_path,
};
use crate::json_text::{normalize_ccusage_output, normalized_report};
use crate::text::{chars_eq, chars_of, is_blank, is_blank_chars, string_from_chars, trim_chars, trimmed};

verus! {

/// The version of `ccusage` that is run.
pub const CCUSAGE_VERSION: &'static str = "20.0.2";

/// A package runner.
#[derive(Clone, Copy, Debug, PartialEq, Eq, Structural)]
pub enum RunnerKind {
    Bunx,
    PnpmDlx,
    YarnDlx,
    NpmExec,
    Npx,
}

/// The texts of a sequence of strings.
pub open spec fn texts(v: Seq<String>) -> Seq<Seq<char>> {
    v.map_values(|s: String| s@)
}

/// The order in which runners are tried.
pub open spec fn order_of_runners() -> Seq<RunnerKind> {
    seq![
        RunnerKind::Bunx,
        RunnerKind::PnpmDlx,
        RunnerKind::YarnDlx,
        RunnerKind::NpmExec,
        RunnerKind::Npx,
    ]
}

/// The runners, in the order in which they are tried: bunx, pnpm dlx, yarn
/// dlx, npm exec, npx.
pub fn runner_order() -> (r: [RunnerKind; 5])
    ensures
        r@ == order_of_runners(),
{
    let r = [
        RunnerKind::Bunx,
        RunnerKind::PnpmDlx,
        RunnerKind::YarnDlx,
        RunnerKind::NpmExec,
        RunnerKind::Npx,
    ];
    assert(r@ =~= order_of_runners());
    r
}

/// `values` without blank texts and without repeats, the first of equal
/// texts kept, in order.
pub open spec fn deduped(values: Seq<Seq<char>>) -> Seq<Seq<char>>
    decreases values.len(),
{
    if values.len() == 0 {
        Seq::empty()
    } else {
        let prev = deduped(values.drop_last());
        let v = values.last();
        if is_blank(v) || prev.contains(v) {
            prev
        } else {
            prev.push(v)
        }
    }
}

/// `values` without blank texts and without repeats (see `deduped`).
pub fn dedupe(values: Vec<String>) -> (r: Vec<String>)
    ensures
        texts(r@) == deduped(texts(values@)),
{
    let mut out: Vec<String> = Vec::new();
    let mut i: usize = 0;
    while i < values.len()
        invariant
            i <= values@.len(),
            texts(out@) == deduped(texts(values@.take(i as int))),
        decreases values@.len() - i,
    {
        let ghost prev = texts(out@);
        assert(texts(values@.take(i + 1)).drop_last() =~= texts(values@.take(i as int)));
        assert(texts(values@.take(i + 1)).last() == values@[i as int]@);
        let value = &values[i];
        let blank = is_blank_chars(&chars_of(value.as_str()));
        let mut seen = false;
        let mut k: usize = 0;
        while k < out.len()
            invariant
                k <= out@.len(),
                prev == texts(out@),
                seen == exists|x: int| 0 <= x < k && out@[x]@ == value@,
            decreases out@.len() - k,
        {
            if out[k] == *value {
                seen = true;
            }
            k = k + 1;
        }
        proof {
            if seen {
                let x = choose|x: int| 0 <= x < k && out@[x]@ == value@;
                assert(prev[x] == value@);
            }
            if prev.contains(value@) {
                let x = choose|x: int| 0 <= x < prev.len() && prev[x] == value@;
                assert(out@[x]@ == value@);
            }
        }
        if !blank && !seen {
            out.push(value.clone());
            assert(texts(out@) =~= prev.push(value@));
        }
        i = i + 1;
    }
    assert(values@.take(values@.len() as int) =~= values@);
    out
}

/// What `dedupe` keeps: no blank text, no text twice, and each non-blank
/// text of the input, nothing else.
pub proof fn lemma_deduped(values: Seq<Seq<char>>)
    ensures
        forall|i: int| 0 <= i < deduped(values).len() ==> !is_blank(#[trigger] deduped(values)[i]),
        forall|i: int, j: int|
            0 <= i < j < deduped(values).len() ==> deduped(values)[i] != deduped(values)[j],
        forall|v: Seq<char>| #[trigger] deduped(values).contains(v) <==> (values.contains(v)
            && !is_blank(v)),
    decreases values.len(),
{
    if values.len() > 0 {
        let prev = deduped(values.drop_last());
        lemma_deduped(values.drop_last());
        assert forall|v: Seq<char>| values.contains(v) <==> (values.drop_last().contains(v) || v
            == values.last()) by {
            if values.contains(v) {
                let k = choose|k: int| 0 <= k < values.len() && values[k] == v;
                if k < values.len() - 1 {
                    assert(values.drop_last()[k] == v);
                }
            }
            if values.drop_last().contains(v) {
                let k = choose|k: int| 0 <= k < values.drop_last().len() && values.drop_last()[k] == v;
                assert(values[k] == v);
            }
            if v == values.last() {
                assert(values[values.len() - 1] == v);
            }
        }
        let v = values.last();
        if !(is_blank(v) || prev.contains(v)) {
            let out = prev.push(v);
            assert forall|x: Seq<char>| #[trigger] out.contains(x) <==> (prev.contains(x) || x == v) by {
                if out.contains(x) {
                    let k = choose|k: int| 0 <= k < out.len() && out[k] == x;
                    if k < prev.len() {
                        assert(prev[k] == x);
                    }
                }
                if prev.contains(x) {
                    let k = choose|k: int| 0 <= k < prev.len() && prev[k] == x;
                    assert(out[k] == x);
                }
                if x == v {
                    assert(out[prev.len() as int] == x);
                }
            }
            assert forall|i: int, j: int| 0 <= i < j < out.len() implies out[i] != out[j] by {
                if j == prev.len() {
                    assert(prev[i] == out[i]);
                }
            }
        }
    }
}

/// What `path_entries_with` keeps: no empty path, no path twice (paths
/// compared by their components), and each non-empty path of the input,
/// as an equal path.
pub proof fn lemma_distinct_paths(paths: Seq<Seq<char>>, sep: char)
    ensures
        forall|i: int| 0 <= i < distinct_paths(paths, sep).len() ==> (#[trigger] distinct_paths(paths, sep)[i]).len() > 0,
        forall|i: int, j: int|
            0 <= i < j < distinct_paths(paths, sep).len() ==> !same_path(
                distinct_paths(paths, sep)[i],
                distinct_paths(paths, sep)[j],
                sep,
            ),
        forall|v: Seq<char>| #[trigger] distinct_paths(paths, sep).contains(v) ==> paths.contains(v),
        forall|k: int|
            0 <= k < paths.len() && paths[k].len() > 0 ==> exists|i: int|
                0 <= i < distinct_paths(paths, sep).len() && #[trigger] same_path(
                    distinct_paths(paths, sep)[i],
                    paths[k],
                    sep,
                ),
    decreases paths.len(),
{
    if paths.len() > 0 {
        let rest = paths.drop_last();
        let prev = distinct_paths(rest, sep);
        lemma_distinct_paths(rest, sep);
        let v = paths.last();
        assert forall|x: Seq<char>| #[trigger] prev.contains(x) implies paths.contains(x) by {
            let k = choose|k: int| 0 <= k < rest.len() && rest[k] == x;
            assert(paths[k] == x);
        }
        assert forall|k: int| 0 <= k < rest.len() implies #[trigger] paths[k] == rest[k] by {}
        if v.len() == 0 || exists|k: int| 0 <= k < prev.len() && #[trigger] same_path(prev[k], v, sep) {
            assert forall|k: int|
                0 <= k < paths.len() && paths[k].len() > 0 implies exists|i: int|
                    0 <= i < prev.len() && #[trigger] same_path(prev[i], paths[k], sep) by {
                if k < rest.len() {
                    assert(paths[k] == rest[k]);
                }
            }
        } else {
            let out = prev.push(v);
            assert forall|x: Seq<char>| #[trigger] out.contains(x) implies paths.contains(x) by {
                let k = choose|k: int| 0 <= k < out.len() && out[k] == x;
                if k < prev.len() {
                    assert(prev[k] == x);
                    assert(prev.contains(x));
                } else {
                    assert(paths[paths.len() - 1] == x);
                }
            }
            assert forall|i: int, j: int| 0 <= i < j < out.len() implies !same_path(out[i], out[j], sep) by {
                if j == prev.len() {
                    assert(out[i] == prev[i]);
                    assert(out[j] == v);
                }
            }
            assert forall|k: int|
                0 <= k < paths.len() && paths[k].len() > 0 implies exists|i: int|
                    0 <= i < out.len() && #[trigger] same_path(out[i], paths[k], sep) by {
                if k < rest.len() {
                    assert(paths[k] == rest[k]);
                    let i = choose|i: int| 0 <= i < prev.len() && #[trigger] same_path(prev[i], rest[k], sep);
                    assert(out[i] == prev[i]);
                } else {
                    assert(out[prev.len() as int] == paths[k]);
                    assert(same_path(out[prev.len() as int], paths[k], sep));
                }
            }
        }
    }
}

/// Where a runner is looked for under the home directory.
pub open spec fn home_runner_paths(kind: RunnerKind) -> Seq<Seq<char>> {
    match kind {
        RunnerKind::Bunx => seq![".bun/bin/bunx"@, ".bun/bin/bunx.exe"@],
        RunnerKind::PnpmDlx => seq!["AppData/Local/pnpm/pnpm.cmd"@, "AppData/Roaming/npm/pnpm.cmd"@],
        RunnerKind::YarnDlx => seq!["AppData/Roaming/npm/yarn.cmd"@],
        RunnerKind::NpmExec => seq!["AppData/Roaming/npm/npm.cmd"@],
        RunnerKind::Npx => seq!["AppData/Roaming/npm/npx.cmd"@],
    }
}

/// The plain program names of a runner, looked up on the `PATH`.
pub open spec fn runner_names(kind: RunnerKind) -> Seq<Seq<char>> {
    match kind {
        RunnerKind::Bunx => seq!["bunx"@, "bunx.exe"@],
        RunnerKind::PnpmDlx => seq!["pnpm"@, "pnpm.cmd"@],
        RunnerKind::YarnDlx => seq!["yarn"@, "yarn.cmd"@],
        RunnerKind::NpmExec => seq!["npm"@, "npm.cmd"@],
        RunnerKind::Npx => seq!["npx"@, "npx.cmd"@],
    }
}

/// The programs tried for a runner, in order: those under the home directory
/// (where it is known), then the plain names; blank and repeated ones left
/// out.
pub open spec fn candidates_of(kind: RunnerKind, home: Option<Seq<char>>, sep: char) -> Seq<Seq<char>> {
    let under_home = match home {
        Some(h) => home_runner_paths(kind).map_values(|p: Seq<char>| joined(h, p, sep)),
        None => Seq::empty(),
    };
    deduped(under_home + runner_names(kind))
}

fn push_str(v: &mut Vec<String>, s: &str)
    ensures
        texts(final(v)@) == texts(old(v)@).push(s@),
{
    v.push(String::from_str(s));
    assert(texts(v@) =~= texts(old(v)@).push(s@));
}

/// Whether a home directory, where there is one, has no two-separator
/// prefix (see `prefix_free`).
pub open spec fn home_modelled(home: Option<Seq<char>>, sep: char) -> bool {
    match home {
        Some(h) => prefix_free(h, sep),
        None => true,
    }
}

pub open spec fn opt_text(o: Option<&str>) -> Option<Seq<char>> {
    match o {
        Some(h) => Some(h@),
        None => None,
    }
}

/// The programs tried for a runner, `sep` being the platform's separator
/// (see `candidates_of`).
pub fn runner_candidates_with(kind: RunnerKind, home: Option<&str>, sep: char) -> (r: Vec<String>)
    ensures
        home_modelled(opt_text(home), sep) ==> texts(r@) == candidates_of(kind, opt_text(home), sep),
{
    let mut candidates: Vec<String> = Vec::new();
    if let Some(h) = home {
        match kind {
            RunnerKind::Bunx => {
                candidates.push(join_path_with(h, ".bun/bin/bunx", sep));
                candidates.push(join_path_with(h, ".bun/bin/bunx.exe", sep));
            },
            RunnerKind::PnpmDlx => {
                candidates.push(join_path_with(h, "AppData/Local/pnpm/pnpm.cmd", sep));
                candidates.push(join_path_with(h, "AppData/Roaming/npm/pnpm.cmd", sep));
            },
            RunnerKind::YarnDlx => {
                candidates.push(join_path_with(h, "AppData/Roaming/npm/yarn.cmd", sep));
            },
            RunnerKind::NpmExec => {
                candidates.push(join_path_with(h, "AppData/Roaming/npm/npm.cmd", sep));
            },
            RunnerKind::Npx => {
                candidates.push(join_path_with(h, "AppData/Roaming/npm/npx.cmd", sep));
            },
        }
    }
    let ghost under_home = texts(candidates@);
    match kind {
        RunnerKind::Bunx => {
            push_str(&mut candidates, "bunx");
            push_str(&mut candidates, "bunx.exe");
        },
        RunnerKind::PnpmDlx => {
            push_str(&mut candidates, "pnpm");
            push_str(&mut candidates, "pnpm.cmd");
        },
        RunnerKind::YarnDlx => {
            push_str(&mut candidates, "yarn");
            push_str(&mut candidates, "yarn.cmd");
        },
        RunnerKind::NpmExec => {
            push_str(&mut candidates, "npm");
            push_str(&mut candidates, "npm.cmd");
        },
        RunnerKind::Npx => {
            push_str(&mut candidates, "npx");
            push_str(&mut candidates, "npx.cmd");
        },
    }
    proof {
        let h = match home {
            Some(h) => Some(h@),
            None => None,
        };
        let expected_home = match h {
            Some(hh) => home_runner_paths(kind).map_values(|p: Seq<char>| joined(hh, p, sep)),
            None => Seq::empty(),
        };
        if home_modelled(h, sep) {
            assert(under_home =~= expected_home);
            assert(texts(candidates@) =~= expected_home + runner_names(kind));
        }
    }
    dedupe(candidates)
}

/// The programs tried for a runner, with the platform's separator (see
/// `runner_candidates_with`).
pub fn runner_candidates(kind: RunnerKind, home: Option<&str>) -> (r: Vec<String>)
    ensures
        exists|sep: char|
            home_modelled(opt_text(home), sep) ==> texts(r@) == candidates_of(kind, opt_text(home), sep),
{
    let sep = main_separator();
    let r = runner_candidates_with(kind, home, sep);
    assert(home_modelled(opt_text(home), sep) ==> texts(r@) == candidates_of(kind, opt_text(home), sep));
    r
}

/// What a runner is given: its own words, the pinned `ccusage` package, then
/// `codex daily --json --order desc`.
pub open spec fn runner_args_of(kind: RunnerKind) -> Seq<Seq<char>> {
    let package = "ccusage@"@ + CCUSAGE_VERSION@;
    let head = match kind {
        RunnerKind::Bunx => seq!["--silent"@, package],
        RunnerKind::PnpmDlx => seq!["-s"@, "dlx"@, package],
        RunnerKind::YarnDlx => seq!["dlx"@, "-q"@, package],
        RunnerKind::NpmExec => seq!["exec"@, "--yes"@, "--package="@ + package, "--"@, "ccusage"@],
        RunnerKind::Npx => seq!["--yes"@, package],
    };
    head + seq!["codex"@, "daily"@, "--json"@, "--order"@, "desc"@]
}

/// The arguments a runner is started with (see `runner_args_of`).
pub fn runner_args(kind: RunnerKind) -> (r: Vec<String>)
    ensures
        texts(r@) == runner_args_of(kind),
{
    let mut package = String::from_str("ccusage@");
    package.append(CCUSAGE_VERSION);
    let mut args: Vec<String> = Vec::new();
    match kind {
        RunnerKind::Bunx => {
            push_str(&mut args, "--silent");
            push_str(&mut args, package.as_str());
        },
        RunnerKind::PnpmDlx => {
            push_str(&mut args, "-s");
            push_str(&mut args, "dlx");
            push_str(&mut args, package.as_str());
        },
        RunnerKind::YarnDlx => {
            push_str(&mut args, "dlx");
            push_str(&mut args, "-q");
            push_str(&mut args, package.as_str());
        },
        RunnerKind::NpmExec => {
            let mut option = String::from_str("--package=");
            option.append(package.as_str());
            push_str(&mut args, "exec");
            push_str(&mut args, "--yes");
            push_str(&mut args, option.as_str());
            push_str(&mut args, "--");
            push_str(&mut args, "ccusage");
        },
        RunnerKind::Npx => {
            push_str(&mut args, "--yes");
            push_str(&mut args, package.as_str());
        },
    }
    let ghost head = texts(args@);
    push_str(&mut args, "codex");
    push_str(&mut args, "daily");
    push_str(&mut args, "--json");
    push_str(&mut args, "--order");
    push_str(&mut args, "desc");
    assert(texts(args@) =~= runner_args_of(kind));
    args
}

/// The directories under the home directory where runners are often
/// installed.
pub open spec fn home_bin_dirs() -> Seq<Seq<char>> {
    seq![".bun/bin"@, ".local/bin"@, "AppData/Local/pnpm"@, "AppData/Roaming/npm"@]
}

/// The system directories where runners are often installed.
pub open spec fn fixed_bin_dirs() -> Seq<Seq<char>> {
    seq!["/opt/homebrew/bin"@, "/usr/local/bin"@]
}

/// `paths` without empty ones and without repeats (paths compared by their
/// components), the first of equal paths kept, in order.
pub open spec fn distinct_paths(paths: Seq<Seq<char>>, sep: char) -> Seq<Seq<char>>
    decreases paths.len(),
{
    if paths.len() == 0 {
        Seq::empty()
    } else {
        let prev = distinct_paths(paths.drop_last(), sep);
        let v = paths.last();
        if v.len() == 0 || exists|k: int| 0 <= k < prev.len() && #[trigger] same_path(prev[k], v, sep) {
            prev
        } else {
            prev.push(v)
        }
    }
}

/// The search path that runners are looked up and started with: the usual
/// install directories under the home directory (where it is known), the
/// system ones, then the entries of the existing `PATH`; empty and repeated
/// entries left out.
pub open spec fn path_entries_of(
    home: Option<Seq<char>>,
    existing: Option<Seq<Seq<char>>>,
    sep: char,
) -> Seq<
    Seq<char>,
> {
    let under_home = match home {
        Some(h) => home_bin_dirs().map_values(|p: Seq<char>| joined(h, p, sep)),
        None => Seq::empty(),
    };
    let rest = match existing {
        Some(e) => e,
        None => Seq::empty(),
    };
    distinct_paths(under_home + fixed_bin_dirs() + rest, sep)
}

fn same_components(a: &Vec<Vec<char>>, b: &Vec<Vec<char>>) -> (r: bool)
    ensures
        r == (a@.map_values(|c: Vec<char>| c@) == b@.map_values(|c: Vec<char>| c@)),
{
    if a.len() != b.len() {
        proof {
            assert(a@.map_values(|c: Vec<char>| c@).len() != b@.map_values(|c: Vec<char>| c@).len());
        }
        return false;
    }
    let mut i: usize = 0;
    while i < a.len()
        invariant
            i <= a@.len(),
            a@.len() == b@.len(),
            forall|k: int| 0 <= k < i ==> (#[trigger] a@[k])@ == b@[k]@,
        decreases a@.len() - i,
    {
        if !chars_eq(&a[i], &b[i]) {
            proof {
                assert(a@.map_values(|c: Vec<char>| c@)[i as int] != b@.map_values(|c: Vec<char>| c@)[i as int]);
            }
            return false;
        }
        i = i + 1;
    }
    assert(a@.map_values(|c: Vec<char>| c@) =~= b@.map_values(|c: Vec<char>| c@));
    true
}

pub open spec fn opt_texts(o: Option<&Vec<String>>) -> Option<Seq<Seq<char>>> {
    match o {
        Some(e) => Some(texts(e@)),
        None => None,
    }
}

/// The search path for runners, `sep` being the platform's separator (see
/// `path_entries_of`); `existing` holds the entries of the current `PATH`,
/// where it is set.
pub fn path_entries_for(home: Option<&str>, existing: Option<&Vec<String>>, sep: char) -> (r: Vec<
    String,
>)
    ensures
        home_modelled(opt_text(home), sep) ==> texts(r@) == path_entries_of(
            opt_text(home),
            opt_texts(existing),
            sep,
        ),
{
    let mut entries: Vec<String> = Vec::new();
    if let Some(h) = home {
        entries.push(join_path_with(h, ".bun/bin", sep));
        entries.push(join_path_with(h, ".local/bin", sep));
        entries.push(join_path_with(h, "AppData/Local/pnpm", sep));
        entries.push(join_path_with(h, "AppData/Roaming/npm", sep));
    }
    let ghost under_home = texts(entries@);
    push_str(&mut entries, "/opt/homebrew/bin");
    push_str(&mut entries, "/usr/local/bin");
    let ghost fixed = texts(entries@);
    if let Some(e) = existing {
        let mut j: usize = 0;
        while j < e.len()
            invariant
                j <= e@.len(),
                texts(entries@) == fixed + texts(e@).take(j as int),
            decreases e@.len() - j,
        {
            let ghost before = entries@;
            entries.push(e[j].clone());
            assert(texts(entries@) =~= texts(before).push(e@[j as int]@));
            assert(texts(e@).take(j + 1) =~= texts(e@).take(j as int).push(e@[j as int]@));
            assert(texts(entries@) =~= fixed + texts(e@).take(j + 1));
            j = j + 1;
        }
        assert(texts(e@).take(e@.len() as int) =~= texts(e@));
    }
    proof {
        let hh = match home {
            Some(h) => Some(h@),
            None => None,
        };
        let expected_home = match hh {
            Some(h) => home_bin_dirs().map_values(|p: Seq<char>| joined(h, p, sep)),
            None => Seq::empty(),
        };
        let rest = match existing {
            Some(e) => texts(e@),
            None => Seq::empty(),
        };
        if home_modelled(hh, sep) {
            assert(under_home =~= expected_home);
            assert(fixed =~= expected_home + fixed_bin_dirs());
            assert(texts(entries@) =~= expected_home + fixed_bin_dirs() + rest);
        }
    }
    let mut out: Vec<String> = Vec::new();
    let mut seen: Vec<Vec<Vec<char>>> = Vec::new();
    let mut i: usize = 0;
    while i < entries.len()
        invariant
            i <= entries@.len(),
            texts(out@) == distinct_paths(texts(entries@.take(i as int)), sep),
            seen@.len() == out@.len(),
            forall|k: int| 0 <= k < seen@.len() ==> (#[trigger] seen@[k])@.map_values(
                |c: Vec<char>| c@,
            ) == path_components(out@[k]@, sep),
        decreases entries@.len() - i,
    {
        let ghost prev = texts(out@);
        assert(texts(entries@.take(i + 1)).drop_last() =~= texts(entries@.take(i as int)));
        assert(texts(entries@.take(i + 1)).last() == entries@[i as int]@);
        let entry = &entries[i];
        let ghost v = entry@;
        if entry.as_str().unicode_len() > 0 {
            let comps = components_of(entry.as_str(), sep);
            let mut found = false;
            let mut k: usize = 0;
            while k < seen.len()
                invariant
                    k <= seen@.len(),
                    seen@.len() == out@.len(),
                    prev == texts(out@),
                    forall|x: int| 0 <= x < seen@.len() ==> (#[trigger] seen@[x])@.map_values(
                        |c: Vec<char>| c@,
                    ) == path_components(out@[x]@, sep),
                    comps@.map_values(|c: Vec<char>| c@) == path_components(v, sep),
                    found == exists|x: int| 0 <= x < k && #[trigger] same_path(prev[x], v, sep),
                decreases seen@.len() - k,
            {
                let same = same_components(&seen[k], &comps);
                proof {
                    assert(prev[k as int] == out@[k as int]@);
                    assert(same == same_path(prev[k as int], v, sep));
                }
                if same {
                    found = true;
                }
                k = k + 1;
            }
            if !found {
                out.push(entry.clone());
                seen.push(comps);
                assert(texts(out@) =~= prev.push(v));
            }
        }
        i = i + 1;
    }
    assert(entries@.take(entries@.len() as int) =~= entries@);
    out
}

/// The search path for runners, with the platform's separator (see
/// `path_entries_for`).
pub fn path_entries_with(home: Option<&str>, existing: Option<&Vec<String>>) -> (r: Vec<String>)
    ensures
        exists|sep: char|
            home_modelled(opt_text(home), sep) ==> texts(r@) == path_entries_of(
                opt_text(home),
                opt_texts(existing),
                sep,
            ),
{
    let sep = main_separator();
    let r = path_entries_for(home, existing, sep);
    assert(home_modelled(opt_text(home), sep) ==> texts(r@) == path_entries_of(
        opt_text(home),
        opt_texts(existing),
        sep,
    ));
    r
}

/// The place of a runner in the order in which runners are tried.
pub open spec fn kind_rank(k: RunnerKind) -> int {
    match k {
        RunnerKind::Bunx => 0,
        RunnerKind::PnpmDlx => 1,
        RunnerKind::YarnDlx => 2,
        RunnerKind::NpmExec => 3,
        RunnerKind::Npx => 4,
    }
}

/// Whether `available`, asked about `program`, answered `answer`.
pub open spec fn probed<F: Fn(&str) -> bool>(available: F, program: Seq<char>, answer: bool) -> bool {
    exists|s: &str| s@ == program && #[trigger] call_ensures(available, (s,), answer)
}

/// `programs[j]` is the first of `programs` that answered as available: it
/// did, and each one before it did not.
pub open spec fn first_available_at<F: Fn(&str) -> bool>(
    available: F,
    programs: Seq<Seq<char>>,
    j: int,
) -> bool {
    &&& 0 <= j < programs.len()
    &&& probed(available, programs[j], true)
    &&& forall|x: int| 0 <= x < j ==> probed(available, #[trigger] programs[x], false)
}

/// None of `programs` answered as available.
pub open spec fn none_available<F: Fn(&str) -> bool>(available: F, programs: Seq<Seq<char>>) -> bool {
    forall|x: int| 0 <= x < programs.len() ==> probed(available, #[trigger] programs[x], false)
}

/// The first of `programs` that answers as available, asking them in order
/// and no further.
fn first_available<F: Fn(&str) -> bool>(programs: &Vec<String>, available: &F) -> (r: Option<usize>)
    requires
        forall|s: &str| call_requires(*available, (s,)),
    ensures
        match r {
            Some(j) => first_available_at(*available, texts(programs@), j as int),
            None => none_available(*available, texts(programs@)),
        },
{
    let mut j: usize = 0;
    while j < programs.len()
        invariant
            j <= programs@.len(),
            forall|s: &str| call_requires(*available, (s,)),
            forall|x: int| 0 <= x < j ==> probed(*available, #[trigger] texts(programs@)[x], false),
        decreases programs@.len() - j,
    {
        let program = programs[j].as_str();
        let answer = available(program);
        assert(texts(programs@)[j as int] == program@);
        if answer {
            assert(probed(*available, texts(programs@)[j as int], true));
            return Some(j);
        }
        assert(probed(*available, texts(programs@)[j as int], false));
        j = j + 1;
    }
    None
}

/// `program` is the first of `programs` that answered as available.
pub open spec fn picked_from<F: Fn(&str) -> bool>(
    available: F,
    programs: Seq<Seq<char>>,
    program: Seq<char>,
) -> bool {
    exists|j: int| first_available_at(available, programs, j) && program == programs[j]
}

/// The runners found: in the order in which runners are tried, each with
/// the first of its programs that answered as available; a runner is left
/// out only where none of its programs did.
pub open spec fn runners_found<F: Fn(&str) -> bool>(
    available: F,
    home: Option<Seq<char>>,
    sep: char,
    found: Seq<(RunnerKind, String)>,
) -> bool {
    &&& forall|a: int, b: int|
        0 <= a < b < found.len() ==> kind_rank(found[a].0) < kind_rank(found[b].0)
    &&& forall|a: int|
        0 <= a < found.len() ==> picked_from(
            available,
            candidates_of(found[a].0, home, sep),
            (#[trigger] found[a]).1@,
        )
    &&& forall|k: RunnerKind|
        (forall|a: int| 0 <= a < found.len() ==> (#[trigger] found[a]).0 != k) ==> none_available(
            available,
            #[trigger] candidates_of(k, home, sep),
        )
}

/// The runners that can start `ccusage`, `sep` being the platform's
/// separator (see `runners_found`); `available` tells whether a program can
/// be started.
pub fn collect_runners_with<F: Fn(&str) -> bool>(home: Option<&str>, sep: char, available: F) -> (r:
    Vec<(RunnerKind, String)>)
    requires
        forall|s: &str| call_requires(available, (s,)),
    ensures
        home_modelled(opt_text(home), sep) ==> runners_found(available, opt_text(home), sep, r@),
{
    let ghost hv = opt_text(home);
    let order = runner_order();
    let mut out: Vec<(RunnerKind, String)> = Vec::new();
    let mut t: usize = 0;
    while t < 5
        invariant
            t <= 5,
            order@ == order_of_runners(),
            hv == opt_text(home),
            forall|s: &str| call_requires(available, (s,)),
            forall|a: int, b: int|
                0 <= a < b < out@.len() ==> kind_rank(out@[a].0) < kind_rank(out@[b].0),
            forall|a: int| 0 <= a < out@.len() ==> kind_rank((#[trigger] out@[a]).0) < t,
            forall|a: int|
                home_modelled(hv, sep) && 0 <= a < out@.len() ==> picked_from(
                    available,
                    candidates_of(out@[a].0, hv, sep),
                    (#[trigger] out@[a]).1@,
                ),
            forall|k: RunnerKind|
                home_modelled(hv, sep) && kind_rank(k) < t && (forall|a: int|
                    0 <= a < out@.len() ==> (#[trigger] out@[a]).0 != k) ==> none_available(
                    available,
                    #[trigger] candidates_of(k, hv, sep),
                ),
        decreases 5 - t,
    {
        let kind = order[t];
        assert(kind_rank(kind) == t);
        let programs = runner_candidates_with(kind, home, sep);
        let ghost before = out@;
        match first_available(&programs, &available) {
            Some(j) => {
                let program = programs[j].clone();
                out.push((kind, program));
                proof {
                    if home_modelled(hv, sep) {
                        assert(picked_from(available, candidates_of(kind, hv, sep), program@));
                    }
                    assert forall|a: int|
                        home_modelled(hv, sep) && 0 <= a < out@.len() implies picked_from(
                        available,
                        candidates_of(out@[a].0, hv, sep),
                        (#[trigger] out@[a]).1@,
                    ) by {
                        if a < before.len() {
                            assert(out@[a] == before[a]);
                        }
                    }
                    assert forall|k: RunnerKind|
                        home_modelled(hv, sep) && kind_rank(k) < t + 1 && (forall|a: int|
                            0 <= a < out@.len() ==> (#[trigger] out@[a]).0 != k) implies none_available(
                        available,
                        #[trigger] candidates_of(k, hv, sep),
                    ) by {
                        assert(out@[before.len() as int] == (kind, program));
                        assert(k != kind);
                        assert forall|a: int| 0 <= a < before.len() implies (#[trigger] before[a]).0
                            != k by {
                            assert(out@[a] == before[a]);
                        }
                    }
                }
            },
            None => {
                proof {
                    assert forall|k: RunnerKind|
                        home_modelled(hv, sep) && kind_rank(k) < t + 1 && (forall|a: int|
                            0 <= a < out@.len() ==> (#[trigger] out@[a]).0 != k) implies none_available(
                        available,
                        #[trigger] candidates_of(k, hv, sep),
                    ) by {
                        if k != kind {
                            assert(kind_rank(k) < t);
                        }
                    }
                }
            },
        }
        t = t + 1;
    }
    proof {
        assert forall|k: RunnerKind|
            home_modelled(hv, sep) && (forall|a: int| 0 <= a < out@.len() ==> (#[trigger] out@[a]).0
                != k) implies none_available(available, #[trigger] candidates_of(k, hv, sep)) by {
            assert(kind_rank(k) < 5);
        }
    }
    out
}

/// The runners that can start `ccusage`, with the platform's separator (see
/// `collect_runners_with`).
pub fn collect_runners<F: Fn(&str) -> bool>(home: Option<&str>, available: F) -> (r: Vec<
    (RunnerKind, String),
>)
    requires
        forall|s: &str| call_requires(available, (s,)),
    ensures
        exists|sep: char|
            home_modelled(opt_text(home), sep) ==> runners_found(available, opt_text(home), sep, r@),
{
    let sep = main_separator();
    let r = collect_runners_with(home, sep, available);
    assert(home_modelled(opt_text(home), sep) ==> runners_found(available, opt_text(home), sep, r@));
    r
}

/// What the local usage query does next.
#[derive(Clone, Debug)]
pub enum LocalQueryStep {
    /// Run `ccusage` with the runner at this index of the runners found.
    Run(usize),
    /// Give up with this status.
    Fail(String),
}

/// What the local usage query does after `failed` of the `runners` found
/// have failed (the runners are tried in order, and the first report read
/// ends the query): with no runner it fails with `no_runner`; while one is
/// left it runs the next; after all have failed it fails with
/// `runner_failed`.
pub open spec fn local_query_step_ok(step: LocalQueryStep, runners: usize, failed: usize) -> bool {
    if runners == 0 {
        step matches LocalQueryStep::Fail(m) && m@ == "no_runner"@
    } else if failed < runners {
        step == LocalQueryStep::Run(failed)
    } else {
        step matches LocalQueryStep::Fail(m) && m@ == "runner_failed"@
    }
}

/// What the local usage query does next (see `local_query_step_ok`).
pub fn next_local_query_step(runners: usize, failed: usize) -> (r: LocalQueryStep)
    ensures
        local_query_step_ok(r, runners, failed),
        failed < runners ==> r == LocalQueryStep::Run(failed),
        r matches LocalQueryStep::Run(i) ==> i == failed && i < runners,
        r is Fail ==> failed >= runners,
{
    if runners == 0 {
        LocalQueryStep::Fail(String::from_str("no_runner"))
    } else if failed < runners {
        LocalQueryStep::Run(failed)
    } else {
        LocalQueryStep::Fail(String::from_str("runner_failed"))
    }
}

/// Each runner found is tried once, in order: while some runner has not
/// failed yet, the next step runs the runner at index `failed`; the query
/// gives up (with `no_runner` or `runner_failed`) only once every runner
/// found has failed.
pub proof fn lemma_runners_tried_in_order(step: LocalQueryStep, runners: usize, failed: usize)
    requires
        local_query_step_ok(step, runners, failed),
    ensures
        failed < runners ==> step == LocalQueryStep::Run(failed),
        step matches LocalQueryStep::Run(i) ==> i == failed && i < runners,
        step is Fail ==> failed >= runners,
        step matches LocalQueryStep::Fail(m) && m@ == "runner_failed"@ ==> runners > 0,
{
    reveal_strlit("no_runner");
    reveal_strlit("runner_failed");
    assert("no_runner"@.len() != "runner_failed"@.len());
}

/// How long `ccusage` may run: 15 seconds, in nanoseconds.
pub const CCUSAGE_TIMEOUT_NANOS: u64 = 15_000_000_000;

/// What to do with a running `ccusage` process.
#[derive(Clone, Copy, Debug, PartialEq, Eq, Structural)]
pub enum RunStep {
    /// Wait a little and look again.
    Wait,
    /// Kill it: it has run too long, and the run fails with `timeout`.
    Kill,
    /// It has exited, successfully or not.
    Finished(bool),
}

/// What to do with a `ccusage` process that has run `elapsed_nanos`, where
/// `exited` tells whether it has exited and then whether successfully: an
/// exited process is finished; one still running is killed once it has run
/// longer than the timeout, else waited for.
pub open spec fn run_step_ok(step: RunStep, elapsed_nanos: u64, exited: Option<bool>) -> bool {
    match exited {
        Some(ok) => step == RunStep::Finished(ok),
        None => if elapsed_nanos > CCUSAGE_TIMEOUT_NANOS {
            step == RunStep::Kill
        } else {
            step == RunStep::Wait
        },
    }
}

/// What to do with a running `ccusage` process (see `run_step_ok`).
pub fn ccusage_run_step(elapsed_nanos: u64, exited: Option<bool>) -> (r: RunStep)
    ensures
        run_step_ok(r, elapsed_nanos, exited),
{
    match exited {
        Some(ok) => RunStep::Finished(ok),
        None => if elapsed_nanos > CCUSAGE_TIMEOUT_NANOS {
            RunStep::Kill
        } else {
            RunStep::Wait
        },
    }
}

/// What a finished `ccusage` run gives: where it failed, its error output
/// trimmed; else its report in the shape `{"daily": [...]}`, or the error
/// `output parse failed` where its output holds none.
pub open spec fn run_output_of(success: bool, stdout: Seq<char>, stderr: Seq<char>) -> Result<
    Seq<char>,
    Seq<char>,
> {
    if !success {
        Err(trimmed(stderr))
    } else {
        match normalized_report(stdout) {
            Some(report) => Ok(report),
            None => Err("output parse failed"@),
        }
    }
}

/// The report of a finished `ccusage` run, or why there is none (see
/// `run_output_of`).
pub fn ccusage_run_output(success: bool, stdout: &str, stderr: &str) -> (r: Result<String, String>)
    ensures
        match run_output_of(success, stdout@, stderr@) {
            Ok(report) => r matches Ok(x) && x@ == report,
            Err(e) => r matches Err(x) && x@ == e,
        },
{
    if !success {
        let all = chars_of(stderr);
        let t = trim_chars(&all);
        return Err(string_from_chars(&t));
    }
    match normalize_ccusage_output(stdout) {
        Some(report) => Ok(report),
        None => Err(String::from_str("output parse failed")),
    }
}

} // verus!
