//! The local token summary: what the `ccusage codex daily` report says about
//! today, yesterday, the last 7 and 30 days, and each model.
use vstd::prelude::*;
use crate::calendar::{
    date_back, date_le, days_back, lemma_back_before, lemma_back_split,
    day_of_key, lemma_day_of_key, lemma_day_of_key_valid, previous_date,
    read_day_key,
    previous_day_key, previous_key, valid_date,
};
use crate::daykey::{date_readable, day_key, day_key_readable, day_key_spec};
use crate::text::{
    chars_eq, chars_le, chars_of, lemma_lex_antisymmetric, lemma_lex_total, lemma_lex_transitive,
    lex_le,
};

verus! {

/// One model's entry in a day of the report.
#[derive(Clone, Debug)]
pub struct ModelEntry {
    /// The model's name, the key of the entry.
    pub name: String,
    /// `totalTokens`, where it holds a non-negative number.
    pub total_tokens: Option<u64>,
    /// Those of `inputTokens`, `cachedInputTokens`, `cacheCreationTokens`,
    /// `cacheReadTokens`, `outputTokens` and `reasoningOutputTokens` that hold
    /// a non-negative number, in that order.
    pub part_tokens: Vec<u64>,
}

/// One day of the report.
#[derive(Clone, Debug)]
pub struct DayRecord {
    /// `date`, where it is a string.
    pub date: Option<String>,
    /// `totalTokens`, where it holds a non-negative number.
    pub total_tokens: Option<u64>,
    /// The entries of `models`, where it is an object.
    pub models: Vec<ModelEntry>,
}

/// The report: its `daily` array, where there is one.
#[derive(Clone, Debug)]
pub struct DailyReport {
    pub daily: Option<Vec<DayRecord>>,
}

/// Tokens of one day.
#[derive(Clone, Debug)]
pub struct DayTotal {
    pub label: String,
    pub tokens: u64,
    /// The index of the day in the report that the tokens were read from.
    pub day: Option<usize>,
}

/// Tokens of a span of days.
#[derive(Clone, Debug)]
pub struct WindowTotal {
    pub label: String,
    pub tokens: u64,
    /// The indices, in the report, of the days that were counted.
    pub days: Vec<usize>,
}

/// Tokens of one model over the whole report.
#[derive(Clone, Debug)]
pub struct CodexModelUsage {
    pub name: String,
    pub tokens: u64,
}

/// The token summary of a report.
#[derive(Clone, Debug)]
pub struct CodexLocalUsageSummary {
    pub today: DayTotal,
    pub yesterday: DayTotal,
    pub last_7_days: WindowTotal,
    pub last_30_days: WindowTotal,
    /// The models, most tokens first, equal counts by name.
    pub models: Vec<CodexModelUsage>,
    /// All model tokens, saturated at `u64::MAX`.
    pub model_tokens: u64,
}

pub open spec fn seq_sum(s: Seq<u64>) -> int
    decreases s.len(),
{
    if s.len() == 0 {
        0
    } else {
        seq_sum(s.drop_last()) + s.last()
    }
}

/// The tokens of a model entry: `totalTokens`, else the sum of its parts.
pub open spec fn model_count(e: ModelEntry) -> int {
    match e.total_tokens {
        Some(t) => t as int,
        None => seq_sum(e.part_tokens@),
    }
}

/// The key of the day a record is dated with.
pub open spec fn record_key(r: DayRecord) -> Option<Seq<char>> {
    match r.date {
        Some(d) => day_key_spec(d@),
        None => None,
    }
}

pub open spec fn record_tokens(r: DayRecord) -> int {
    match r.total_tokens {
        Some(t) => t as int,
        None => 0,
    }
}

/// The index of the last record dated `key`.
pub open spec fn last_with_key(days: Seq<DayRecord>, key: Seq<char>) -> Option<int>
    decreases days.len(),
{
    if days.len() == 0 {
        None
    } else if record_key(days.last()) == Some(key) {
        Some(days.len() - 1)
    } else {
        last_with_key(days.drop_last(), key)
    }
}

/// The tokens and index of the day dated `key`: the last such record wins.
pub open spec fn day_total_ok(t: DayTotal, days: Seq<DayRecord>, key: Option<Seq<char>>) -> bool {
    let found = match key {
        Some(k) => last_with_key(days, k),
        None => None,
    };
    &&& t.day == match found {
        Some(i) => Some(i as usize),
        None => None::<usize>,
    }
    &&& t.tokens == match found {
        Some(i) => record_tokens(days[i]),
        None => 0,
    }
}

/// The first day of the span of `back + 1` days that ends with the day `t`;
/// where the calendar does not reach that far back, its first day.
pub open spec fn window_start(t: (int, int, int), back: nat) -> (int, int, int) {
    match date_back(t.0, t.1, t.2, back) {
        Some(s) => s,
        None => (-9999, 1, 1),
    }
}

/// Whether a record is dated within the `back + 1` days that end with the
/// day `today` names: its key names a day (see `day_of_key`), not before the
/// span's first day and not after `today`. Where `today` names no day, no
/// record is.
pub open spec fn in_window(r: DayRecord, today: Seq<char>, back: nat) -> bool {
    match (record_key(r), day_of_key(today)) {
        (Some(k), Some(t)) => match day_of_key(k) {
            Some(d) => date_le(window_start(t, back), d) && date_le(d, t),
            None => false,
        },
        _ => false,
    }
}

/// The tokens of the records dated within the span.
pub open spec fn window_sum(days: Seq<DayRecord>, today: Seq<char>, back: nat) -> int
    decreases days.len(),
{
    if days.len() == 0 {
        0
    } else {
        window_sum(days.drop_last(), today, back) + if in_window(days.last(), today, back) {
            record_tokens(days.last())
        } else {
            0
        }
    }
}

pub open spec fn saturated(x: int) -> int {
    if x > u64::MAX {
        u64::MAX as int
    } else {
        x
    }
}

/// A span's total: its tokens saturated at `u64::MAX`, and the indices of
/// exactly the records within it, in order.
pub open spec fn window_total_ok(t: WindowTotal, days: Seq<DayRecord>, today: Seq<char>, back: nat) -> bool {
    &&& t.tokens == saturated(window_sum(days, today, back))
    &&& forall|a: int, b: int| 0 <= a < b < t.days@.len() ==> t.days@[a] < t.days@[b]
    &&& forall|a: int| 0 <= a < t.days@.len() ==> (#[trigger] t.days@[a] as int) < days.len()
        && in_window(days[t.days@[a] as int], today, back)
    &&& forall|i: int| 0 <= i < days.len() && in_window(#[trigger] days[i], today, back)
        ==> t.days@.contains(i as usize)
}

/// The key of a record's date, as `day_key` reads it.
pub fn record_key_chars(r: &DayRecord) -> (k: Option<Vec<char>>)
    requires
        r.date matches Some(d) ==> day_key_readable(d@),
    ensures
        match k {
            Some(v) => record_key(*r) == Some(v@),
            None => record_key(*r) is None,
        },
{
    match &r.date {
        Some(d) => match day_key(d.as_str()) {
            Some(s) => Some(chars_of(s.as_str())),
            None => None,
        },
        None => None,
    }
}

/// Whether every date of the report can be read.
pub open spec fn dates_readable(days: Seq<DayRecord>) -> bool {
    forall|i: int| 0 <= i < days.len() ==> (#[trigger] days[i].date matches Some(d) ==> day_key_readable(d@))
}

/// The index of the last record dated `key`.
pub fn last_record_with_key(days: &Vec<DayRecord>, key: &Vec<char>) -> (r: Option<usize>)
    requires
        dates_readable(days@),
    ensures
        r == match last_with_key(days@, key@) {
            Some(i) => Some(i as usize),
            None => None::<usize>,
        },
{
    let mut found: Option<usize> = None;
    let mut i: usize = 0;
    while i < days.len()
        invariant
            i <= days@.len(),
            dates_readable(days@),
            found == match last_with_key(days@.take(i as int), key@) {
                Some(j) => Some(j as usize),
                None => None::<usize>,
            },
        decreases days@.len() - i,
    {
        assert(days@.take(i + 1).drop_last() =~= days@.take(i as int));
        assert(days@.take(i + 1).last() == days@[i as int]);
        let k = record_key_chars(&days[i]);
        if let Some(kc) = k {
            if chars_eq(&kc, key) {
                found = Some(i);
            }
        }
        i = i + 1;
    }
    assert(days@.take(days@.len() as int) =~= days@);
    found
}

/// Day `a` is not after day `b` (see `date_le`).
fn date_le_exec(a: (i32, u8, u8), b: (i32, u8, u8)) -> (r: bool)
    ensures
        r == date_le((a.0 as int, a.1 as int, a.2 as int), (b.0 as int, b.1 as int, b.2 as int)),
{
    a.0 < b.0 || (a.0 == b.0 && (a.1 < b.1 || (a.1 == b.1 && a.2 <= b.2)))
}

/// The tokens of the records dated within the `back + 1` days that end with
/// `today`, and their indices.
pub fn window_total(days: &Vec<DayRecord>, today: &Vec<char>, back: u32, label: String) -> (r: WindowTotal)
    requires
        dates_readable(days@),
    ensures
        window_total_ok(r, days@, today@, back as nat),
        r.label == label,
{
    proof {
        lemma_day_of_key_valid(today@);
    }
    let bounds: Option<((i32, u8, u8), (i32, u8, u8))> = match read_day_key(today) {
        Some((y, m, d)) => {
            let start = match days_back(y, m, d, back) {
                Some(s) => s,
                None => (-9999i32, 1u8, 1u8),
            };
            Some((start, (y, m, d)))
        },
        None => None,
    };
    let mut tokens: u64 = 0;
    let mut idx: Vec<usize> = Vec::new();
    let mut i: usize = 0;
    while i < days.len()
        invariant
            i <= days@.len(),
            dates_readable(days@),
            match bounds {
                Some((s, t)) => day_of_key(today@) == Some((t.0 as int, t.1 as int, t.2 as int))
                    && window_start((t.0 as int, t.1 as int, t.2 as int), back as nat) == (
                    s.0 as int,
                    s.1 as int,
                    s.2 as int,
                ),
                None => day_of_key(today@) is None,
            },
            tokens == saturated(window_sum(days@.take(i as int), today@, back as nat)),
            window_sum(days@.take(i as int), today@, back as nat) >= 0,
            forall|a: int, b: int| 0 <= a < b < idx@.len() ==> idx@[a] < idx@[b],
            forall|a: int| 0 <= a < idx@.len() ==> (#[trigger] idx@[a]) < i && in_window(
                days@[idx@[a] as int],
                today@,
                back as nat,
            ),
            forall|j: int| 0 <= j < i && in_window(#[trigger] days@[j], today@, back as nat)
                ==> idx@.contains(j as usize),
        decreases days@.len() - i,
    {
        assert(days@.take(i + 1).drop_last() =~= days@.take(i as int));
        assert(days@.take(i + 1).last() == days@[i as int]);
        let ghost old_idx = idx@;
        let k = record_key_chars(&days[i]);
        if let Some(kc) = k {
            if let Some((s, t)) = bounds {
                if let Some(d) = read_day_key(&kc) {
                    if date_le_exec(s, d) && date_le_exec(d, t) {
                        let x: u64 = match days[i].total_tokens {
                            Some(x) => x,
                            None => 0,
                        };
                        tokens = tokens.saturating_add(x);
                        idx.push(i);
                        assert(idx@[idx@.len() - 1] == i);
                    }
                }
            }
        }
        proof {
            assert forall|j: int| 0 <= j < i + 1 && in_window(#[trigger] days@[j], today@, back as nat)
                implies idx@.contains(j as usize) by {
                if j == i {
                    assert(idx@[idx@.len() - 1] == i);
                } else {
                    assert(old_idx.contains(j as usize));
                    let a = choose|a: int| 0 <= a < old_idx.len() && old_idx[a] == j as usize;
                    assert(idx@[a] == j as usize);
                }
            }
        }
        i = i + 1;
    }
    assert(days@.take(days@.len() as int) =~= days@);
    WindowTotal { label, tokens, days: idx }
}


/// The tokens of the entries of `es` named `name`.
pub open spec fn entries_total(es: Seq<ModelEntry>, name: Seq<char>) -> int
    decreases es.len(),
{
    if es.len() == 0 {
        0
    } else {
        entries_total(es.drop_last(), name) + if es.last().name@ == name {
            model_count(es.last())
        } else {
            0
        }
    }
}

/// The tokens of all entries of `es`.
pub open spec fn entries_all(es: Seq<ModelEntry>) -> int
    decreases es.len(),
{
    if es.len() == 0 {
        0
    } else {
        entries_all(es.drop_last()) + model_count(es.last())
    }
}

/// The tokens of the model `name` over the dated records of the report.
pub open spec fn model_total(days: Seq<DayRecord>, name: Seq<char>) -> int
    decreases days.len(),
{
    if days.len() == 0 {
        0
    } else {
        model_total(days.drop_last(), name) + if record_key(days.last()) is Some {
            entries_total(days.last().models@, name)
        } else {
            0
        }
    }
}

/// The tokens of all models over the dated records of the report.
pub open spec fn all_model_tokens(days: Seq<DayRecord>) -> int
    decreases days.len(),
{
    if days.len() == 0 {
        0
    } else {
        all_model_tokens(days.drop_last()) + if record_key(days.last()) is Some {
            entries_all(days.last().models@)
        } else {
            0
        }
    }
}

/// An entry's count can be taken: where it has no `totalTokens`, its parts
/// add up within `u64`.
pub open spec fn entry_parts_fit(e: ModelEntry) -> bool {
    e.total_tokens is None ==> seq_sum(e.part_tokens@) <= u64::MAX
}

/// The sums that the summary adds up in `u64` without saturating fit there:
/// the parts of each entry counted by its parts, and each model's total.
pub open spec fn model_sums_fit(days: Seq<DayRecord>) -> bool {
    &&& forall|i: int, j: int|
        0 <= i < days.len() && record_key(days[i]) is Some && 0 <= j < days[i].models@.len()
            ==> #[trigger] entry_parts_fit(days[i].models@[j])
    &&& forall|name: Seq<char>| #[trigger] model_total(days, name) <= u64::MAX
}

/// `a` ranks before `b`: more tokens, or as many and a name that sorts first.
pub open spec fn ranks_before(a: CodexModelUsage, b: CodexModelUsage) -> bool {
    a.tokens > b.tokens || (a.tokens == b.tokens && lex_le(a.name@, b.name@) && a.name@ != b.name@)
}

/// The model list of a report: each model with tokens once, with its total,
/// ranked.
pub open spec fn models_ok(ms: Seq<CodexModelUsage>, days: Seq<DayRecord>) -> bool {
    ranked(ms) && tallies(ms, |n: Seq<char>| model_total(days, n))
}

proof fn lemma_seq_sum_prefix(s: Seq<u64>, i: int)
    requires
        0 <= i <= s.len(),
    ensures
        0 <= seq_sum(s.take(i)) <= seq_sum(s),
    decreases s.len() - i,
{
    if i < s.len() {
        lemma_seq_sum_prefix(s, i + 1);
        assert(s.take(i + 1).drop_last() =~= s.take(i));
    } else {
        assert(s.take(i) =~= s);
    }
    lemma_seq_sum_nonneg(s.take(i));
}

proof fn lemma_seq_sum_nonneg(s: Seq<u64>)
    ensures
        seq_sum(s) >= 0,
    decreases s.len(),
{
    if s.len() > 0 {
        lemma_seq_sum_nonneg(s.drop_last());
    }
}

proof fn lemma_entries_nonneg(es: Seq<ModelEntry>, name: Seq<char>)
    ensures
        entries_total(es, name) >= 0,
        entries_all(es) >= 0,
        entries_total(es, name) <= entries_all(es),
    decreases es.len(),
{
    if es.len() > 0 {
        lemma_entries_nonneg(es.drop_last(), name);
        lemma_seq_sum_nonneg(es.last().part_tokens@);
    }
}

proof fn lemma_entries_prefix(es: Seq<ModelEntry>, j: int, name: Seq<char>)
    requires
        0 <= j <= es.len(),
    ensures
        entries_total(es.take(j), name) <= entries_total(es, name),
    decreases es.len() - j,
{
    if j < es.len() {
        lemma_entries_prefix(es, j + 1, name);
        assert(es.take(j + 1).drop_last() =~= es.take(j));
        lemma_seq_sum_nonneg(es[j].part_tokens@);
    } else {
        assert(es.take(j) =~= es);
    }
}

proof fn lemma_model_total_nonneg(days: Seq<DayRecord>, name: Seq<char>)
    ensures
        model_total(days, name) >= 0,
        all_model_tokens(days) >= 0,
    decreases days.len(),
{
    if days.len() > 0 {
        lemma_model_total_nonneg(days.drop_last(), name);
        lemma_entries_nonneg(days.last().models@, name);
    }
}

proof fn lemma_model_total_prefix(days: Seq<DayRecord>, i: int, name: Seq<char>)
    requires
        0 <= i <= days.len(),
    ensures
        model_total(days.take(i), name) <= model_total(days, name),
    decreases days.len() - i,
{
    if i < days.len() {
        lemma_model_total_prefix(days, i + 1, name);
        assert(days.take(i + 1).drop_last() =~= days.take(i));
        lemma_entries_nonneg(days[i].models@, name);
    } else {
        assert(days.take(i) =~= days);
    }
}

/// The tokens of one model entry.
pub fn entry_count(e: &ModelEntry) -> (r: u64)
    requires
        entry_parts_fit(*e),
    ensures
        r == model_count(*e),
{
    match e.total_tokens {
        Some(t) => t,
        None => {
            let mut sum: u64 = 0;
            let mut k: usize = 0;
            while k < e.part_tokens.len()
                invariant
                    k <= e.part_tokens@.len(),
                    seq_sum(e.part_tokens@) <= u64::MAX,
                    sum == seq_sum(e.part_tokens@.take(k as int)),
                decreases e.part_tokens@.len() - k,
            {
                assert(e.part_tokens@.take(k + 1).drop_last() =~= e.part_tokens@.take(k as int));
                proof {
                    lemma_seq_sum_prefix(e.part_tokens@, k + 1);
                }
                sum = sum + e.part_tokens[k];
                k = k + 1;
            }
            assert(e.part_tokens@.take(k as int) =~= e.part_tokens@);
            sum
        },
    }
}

/// `acc` holds each name that `f` gives tokens to, once, with those tokens.
/// The model tally is kept in a `Vec` under this invariant, in place of a map
/// keyed by model name.
pub open spec fn tallies(acc: Seq<CodexModelUsage>, f: spec_fn(Seq<char>) -> int) -> bool {
    &&& forall|a: int, b: int| 0 <= a < b < acc.len() ==> acc[a].name@ != acc[b].name@
    &&& forall|a: int|
        0 <= a < acc.len() ==> (#[trigger] acc[a]).tokens == f(acc[a].name@) && acc[a].tokens > 0
    &&& forall|name: Seq<char>| #[trigger] f(name) > 0 ==> exists|a: int|
        0 <= a < acc.len() && acc[a].name@ == name
}

/// The count of each model entry of a record can be taken.
pub open spec fn day_parts_fit(r: DayRecord) -> bool {
    forall|j: int| 0 <= j < r.models@.len() ==> #[trigger] entry_parts_fit(r.models@[j])
}

/// Adds the entries of day `i` (dated) to the tallies of the days before it;
/// `false` where a model's tally would no longer fit in `u64`.
fn add_day_models(acc: &mut Vec<CodexModelUsage>, total: &mut u64, days: &Vec<DayRecord>, i: usize) -> (fits: bool)
    requires
        i < days@.len(),
        record_key(days@[i as int]) is Some,
        day_parts_fit(days@[i as int]),
        tallies(old(acc)@, |n: Seq<char>| model_total(days@.take(i as int), n)),
        *old(total) == saturated(all_model_tokens(days@.take(i as int))),
    ensures
        fits ==> tallies(final(acc)@, |n: Seq<char>| model_total(days@.take(i + 1), n)),
        fits ==> *final(total) == saturated(all_model_tokens(days@.take(i + 1))),
        !fits ==> exists|n: Seq<char>| #[trigger] model_total(days@.take(i + 1), n) > u64::MAX,
{
    let es = &days[i].models;
    let ghost pre = days@.take(i as int);
    assert(days@.take(i + 1).drop_last() =~= pre);
    assert(days@.take(i + 1).last() == days@[i as int]);
    proof {
        lemma_model_total_nonneg(pre, Seq::<char>::empty());
        assert(es@.take(0) =~= Seq::<ModelEntry>::empty());
        assert((|n: Seq<char>| model_total(pre, n) + entries_total(es@.take(0), n)) =~= (|
            n: Seq<char>,
        | model_total(days@.take(i as int), n)));
    }
    let mut j: usize = 0;
    while j < es.len()
        invariant
            j <= es@.len(),
            es == &days@[i as int].models,
            i < days@.len(),
            pre == days@.take(i as int),
            days@.take(i + 1).drop_last() == pre,
            days@.take(i + 1).last() == days@[i as int],
            record_key(days@[i as int]) is Some,
            day_parts_fit(days@[i as int]),
            tallies(acc@, |n: Seq<char>| model_total(pre, n) + entries_total(es@.take(j as int), n)),
            *total == saturated(all_model_tokens(pre) + entries_all(es@.take(j as int))),
            all_model_tokens(pre) >= 0,
        decreases es@.len() - j,
    {
        let ghost f = |n: Seq<char>| model_total(pre, n) + entries_total(es@.take(j as int), n);
        let ghost g = |n: Seq<char>| model_total(pre, n) + entries_total(es@.take(j + 1), n);
        assert(es@.take(j + 1).drop_last() =~= es@.take(j as int));
        assert(es@.take(j + 1).last() == es@[j as int]);
        let e = &es[j];
        assert(entry_parts_fit(days@[i as int].models@[j as int]));
        let c = entry_count(e);
        proof {
            lemma_entries_nonneg(es@.take(j as int), e.name@);
            assert forall|n: Seq<char>| n != e.name@ implies #[trigger] g(n) == f(n) by {}
            assert(g(e.name@) == f(e.name@) + c);
        }
        *total = total.saturating_add(c);
        let ghost acc_old = acc@;
        let ghost mut hit: int = -1;
        if c > 0 {
            let mut a: usize = 0;
            let mut found: Option<usize> = None;
            while a < acc.len()
                invariant
                    a <= acc@.len(),
                    found matches Some(x) ==> x < acc@.len() && acc@[x as int].name@ == e.name@,
                    found is None ==> forall|b: int| 0 <= b < a ==> acc@[b].name@ != e.name@,
                decreases acc@.len() - a,
            {
                if found.is_none() && acc[a].name == e.name {
                    found = Some(a);
                }
                a = a + 1;
            }
            match found {
                Some(x) => {
                    let old_tokens = acc[x].tokens;
                    let sum = match old_tokens.checked_add(c) {
                        Some(sum) => sum,
                        None => {
                            proof {
                                // The tally so far is part of the model's total.
                                lemma_entries_prefix(es@, j + 1, e.name@);
                                assert(model_total(days@.take(i + 1), e.name@) == model_total(
                                    pre,
                                    e.name@,
                                ) + entries_total(es@, e.name@));
                                assert(model_total(days@.take(i + 1), e.name@) > u64::MAX);
                            }
                            return false;
                        },
                    };
                    let name = acc[x].name.clone();
                    acc.set(x, CodexModelUsage { name, tokens: sum });
                    proof {
                        hit = x as int;
                        assert forall|b: int| 0 <= b < acc@.len() implies (#[trigger] acc@[b]).name@
                            == acc_old[b].name@ by {}
                        assert forall|b: int| 0 <= b < acc@.len() && b != x implies (
                        #[trigger] acc@[b]).tokens == acc_old[b].tokens by {}
                        assert forall|b: int| 0 <= b < acc@.len() implies (#[trigger] acc@[b]).tokens
                            == g(acc@[b].name@) && acc@[b].tokens > 0 by {
                            if b != x {
                                assert(acc_old[b].name@ != acc_old[x as int].name@);
                            }
                        }
                    }
                },
                None => {
                    proof {
                        if f(e.name@) > 0 {
                            let w = choose|b: int| 0 <= b < acc@.len() && acc@[b].name@ == e.name@;
                            assert(acc@[w].name@ != e.name@);
                        }
                    }
                    let name = e.name.clone();
                    acc.push(CodexModelUsage { name, tokens: c });
                    proof {
                        hit = acc_old.len() as int;
                        assert forall|b: int| 0 <= b < acc_old.len() implies acc_old[b].name@
                            != e.name@ by {}
                        assert forall|a2: int, b: int| 0 <= a2 < b < acc@.len() implies acc@[a2].name@
                            != acc@[b].name@ by {}
                        assert forall|b: int| 0 <= b < acc@.len() implies (#[trigger] acc@[b]).tokens
                            == g(acc@[b].name@) && acc@[b].tokens > 0 by {
                            if b < acc_old.len() {
                                assert(acc@[b] == acc_old[b]);
                                assert(acc_old[b].name@ != e.name@);
                                assert(acc_old[b].tokens == f(acc_old[b].name@));
                                assert(g(acc_old[b].name@) == f(acc_old[b].name@));
                            } else {
                                lemma_model_total_nonneg(pre, e.name@);
                                lemma_entries_nonneg(es@.take(j as int), e.name@);
                                assert(acc@[b].name@ == e.name@);
                            }
                        }
                    }
                },
            }
        }
        proof {
            let acc_now = acc@;
            if c == 0 {
                assert forall|b: int| 0 <= b < acc_now.len() implies (#[trigger] acc_now[b]).tokens
                    == g(acc_now[b].name@) && acc_now[b].tokens > 0 by {
                    assert(g(acc_now[b].name@) == f(acc_now[b].name@));
                }
            }
            assert forall|name: Seq<char>| #[trigger] g(name) > 0 implies exists|b: int|
                0 <= b < acc_now.len() && acc_now[b].name@ == name by {
                if name != e.name@ || c == 0 {
                    assert(f(name) > 0);
                    let w = choose|b: int| 0 <= b < acc_old.len() && acc_old[b].name@ == name;
                    assert(acc_now[w].name@ == name);
                } else {
                    assert(0 <= hit < acc_now.len() && acc_now[hit].name@ == name);
                }
            }
            assert(tallies(acc_now, g));
        }
        j = j + 1;
    }
    proof {
        assert(es@.take(es@.len() as int) =~= es@);
        assert((|n: Seq<char>| model_total(pre, n) + entries_total(es@.take(es@.len() as int), n))
            =~= (|n: Seq<char>| model_total(days@.take(i + 1), n)));
    }
    true
}


proof fn lemma_ranks_total(a: CodexModelUsage, b: CodexModelUsage)
    requires
        a.name@ != b.name@,
    ensures
        ranks_before(a, b) || ranks_before(b, a),
{
    lemma_lex_total(a.name@, b.name@, 0);
}

proof fn lemma_ranks_transitive(a: CodexModelUsage, b: CodexModelUsage, c: CodexModelUsage)
    requires
        ranks_before(a, b),
        ranks_before(b, c),
    ensures
        ranks_before(a, c),
{
    if a.tokens == b.tokens && b.tokens == c.tokens {
        lemma_lex_transitive(a.name@, b.name@, c.name@, 0);
        if a.name@ == c.name@ {
            assert(a.name@.take(0) =~= b.name@.take(0));
            lemma_lex_antisymmetric(a.name@, b.name@, 0);
        }
    }
}

fn ranks_before_exec(a: &CodexModelUsage, b: &CodexModelUsage) -> (r: bool)
    ensures
        r == ranks_before(*a, *b),
{
    if a.tokens > b.tokens {
        return true;
    }
    if a.tokens < b.tokens {
        return false;
    }
    let x = chars_of(a.name.as_str());
    let y = chars_of(b.name.as_str());
    chars_le(&x, &y) && !chars_eq(&x, &y)
}

fn copy_total(m: &CodexModelUsage) -> (r: CodexModelUsage)
    ensures
        r == *m,
{
    CodexModelUsage { name: m.name.clone(), tokens: m.tokens }
}

#[verifier::opaque]
pub open spec fn ranked(s: Seq<CodexModelUsage>) -> bool {
    forall|a: int, b: int| 0 <= a < b < s.len() ==> ranks_before(s[a], s[b])
}

/// Every element of `out` is one of the first `i` of `acc`, and each of those
/// is in `out`.
#[verifier::opaque]
pub open spec fn same_items(out: Seq<CodexModelUsage>, acc: Seq<CodexModelUsage>, i: int) -> bool {
    &&& forall|a: int| #![trigger out[a]] 0 <= a < out.len() ==> exists|b: int| 0 <= b < i && out[a] == acc[b]
    &&& forall|b: int| #![trigger acc[b]] 0 <= b < i ==> exists|a: int| 0 <= a < out.len() && out[a] == acc[b]
}

proof fn lemma_place_ranked(old_out: Seq<CodexModelUsage>, acc: Seq<CodexModelUsage>, i: int, p: int)
    requires
        0 <= i < acc.len(),
        0 <= p <= old_out.len(),
        forall|a: int, b: int| 0 <= a < b < acc.len() ==> acc[a].name@ != acc[b].name@,
        ranked(old_out),
        same_items(old_out, acc, i),
        forall|a: int| 0 <= a < p ==> !ranks_before(acc[i], old_out[a]),
        p < old_out.len() ==> ranks_before(acc[i], old_out[p]),
    ensures
        ranked(old_out.insert(p, acc[i])),
{
    reveal(ranked);
    reveal(same_items);
    let x = acc[i];
    let out = old_out.insert(p, x);
    assert forall|a: int| 0 <= a < p implies ranks_before(old_out[a], x) by {
        let b = choose|b: int| 0 <= b < i && old_out[a] == acc[b];
        lemma_ranks_total(old_out[a], x);
    }
    assert forall|a: int| p < a < old_out.len() implies ranks_before(x, old_out[a]) by {
        lemma_ranks_transitive(x, old_out[p], old_out[a]);
    }
    assert forall|a: int, b: int| 0 <= a < b < out.len() implies ranks_before(out[a], out[b]) by {
        if a < p && b > p {
            lemma_ranks_transitive(old_out[a], x, old_out[b - 1]);
        }
    }
}

proof fn lemma_place_items(old_out: Seq<CodexModelUsage>, acc: Seq<CodexModelUsage>, i: int, p: int)
    requires
        0 <= i < acc.len(),
        0 <= p <= old_out.len(),
        same_items(old_out, acc, i),
    ensures
        same_items(old_out.insert(p, acc[i]), acc, i + 1),
{
    reveal(same_items);
    let x = acc[i];
    let out = old_out.insert(p, x);
    assert forall|a: int| #![trigger out[a]] 0 <= a < out.len() implies exists|b: int|
        0 <= b < i + 1 && out[a] == acc[b] by {
        if a < p {
            let b = choose|b: int| 0 <= b < i && old_out[a] == acc[b];
            assert(out[a] == acc[b]);
        } else if a == p {
            assert(out[a] == acc[i]);
        } else {
            let b = choose|b: int| 0 <= b < i && old_out[a - 1] == acc[b];
            assert(out[a] == acc[b]);
        }
    }
    assert forall|b: int| #![trigger acc[b]] 0 <= b < i + 1 implies exists|a: int|
        0 <= a < out.len() && out[a] == acc[b] by {
        if b == i {
            assert(out[p] == acc[b]);
        } else {
            let a = choose|a: int| 0 <= a < old_out.len() && old_out[a] == acc[b];
            if a < p {
                assert(out[a] == acc[b]);
            } else {
                assert(out[a + 1] == acc[b]);
            }
        }
    }
}

proof fn lemma_ranked_tallies(out: Seq<CodexModelUsage>, acc: Seq<CodexModelUsage>, f: spec_fn(Seq<char>) -> int)
    requires
        tallies(acc, f),
        ranked(out),
        same_items(out, acc, acc.len() as int),
    ensures
        tallies(out, f),
{
    reveal(ranked);
    reveal(same_items);
    assert forall|a: int, b: int| 0 <= a < b < out.len() implies out[a].name@ != out[b].name@ by {
        let x = choose|x: int| 0 <= x < acc.len() && out[a] == acc[x];
        let y = choose|y: int| 0 <= y < acc.len() && out[b] == acc[y];
        if x == y {
            assert(ranks_before(out[a], out[b]));
        }
    }
    assert forall|a: int| 0 <= a < out.len() implies (#[trigger] out[a]).tokens == f(out[a].name@)
        && out[a].tokens > 0 by {
        let x = choose|x: int| 0 <= x < acc.len() && out[a] == acc[x];
        assert(acc[x].tokens == f(acc[x].name@));
    }
    assert forall|name: Seq<char>| #[trigger] f(name) > 0 implies exists|a: int|
        0 <= a < out.len() && out[a].name@ == name by {
        let x = choose|x: int| 0 <= x < acc.len() && acc[x].name@ == name;
        let a = choose|a: int| 0 <= a < out.len() && out[a] == acc[x];
        assert(out[a].name@ == name);
    }
}

/// The tallies, most tokens first and equal counts by name.
fn rank_models(acc: &Vec<CodexModelUsage>, Ghost(f): Ghost<spec_fn(Seq<char>) -> int>) -> (r: Vec<
    CodexModelUsage,
>)
    requires
        tallies(acc@, f),
    ensures
        tallies(r@, f),
        ranked(r@),
{
    let mut out: Vec<CodexModelUsage> = Vec::new();
    let mut i: usize = 0;
    proof {
        reveal(ranked);
        reveal(same_items);
    }
    while i < acc.len()
        invariant
            i <= acc@.len(),
            tallies(acc@, f),
            ranked(out@),
            same_items(out@, acc@, i as int),
        decreases acc@.len() - i,
    {
        let x = copy_total(&acc[i]);
        let mut p: usize = 0;
        while p < out.len() && !ranks_before_exec(&x, &out[p])
            invariant
                p <= out@.len(),
                forall|a: int| 0 <= a < p ==> !ranks_before(x, out@[a]),
            decreases out@.len() - p,
        {
            p = p + 1;
        }
        proof {
            lemma_place_ranked(out@, acc@, i as int, p as int);
            lemma_place_items(out@, acc@, i as int, p as int);
        }
        out.insert(p, x);
        i = i + 1;
    }
    proof {
        lemma_ranked_tallies(out@, acc@, f);
    }
    out
}


/// What a summary of the report needs: every date can be cut where it is
/// cut (on a character boundary), and the sums that are added without
/// saturating fit in `u64`.
pub open spec fn local_usage_computable(data: DailyReport) -> bool {
    data.daily matches Some(days) ==> dates_readable(days@) && model_sums_fit(days@)
}

/// Whether the parts of a model entry add up within `u64`.
fn parts_fit(e: &ModelEntry) -> (r: bool)
    ensures
        r == (seq_sum(e.part_tokens@) <= u64::MAX),
{
    let mut sum: u64 = 0;
    let mut k: usize = 0;
    while k < e.part_tokens.len()
        invariant
            k <= e.part_tokens@.len(),
            sum == seq_sum(e.part_tokens@.take(k as int)),
        decreases e.part_tokens@.len() - k,
    {
        assert(e.part_tokens@.take(k + 1).drop_last() =~= e.part_tokens@.take(k as int));
        match sum.checked_add(e.part_tokens[k]) {
            Some(x) => sum = x,
            None => {
                proof {
                    lemma_seq_sum_prefix(e.part_tokens@, k + 1);
                }
                return false;
            },
        }
        k = k + 1;
    }
    assert(e.part_tokens@.take(k as int) =~= e.part_tokens@);
    true
}

/// Whether a report can be summarized without reading a date at a place
/// that is no character boundary or adding past `u64::MAX` (see
/// `local_usage_computable`).
pub fn can_collect_local_usage(data: &DailyReport) -> (r: bool)
    ensures
        r == local_usage_computable(*data),
{
    let days = match &data.daily {
        Some(d) => d,
        None => return true,
    };
    assert(data.daily == Some(*days));
    let mut i: usize = 0;
    while i < days.len()
        invariant
            i <= days@.len(),
            data.daily == Some(*days),
            forall|k: int|
                0 <= k < i ==> (#[trigger] days@[k].date matches Some(d) ==> day_key_readable(d@)),
        decreases days@.len() - i,
    {
        if let Some(d) = &days[i].date {
            if !date_readable(d.as_str()) {
                return false;
            }
        }
        i = i + 1;
    }
    assert(dates_readable(days@));
    i = 0;
    while i < days.len()
        invariant
            i <= days@.len(),
            data.daily == Some(*days),
            dates_readable(days@),
            forall|k: int| 0 <= k < i && record_key(#[trigger] days@[k]) is Some ==> day_parts_fit(
                days@[k],
            ),
        decreases days@.len() - i,
    {
        if record_key_chars(&days[i]).is_some() {
            let es = &days[i].models;
            let mut j: usize = 0;
            while j < es.len()
                invariant
                    j <= es@.len(),
                    i < days@.len(),
                    data.daily == Some(*days),
                    record_key(days@[i as int]) is Some,
                    es == &days@[i as int].models,
                    forall|x: int| 0 <= x < j ==> #[trigger] entry_parts_fit(es@[x]),
                decreases es@.len() - j,
            {
                if es[j].total_tokens.is_none() && !parts_fit(&es[j]) {
                    proof {
                        let x = i as int;
                        let y = j as int;
                        assert(0 <= x < days@.len() && record_key(days@[x]) is Some && 0 <= y
                            < days@[x].models@.len());
                        assert(!entry_parts_fit(days@[x].models@[y]));
                        assert(!model_sums_fit(days@));
                    }
                    return false;
                }
                j = j + 1;
            }
        }
        i = i + 1;
    }
    let mut acc: Vec<CodexModelUsage> = Vec::new();
    let mut total: u64 = 0;
    i = 0;
    proof {
        assert(days@.take(0) =~= Seq::<DayRecord>::empty());
        assert forall|n: Seq<char>| #[trigger] model_total(days@.take(0), n) == 0 by {}
    }
    while i < days.len()
        invariant
            i <= days@.len(),
            data.daily == Some(*days),
            dates_readable(days@),
            forall|k: int| 0 <= k < days@.len() && record_key(#[trigger] days@[k]) is Some
                ==> day_parts_fit(days@[k]),
            tallies(acc@, |n: Seq<char>| model_total(days@.take(i as int), n)),
            total == saturated(all_model_tokens(days@.take(i as int))),
        decreases days@.len() - i,
    {
        assert(days@.take(i + 1).drop_last() =~= days@.take(i as int));
        assert(days@.take(i + 1).last() == days@[i as int]);
        if record_key_chars(&days[i]).is_some() {
            let fits = add_day_models(&mut acc, &mut total, days, i);
            if !fits {
                proof {
                    let n = choose|n: Seq<char>| #[trigger]
                        model_total(days@.take(i + 1), n) > u64::MAX;
                    lemma_model_total_prefix(days@, i + 1, n);
                }
                return false;
            }
        } else {
            assert((|n: Seq<char>| model_total(days@.take(i + 1), n)) =~= (|n: Seq<char>|
                model_total(days@.take(i as int), n)));
        }
        i = i + 1;
    }
    proof {
        assert(days@.take(days@.len() as int) =~= days@);
        let f = |n: Seq<char>| model_total(days@, n);
        assert((|n: Seq<char>| model_total(days@.take(days@.len() as int), n)) =~= f);
        assert(tallies(acc@, f));
        assert forall|name: Seq<char>| #[trigger] model_total(days@, name) <= u64::MAX by {
            if f(name) > 0 {
                let a = choose|a: int| 0 <= a < acc@.len() && acc@[a].name@ == name;
                assert(acc@[a].tokens == f(acc@[a].name@));
            }
        }
        assert forall|x: int, y: int|
            0 <= x < days@.len() && record_key(days@[x]) is Some && 0 <= y
                < days@[x].models@.len() implies #[trigger] entry_parts_fit(
            days@[x].models@[y],
        ) by {
            assert(day_parts_fit(days@[x]));
        }
    }
    true
}

/// The summary of the report `days` on the day `today`.
pub open spec fn summary_ok(t: CodexLocalUsageSummary, days: Seq<DayRecord>, today: Seq<char>) -> bool {
    &&& t.today.label@ == "今日"@
    &&& day_total_ok(t.today, days, Some(today))
    &&& t.yesterday.label@ == "昨日"@
    &&& day_total_ok(t.yesterday, days, previous_key(today))
    &&& t.last_7_days.label@ == "近 7 天"@
    &&& window_total_ok(t.last_7_days, days, today, 6)
    &&& t.last_30_days.label@ == "近 30 天"@
    &&& window_total_ok(t.last_30_days, days, today, 29)
    &&& models_ok(t.models@, days)
    &&& t.model_tokens == saturated(all_model_tokens(days))
}

fn tokens_of_day(days: &Vec<DayRecord>, at: Option<usize>) -> (r: u64)
    requires
        at matches Some(i) ==> i < days@.len(),
    ensures
        r == match at {
            Some(i) => record_tokens(days@[i as int]),
            None => 0,
        },
{
    match at {
        Some(i) => match days[i].total_tokens {
            Some(t) => t,
            None => 0,
        },
        None => 0,
    }
}

proof fn lemma_last_with_key_bound(days: Seq<DayRecord>, key: Seq<char>)
    ensures
        last_with_key(days, key) matches Some(i) ==> 0 <= i < days.len(),
    decreases days.len(),
{
    if days.len() > 0 {
        lemma_last_with_key_bound(days.drop_last(), key);
    }
}

/// The models of the whole report, with their tokens, and all model tokens.
fn model_totals(days: &Vec<DayRecord>) -> (r: (Vec<CodexModelUsage>, u64))
    requires
        dates_readable(days@),
        model_sums_fit(days@),
    ensures
        tallies(r.0@, |n: Seq<char>| model_total(days@, n)),
        r.1 == saturated(all_model_tokens(days@)),
{
    let mut acc: Vec<CodexModelUsage> = Vec::new();
    let mut total: u64 = 0;
    let mut i: usize = 0;
    proof {
        assert(days@.take(0) =~= Seq::<DayRecord>::empty());
        assert forall|n: Seq<char>| #[trigger] model_total(days@.take(0), n) == 0 by {}
    }
    while i < days.len()
        invariant
            i <= days@.len(),
            dates_readable(days@),
            model_sums_fit(days@),
            tallies(acc@, |n: Seq<char>| model_total(days@.take(i as int), n)),
            total == saturated(all_model_tokens(days@.take(i as int))),
        decreases days@.len() - i,
    {
        assert(days@.take(i + 1).drop_last() =~= days@.take(i as int));
        assert(days@.take(i + 1).last() == days@[i as int]);
        if record_key_chars(&days[i]).is_some() {
            assert forall|j: int| 0 <= j < days@[i as int].models@.len() implies #[trigger] entry_parts_fit(
                days@[i as int].models@[j],
            ) by {}
            let fits = add_day_models(&mut acc, &mut total, days, i);
            proof {
                if !fits {
                    let n = choose|n: Seq<char>| #[trigger]
                        model_total(days@.take(i + 1), n) > u64::MAX;
                    lemma_model_total_prefix(days@, i + 1, n);
                }
            }
        } else {
            assert((|n: Seq<char>| model_total(days@.take(i + 1), n)) =~= (|n: Seq<char>|
                model_total(days@.take(i as int), n)));
        }
        i = i + 1;
    }
    proof {
        assert(days@.take(days@.len() as int) =~= days@);
    }
    (acc, total)
}

/// The token summary of a ccusage daily report on the day `today`: the tokens
/// of today and of yesterday (the last record of each day counts), of the
/// last 7 and the last 30 days up to today, and of each model over the
/// dated records, ranked; an error where the report has no `daily` array.
pub fn collect_local_usage_summary(data: &DailyReport, today: &str) -> (r: Result<
    CodexLocalUsageSummary,
    String,
>)
    requires
        local_usage_computable(*data),
    ensures
        data.daily is None ==> (r matches Err(e) && e@ == "missing daily usage"@),
        data.daily matches Some(days) ==> (r matches Ok(t) && summary_ok(t, days@, today@)),
{
    let days = match &data.daily {
        Some(d) => d,
        None => {
            let e = String::from_str("missing daily usage");
            assert(data.daily is None);
            return Err(e);
        },
    };
    assert(data.daily == Some(*days));
    let today_c = chars_of(today);
    let n_days = days.len();
    assert(days@.len() == n_days);
    let t_idx = last_record_with_key(days, &today_c);
    proof {
        lemma_last_with_key_bound(days@, today@);
    }
    let today_total = DayTotal {
        label: String::from_str("今日"),
        tokens: tokens_of_day(days, t_idx),
        day: t_idx,
    };
    let y_idx = match previous_day_key(today) {
        Some(y) => {
            let yc = chars_of(y.as_str());
            proof {
                lemma_last_with_key_bound(days@, yc@);
            }
            last_record_with_key(days, &yc)
        },
        None => None,
    };
    let yesterday_total = DayTotal {
        label: String::from_str("昨日"),
        tokens: tokens_of_day(days, y_idx),
        day: y_idx,
    };
    let last_7_days = window_total(days, &today_c, 6, String::from_str("近 7 天"));
    let last_30_days = window_total(days, &today_c, 29, String::from_str("近 30 天"));
    let (acc, model_tokens) = model_totals(days);
    let models = rank_models(&acc, Ghost(|n: Seq<char>| model_total(days@, n)));
    let t = CodexLocalUsageSummary {
        today: today_total,
        yesterday: yesterday_total,
        last_7_days,
        last_30_days,
        models,
        model_tokens,
    };
    assert(summary_ok(t, days@, today@));
    Ok(t)
}

/// The last 7 days lie within the last 30, and today and yesterday lie
/// within the last 7.
proof fn lemma_windows_nest(today: Seq<char>)
    requires
        day_of_key(today) is Some,
    ensures
        forall|r: DayRecord| #[trigger] in_window(r, today, 6) ==> in_window(r, today, 29),
        forall|r: DayRecord| record_key(r) == Some(today) ==> #[trigger] in_window(r, today, 6),
        forall|r: DayRecord|
            previous_key(today) is Some && record_key(r) == previous_key(today) ==> #[trigger] in_window(
                r,
                today,
                6,
            ),
{
    let t = day_of_key(today)->0;
    let (y, m, d) = t;
    lemma_day_of_key_valid(today);
    assert(valid_date(y, m, d));
    lemma_back_split(y, m, d, 6, 23);
    lemma_back_split(y, m, d, 1, 5);
    lemma_back_before(y, m, d, 6);
    let s6 = window_start(t, 6);
    let s29 = window_start(t, 29);
    if let Some(w6) = date_back(y, m, d, 6) {
        lemma_back_before(w6.0, w6.1, w6.2, 23);
    }
    assert(date_le(s29, s6));
    assert(date_le(s6, t));
    if let Some(p) = previous_date(y, m, d) {
        crate::calendar::lemma_previous_before(y, m, d);
        assert(date_back(y, m, d, 1) == date_back(p.0, p.1, p.2, 0));
        assert(date_back(y, m, d, 6) == date_back(p.0, p.1, p.2, 5));
        lemma_back_before(p.0, p.1, p.2, 5);
        assert(date_le(s6, p));
        lemma_day_of_key(p.0, p.1, p.2);
    }
}

proof fn lemma_window_sum_nonneg(days: Seq<DayRecord>, today: Seq<char>, back: nat)
    ensures
        window_sum(days, today, back) >= 0,
    decreases days.len(),
{
    if days.len() > 0 {
        lemma_window_sum_nonneg(days.drop_last(), today, back);
    }
}

proof fn lemma_window_sum_nested(days: Seq<DayRecord>, today: Seq<char>, inner: nat, outer: nat)
    requires
        forall|r: DayRecord| #[trigger] in_window(r, today, inner) ==> in_window(r, today, outer),
    ensures
        window_sum(days, today, inner) <= window_sum(days, today, outer),
    decreases days.len(),
{
    if days.len() > 0 {
        lemma_window_sum_nested(days.drop_last(), today, inner, outer);
        if in_window(days.last(), today, inner) {
            assert(in_window(days.last(), today, outer));
        }
    }
}

proof fn lemma_window_sum_member(days: Seq<DayRecord>, today: Seq<char>, back: nat, i: int)
    requires
        0 <= i < days.len(),
        in_window(days[i], today, back),
    ensures
        record_tokens(days[i]) <= window_sum(days, today, back),
    decreases days.len(),
{
    lemma_window_sum_nonneg(days.drop_last(), today, back);
    if i < days.len() - 1 {
        assert(days.drop_last()[i] == days[i]);
        lemma_window_sum_member(days.drop_last(), today, back, i);
    }
}

proof fn lemma_last_with_key_found(days: Seq<DayRecord>, key: Seq<char>)
    ensures
        last_with_key(days, key) matches Some(i) ==> 0 <= i < days.len() && record_key(days[i])
            == Some(key),
    decreases days.len(),
{
    if days.len() > 0 && record_key(days.last()) != Some(key) {
        lemma_last_with_key_found(days.drop_last(), key);
        if let Some(i) = last_with_key(days.drop_last(), key) {
            assert(days.drop_last()[i] == days[i]);
        }
    }
}

proof fn lemma_day_in_window(t: DayTotal, days: Seq<DayRecord>, key: Seq<char>, today: Seq<char>, back: nat)
    requires
        day_total_ok(t, days, Some(key)),
        forall|r: DayRecord| record_key(r) == Some(key) ==> #[trigger] in_window(r, today, back),
    ensures
        t.tokens <= saturated(window_sum(days, today, back)),
{
    lemma_last_with_key_found(days, key);
    lemma_window_sum_nonneg(days, today, back);
    if let Some(i) = last_with_key(days, key) {
        assert(in_window(days[i], today, back));
        lemma_window_sum_member(days, today, back, i);
    }
}

/// The summary's figures nest as its windows do: today's tokens are at most
/// the last 7 days', which are at most the last 30 days'; every record
/// counted in the last 7 days is counted in the last 30; yesterday's tokens
/// are at most the last 7 days'. This holds wherever `today` names a day
/// (see `day_of_key`), as the keys that `today_key` gives do.
pub proof fn lemma_summary_windows_nest(
    t: CodexLocalUsageSummary,
    days: Seq<DayRecord>,
    today: Seq<char>,
)
    requires
        summary_ok(t, days, today),
        day_of_key(today) is Some,
    ensures
        t.today.tokens <= t.last_7_days.tokens,
        t.yesterday.tokens <= t.last_7_days.tokens,
        t.last_7_days.tokens <= t.last_30_days.tokens,
        forall|i: usize| #[trigger] t.last_7_days.days@.contains(i) ==> t.last_30_days.days@.contains(i),
{
    lemma_windows_nest(today);
    lemma_window_sum_nested(days, today, 6, 29);
    lemma_window_sum_nonneg(days, today, 6);
    lemma_day_in_window(t.today, days, today, today, 6);
    if let Some(k) = previous_key(today) {
        lemma_day_in_window(t.yesterday, days, k, today, 6);
    }
    assert forall|i: usize| #[trigger] t.last_7_days.days@.contains(i) implies t.last_30_days.days@.contains(i) by {
        let a = choose|a: int| 0 <= a < t.last_7_days.days@.len() && t.last_7_days.days@[a] == i;
        assert(in_window(days[t.last_7_days.days@[a] as int], today, 6));
        assert(in_window(days[i as int], today, 29));
    }
}

proof fn lemma_window_undated(t: WindowTotal, days: Seq<DayRecord>, r: DayRecord, today: Seq<char>, back: nat)
    requires
        record_key(r) is None,
    ensures
        window_total_ok(t, days.push(r), today, back) == window_total_ok(t, days, today, back),
{
    let more = days.push(r);
    assert(more.drop_last() =~= days);
    assert(!in_window(r, today, back));
    assert forall|i: int| 0 <= i < days.len() implies #[trigger] more[i] == days[i] by {}
    if window_total_ok(t, days, today, back) {
        assert forall|i: int| 0 <= i < more.len() && in_window(#[trigger] more[i], today, back)
            implies t.days@.contains(i as usize) by {
            if i == days.len() {
                assert(more[i] == r);
            } else {
                assert(more[i] == days[i]);
            }
        }
    }
    if window_total_ok(t, more, today, back) {
        assert forall|a: int| 0 <= a < t.days@.len() implies (#[trigger] t.days@[a] as int)
            < days.len() && in_window(days[t.days@[a] as int], today, back) by {
            let i = t.days@[a] as int;
            if i == days.len() {
                assert(more[i] == r);
            } else {
                assert(more[i] == days[i]);
            }
        }
        assert forall|i: int| 0 <= i < days.len() && in_window(#[trigger] days[i], today, back)
            implies t.days@.contains(i as usize) by {
            assert(more[i] == days[i]);
        }
    }
}

proof fn lemma_day_total_undated(t: DayTotal, days: Seq<DayRecord>, r: DayRecord, key: Option<Seq<char>>)
    requires
        record_key(r) is None,
    ensures
        day_total_ok(t, days.push(r), key) == day_total_ok(t, days, key),
{
    let more = days.push(r);
    assert(more.drop_last() =~= days);
    if let Some(k) = key {
        assert(last_with_key(more, k) == last_with_key(days, k));
        lemma_last_with_key_found(days, k);
        if let Some(i) = last_with_key(days, k) {
            assert(more[i] == days[i]);
        }
    }
}

/// A record without a day (no date, or a date that names none) changes
/// nothing in the summary: appending it to the report gives the same
/// summary.
pub proof fn lemma_undated_record_changes_nothing(
    t: CodexLocalUsageSummary,
    days: Seq<DayRecord>,
    r: DayRecord,
    today: Seq<char>,
)
    requires
        record_key(r) is None,
    ensures
        summary_ok(t, days.push(r), today) == summary_ok(t, days, today),
{
    let more = days.push(r);
    assert(more.drop_last() =~= days);
    lemma_day_total_undated(t.today, days, r, Some(today));
    lemma_day_total_undated(t.yesterday, days, r, previous_key(today));
    lemma_window_undated(t.last_7_days, days, r, today, 6);
    lemma_window_undated(t.last_30_days, days, r, today, 29);
    assert((|n: Seq<char>| model_total(more, n)) =~= (|n: Seq<char>| model_total(days, n)));
    assert(all_model_tokens(more) == all_model_tokens(days));
}


/// A summary as plain values: each total's label, tokens and day or days,
/// each model's name and tokens in order, and the model tokens.
pub open spec fn summary_view(t: CodexLocalUsageSummary) -> (
    (Seq<char>, u64, Option<usize>),
    (Seq<char>, u64, Option<usize>),
    (Seq<char>, u64, Seq<usize>),
    (Seq<char>, u64, Seq<usize>),
    Seq<(Seq<char>, u64)>,
    u64,
) {
    (
        (t.today.label@, t.today.tokens, t.today.day),
        (t.yesterday.label@, t.yesterday.tokens, t.yesterday.day),
        (t.last_7_days.label@, t.last_7_days.tokens, t.last_7_days.days@),
        (t.last_30_days.label@, t.last_30_days.tokens, t.last_30_days.days@),
        t.models@.map_values(|m: CodexModelUsage| (m.name@, m.tokens)),
        t.model_tokens,
    )
}

/// Two sequences strictly ordered by one asymmetric relation, with the same
/// elements, are equal.
proof fn lemma_sorted_unique<A>(a: Seq<A>, b: Seq<A>, lt: spec_fn(A, A) -> bool)
    requires
        forall|x: A, y: A| #[trigger] lt(x, y) ==> !lt(y, x),
        forall|i: int, j: int| #![trigger a[i], a[j]] 0 <= i < j < a.len() ==> lt(a[i], a[j]),
        forall|i: int, j: int| #![trigger b[i], b[j]] 0 <= i < j < b.len() ==> lt(b[i], b[j]),
        forall|x: A| a.contains(x) <==> b.contains(x),
    ensures
        a == b,
    decreases a.len(),
{
    if a.len() == 0 {
        if b.len() > 0 {
            assert(b.contains(b[0]));
        }
        assert(a =~= b);
    } else {
        assert(a.contains(a[0]));
        let j = choose|j: int| 0 <= j < b.len() && b[j] == a[0];
        assert(b.contains(b[0]));
        let i = choose|i: int| 0 <= i < a.len() && a[i] == b[0];
        if j > 0 {
            assert(lt(b[0], b[j]));
            if i > 0 {
                assert(lt(a[0], a[i]));
            }
        }
        assert(a[0] == b[0]);
        let a1 = a.drop_first();
        let b1 = b.drop_first();
        assert forall|x: A| a1.contains(x) <==> b1.contains(x) by {
            if a1.contains(x) {
                let k = choose|k: int| 0 <= k < a1.len() && a1[k] == x;
                assert(a[k + 1] == x);
                assert(lt(a[0], a[k + 1]));
                assert(a.contains(x));
                let m = choose|m: int| 0 <= m < b.len() && b[m] == x;
                if m == 0 {
                    assert(lt(x, x));
                }
                assert(b1[m - 1] == x);
            }
            if b1.contains(x) {
                let k = choose|k: int| 0 <= k < b1.len() && b1[k] == x;
                assert(b[k + 1] == x);
                assert(lt(b[0], b[k + 1]));
                assert(b.contains(x));
                let m = choose|m: int| 0 <= m < a.len() && a[m] == x;
                if m == 0 {
                    assert(lt(x, x));
                }
                assert(a1[m - 1] == x);
            }
        }
        lemma_sorted_unique(a1, b1, lt);
        assert(a =~= seq![a[0]] + a1);
        assert(b =~= seq![b[0]] + b1);
    }
}

proof fn lemma_window_unique(s: WindowTotal, t: WindowTotal, days: Seq<DayRecord>, today: Seq<char>, back: nat)
    requires
        window_total_ok(s, days, today, back),
        window_total_ok(t, days, today, back),
    ensures
        s.tokens == t.tokens,
        s.days@ == t.days@,
{
    let lt = |x: usize, y: usize| x < y;
    assert forall|x: usize| s.days@.contains(x) <==> t.days@.contains(x) by {
        if s.days@.contains(x) {
            let a = choose|a: int| 0 <= a < s.days@.len() && s.days@[a] == x;
            assert(in_window(days[s.days@[a] as int], today, back));
        }
        if t.days@.contains(x) {
            let a = choose|a: int| 0 <= a < t.days@.len() && t.days@[a] == x;
            assert(in_window(days[t.days@[a] as int], today, back));
        }
    }
    lemma_sorted_unique(s.days@, t.days@, lt);
}

proof fn lemma_models_unique(s: Seq<CodexModelUsage>, t: Seq<CodexModelUsage>, days: Seq<DayRecord>)
    requires
        models_ok(s, days),
        models_ok(t, days),
    ensures
        s.map_values(|m: CodexModelUsage| (m.name@, m.tokens)) == t.map_values(
            |m: CodexModelUsage| (m.name@, m.tokens),
        ),
{
    reveal(ranked);
    let f = |n: Seq<char>| model_total(days, n);
    let proj = |m: CodexModelUsage| (m.name@, m.tokens);
    let ps = s.map_values(proj);
    let pt = t.map_values(proj);
    let lt = |p: (Seq<char>, u64), q: (Seq<char>, u64)|
        p.1 > q.1 || (p.1 == q.1 && lex_le(p.0, q.0) && p.0 != q.0);
    assert forall|p: (Seq<char>, u64), q: (Seq<char>, u64)| #[trigger] lt(p, q) implies !lt(q, p) by {
        if p.1 == q.1 && lex_le(p.0, q.0) && lex_le(q.0, p.0) {
            assert(p.0.take(0) =~= q.0.take(0));
            lemma_lex_antisymmetric(p.0, q.0, 0);
        }
    }
    assert forall|i: int, j: int| #![trigger ps[i], ps[j]] 0 <= i < j < ps.len() implies lt(ps[i], ps[j]) by {
        assert(ranks_before(s[i], s[j]));
    }
    assert forall|i: int, j: int| #![trigger pt[i], pt[j]] 0 <= i < j < pt.len() implies lt(pt[i], pt[j]) by {
        assert(ranks_before(t[i], t[j]));
    }
    assert forall|p: (Seq<char>, u64)| ps.contains(p) <==> pt.contains(p) by {
        if ps.contains(p) {
            let a = choose|a: int| 0 <= a < ps.len() && ps[a] == p;
            assert(s[a].tokens == f(s[a].name@) && s[a].tokens > 0);
            let b = choose|b: int| 0 <= b < t.len() && t[b].name@ == s[a].name@;
            assert(t[b].tokens == f(t[b].name@));
            assert(pt[b] == p);
        }
        if pt.contains(p) {
            let a = choose|a: int| 0 <= a < pt.len() && pt[a] == p;
            assert(t[a].tokens == f(t[a].name@) && t[a].tokens > 0);
            let b = choose|b: int| 0 <= b < s.len() && s[b].name@ == t[a].name@;
            assert(s[b].tokens == f(s[b].name@));
            assert(ps[b] == p);
        }
    }
    lemma_sorted_unique(ps, pt, lt);
}

/// A report has one summary on a given day: two summaries of the same
/// report on the same day are the same in every value.
pub proof fn lemma_summary_unique(
    s: CodexLocalUsageSummary,
    t: CodexLocalUsageSummary,
    days: Seq<DayRecord>,
    today: Seq<char>,
)
    requires
        summary_ok(s, days, today),
        summary_ok(t, days, today),
    ensures
        summary_view(s) == summary_view(t),
{
    lemma_window_unique(s.last_7_days, t.last_7_days, days, today, 6);
    lemma_window_unique(s.last_30_days, t.last_30_days, days, today, 29);
    lemma_models_unique(s.models@, t.models@, days);
}

/// Appending a record without a day (no date, or a date that names none) to
/// a report leaves its summary as it was.
pub proof fn lemma_undated_record_same_summary(
    s: CodexLocalUsageSummary,
    t: CodexLocalUsageSummary,
    days: Seq<DayRecord>,
    r: DayRecord,
    today: Seq<char>,
)
    requires
        record_key(r) is None,
        summary_ok(s, days.push(r), today),
        summary_ok(t, days, today),
    ensures
        summary_view(s) == summary_view(t),
{
    lemma_undated_record_changes_nothing(s, days, r, today);
    lemma_summary_unique(s, t, days, today);
}

} // verus!
