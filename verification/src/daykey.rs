//! Reading the day that a usage record is dated with.
use vstd::prelude::*;
use crate::numtext::{all_digits, is_ascii_digit};
use crate::text::{
    char_at_byte, chars_of, opt_chars, is_boundary_at, lemma_utf8_len_ascii, lemma_utf8_len_monotone,
    lemma_utf8_len_step, string_from_chars, trim_chars, trimmed, utf8_len, utf8_width_of,
};

verus! {

/// A date that starts `YYYY-MM-DD...`: at least ten bytes, `-` at bytes 4 and 7.
pub open spec fn has_dashed_date(v: Seq<char>) -> bool {
    utf8_len(v) >= 10 && char_at_byte(v, 4, '-') && char_at_byte(v, 7, '-')
}

/// A date written `YYYYMMDD`: eight ASCII digits.
pub open spec fn has_compact_date(v: Seq<char>) -> bool {
    utf8_len(v) == 8 && all_digits(v)
}

/// Where `day_key` reads its first ten bytes, they end on a character boundary
/// (else slicing there panics).
pub open spec fn day_key_readable(raw: Seq<char>) -> bool {
    has_dashed_date(trimmed(raw)) ==> is_boundary_at(trimmed(raw), 10)
}

/// The key of a compact date `YYYYMMDD`: `YYYY-MM-DD`.
pub open spec fn compact_key(v: Seq<char>) -> Seq<char> {
    v.subrange(0, 4) + seq!['-'] + v.subrange(4, 6) + seq!['-'] + v.subrange(6, 8)
}

/// The character count of the first ten bytes of `v`.
pub open spec fn ten_byte_cut(v: Seq<char>) -> int {
    choose|i: int| 0 <= i <= v.len() && #[trigger] utf8_len(v.take(i)) == 10
}

/// What `day_key` makes of a date text `raw`: the trimmed text cut to its first
/// ten bytes where it reads `YYYY-MM-DD...`, `YYYY-MM-DD` where it reads
/// `YYYYMMDD`, nothing else.
pub open spec fn day_key_spec(raw: Seq<char>) -> Option<Seq<char>> {
    let v = trimmed(raw);
    if has_dashed_date(v) {
        Some(v.take(ten_byte_cut(v)))
    } else if has_compact_date(v) {
        Some(compact_key(v))
    } else {
        None
    }
}

/// What a trimmed date text looks like: whether it reads `YYYY-MM-DD...`,
/// where its first ten bytes end (if they end on a character boundary), and
/// whether it reads `YYYYMMDD`.
fn scan_date_text(v: &Vec<char>) -> (r: (bool, Option<usize>, bool))
    ensures
        r.0 == has_dashed_date(v@),
        match r.1 {
            Some(c) => c <= v@.len() && utf8_len(v@.take(c as int)) == 10,
            None => !is_boundary_at(v@, 10),
        },
        r.2 == has_compact_date(v@),
{
    let n = v.len();
    let mut i: usize = 0;
    let mut off: usize = 0;
    let mut dash4 = false;
    let mut dash7 = false;
    let mut cut: Option<usize> = None;
    let mut digits = true;
    while i < n && off <= 10
        invariant
            n == v@.len(),
            i <= n,
            off as int == utf8_len(v@.take(i as int)),
            off <= 14,
            dash4 == exists|k: int|
                0 <= k < i && #[trigger] utf8_len(v@.take(k)) == 4 && v@[k] == '-',
            dash7 == exists|k: int|
                0 <= k < i && #[trigger] utf8_len(v@.take(k)) == 7 && v@[k] == '-',
            match cut {
                Some(c) => c < i && utf8_len(v@.take(c as int)) == 10,
                None => forall|k: int| 0 <= k < i ==> #[trigger] utf8_len(v@.take(k)) != 10,
            },
            digits == forall|k: int| 0 <= k < i ==> is_ascii_digit(#[trigger] v@[k]),
        decreases n - i,
    {
        let c = v[i];
        proof {
            lemma_utf8_len_step(v@, i as int);
        }
        if off == 4 && c == '-' {
            dash4 = true;
        }
        if off == 7 && c == '-' {
            dash7 = true;
        }
        if off == 10 {
            cut = Some(i);
        }
        if !('0' <= c && c <= '9') {
            digits = false;
        }
        off = off + utf8_width_of(c);
        i = i + 1;
    }
    if off == 10 && cut.is_none() {
        cut = Some(i);
    }
    proof {
        assert(v@.take(n as int) =~= v@);
        // Past index `i`, every offset is beyond the ones looked at.
        assert forall|k: int| i < k <= n implies #[trigger] utf8_len(v@.take(k)) > off by {
            lemma_utf8_len_monotone(v@, i as int, k);
        }
        if i < n {
            lemma_utf8_len_monotone(v@, i as int, n as int);
        }
        if !dash4 {
            assert(!char_at_byte(v@, 4, '-'));
        }
        if !dash7 {
            assert(!char_at_byte(v@, 7, '-'));
        }
        if utf8_len(v@) >= 10 {
            assert(off >= 10);
        }
        if cut is None {
            assert(!is_boundary_at(v@, 10));
        }
    }
    let dashed = off >= 10 && dash4 && dash7;
    let compact = i == n && off == 8 && digits;
    proof {
        if compact {
            assert(all_digits(v@));
            assert forall|k: int| 0 <= k < v@.len() implies (#[trigger] v@[k] as u32) < 0x80 by {
                assert(is_ascii_digit(v@[k]));
            }
            lemma_utf8_len_ascii(v@);
        }
        if has_compact_date(v@) {
            if i < n {
                lemma_utf8_len_monotone(v@, i as int, n as int);
            }
            assert(i == n);
            assert forall|k: int| 0 <= k < i implies is_ascii_digit(#[trigger] v@[k]) by {
                assert(is_ascii_digit(v@[k]));
            }
        }
    }
    (dashed, cut, compact)
}

/// Whether `day_key` can read `raw` (see `day_key_readable`).
pub fn date_readable(raw: &str) -> (r: bool)
    ensures
        r == day_key_readable(raw@),
{
    let all = chars_of(raw);
    let v = trim_chars(&all);
    let (dashed, cut, _) = scan_date_text(&v);
    !dashed || cut.is_some()
}

/// The `YYYY-MM-DD` key of a usage record's date.
pub fn day_key(raw: &str) -> (r: Option<String>)
    requires
        day_key_readable(raw@),
    ensures
        opt_chars(r) == day_key_spec(raw@),
{
    let all = chars_of(raw);
    let v = trim_chars(&all);
    let n = v.len();
    let (dashed, cut, compact) = scan_date_text(&v);
    if dashed {
        let c = match cut {
            Some(c) => c,
            None => 0,
        };
        proof {
            let w = ten_byte_cut(v@);
            assert(is_boundary_at(v@, 10));
            assert(0 <= w <= v@.len() && utf8_len(v@.take(w)) == 10);
            if (c as int) < w {
                lemma_utf8_len_monotone(v@, c as int, w);
            } else if w < (c as int) {
                lemma_utf8_len_monotone(v@, w, c as int);
            }
        }
        let mut out: Vec<char> = Vec::new();
        let mut j: usize = 0;
        while j < c
            invariant
                c <= n == v@.len(),
                j <= c,
                out@ == v@.take(j as int),
            decreases c - j,
        {
            out.push(v[j]);
            j = j + 1;
            assert(out@ =~= v@.take(j as int));
        }
        return Some(string_from_chars(&out));
    }
    if compact {
        proof {
            assert forall|k: int| 0 <= k < v@.len() implies (#[trigger] v@[k] as u32) < 0x80 by {
                assert(is_ascii_digit(v@[k]));
            }
            lemma_utf8_len_ascii(v@);
        }
        let mut out: Vec<char> = Vec::new();
        out.push(v[0]);
        out.push(v[1]);
        out.push(v[2]);
        out.push(v[3]);
        out.push('-');
        out.push(v[4]);
        out.push(v[5]);
        out.push('-');
        out.push(v[6]);
        out.push(v[7]);
        assert(out@ =~= compact_key(v@));
        return Some(string_from_chars(&out));
    }
    None
}

} // verus!
