//! Reading and writing decimal integers the way Rust's standard library does.
use vstd::prelude::*;

verus! {

pub open spec fn is_ascii_digit(c: char) -> bool {
    '0' <= c <= '9'
}

pub open spec fn all_digits(s: Seq<char>) -> bool {
    forall|i: int| 0 <= i < s.len() ==> is_ascii_digit(#[trigger] s[i])
}

pub open spec fn digit_value(c: char) -> int {
    (c as u32) - 48
}

/// The number that the decimal digits `s` denote.
pub open spec fn digits_value(s: Seq<char>) -> int
    decreases s.len(),
{
    if s.len() == 0 {
        0
    } else {
        digits_value(s.drop_last()) * 10 + digit_value(s.last())
    }
}

/// What `FromStr` for an integer type whose values are `lo..=hi` reads from
/// `s`: an optional `+` (or `-` where the type is signed) and at least one
/// ASCII digit, with a value in range; `None` for anything else.
pub open spec fn parse_integer(s: Seq<char>, lo: int, hi: int) -> Option<int> {
    let neg = s.len() > 0 && s[0] == '-' && lo < 0;
    let body = if s.len() > 0 && (s[0] == '+' || neg) {
        s.drop_first()
    } else {
        s
    };
    let v = if neg {
        -digits_value(body)
    } else {
        digits_value(body)
    };
    if body.len() > 0 && all_digits(body) && lo <= v <= hi {
        Some(v)
    } else {
        None
    }
}

pub open spec fn digit_char(d: int) -> char {
    (d + 48) as char
}

/// The shortest decimal text of `n`.
pub open spec fn decimal_text(n: nat) -> Seq<char>
    decreases n,
{
    if n < 10 {
        seq![digit_char(n as int)]
    } else {
        decimal_text(n / 10).push(digit_char((n % 10) as int))
    }
}

pub open spec fn zeros(k: int) -> Seq<char> {
    if k <= 0 {
        Seq::<char>::empty()
    } else {
        Seq::new(k as nat, |i: int| '0')
    }
}

/// What `format!("{:0w$}", n)` writes: the sign, then the digits of `n`
/// padded with zeros so that the whole is at least `width` long.
pub open spec fn zero_padded(n: int, width: int) -> Seq<char> {
    if n < 0 {
        let d = decimal_text((-n) as nat);
        seq!['-'] + zeros(width - 1 - d.len()) + d
    } else {
        let d = decimal_text(n as nat);
        zeros(width - d.len()) + d
    }
}

proof fn lemma_digits_value_monotone(s: Seq<char>, i: int, j: int)
    requires
        0 <= i <= j <= s.len(),
        all_digits(s),
    ensures
        digits_value(s.subrange(0, i)) <= digits_value(s.subrange(0, j)),
        digits_value(s.subrange(0, j)) >= 0,
    decreases j,
{
    if j > 0 {
        assert(s.subrange(0, j).drop_last() =~= s.subrange(0, j - 1));
        assert(is_ascii_digit(s[j - 1]));
        if i < j {
            lemma_digits_value_monotone(s, i, j - 1);
        } else {
            lemma_digits_value_monotone(s, j - 1, j - 1);
        }
    }
}

/// Reads an integer of the range `lo..=hi` from `s`, as `str::parse` does for
/// the integer type with that range.
pub fn parse_integer_chars(s: &Vec<char>, lo: i64, hi: i64) -> (r: Option<i64>)
    requires
        -0x8000_0000 <= lo <= 0,
        0 <= hi <= 0x7fff_ffff,
    ensures
        match r {
            Some(v) => parse_integer(s@, lo as int, hi as int) == Some(v as int),
            None => parse_integer(s@, lo as int, hi as int) is None,
        },
{
    let n = s.len();
    let neg = n > 0 && s[0] == '-' && lo < 0;
    let start: usize = if n > 0 && (s[0] == '+' || neg) {
        1
    } else {
        0
    };
    let ghost body = if n > 0 && (s@[0] == '+' || neg) {
        s@.drop_first()
    } else {
        s@
    };
    assert(body =~= s@.subrange(start as int, n as int));
    if start >= n {
        return None;
    }
    let mut m: u64 = 0;
    let mut i: usize = start;
    while i < n
        invariant
            start <= i <= n,
            n == s@.len(),
            neg == (s@.len() > 0 && s@[0] == '-' && lo < 0),
            body == (if s@.len() > 0 && (s@[0] == '+' || neg) {
                s@.drop_first()
            } else {
                s@
            }),
            -0x8000_0000 <= lo <= 0,
            0 <= hi <= 0x7fff_ffff,
            body =~= s@.subrange(start as int, n as int),
            forall|k: int| start <= k < i ==> is_ascii_digit(#[trigger] s@[k]),
            m as int == digits_value(body.subrange(0, i - start)),
            m <= 0x8000_0000,
        decreases n - i,
    {
        let c = s[i];
        if !('0' <= c && c <= '9') {
            assert(!is_ascii_digit(body[i - start]));
            return None;
        }
        let d = (c as u32 - 48) as u64;
        assert(body.subrange(0, i + 1 - start).drop_last() =~= body.subrange(0, i - start));
        let next = m * 10 + d;
        i = i + 1;
        if next > 0x8000_0000 {
            assert(all_digits(body.subrange(0, i - start)));
            proof {
                let p = body.subrange(0, i - start);
                if all_digits(body) {
                    lemma_digits_value_monotone(body, i - start, body.len() as int);
                    assert(body.subrange(0, body.len() as int) =~= body);
                }
            }
            return None;
        }
        m = next;
    }
    assert(body.subrange(0, n - start) =~= body);
    assert(all_digits(body));
    let v: i64 = if neg {
        -(m as i64)
    } else {
        m as i64
    };
    if lo <= v && v <= hi {
        Some(v)
    } else {
        None
    }
}

/// The shortest decimal text of `n`, as `n.to_string()` writes it.
pub fn decimal_chars(n: u64) -> (r: Vec<char>)
    ensures
        r@ == decimal_text(n as nat),
{
    let mut out: Vec<char> = Vec::new();
    let mut rem = n;
    while rem >= 10
        invariant
            decimal_text(n as nat) == decimal_text(rem as nat) + out@,
        decreases rem,
    {
        let d = (rem % 10) as u8;
        out.insert(0, (d + 48) as char);
        assert(decimal_text(rem as nat) == decimal_text((rem / 10) as nat).push(
            digit_char((rem % 10) as int),
        ));
        rem = rem / 10;
    }
    out.insert(0, ((rem as u8) + 48) as char);
    assert(decimal_text(rem as nat) =~= seq![digit_char(rem as int)]);
    out
}

/// `format!("{:0width$}", n)`.
pub fn zero_padded_chars(n: i64, width: usize) -> (r: Vec<char>)
    requires
        n > i64::MIN,
        width < 64,
    ensures
        r@ == zero_padded(n as int, width as int),
{
    let mag: u64 = if n < 0 {
        (-n) as u64
    } else {
        n as u64
    };
    let digits = decimal_chars(mag);
    let mut out: Vec<char> = Vec::new();
    if n < 0 {
        out.push('-');
    }
    let pad: usize = if n < 0 {
        if digits.len() < width && width - digits.len() > 1 {
            width - digits.len() - 1
        } else {
            0
        }
    } else {
        if digits.len() < width {
            width - digits.len()
        } else {
            0
        }
    };
    let mut k: usize = 0;
    let ghost prefix = out@;
    while k < pad
        invariant
            k <= pad,
            out@ == prefix + Seq::new(k as nat, |i: int| '0'),
        decreases pad - k,
    {
        out.push('0');
        k = k + 1;
        assert(out@ =~= prefix + Seq::new(k as nat, |i: int| '0'));
    }
    proof {
        let z = Seq::new(k as nat, |i: int| '0');
        if n < 0 {
            assert(z =~= zeros(width - 1 - digits@.len()));
        } else {
            assert(z =~= zeros(width - digits@.len()));
        }
    }
    let mut j: usize = 0;
    let ghost before = out@;
    while j < digits.len()
        invariant
            j <= digits@.len(),
            out@ == before + digits@.subrange(0, j as int),
        decreases digits@.len() - j,
    {
        out.push(digits[j]);
        j = j + 1;
    }
    assert(digits@.subrange(0, digits@.len() as int) =~= digits@);
    proof {
        if n < 0 {
            assert(out@ =~= seq!['-'] + zeros(width - 1 - digits@.len()) + digits@);
        } else {
            assert(out@ =~= zeros(width - digits@.len()) + digits@);
        }
    }
    out
}

/// `10` to the power `k`.
pub open spec fn pow10(k: nat) -> int
    decreases k,
{
    if k == 0 {
        1
    } else {
        10 * pow10((k - 1) as nat)
    }
}

proof fn lemma_decimal_text(n: nat)
    ensures
        decimal_text(n).len() >= 1,
        all_digits(decimal_text(n)),
        digits_value(decimal_text(n)) == n,
    decreases n,
{
    if n >= 10 {
        lemma_decimal_text(n / 10);
        let s = decimal_text(n);
        assert(s.drop_last() =~= decimal_text(n / 10));
        assert(digit_value(digit_char((n % 10) as int)) == n % 10);
        assert(s.last() == digit_char((n % 10) as int));
        assert(n == (n / 10) * 10 + n % 10);
        assert(digits_value(s) == digits_value(s.drop_last()) * 10 + digit_value(s.last()));
        assert forall|i: int| 0 <= i < s.len() implies is_ascii_digit(#[trigger] s[i]) by {
            if i < s.len() - 1 {
                assert(s[i] == decimal_text(n / 10)[i]);
            }
        }
    } else {
        assert(decimal_text(n).drop_last() =~= Seq::<char>::empty());
        assert(digit_value(digit_char(n as int)) == n);
        assert(digits_value(Seq::<char>::empty()) == 0);
        let s = decimal_text(n);
        assert(digits_value(s) == digits_value(s.drop_last()) * 10 + digit_value(s.last()));
    }
}

proof fn lemma_decimal_len(n: nat, k: nat)
    requires
        k >= 1,
        n < pow10(k),
    ensures
        decimal_text(n).len() <= k,
    decreases k,
{
    if n >= 10 {
        if k == 1 {
            reveal_with_fuel(pow10, 2);
        } else {
            assert(pow10(k) == 10 * pow10((k - 1) as nat));
            lemma_decimal_len(n / 10, (k - 1) as nat);
        }
    }
}

proof fn lemma_zeros_value(k: int, d: Seq<char>)
    ensures
        all_digits(zeros(k)),
        digits_value(zeros(k) + d) == digits_value(d),
    decreases (if k > 0 { k } else { 0 }) + d.len(),
{
    if d.len() > 0 {
        lemma_zeros_value(k, d.drop_last());
        assert((zeros(k) + d).drop_last() =~= zeros(k) + d.drop_last());
    } else if k > 0 {
        lemma_zeros_value(k - 1, d);
        assert(zeros(k) + d =~= zeros(k));
        assert(zeros(k).drop_last() =~= zeros(k - 1));
        assert(zeros(k - 1) + d =~= zeros(k - 1));
    } else {
        assert(zeros(k) + d =~= Seq::<char>::empty());
    }
}

/// `zero_padded(n, w)` of a number with at most `w` digits is exactly `w`
/// digits that denote `n`.
pub proof fn lemma_zero_padded(n: int, w: nat)
    requires
        w >= 1,
        0 <= n < pow10(w),
    ensures
        zero_padded(n, w as int).len() == w,
        all_digits(zero_padded(n, w as int)),
        digits_value(zero_padded(n, w as int)) == n,
{
    let d = decimal_text(n as nat);
    lemma_decimal_text(n as nat);
    lemma_decimal_len(n as nat, w);
    lemma_zeros_value(w - d.len(), d);
    let z = zeros(w - d.len());
    assert forall|i: int| 0 <= i < (z + d).len() implies is_ascii_digit(#[trigger] (z + d)[i]) by {
        if i < z.len() {
            assert((z + d)[i] == z[i]);
        } else {
            assert((z + d)[i] == d[i - z.len()]);
        }
    }
}

/// `zero_padded(n, w)` of a non-negative number is digits that denote `n`.
pub proof fn lemma_padded_digits(n: int, w: int)
    requires
        0 <= n,
    ensures
        zero_padded(n, w).len() >= 1,
        all_digits(zero_padded(n, w)),
        digits_value(zero_padded(n, w)) == n,
{
    let d = decimal_text(n as nat);
    lemma_decimal_text(n as nat);
    lemma_zeros_value(w - d.len(), d);
    let z = zeros(w - d.len());
    assert forall|i: int| 0 <= i < (z + d).len() implies is_ascii_digit(#[trigger] (z + d)[i]) by {
        if i < z.len() {
            assert((z + d)[i] == z[i]);
        } else {
            assert((z + d)[i] == d[i - z.len()]);
        }
    }
}

} // verus!
