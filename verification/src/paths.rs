//! File paths, held as text, with the platform's separator `sep`: `/` is
//! a separator everywhere, and `sep` too (`\\` on Windows, where drive
//! prefixes such as `C:` count as well).
use vstd::prelude::*;
use crate::text::{ascii_lower, ascii_lowercase_chars, chars_of, string_from_chars};

verus! {

/// `std::path::MAIN_SEPARATOR`, the platform's separator; which character it
/// is depends on the platform, so nothing is stated of it.
#[verifier::external_body]
pub(crate) fn main_separator() -> (r: char) {
    std::path::MAIN_SEPARATOR
}

/// `Path::new(base).join(part)` as text (lossily where it is no UTF-8),
/// used for the paths whose prefixes the library does not model (see
/// `prefix_free`); nothing is stated of the result.
#[verifier::external_body]
fn std_path_join(base: &str, part: &str) -> (r: String) {
    std::path::Path::new(base).join(part).to_string_lossy().into_owned()
}

/// `Path::new(path).with_extension(ext)` as text (lossily where it is no
/// UTF-8), used for the paths whose prefixes the library does not model (see
/// `prefix_free`); nothing is stated of the result.
#[verifier::external_body]
fn std_with_extension(path: &str, ext: &str) -> (r: String) {
    std::path::Path::new(path).with_extension(ext).to_string_lossy().into_owned()
}

/// Whether `c` separates path components: `/`, or the platform's `sep`.
pub open spec fn is_sep(c: char, sep: char) -> bool {
    c == '/' || c == sep
}

/// Whether `p` starts with a drive such as `C:` (on Windows, where `sep` is
/// `\\`).
pub open spec fn has_drive(p: Seq<char>, sep: char) -> bool {
    sep == '\\' && p.len() >= 2 && (('a' <= p[0] <= 'z') || ('A' <= p[0] <= 'Z')) && p[1] == ':'
}

/// The length of the drive that starts `p`, or 0.
pub open spec fn drive_len(p: Seq<char>, sep: char) -> int {
    if has_drive(p, sep) {
        2
    } else {
        0
    }
}

/// Whether `p` has none of the prefixes that start with two separators on
/// Windows (`\\\\server\\share`, `\\\\?\\`, `\\\\.\\`); where `sep` is `/`
/// every path is.
pub open spec fn prefix_free(p: Seq<char>, sep: char) -> bool {
    !(sep == '\\' && p.len() >= 2 && is_sep(p[0], sep) && is_sep(p[1], sep))
}

/// `base` joined with `part` as `Path::join` does, for a `base` without a
/// two-separator prefix: a `part` that is absolute or has a prefix replaces
/// `base`; on Windows a `part` with a root but no prefix keeps only the
/// drive of `base`; otherwise the separator `sep` is put between them unless
/// `base` is empty, ends with a separator or is a bare drive such as `C:`.
pub open spec fn joined(base: Seq<char>, part: Seq<char>, sep: char) -> Seq<char> {
    if sep != '\\' && part.len() > 0 && is_sep(part[0], sep) {
        part
    } else if has_drive(part, sep) || !prefix_free(part, sep) {
        part
    } else if part.len() > 0 && is_sep(part[0], sep) {
        base.take(drive_len(base, sep)) + part
    } else if base.len() == 0 || is_sep(base.last(), sep) || (has_drive(base, sep) && base.len() == 2) {
        base + part
    } else {
        base + seq![sep] + part
    }
}

fn append_chars(out: &mut Vec<char>, more: &Vec<char>)
    ensures
        final(out)@ == old(out)@ + more@,
{
    let ghost start = out@;
    let mut i: usize = 0;
    while i < more.len()
        invariant
            i <= more@.len(),
            out@ == start + more@.subrange(0, i as int),
        decreases more@.len() - i,
    {
        out.push(more[i]);
        i = i + 1;
    }
    assert(more@.subrange(0, more@.len() as int) =~= more@);
}

/// Joining a name that starts with no separator and no drive onto a path
/// without a two-separator prefix gives such a path again.
pub proof fn lemma_join_name_prefix_free(base: Seq<char>, part: Seq<char>, sep: char)
    requires
        prefix_free(base, sep),
        part.len() > 0,
        !is_sep(part[0], sep),
        !has_drive(part, sep),
    ensures
        prefix_free(joined(base, part, sep), sep),
{
    let j = joined(base, part, sep);
    if base.len() >= 2 {
        assert(j[0] == base[0] && j[1] == base[1]);
    } else if base.len() == 1 {
        assert(j[0] == base[0]);
    } else {
        assert(j =~= part);
    }
}

fn is_sep_exec(c: char, sep: char) -> (r: bool)
    ensures
        r == is_sep(c, sep),
{
    c == '/' || c == sep
}

fn has_drive_exec(p: &Vec<char>, sep: char) -> (r: bool)
    ensures
        r == has_drive(p@, sep),
{
    sep == '\\' && p.len() >= 2 && (('a' <= p[0] && p[0] <= 'z') || ('A' <= p[0] && p[0] <= 'Z'))
        && p[1] == ':'
}

fn prefix_free_exec(p: &Vec<char>, sep: char) -> (r: bool)
    ensures
        r == prefix_free(p@, sep),
{
    !(sep == '\\' && p.len() >= 2 && is_sep_exec(p[0], sep) && is_sep_exec(p[1], sep))
}

/// `base` joined with `part`, `sep` being the platform's separator (see
/// `joined`); a `base` with a two-separator prefix is joined by
/// `Path::join`, and then nothing is stated.
pub fn join_path_with(base: &str, part: &str, sep: char) -> (r: String)
    ensures
        prefix_free(base@, sep) ==> r@ == joined(base@, part@, sep),
{
    let b = chars_of(base);
    let p = chars_of(part);
    if !prefix_free_exec(&b, sep) {
        return std_path_join(base, part);
    }
    if (sep != '\\' && p.len() > 0 && is_sep_exec(p[0], sep)) || has_drive_exec(&p, sep)
        || !prefix_free_exec(&p, sep) {
        return string_from_chars(&p);
    }
    if p.len() > 0 && is_sep_exec(p[0], sep) {
        let mut out: Vec<char> = Vec::new();
        if has_drive_exec(&b, sep) {
            out.push(b[0]);
            out.push(b[1]);
        }
        assert(out@ =~= b@.take(drive_len(b@, sep)));
        append_chars(&mut out, &p);
        return string_from_chars(&out);
    }
    let mut out = b.clone();
    if !(b.len() == 0 || is_sep_exec(b[b.len() - 1], sep) || (has_drive_exec(&b, sep) && b.len()
        == 2)) {
        out.push(sep);
    }
    append_chars(&mut out, &p);
    string_from_chars(&out)
}

/// `base` joined with `part` with the platform's separator (see
/// `join_path_with`).
pub fn join_path(base: &str, part: &str) -> (r: String)
    ensures
        exists|sep: char| prefix_free(base@, sep) ==> r@ == joined(base@, part@, sep),
{
    let sep = main_separator();
    let r = join_path_with(base, part, sep);
    assert(prefix_free(base@, sep) ==> r@ == joined(base@, part@, sep));
    r
}

/// The index just past the last separator of `s`, or 0.
pub open spec fn name_start(s: Seq<char>, sep: char) -> int
    decreases s.len(),
{
    if s.len() == 0 {
        0
    } else if is_sep(s.last(), sep) {
        s.len() as int
    } else {
        name_start(s.drop_last(), sep)
    }
}

/// The index of the last `.` of `s`, or -1.
pub open spec fn last_dot(s: Seq<char>) -> int
    decreases s.len(),
{
    if s.len() == 0 {
        -1
    } else if s.last() == '.' {
        s.len() - 1
    } else {
        last_dot(s.drop_last())
    }
}

/// The file name of a path without its extension, as `Path::file_stem` gives
/// it: up to the last `.`, unless that dot starts the name.
pub open spec fn stem(name: Seq<char>) -> Seq<char> {
    if last_dot(name) > 0 {
        name.take(last_dot(name))
    } else {
        name
    }
}

/// The length of `p` without the separators and `.` segments at its end,
/// which `Path::components` skips (a lone separator stays).
pub open spec fn name_end(p: Seq<char>, sep: char) -> int
    decreases p.len(),
{
    if p.len() > 1 && is_sep(p.last(), sep) {
        name_end(p.drop_last(), sep)
    } else if p.len() >= 2 && p.last() == '.' && is_sep(p[p.len() - 2], sep) {
        name_end(p.drop_last(), sep)
    } else {
        p.len() as int
    }
}

/// Where the file name of `q` starts: after its last separator and after
/// its drive.
pub open spec fn file_name_start(q: Seq<char>, sep: char) -> int {
    if name_start(q, sep) < drive_len(q, sep) {
        drive_len(q, sep)
    } else {
        name_start(q, sep)
    }
}

/// `path` with the extension of its file name set to `ext`, as
/// `Path::with_extension` does: the path is cut right after the stem of its
/// last component and `.` and `ext` are added; a path whose last component
/// is no file name (empty, the root, `.` or `..`) stays as it is.
pub open spec fn with_extension(path: Seq<char>, ext: Seq<char>, sep: char) -> Seq<char> {
    let q = path.take(name_end(path, sep));
    let k = file_name_start(q, sep);
    let name = q.skip(k);
    if name.len() == 0 || name == seq!['.'] || name == seq!['.', '.'] {
        path
    } else if ext.len() == 0 {
        q.take(k) + stem(name)
    } else {
        q.take(k) + stem(name) + seq!['.'] + ext
    }
}

proof fn lemma_name_end_bound(p: Seq<char>, sep: char)
    ensures
        0 <= name_end(p, sep) <= p.len(),
    decreases p.len(),
{
    if (p.len() > 1 && is_sep(p.last(), sep)) || (p.len() >= 2 && p.last() == '.' && is_sep(
        p[p.len() - 2],
        sep,
    )) {
        lemma_name_end_bound(p.drop_last(), sep);
    }
}

fn find_name_end(p: &Vec<char>, sep: char) -> (r: usize)
    ensures
        r == name_end(p@, sep),
        r <= p@.len(),
{
    let mut n: usize = p.len();
    assert(p@.take(n as int) =~= p@);
    while (n > 1 && is_sep_exec(p[n - 1], sep)) || (n >= 2 && p[n - 1] == '.' && is_sep_exec(
        p[n - 2],
        sep,
    ))
        invariant
            n <= p@.len(),
            name_end(p@, sep) == name_end(p@.take(n as int), sep),
        decreases n,
    {
        assert(p@.take(n as int).drop_last() =~= p@.take(n - 1));
        n = n - 1;
    }
    n
}

fn find_name_start(s: &Vec<char>, sep: char) -> (r: usize)
    ensures
        r == file_name_start(s@, sep),
        r <= s@.len(),
{
    let mut k: usize = s.len();
    assert(s@.take(s@.len() as int) =~= s@);
    while k > 0 && !is_sep_exec(s[k - 1], sep)
        invariant
            k <= s@.len(),
            name_start(s@, sep) == name_start(s@.take(k as int), sep),
        decreases k,
    {
        assert(s@.take(k as int).drop_last() =~= s@.take(k - 1));
        k = k - 1;
    }
    proof {
        if k > 0 {
            assert(is_sep(s@.take(k as int).last(), sep));
        }
        assert(s@.take(s@.len() as int) =~= s@);
    }
    if has_drive_exec(s, sep) && k < 2 {
        2
    } else {
        k
    }
}

fn find_last_dot(s: &Vec<char>) -> (r: Option<usize>)
    ensures
        match r {
            Some(i) => i as int == last_dot(s@),
            None => last_dot(s@) == -1,
        },
        r matches Some(i) ==> i < s@.len(),
{
    let mut k: usize = s.len();
    assert(s@.take(s@.len() as int) =~= s@);
    while k > 0 && s[k - 1] != '.'
        invariant
            k <= s@.len(),
            last_dot(s@) == last_dot(s@.take(k as int)),
        decreases k,
    {
        assert(s@.take(k as int).drop_last() =~= s@.take(k - 1));
        k = k - 1;
    }
    proof {
        assert(s@.take(s@.len() as int) =~= s@);
    }
    if k == 0 {
        None
    } else {
        assert(s@.take(k as int).last() == '.');
        Some(k - 1)
    }
}

/// The log file of the app: `package_name` in `log_dir`, with the extension
/// `log`, `sep` being the platform's separator; a path with a two-separator
/// prefix is handled by `Path` itself, and then nothing is stated.
pub fn log_file_path_with(log_dir: &str, package_name: &str, sep: char) -> (r: String)
    ensures
        prefix_free(log_dir@, sep) && prefix_free(joined(log_dir@, package_name@, sep), sep) ==> r@
            == with_extension(joined(log_dir@, package_name@, sep), "log"@, sep),
{
    let joined_text = join_path_with(log_dir, package_name, sep);
    if !prefix_free_exec(&chars_of(joined_text.as_str()), sep) {
        return std_with_extension(joined_text.as_str(), "log");
    }
    let full = chars_of(joined_text.as_str());
    let end = find_name_end(&full, sep);
    let mut p: Vec<char> = Vec::new();
    let mut x0: usize = 0;
    while x0 < end
        invariant
            end <= full@.len(),
            x0 <= end,
            p@ == full@.take(x0 as int),
        decreases end - x0,
    {
        p.push(full[x0]);
        x0 = x0 + 1;
        assert(p@ =~= full@.take(x0 as int));
    }
    let k = find_name_start(&p, sep);
    let mut name: Vec<char> = Vec::new();
    let mut i = k;
    while i < p.len()
        invariant
            k <= i <= p@.len(),
            name@ == p@.subrange(k as int, i as int),
        decreases p@.len() - i,
    {
        name.push(p[i]);
        i = i + 1;
    }
    assert(name@ =~= p@.skip(k as int));
    if name.len() == 0 || (name.len() == 1 && name[0] == '.') || (name.len() == 2 && name[0] == '.'
        && name[1] == '.') {
        assert(name.len() == 1 ==> name@ =~= seq!['.']);
        assert(name.len() == 2 ==> name@ =~= seq!['.', '.']);
        return joined_text;
    }
    proof {
        assert(name@ != seq!['.'] ==> !(name@.len() == 1 && name@[0] == '.'));
        if name@ == seq!['.', '.'] {
            assert(name@.len() == 2 && name@[0] == '.' && name@[1] == '.');
        }
    }
    let mut out: Vec<char> = Vec::new();
    let mut j: usize = 0;
    while j < k
        invariant
            k <= p@.len(),
            j <= k,
            out@ == p@.take(j as int),
        decreases k - j,
    {
        out.push(p[j]);
        j = j + 1;
        assert(out@ =~= p@.take(j as int));
    }
    let stem_end: usize = match find_last_dot(&name) {
        Some(d) => if d > 0 {
            d
        } else {
            name.len()
        },
        None => name.len(),
    };
    let ghost before = out@;
    let mut x: usize = 0;
    while x < stem_end
        invariant
            stem_end <= name@.len(),
            x <= stem_end,
            out@ == before + name@.take(x as int),
        decreases stem_end - x,
    {
        out.push(name[x]);
        x = x + 1;
        assert(out@ =~= before + name@.take(x as int));
    }
    assert(name@.take(stem_end as int) =~= stem(name@));
    out.push('.');
    out.push('l');
    out.push('o');
    out.push('g');
    proof {
        reveal_strlit("log");
        assert(out@ =~= p@.take(k as int) + stem(name@) + seq!['.'] + "log"@);
    }
    string_from_chars(&out)
}

/// `path` is the log file for `package_name` in `log_dir` (see
/// `log_file_path_with`), where the paths have no two-separator prefix.
pub open spec fn log_path_ok(log_dir: Seq<char>, package_name: Seq<char>, sep: char, path: Seq<char>) -> bool {
    prefix_free(log_dir, sep) && prefix_free(joined(log_dir, package_name, sep), sep) ==> path
        == with_extension(joined(log_dir, package_name, sep), "log"@, sep)
}

/// The log file of the app with the platform's separator (see
/// `log_file_path_with`).
pub fn log_file_path(log_dir: &str, package_name: &str) -> (r: String)
    ensures
        exists|sep: char| #[trigger] log_path_ok(log_dir@, package_name@, sep, r@),
{
    let sep = main_separator();
    let r = log_file_path_with(log_dir, package_name, sep);
    assert(log_path_ok(log_dir@, package_name@, sep, r@));
    r
}

/// `done` with the segment `cur` added, unless `cur` is empty or `.`.
pub open spec fn flush_segment(done: Seq<Seq<char>>, cur: Seq<char>) -> Seq<Seq<char>> {
    if cur.len() == 0 || cur == seq!['.'] {
        done
    } else {
        done.push(cur)
    }
}

/// Reading `p` from the left: the finished named segments, and the segment
/// still open.
pub open spec fn segment_scan(p: Seq<char>, sep: char) -> (Seq<Seq<char>>, Seq<char>)
    decreases p.len(),
{
    if p.len() == 0 {
        (Seq::empty(), Seq::empty())
    } else {
        let (done, cur) = segment_scan(p.drop_last(), sep);
        if is_sep(p.last(), sep) {
            (flush_segment(done, cur), Seq::empty())
        } else {
            (done, cur.push(p.last()))
        }
    }
}

/// The components of a path, as `Path::components` yields them for a path
/// without a two-separator prefix: its drive (written in lower case, as
/// drives compare without case) where it has one; the root (written `/`)
/// where what follows starts with a separator, else a `.` where it starts
/// with one; then each segment between separators that is neither empty
/// nor `.`.
pub open spec fn path_components(p: Seq<char>, sep: char) -> Seq<Seq<char>> {
    let (done, cur) = segment_scan(p.skip(drive_len(p, sep)), sep);
    path_head(p, sep) + flush_segment(done, cur)
}

/// The drive, then the root or a leading `.`, of a path.
pub open spec fn path_head(p: Seq<char>, sep: char) -> Seq<Seq<char>> {
    let drive = if has_drive(p, sep) {
        seq![seq![ascii_lower(p[0]), ':']]
    } else {
        Seq::empty()
    };
    let rest = p.skip(drive_len(p, sep));
    drive + if rest.len() > 0 && is_sep(rest[0], sep) {
        seq![seq!['/']]
    } else if rest == seq!['.'] || (rest.len() >= 2 && rest[0] == '.' && is_sep(rest[1], sep)) {
        seq![seq!['.']]
    } else {
        Seq::empty()
    }
}

/// Whether two paths are equal as `PathBuf`s: by their components.
pub open spec fn same_path(a: Seq<char>, b: Seq<char>, sep: char) -> bool {
    path_components(a, sep) == path_components(b, sep)
}

/// The components of a path (see `path_components`).
pub fn components_of(path: &str, sep: char) -> (r: Vec<Vec<char>>)
    ensures
        r@.map_values(|c: Vec<char>| c@) == path_components(path@, sep),
{
    let full = chars_of(path);
    let d: usize = if has_drive_exec(&full, sep) {
        2
    } else {
        0
    };
    let mut p: Vec<char> = Vec::new();
    let mut x: usize = d;
    while x < full.len()
        invariant
            d <= x <= full@.len(),
            d == drive_len(full@, sep),
            p@ == full@.subrange(d as int, x as int),
        decreases full@.len() - x,
    {
        p.push(full[x]);
        x = x + 1;
    }
    assert(p@ =~= full@.skip(d as int));
    let mut out: Vec<Vec<char>> = Vec::new();
    if d == 2 {
        let mut first: Vec<char> = Vec::new();
        first.push(full[0]);
        let mut drive = ascii_lowercase_chars(&first);
        drive.push(':');
        out.push(drive);
        assert(drive@ =~= seq![ascii_lower(full@[0]), ':']);
        assert(out@.map_values(|c: Vec<char>| c@) =~= seq![seq![ascii_lower(full@[0]), ':']]);
    }
    let ghost drive_part = out@.map_values(|c: Vec<char>| c@);
    if p.len() > 0 && is_sep_exec(p[0], sep) {
        let mut root: Vec<char> = Vec::new();
        root.push('/');
        out.push(root);
        assert(out@.map_values(|c: Vec<char>| c@) =~= drive_part + seq![seq!['/']]);
    } else if (p.len() == 1 && p[0] == '.') || (p.len() >= 2 && p[0] == '.' && is_sep_exec(p[1], sep)) {
        let mut dot: Vec<char> = Vec::new();
        dot.push('.');
        out.push(dot);
        assert(out@.map_values(|c: Vec<char>| c@) =~= drive_part + seq![seq!['.']]);
    }
    proof {
        if p@ == seq!['.'] {
            assert(p@.len() == 1 && p@[0] == '.');
        }
        if p@.len() == 1 && p@[0] == '.' {
            assert(p@ =~= seq!['.']);
        }
    }
    let ghost head = out@.map_values(|c: Vec<char>| c@);
    assert(head =~= path_head(full@, sep));
    let mut cur: Vec<char> = Vec::new();
    let mut i: usize = 0;
    while i < p.len()
        invariant
            i <= p@.len(),
            out@.map_values(|c: Vec<char>| c@) == head + segment_scan(p@.take(i as int), sep).0,
            cur@ == segment_scan(p@.take(i as int), sep).1,
        decreases p@.len() - i,
    {
        assert(p@.take(i + 1).drop_last() =~= p@.take(i as int));
        assert(p@.take(i + 1).last() == p@[i as int]);
        let c = p[i];
        if is_sep_exec(c, sep) {
            let dot = cur.len() == 1 && cur[0] == '.';
            proof {
                if cur@ == seq!['.'] {
                    assert(cur@.len() == 1 && cur@[0] == '.');
                }
                if dot {
                    assert(cur@ =~= seq!['.']);
                }
            }
            if cur.len() > 0 && !dot {
                let ghost before = out@.map_values(|c: Vec<char>| c@);
                out.push(cur);
                assert(out@.map_values(|c: Vec<char>| c@) =~= before.push(
                    segment_scan(p@.take(i as int), sep).1,
                ));
            }
            cur = Vec::new();
            assert(cur@ =~= Seq::<char>::empty());
        } else {
            cur.push(c);
        }
        i = i + 1;
    }
    assert(p@.take(p@.len() as int) =~= p@);
    let dot = cur.len() == 1 && cur[0] == '.';
    proof {
        if cur@ == seq!['.'] {
            assert(cur@.len() == 1 && cur@[0] == '.');
        }
        if dot {
            assert(cur@ =~= seq!['.']);
        }
    }
    if cur.len() > 0 && !dot {
        let ghost before = out@.map_values(|c: Vec<char>| c@);
        out.push(cur);
        assert(out@.map_values(|c: Vec<char>| c@) =~= before.push(segment_scan(p@, sep).1));
    }
    proof {
        let (done, last) = segment_scan(p@, sep);
        assert(out@.map_values(|c: Vec<char>| c@) =~= head + flush_segment(done, last));
    }
    out
}

} // verus!
