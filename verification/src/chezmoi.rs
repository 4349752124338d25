//! Parsing of chezmoi command output and comparison of dotfiles remotes.
use vstd::prelude::*;

use crate::text::{
    chars_of, copy_range, ends_with, first_index_from, has_prefix, has_suffix, join_path,
    lemma_first_index_found, lemma_first_index_none, lemma_strip_end_take, lines, path_join,
    ascii_lowercase, is_ascii_text, is_ws, split_lines, starts_with, string_of, strip_end_char, trim, trim_char, trim_chars,
    trim_end, trim_matches_char, trim_start, to_lowercase, unicode_lowercase,
};

verus! {

#[derive(Debug, Clone, Copy, PartialEq, Eq, Structural)]
pub enum FileStatus {
    Modified,
    Deleted,
}

/// A managed file that differs from its source state.
#[derive(Debug, Clone)]
pub struct ModifiedFile {
    pub path: String,
    pub status: FileStatus,
}

/// Outcome of removing managed dotfiles from disk.
#[derive(Debug, Clone, Default)]
pub struct RemoveFilesReport {
    pub removed: Vec<String>,
    pub skipped: Vec<String>,
}

// ── chezmoi managed ─────────────────────────────────────────────────────────

/// Paths listed by `chezmoi managed`: each non-blank trimmed line, resolved
/// against `home` (absolute lines are kept as they are).
pub open spec fn managed_files_of(ls: Seq<Seq<char>>, home: Seq<char>) -> Seq<Seq<char>>
    decreases ls.len(),
{
    if ls.len() == 0 {
        Seq::empty()
    } else {
        let prev = managed_files_of(ls.drop_last(), home);
        let t = trim(ls.last());
        if t.len() == 0 {
            prev
        } else {
            prev.push(path_join(home, t))
        }
    }
}

/// Parse `chezmoi managed --include=files --path-style=absolute` output.
/// Handles both absolute and HOME-relative paths.
pub fn parse_managed_files(raw: &str, home: &str) -> (res: Vec<String>)
    ensures
        res@.map_values(|p: String| p@) == managed_files_of(lines(raw@), home@),
{
    let text = chars_of(raw);
    let home_chars = chars_of(home);
    let ls = split_lines(&text);
    let ghost all = ls@.map_values(|l: Vec<char>| l@);
    let mut out: Vec<String> = Vec::new();
    let mut i: usize = 0;
    while i < ls.len()
        invariant
            0 <= i <= ls.len(),
            all == ls@.map_values(|l: Vec<char>| l@),
            out@.map_values(|p: String| p@) == managed_files_of(all.take(i as int), home_chars@),
        decreases ls.len() - i,
    {
        let t = trim_chars(&ls[i]);
        proof {
            assert(all.take(i + 1).drop_last() =~= all.take(i as int));
            assert(all.take(i + 1).last() == ls@[i as int]@);
        }
        if t.len() > 0 {
            let p = join_path(&home_chars, &t);
            let s = string_of(&p);
            out.push(s);
            proof {
                assert(out@.map_values(|p: String| p@) =~= managed_files_of(
                    all.take(i as int),
                    home_chars@,
                ).push(s@));
            }
        }
        i = i + 1;
    }
    assert(all.take(ls.len() as int) =~= all);
    out
}

// ── chezmoi status ──────────────────────────────────────────────────────────

/// Number of bytes of the UTF-8 encoding of `c`.
pub open spec fn utf8_width(c: char) -> nat {
    let n = c as u32;
    if n < 0x80 {
        1
    } else if n < 0x800 {
        2
    } else if n < 0x10000 {
        3
    } else {
        4
    }
}

/// Number of bytes of the UTF-8 encoding of `s`.
pub open spec fn utf8_len(s: Seq<char>) -> nat
    decreases s.len(),
{
    if s.len() == 0 {
        0
    } else {
        utf8_width(s[0]) + utf8_len(s.drop_first())
    }
}

/// Number of leading characters whose encoding covers the first `bytes` bytes.
pub open spec fn chars_in_bytes(s: Seq<char>, bytes: int) -> int
    decreases s.len(),
{
    if bytes <= 0 || s.len() == 0 {
        0
    } else {
        1 + chars_in_bytes(s.drop_first(), bytes - utf8_width(s[0]))
    }
}

/// A status line can be sliced at byte 3: it is shorter than 3 bytes, or
/// byte 3 falls on a character boundary.
pub open spec fn status_line_sliceable(line: Seq<char>) -> bool {
    utf8_len(line) < 3 || utf8_len(line.take(chars_in_bytes(line, 3))) == 3
}

/// The entry a `chezmoi status` line describes, if any: lines of at least
/// three bytes whose first character is `M` or `D`, with the trimmed rest of
/// the line (from byte 3 on) resolved against `home`.
pub open spec fn status_entry(line: Seq<char>, home: Seq<char>) -> Option<(Seq<char>, FileStatus)> {
    if utf8_len(line) < 3 {
        None
    } else {
        let path = path_join(home, trim(line.skip(chars_in_bytes(line, 3))));
        if line[0] == 'M' {
            Some((path, FileStatus::Modified))
        } else if line[0] == 'D' {
            Some((path, FileStatus::Deleted))
        } else {
            None
        }
    }
}

pub open spec fn status_entries(ls: Seq<Seq<char>>, home: Seq<char>) -> Seq<(Seq<char>, FileStatus)>
    decreases ls.len(),
{
    if ls.len() == 0 {
        Seq::empty()
    } else {
        let prev = status_entries(ls.drop_last(), home);
        match status_entry(ls.last(), home) {
            Some(e) => prev.push(e),
            None => prev,
        }
    }
}

/// Every entry of `chezmoi status` resolves its path against `home`, the
/// same way whatever its status: with an absolute `home`, every path of the
/// result is absolute; and a `D` line gives the path its `M` twin gives.
pub proof fn status_paths_law(ls: Seq<Seq<char>>, home: Seq<char>, line: Seq<char>)
    ensures
        home.len() > 0 && home[0] == '/' ==> forall|i: int|
            0 <= i < status_entries(ls, home).len() ==> (#[trigger] status_entries(ls, home)[i]).0.len() > 0
                && status_entries(ls, home)[i].0[0] == '/',
        line.len() > 0 && line[0] == 'D' && utf8_len(line) >= 3 ==> exists|p: Seq<char>|
            status_entry(line, home) == Some((p, FileStatus::Deleted)) && #[trigger] status_entry(line.update(0, 'M'), home)
                == Some((p, FileStatus::Modified)),
    decreases ls.len(),
{
    if ls.len() > 0 {
        status_paths_law(ls.drop_last(), home, line);
        let prev = status_entries(ls.drop_last(), home);
        let e = status_entry(ls.last(), home);
        if home.len() > 0 && home[0] == '/' {
            if e is Some {
                let l = ls.last();
                let t = trim(l.skip(chars_in_bytes(l, 3)));
                let pair = e->0;
                assert(pair.0 == path_join(home, t));
                lemma_join_absolute(home, t);
                assert(status_entries(ls, home) == prev.push(pair));
                assert forall|i: int| 0 <= i < status_entries(ls, home).len() implies (#[trigger] status_entries(
                    ls,
                    home,
                )[i]).0.len() > 0 && status_entries(ls, home)[i].0[0] == '/' by {
                    if i < prev.len() {
                        assert(status_entries(ls, home)[i] == prev[i]);
                    }
                }
            } else {
                assert(status_entries(ls, home) == prev);
            }
        }
    }
    if line.len() > 0 && line[0] == 'D' {
        let m = line.update(0, 'M');
        lemma_utf8_len_update_ascii(line, 'M');
        lemma_chars_in_bytes_update_ascii(line, 'M', 3);
        assert(m.skip(chars_in_bytes(m, 3)) =~= line.skip(chars_in_bytes(line, 3))) by {
            lemma_chars_in_bytes_positive(line, 3);
            lemma_chars_in_bytes_le_len(line, 3);
        }
        if utf8_len(line) >= 3 {
            let p = path_join(home, trim(line.skip(chars_in_bytes(line, 3))));
            assert(m[0] == 'M');
            assert(status_entry(m, home) == Some((p, FileStatus::Modified)));
        }
    }
}

/// Replacing the first character by another one-byte character keeps the
/// encoded length.
proof fn lemma_utf8_len_update_ascii(s: Seq<char>, c: char)
    requires
        s.len() > 0,
        (s[0] as u32) < 0x80,
        (c as u32) < 0x80,
    ensures
        utf8_len(s.update(0, c)) == utf8_len(s),
{
    assert(s.update(0, c).drop_first() =~= s.drop_first());
}

/// Replacing the first character by another one-byte character keeps how
/// many characters cover the first bytes.
proof fn lemma_chars_in_bytes_update_ascii(s: Seq<char>, c: char, bytes: int)
    requires
        s.len() > 0,
        (s[0] as u32) < 0x80,
        (c as u32) < 0x80,
    ensures
        chars_in_bytes(s.update(0, c), bytes) == chars_in_bytes(s, bytes),
{
    assert(s.update(0, c).drop_first() =~= s.drop_first());
}

proof fn lemma_chars_in_bytes_nonneg(s: Seq<char>, bytes: int)
    ensures
        chars_in_bytes(s, bytes) >= 0,
    decreases s.len(),
{
    if bytes > 0 && s.len() > 0 {
        lemma_chars_in_bytes_nonneg(s.drop_first(), bytes - utf8_width(s[0]));
    }
}

proof fn lemma_chars_in_bytes_le_len(s: Seq<char>, bytes: int)
    ensures
        chars_in_bytes(s, bytes) <= s.len(),
    decreases s.len(),
{
    if bytes > 0 && s.len() > 0 {
        lemma_chars_in_bytes_le_len(s.drop_first(), bytes - utf8_width(s[0]));
    }
}

/// At least one character covers a positive number of bytes.
proof fn lemma_chars_in_bytes_positive(s: Seq<char>, bytes: int)
    requires
        s.len() > 0,
        bytes > 0,
    ensures
        chars_in_bytes(s, bytes) >= 1,
{
    lemma_chars_in_bytes_nonneg(s.drop_first(), bytes - utf8_width(s[0]));
}

/// A path resolved against an absolute base is absolute.
proof fn lemma_join_absolute(base: Seq<char>, rel: Seq<char>)
    requires
        base.len() > 0,
        base[0] == '/',
    ensures
        path_join(base, rel).len() > 0,
        path_join(base, rel)[0] == '/',
{
    if !(rel.len() > 0 && rel[0] == '/') {
        if base.last() == '/' {
            assert((base + rel)[0] == base[0]);
        } else {
            assert((base + seq!['/'] + rel)[0] == base[0]);
        }
    }
}

pub open spec fn modified_view(m: ModifiedFile) -> (Seq<char>, FileStatus) {
    (m.path@, m.status)
}

pub proof fn lemma_utf8_len_take_step(s: Seq<char>, k: int)
    requires
        0 <= k < s.len(),
    ensures
        utf8_len(s.take(k + 1)) == utf8_len(s.take(k)) + utf8_width(s[k]),
    decreases k,
{
    if k > 0 {
        lemma_utf8_len_take_step(s.drop_first(), k - 1);
        assert(s.take(k + 1).drop_first() =~= s.drop_first().take(k));
        assert(s.take(k).drop_first() =~= s.drop_first().take(k - 1));
    } else {
        assert(s.take(1).drop_first() =~= Seq::<char>::empty());
        assert(s.take(0) =~= Seq::<char>::empty());
    }
}

/// `chars_in_bytes` counts characters until their widths reach `bytes`.
pub proof fn lemma_chars_in_bytes(s: Seq<char>, bytes: int, k: int)
    requires
        0 <= k <= s.len(),
        utf8_len(s.take(k)) >= bytes,
        k == 0 || utf8_len(s.take(k - 1)) < bytes,
    ensures
        chars_in_bytes(s, bytes) == k,
    decreases k,
{
    if k > 0 {
        assert(s.take(k - 1).len() == k - 1);
        let t = s.drop_first();
        assert(s.take(k).drop_first() =~= t.take(k - 1));
        if k > 1 {
            assert(s.take(k - 1).drop_first() =~= t.take(k - 2));
        }
        assert(s.take(k)[0] == s[0]);
        if k > 1 {
            assert(s.take(k - 1)[0] == s[0]);
        } else {
            assert(s.take(0) =~= Seq::<char>::empty());
        }
        lemma_chars_in_bytes(t, bytes - utf8_width(s[0]), k - 1);
    }
}

pub proof fn lemma_utf8_len_bound(s: Seq<char>, k: int)
    requires
        0 <= k <= s.len(),
    ensures
        utf8_len(s.take(k)) <= utf8_len(s),
    decreases s.len() - k,
{
    if k < s.len() {
        lemma_utf8_len_take_step(s, k);
        lemma_utf8_len_bound(s, k + 1);
    } else {
        assert(s.take(k) =~= s);
    }
}

pub fn char_utf8_width(c: char) -> (w: usize)
    ensures
        w == utf8_width(c),
{
    let n: u32 = c as u32;
    if n < 0x80 {
        1
    } else if n < 0x800 {
        2
    } else if n < 0x10000 {
        3
    } else {
        4
    }
}

/// Walks `line` until its first three bytes are covered. Returns the number
/// of bytes covered (capped at the line's byte length, at most 6) and the
/// number of characters consumed.
pub fn cover_three_bytes(line: &Vec<char>) -> (r: (usize, usize))
    ensures
        r.1 <= line.len(),
        r.0 == utf8_len(line@.take(r.1 as int)),
        r.1 == chars_in_bytes(line@, 3),
        r.0 < 3 ==> r.0 == utf8_len(line@),
{
    let mut bytes: usize = 0;
    let mut k: usize = 0;
    assert(line@.take(0) =~= Seq::<char>::empty());
    while k < line.len() && bytes < 3
        invariant
            0 <= k <= line.len(),
            bytes == utf8_len(line@.take(k as int)),
            bytes <= 6,
            k == 0 || utf8_len(line@.take(k - 1)) < 3,
        decreases line.len() - k,
    {
        proof {
            lemma_utf8_len_take_step(line@, k as int);
        }
        bytes = bytes + char_utf8_width(line[k]);
        k = k + 1;
    }
    proof {
        if bytes < 3 {
            assert(k == line.len());
            assert(line@.take(k as int) =~= line@);
            if k > 0 {
                lemma_utf8_len_bound(line@, (k - 1) as int);
            }
            lemma_chars_in_bytes_all(line@, 3);
        } else {
            lemma_chars_in_bytes(line@, 3, k as int);
        }
    }
    (bytes, k)
}

/// When the whole sequence is narrower than `bytes`, all characters count.
pub proof fn lemma_chars_in_bytes_all(s: Seq<char>, bytes: int)
    requires
        utf8_len(s) < bytes,
    ensures
        chars_in_bytes(s, bytes) == s.len(),
    decreases s.len(),
{
    if s.len() > 0 {
        lemma_chars_in_bytes_all(s.drop_first(), bytes - utf8_width(s[0]));
    }
}

/// Whether every line of `raw` can be sliced at byte 3 (the condition under
/// which `parse_status_output` is defined).
pub fn status_output_sliceable(raw: &str) -> (b: bool)
    ensures
        b == (forall|i: int| 0 <= i < lines(raw@).len() ==> status_line_sliceable(#[trigger] lines(raw@)[i])),
{
    let text = chars_of(raw);
    let ls = split_lines(&text);
    let ghost all = ls@.map_values(|l: Vec<char>| l@);
    let mut i: usize = 0;
    while i < ls.len()
        invariant
            0 <= i <= ls.len(),
            all == ls@.map_values(|l: Vec<char>| l@),
            all == lines(raw@),
            forall|j: int| 0 <= j < i ==> status_line_sliceable(#[trigger] all[j]),
        decreases ls.len() - i,
    {
        let (bytes, k) = cover_three_bytes(&ls[i]);
        assert(all[i as int] == ls@[i as int]@);
        proof {
            lemma_utf8_len_bound(ls@[i as int]@, k as int);
        }
        if bytes > 3 {
            assert(!status_line_sliceable(all[i as int]));
            return false;
        }
        i = i + 1;
    }
    true
}

/// Parse `chezmoi status` output into the list of locally-modified files.
pub fn parse_status_output(raw: &str, home: &str) -> (res: Vec<ModifiedFile>)
    requires
        forall|i: int| 0 <= i < lines(raw@).len() ==> status_line_sliceable(#[trigger] lines(raw@)[i]),
    ensures
        res@.map_values(|m: ModifiedFile| modified_view(m)) == status_entries(lines(raw@), home@),
{
    let text = chars_of(raw);
    let home_chars = chars_of(home);
    let ls = split_lines(&text);
    let ghost all = ls@.map_values(|l: Vec<char>| l@);
    let mut out: Vec<ModifiedFile> = Vec::new();
    let mut i: usize = 0;
    while i < ls.len()
        invariant
            0 <= i <= ls.len(),
            all == ls@.map_values(|l: Vec<char>| l@),
            all == lines(raw@),
            forall|j: int| 0 <= j < all.len() ==> status_line_sliceable(#[trigger] all[j]),
            out@.map_values(|m: ModifiedFile| modified_view(m)) == status_entries(all.take(i as int), home_chars@),
        decreases ls.len() - i,
    {
        let line = &ls[i];
        proof {
            assert(all.take(i + 1).drop_last() =~= all.take(i as int));
            assert(all.take(i + 1).last() == line@);
            assert(status_line_sliceable(all[i as int]));
        }
        let (bytes, k) = cover_three_bytes(line);
        proof {
            lemma_utf8_len_bound(line@, k as int);
        }
        if bytes >= 3 {
            let status_char = line[0];
            if status_char == 'M' || status_char == 'D' {
                let rest = copy_range(line, k, line.len());
                let t = trim_chars(&rest);
                let p = join_path(&home_chars, &t);
                let status = if status_char == 'M' {
                    FileStatus::Modified
                } else {
                    FileStatus::Deleted
                };
                let entry = ModifiedFile { path: string_of(&p), status };
                proof {
                    assert(rest@ =~= line@.skip(k as int));
                }
                out.push(entry);
                proof {
                    assert(out@.map_values(|m: ModifiedFile| modified_view(m)) =~= status_entries(
                        all.take(i as int),
                        home_chars@,
                    ).push(modified_view(entry)));
                }
            } else {
                assert(status_entry(line@, home_chars@) is None);
            }
        } else {
            assert(status_entry(line@, home_chars@) is None);
        }
        i = i + 1;
    }
    assert(all.take(ls.len() as int) =~= all);
    out
}

// ── chezmoi source-path ─────────────────────────────────────────────────────

/// The path `chezmoi source-path` reported: trimmed, surrounding double
/// quotes removed, trimmed again.
pub open spec fn source_path_text(raw: Seq<char>) -> Seq<char> {
    trim(trim_char(trim(raw), '"'))
}

/// Parse the raw stdout of `chezmoi source-path` into a path.
/// Handles both quoted and unquoted output, trims whitespace.
/// Returns None for empty or whitespace-only output.
pub fn parse_source_path_output(raw: &str) -> (res: Option<String>)
    ensures
        source_path_text(raw@).len() == 0 ==> res is None,
        source_path_text(raw@).len() > 0 ==> res is Some && res->0@ == source_path_text(raw@),
{
    let text = chars_of(raw);
    let a = trim_chars(&text);
    let b = trim_matches_char(&a, '"');
    let c = trim_chars(&b);
    if c.len() == 0 {
        None
    } else {
        Some(string_of(&c))
    }
}

// ── Remote URL comparison ───────────────────────────────────────────────────

/// `s` with the first occurrence of `a` replaced by `b` (`replacen(a, b, 1)`).
pub open spec fn replace_first(s: Seq<char>, a: char, b: char) -> Seq<char> {
    match first_index_from(s, a, 0) {
        Some(i) => s.update(i, b),
        None => s,
    }
}

/// `s` with every trailing occurrence of `p` removed (`trim_end_matches(p)`).
pub open spec fn strip_suffix_all(s: Seq<char>, p: Seq<char>) -> Seq<char>
    decreases s.len(),
{
    if p.len() > 0 && has_suffix(s, p) {
        strip_suffix_all(s.take(s.len() - p.len()), p)
    } else {
        s
    }
}

/// A remote URL reduced to host and path: scheme (`git@`, `https://`,
/// `http://`) removed, the scp-style `:` turned into `/`, trailing `.git`
/// and `/` removed. Lowercasing is applied on top of this.
pub open spec fn remote_core(url: Seq<char>) -> Seq<char> {
    let u = trim(url);
    let w = if has_prefix(u, "git@"@) {
        replace_first(u.skip("git@"@.len() as int), ':', '/')
    } else if has_prefix(u, "https://"@) {
        u.skip("https://"@.len() as int)
    } else if has_prefix(u, "http://"@) {
        u.skip("http://"@.len() as int)
    } else {
        u
    };
    strip_end_char(strip_suffix_all(w, ".git"@), '/')
}

/// Normal form of a remote URL.
pub open spec fn normalized_remote(url: Seq<char>) -> Seq<char> {
    unicode_lowercase(remote_core(url))
}

fn replace_first_char(v: &mut Vec<char>, a: char, b: char)
    ensures
        final(v)@ == replace_first(old(v)@, a, b),
{
    let mut i: usize = 0;
    while i < v.len()
        invariant
            0 <= i <= v.len(),
            v@ == old(v)@,
            forall|k: int| 0 <= k < i ==> v@[k] != a,
        decreases v.len() - i,
    {
        if v[i] == a {
            proof {
                lemma_first_index_found(v@, a, 0, i as int);
            }
            v.set(i, b);
            return;
        }
        i = i + 1;
    }
    proof {
        lemma_first_index_none(v@, a, 0);
    }
}

fn strip_suffix_repeatedly(v: &Vec<char>, p: &Vec<char>) -> (r: Vec<char>)
    requires
        p.len() > 0,
    ensures
        r@ == strip_suffix_all(v@, p@),
{
    let mut cur = copy_range(v, 0, v.len());
    assert(cur@ =~= v@);
    while ends_with(&cur, p)
        invariant
            p.len() > 0,
            strip_suffix_all(cur@, p@) == strip_suffix_all(v@, p@),
        decreases cur.len(),
    {
        let n = cur.len() - p.len();
        cur = copy_range(&cur, 0, n);
    }
    cur
}

fn strip_trailing_char(v: &Vec<char>, c: char) -> (r: Vec<char>)
    ensures
        r@ == strip_end_char(v@, c),
{
    let mut j: usize = v.len();
    assert(v@.take(v@.len() as int) =~= v@);
    while j > 0 && v[j - 1] == c
        invariant
            0 <= j <= v.len(),
            strip_end_char(v@, c) == strip_end_char(v@.take(j as int), c),
        decreases j,
    {
        proof {
            lemma_strip_end_take(v@, c, j as int);
        }
        j = j - 1;
    }
    let r = copy_range(v, 0, j);
    assert(r@ =~= v@.take(j as int));
    r
}

fn remote_core_of(url: &str) -> (r: Vec<char>)
    ensures
        r@ == remote_core(url@),
{
    let text = chars_of(url);
    let u = trim_chars(&text);
    let git_at = chars_of("git@");
    let https = chars_of("https://");
    let http = chars_of("http://");
    let w = if starts_with(&u, &git_at) {
        let mut rest = copy_range(&u, git_at.len(), u.len());
        replace_first_char(&mut rest, ':', '/');
        rest
    } else if starts_with(&u, &https) {
        copy_range(&u, https.len(), u.len())
    } else if starts_with(&u, &http) {
        copy_range(&u, http.len(), u.len())
    } else {
        copy_range(&u, 0, u.len())
    };
    proof {
        assert(u@.subrange(git_at@.len() as int, u@.len() as int) =~= u@.skip(git_at@.len() as int));
        assert(u@.subrange(https@.len() as int, u@.len() as int) =~= u@.skip(https@.len() as int));
        assert(u@.subrange(http@.len() as int, u@.len() as int) =~= u@.skip(http@.len() as int));
        assert(u@.subrange(0, u@.len() as int) =~= u@);
    }
    let dot_git = chars_of(".git");
    proof {
        reveal_strlit(".git");
    }
    let x = strip_suffix_repeatedly(&w, &dot_git);
    strip_trailing_char(&x, '/')
}

/// Normal form used to compare remote URLs.
pub fn normalize_remote(url: &str) -> (r: String)
    ensures
        r@ == normalized_remote(url@),
        is_ascii_text(remote_core(url@)) ==> r@ == ascii_lowercase(remote_core(url@)),
{
    let core = remote_core_of(url);
    let s = string_of(&core);
    to_lowercase(s.as_str())
}

/// Whether two remote URLs name the same repository, regardless of scheme
/// (`git@host:path` vs `https://host/path`), trailing `.git` / `/`, and case:
/// for ASCII remotes, exactly when their cores agree up to ASCII case.
pub fn remotes_match(a: &str, b: &str) -> (r: bool)
    ensures
        r == (normalized_remote(a@) == normalized_remote(b@)),
        is_ascii_text(remote_core(a@)) && is_ascii_text(remote_core(b@)) ==> (r <==> ascii_lowercase(remote_core(a@))
            == ascii_lowercase(remote_core(b@))),
{
    let x = normalize_remote(a);
    let y = normalize_remote(b);
    x.eq(&y)
}

/// `remotes_match` is an equivalence relation on remote URLs.
pub proof fn remotes_match_is_equivalence(a: Seq<char>, b: Seq<char>, c: Seq<char>)
    ensures
        normalized_remote(a) == normalized_remote(a),
        normalized_remote(a) == normalized_remote(b) ==> normalized_remote(b) == normalized_remote(a),
        normalized_remote(a) == normalized_remote(b) && normalized_remote(b) == normalized_remote(c)
            ==> normalized_remote(a) == normalized_remote(c),
{
}


// ── Laws of remote comparison ───────────────────────────────────────────────

/// A host without `:` (the scp-style separator of `git@host:path`).
pub open spec fn plain_host(host: Seq<char>) -> bool {
    forall|i: int| 0 <= i < host.len() ==> host[i] != ':'
}

/// The three spellings of one repository: `git@host:path`,
/// `https://host/path` and `http://host/path`.
pub open spec fn remote_forms(host: Seq<char>, path: Seq<char>) -> Seq<Seq<char>> {
    seq!["git@"@ + host + ":"@ + path, "https://"@ + host + "/"@ + path, "http://"@ + host + "/"@ + path]
}

/// What is left of `host/path` once trailing `.git` and `/` are removed.
pub open spec fn remote_tail(w: Seq<char>) -> Seq<char> {
    strip_end_char(strip_suffix_all(w, ".git"@), '/')
}

/// Trailing whitespace is taken from the end only: behind a character that
/// is not whitespace, it is the tail's own.
proof fn lemma_trim_end_behind(a: Seq<char>, b: Seq<char>)
    requires
        a.len() > 0,
        !is_ws(a.last()),
    ensures
        trim_end(a + b) == a + trim_end(b),
    decreases b.len(),
{
    if b.len() == 0 {
        assert(a + b =~= a);
        assert(a + trim_end(b) =~= a);
    } else if is_ws(b.last()) {
        assert((a + b).last() == b.last());
        assert((a + b).drop_last() =~= a + b.drop_last());
        lemma_trim_end_behind(a, b.drop_last());
    } else {
        assert((a + b).last() == b.last());
    }
}

proof fn lemma_trim_end_spaces(t: Seq<char>, b: Seq<char>)
    requires
        forall|i: int| 0 <= i < b.len() ==> is_ws(#[trigger] b[i]),
    ensures
        trim_end(t + b) == trim_end(t),
    decreases b.len(),
{
    if b.len() == 0 {
        assert(t + b =~= t);
    } else {
        assert((t + b).last() == b.last());
        assert((t + b).drop_last() =~= t + b.drop_last());
        lemma_trim_end_spaces(t, b.drop_last());
    }
}

proof fn lemma_trim_start_spaces(a: Seq<char>, t: Seq<char>)
    requires
        forall|i: int| 0 <= i < a.len() ==> is_ws(#[trigger] a[i]),
        t.len() > 0,
        !is_ws(t[0]),
    ensures
        trim_start(a + t) == t,
    decreases a.len(),
{
    if a.len() == 0 {
        assert(a + t =~= t);
    } else {
        assert((a + t)[0] == a[0]);
        assert((a + t).drop_first() =~= a.drop_first() + t);
        lemma_trim_start_spaces(a.drop_first(), t);
    }
}

/// Each spelling reduces to `host/path`, the path without trailing
/// whitespace, then without trailing `.git` and `/`.
proof fn lemma_remote_forms_core(host: Seq<char>, path: Seq<char>)
    requires
        plain_host(host),
    ensures
        forall|i: int|
            0 <= i < 3 ==> remote_core(#[trigger] remote_forms(host, path)[i]) == remote_tail(host + "/"@ + trim_end(path)),
{
    reveal_strlit("git@");
    reveal_strlit(":");
    reveal_strlit("/");
    reveal_strlit("https://");
    reveal_strlit("http://");
    let tp = trim_end(path);
    let w = host + "/"@ + tp;
    let gp = "git@"@ + host + ":"@;
    let hsp = "https://"@ + host + "/"@;
    let hp = "http://"@ + host + "/"@;
    let g = gp + path;
    let hs = hsp + path;
    let h = hp + path;
    assert(g =~= "git@"@ + host + ":"@ + path);
    assert(hs =~= "https://"@ + host + "/"@ + path);
    assert(h =~= "http://"@ + host + "/"@ + path);
    assert(g[0] == 'g');
    assert(hs[0] == 'h');
    assert(h[0] == 'h');
    assert(trim_start(g) == g);
    assert(trim_start(hs) == hs);
    assert(trim_start(h) == h);
    assert(gp.last() == ':');
    assert(hsp.last() == '/');
    assert(hp.last() == '/');
    lemma_trim_end_behind(gp, path);
    lemma_trim_end_behind(hsp, path);
    lemma_trim_end_behind(hp, path);
    let gu = gp + tp;
    let hsu = hsp + tp;
    let hu = hp + tp;
    assert(trim(g) == gu);
    assert(trim(hs) == hsu);
    assert(trim(h) == hu);
    // git@host:path
    assert(gu.take(4) =~= "git@"@);
    let gr = gu.skip(4);
    assert(gr =~= host + ":"@ + tp);
    assert forall|k: int| 0 <= k < host.len() implies gr[k] != ':' by {
        assert(gr[k] == host[k]);
    }
    lemma_first_index_found(gr, ':', 0, host.len() as int);
    assert(gr.update(host.len() as int, '/') =~= w);
    // https://host/path
    assert(hsu[0] == 'h');
    assert(hsu.take(4)[0] != "git@"@[0]);
    assert(!has_prefix(hsu, "git@"@));
    assert(hsu.take(8) =~= "https://"@);
    assert(hsu.skip(8) =~= w);
    // http://host/path
    assert(hu[0] == 'h');
    assert(hu.take(4)[0] != "git@"@[0]);
    assert(!has_prefix(hu, "git@"@));
    if hu.len() >= 8 {
        assert(hu.take(8)[4] != "https://"@[4]);
    }
    assert(!has_prefix(hu, "https://"@));
    assert(hu.take(7) =~= "http://"@);
    assert(hu.skip(7) =~= w);
    assert(remote_forms(host, path)[0] == g);
    assert(remote_forms(host, path)[1] == hs);
    assert(remote_forms(host, path)[2] == h);
}

/// A remote names the same repository whichever scheme spells it:
/// `git@host:path`, `https://host/path` and `http://host/path` match, for
/// every host without `:` and every path.
pub proof fn remote_schemes_agree(host: Seq<char>, path: Seq<char>)
    requires
        plain_host(host),
    ensures
        forall|i: int, j: int|
            0 <= i < 3 && 0 <= j < 3 ==> normalized_remote(#[trigger] remote_forms(host, path)[i]) == normalized_remote(
                #[trigger] remote_forms(host, path)[j],
            ),
{
    lemma_remote_forms_core(host, path);
}

/// A trailing `.git` on the path is ignored in every spelling; so is a
/// trailing `/`, on a path that does not already end in `.git` (the path
/// itself not ending in whitespace).
pub proof fn remote_suffixes_ignored(host: Seq<char>, path: Seq<char>)
    requires
        plain_host(host),
        trim_end(path) == path,
    ensures
        forall|i: int|
            0 <= i < 3 ==> normalized_remote(#[trigger] remote_forms(host, path + ".git"@)[i]) == normalized_remote(
                remote_forms(host, path)[i],
            ),
        !has_suffix(path, ".git"@) ==> forall|i: int|
            0 <= i < 3 ==> normalized_remote(#[trigger] remote_forms(host, path + "/"@)[i]) == normalized_remote(
                remote_forms(host, path)[i],
            ),
{
    reveal_strlit(".git");
    reveal_strlit("/");
    let w = host + "/"@ + path;
    lemma_remote_forms_core(host, path);
    // `.git` appended
    let pg = path + ".git"@;
    assert(pg.last() == 't');
    assert(trim_end(pg) == pg);
    lemma_remote_forms_core(host, pg);
    let wg = host + "/"@ + pg;
    assert(wg =~= w + ".git"@);
    assert(has_suffix(wg, ".git"@)) by {
        assert(wg.skip(wg.len() - 4) =~= ".git"@);
    }
    assert(wg.take(wg.len() - 4) =~= w);
    assert(strip_suffix_all(wg, ".git"@) == strip_suffix_all(w, ".git"@));
    // `/` appended
    if !has_suffix(path, ".git"@) {
        let ps = path + "/"@;
        assert(ps.last() == '/');
        assert(trim_end(ps) == ps);
        lemma_remote_forms_core(host, ps);
        let ws = host + "/"@ + ps;
        assert(ws =~= w + "/"@);
        assert(!has_suffix(ws, ".git"@)) by {
            if ws.len() >= 4 {
                assert(ws.skip(ws.len() - 4)[3] == '/');
            }
        }
        assert(ws.drop_last() =~= w);
        assert(strip_end_char(ws, '/') == strip_end_char(w, '/'));
        assert(!has_suffix(w, ".git"@)) by {
            if has_suffix(w, ".git"@) {
                if path.len() >= 4 {
                    assert(w.skip(w.len() - 4) =~= path.skip(path.len() - 4));
                } else {
                    let k = 3 - path.len();
                    assert(w.skip(w.len() - 4)[k] == '/');
                    assert(".git"@[k] != '/');
                }
            }
        }
    }
}

/// Whitespace around a remote is ignored, in every spelling, whatever the
/// host and path.
pub proof fn remote_whitespace_ignored(host: Seq<char>, path: Seq<char>, before: Seq<char>, after: Seq<char>)
    requires
        forall|i: int| 0 <= i < before.len() ==> is_ws(#[trigger] before[i]),
        forall|i: int| 0 <= i < after.len() ==> is_ws(#[trigger] after[i]),
    ensures
        forall|i: int|
            0 <= i < 3 ==> normalized_remote(before + #[trigger] remote_forms(host, path)[i] + after) == normalized_remote(
                remote_forms(host, path)[i],
            ),
{
    reveal_strlit("git@");
    reveal_strlit("https://");
    reveal_strlit("http://");
    assert forall|i: int| 0 <= i < 3 implies normalized_remote(before + #[trigger] remote_forms(host, path)[i] + after)
        == normalized_remote(remote_forms(host, path)[i]) by {
        let u = remote_forms(host, path)[i];
        assert(u.len() > 0 && !is_ws(u[0]));
        assert(trim_start(u) == u);
        assert(before + u + after =~= before + (u + after));
        lemma_trim_start_spaces(before, u + after);
        lemma_trim_end_spaces(u, after);
        assert(trim(before + u + after) == trim(u));
    }
}

} // verus!
