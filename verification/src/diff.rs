//! Changed line ranges from a unified diff against `HEAD`.

use vstd::prelude::*;
use crate::path::{lemma_path_order, path_compare, path_order};
use crate::text::{
    char_from, chars_of, is_whitespace, lemma_char_from, line_ranges, lines, parse_usize, parse_usize_range,
    range_is_str, starts_with, starts_with_str, whitespace, copy_range, char_from_exec,
};
use vstd::string::StrSliceExecFns;
use vstd::utf8::{decode_utf8, valid_utf8};
use crate::text::{all_digits, digits_value, lemma_digits_value_nonneg, trim, trim_bounds};

verus! {

/// A closed range of lines, `start..=end`.
#[derive(Clone, Copy, Debug, PartialEq, Eq, Structural)]
pub struct LineRange {
    pub start: usize,
    pub end: usize,
}

impl LineRange {
    /// Whether the range meets the closed range `start..=end`.
    pub fn intersects(self, start: usize, end: usize) -> (r: bool)
        ensures
            r == (self.start <= end && start <= self.end),
    {
        self.start <= end && start <= self.end
    }
}

/// The changed ranges of one file.
#[derive(Clone, Debug)]
pub struct FileSpans {
    pub path: String,
    pub ranges: Vec<LineRange>,
}

/// Changed ranges per file, ordered by path (`Path` order), one entry per
/// path.
#[derive(Clone, Debug)]
pub struct DiffSpans {
    pub files: Vec<FileSpans>,
}

/// What a diff against `HEAD` changed: the repository root, the changed
/// line ranges, the untracked files, and whether there was nothing to diff
/// against (no repository or no `HEAD`), in which case everything counts as
/// changed.
#[derive(Clone, Debug)]
pub struct ChangedFiles {
    pub repo_root: String,
    pub spans: DiffSpans,
    pub untracked: Vec<String>,
    pub fallback: bool,
}

/// The mathematical form of the spans: paths with their ranges.
pub open spec fn spans_view(files: Seq<FileSpans>) -> Seq<(Seq<char>, Seq<LineRange>)> {
    files.map_values(|f: FileSpans| (f.path@, f.ranges@))
}

/// The ranges recorded for `p`, if any.
pub open spec fn spans_lookup(m: Seq<(Seq<char>, Seq<LineRange>)>, p: Seq<char>) -> Option<Seq<LineRange>>
    decreases m.len(),
{
    if m.len() == 0 {
        None
    } else if path_order(m[0].0, p) == 0 {
        Some(m[0].1)
    } else {
        spans_lookup(m.drop_first(), p)
    }
}

/// Adds range `r` for path `p`: to the entry of an equal path if there is
/// one, else as a new entry before the first greater path.
pub open spec fn spans_add(m: Seq<(Seq<char>, Seq<LineRange>)>, p: Seq<char>, r: LineRange) -> Seq<
    (Seq<char>, Seq<LineRange>),
>
    decreases m.len(),
{
    if m.len() == 0 {
        seq![(p, seq![r])]
    } else if path_order(m[0].0, p) == 0 {
        seq![(m[0].0, m[0].1.push(r))] + m.drop_first()
    } else if path_order(m[0].0, p) > 0 {
        seq![(p, seq![r])] + m
    } else {
        seq![m[0]] + spans_add(m.drop_first(), p, r)
    }
}

/// The entries are in strictly increasing path order, so each path has one
/// entry: the shape of the map keyed by path that the spans stand for.
pub open spec fn spans_sorted(m: Seq<(Seq<char>, Seq<LineRange>)>) -> bool {
    forall|i: int, j: int| 0 <= i < j < m.len() ==> path_order(#[trigger] m[i].0, #[trigger] m[j].0) < 0
}

/// A path before `p` and before every path of `m` is before every path of
/// `spans_add(m, p, r)`.
proof fn lemma_spans_add_bound(m: Seq<(Seq<char>, Seq<LineRange>)>, p: Seq<char>, r: LineRange, x: Seq<char>)
    requires
        forall|i: int| 0 <= i < m.len() ==> path_order(x, #[trigger] m[i].0) < 0,
        path_order(x, p) < 0,
    ensures
        forall|k: int| 0 <= k < spans_add(m, p, r).len() ==> path_order(x, #[trigger] spans_add(m, p, r)[k].0) < 0,
    decreases m.len(),
{
    if m.len() > 0 && path_order(m[0].0, p) < 0 {
        let rest = m.drop_first();
        assert forall|i: int| 0 <= i < rest.len() implies path_order(x, #[trigger] rest[i].0) < 0 by {
            assert(rest[i] == m[i + 1]);
        }
        lemma_spans_add_bound(rest, p, r, x);
        let res = spans_add(m, p, r);
        assert forall|k: int| 0 <= k < res.len() implies path_order(x, #[trigger] res[k].0) < 0 by {
            if k > 0 {
                assert(res[k] == spans_add(rest, p, r)[k - 1]);
            }
        }
    } else if m.len() > 0 && path_order(m[0].0, p) == 0 {
        let res = spans_add(m, p, r);
        assert forall|k: int| 0 <= k < res.len() implies path_order(x, #[trigger] res[k].0) < 0 by {
            if k > 0 {
                assert(res[k] == m[k]);
            }
        }
    } else if m.len() > 0 {
        let res = spans_add(m, p, r);
        assert forall|k: int| 0 <= k < res.len() implies path_order(x, #[trigger] res[k].0) < 0 by {
            if k > 0 {
                assert(res[k] == m[k - 1]);
            }
        }
    }
}

/// Adding a range keeps the spans sorted.
proof fn lemma_spans_add_sorted(m: Seq<(Seq<char>, Seq<LineRange>)>, p: Seq<char>, r: LineRange)
    requires
        spans_sorted(m),
    ensures
        spans_sorted(spans_add(m, p, r)),
    decreases m.len(),
{
    let res = spans_add(m, p, r);
    if m.len() == 0 {
    } else if path_order(m[0].0, p) == 0 {
        assert forall|i: int, j: int| 0 <= i < j < res.len() implies path_order(
            #[trigger] res[i].0,
            #[trigger] res[j].0,
        ) < 0 by {
            assert(res[j] == m[j]);
            if i > 0 {
                assert(res[i] == m[i]);
            }
        }
    } else if path_order(m[0].0, p) > 0 {
        lemma_path_order(m[0].0, p, m[0].0);
        assert forall|i: int, j: int| 0 <= i < j < res.len() implies path_order(
            #[trigger] res[i].0,
            #[trigger] res[j].0,
        ) < 0 by {
            assert(res[j] == m[j - 1]);
            if i > 0 {
                assert(res[i] == m[i - 1]);
            } else if j > 1 {
                lemma_path_order(p, m[0].0, m[j - 1].0);
            }
        }
    } else {
        let rest = m.drop_first();
        assert forall|i: int, j: int| 0 <= i < j < rest.len() implies path_order(
            #[trigger] rest[i].0,
            #[trigger] rest[j].0,
        ) < 0 by {
            assert(rest[i] == m[i + 1] && rest[j] == m[j + 1]);
        }
        lemma_spans_add_sorted(rest, p, r);
        assert forall|i: int| 0 <= i < rest.len() implies path_order(m[0].0, #[trigger] rest[i].0) < 0 by {
            assert(rest[i] == m[i + 1]);
        }
        lemma_spans_add_bound(rest, p, r, m[0].0);
        let tail = spans_add(rest, p, r);
        assert forall|i: int, j: int| 0 <= i < j < res.len() implies path_order(
            #[trigger] res[i].0,
            #[trigger] res[j].0,
        ) < 0 by {
            assert(res[j] == tail[j - 1]);
            if i > 0 {
                assert(res[i] == tail[i - 1]);
            }
        }
    }
}

proof fn lemma_hunks_sorted(ls: Seq<Seq<char>>, k: int)
    ensures
        spans_sorted(hunks_upto(ls, k).1),
    decreases k,
{
    if 0 < k <= ls.len() {
        lemma_hunks_sorted(ls, k - 1);
        let prev = hunks_upto(ls, k - 1);
        let line = ls[k - 1];
        if starts_with(line, "@@"@) && !starts_with(line, "+++ "@) {
            match prev.0 {
                Some(p) => match post_image_range(line) {
                    Some(r) => lemma_spans_add_sorted(prev.1, p, r),
                    None => {},
                },
                None => {},
            }
        }
    }
}

/// The spans of a diff name each path once, in path order, as a map keyed
/// by path would.
pub proof fn lemma_diff_hunks_sorted(diff: Seq<char>)
    ensures
        spans_sorted(diff_hunks(diff)),
{
    lemma_hunks_sorted(lines(diff), lines(diff).len() as int);
}

/// The path a `+++ ` header names: none for `/dev/null`; what follows `b/`
/// up to a tab; none without `b/`.
pub open spec fn diff_path(v: Seq<char>) -> Option<Seq<char>> {
    if v == "/dev/null"@ {
        None
    } else {
        let w = v.take(char_from(v, '\t', 0));
        if starts_with(w, "b/"@) {
            Some(w.skip("b/"@.len() as int))
        } else {
            None
        }
    }
}

/// The end of the run of non-whitespace at or after `i`.
pub open spec fn token_end(h: Seq<char>, i: int) -> int
    decreases h.len() - i,
{
    if i < 0 || i >= h.len() || is_whitespace(h[i]) {
        i
    } else {
        token_end(h, i + 1)
    }
}

/// The first whitespace-separated token at or after `i` that starts with
/// `+`, as a range.
pub open spec fn plus_token(h: Seq<char>, i: int) -> Option<(int, int)>
    decreases h.len() - i,
{
    if i < 0 || i >= h.len() {
        None
    } else if is_whitespace(h[i]) {
        plus_token(h, i + 1)
    } else if h[i] == '+' {
        Some((i, token_end(h, i)))
    } else {
        let e = token_end(h, i);
        if e <= i || e > h.len() {
            None
        } else {
            plus_token(h, e)
        }
    }
}

/// The first index in `a..b` that is not a `+`.
pub open spec fn skip_plus(h: Seq<char>, a: int, b: int) -> int
    decreases b - a,
{
    if a < b && h[a] == '+' {
        skip_plus(h, a + 1, b)
    } else {
        a
    }
}

/// The first `,` in `a..b`, or `b`.
pub open spec fn comma_in(h: Seq<char>, a: int, b: int) -> int
    decreases b - a,
{
    if a < b && h[a] != ',' {
        comma_in(h, a + 1, b)
    } else {
        a
    }
}

/// The post-image range of a hunk header `@@ -a,b +c,d @@`: lines
/// `c..=c+d-1` (the sum wraps as unsigned machine arithmetic does); `d`
/// defaults to 1; a count of 0 (a pure deletion) gives none.
pub open spec fn post_image_range(h: Seq<char>) -> Option<LineRange> {
    match plus_token(h, 0) {
        None => None,
        Some((a, b)) => {
            let c = skip_plus(h, a, b);
            let k1 = comma_in(h, c, b);
            match parse_usize(h.subrange(c, k1)) {
                None => None,
                Some(start) => {
                    let count: usize = if k1 < b {
                        match parse_usize(h.subrange(k1 + 1, comma_in(h, k1 + 1, b))) {
                            Some(n) => n,
                            None => 1,
                        }
                    } else {
                        1
                    };
                    if count > 0 {
                        Some(LineRange { start, end: start.wrapping_add((count - 1) as usize) })
                    } else {
                        None
                    }
                },
            }
        },
    }
}

/// The state after one line of a diff: the current file and the spans.
pub open spec fn hunk_step(
    file: Option<Seq<char>>,
    m: Seq<(Seq<char>, Seq<LineRange>)>,
    line: Seq<char>,
) -> (Option<Seq<char>>, Seq<(Seq<char>, Seq<LineRange>)>) {
    if starts_with(line, "+++ "@) {
        (diff_path(line.skip("+++ "@.len() as int)), m)
    } else if !starts_with(line, "@@"@) {
        (file, m)
    } else {
        match file {
            None => (file, m),
            Some(p) => match post_image_range(line) {
                Some(r) => (file, spans_add(m, p, r)),
                None => (file, m),
            },
        }
    }
}

/// The state after the first `k` lines.
pub open spec fn hunks_upto(ls: Seq<Seq<char>>, k: int) -> (Option<Seq<char>>, Seq<(Seq<char>, Seq<LineRange>)>)
    decreases k,
{
    if k <= 0 || k > ls.len() {
        (None, seq![])
    } else {
        let prev = hunks_upto(ls, k - 1);
        hunk_step(prev.0, prev.1, ls[k - 1])
    }
}

/// The changed ranges of every file in a unified diff.
pub open spec fn diff_hunks(diff: Seq<char>) -> Seq<(Seq<char>, Seq<LineRange>)> {
    hunks_upto(lines(diff), lines(diff).len() as int).1
}

fn diff_path_exec(diff: &str, s: &Vec<char>, lo: usize, line: &Vec<char>) -> (r: Option<String>)
    requires
        s@ == diff@,
        line@.len() >= 4,
        line@.skip(4) == line@.skip("+++ "@.len() as int),
        lo + line@.len() <= s@.len(),
        s@.subrange(lo as int, lo + line@.len()) == line@,
    ensures
        match r {
            Some(t) => diff_path(line@.skip(4)) == Some(t@),
            None => diff_path(line@.skip(4)) is None,
        },
{
    let _sl = s.len();
    let v = copy_range(line, 4, line.len());
    assert(v@ =~= line@.skip(4));
    let n = v.len();
    assert(v@.subrange(0, n as int) =~= v@);
    if range_is_str(&v, 0, n, "/dev/null") {
        return None;
    }
    let t = char_from_exec(&v, '\t', 0);
    let ghost w = v@.take(t as int);
    assert(w =~= v@.subrange(0, t as int));
    if !starts_with_str(&v, 0, t, "b/") {
        return None;
    }
    proof {
        reveal_strlit("b/");
    }
    assert(w.skip(2) =~= s@.subrange(lo + 4 + 2, lo + 4 + t));
    let p = diff.substring_char(lo + 6, lo + 4 + t);
    Some(p.to_owned())
}

fn token_end_exec(h: &Vec<char>, i: usize) -> (r: usize)
    requires
        i <= h@.len(),
    ensures
        r as int == token_end(h@, i as int),
        i <= r <= h@.len(),
{
    let mut j = i;
    while j < h.len() && !whitespace(h[j])
        invariant
            i <= j <= h@.len(),
            token_end(h@, j as int) == token_end(h@, i as int),
        decreases h@.len() - j,
    {
        j = j + 1;
    }
    j
}

fn plus_token_exec(h: &Vec<char>) -> (r: Option<(usize, usize)>)
    ensures
        match r {
            Some((a, b)) => plus_token(h@, 0) == Some((a as int, b as int)) && a <= b <= h@.len(),
            None => plus_token(h@, 0) is None,
        },
{
    let mut i: usize = 0;
    while i < h.len()
        invariant
            i <= h@.len(),
            plus_token(h@, i as int) == plus_token(h@, 0),
        decreases h@.len() - i,
    {
        if whitespace(h[i]) {
            i = i + 1;
        } else if h[i] == '+' {
            let e = token_end_exec(h, i);
            return Some((i, e));
        } else {
            let e = token_end_exec(h, i);
            if e <= i {
                return None;
            }
            i = e;
        }
    }
    None
}

fn skip_plus_exec(h: &Vec<char>, a: usize, b: usize) -> (r: usize)
    requires
        a <= b <= h@.len(),
    ensures
        r as int == skip_plus(h@, a as int, b as int),
        a <= r <= b,
{
    let mut i = a;
    while i < b && h[i] == '+'
        invariant
            a <= i <= b <= h@.len(),
            skip_plus(h@, i as int, b as int) == skip_plus(h@, a as int, b as int),
        decreases b - i,
    {
        i = i + 1;
    }
    i
}

fn comma_in_exec(h: &Vec<char>, a: usize, b: usize) -> (r: usize)
    requires
        a <= b <= h@.len(),
    ensures
        r as int == comma_in(h@, a as int, b as int),
        a <= r <= b,
{
    let mut i = a;
    while i < b && h[i] != ','
        invariant
            a <= i <= b <= h@.len(),
            comma_in(h@, i as int, b as int) == comma_in(h@, a as int, b as int),
        decreases b - i,
    {
        i = i + 1;
    }
    i
}

/// `post_image_range` of a hunk header.
pub fn post_image_range_exec(h: &Vec<char>) -> (r: Option<LineRange>)
    ensures
        r == post_image_range(h@),
{
    let (a, b) = match plus_token_exec(h) {
        Some(t) => t,
        None => return None,
    };
    let c = skip_plus_exec(h, a, b);
    let k1 = comma_in_exec(h, c, b);
    let start = match parse_usize_range(h, c, k1) {
        Some(v) => v,
        None => return None,
    };
    let count: usize = if k1 < b {
        let k2 = comma_in_exec(h, k1 + 1, b);
        match parse_usize_range(h, k1 + 1, k2) {
            Some(n) => n,
            None => 1,
        }
    } else {
        1
    };
    if count > 0 {
        Some(LineRange { start, end: start.wrapping_add(count - 1) })
    } else {
        None
    }
}

proof fn lemma_spans_add_skip(m: Seq<(Seq<char>, Seq<LineRange>)>, p: Seq<char>, r: LineRange, i: int)
    requires
        0 <= i <= m.len(),
        forall|j: int| 0 <= j < i ==> path_order(#[trigger] m[j].0, p) < 0,
    ensures
        spans_add(m, p, r) == m.take(i) + spans_add(m.skip(i), p, r),
    decreases i,
{
    if i == 0 {
        assert(m.skip(0) =~= m);
        assert(m.take(0) + spans_add(m, p, r) =~= spans_add(m, p, r));
    } else {
        lemma_spans_add_skip(m.drop_first(), p, r, i - 1);
        assert(m.drop_first().skip(i - 1) =~= m.skip(i));
        assert(seq![m[0]] + m.drop_first().take(i - 1) =~= m.take(i));
        assert(forall|j: int| 0 <= j < i - 1 ==> m.drop_first()[j] == m[j + 1]);
    }
}

/// `spans_add` on the exec form.
pub fn spans_add_exec(files: &mut Vec<FileSpans>, path: String, r: LineRange)
    ensures
        spans_view(final(files)@) == spans_add(spans_view(old(files)@), path@, r),
{
    let ghost m = spans_view(files@);
    let mut i: usize = 0;
    while i < files.len()
        invariant
            i <= files@.len(),
            m == spans_view(files@),
            m == spans_view(old(files)@),
            forall|j: int| 0 <= j < i ==> path_order(#[trigger] m[j].0, path@) < 0,
        decreases files@.len() - i,
    {
        let o = path_compare(files[i].path.as_str(), path.as_str());
        assert(m[i as int].0 == files@[i as int].path@);
        assert(m.skip(i as int)[0] == m[i as int]);
        assert(m[i as int].1 == files@[i as int].ranges@);
        if o == 0 {
            proof {
                lemma_spans_add_skip(m, path@, r, i as int);
            }
            let mut entry = files.remove(i);
            entry.ranges.push(r);
            files.insert(i, entry);
            assert(m.skip(i as int).drop_first() =~= m.skip(i + 1));
            assert(spans_view(files@) =~= m.take(i as int) + (seq![(m[i as int].0, m[i as int].1.push(r))]
                + m.skip(i + 1)));
            return;
        }
        if o > 0 {
            proof {
                lemma_spans_add_skip(m, path@, r, i as int);
            }
            let mut v: Vec<LineRange> = Vec::new();
            v.push(r);
            let ghost pv = path@;
            files.insert(i, FileSpans { path, ranges: v });
            assert(spans_view(files@) =~= m.take(i as int) + (seq![(pv, seq![r])] + m.skip(i as int)));
            return;
        }
        i = i + 1;
    }
    proof {
        lemma_spans_add_skip(m, path@, r, i as int);
    }
    let mut v: Vec<LineRange> = Vec::new();
    v.push(r);
    let ghost pv = path@;
    files.push(FileSpans { path, ranges: v });
    assert(m.skip(i as int) =~= Seq::<(Seq<char>, Seq<LineRange>)>::empty());
    assert(m.take(i as int) =~= m);
    assert(spans_view(files@) =~= m + seq![(pv, seq![r])]);
}

/// The changed line ranges of every file in a unified diff (`--unified=0`
/// against `HEAD`): per `+++ b/<path>` header, the post-image range of each
/// hunk; pure deletions add nothing.
pub fn parse_diff_hunks(diff: &str) -> (r: DiffSpans)
    ensures
        spans_view(r.files@) == diff_hunks(diff@),
        spans_sorted(spans_view(r.files@)),
{
    let s = chars_of(diff);
    let ranges = line_ranges(&s);
    let ghost ls = lines(s@);
    let mut file: Option<String> = None;
    let mut files: Vec<FileSpans> = Vec::new();
    let mut k: usize = 0;
    assert(spans_view(files@) =~= Seq::<(Seq<char>, Seq<LineRange>)>::empty());
    while k < ranges.len()
        invariant
            s@ == diff@,
            ls == lines(s@),
            ranges@.len() == ls.len(),
            forall|j: int|
                0 <= j < ranges@.len() ==> #[trigger] ranges@[j].0 <= ranges@[j].1 <= s@.len()
                    && s@.subrange(ranges@[j].0 as int, ranges@[j].1 as int) == ls[j],
            k <= ranges@.len(),
            hunks_upto(ls, k as int).1 == spans_view(files@),
            hunks_upto(ls, k as int).0 == match file {
                Some(f) => Some(f@),
                None => None::<Seq<char>>,
            },
        decreases ranges@.len() - k,
    {
        let (lo, hi) = ranges[k];
        let line = copy_range(&s, lo, hi);
        assert(line@ == ls[k as int]);
        proof {
            reveal_strlit("+++ ");
        }
        let n = line.len();
        assert(line@.subrange(0, n as int) =~= line@);
        if starts_with_str(&line, 0, n, "+++ ") {
            file = diff_path_exec(diff, &s, lo, &line);
        } else if starts_with_str(&line, 0, n, "@@") {
            match &file {
                Some(p) => {
                    if let Some(r) = post_image_range_exec(&line) {
                        spans_add_exec(&mut files, p.clone(), r);
                    }
                },
                None => {},
            }
        }
        k = k + 1;
    }
    proof {
        lemma_diff_hunks_sorted(diff@);
    }
    DiffSpans { files }
}

impl DiffSpans {
    /// The ranges recorded for a path equal (as a `Path`) to `path`.
    pub fn get(&self, path: &str) -> (r: Option<&Vec<LineRange>>)
        ensures
            match r {
                Some(v) => spans_lookup(spans_view(self.files@), path@) == Some(v@),
                None => spans_lookup(spans_view(self.files@), path@) is None,
            },
    {
        let ghost m = spans_view(self.files@);
        assert(m.skip(0) =~= m);
        let mut i: usize = 0;
        while i < self.files.len()
            invariant
                i <= self.files@.len(),
                m == spans_view(self.files@),
                spans_lookup(m, path@) == spans_lookup(m.skip(i as int), path@),
            decreases self.files@.len() - i,
        {
            assert(m.skip(i as int)[0] == (self.files@[i as int].path@, self.files@[i as int].ranges@));
            if path_compare(self.files[i].path.as_str(), path) == 0 {
                return Some(&self.files[i].ranges);
            }
            assert(m.skip(i as int).drop_first() =~= m.skip(i + 1));
            i = i + 1;
        }
        None
    }

    /// Whether some path equal to `path` has ranges.
    pub fn contains_key(&self, path: &str) -> (r: bool)
        ensures
            r == spans_lookup(spans_view(self.files@), path@) is Some,
    {
        self.get(path).is_some()
    }
}

// ------------------------------------------------------------- git output

/// Why Git's output could not be read.
#[derive(Clone, Copy, Debug, PartialEq, Eq, Structural)]
pub enum GitError {
    /// `git rev-parse --show-toplevel` printed bytes that are not UTF-8.
    RootNotUtf8,
}

/// The message of a Git output error.
pub open spec fn git_message(e: GitError) -> Seq<char> {
    match e {
        GitError::RootNotUtf8 => "Git repository root was not UTF-8"@,
    }
}

impl GitError {
    /// `git_message`.
    pub fn message(self) -> (r: &'static str)
        ensures
            r@ == git_message(self),
    {
        match self {
            GitError::RootNotUtf8 => "Git repository root was not UTF-8",
        }
    }
}

/// `String::from_utf8`: the text of valid UTF-8, none otherwise.
#[verifier::external_body]
fn string_from_utf8(bytes: Vec<u8>) -> (r: Option<String>)
    ensures
        r is Some <==> valid_utf8(bytes@),
        r matches Some(s) ==> s@ == decode_utf8(bytes@),
{
    String::from_utf8(bytes).ok()
}

/// What `String::from_utf8_lossy` makes of bytes.
pub uninterp spec fn utf8_lossy(bytes: Seq<u8>) -> Seq<char>;

/// `String::from_utf8_lossy`: the text, with each invalid sequence replaced;
/// for valid UTF-8 the text itself, as its documentation says.
#[verifier::external_body]
fn lossy_string(bytes: &Vec<u8>) -> (r: String)
    ensures
        r@ == utf8_lossy(bytes@),
        valid_utf8(bytes@) ==> r@ == decode_utf8(bytes@),
{
    String::from_utf8_lossy(bytes.as_slice()).into_owned()
}

/// A diff for everything: outside a repository (or without `HEAD`) all
/// files count as changed.
pub fn fallback_changes(root: String) -> (r: ChangedFiles)
    ensures
        r.repo_root@ == root@,
        r.fallback,
        r.spans.files@.len() == 0,
        r.untracked@.len() == 0,
{
    ChangedFiles { repo_root: root, spans: DiffSpans { files: Vec::new() }, untracked: Vec::new(), fallback: true }
}

/// The repository root `git rev-parse --show-toplevel` printed: its text
/// trimmed; an error when it is not UTF-8.
pub fn repository_root_from(stdout: Vec<u8>) -> (r: Result<String, GitError>)
    ensures
        r is Err <==> !valid_utf8(stdout@),
        r matches Err(e) ==> e == GitError::RootNotUtf8,
        r matches Ok(root) ==> root@ == trim(decode_utf8(stdout@)),
{
    let text = match string_from_utf8(stdout) {
        Some(t) => t,
        None => {
            return Err(GitError::RootNotUtf8);
        },
    };
    let v = chars_of(text.as_str());
    let (a, b) = trim_bounds(&v, 0, v.len());
    assert(v@.subrange(0, v@.len() as int) =~= v@);
    let root = vstd::string::StrSliceExecFns::substring_char(text.as_str(), a, b);
    Ok(root.to_owned())
}

/// The changed ranges of the diff `git diff` printed. Bytes that are not
/// UTF-8 (a changed line of a binary-ish file) are decoded lossily, so such
/// a diff never stops the check.
pub fn diff_spans_from(stdout: Vec<u8>) -> (r: DiffSpans)
    ensures
        spans_view(r.files@) == diff_hunks(utf8_lossy(stdout@)),
        valid_utf8(stdout@) ==> spans_view(r.files@) == diff_hunks(decode_utf8(stdout@)),
{
    let text = lossy_string(&stdout);
    parse_diff_hunks(text.as_str())
}

/// The first NUL at or after `i`, or the length.
pub open spec fn nul_from(b: Seq<u8>, i: int) -> int
    decreases b.len() - i,
{
    if i < 0 || i >= b.len() {
        b.len() as int
    } else if b[i] == 0 {
        i
    } else {
        nul_from(b, i + 1)
    }
}

/// The non-empty pieces between NULs from index `i`.
pub open spec fn nul_pieces(b: Seq<u8>, i: int) -> Seq<Seq<u8>>
    decreases b.len() - i,
{
    if i < 0 || i >= b.len() {
        seq![]
    } else {
        let k = nul_from(b, i);
        if k < i || k >= b.len() {
            seq![b.subrange(i, b.len() as int)]
        } else if k == i {
            nul_pieces(b, k + 1)
        } else {
            seq![b.subrange(i, k)] + nul_pieces(b, k + 1)
        }
    }
}

proof fn lemma_nul_from(b: Seq<u8>, i: int)
    requires
        0 <= i <= b.len(),
    ensures
        i <= nul_from(b, i) <= b.len(),
        nul_from(b, i) < b.len() ==> b[nul_from(b, i)] == 0,
        forall|j: int| i <= j < nul_from(b, i) ==> b[j] != 0,
    decreases b.len() - i,
{
    if i < b.len() && b[i] != 0 {
        lemma_nul_from(b, i + 1);
    }
}

/// The untracked files `git ls-files -z` printed: its non-empty
/// NUL-separated names, each read as text (`utf8_lossy`).
pub fn untracked_paths(stdout: &Vec<u8>) -> (r: Vec<String>)
    ensures
        r@.len() == nul_pieces(stdout@, 0).len(),
        forall|i: int| 0 <= i < r@.len() ==> (#[trigger] r@[i])@ == utf8_lossy(nul_pieces(stdout@, 0)[i]),
{
    let n = stdout.len();
    let mut out: Vec<String> = Vec::new();
    let mut i: usize = 0;
    while i < n
        invariant
            i <= n == stdout@.len(),
            out@.len() + nul_pieces(stdout@, i as int).len() == nul_pieces(stdout@, 0).len(),
            forall|k: int|
                0 <= k < out@.len() ==> (#[trigger] out@[k])@ == utf8_lossy(nul_pieces(stdout@, 0)[k]),
            forall|k: int|
                0 <= k < nul_pieces(stdout@, i as int).len() ==> #[trigger] nul_pieces(stdout@, i as int)[k]
                    == nul_pieces(stdout@, 0)[out@.len() + k],
        decreases n - i,
    {
        let start = i;
        while i < n && stdout[i] != 0
            invariant
                start <= i <= n == stdout@.len(),
                nul_from(stdout@, i as int) == nul_from(stdout@, start as int),
            decreases n - i,
        {
            i = i + 1;
        }
        proof {
            lemma_nul_from(stdout@, start as int);
        }
        let ghost rest = nul_pieces(stdout@, start as int);
        let ghost k0 = out@.len();
        if i > start {
            let mut piece: Vec<u8> = Vec::new();
            let mut j = start;
            while j < i
                invariant
                    start <= j <= i <= stdout@.len(),
                    piece@ == stdout@.subrange(start as int, j as int),
                decreases i - j,
            {
                piece.push(stdout[j]);
                j = j + 1;
                assert(piece@ =~= stdout@.subrange(start as int, j as int));
            }
            let name = lossy_string(&piece);
            out.push(name);
            if i == n {
                assert(rest =~= seq![stdout@.subrange(start as int, n as int)]);
                assert(rest[0] == nul_pieces(stdout@, 0)[k0 as int]);
                assert(nul_pieces(stdout@, i as int) =~= Seq::<Seq<u8>>::empty());
            } else {
                assert(rest == seq![stdout@.subrange(start as int, i as int)] + nul_pieces(stdout@, i + 1));
                assert(rest[0] == nul_pieces(stdout@, 0)[k0 as int]);
                assert forall|k: int| 0 <= k < nul_pieces(stdout@, i + 1).len() implies #[trigger] nul_pieces(
                    stdout@,
                    i + 1,
                )[k] == nul_pieces(stdout@, 0)[out@.len() + k] by {
                    assert(nul_pieces(stdout@, i + 1)[k] == rest[k + 1]);
                }
                i = i + 1;
            }
        } else {
            assert(i < n);
            assert(rest == nul_pieces(stdout@, i + 1));
            i = i + 1;
        }
    }
    assert(nul_pieces(stdout@, i as int) =~= Seq::<Seq<u8>>::empty());
    out
}

// ------------------------------------------------------------- hunk laws

proof fn lemma_token_end_at(h: Seq<char>, i: int, j: int)
    requires
        0 <= i <= j <= h.len(),
        forall|k: int| i <= k < j ==> !is_whitespace(#[trigger] h[k]),
        j == h.len() || is_whitespace(h[j]),
    ensures
        token_end(h, i) == j,
    decreases j - i,
{
    if i < j {
        lemma_token_end_at(h, i + 1, j);
    }
}

proof fn lemma_comma_at(h: Seq<char>, a: int, j: int, b: int)
    requires
        a <= j <= b,
        forall|k: int| a <= k < j ==> #[trigger] h[k] != ',',
        j == b || h[j] == ',',
    ensures
        comma_in(h, a, b) == j,
    decreases j - a,
{
    if a < j {
        lemma_comma_at(h, a + 1, j, b);
    }
}

/// The header of a hunk whose new side starts at line `c` and spans `d`
/// lines: `@@ -o +c,d @@` followed by any text.
pub open spec fn hunk_header(o: Seq<char>, c: Seq<char>, d: Seq<char>, tail: Seq<char>) -> Seq<char> {
    "@@ -"@ + o + " +"@ + c + ","@ + d + " @@"@ + tail
}

/// A hunk header `@@ -o +c,d @@` with decimal numerals `c` and `d > 0`
/// changes lines `c` to `c + d - 1` of the new file, however many digits
/// the numerals have.
pub proof fn lemma_hunk_header_range(o: Seq<char>, c: Seq<char>, d: Seq<char>, tail: Seq<char>)
    requires
        forall|k: int| 0 <= k < o.len() ==> !is_whitespace(#[trigger] o[k]),
        c.len() > 0 && all_digits(c),
        d.len() > 0 && all_digits(d),
        0 < digits_value(d) <= usize::MAX,
        digits_value(c) + digits_value(d) - 1 <= usize::MAX,
    ensures
        post_image_range(hunk_header(o, c, d, tail)) == Some(
            LineRange {
                start: digits_value(c) as usize,
                end: (digits_value(c) + digits_value(d) - 1) as usize,
            },
        ),
{
    reveal_strlit("@@ -");
    reveal_strlit(" +");
    reveal_strlit(",");
    reveal_strlit(" @@");
    let h = hunk_header(o, c, d, tail);
    let n = o.len() as int;
    let a = 5 + n;
    let k1 = a + 1 + c.len();
    let b = k1 + 1 + d.len();
    assert(h[0] == '@' && h[1] == '@' && h[2] == ' ' && h[3] == '-');
    assert forall|k: int| 0 <= k < n implies h[4 + k] == o[k] by {}
    assert(h[4 + n] == ' ' && h[a] == '+');
    assert forall|k: int| 0 <= k < c.len() implies h[a + 1 + k] == c[k] by {}
    assert(h[k1] == ',');
    assert forall|k: int| 0 <= k < d.len() implies h[k1 + 1 + k] == d[k] by {}
    assert(h[b] == ' ');
    assert(!is_whitespace('@') && !is_whitespace('-') && !is_whitespace('+') && !is_whitespace(','));
    assert(is_whitespace(' '));
    lemma_token_end_at(h, 0, 2);
    assert(forall|k: int| 3 <= k < 4 + n ==> !is_whitespace(#[trigger] h[k])) by {
        assert forall|k: int| 3 <= k < 4 + n implies !is_whitespace(#[trigger] h[k]) by {
            if k > 3 {
                assert(h[k] == o[k - 4]);
            }
        }
    }
    lemma_token_end_at(h, 3, 4 + n);
    assert forall|k: int| a <= k < b implies !is_whitespace(#[trigger] h[k]) by {
        if a < k < k1 {
            assert(h[k] == c[k - a - 1]);
        } else if k1 < k {
            assert(h[k] == d[k - k1 - 1]);
        }
    }
    lemma_token_end_at(h, a, b);
    assert(plus_token(h, a) == Some((a, b)));
    assert(plus_token(h, 4 + n) == Some((a, b)));
    assert(plus_token(h, 3) == Some((a, b)));
    assert(plus_token(h, 2) == Some((a, b)));
    assert(plus_token(h, 0) == Some((a, b)));
    assert(h[a + 1] == c[0]);
    assert(skip_plus(h, a + 1, b) == a + 1);
    assert(skip_plus(h, a, b) == a + 1);
    assert forall|k: int| a + 1 <= k < k1 implies #[trigger] h[k] != ',' by {
        assert(h[k] == c[k - a - 1]);
    }
    lemma_comma_at(h, a + 1, k1, b);
    assert forall|k: int| k1 + 1 <= k < b implies #[trigger] h[k] != ',' by {
        assert(h[k] == d[k - k1 - 1]);
    }
    lemma_comma_at(h, k1 + 1, b, b);
    assert(h.subrange(a + 1, k1) =~= c);
    assert(h.subrange(k1 + 1, b) =~= d);
    assert(c[0] != '+' && d[0] != '+');
    lemma_digits_value_nonneg(c);
    lemma_digits_value_nonneg(d);
    let cv = digits_value(c) as usize;
    let dv = digits_value(d) as usize;
    assert(cv.wrapping_add((dv - 1) as usize) == digits_value(c) + digits_value(d) - 1);
    assert(parse_usize(c) == Some(digits_value(c) as usize));
    assert(parse_usize(d) == Some(digits_value(d) as usize));
}

/// A hunk header `@@ -o +c @@` without a count changes the one line `c`;
/// one with a count of zero (`+c,0`, a pure deletion) changes none.
pub proof fn lemma_hunk_header_single_and_empty(o: Seq<char>, c: Seq<char>, tail: Seq<char>)
    requires
        forall|k: int| 0 <= k < o.len() ==> !is_whitespace(#[trigger] o[k]),
        c.len() > 0 && all_digits(c),
        digits_value(c) <= usize::MAX,
    ensures
        post_image_range("@@ -"@ + o + " +"@ + c + " @@"@ + tail) == Some(
            LineRange { start: digits_value(c) as usize, end: digits_value(c) as usize },
        ),
        post_image_range(hunk_header(o, c, seq!['0'], tail)) is None,
{
    reveal_strlit("@@ -");
    reveal_strlit(" +");
    reveal_strlit(",");
    reveal_strlit(" @@");
    lemma_digits_value_nonneg(c);
    let h = "@@ -"@ + o + " +"@ + c + " @@"@ + tail;
    let n = o.len() as int;
    let a = 5 + n;
    let b = a + 1 + c.len();
    assert(h[0] == '@' && h[1] == '@' && h[2] == ' ' && h[3] == '-');
    assert forall|k: int| 0 <= k < n implies h[4 + k] == o[k] by {}
    assert(h[4 + n] == ' ' && h[a] == '+');
    assert forall|k: int| 0 <= k < c.len() implies h[a + 1 + k] == c[k] by {}
    assert(h[b] == ' ');
    assert(!is_whitespace('@') && !is_whitespace('-') && !is_whitespace('+'));
    assert(is_whitespace(' '));
    lemma_token_end_at(h, 0, 2);
    assert forall|k: int| 3 <= k < 4 + n implies !is_whitespace(#[trigger] h[k]) by {
        if k > 3 {
            assert(h[k] == o[k - 4]);
        }
    }
    lemma_token_end_at(h, 3, 4 + n);
    assert forall|k: int| a <= k < b implies !is_whitespace(#[trigger] h[k]) by {
        if a < k {
            assert(h[k] == c[k - a - 1]);
        }
    }
    lemma_token_end_at(h, a, b);
    assert(plus_token(h, a) == Some((a, b)));
    assert(plus_token(h, 4 + n) == Some((a, b)));
    assert(plus_token(h, 3) == Some((a, b)));
    assert(plus_token(h, 2) == Some((a, b)));
    assert(plus_token(h, 0) == Some((a, b)));
    assert(h[a + 1] == c[0]);
    assert(c[0] != '+');
    assert(skip_plus(h, a + 1, b) == a + 1);
    assert(skip_plus(h, a, b) == a + 1);
    assert forall|k: int| a + 1 <= k < b implies #[trigger] h[k] != ',' by {
        assert(h[k] == c[k - a - 1]);
    }
    lemma_comma_at(h, a + 1, b, b);
    assert(h.subrange(a + 1, b) =~= c);
    assert(parse_usize(c) == Some(digits_value(c) as usize));
    let z = seq!['0'];
    assert(all_digits(z) && digits_value(z) == 0) by {
        assert(z[0] == '0' && z.last() == '0');
        assert(z.drop_last() =~= Seq::<char>::empty());
        assert(digits_value(z) == digits_value(z.drop_last()) * 10 + (z.last() as u32 - '0' as u32));
    }
    let g = hunk_header(o, c, z, tail);
    let k1 = a + 1 + c.len();
    let e = k1 + 2;
    assert(g[0] == '@' && g[1] == '@' && g[2] == ' ' && g[3] == '-');
    assert forall|k: int| 0 <= k < n implies g[4 + k] == o[k] by {}
    assert(g[4 + n] == ' ' && g[a] == '+');
    assert forall|k: int| 0 <= k < c.len() implies g[a + 1 + k] == c[k] by {}
    assert(g[k1] == ',' && g[k1 + 1] == '0' && g[e] == ' ');
    lemma_token_end_at(g, 0, 2);
    assert forall|k: int| 3 <= k < 4 + n implies !is_whitespace(#[trigger] g[k]) by {
        if k > 3 {
            assert(g[k] == o[k - 4]);
        }
    }
    lemma_token_end_at(g, 3, 4 + n);
    assert forall|k: int| a <= k < e implies !is_whitespace(#[trigger] g[k]) by {
        if a < k < k1 {
            assert(g[k] == c[k - a - 1]);
        }
    }
    lemma_token_end_at(g, a, e);
    assert(plus_token(g, a) == Some((a, e)));
    assert(plus_token(g, 4 + n) == Some((a, e)));
    assert(plus_token(g, 3) == Some((a, e)));
    assert(plus_token(g, 2) == Some((a, e)));
    assert(plus_token(g, 0) == Some((a, e)));
    assert(g[a + 1] == c[0]);
    assert(skip_plus(g, a + 1, e) == a + 1);
    assert(skip_plus(g, a, e) == a + 1);
    assert forall|k: int| a + 1 <= k < k1 implies #[trigger] g[k] != ',' by {
        assert(g[k] == c[k - a - 1]);
    }
    lemma_comma_at(g, a + 1, k1, e);
    lemma_comma_at(g, k1 + 1, e, e);
    assert(g.subrange(a + 1, k1) =~= c);
    assert(g.subrange(k1 + 1, e) =~= z);
}

} // verus!
