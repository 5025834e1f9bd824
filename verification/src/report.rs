//! The text reports of a scan: one line per finding, or a summary grouped
//! by file.

use vstd::prelude::*;
use crate::path::{path_compare, path_order};
use crate::scan::{ScanResult, Unverified, Violation, ViolationView};
use crate::sort::seq_views;
use crate::text::str_eq;

verus! {

/// At most this many files are listed in a summary.
pub const SUMMARY_PATH_LIMIT: usize = 20;

// ----------------------------------------------------------------- numbers

/// The decimal digit `d`.
pub open spec fn digit_char(d: int) -> char {
    if d == 0 {
        '0'
    } else if d == 1 {
        '1'
    } else if d == 2 {
        '2'
    } else if d == 3 {
        '3'
    } else if d == 4 {
        '4'
    } else if d == 5 {
        '5'
    } else if d == 6 {
        '6'
    } else if d == 7 {
        '7'
    } else if d == 8 {
        '8'
    } else {
        '9'
    }
}

/// The decimal representation of `n`, without leading zeros.
pub open spec fn decimal(n: nat) -> Seq<char>
    decreases n,
{
    if n < 10 {
        seq![digit_char(n as int)]
    } else {
        decimal(n / 10) + seq![digit_char((n % 10) as int)]
    }
}

fn digit_str(d: usize) -> (r: &'static str)
    requires
        d < 10,
    ensures
        r@ == seq![digit_char(d as int)],
{
    proof {
        reveal_strlit("0");
        reveal_strlit("1");
        reveal_strlit("2");
        reveal_strlit("3");
        reveal_strlit("4");
        reveal_strlit("5");
        reveal_strlit("6");
        reveal_strlit("7");
        reveal_strlit("8");
        reveal_strlit("9");
    }
    match d {
        0 => "0",
        1 => "1",
        2 => "2",
        3 => "3",
        4 => "4",
        5 => "5",
        6 => "6",
        7 => "7",
        8 => "8",
        _ => "9",
    }
}

/// `n` written in decimal.
pub fn decimal_string(n: usize) -> (r: String)
    ensures
        r@ == decimal(n as nat),
    decreases n,
{
    if n < 10 {
        digit_str(n).to_owned()
    } else {
        let mut s = decimal_string(n / 10);
        s.append(digit_str(n % 10));
        s
    }
}

// ------------------------------------------------------------------- lines

/// The items joined by newlines.
pub open spec fn join_lines(items: Seq<Seq<char>>) -> Seq<char>
    decreases items.len(),
{
    if items.len() == 0 {
        seq![]
    } else if items.len() == 1 {
        items[0]
    } else {
        join_lines(items.drop_last()) + "\n"@ + items.last()
    }
}

/// A report of the items: joined by newlines, with a final newline unless
/// the report is empty.
pub open spec fn report_text(items: Seq<Seq<char>>) -> Seq<char> {
    let j = join_lines(items);
    if j.len() > 0 {
        j + "\n"@
    } else {
        j
    }
}

/// `report_text`.
pub fn lines(items: &Vec<String>) -> (r: String)
    ensures
        r@ == report_text(seq_views(items@)),
{
    let ghost iv = seq_views(items@);
    let mut out = String::new();
    let mut i: usize = 0;
    assert(iv.take(0) =~= Seq::<Seq<char>>::empty());
    while i < items.len()
        invariant
            i <= items@.len(),
            iv == seq_views(items@),
            out@ == join_lines(iv.take(i as int)),
        decreases items@.len() - i,
    {
        assert(iv.take(i + 1).drop_last() =~= iv.take(i as int));
        assert(iv.take(i + 1).last() == items@[i as int]@);
        if i > 0 {
            out.append("\n");
        } else {
            assert(iv.take(1)[0] == items@[0]@);
            assert(out@ =~= Seq::<char>::empty());
        }
        out.append(items[i].as_str());
        i = i + 1;
    }
    assert(iv.take(i as int) =~= iv);
    proof {
        if out@.len() == 0 {
            assert(out@ =~= Seq::<char>::empty());
            assert(vstd::utf8::encode_utf8(out@) =~= Seq::<u8>::empty());
        } else {
            crate::text::lemma_encode_len_ge(out@);
        }
    }
    let ghost j = out@;
    assert(j == join_lines(iv));
    if crate::text::byte_len(out.as_str()) > 0 {
        out.append("\n");
    }
    out
}

// ----------------------------------------------------------------- details

/// The line that reports a violation.
pub open spec fn fail_line(v: ViolationView) -> Seq<char> {
    "FAIL "@ + v.file + ":"@ + decimal(v.line as nat) + " "@ + v.function + "  "@ + v.metric + " "@
        + decimal(v.value as nat) + " > "@ + decimal(v.limit as nat)
}

/// The line that reports an unverified file.
pub open spec fn unverified_line(u: (Seq<char>, Seq<char>)) -> Seq<char> {
    "UNVERIFIED "@ + u.0 + "  "@ + u.1
}

/// `fail_line`.
pub fn fail_text(v: &Violation) -> (r: String)
    ensures
        r@ == fail_line(v@),
{
    let mut s = "FAIL ".to_owned();
    s.append(v.file.as_str());
    s.append(":");
    let line = decimal_string(v.line);
    s.append(line.as_str());
    s.append(" ");
    s.append(v.function.as_str());
    s.append("  ");
    s.append(v.metric.as_str());
    s.append(" ");
    let value = decimal_string(v.value);
    s.append(value.as_str());
    s.append(" > ");
    let limit = decimal_string(v.limit);
    s.append(limit.as_str());
    s
}

fn unverified_text(u: &Unverified) -> (r: String)
    ensures
        r@ == unverified_line(u@),
{
    let mut s = "UNVERIFIED ".to_owned();
    s.append(u.file.as_str());
    s.append("  ");
    s.append(u.reason.as_str());
    s
}

/// Every finding, one line each: the violations, then the unverified files.
pub open spec fn detailed_text(violations: Seq<ViolationView>, unverified: Seq<(Seq<char>, Seq<char>)>) -> Seq<
    char,
> {
    report_text(violations.map_values(|v: ViolationView| fail_line(v)) + unverified.map_values(
        |u: (Seq<char>, Seq<char>)| unverified_line(u),
    ))
}

/// The lines of the violations.
pub fn fail_texts(violations: &Vec<Violation>) -> (r: Vec<String>)
    ensures
        seq_views(r@) == seq_views(violations@).map_values(|v: ViolationView| fail_line(v)),
{
    let mut out: Vec<String> = Vec::new();
    let mut i: usize = 0;
    while i < violations.len()
        invariant
            i <= violations@.len(),
            seq_views(out@) == seq_views(violations@).take(i as int).map_values(|v: ViolationView| fail_line(v)),
        decreases violations@.len() - i,
    {
        let ghost before = out@;
        let t = fail_text(&violations[i]);
        out.push(t);
        assert(seq_views(violations@)[i as int] == violations@[i as int]@);
        assert(seq_views(violations@).take(i + 1).map_values(|v: ViolationView| fail_line(v))
            =~= seq_views(violations@).take(i as int).map_values(|v: ViolationView| fail_line(v)).push(
            fail_line(violations@[i as int]@),
        ));
        assert(seq_views(out@) =~= seq_views(before).push(t@));
        i = i + 1;
    }
    assert(seq_views(violations@).take(i as int) =~= seq_views(violations@));
    out
}

/// A report of every finding.
pub fn detailed(result: &ScanResult) -> (r: String)
    ensures
        r@ == detailed_text(seq_views(result.violations@), seq_views(result.unverified@)),
{
    let mut items = fail_texts(&result.violations);
    let ghost first = seq_views(items@);
    let mut i: usize = 0;
    let ghost uv = seq_views(result.unverified@);
    while i < result.unverified.len()
        invariant
            i <= result.unverified@.len(),
            uv == seq_views(result.unverified@),
            seq_views(items@) == first + uv.take(i as int).map_values(
                |u: (Seq<char>, Seq<char>)| unverified_line(u),
            ),
        decreases result.unverified@.len() - i,
    {
        let t = unverified_text(&result.unverified[i]);
        let ghost before = items@;
        items.push(t);
        assert(seq_views(items@) =~= seq_views(before).push(t@));
        assert(uv.take(i + 1).map_values(|u: (Seq<char>, Seq<char>)| unverified_line(u)) =~= uv.take(
            i as int,
        ).map_values(|u: (Seq<char>, Seq<char>)| unverified_line(u)).push(unverified_line(uv[i as int])));
        i = i + 1;
    }
    assert(uv.take(i as int) =~= uv);
    lines(&items)
}

// ----------------------------------------------------------------- summary

/// The failures of one file: its distinct (line, function) pairs in first
/// order, and its number of violations.
pub struct FailureView {
    pub file: Seq<char>,
    pub functions: Seq<(int, Seq<char>)>,
    pub violations: int,
}

/// Where a file's group goes among groups ordered by path: after every
/// group whose path is not greater.
pub open spec fn group_pos(groups: Seq<FailureView>, file: Seq<char>) -> int
    decreases groups.len(),
{
    if groups.len() == 0 {
        0
    } else if path_order(groups.last().file, file) <= 0 {
        groups.len() as int
    } else {
        group_pos(groups.drop_last(), file)
    }
}

pub open spec fn add_function(fs: Seq<(int, Seq<char>)>, p: (int, Seq<char>)) -> Seq<(int, Seq<char>)> {
    if fs.contains(p) {
        fs
    } else {
        fs.push(p)
    }
}

/// A violation counted into the groups: into the group of an equal path,
/// else into a new group in path order.
pub open spec fn group_add(groups: Seq<FailureView>, v: ViolationView) -> Seq<FailureView> {
    let p = group_pos(groups, v.file);
    if p > 0 && path_order(groups[p - 1].file, v.file) == 0 {
        let g = groups[p - 1];
        groups.update(
            p - 1,
            FailureView {
                file: g.file,
                functions: add_function(g.functions, (v.line, v.function)),
                violations: g.violations + 1,
            },
        )
    } else {
        groups.insert(p, FailureView { file: v.file, functions: seq![(v.line, v.function)], violations: 1 })
    }
}

/// The violations grouped by file, in path order.
pub open spec fn group_failures(vs: Seq<ViolationView>) -> Seq<FailureView>
    decreases vs.len(),
{
    if vs.len() == 0 {
        seq![]
    } else {
        group_add(group_failures(vs.drop_last()), vs.last())
    }
}

/// The number of distinct functions over all groups.
pub open spec fn function_total(gs: Seq<FailureView>) -> int
    decreases gs.len(),
{
    if gs.len() == 0 {
        0
    } else {
        function_total(gs.drop_last()) + gs.last().functions.len()
    }
}

/// The number of violations over all groups.
pub open spec fn violation_total(gs: Seq<FailureView>) -> int
    decreases gs.len(),
{
    if gs.len() == 0 {
        0
    } else {
        violation_total(gs.drop_last()) + gs.last().violations
    }
}

proof fn lemma_totals_update(gs: Seq<FailureView>, i: int, x: FailureView)
    requires
        0 <= i < gs.len(),
    ensures
        function_total(gs.update(i, x)) == function_total(gs) - gs[i].functions.len() + x.functions.len(),
        violation_total(gs.update(i, x)) == violation_total(gs) - gs[i].violations + x.violations,
    decreases gs.len(),
{
    if i == gs.len() - 1 {
        assert(gs.update(i, x).drop_last() =~= gs.drop_last());
    } else {
        lemma_totals_update(gs.drop_last(), i, x);
        assert(gs.update(i, x).drop_last() =~= gs.drop_last().update(i, x));
    }
}

proof fn lemma_totals_insert(gs: Seq<FailureView>, i: int, x: FailureView)
    requires
        0 <= i <= gs.len(),
    ensures
        function_total(gs.insert(i, x)) == function_total(gs) + x.functions.len(),
        violation_total(gs.insert(i, x)) == violation_total(gs) + x.violations,
    decreases gs.len(),
{
    if i == gs.len() {
        assert(gs.insert(i, x).drop_last() =~= gs);
    } else {
        lemma_totals_insert(gs.drop_last(), i, x);
        assert(gs.insert(i, x).drop_last() =~= gs.drop_last().insert(i, x));
    }
}

/// The plural of the report's nouns.
pub open spec fn plural_of(noun: Seq<char>, count: int) -> Seq<char> {
    if count == 1 {
        noun
    } else if noun == "file"@ {
        "files"@
    } else if noun == "function"@ {
        "functions"@
    } else if noun == "violation"@ {
        "violations"@
    } else {
        noun
    }
}

/// `noun` in the plural for `count`.
pub fn plural(noun: &'static str, count: usize) -> (r: &'static str)
    ensures
        r@ == plural_of(noun@, count as int),
{
    if count == 1 {
        noun
    } else if str_eq(noun, "file") {
        "files"
    } else if str_eq(noun, "function") {
        "functions"
    } else if str_eq(noun, "violation") {
        "violations"
    } else {
        noun
    }
}

/// The noun counted, marked as changed files when the scan was of a diff.
pub open spec fn scope_of(noun: Seq<char>, count: int, changed: bool) -> Seq<char> {
    if changed {
        "changed "@ + plural_of(noun, count)
    } else {
        plural_of(noun, count)
    }
}

/// `scope_of`.
pub fn scope(noun: &'static str, count: usize, changed: bool) -> (r: String)
    ensures
        r@ == scope_of(noun@, count as int, changed),
{
    let noun = plural(noun, count);
    if changed {
        let mut s = "changed ".to_owned();
        s.append(noun);
        s
    } else {
        noun.to_owned()
    }
}

/// How to see the details of a summary.
pub open spec fn details_hint_text(changed: bool) -> Seq<char> {
    if changed {
        "DETAILS complexity-gate check --changed --verbose <file>"@
    } else {
        "DETAILS complexity-gate check --verbose <file>"@
    }
}

/// `details_hint_text`.
pub fn details_hint(changed: bool) -> (r: &'static str)
    ensures
        r@ == details_hint_text(changed),
{
    if changed {
        "DETAILS complexity-gate check --changed --verbose <file>"
    } else {
        "DETAILS complexity-gate check --verbose <file>"
    }
}

/// The line that lists one file's failures.
pub open spec fn group_line(g: FailureView) -> Seq<char> {
    "FAIL "@ + g.file + "  "@ + decimal(g.functions.len()) + " "@ + plural_of("function"@, g.functions.len() as int)
        + ", "@ + decimal(g.violations as nat) + " "@ + plural_of("violation"@, g.violations)
}

pub open spec fn min(a: int, b: int) -> int {
    if a <= b {
        a
    } else {
        b
    }
}

/// The count lines of a summary: failing files with their functions and
/// violations, then unverified files; each only when there are any.
pub open spec fn summary_headers(ng: int, fc: int, nv: int, nu: int, changed: bool) -> Seq<Seq<char>> {
    (if ng > 0 {
        seq![
            "FAIL "@ + decimal(ng as nat) + " "@ + scope_of("file"@, ng, changed) + ", "@ + decimal(fc as nat) + " "@
                + plural_of("function"@, fc) + ", "@ + decimal(nv as nat) + " "@ + plural_of("violation"@, nv),
        ]
    } else {
        seq![]
    }) + (if nu > 0 {
        seq!["UNVERIFIED "@ + decimal(nu as nat) + " "@ + scope_of("file"@, nu, changed)]
    } else {
        seq![]
    })
}

/// How many failing files a summary lists.
pub open spec fn shown_groups(ng: int) -> int {
    min(ng, SUMMARY_PATH_LIMIT as int)
}

/// How many unverified files a summary lists, after the failing ones.
pub open spec fn shown_unverified(ng: int, nu: int) -> int {
    min(nu, SUMMARY_PATH_LIMIT as int - shown_groups(ng))
}

/// The listed files of a summary: failing files first, up to
/// `SUMMARY_PATH_LIMIT` in all.
pub open spec fn summary_listed(gv: Seq<FailureView>, us: Seq<(Seq<char>, Seq<char>)>) -> Seq<Seq<char>> {
    gv.take(shown_groups(gv.len() as int)).map_values(|g: FailureView| group_line(g)) + us.take(
        shown_unverified(gv.len() as int, us.len() as int),
    ).map_values(|u: (Seq<char>, Seq<char>)| unverified_line(u))
}

/// The closing lines of a summary: how many files were not listed, and the
/// hint for details when anything was reported.
pub open spec fn summary_trailer(total: int, shown: int, changed: bool) -> Seq<Seq<char>> {
    (if total > shown {
        seq!["... "@ + decimal((total - shown) as nat) + " more files"@]
    } else {
        seq![]
    }) + (if total > 0 {
        seq![details_hint_text(changed)]
    } else {
        seq![]
    })
}

/// The lines of a summary: the counts of failing and unverified files; up
/// to `SUMMARY_PATH_LIMIT` files, failing ones first; how many more there
/// are; and the hint for details.
pub open spec fn summary_items(
    vs: Seq<ViolationView>,
    us: Seq<(Seq<char>, Seq<char>)>,
    changed: bool,
) -> Seq<Seq<char>> {
    let gv = group_failures(vs);
    let ng = gv.len() as int;
    let nu = us.len() as int;
    summary_headers(ng, function_total(gv), vs.len() as int, nu, changed) + summary_listed(gv, us)
        + summary_trailer(ng + nu, shown_groups(ng) + shown_unverified(ng, nu), changed)
}

/// One file's failures.
struct FileFailures {
    file: String,
    functions: Vec<(usize, String)>,
    violations: usize,
}

spec fn pairs_view(fs: Seq<(usize, String)>) -> Seq<(int, Seq<char>)> {
    fs.map_values(|p: (usize, String)| (p.0 as int, p.1@))
}

spec fn failure_view(g: FileFailures) -> FailureView {
    FailureView { file: g.file@, functions: pairs_view(g.functions@), violations: g.violations as int }
}

spec fn failure_views(gs: Seq<FileFailures>) -> Seq<FailureView> {
    gs.map_values(|g: FileFailures| failure_view(g))
}

fn has_pair(fs: &Vec<(usize, String)>, line: usize, function: &str) -> (r: bool)
    ensures
        r == pairs_view(fs@).contains((line as int, function@)),
{
    let mut i: usize = 0;
    while i < fs.len()
        invariant
            i <= fs@.len(),
            forall|j: int| 0 <= j < i ==> pairs_view(fs@)[j] != (line as int, function@),
        decreases fs@.len() - i,
    {
        if fs[i].0 == line && str_eq(fs[i].1.as_str(), function) {
            assert(pairs_view(fs@)[i as int] == (line as int, function@));
            return true;
        }
        i = i + 1;
    }
    false
}

/// `group_failures`, with the number of distinct functions.
fn group_exec(violations: &Vec<Violation>) -> (r: (Vec<FileFailures>, usize))
    ensures
        failure_views(r.0@) == group_failures(seq_views(violations@)),
        r.1 as int == function_total(group_failures(seq_views(violations@))),
        r.0@.len() <= violations@.len(),
{
    let ghost vs = seq_views(violations@);
    let mut groups: Vec<FileFailures> = Vec::new();
    let mut fc: usize = 0;
    let mut k: usize = 0;
    assert(vs.take(0) =~= Seq::<ViolationView>::empty());
    while k < violations.len()
        invariant
            k <= violations@.len(),
            vs == seq_views(violations@),
            failure_views(groups@) == group_failures(vs.take(k as int)),
            fc as int == function_total(failure_views(groups@)),
            fc <= k,
            groups@.len() <= k,
            violation_total(failure_views(groups@)) == k,
            forall|g: int|
                0 <= g < groups@.len() ==> (#[trigger] groups@[g]).functions@.len() <= groups@[g].violations
                    <= k,
        decreases violations@.len() - k,
    {
        let v = &violations[k];
        let ghost gv = failure_views(groups@);
        assert(vs.take(k + 1).drop_last() =~= vs.take(k as int));
        assert(vs.take(k + 1).last() == v@);
        let mut p = groups.len();
        assert(gv.take(p as int) =~= gv);
        while p > 0 && path_compare(groups[p - 1].file.as_str(), v.file.as_str()) > 0
            invariant
                p <= groups@.len(),
                gv == failure_views(groups@),
                group_pos(gv.take(p as int), v@.file) == group_pos(gv, v@.file),
            decreases p,
        {
            assert(gv.take(p as int).drop_last() =~= gv.take(p - 1));
            assert(gv.take(p as int).last() == gv[p - 1]);
            p = p - 1;
        }
        assert(group_pos(gv.take(p as int), v@.file) == p) by {
            if p > 0 {
                assert(gv.take(p as int).last() == gv[p - 1]);
            }
        }
        if p > 0 && path_compare(groups[p - 1].file.as_str(), v.file.as_str()) == 0 {
            let mut g = groups.remove(p - 1);
            assert(failure_view(g) == gv[p - 1]);
            let ghost gf = pairs_view(g.functions@);
            let fresh = !has_pair(&g.functions, v.line, v.function.as_str());
            if fresh {
                let ghost before = g.functions@;
                g.functions.push((v.line, v.function.clone()));
                assert(pairs_view(g.functions@) =~= gf.push((v.line as int, v.function@)));
                fc = fc + 1;
            }
            g.violations = g.violations + 1;
            let ghost ng = failure_view(g);
            groups.insert(p - 1, g);
            assert(failure_views(groups@) =~= gv.update(p - 1, ng));
            proof {
                lemma_totals_update(gv, p - 1, ng);
            }
        } else {
            let mut fs: Vec<(usize, String)> = Vec::new();
            fs.push((v.line, v.function.clone()));
            let g = FileFailures { file: v.file.clone(), functions: fs, violations: 1 };
            assert(pairs_view(g.functions@) =~= seq![(v@.line, v@.function)]);
            let ghost ng = failure_view(g);
            groups.insert(p, g);
            assert(failure_views(groups@) =~= gv.insert(p as int, ng));
            proof {
                lemma_totals_insert(gv, p as int, ng);
            }
            fc = fc + 1;
        }
        k = k + 1;
    }
    assert(vs.take(k as int) =~= vs);
    (groups, fc)
}

fn group_text(g: &FileFailures) -> (r: String)
    ensures
        r@ == group_line(failure_view(*g)),
{
    let n = g.functions.len();
    assert(pairs_view(g.functions@).len() == n);
    let mut s = "FAIL ".to_owned();
    s.append(g.file.as_str());
    s.append("  ");
    let count = decimal_string(n);
    s.append(count.as_str());
    s.append(" ");
    s.append(plural("function", n));
    s.append(", ");
    let vcount = decimal_string(g.violations);
    s.append(vcount.as_str());
    s.append(" ");
    s.append(plural("violation", g.violations));
    s
}

fn push_headers(ng: usize, fc: usize, nv: usize, nu: usize, changed: bool, out: &mut Vec<String>)
    ensures
        seq_views(final(out)@) == seq_views(old(out)@) + summary_headers(
            ng as int,
            fc as int,
            nv as int,
            nu as int,
            changed,
        ),
{
    let ghost start = seq_views(out@);
    if ng > 0 {
        let mut s = "FAIL ".to_owned();
        let a = decimal_string(ng);
        s.append(a.as_str());
        s.append(" ");
        let b = scope("file", ng, changed);
        s.append(b.as_str());
        s.append(", ");
        let c = decimal_string(fc);
        s.append(c.as_str());
        s.append(" ");
        s.append(plural("function", fc));
        s.append(", ");
        let d = decimal_string(nv);
        s.append(d.as_str());
        s.append(" ");
        s.append(plural("violation", nv));
        let ghost before = out@;
        out.push(s);
        assert(seq_views(out@) =~= seq_views(before).push(s@));
    }
    let ghost mid = seq_views(out@);
    if nu > 0 {
        let mut s = "UNVERIFIED ".to_owned();
        let a = decimal_string(nu);
        s.append(a.as_str());
        s.append(" ");
        let b = scope("file", nu, changed);
        s.append(b.as_str());
        let ghost before = out@;
        out.push(s);
        assert(seq_views(out@) =~= seq_views(before).push(s@));
    }
    assert(seq_views(out@) =~= start + summary_headers(ng as int, fc as int, nv as int, nu as int, changed));
}

fn push_listed(groups: &Vec<FileFailures>, unverified: &Vec<Unverified>, out: &mut Vec<String>)
    ensures
        seq_views(final(out)@) == seq_views(old(out)@) + summary_listed(
            failure_views(groups@),
            seq_views(unverified@),
        ),
{
    let ghost gv = failure_views(groups@);
    let ghost us = seq_views(unverified@);
    let ghost start = seq_views(out@);
    let ng = groups.len();
    let nu = unverified.len();
    let shown_g = if ng < SUMMARY_PATH_LIMIT {
        ng
    } else {
        SUMMARY_PATH_LIMIT
    };
    let mut i: usize = 0;
    while i < shown_g
        invariant
            shown_g <= ng,
            ng == groups@.len(),
            gv == failure_views(groups@),
            i <= shown_g,
            seq_views(out@) == start + gv.take(i as int).map_values(|g: FailureView| group_line(g)),
        decreases shown_g - i,
    {
        let t = group_text(&groups[i]);
        let ghost before = out@;
        out.push(t);
        assert(gv[i as int] == failure_view(groups@[i as int]));
        assert(gv.take(i + 1).map_values(|g: FailureView| group_line(g)) =~= gv.take(i as int).map_values(
            |g: FailureView| group_line(g),
        ).push(group_line(gv[i as int])));
        assert(seq_views(out@) =~= seq_views(before).push(t@));
        i = i + 1;
    }
    let ghost mid = seq_views(out@);
    let room = SUMMARY_PATH_LIMIT - shown_g;
    let shown_u = if nu < room {
        nu
    } else {
        room
    };
    let mut j: usize = 0;
    while j < shown_u
        invariant
            shown_u <= nu,
            nu == unverified@.len(),
            us == seq_views(unverified@),
            j <= shown_u,
            seq_views(out@) == mid + us.take(j as int).map_values(|u: (Seq<char>, Seq<char>)| unverified_line(u)),
        decreases shown_u - j,
    {
        let t = unverified_text(&unverified[j]);
        let ghost before = out@;
        out.push(t);
        assert(us[j as int] == unverified@[j as int]@);
        assert(us.take(j + 1).map_values(|u: (Seq<char>, Seq<char>)| unverified_line(u)) =~= us.take(
            j as int,
        ).map_values(|u: (Seq<char>, Seq<char>)| unverified_line(u)).push(unverified_line(us[j as int])));
        assert(seq_views(out@) =~= seq_views(before).push(t@));
        j = j + 1;
    }
    assert(shown_g as int == shown_groups(gv.len() as int));
    assert(shown_u as int == shown_unverified(gv.len() as int, us.len() as int));
    assert(seq_views(out@) =~= start + summary_listed(gv, us));
}

fn push_trailer(total: usize, shown: usize, changed: bool, out: &mut Vec<String>)
    ensures
        seq_views(final(out)@) == seq_views(old(out)@) + summary_trailer(total as int, shown as int, changed),
{
    let ghost start = seq_views(out@);
    if total > shown {
        let mut s = "... ".to_owned();
        let a = decimal_string(total - shown);
        s.append(a.as_str());
        s.append(" more files");
        let ghost before = out@;
        out.push(s);
        assert(seq_views(out@) =~= seq_views(before).push(s@));
    }
    if total > 0 {
        let h = details_hint(changed).to_owned();
        let ghost before = out@;
        out.push(h);
        assert(seq_views(out@) =~= seq_views(before).push(h@));
    }
    assert(seq_views(out@) =~= start + summary_trailer(total as int, shown as int, changed));
}

/// A summary of a scan (`summary_items`): counts, the first files, and the
/// hint for details; empty when nothing failed.
pub fn summary(result: &ScanResult, changed: bool) -> (r: String)
    requires
        result.violations@.len() + result.unverified@.len() <= usize::MAX,
    ensures
        r@ == report_text(summary_items(seq_views(result.violations@), seq_views(result.unverified@), changed)),
{
    let ghost vs = seq_views(result.violations@);
    let ghost us = seq_views(result.unverified@);
    let (groups, fc) = group_exec(&result.violations);
    let mut output: Vec<String> = Vec::new();
    let nv = result.violations.len();
    let nu = result.unverified.len();
    let ng = groups.len();
    push_headers(ng, fc, nv, nu, changed, &mut output);
    push_listed(&groups, &result.unverified, &mut output);
    let shown_g = if ng < SUMMARY_PATH_LIMIT {
        ng
    } else {
        SUMMARY_PATH_LIMIT
    };
    let room = SUMMARY_PATH_LIMIT - shown_g;
    let shown_u = if nu < room {
        nu
    } else {
        room
    };
    push_trailer(ng + nu, shown_g + shown_u, changed, &mut output);
    assert(seq_views(output@) =~= summary_items(vs, us, changed));
    lines(&output)
}

// -------------------------------------------------------------------- laws

/// A summary lists at most `SUMMARY_PATH_LIMIT` files, failing and
/// unverified together.
pub proof fn lemma_summary_lists_at_most_limit(vs: Seq<ViolationView>, us: Seq<(Seq<char>, Seq<char>)>)
    ensures
        summary_listed(group_failures(vs), us).len() <= SUMMARY_PATH_LIMIT,
{
    let gv = group_failures(vs);
    let sg = shown_groups(gv.len() as int);
    let su = shown_unverified(gv.len() as int, us.len() as int);
    assert(gv.take(sg).map_values(|g: FailureView| group_line(g)).len() == sg);
    assert(us.take(su).map_values(|u: (Seq<char>, Seq<char>)| unverified_line(u)).len() == su);
}

/// A scan with nothing to report prints nothing, summarized or detailed.
pub proof fn lemma_empty_reports_are_silent(changed: bool)
    ensures
        report_text(summary_items(Seq::<ViolationView>::empty(), Seq::<(Seq<char>, Seq<char>)>::empty(), changed))
            == Seq::<char>::empty(),
        detailed_text(Seq::<ViolationView>::empty(), Seq::<(Seq<char>, Seq<char>)>::empty()) == Seq::<char>::empty(),
{
    let vs = Seq::<ViolationView>::empty();
    let us = Seq::<(Seq<char>, Seq<char>)>::empty();
    assert(group_failures(vs) =~= Seq::<FailureView>::empty());
    let gv = group_failures(vs);
    assert(summary_headers(0, function_total(gv), 0, 0, changed) =~= Seq::<Seq<char>>::empty());
    assert(summary_listed(gv, us) =~= Seq::<Seq<char>>::empty());
    assert(summary_trailer(0, 0, changed) =~= Seq::<Seq<char>>::empty());
    assert(summary_items(vs, us, changed) =~= Seq::<Seq<char>>::empty());
    assert(vs.map_values(|v: ViolationView| fail_line(v)) + us.map_values(|u: (Seq<char>, Seq<char>)| unverified_line(u))
        =~= Seq::<Seq<char>>::empty());
}

/// Every violation belongs to the group of its file: the groups hold as
/// many violations as were reported.
pub proof fn lemma_groups_count_every_violation(vs: Seq<ViolationView>)
    ensures
        violation_total(group_failures(vs)) == vs.len(),
    decreases vs.len(),
{
    if vs.len() > 0 {
        lemma_groups_count_every_violation(vs.drop_last());
        let gs = group_failures(vs.drop_last());
        let v = vs.last();
        let p = group_pos(gs, v.file);
        lemma_group_pos_bounds(gs, v.file);
        if p > 0 && path_order(gs[p - 1].file, v.file) == 0 {
            let g = gs[p - 1];
            lemma_totals_update(
                gs,
                p - 1,
                FailureView {
                    file: g.file,
                    functions: add_function(g.functions, (v.line, v.function)),
                    violations: g.violations + 1,
                },
            );
        } else {
            lemma_totals_insert(gs, p, FailureView { file: v.file, functions: seq![(v.line, v.function)], violations: 1 });
        }
    }
}

proof fn lemma_group_pos_bounds(gs: Seq<FailureView>, file: Seq<char>)
    ensures
        0 <= group_pos(gs, file) <= gs.len(),
    decreases gs.len(),
{
    if gs.len() > 0 && path_order(gs.last().file, file) > 0 {
        lemma_group_pos_bounds(gs.drop_last(), file);
    }
}

} // verus!
