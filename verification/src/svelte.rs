//! Svelte components: script blocks are measured as JavaScript or
//! TypeScript, the template as one synthetic function.

use vstd::prelude::*;
use vstd::utf8::encode_utf8;
use crate::language::{FunctionMetrics, Language, MetricsView};
use crate::text::{
    chars_of, contains, contains_str, count_char, count_char_upto, find_from, find_str, lines, trim,
    trim_bounds, utf8_len_range,
};

verus! {

/// A `<script>` or `<style>` block: the character positions of its `<`,
/// of the end of its opening tag and of its closing tag; its byte range
/// (through the closing tag); and the line its content starts on (0-based).
#[derive(Clone, Copy, Debug)]
pub struct SvelteBlock {
    pub script: bool,
    pub start: usize,
    pub open_end: usize,
    pub close: usize,
    pub start_byte: usize,
    pub end_byte: usize,
    pub start_line: usize,
}

pub open spec fn open_tag(script: bool) -> Seq<char> {
    if script {
        "<script"@
    } else {
        "<style"@
    }
}

pub open spec fn close_tag(script: bool) -> Seq<char> {
    if script {
        "</script>"@
    } else {
        "</style>"@
    }
}

/// The block whose opening tag starts at `st` and ends at `g`, closed at
/// `en`.
pub open spec fn block_at(src: Seq<char>, script: bool, st: int, g: int, en: int) -> SvelteBlock {
    SvelteBlock {
        script,
        start: st as usize,
        open_end: (g + 1) as usize,
        close: en as usize,
        start_byte: encode_utf8(src.take(st)).len() as usize,
        end_byte: (encode_utf8(src.take(en)).len() + close_tag(script).len()) as usize,
        start_line: count_char(src.take(g + 1), '\n') as usize,
    }
}

fn make_block(src: &Vec<char>, script: bool, st: usize, g: usize, en: usize, close_len: usize) -> (b: SvelteBlock)
    requires
        st <= g < en,
        en + close_len <= src@.len(),
        close_len == close_tag(script).len(),
        encode_utf8(src@).len() <= usize::MAX,
    ensures
        b == block_at(src@, script, st as int, g as int, en as int),
{
    proof {
        crate::text::lemma_encode_concat(src@.take(en as int), src@.subrange(en as int, en + close_len));
        assert(src@.take(en + close_len) =~= src@.take(en as int) + src@.subrange(en as int, en + close_len));
        crate::text::lemma_encode_len_ge(src@.subrange(en as int, en + close_len));
        crate::text::lemma_encode_concat(src@.take(en + close_len), src@.skip(en + close_len));
        assert(src@ =~= src@.take(en + close_len) + src@.skip(en + close_len));
    }
    let start_byte = utf8_len_range(src, 0, st);
    let en_byte = utf8_len_range(src, 0, en);
    assert(src@.subrange(0, st as int) =~= src@.take(st as int));
    assert(src@.subrange(0, en as int) =~= src@.take(en as int));
    let start_line = count_char_upto(src, '\n', g + 1);
    SvelteBlock {
        script,
        start: st,
        open_end: g + 1,
        close: en,
        start_byte,
        end_byte: en_byte + close_len,
        start_line,
    }
}

/// The blocks of one kind from character `cursor` on: an opening tag, the
/// first `>` after it, and the first closing tag after that.
pub open spec fn blocks_from(src: Seq<char>, script: bool, cursor: int) -> Seq<SvelteBlock>
    decreases src.len() - cursor,
{
    match find_from(src, open_tag(script), cursor) {
        None => seq![],
        Some(st) => match find_from(src, ">"@, st) {
            None => seq![],
            Some(g) => match find_from(src, close_tag(script), g + 1) {
                None => seq![],
                Some(en) => {
                    let b = block_at(src, script, st, g, en);
                    let next = en + close_tag(script).len();
                    if next > cursor && next <= src.len() {
                        seq![b] + blocks_from(src, script, next)
                    } else {
                        seq![b]
                    }
                },
            },
        },
    }
}

/// The script blocks, then the style blocks.
pub open spec fn svelte_blocks(src: Seq<char>) -> Seq<SvelteBlock> {
    blocks_from(src, true, 0) + blocks_from(src, false, 0)
}

/// Appends the blocks of one kind.
pub fn blocks_of(src: &Vec<char>, script: bool, out: &mut Vec<SvelteBlock>)
    requires
        encode_utf8(src@).len() <= usize::MAX,
    ensures
        final(out)@ == old(out)@ + blocks_from(src@, script, 0),
{
    let open = if script { "<script" } else { "<style" };
    let close = if script { "</script>" } else { "</style>" };
    assert(open@ == open_tag(script));
    assert(close@ == close_tag(script));
    let close_len = chars_of(close).len();
    let n = src.len();
    let ghost start_out = out@;
    let mut cursor: usize = 0;
    loop
        invariant
            cursor <= n,
            n == src@.len(),
            start_out == old(out)@,
            encode_utf8(src@).len() <= usize::MAX,
            open@ == open_tag(script),
            close@ == close_tag(script),
            close_len == close_tag(script).len(),
            start_out + blocks_from(src@, script, 0) == out@ + blocks_from(src@, script, cursor as int),
        decreases n - cursor,
    {
        let ghost before = out@;
        proof {
            crate::text::lemma_find_from(src@, open_tag(script), cursor as int);
        }
        let st = match find_str(src, cursor, open) {
            Some(k) => k,
            None => {
                assert(out@ + blocks_from(src@, script, cursor as int) =~= out@);
                return;
            },
        };
        proof {
            crate::text::lemma_find_from(src@, ">"@, st as int);
        }
        let g = match find_str(src, st, ">") {
            Some(k) => k,
            None => {
                assert(out@ + blocks_from(src@, script, cursor as int) =~= out@);
                return;
            },
        };
        proof {
            reveal_strlit(">");
            crate::text::lemma_find_from(src@, close_tag(script), g + 1);
        }
        let en = match find_str(src, g + 1, close) {
            Some(k) => k,
            None => {
                assert(out@ + blocks_from(src@, script, cursor as int) =~= out@);
                return;
            },
        };
        let b = make_block(src, script, st, g, en, close_len);
        out.push(b);
        let next = en + close_len;
        if next > cursor && next <= n {
            assert(blocks_from(src@, script, cursor as int) == seq![b] + blocks_from(src@, script, next as int));
            assert(out@ + blocks_from(src@, script, next as int) =~= before + blocks_from(src@, script, cursor as int));
            cursor = next;
        } else {
            assert(blocks_from(src@, script, cursor as int) == seq![b]);
            assert(out@ =~= before + blocks_from(src@, script, cursor as int));
            return;
        }
    }
}

/// Every block lies inside the text: its opening tag starts before the end
/// of the tag, its content ends at or after that, and its first line is no
/// further than its content's start.
pub open spec fn block_in_bounds(src: Seq<char>, b: SvelteBlock) -> bool {
    &&& b.start < b.open_end <= b.close <= src.len()
    &&& b.start_line <= b.open_end
}

pub proof fn lemma_blocks_in_bounds(src: Seq<char>, script: bool, cursor: int)
    requires
        0 <= cursor <= src.len() <= usize::MAX,
    ensures
        forall|i: int|
            0 <= i < blocks_from(src, script, cursor).len() ==> block_in_bounds(
                src,
                #[trigger] blocks_from(src, script, cursor)[i],
            ),
    decreases src.len() - cursor,
{
    crate::text::lemma_find_from(src, open_tag(script), cursor);
    if let Some(st) = find_from(src, open_tag(script), cursor) {
        crate::text::lemma_find_from(src, ">"@, st);
        if let Some(g) = find_from(src, ">"@, st) {
            reveal_strlit(">");
            crate::text::lemma_find_from(src, close_tag(script), g + 1);
            if let Some(en) = find_from(src, close_tag(script), g + 1) {
                crate::text::lemma_count_char_le(src.take(g + 1), '\n');
                let b = block_at(src, script, st, g, en);
                assert(block_in_bounds(src, b));
                let next = en + close_tag(script).len();
                if next > cursor && next <= src.len() {
                    lemma_blocks_in_bounds(src, script, next);
                    let rest = blocks_from(src, script, next);
                    assert forall|i: int| 0 <= i < blocks_from(src, script, cursor).len() implies block_in_bounds(
                        src,
                        #[trigger] blocks_from(src, script, cursor)[i],
                    ) by {
                        if i > 0 {
                            assert(blocks_from(src, script, cursor)[i] == rest[i - 1]);
                        }
                    }
                }
            }
        }
    }
}

// ---------------------------------------------------------------- template

/// Two adjacent characters spelling `&&`, `||` or `??`.
pub open spec fn is_pair(a: char, b: char) -> bool {
    (a == '&' && b == '&') || (a == '|' && b == '|') || (a == '?' && b == '?')
}

/// How many adjacent character pairs of a line spell `&&`, `||` or `??`
/// (overlapping pairs each count).
pub open spec fn pair_count(l: Seq<char>) -> int
    decreases l.len(),
{
    if l.len() < 2 {
        0
    } else {
        pair_count(l.drop_last()) + if is_pair(l[l.len() - 2], l.last()) {
            1int
        } else {
            0
        }
    }
}

/// A `?` at `k` that is a ternary: neither half of `??` (nor `??=`) nor the
/// start of optional chaining `?.`.
pub open spec fn is_ternary_at(l: Seq<char>, k: int) -> bool {
    &&& l[k] == '?'
    &&& k + 1 >= l.len() || (l[k + 1] != '?' && l[k + 1] != '.')
    &&& k == 0 || l[k - 1] != '?'
}

/// How many of the first `n` characters of `l` are ternary `?`s.
pub open spec fn ternaries_upto(l: Seq<char>, n: int) -> int
    decreases n,
{
    if n <= 0 {
        0
    } else {
        ternaries_upto(l, n - 1) + if is_ternary_at(l, n - 1) {
            1int
        } else {
            0
        }
    }
}

/// Logical operators and ternaries on a template line: each `&&`, `||` and
/// `??` pair, and each ternary `?`. Optional chaining counts nothing.
pub open spec fn expression_decisions(l: Seq<char>) -> int {
    pair_count(l) + ternaries_upto(l, l.len() as int)
}

pub open spec fn flag(b: bool) -> int {
    if b {
        1
    } else {
        0
    }
}

/// The decisions a trimmed template line adds: one per block keyword it
/// holds, and its expression decisions.
pub open spec fn line_decisions(t: Seq<char>) -> int {
    flag(contains(t, "{#if "@)) + flag(contains(t, "{:else if "@)) + flag(contains(t, "{#each "@))
        + flag(contains(t, "{#await "@)) + flag(contains(t, "{:catch"@)) + expression_decisions(t)
}

/// A line that closes a block.
pub open spec fn closes_block(t: Seq<char>) -> bool {
    contains(t, "{/if}"@) || contains(t, "{/each}"@) || contains(t, "{/await}"@)
}

/// A line that opens a block.
pub open spec fn opens_block(t: Seq<char>) -> bool {
    contains(t, "{#if "@) || contains(t, "{#each "@) || contains(t, "{#await "@)
}

/// Complexity, depth and deepest depth after one more trimmed template
/// line: a closing line first leaves a block, an opening line then enters
/// one.
pub open spec fn template_step(st: (int, int, int), t: Seq<char>) -> (int, int, int) {
    let c = st.0 + line_decisions(t);
    let d = if closes_block(t) {
        if st.1 > 0 {
            st.1 - 1
        } else {
            0
        }
    } else {
        st.1
    };
    if opens_block(t) {
        (c, d + 1, if d + 1 > st.2 {
            d + 1
        } else {
            st.2
        })
    } else {
        (c, d, st.2)
    }
}

/// The byte offset given to line `k`: each earlier line's UTF-8 length
/// plus one.
pub open spec fn line_offset(ls: Seq<Seq<char>>, k: int) -> int
    decreases k,
{
    if k <= 0 {
        0
    } else {
        line_offset(ls, k - 1) + encode_utf8(ls[k - 1]).len() + 1
    }
}

/// Byte `b` lies inside one of the blocks.
pub open spec fn in_block(blocks: Seq<SvelteBlock>, b: int) -> bool {
    exists|i: int| 0 <= i < blocks.len() && #[trigger] blocks[i].start_byte <= b && b < blocks[i].end_byte
}

/// The template state after the first `k` lines; a line whose offset lies
/// in a block is skipped.
pub open spec fn template_upto(ls: Seq<Seq<char>>, blocks: Seq<SvelteBlock>, k: int) -> (int, int, int)
    decreases k,
{
    if k <= 0 {
        (1, 0, 0)
    } else {
        let prev = template_upto(ls, blocks, k - 1);
        if in_block(blocks, line_offset(ls, k - 1)) {
            prev
        } else {
            template_step(prev, trim(ls[k - 1]))
        }
    }
}

/// The template measured as one function `<template>` from line 1 to the
/// last line, with no lines or parameters counted.
pub open spec fn template_metrics(src: Seq<char>, blocks: Seq<SvelteBlock>) -> MetricsView {
    let ls = lines(src);
    let st = template_upto(ls, blocks, ls.len() as int);
    MetricsView {
        function: "<template>"@,
        line: 1,
        end_line: if ls.len() > 1 {
            ls.len() as int
        } else {
            1
        },
        complexity: st.0,
        depth: st.2,
        lines: 0,
        params: 0,
        bool_ops: 0,
        widget_depth: 0,
    }
}

/// The decisions of the line `s[lo..hi]`, whether it closes a block and
/// whether it opens one.
fn line_score(s: &Vec<char>, lo: usize, hi: usize) -> (r: (usize, bool, bool))
    requires
        lo <= hi <= s@.len(),
        hi - lo + 5 <= usize::MAX,
    ensures
        r.0 as int == line_decisions(s@.subrange(lo as int, hi as int)),
        r.0 <= 5 + (hi - lo),
        r.1 == closes_block(s@.subrange(lo as int, hi as int)),
        r.2 == opens_block(s@.subrange(lo as int, hi as int)),
{
    let mut p: usize = 0;
    let mut q: usize = 0;
    let mut i = lo;
    let ghost l = s@.subrange(lo as int, hi as int);
    assert(s@.subrange(lo as int, lo as int) =~= Seq::<char>::empty());
    while i < hi
        invariant
            lo <= i <= hi <= s@.len(),
            l == s@.subrange(lo as int, hi as int),
            p as int == pair_count(s@.subrange(lo as int, i as int)),
            q as int == ternaries_upto(l, i - lo),
            p + q <= i - lo,
        decreases hi - i,
    {
        let ghost u = s@.subrange(lo as int, i + 1);
        assert(u.drop_last() =~= s@.subrange(lo as int, i as int));
        assert(u.last() == s@[i as int]);
        if i > lo {
            assert(u[u.len() - 2] == s@[i - 1]);
            let a = s[i - 1];
            let b = s[i];
            if (a == '&' && b == '&') || (a == '|' && b == '|') || (a == '?' && b == '?') {
                p = p + 1;
            }
        }
        let ternary = s[i] == '?' && (i + 1 >= hi || (s[i + 1] != '?' && s[i + 1] != '.')) && (i == lo
            || s[i - 1] != '?');
        assert(l[i - lo] == s@[i as int]);
        assert(i + 1 < hi ==> l[i - lo + 1] == s@[i + 1]);
        assert(i > lo ==> l[i - lo - 1] == s@[i - 1]);
        assert(ternary == is_ternary_at(l, i - lo));
        if ternary {
            q = q + 1;
        }
        i = i + 1;
    }
    assert(s@.subrange(lo as int, i as int) =~= l);
    let e = p + q;
    let if_ = contains_str(s, lo, hi, "{#if ");
    let else_if = contains_str(s, lo, hi, "{:else if ");
    let each = contains_str(s, lo, hi, "{#each ");
    let await_ = contains_str(s, lo, hi, "{#await ");
    let catch = contains_str(s, lo, hi, "{:catch");
    let mut d: usize = e;
    if if_ {
        d = d + 1;
    }
    if else_if {
        d = d + 1;
    }
    if each {
        d = d + 1;
    }
    if await_ {
        d = d + 1;
    }
    if catch {
        d = d + 1;
    }
    let closes = contains_str(s, lo, hi, "{/if}") || contains_str(s, lo, hi, "{/each}") || contains_str(
        s,
        lo,
        hi,
        "{/await}",
    );
    (d, closes, if_ || each || await_)
}

/// `in_block`.
fn in_block_exec(blocks: &Vec<SvelteBlock>, b: usize) -> (r: bool)
    ensures
        r == in_block(blocks@, b as int),
{
    let mut i: usize = 0;
    while i < blocks.len()
        invariant
            i <= blocks@.len(),
            forall|j: int|
                0 <= j < i ==> !(#[trigger] blocks@[j].start_byte <= b && b < blocks@[j].end_byte),
        decreases blocks@.len() - i,
    {
        if blocks[i].start_byte <= b && b < blocks[i].end_byte {
            return true;
        }
        i = i + 1;
    }
    false
}

/// `template_metrics` of the text, given its line ranges.
pub fn measure_template(chars: &Vec<char>, ranges: &Vec<(usize, usize)>, blocks: &Vec<SvelteBlock>) -> (m:
    FunctionMetrics)
    requires
        chars@.len() <= usize::MAX / 8,
        encode_utf8(chars@).len() <= usize::MAX,
        ranges@.len() == lines(chars@).len(),
        forall|k: int|
            0 <= k < ranges@.len() ==> #[trigger] ranges@[k].0 <= ranges@[k].1 <= chars@.len() && chars@.subrange(
                ranges@[k].0 as int,
                ranges@[k].1 as int,
            ) == lines(chars@)[k],
        forall|k: int| 0 < k < ranges@.len() ==> ranges@[k - 1].1 < #[trigger] ranges@[k].0,
    ensures
        m@ == template_metrics(chars@, blocks@),
{
    let ghost ls = lines(chars@);
    let n = ranges.len();
    let mut complexity: usize = 1;
    let mut depth: usize = 0;
    let mut max_depth: usize = 0;
    let mut byte: usize = 0;
    let mut pos: usize = 0;
    let mut k: usize = 0;
    while k < n
        invariant
            k <= n,
            n == ranges@.len(),
            ls == lines(chars@),
            ls.len() == n,
            chars@.len() <= usize::MAX / 8,
            encode_utf8(chars@).len() <= usize::MAX,
            forall|j: int|
                0 <= j < ranges@.len() ==> #[trigger] ranges@[j].0 <= ranges@[j].1 <= chars@.len()
                    && chars@.subrange(ranges@[j].0 as int, ranges@[j].1 as int) == ls[j],
            forall|j: int| 0 < j < ranges@.len() ==> ranges@[j - 1].1 < #[trigger] ranges@[j].0,
            (complexity as int, depth as int, max_depth as int) == template_upto(ls, blocks@, k as int),
            byte as int == line_offset(ls, k as int),
            byte <= 4 * pos,
            complexity <= 1 + 6 * pos,
            depth <= pos,
            max_depth <= pos,
            pos <= chars@.len() + 1,
            k < n ==> pos <= ranges@[k as int].0,
        decreases n - k,
    {
        let (a, e) = ranges[k];
        proof {
            crate::text::lemma_encode_len_le(chars@.subrange(a as int, e as int));
            if k + 1 < n {
                assert(ranges@[k as int].1 < ranges@[k + 1].0);
            }
        }
        let w = utf8_len_range(chars, a, e);
        if !in_block_exec(blocks, byte) {
            let (ta, te) = trim_bounds(chars, a, e);
            let (d, closes, opens) = line_score(chars, ta, te);
            complexity = complexity + d;
            if closes {
                depth = if depth > 0 {
                    depth - 1
                } else {
                    0
                };
            }
            if opens {
                depth = depth + 1;
                if depth > max_depth {
                    max_depth = depth;
                }
            }
        }
        byte = byte + w + 1;
        pos = e + 1;
        k = k + 1;
    }
    let end_line = if n > 1 {
        n
    } else {
        1
    };
    FunctionMetrics {
        function: "<template>".to_owned(),
        line: 1,
        end_line,
        complexity,
        depth: max_depth,
        lines: 0,
        params: 0,
        bool_ops: 0,
        widget_depth: 0,
    }
}

// ------------------------------------------------------------ template laws

proof fn lemma_pair_count_nonneg(l: Seq<char>)
    ensures
        pair_count(l) >= 0,
    decreases l.len(),
{
    if l.len() >= 2 {
        lemma_pair_count_nonneg(l.drop_last());
    }
}

proof fn lemma_ternaries_nonneg(l: Seq<char>, n: int)
    ensures
        ternaries_upto(l, n) >= 0,
    decreases n,
{
    if n > 0 {
        lemma_ternaries_nonneg(l, n - 1);
    }
}

/// Two adjacent characters spelling `&&`, `||` or `??` make a pair count.
proof fn lemma_pair_counts(l: Seq<char>, i: int)
    requires
        0 <= i,
        i + 1 < l.len(),
        is_pair(l[i], l[i + 1]),
    ensures
        pair_count(l) >= 1,
    decreases l.len(),
{
    lemma_pair_count_nonneg(l.drop_last());
    if i + 2 < l.len() {
        assert(l.drop_last()[i] == l[i] && l.drop_last()[i + 1] == l[i + 1]);
        lemma_pair_counts(l.drop_last(), i);
    }
}

/// A ternary `?` makes the count of ternaries up to any later point positive.
proof fn lemma_ternary_counts(l: Seq<char>, k: int, n: int)
    requires
        0 <= k < n,
        is_ternary_at(l, k),
    ensures
        ternaries_upto(l, n) >= 1,
    decreases n,
{
    lemma_ternaries_nonneg(l, n - 1);
    if k < n - 1 {
        lemma_ternary_counts(l, k, n - 1);
    }
}

/// The decisions of a template line: each of the block keywords `{#if `,
/// `{:else if `, `{#each `, `{#await ` and `{:catch` it holds adds one; an
/// `&&`, `||` or `??` adds at least one more, and so does a ternary `?`.
/// A line with none of these adds nothing.
pub proof fn lemma_template_line_decisions(t: Seq<char>)
    ensures
        line_decisions(t) >= (if contains(t, "{#if "@) {
            1int
        } else {
            0
        }) + (if contains(t, "{:else if "@) {
            1int
        } else {
            0
        }) + (if contains(t, "{#each "@) {
            1int
        } else {
            0
        }) + (if contains(t, "{#await "@) {
            1int
        } else {
            0
        }) + (if contains(t, "{:catch"@) {
            1int
        } else {
            0
        }) + (if (exists|i: int| 0 <= i && i + 1 < t.len() && #[trigger] is_pair(t[i], t[i + 1])) {
            1int
        } else {
            0
        }),
        (exists|k: int| 0 <= k < t.len() && #[trigger] is_ternary_at(t, k)) ==> line_decisions(t) >= 1,
        !contains(t, "{#if "@) && !contains(t, "{:else if "@) && !contains(t, "{#each "@) && !contains(
            t,
            "{#await "@,
        ) && !contains(t, "{:catch"@) && (forall|i: int| 0 <= i < t.len() ==> t[i] != '&' && t[i] != '|' && t[i]
            != '?') ==> line_decisions(t) == 0,
{
    lemma_pair_count_nonneg(t);
    lemma_ternaries_nonneg(t, t.len() as int);
    if exists|i: int| 0 <= i && i + 1 < t.len() && #[trigger] is_pair(t[i], t[i + 1]) {
        let i = choose|i: int| 0 <= i && i + 1 < t.len() && #[trigger] is_pair(t[i], t[i + 1]);
        lemma_pair_counts(t, i);
    }
    if exists|k: int| 0 <= k < t.len() && #[trigger] is_ternary_at(t, k) {
        let k = choose|k: int| 0 <= k < t.len() && #[trigger] is_ternary_at(t, k);
        lemma_ternary_counts(t, k, t.len() as int);
    }
    if forall|i: int| 0 <= i < t.len() ==> t[i] != '&' && t[i] != '|' && t[i] != '?' {
        lemma_no_pairs(t);
        lemma_no_ternaries(t, t.len() as int);
    }
}

proof fn lemma_no_pairs(l: Seq<char>)
    requires
        forall|i: int| 0 <= i < l.len() ==> l[i] != '&' && l[i] != '|' && l[i] != '?',
    ensures
        pair_count(l) == 0,
    decreases l.len(),
{
    if l.len() >= 2 {
        lemma_no_pairs(l.drop_last());
        assert(l[l.len() - 2] != '&' && l[l.len() - 2] != '|' && l[l.len() - 2] != '?');
    }
}

proof fn lemma_no_ternaries(l: Seq<char>, n: int)
    requires
        n <= l.len(),
        forall|i: int| 0 <= i < l.len() ==> l[i] != '&' && l[i] != '|' && l[i] != '?',
    ensures
        ternaries_upto(l, n) == 0,
    decreases n,
{
    if n > 0 {
        lemma_no_ternaries(l, n - 1);
        assert(l[n - 1] != '?');
    }
}

/// How a template line moves the block depth: a line holding `{#if `,
/// `{#each ` or `{#await ` (and no closing tag) opens a level one deeper
/// and the deepest level seen reaches it; a line holding `{/if}`, `{/each}`
/// or `{/await}` (and no opening tag) closes one, never below zero; other
/// lines leave the depth alone. The decisions always grow by the line's.
pub proof fn lemma_template_line_depth(st: (int, int, int), t: Seq<char>)
    requires
        st.1 >= 0,
    ensures
        template_step(st, t).0 == st.0 + line_decisions(t),
        (contains(t, "{#if "@) || contains(t, "{#each "@) || contains(t, "{#await "@)) && !contains(t, "{/if}"@)
            && !contains(t, "{/each}"@) && !contains(t, "{/await}"@) ==> template_step(st, t).1 == st.1 + 1
            && template_step(st, t).2 >= st.1 + 1,
        !contains(t, "{#if "@) && !contains(t, "{#each "@) && !contains(t, "{#await "@) && (contains(t, "{/if}"@)
            || contains(t, "{/each}"@) || contains(t, "{/await}"@)) ==> template_step(st, t).1 == if st.1 > 0 {
            st.1 - 1
        } else {
            0
        },
        !contains(t, "{#if "@) && !contains(t, "{#each "@) && !contains(t, "{#await "@) && !contains(t, "{/if}"@)
            && !contains(t, "{/each}"@) && !contains(t, "{/await}"@) ==> template_step(st, t).1 == st.1
            && template_step(st, t).2 == st.2,
        template_step(st, t).2 >= st.2,
{
}

} // verus!
