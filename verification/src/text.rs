use vstd::prelude::*;
use vstd::string::StringSliceAdditionalSpecFns;

verus! {

/// The characters of a string slice, in order.
pub fn chars_of(s: &str) -> (v: Vec<char>)
    ensures
        v@ == s@,
{
    let mut v: Vec<char> = Vec::new();
    for c in it: s.chars()
        invariant
            v@ == it.seq().take(it.index() as int),
    {
        v.push(c);
    }
    v
}

/// Unicode `White_Space`, the set `char::is_whitespace` tests.
pub open spec fn is_whitespace(c: char) -> bool {
    let u = c as u32;
    (0x9 <= u && u <= 0xd) || u == 0x20 || u == 0x85 || u == 0xa0 || u == 0x1680
        || (0x2000 <= u && u <= 0x200a) || u == 0x2028 || u == 0x2029 || u == 0x202f
        || u == 0x205f || u == 0x3000
}

pub fn whitespace(c: char) -> (r: bool)
    ensures
        r == is_whitespace(c),
{
    let u = c as u32;
    (0x9 <= u && u <= 0xd) || u == 0x20 || u == 0x85 || u == 0xa0 || u == 0x1680
        || (0x2000 <= u && u <= 0x200a) || u == 0x2028 || u == 0x2029 || u == 0x202f
        || u == 0x205f || u == 0x3000
}

/// `str::trim_start`: drop leading whitespace.
pub open spec fn trim_start(s: Seq<char>) -> Seq<char>
    decreases s.len(),
{
    if s.len() > 0 && is_whitespace(s[0]) {
        trim_start(s.drop_first())
    } else {
        s
    }
}

/// `str::trim_end`: drop trailing whitespace.
pub open spec fn trim_end(s: Seq<char>) -> Seq<char>
    decreases s.len(),
{
    if s.len() > 0 && is_whitespace(s.last()) {
        trim_end(s.drop_last())
    } else {
        s
    }
}

/// `str::trim`: drop whitespace at both ends.
pub open spec fn trim(s: Seq<char>) -> Seq<char> {
    trim_end(trim_start(s))
}

/// The index of the first non-whitespace character at or after `lo` (or `hi`).
pub open spec fn skip_ws_from(s: Seq<char>, lo: int, hi: int) -> int
    decreases hi - lo,
{
    if lo < hi && is_whitespace(s[lo]) {
        skip_ws_from(s, lo + 1, hi)
    } else {
        lo
    }
}

proof fn lemma_skip_ws(s: Seq<char>, lo: int, hi: int)
    requires
        0 <= lo <= hi <= s.len(),
    ensures
        lo <= skip_ws_from(s, lo, hi) <= hi,
        s.subrange(skip_ws_from(s, lo, hi), hi) == trim_start(s.subrange(lo, hi)),
    decreases hi - lo,
{
    if lo < hi && is_whitespace(s[lo]) {
        lemma_skip_ws(s, lo + 1, hi);
        assert(s.subrange(lo, hi).drop_first() =~= s.subrange(lo + 1, hi));
    }
}

pub open spec fn skip_ws_back(s: Seq<char>, lo: int, hi: int) -> int
    decreases hi - lo,
{
    if lo < hi && is_whitespace(s[hi - 1]) {
        skip_ws_back(s, lo, hi - 1)
    } else {
        hi
    }
}

proof fn lemma_skip_ws_back(s: Seq<char>, lo: int, hi: int)
    requires
        0 <= lo <= hi <= s.len(),
    ensures
        lo <= skip_ws_back(s, lo, hi) <= hi,
        s.subrange(lo, skip_ws_back(s, lo, hi)) == trim_end(s.subrange(lo, hi)),
    decreases hi - lo,
{
    if lo < hi && is_whitespace(s[hi - 1]) {
        lemma_skip_ws_back(s, lo, hi - 1);
        assert(s.subrange(lo, hi).drop_last() =~= s.subrange(lo, hi - 1));
    }
}

/// Bounds of `trim(s[lo..hi])` inside `s`.
pub fn trim_bounds(s: &Vec<char>, lo: usize, hi: usize) -> (r: (usize, usize))
    requires
        lo <= hi <= s@.len(),
    ensures
        lo <= r.0 <= r.1 <= hi,
        s@.subrange(r.0 as int, r.1 as int) == trim(s@.subrange(lo as int, hi as int)),
{
    let mut a = lo;
    while a < hi && whitespace(s[a])
        invariant
            lo <= a <= hi <= s@.len(),
            skip_ws_from(s@, a as int, hi as int) == skip_ws_from(s@, lo as int, hi as int),
        decreases hi - a,
    {
        a = a + 1;
    }
    let mut b = hi;
    while a < b && whitespace(s[b - 1])
        invariant
            lo <= a <= b <= hi <= s@.len(),
            skip_ws_back(s@, a as int, b as int) == skip_ws_back(s@, a as int, hi as int),
        decreases b - a,
    {
        b = b - 1;
    }
    proof {
        lemma_skip_ws(s@, lo as int, hi as int);
        lemma_skip_ws_back(s@, a as int, hi as int);
        let t = s@.subrange(lo as int, hi as int);
        assert(trim_start(t) =~= s@.subrange(a as int, hi as int));
    }
    (a, b)
}

/// `p` occurs in `s` at index `i`.
pub open spec fn occurs_at(s: Seq<char>, p: Seq<char>, i: int) -> bool {
    0 <= i && i + p.len() <= s.len() && s.subrange(i, i + p.len()) == p
}

/// `str::contains` with a string pattern.
pub open spec fn contains(s: Seq<char>, p: Seq<char>) -> bool {
    exists|i: int| occurs_at(s, p, i)
}

/// `str::starts_with` with a string pattern.
pub open spec fn starts_with(s: Seq<char>, p: Seq<char>) -> bool {
    occurs_at(s, p, 0)
}

/// Whether `p` occurs in `s[lo..hi]` at `i`, checked character by character.
pub fn occurs_at_exec(s: &Vec<char>, hi: usize, p: &Vec<char>, i: usize) -> (r: bool)
    requires
        hi <= s@.len(),
    ensures
        r == (i + p@.len() <= hi && occurs_at(s@, p@, i as int)),
{
    if i > hi || p.len() > hi - i {
        return false;
    }
    let mut k: usize = 0;
    while k < p.len()
        invariant
            i + p@.len() <= hi <= s@.len(),
            k <= p@.len(),
            forall|j: int| 0 <= j < k ==> s@[i + j] == p@[j],
        decreases p@.len() - k,
    {
        if s[i + k] != p[k] {
            assert(s@.subrange(i as int, i + p@.len())[k as int] != p@[k as int]);
            return false;
        }
        k = k + 1;
    }
    assert(s@.subrange(i as int, i + p@.len()) =~= p@);
    true
}

/// `s[lo..hi]` contains `p`.
pub fn contains_in(s: &Vec<char>, lo: usize, hi: usize, p: &Vec<char>) -> (r: bool)
    requires
        lo <= hi <= s@.len(),
    ensures
        r == contains(s@.subrange(lo as int, hi as int), p@),
{
    let ghost t = s@.subrange(lo as int, hi as int);
    let mut i = lo;
    loop
        invariant
            lo <= i <= hi,
            hi <= s@.len(),
            t == s@.subrange(lo as int, hi as int),
            forall|j: int| 0 <= j < i - lo ==> !occurs_at(t, p@, j),
        decreases hi - i,
    {
        if occurs_at_exec(s, hi, p, i) {
            assert(t.subrange(i - lo, i - lo + p@.len()) =~= s@.subrange(
                i as int,
                i + p@.len(),
            ));
            assert(occurs_at(t, p@, i - lo));
            return true;
        }
        assert(!occurs_at(t, p@, i - lo)) by {
            if occurs_at(t, p@, i - lo) {
                assert(t.subrange(i - lo, i - lo + p@.len()) =~= s@.subrange(
                    i as int,
                    i + p@.len(),
                ));
            }
        }
        if i == hi {
            assert(!contains(t, p@)) by {
                if contains(t, p@) {
                    let j = choose|j: int| occurs_at(t, p@, j);
                    assert(j <= t.len());
                }
            }
            return false;
        }
        i = i + 1;
    }
}

/// Equality of two string slices, decided on their UTF-8 bytes.
pub fn str_eq(a: &str, b: &str) -> (r: bool)
    ensures
        r == (a@ == b@),
{
    let x = a.as_bytes();
    let y = b.as_bytes();
    proof {
        vstd::utf8::encode_utf8_decode_utf8(a@);
        vstd::utf8::encode_utf8_decode_utf8(b@);
    }
    if x.len() != y.len() {
        return false;
    }
    let mut i: usize = 0;
    while i < x.len()
        invariant
            x@ == a.spec_bytes(),
            y@ == b.spec_bytes(),
            x@.len() == y@.len(),
            i <= x@.len(),
            forall|j: int| 0 <= j < i ==> x@[j] == y@[j],
        decreases x@.len() - i,
    {
        if x[i] != y[i] {
            return false;
        }
        i = i + 1;
    }
    assert(x@ =~= y@);
    true
}

/// The ASCII lower-case form of a character (`char::to_ascii_lowercase`).
pub open spec fn ascii_lower(c: char) -> char {
    if 'A' <= c && c <= 'Z' {
        ((c as u32) + 32) as char
    } else {
        c
    }
}

pub open spec fn ascii_lowercase(s: Seq<char>) -> Seq<char> {
    Seq::new(s.len(), |i: int| ascii_lower(s[i]))
}

pub fn lower_char(c: char) -> (r: char)
    ensures
        r == ascii_lower(c),
{
    if 'A' <= c && c <= 'Z' {
        let u: u32 = (c as u32) + 32;
        proof {
            assert(u < 0xd800);
            vstd::utf8::char_u32_cast(((c as u32) + 32) as char, u);
        }
        char_from_ascii(u)
    } else {
        c
    }
}

fn char_from_ascii(u: u32) -> (r: char)
    requires
        u < 0x80,
    ensures
        r == u as char,
{
    let b: u8 = u as u8;
    b as char
}

/// The length of a string slice in UTF-8 bytes.
pub fn byte_len(s: &str) -> (r: usize)
    ensures
        r as int == s.spec_bytes().len(),
{
    s.as_bytes().len()
}

/// The first `c` at or after `i`, or the length.
pub open spec fn char_from(s: Seq<char>, c: char, i: int) -> int
    decreases s.len() - i,
{
    if i < 0 || i >= s.len() {
        s.len() as int
    } else if s[i] == c {
        i
    } else {
        char_from(s, c, i + 1)
    }
}

pub proof fn lemma_char_from(s: Seq<char>, c: char, i: int)
    requires
        0 <= i <= s.len(),
    ensures
        i <= char_from(s, c, i) <= s.len(),
        forall|j: int| i <= j < char_from(s, c, i) ==> s[j] != c,
        char_from(s, c, i) < s.len() ==> s[char_from(s, c, i)] == c,
    decreases s.len() - i,
{
    if i < s.len() && s[i] != c {
        lemma_char_from(s, c, i + 1);
    }
}

/// A line without the `\r` of a `\r\n` ending.
pub open spec fn strip_cr(l: Seq<char>) -> Seq<char> {
    if l.len() > 0 && l.last() == '\r' {
        l.drop_last()
    } else {
        l
    }
}

/// `str::lines` from index `i`: pieces ended by `\n` (a `\r` before it
/// dropped); a last piece without `\n` is kept as it is.
pub open spec fn lines_from(s: Seq<char>, i: int) -> Seq<Seq<char>>
    decreases s.len() - i,
{
    if i < 0 || i >= s.len() {
        seq![]
    } else {
        let k = char_from(s, '\n', i);
        if k < i || k > s.len() {
            seq![]
        } else if k == s.len() {
            seq![s.subrange(i, k)]
        } else {
            seq![strip_cr(s.subrange(i, k))] + lines_from(s, k + 1)
        }
    }
}

/// `str::lines`.
pub open spec fn lines(s: Seq<char>) -> Seq<Seq<char>> {
    lines_from(s, 0)
}

/// The character ranges of `lines(s)`, and for each the index of the next
/// line's start.
pub fn line_ranges(s: &Vec<char>) -> (r: Vec<(usize, usize)>)
    ensures
        r@.len() == lines(s@).len(),
        forall|k: int|
            0 <= k < r@.len() ==> #[trigger] r@[k].0 <= r@[k].1 <= s@.len() && s@.subrange(
                r@[k].0 as int,
                r@[k].1 as int,
            ) == lines(s@)[k],
        forall|k: int| 0 < k < r@.len() ==> r@[k - 1].1 < #[trigger] r@[k].0,
{
    let n = s.len();
    let mut out: Vec<(usize, usize)> = Vec::new();
    let mut i: usize = 0;
    while i < n
        invariant
            n == s@.len(),
            i <= n,
            out@.len() + lines_from(s@, i as int).len() == lines(s@).len(),
            forall|k: int|
                0 <= k < out@.len() ==> #[trigger] out@[k].0 <= out@[k].1 <= s@.len()
                    && s@.subrange(out@[k].0 as int, out@[k].1 as int) == lines(s@)[k],
            forall|k: int|
                0 <= k < lines_from(s@, i as int).len() ==> #[trigger] lines_from(s@, i as int)[k]
                    == lines(s@)[out@.len() + k],
            forall|k: int| 0 < k < out@.len() ==> out@[k - 1].1 < #[trigger] out@[k].0,
            out@.len() > 0 ==> out@[out@.len() - 1].1 < i || i == n,
        decreases n - i,
    {
        let start = i;
        while i < n && s[i] != '\n'
            invariant
                start <= i <= n,
                n == s@.len(),
                out@.len() > 0 ==> out@[out@.len() - 1].1 < start,
                char_from(s@, '\n', i as int) == char_from(s@, '\n', start as int),
            decreases n - i,
        {
            i = i + 1;
        }
        proof {
            lemma_char_from(s@, '\n', start as int);
        }
        let ghost rest = lines_from(s@, start as int);
        let ghost k0 = out@.len();
        if i == n {
            assert(rest =~= seq![s@.subrange(start as int, i as int)]);
            out.push((start, i));
            assert(rest[0] == lines(s@)[k0 as int]);
            assert(lines_from(s@, i as int) =~= Seq::<Seq<char>>::empty());
        } else {
            let mut end = i;
            if end > start && s[end - 1] == '\r' {
                end = end - 1;
            }
            assert(s@.subrange(start as int, end as int) == strip_cr(s@.subrange(start as int, i as int))) by {
                if i > start && s@[i - 1] == '\r' {
                    assert(s@.subrange(start as int, i as int).drop_last() =~= s@.subrange(start as int, end as int));
                } else {
                    assert(end == i);
                }
            }
            assert(rest == seq![strip_cr(s@.subrange(start as int, i as int))] + lines_from(s@, i + 1));
            out.push((start, end));
            assert(rest[0] == lines(s@)[k0 as int]);
            assert forall|k: int| 0 <= k < lines_from(s@, i + 1).len() implies #[trigger] lines_from(s@, i + 1)[k]
                == lines(s@)[out@.len() + k] by {
                assert(lines_from(s@, i + 1)[k] == rest[k + 1]);
            }
            i = i + 1;
        }
    }
    assert(lines_from(s@, i as int) =~= Seq::<Seq<char>>::empty());
    out
}

/// Start of `trim_start(s[lo..hi])` inside `s`.
pub fn trim_start_from(s: &Vec<char>, lo: usize, hi: usize) -> (r: usize)
    requires
        lo <= hi <= s@.len(),
    ensures
        lo <= r <= hi,
        s@.subrange(r as int, hi as int) == trim_start(s@.subrange(lo as int, hi as int)),
{
    let mut a = lo;
    while a < hi && whitespace(s[a])
        invariant
            lo <= a <= hi <= s@.len(),
            skip_ws_from(s@, a as int, hi as int) == skip_ws_from(s@, lo as int, hi as int),
        decreases hi - a,
    {
        a = a + 1;
    }
    proof {
        lemma_skip_ws(s@, lo as int, hi as int);
    }
    a
}

/// `s[lo..hi]` starts with `lit`.
pub fn starts_with_str(s: &Vec<char>, lo: usize, hi: usize, lit: &str) -> (r: bool)
    requires
        lo <= hi <= s@.len(),
    ensures
        r == starts_with(s@.subrange(lo as int, hi as int), lit@),
{
    let p = chars_of(lit);
    let r = occurs_at_exec(s, hi, &p, lo);
    proof {
        let t = s@.subrange(lo as int, hi as int);
        if lo + p@.len() <= hi {
            assert(t.subrange(0, p@.len() as int) =~= s@.subrange(lo as int, lo + p@.len()));
        }
    }
    r
}

/// `s[lo..hi]` contains `lit`.
pub fn contains_str(s: &Vec<char>, lo: usize, hi: usize, lit: &str) -> (r: bool)
    requires
        lo <= hi <= s@.len(),
    ensures
        r == contains(s@.subrange(lo as int, hi as int), lit@),
{
    let p = chars_of(lit);
    contains_in(s, lo, hi, &p)
}

/// Whether `s[lo..hi]` holds the character `c`.
pub fn has_char(s: &Vec<char>, lo: usize, hi: usize, c: char) -> (r: bool)
    requires
        lo <= hi <= s@.len(),
    ensures
        r == s@.subrange(lo as int, hi as int).contains(c),
{
    let mut i = lo;
    while i < hi
        invariant
            lo <= i <= hi <= s@.len(),
            forall|j: int| lo <= j < i ==> s@[j] != c,
        decreases hi - i,
    {
        if s[i] == c {
            assert(s@.subrange(lo as int, hi as int)[i - lo] == c);
            return true;
        }
        i = i + 1;
    }
    assert(!s@.subrange(lo as int, hi as int).contains(c)) by {
        if s@.subrange(lo as int, hi as int).contains(c) {
            let j = choose|j: int| 0 <= j < hi - lo && s@.subrange(lo as int, hi as int)[j] == c;
            assert(s@[lo + j] == c);
        }
    }
    false
}

/// Whether `s[lo..hi]` spells `lit`.
pub fn range_is_str(s: &Vec<char>, lo: usize, hi: usize, lit: &str) -> (r: bool)
    requires
        lo <= hi <= s@.len(),
    ensures
        r == (s@.subrange(lo as int, hi as int) == lit@),
{
    let p = chars_of(lit);
    if hi - lo != p.len() {
        return false;
    }
    let r = occurs_at_exec(s, hi, &p, lo);
    proof {
        if r {
            assert(s@.subrange(lo as int, hi as int) =~= s@.subrange(lo as int, lo + p@.len()));
        }
    }
    r
}

/// The value of a string of decimal digits.
pub open spec fn digits_value(s: Seq<char>) -> int
    decreases s.len(),
{
    if s.len() == 0 {
        0
    } else {
        digits_value(s.drop_last()) * 10 + (s.last() as u32 - '0' as u32)
    }
}

pub open spec fn all_digits(s: Seq<char>) -> bool {
    forall|i: int| 0 <= i < s.len() ==> '0' <= #[trigger] s[i] && s[i] <= '9'
}

/// `str::parse::<usize>`: an optional `+`, then at least one digit and
/// nothing else, with a value that fits.
pub open spec fn parse_usize(s: Seq<char>) -> Option<usize> {
    let d = if s.len() > 0 && s[0] == '+' { s.drop_first() } else { s };
    if d.len() > 0 && all_digits(d) && digits_value(d) <= usize::MAX {
        Some(digits_value(d) as usize)
    } else {
        None
    }
}

pub proof fn lemma_digits_value_nonneg(s: Seq<char>)
    requires
        all_digits(s),
    ensures
        digits_value(s) >= 0,
    decreases s.len(),
{
    if s.len() > 0 {
        assert(all_digits(s.drop_last()));
        lemma_digits_value_nonneg(s.drop_last());
    }
}

proof fn lemma_digits_value_grows(s: Seq<char>, k: int)
    requires
        all_digits(s),
        0 <= k <= s.len(),
    ensures
        digits_value(s.take(k)) <= digits_value(s),
    decreases s.len() - k,
{
    if k < s.len() {
        lemma_digits_value_grows(s, k + 1);
        assert(s.take(k + 1).drop_last() =~= s.take(k));
        assert(all_digits(s.take(k)));
        lemma_digits_value_nonneg(s.take(k));
    } else {
        assert(s.take(k) =~= s);
    }
}

/// `parse_usize` of `s[lo..hi]`.
pub fn parse_usize_range(s: &Vec<char>, lo: usize, hi: usize) -> (r: Option<usize>)
    requires
        lo <= hi <= s@.len(),
    ensures
        r == parse_usize(s@.subrange(lo as int, hi as int)),
{
    let ghost t = s@.subrange(lo as int, hi as int);
    let mut a = lo;
    if a < hi && s[a] == '+' {
        a = a + 1;
    }
    let ghost d = s@.subrange(a as int, hi as int);
    assert(d == (if t.len() > 0 && t[0] == '+' { t.drop_first() } else { t }));
    if a == hi {
        return None;
    }
    let mut v: usize = 0;
    let mut i = a;
    while i < hi
        invariant
            a <= i <= hi <= s@.len(),
            a < hi,
            d == s@.subrange(a as int, hi as int),
            t == s@.subrange(lo as int, hi as int),
            d == (if t.len() > 0 && t[0] == '+' { t.drop_first() } else { t }),
            all_digits(d.take(i - a)),
            v as int == digits_value(d.take(i - a)),
        decreases hi - i,
    {
        let c = s[i];
        if !('0' <= c && c <= '9') {
            assert(!all_digits(d)) by {
                assert(d[i - a] == c);
            }
            return None;
        }
        let digit: usize = (c as u32 - '0' as u32) as usize;
        assert(d.take(i + 1 - a).drop_last() =~= d.take(i - a));
        if v > (usize::MAX - digit) / 10 {
            proof {
                assert(digits_value(d.take(i + 1 - a)) == v * 10 + digit);
                assert(v * 10 + digit > usize::MAX) by (nonlinear_arith)
                    requires
                        v > (usize::MAX - digit) / 10,
                        digit <= 9,
                ;
                if all_digits(d) {
                    lemma_digits_value_grows(d, i + 1 - a);
                }
            }
            return None;
        }
        assert(v * 10 + digit <= usize::MAX) by (nonlinear_arith)
            requires
                v <= (usize::MAX - digit) / 10,
                digit <= 9,
        ;
        v = v * 10 + digit;
        i = i + 1;
        assert(all_digits(d.take(i - a)));
    }
    assert(d.take(i - a) =~= d);
    Some(v)
}

/// A copy of `s[lo..hi]`.
pub fn copy_range(s: &Vec<char>, lo: usize, hi: usize) -> (r: Vec<char>)
    requires
        lo <= hi <= s@.len(),
    ensures
        r@ == s@.subrange(lo as int, hi as int),
{
    let mut r: Vec<char> = Vec::new();
    let mut i = lo;
    while i < hi
        invariant
            lo <= i <= hi <= s@.len(),
            r@ == s@.subrange(lo as int, i as int),
        decreases hi - i,
    {
        r.push(s[i]);
        i = i + 1;
        assert(r@ =~= s@.subrange(lo as int, i as int));
    }
    r
}

/// `char_from`: the first `c` at or after `i`, or the length.
pub fn char_from_exec(s: &Vec<char>, c: char, i: usize) -> (r: usize)
    requires
        i <= s@.len(),
    ensures
        r as int == char_from(s@, c, i as int),
        i <= r <= s@.len(),
{
    let mut j = i;
    while j < s.len() && s[j] != c
        invariant
            i <= j <= s@.len(),
            char_from(s@, c, j as int) == char_from(s@, c, i as int),
        decreases s@.len() - j,
    {
        j = j + 1;
    }
    j
}

/// `str::find` from index `i`: the first index at or after `i` where `p`
/// occurs.
pub open spec fn find_from(s: Seq<char>, p: Seq<char>, i: int) -> Option<int>
    decreases s.len() - i,
{
    if i < 0 || i > s.len() {
        None
    } else if occurs_at(s, p, i) {
        Some(i)
    } else if i == s.len() {
        None
    } else {
        find_from(s, p, i + 1)
    }
}

pub proof fn lemma_find_from(s: Seq<char>, p: Seq<char>, i: int)
    requires
        0 <= i <= s.len(),
    ensures
        find_from(s, p, i) matches Some(k) ==> i <= k && occurs_at(s, p, k) && k + p.len() <= s.len(),
    decreases s.len() - i,
{
    if !occurs_at(s, p, i) && i < s.len() {
        lemma_find_from(s, p, i + 1);
    }
}

/// `find_from` for a literal pattern.
pub fn find_str(s: &Vec<char>, from: usize, lit: &str) -> (r: Option<usize>)
    requires
        from <= s@.len(),
    ensures
        match r {
            Some(k) => find_from(s@, lit@, from as int) == Some(k as int),
            None => find_from(s@, lit@, from as int) is None,
        },
{
    let p = chars_of(lit);
    let n = s.len();
    let mut i = from;
    loop
        invariant
            from <= i <= n,
            n == s@.len(),
            p@ == lit@,
            find_from(s@, p@, i as int) == find_from(s@, p@, from as int),
        decreases n - i,
    {
        if occurs_at_exec(s, n, &p, i) {
            return Some(i);
        }
        if i == n {
            return None;
        }
        i = i + 1;
    }
}

/// How many `c` there are in `s`.
pub open spec fn count_char(s: Seq<char>, c: char) -> int
    decreases s.len(),
{
    if s.len() == 0 {
        0
    } else {
        count_char(s.drop_last(), c) + if s.last() == c { 1int } else { 0 }
    }
}

/// `count_char` of `s[..hi]`.
pub fn count_char_upto(s: &Vec<char>, c: char, hi: usize) -> (r: usize)
    requires
        hi <= s@.len(),
    ensures
        r as int == count_char(s@.take(hi as int), c),
        r <= hi,
{
    let mut n: usize = 0;
    let mut i: usize = 0;
    assert(s@.take(0) =~= Seq::<char>::empty());
    while i < hi
        invariant
            i <= hi <= s@.len(),
            n as int == count_char(s@.take(i as int), c),
            n <= i,
        decreases hi - i,
    {
        assert(s@.take(i + 1).drop_last() =~= s@.take(i as int));
        if s[i] == c {
            n = n + 1;
        }
        i = i + 1;
    }
    n
}

/// The number of UTF-8 bytes of a character.
pub open spec fn utf8_width(c: char) -> int {
    let u = c as u32;
    if u <= 0x7f {
        1
    } else if u <= 0x7ff {
        2
    } else if u <= 0xffff {
        3
    } else {
        4
    }
}

pub proof fn lemma_encode_concat(a: Seq<char>, b: Seq<char>)
    ensures
        vstd::utf8::encode_utf8(a + b) == vstd::utf8::encode_utf8(a) + vstd::utf8::encode_utf8(b),
    decreases a.len(),
{
    if a.len() == 0 {
        assert(a + b =~= b);
        assert(vstd::utf8::encode_utf8(a) =~= Seq::<u8>::empty());
        assert(Seq::<u8>::empty() + vstd::utf8::encode_utf8(b) =~= vstd::utf8::encode_utf8(b));
    } else {
        lemma_encode_concat(a.drop_first(), b);
        assert((a + b).drop_first() =~= a.drop_first() + b);
        assert((a + b)[0] == a[0]);
        vstd::seq_lib::lemma_concat_associative(
            vstd::utf8::encode_scalar(a[0] as u32),
            vstd::utf8::encode_utf8(a.drop_first()),
            vstd::utf8::encode_utf8(b),
        );
    }
}

pub proof fn lemma_encode_push(a: Seq<char>, c: char)
    ensures
        vstd::utf8::encode_utf8(a.push(c)).len() == vstd::utf8::encode_utf8(a).len() + utf8_width(c),
{
    lemma_encode_concat(a, seq![c]);
    assert(a.push(c) =~= a + seq![c]);
    vstd::utf8::char_is_scalar(c);
    assert(seq![c].drop_first() =~= Seq::<char>::empty());
    assert(vstd::utf8::encode_utf8(Seq::<char>::empty()) =~= Seq::<u8>::empty());
    assert(seq![c][0] == c);
    assert(vstd::utf8::encode_utf8(seq![c]) == vstd::utf8::encode_scalar(c as u32) + vstd::utf8::encode_utf8(
        seq![c].drop_first(),
    ));
    assert(vstd::utf8::encode_utf8(seq![c]) =~= vstd::utf8::encode_scalar(c as u32));
}

/// The UTF-8 length of `s[lo..hi]`, where `s` as a whole fits a `usize`.
pub fn utf8_len_range(s: &Vec<char>, lo: usize, hi: usize) -> (r: usize)
    requires
        lo <= hi <= s@.len(),
        vstd::utf8::encode_utf8(s@).len() <= usize::MAX,
    ensures
        r as int == vstd::utf8::encode_utf8(s@.subrange(lo as int, hi as int)).len(),
{
    proof {
        lemma_encode_concat(s@.subrange(0, lo as int), s@.subrange(lo as int, s@.len() as int));
        lemma_encode_concat(s@.subrange(lo as int, hi as int), s@.subrange(hi as int, s@.len() as int));
        assert(s@ =~= s@.subrange(0, lo as int) + s@.subrange(lo as int, s@.len() as int));
        assert(s@.subrange(lo as int, s@.len() as int) =~= s@.subrange(lo as int, hi as int) + s@.subrange(
            hi as int,
            s@.len() as int,
        ));
    }
    let ghost total = vstd::utf8::encode_utf8(s@.subrange(lo as int, hi as int)).len();
    let mut n: usize = 0;
    let mut i = lo;
    assert(s@.subrange(lo as int, lo as int) =~= Seq::<char>::empty());
    while i < hi
        invariant
            lo <= i <= hi <= s@.len(),
            n as int == vstd::utf8::encode_utf8(s@.subrange(lo as int, i as int)).len(),
            total == vstd::utf8::encode_utf8(s@.subrange(lo as int, hi as int)).len(),
            total <= usize::MAX,
        decreases hi - i,
    {
        proof {
            lemma_encode_push(s@.subrange(lo as int, i as int), s@[i as int]);
            assert(s@.subrange(lo as int, i + 1) =~= s@.subrange(lo as int, i as int).push(s@[i as int]));
            lemma_encode_concat(s@.subrange(lo as int, i + 1), s@.subrange(i + 1, hi as int));
            assert(s@.subrange(lo as int, hi as int) =~= s@.subrange(lo as int, i + 1) + s@.subrange(
                i + 1,
                hi as int,
            ));
        }
        let c = s[i];
        let u = c as u32;
        let w: usize = if u <= 0x7f {
            1
        } else if u <= 0x7ff {
            2
        } else if u <= 0xffff {
            3
        } else {
            4
        };
        n = n + w;
        i = i + 1;
    }
    n
}

pub proof fn lemma_encode_len_ge(s: Seq<char>)
    ensures
        vstd::utf8::encode_utf8(s).len() >= s.len(),
    decreases s.len(),
{
    if s.len() > 0 {
        lemma_encode_len_ge(s.drop_last());
        lemma_encode_push(s.drop_last(), s.last());
        assert(s.drop_last().push(s.last()) =~= s);
    }
}

pub proof fn lemma_encode_len_le(s: Seq<char>)
    ensures
        vstd::utf8::encode_utf8(s).len() <= 4 * s.len(),
    decreases s.len(),
{
    if s.len() > 0 {
        lemma_encode_len_le(s.drop_last());
        lemma_encode_push(s.drop_last(), s.last());
        assert(s.drop_last().push(s.last()) =~= s);
    }
}

pub proof fn lemma_count_char_le(s: Seq<char>, c: char)
    ensures
        0 <= count_char(s, c) <= s.len(),
    decreases s.len(),
{
    if s.len() > 0 {
        lemma_count_char_le(s.drop_last(), c);
    }
}

} // verus!
