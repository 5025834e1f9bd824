//! Unix path semantics on strings: components, comparison, joining.

use vstd::prelude::*;
use crate::text::chars_of;
use vstd::string::StrSliceExecFns;

verus! {

/// The kinds of component a Unix path is made of.
#[derive(PartialEq, Eq, Structural, Clone, Copy, Debug)]
pub enum PartKind {
    Root,
    Cur,
    Parent,
    Normal,
}

/// A component together with the characters of the path that spell it.
#[derive(Clone, Copy, Debug)]
pub struct PartSpan {
    pub kind: PartKind,
    pub lo: usize,
    pub hi: usize,
}

/// The first `/` at or after `i`, or the length.
pub open spec fn slash_from(s: Seq<char>, i: int) -> int
    decreases s.len() - i,
{
    if i < 0 || i >= s.len() {
        s.len() as int
    } else if s[i] == '/' {
        i
    } else {
        slash_from(s, i + 1)
    }
}

pub proof fn lemma_slash_from(s: Seq<char>, i: int)
    requires
        0 <= i <= s.len(),
    ensures
        i <= slash_from(s, i) <= s.len(),
        forall|j: int| i <= j < slash_from(s, i) ==> s[j] != '/',
        slash_from(s, i) < s.len() ==> s[slash_from(s, i)] == '/',
    decreases s.len() - i,
{
    if i < s.len() && s[i] != '/' {
        lemma_slash_from(s, i + 1);
    }
}

/// The component that the piece `s[i..k]` between two separators stands for.
pub open spec fn piece_parts(s: Seq<char>, i: int, k: int) -> Seq<PartSpan> {
    if k == i || (k == i + 1 && s[i] == '.') {
        seq![]
    } else if k == i + 2 && s[i] == '.' && s[i + 1] == '.' {
        seq![PartSpan { kind: PartKind::Parent, lo: i as usize, hi: k as usize }]
    } else {
        seq![PartSpan { kind: PartKind::Normal, lo: i as usize, hi: k as usize }]
    }
}

/// Components of `s[i..]`, where `i` starts a piece.
pub open spec fn parts_from(s: Seq<char>, i: int) -> Seq<PartSpan>
    decreases s.len() - i,
{
    if i < 0 || i >= s.len() {
        seq![]
    } else {
        let k = slash_from(s, i);
        if k < i || k > s.len() {
            seq![]
        } else if k == s.len() {
            piece_parts(s, i, k)
        } else {
            piece_parts(s, i, k) + parts_from(s, k + 1)
        }
    }
}

/// `s` begins with the current-directory component `.`.
pub open spec fn starts_cur(s: Seq<char>) -> bool {
    s.len() > 0 && s[0] == '.' && (s.len() == 1 || s[1] == '/')
}

/// The components of a Unix path, as `Path::components` yields them.
pub open spec fn path_parts(s: Seq<char>) -> Seq<PartSpan> {
    if s.len() > 0 && s[0] == '/' {
        seq![PartSpan { kind: PartKind::Root, lo: 0, hi: 1 }] + parts_from(s, 1)
    } else if starts_cur(s) {
        seq![PartSpan { kind: PartKind::Cur, lo: 0, hi: 1 }] + parts_from(s, 1)
    } else {
        parts_from(s, 0)
    }
}

pub proof fn lemma_parts_from_bounds(s: Seq<char>, i: int)
    requires
        0 <= i,
        s.len() <= usize::MAX,
    ensures
        forall|j: int|
            0 <= j < parts_from(s, i).len() ==> i <= #[trigger] parts_from(s, i)[j].lo
                < parts_from(s, i)[j].hi <= s.len(),
    decreases s.len() - i,
{
    if i < s.len() {
        lemma_slash_from(s, i);
        let k = slash_from(s, i);
        if k < s.len() {
            lemma_parts_from_bounds(s, k + 1);
        }
        let a = piece_parts(s, i, k);
        let b = if k < s.len() { parts_from(s, k + 1) } else { seq![] };
        assert(parts_from(s, i) =~= a + b);
        assert forall|j: int| 0 <= j < parts_from(s, i).len() implies i <= #[trigger] parts_from(
            s,
            i,
        )[j].lo < parts_from(s, i)[j].hi <= s.len() by {
            if j >= a.len() {
                assert(parts_from(s, i)[j] == b[j - a.len()]);
            } else {
                assert(parts_from(s, i)[j] == a[j]);
            }
        }
    }
}

/// Every component lies inside the path.
pub proof fn lemma_path_parts_bounds(s: Seq<char>)
    requires
        s.len() <= usize::MAX,
    ensures
        forall|j: int|
            0 <= j < path_parts(s).len() ==> 0 <= #[trigger] path_parts(s)[j].lo
                < path_parts(s)[j].hi <= s.len(),
{
    if s.len() > 0 && s[0] == '/' || starts_cur(s) {
        lemma_parts_from_bounds(s, 1);
        assert forall|j: int| 0 <= j < path_parts(s).len() implies 0 <= #[trigger] path_parts(
            s,
        )[j].lo < path_parts(s)[j].hi <= s.len() by {
            if j > 0 {
                assert(path_parts(s)[j] == parts_from(s, 1)[j - 1]);
            }
        }
    } else {
        lemma_parts_from_bounds(s, 0);
    }
}

proof fn lemma_parts_from_ordered(s: Seq<char>, i: int)
    requires
        0 <= i,
        s.len() <= usize::MAX,
    ensures
        forall|a: int, b: int|
            0 <= a < b < parts_from(s, i).len() ==> #[trigger] parts_from(s, i)[a].hi
                <= #[trigger] parts_from(s, i)[b].lo,
    decreases s.len() - i,
{
    if i < s.len() {
        lemma_slash_from(s, i);
        let k = slash_from(s, i);
        if k < s.len() {
            lemma_parts_from_ordered(s, k + 1);
            lemma_parts_from_bounds(s, k + 1);
        }
        let a = piece_parts(s, i, k);
        let b = if k < s.len() { parts_from(s, k + 1) } else { seq![] };
        assert(parts_from(s, i) =~= a + b);
        assert forall|x: int, y: int|
            0 <= x < y < parts_from(s, i).len() implies #[trigger] parts_from(s, i)[x].hi
            <= #[trigger] parts_from(s, i)[y].lo by {
            if x >= a.len() {
                assert(parts_from(s, i)[x] == b[x - a.len()]);
                assert(parts_from(s, i)[y] == b[y - a.len()]);
            } else {
                assert(parts_from(s, i)[x] == a[x]);
                assert(parts_from(s, i)[y] == b[y - a.len()]);
            }
        }
    }
}

/// Components appear in order, separated.
pub proof fn lemma_parts_ordered(s: Seq<char>)
    requires
        s.len() <= usize::MAX,
    ensures
        forall|a: int, b: int|
            0 <= a < b < path_parts(s).len() ==> #[trigger] path_parts(s)[a].hi
                <= #[trigger] path_parts(s)[b].lo,
{
    if s.len() > 0 && s[0] == '/' || starts_cur(s) {
        lemma_parts_from_ordered(s, 1);
        lemma_parts_from_bounds(s, 1);
        assert forall|a: int, b: int|
            0 <= a < b < path_parts(s).len() implies #[trigger] path_parts(s)[a].hi
            <= #[trigger] path_parts(s)[b].lo by {
            assert(path_parts(s)[b] == parts_from(s, 1)[b - 1]);
            if a > 0 {
                assert(path_parts(s)[a] == parts_from(s, 1)[a - 1]);
            }
        }
    } else {
        lemma_parts_from_ordered(s, 0);
    }
}

/// The components of `s`.
pub fn parts_of(s: &Vec<char>) -> (r: Vec<PartSpan>)
    ensures
        r@ == path_parts(s@),
{
    let n = s.len();
    let mut out: Vec<PartSpan> = Vec::new();
    let mut i: usize = 0;
    if n > 0 && s[0] == '/' {
        out.push(PartSpan { kind: PartKind::Root, lo: 0, hi: 1 });
        i = 1;
    } else if n > 0 && s[0] == '.' && (n == 1 || s[1] == '/') {
        out.push(PartSpan { kind: PartKind::Cur, lo: 0, hi: 1 });
        i = 1;
    }
    while i < n
        invariant
            n == s@.len(),
            i <= n,
            out@ + parts_from(s@, i as int) == path_parts(s@),
        decreases n - i,
    {
        let start = i;
        while i < n && s[i] != '/'
            invariant
                start <= i <= n,
                n == s@.len(),
                slash_from(s@, i as int) == slash_from(s@, start as int),
            decreases n - i,
        {
            i = i + 1;
        }
        let ghost before = out@;
        let len = i - start;
        if len == 0 || (len == 1 && s[start] == '.') {
        } else if len == 2 && s[start] == '.' && s[start + 1] == '.' {
            out.push(PartSpan { kind: PartKind::Parent, lo: start, hi: i });
        } else {
            out.push(PartSpan { kind: PartKind::Normal, lo: start, hi: i });
        }
        assert(out@ == before + piece_parts(s@, start as int, i as int));
        proof { lemma_slash_from(s@, start as int); }
        if i == n {
            assert(parts_from(s@, start as int) == piece_parts(s@, start as int, i as int));
            assert(parts_from(s@, i as int) =~= Seq::<PartSpan>::empty());
            assert(out@ + parts_from(s@, i as int) =~= before + parts_from(s@, start as int));
        } else {
            assert(parts_from(s@, start as int) == piece_parts(s@, start as int, i as int)
                + parts_from(s@, i + 1));
            assert(before + parts_from(s@, start as int) == out@ + parts_from(s@, i + 1)) by {
                vstd::seq_lib::lemma_concat_associative(
                    before,
                    piece_parts(s@, start as int, i as int),
                    parts_from(s@, i + 1),
                );
            }
            i = i + 1;
        }
    }
    assert(out@ + parts_from(s@, i as int) =~= out@);
    out
}

/// The rank of a component kind in `Component`'s ordering.
pub open spec fn kind_rank(k: PartKind) -> int {
    match k {
        PartKind::Root => 0,
        PartKind::Cur => 1,
        PartKind::Parent => 2,
        PartKind::Normal => 3,
    }
}

/// A component as it takes part in comparisons: its rank and, for a normal
/// component, its name.
pub open spec fn component(s: Seq<char>, p: PartSpan) -> (int, Seq<char>) {
    (
        kind_rank(p.kind),
        if p.kind == PartKind::Normal {
            s.subrange(p.lo as int, p.hi as int)
        } else {
            seq![]
        },
    )
}

/// The components of a path in comparable form.
pub open spec fn components(s: Seq<char>) -> Seq<(int, Seq<char>)> {
    path_parts(s).map_values(|p: PartSpan| component(s, p))
}

/// Three-way lexicographic order of character sequences (`-1`, `0`, `1`).
pub open spec fn seq_order(a: Seq<char>, b: Seq<char>) -> int
    decreases a.len(),
{
    if a.len() == 0 {
        if b.len() == 0 {
            0
        } else {
            -1
        }
    } else if b.len() == 0 {
        1
    } else if (a[0] as u32) < (b[0] as u32) {
        -1
    } else if (a[0] as u32) > (b[0] as u32) {
        1
    } else {
        seq_order(a.drop_first(), b.drop_first())
    }
}

pub open spec fn component_order(x: (int, Seq<char>), y: (int, Seq<char>)) -> int {
    if x.0 < y.0 {
        -1
    } else if x.0 > y.0 {
        1
    } else {
        seq_order(x.1, y.1)
    }
}

/// Three-way lexicographic order of component sequences.
pub open spec fn components_order(x: Seq<(int, Seq<char>)>, y: Seq<(int, Seq<char>)>) -> int
    decreases x.len(),
{
    if x.len() == 0 {
        if y.len() == 0 {
            0
        } else {
            -1
        }
    } else if y.len() == 0 {
        1
    } else if component_order(x[0], y[0]) != 0 {
        component_order(x[0], y[0])
    } else {
        components_order(x.drop_first(), y.drop_first())
    }
}

/// `Path`'s ordering: component by component.
pub open spec fn path_order(a: Seq<char>, b: Seq<char>) -> int {
    components_order(components(a), components(b))
}

/// `Path`'s equality: the same components.
pub open spec fn same_path(a: Seq<char>, b: Seq<char>) -> bool {
    components(a) == components(b)
}

proof fn lemma_seq_order_eq(a: Seq<char>, b: Seq<char>)
    ensures
        seq_order(a, b) == 0 <==> a == b,
        -1 <= seq_order(a, b) <= 1,
    decreases a.len(),
{
    if a.len() == 0 && b.len() == 0 {
        assert(a =~= b);
    } else if a.len() > 0 && b.len() > 0 && a[0] == b[0] {
        lemma_seq_order_eq(a.drop_first(), b.drop_first());
        if a.drop_first() == b.drop_first() {
            assert(a =~= seq![a[0]] + a.drop_first());
            assert(b =~= seq![b[0]] + b.drop_first());
        }
    } else if a.len() > 0 && b.len() > 0 {
        assert((a[0] as u32) != (b[0] as u32)) by {
            vstd::utf8::char_u32_cast(a[0], a[0] as u32);
            vstd::utf8::char_u32_cast(b[0], b[0] as u32);
        }
    }
}

pub proof fn lemma_components_order_eq(x: Seq<(int, Seq<char>)>, y: Seq<(int, Seq<char>)>)
    ensures
        components_order(x, y) == 0 <==> x == y,
        -1 <= components_order(x, y) <= 1,
    decreases x.len(),
{
    if x.len() == 0 && y.len() == 0 {
        assert(x =~= y);
    } else if x.len() > 0 && y.len() > 0 {
        lemma_seq_order_eq(x[0].1, y[0].1);
        assert(component_order(x[0], y[0]) == 0 <==> x[0] == y[0]);
        if component_order(x[0], y[0]) == 0 {
            lemma_components_order_eq(x.drop_first(), y.drop_first());
            if x.drop_first() == y.drop_first() {
                assert(x =~= seq![x[0]] + x.drop_first());
                assert(y =~= seq![y[0]] + y.drop_first());
            }
        } else {
            assert(x[0] != y[0]);
        }
    }
}

pub proof fn lemma_seq_order_antisym(a: Seq<char>, b: Seq<char>)
    ensures
        seq_order(b, a) == -seq_order(a, b),
    decreases a.len(),
{
    if a.len() > 0 && b.len() > 0 && (a[0] as u32) == (b[0] as u32) {
        lemma_seq_order_antisym(a.drop_first(), b.drop_first());
    }
}

pub proof fn lemma_seq_order_trans(a: Seq<char>, b: Seq<char>, c: Seq<char>)
    requires
        seq_order(a, b) < 0,
        seq_order(b, c) < 0,
    ensures
        seq_order(a, c) < 0,
    decreases a.len(),
{
    if a.len() > 0 && b.len() > 0 && c.len() > 0 && (a[0] as u32) == (b[0] as u32) && (b[0] as u32) == (
    c[0] as u32) {
        lemma_seq_order_trans(a.drop_first(), b.drop_first(), c.drop_first());
    }
}

proof fn lemma_component_order_props(x: (int, Seq<char>), y: (int, Seq<char>), z: (int, Seq<char>))
    ensures
        component_order(x, y) == 0 <==> x == y,
        component_order(y, x) == -component_order(x, y),
        -1 <= component_order(x, y) <= 1,
        component_order(x, y) < 0 && component_order(y, z) < 0 ==> component_order(x, z) < 0,
{
    lemma_seq_order_eq(x.1, y.1);
    lemma_seq_order_antisym(x.1, y.1);
    if component_order(x, y) < 0 && component_order(y, z) < 0 && x.0 == y.0 && y.0 == z.0 {
        lemma_seq_order_trans(x.1, y.1, z.1);
    }
}

pub proof fn lemma_components_order_antisym(x: Seq<(int, Seq<char>)>, y: Seq<(int, Seq<char>)>)
    ensures
        components_order(y, x) == -components_order(x, y),
    decreases x.len(),
{
    if x.len() > 0 && y.len() > 0 {
        lemma_component_order_props(x[0], y[0], y[0]);
        if component_order(x[0], y[0]) == 0 {
            lemma_components_order_antisym(x.drop_first(), y.drop_first());
        }
    }
}

pub proof fn lemma_components_order_trans(
    x: Seq<(int, Seq<char>)>,
    y: Seq<(int, Seq<char>)>,
    z: Seq<(int, Seq<char>)>,
)
    requires
        components_order(x, y) < 0,
        components_order(y, z) < 0,
    ensures
        components_order(x, z) < 0,
    decreases x.len(),
{
    if x.len() > 0 && y.len() > 0 && z.len() > 0 {
        lemma_component_order_props(x[0], y[0], z[0]);
        lemma_component_order_props(y[0], z[0], x[0]);
        lemma_component_order_props(x[0], z[0], y[0]);
        if component_order(x[0], y[0]) == 0 && component_order(y[0], z[0]) == 0 {
            lemma_components_order_trans(x.drop_first(), y.drop_first(), z.drop_first());
        }
    }
}

/// `Path`'s order is a total order on components: `0` exactly for equal
/// paths, reversed by swapping, and transitive.
pub proof fn lemma_path_order(a: Seq<char>, b: Seq<char>, c: Seq<char>)
    ensures
        path_order(a, b) == 0 <==> same_path(a, b),
        path_order(b, a) == -path_order(a, b),
        -1 <= path_order(a, b) <= 1,
        path_order(a, b) < 0 && path_order(b, c) < 0 ==> path_order(a, c) < 0,
        same_path(a, b) ==> path_order(a, c) == path_order(b, c) && path_order(c, a) == path_order(c, b),
{
    lemma_components_order_eq(components(a), components(b));
    lemma_components_order_antisym(components(a), components(b));
    if path_order(a, b) < 0 && path_order(b, c) < 0 {
        lemma_components_order_trans(components(a), components(b), components(c));
    }
}

pub proof fn lemma_seq_order(a: Seq<char>, b: Seq<char>, c: Seq<char>)
    ensures
        seq_order(a, b) == 0 <==> a == b,
        seq_order(b, a) == -seq_order(a, b),
        -1 <= seq_order(a, b) <= 1,
        seq_order(a, b) < 0 && seq_order(b, c) < 0 ==> seq_order(a, c) < 0,
{
    lemma_seq_order_eq(a, b);
    lemma_seq_order_antisym(a, b);
    if seq_order(a, b) < 0 && seq_order(b, c) < 0 {
        lemma_seq_order_trans(a, b, c);
    }
}

/// Order of `a[alo..ahi]` and `b[blo..bhi]`.
fn range_order(a: &Vec<char>, alo: usize, ahi: usize, b: &Vec<char>, blo: usize, bhi: usize) -> (r: i8)
    requires
        alo <= ahi <= a@.len(),
        blo <= bhi <= b@.len(),
    ensures
        r as int == seq_order(a@.subrange(alo as int, ahi as int), b@.subrange(blo as int, bhi as int)),
    decreases ahi - alo,
{
    let ghost x = a@.subrange(alo as int, ahi as int);
    let ghost y = b@.subrange(blo as int, bhi as int);
    if alo == ahi {
        if blo == bhi {
            0
        } else {
            -1
        }
    } else if blo == bhi {
        1
    } else {
        let c = a[alo];
        let d = b[blo];
        if (c as u32) < (d as u32) {
            -1
        } else if (c as u32) > (d as u32) {
            1
        } else {
            assert(x.drop_first() =~= a@.subrange(alo + 1, ahi as int));
            assert(y.drop_first() =~= b@.subrange(blo + 1, bhi as int));
            range_order(a, alo + 1, ahi, b, blo + 1, bhi)
        }
    }
}

fn part_order_exec(a: &Vec<char>, p: PartSpan, b: &Vec<char>, q: PartSpan) -> (r: i8)
    requires
        p.lo <= p.hi <= a@.len(),
        q.lo <= q.hi <= b@.len(),
    ensures
        r as int == component_order(component(a@, p), component(b@, q)),
{
    let x: i8 = match p.kind {
        PartKind::Root => 0,
        PartKind::Cur => 1,
        PartKind::Parent => 2,
        PartKind::Normal => 3,
    };
    let y: i8 = match q.kind {
        PartKind::Root => 0,
        PartKind::Cur => 1,
        PartKind::Parent => 2,
        PartKind::Normal => 3,
    };
    if x < y {
        -1
    } else if x > y {
        1
    } else if x == 3 {
        range_order(a, p.lo, p.hi, b, q.lo, q.hi)
    } else {
        0
    }
}

/// Compares two paths the way `Path`'s `Ord` does: `-1`, `0` or `1`.
pub fn path_compare(a: &str, b: &str) -> (r: i8)
    ensures
        r as int == path_order(a@, b@),
{
    let x = chars_of(a);
    let y = chars_of(b);
    let ps = parts_of(&x);
    let qs = parts_of(&y);
    let _xl = x.len();
    let _yl = y.len();
    proof {
        lemma_path_parts_bounds(x@);
        lemma_path_parts_bounds(y@);
    }
    let ghost cx = components(x@);
    let ghost cy = components(y@);
    assert(cx.skip(0) =~= cx);
    assert(cy.skip(0) =~= cy);
    assert(cx.len() == ps@.len());
    assert(cy.len() == qs@.len());
    let mut k: usize = 0;
    while k < ps.len() && k < qs.len()
        invariant
            ps@ == path_parts(x@),
            qs@ == path_parts(y@),
            cx == components(x@),
            cy == components(y@),
            x@ == a@,
            y@ == b@,
            cx.len() == ps@.len(),
            cy.len() == qs@.len(),
            k <= ps@.len(),
            k <= qs@.len(),
            forall|j: int|
                0 <= j < ps@.len() ==> 0 <= #[trigger] ps@[j].lo < ps@[j].hi <= x@.len(),
            forall|j: int|
                0 <= j < qs@.len() ==> 0 <= #[trigger] qs@[j].lo < qs@[j].hi <= y@.len(),
            components_order(cx, cy) == components_order(cx.skip(k as int), cy.skip(k as int)),
        decreases ps@.len() - k,
    {
        assert(ps@[k as int].lo < ps@[k as int].hi <= x@.len());
        assert(qs@[k as int].lo < qs@[k as int].hi <= y@.len());
        let o = part_order_exec(&x, ps[k], &y, qs[k]);
        assert(cx.skip(k as int)[0] == component(x@, ps@[k as int]));
        assert(cy.skip(k as int)[0] == component(y@, qs@[k as int]));
        if o != 0 {
            assert(cx.skip(k as int).len() > 0 && cy.skip(k as int).len() > 0);
            assert(components_order(cx.skip(k as int), cy.skip(k as int)) == o as int);
            return o;
        }
        assert(cx.skip(k as int).drop_first() =~= cx.skip(k + 1));
        assert(cy.skip(k as int).drop_first() =~= cy.skip(k + 1));
        k = k + 1;
    }
    if k < ps.len() {
        1
    } else if k < qs.len() {
        -1
    } else {
        0
    }
}

/// Three-way order of two strings, character by character (`str`'s
/// order, since UTF-8 keeps code point order).
pub fn str_compare(a: &str, b: &str) -> (r: i8)
    ensures
        r as int == seq_order(a@, b@),
{
    let x = chars_of(a);
    let y = chars_of(b);
    assert(x@.subrange(0, x@.len() as int) =~= x@);
    assert(y@.subrange(0, y@.len() as int) =~= y@);
    range_order(&x, 0, x.len(), &y, 0, y.len())
}

/// Whether two paths are equal as `Path`s are (same components).
pub fn path_eq(a: &str, b: &str) -> (r: bool)
    ensures
        r == same_path(a@, b@),
{
    let o = path_compare(a, b);
    proof {
        lemma_components_order_eq(components(a@), components(b@));
    }
    o == 0
}

/// `Path::file_name`: the last component when it is a normal one.
pub open spec fn file_name(s: Seq<char>) -> Option<Seq<char>> {
    let ps = path_parts(s);
    if ps.len() > 0 && ps.last().kind == PartKind::Normal {
        Some(s.subrange(ps.last().lo as int, ps.last().hi as int))
    } else {
        None
    }
}

/// The index of the last `c` in `s[..i]`, or `-1`.
pub open spec fn last_index_before(s: Seq<char>, c: char, i: int) -> int
    decreases i,
{
    if i <= 0 {
        -1
    } else if s[i - 1] == c {
        i - 1
    } else {
        last_index_before(s, c, i - 1)
    }
}

pub proof fn lemma_last_index_before(s: Seq<char>, c: char, i: int)
    requires
        0 <= i <= s.len(),
    ensures
        -1 <= last_index_before(s, c, i) < i,
        last_index_before(s, c, i) >= 0 ==> s[last_index_before(s, c, i)] == c,
    decreases i,
{
    if i > 0 && s[i - 1] != c {
        lemma_last_index_before(s, c, i - 1);
    }
}

/// `Path::extension`: what follows the last `.` of the file name, when the
/// name does not start with that `.`.
pub open spec fn extension(s: Seq<char>) -> Option<Seq<char>> {
    match file_name(s) {
        Some(name) => {
            let d = last_index_before(name, '.', name.len() as int);
            if d > 0 {
                Some(name.skip(d + 1))
            } else {
                None
            }
        },
        None => None,
    }
}

/// The extension of `s` as a range of `s`'s characters.
pub fn extension_range(s: &Vec<char>) -> (r: Option<(usize, usize)>)
    ensures
        match r {
            Some((lo, hi)) => lo <= hi <= s@.len() && extension(s@) == Some(
                s@.subrange(lo as int, hi as int),
            ),
            None => extension(s@) is None,
        },
{
    let ps = parts_of(s);
    let _l = s.len();
    proof {
        lemma_path_parts_bounds(s@);
    }
    if ps.len() == 0 {
        return None;
    }
    let last = ps[ps.len() - 1];
    if last.kind != PartKind::Normal {
        return None;
    }
    let ghost name = s@.subrange(last.lo as int, last.hi as int);
    let mut i = last.hi;
    while i > last.lo && s[i - 1] != '.'
        invariant
            last.lo <= i <= last.hi <= s@.len(),
            name == s@.subrange(last.lo as int, last.hi as int),
            last_index_before(name, '.', i - last.lo) == last_index_before(
                name,
                '.',
                name.len() as int,
            ),
        decreases i,
    {
        i = i - 1;
    }
    proof {
        lemma_last_index_before(name, '.', name.len() as int);
    }
    if i <= last.lo + 1 {
        None
    } else {
        assert(name.skip(i - last.lo) =~= s@.subrange(i as int, last.hi as int));
        Some((i, last.hi))
    }
}

/// `PathBuf::join` on Unix: an absolute `p` replaces `base`; otherwise a
/// separator is added unless `base` is empty or already ends in one.
pub open spec fn join(base: Seq<char>, p: Seq<char>) -> Seq<char> {
    if p.len() > 0 && p[0] == '/' {
        p
    } else if base.len() > 0 && base.last() != '/' {
        base + seq!['/'] + p
    } else {
        base + p
    }
}

pub fn join_paths(base: &str, p: &str) -> (r: String)
    ensures
        r@ == join(base@, p@),
{
    let b = chars_of(base);
    let q = chars_of(p);
    if q.len() > 0 && q[0] == '/' {
        return p.to_owned();
    }
    let mut out = base.to_owned();
    if b.len() > 0 && b[b.len() - 1] != '/' {
        proof {
            reveal_strlit("/");
        }
        out.append("/");
    }
    out.append(p);
    out
}

/// `Path::strip_prefix`: when `base`'s components begin `s`'s, what of `s`
/// spells the remaining ones.
pub open spec fn strip_prefix(s: Seq<char>, base: Seq<char>) -> Option<Seq<char>> {
    let c = components(s);
    let d = components(base);
    let ps = path_parts(s);
    if d.len() <= c.len() && c.take(d.len() as int) == d {
        if d.len() == c.len() {
            Some(seq![])
        } else {
            Some(s.subrange(ps[d.len() as int].lo as int, ps.last().hi as int))
        }
    } else {
        None
    }
}

/// `Path::strip_prefix`, returning the remaining path as a new string.
#[verifier::rlimit(30)]
pub fn strip_path_prefix(s: &str, base: &str) -> (r: Option<String>)
    ensures
        match r {
            Some(t) => strip_prefix(s@, base@) == Some(t@),
            None => strip_prefix(s@, base@) is None,
        },
{
    let x = chars_of(s);
    let y = chars_of(base);
    let ps = parts_of(&x);
    let qs = parts_of(&y);
    let _xl = x.len();
    let _yl = y.len();
    proof {
        lemma_path_parts_bounds(x@);
        lemma_path_parts_bounds(y@);
    }
    let ghost c = components(x@);
    let ghost d = components(y@);
    if qs.len() > ps.len() {
        return None;
    }
    let mut k: usize = 0;
    while k < qs.len()
        invariant
            ps@ == path_parts(x@),
            qs@ == path_parts(y@),
            c == components(x@),
            d == components(y@),
            x@ == s@,
            y@ == base@,
            c.len() == ps@.len(),
            d.len() == qs@.len(),
            qs@.len() <= ps@.len(),
            k <= qs@.len(),
            forall|j: int|
                0 <= j < ps@.len() ==> 0 <= #[trigger] ps@[j].lo < ps@[j].hi <= x@.len(),
            forall|j: int|
                0 <= j < qs@.len() ==> 0 <= #[trigger] qs@[j].lo < qs@[j].hi <= y@.len(),
            forall|j: int| 0 <= j < k ==> c[j] == d[j],
        decreases qs@.len() - k,
    {
        assert(ps@[k as int].lo < ps@[k as int].hi <= x@.len());
        assert(qs@[k as int].lo < qs@[k as int].hi <= y@.len());
        let o = part_order_exec(&x, ps[k], &y, qs[k]);
        proof {
            lemma_seq_order_eq(c[k as int].1, d[k as int].1);
        }
        if o != 0 {
            assert(c.take(d.len() as int)[k as int] != d[k as int]);
            return None;
        }
        k = k + 1;
    }
    assert(c.take(d.len() as int) =~= d);
    if qs.len() == ps.len() {
        proof {
            reveal_strlit("");
        }
        return Some("".to_owned());
    }
    let lo = ps[qs.len()].lo;
    let hi = ps[ps.len() - 1].hi;
    assert(lo < hi) by {
        lemma_parts_ordered(x@);
        if qs@.len() < ps@.len() - 1 {
            assert(ps@[qs@.len() as int].hi <= ps@[ps@.len() - 1].lo);
        }
    }
    let t = s.substring_char(lo, hi);
    Some(t.to_owned())
}

} // verus!
