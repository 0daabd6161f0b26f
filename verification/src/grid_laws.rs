use vstd::prelude::*;
use vstd::arithmetic::div_mod::lemma_fundamental_div_mod_converse;

use crate::topology::{
    cell_links, cell_triangles, count_kind, grid_concat, grid_links, grid_triangles, links_of, count_pinned, is_pinned, Attachment, row_concat, triangles_of, grid_id, link, only_if, ConstraintKind, Link,
};

verus! {

spec fn lesser(a: int, b: int) -> int {
    if a < b {
        a
    } else {
        b
    }
}

proof fn lemma_count_kind_concat(s: Seq<Link>, t: Seq<Link>, k: ConstraintKind)
    ensures
        count_kind(s + t, k) == count_kind(s, k) + count_kind(t, k),
    decreases t.len(),
{
    if t.len() == 0 {
        assert(s + t =~= s);
    } else {
        lemma_count_kind_concat(s, t.drop_last(), k);
        assert((s + t).drop_last() =~= s + t.drop_last());
    }
}

proof fn lemma_count_kind_one(l: Link, k: ConstraintKind)
    ensures
        count_kind(seq![l], k) == (if l.kind == k { 1nat } else { 0nat }),
{
    assert(seq![l].drop_last() =~= Seq::<Link>::empty());
    assert(count_kind(Seq::<Link>::empty(), k) == 0);
    assert(seq![l].last() == l);
}

proof fn lemma_count_kind_when_one(c: bool, l: Link, k: ConstraintKind)
    ensures
        count_kind(only_if(c, seq![l]), k) == (if c && l.kind == k { 1nat } else { 0nat }),
{
    lemma_count_kind_one(l, k);
}

proof fn lemma_count_kind_when_two(c: bool, l1: Link, l2: Link, k: ConstraintKind)
    ensures
        count_kind(only_if(c, seq![l1, l2]), k) == (if c && l1.kind == k { 1nat } else { 0nat }) + (
        if c && l2.kind == k {
            1nat
        } else {
            0nat
        }),
{
    lemma_count_kind_one(l1, k);
    lemma_count_kind_one(l2, k);
    lemma_count_kind_concat(seq![l1], seq![l2], k);
    assert(seq![l1] + seq![l2] =~= seq![l1, l2]);
}

/// What one cell contributes, kind by kind.
proof fn lemma_cell_counts(w: int, h: int, x: int, y: int)
    ensures
        count_kind(cell_links(w, h, x, y), ConstraintKind::StructuralEdge) == (if x + 1 < w {
            1int
        } else {
            0int
        }) + (if y + 1 < h { 1int } else { 0int }),
        count_kind(cell_links(w, h, x, y), ConstraintKind::Shear) == (if x + 1 < w && y + 1 < h {
            2int
        } else {
            0int
        }),
        count_kind(cell_links(w, h, x, y), ConstraintKind::Bend) == (if x + 2 < w {
            1int
        } else {
            0int
        }) + (if y + 2 < h { 1int } else { 0int }),
{
    let i = grid_id(w, x, y);
    let s1 = only_if(x + 1 < w, seq![link(i, grid_id(w, x + 1, y), ConstraintKind::StructuralEdge)]);
    let s2 = only_if(y + 1 < h, seq![link(i, grid_id(w, x, y + 1), ConstraintKind::StructuralEdge)]);
    let s3 = only_if(
        x + 1 < w && y + 1 < h,
        seq![
            link(i, grid_id(w, x + 1, y + 1), ConstraintKind::Shear),
            link(grid_id(w, x + 1, y), grid_id(w, x, y + 1), ConstraintKind::Shear),
        ],
    );
    let s4 = only_if(x + 2 < w, seq![link(i, grid_id(w, x + 2, y), ConstraintKind::Bend)]);
    let s5 = only_if(y + 2 < h, seq![link(i, grid_id(w, x, y + 2), ConstraintKind::Bend)]);
    assert(cell_links(w, h, x, y) == s1 + s2 + s3 + s4 + s5);
    let ks = seq![ConstraintKind::StructuralEdge, ConstraintKind::Shear, ConstraintKind::Bend];
    assert forall|j: int| 0 <= j < 3 implies {
        let k = #[trigger] ks[j];
        count_kind(s1 + s2 + s3 + s4 + s5, k) == count_kind(s1, k) + count_kind(s2, k)
            + count_kind(s3, k) + count_kind(s4, k) + count_kind(s5, k)
    } by {
        let k = ks[j];
        lemma_count_kind_concat(s1, s2, k);
        lemma_count_kind_concat(s1 + s2, s3, k);
        lemma_count_kind_concat(s1 + s2 + s3, s4, k);
        lemma_count_kind_concat(s1 + s2 + s3 + s4, s5, k);
    }
    assert(ks[0] == ConstraintKind::StructuralEdge);
    assert(ks[1] == ConstraintKind::Shear);
    assert(ks[2] == ConstraintKind::Bend);
    lemma_count_kind_when_one(x + 1 < w, link(i, grid_id(w, x + 1, y), ConstraintKind::StructuralEdge), ConstraintKind::StructuralEdge);
    lemma_count_kind_when_one(x + 1 < w, link(i, grid_id(w, x + 1, y), ConstraintKind::StructuralEdge), ConstraintKind::Shear);
    lemma_count_kind_when_one(x + 1 < w, link(i, grid_id(w, x + 1, y), ConstraintKind::StructuralEdge), ConstraintKind::Bend);
    lemma_count_kind_when_one(y + 1 < h, link(i, grid_id(w, x, y + 1), ConstraintKind::StructuralEdge), ConstraintKind::StructuralEdge);
    lemma_count_kind_when_one(y + 1 < h, link(i, grid_id(w, x, y + 1), ConstraintKind::StructuralEdge), ConstraintKind::Shear);
    lemma_count_kind_when_one(y + 1 < h, link(i, grid_id(w, x, y + 1), ConstraintKind::StructuralEdge), ConstraintKind::Bend);
    lemma_count_kind_when_two(
        x + 1 < w && y + 1 < h,
        link(i, grid_id(w, x + 1, y + 1), ConstraintKind::Shear),
        link(grid_id(w, x + 1, y), grid_id(w, x, y + 1), ConstraintKind::Shear),
        ConstraintKind::StructuralEdge,
    );
    lemma_count_kind_when_two(
        x + 1 < w && y + 1 < h,
        link(i, grid_id(w, x + 1, y + 1), ConstraintKind::Shear),
        link(grid_id(w, x + 1, y), grid_id(w, x, y + 1), ConstraintKind::Shear),
        ConstraintKind::Shear,
    );
    lemma_count_kind_when_two(
        x + 1 < w && y + 1 < h,
        link(i, grid_id(w, x + 1, y + 1), ConstraintKind::Shear),
        link(grid_id(w, x + 1, y), grid_id(w, x, y + 1), ConstraintKind::Shear),
        ConstraintKind::Bend,
    );
    lemma_count_kind_when_one(x + 2 < w, link(i, grid_id(w, x + 2, y), ConstraintKind::Bend), ConstraintKind::StructuralEdge);
    lemma_count_kind_when_one(x + 2 < w, link(i, grid_id(w, x + 2, y), ConstraintKind::Bend), ConstraintKind::Shear);
    lemma_count_kind_when_one(x + 2 < w, link(i, grid_id(w, x + 2, y), ConstraintKind::Bend), ConstraintKind::Bend);
    lemma_count_kind_when_one(y + 2 < h, link(i, grid_id(w, x, y + 2), ConstraintKind::Bend), ConstraintKind::StructuralEdge);
    lemma_count_kind_when_one(y + 2 < h, link(i, grid_id(w, x, y + 2), ConstraintKind::Bend), ConstraintKind::Shear);
    lemma_count_kind_when_one(y + 2 < h, link(i, grid_id(w, x, y + 2), ConstraintKind::Bend), ConstraintKind::Bend);
}


proof fn lemma_row_counts(w: int, h: int, y: int, n: nat)
    requires
        2 <= w,
        0 <= y < h,
        n <= w,
    ensures
        count_kind(row_concat(links_of(w, h), y, n), ConstraintKind::StructuralEdge) == lesser(
            n as int,
            w - 1,
        ) + (if y + 1 < h { n as int } else { 0 }),
        count_kind(row_concat(links_of(w, h), y, n), ConstraintKind::Shear) == (if y + 1 < h {
            2 * lesser(n as int, w - 1)
        } else {
            0
        }),
        count_kind(row_concat(links_of(w, h), y, n), ConstraintKind::Bend) == lesser(
            n as int,
            w - 2,
        ) + (if y + 2 < h { n as int } else { 0 }),
    decreases n,
{
    let f = links_of(w, h);
    if n > 0 {
        lemma_row_counts(w, h, y, (n - 1) as nat);
        let prev = row_concat(f, y, (n - 1) as nat);
        assert(f(n - 1, y) == cell_links(w, h, n - 1, y));
        lemma_cell_counts(w, h, n - 1, y);
        lemma_count_kind_concat(prev, f(n - 1, y), ConstraintKind::StructuralEdge);
        lemma_count_kind_concat(prev, f(n - 1, y), ConstraintKind::Shear);
        lemma_count_kind_concat(prev, f(n - 1, y), ConstraintKind::Bend);
    }
}

proof fn lemma_grid_counts(w: int, h: int, m: nat)
    requires
        2 <= w,
        2 <= h,
        m <= h,
    ensures
        count_kind(grid_concat(links_of(w, h), w as nat, m), ConstraintKind::StructuralEdge) == m
            * (w - 1) + w * lesser(m as int, h - 1),
        count_kind(grid_concat(links_of(w, h), w as nat, m), ConstraintKind::Shear) == 2 * (w - 1)
            * lesser(m as int, h - 1),
        count_kind(grid_concat(links_of(w, h), w as nat, m), ConstraintKind::Bend) == m * (w - 2)
            + w * lesser(m as int, h - 2),
    decreases m,
{
    let f = links_of(w, h);
    if m == 0 {
        assert(count_kind(grid_concat(f, w as nat, m), ConstraintKind::StructuralEdge) == 0);
        assert(count_kind(grid_concat(f, w as nat, m), ConstraintKind::Shear) == 0);
        assert(count_kind(grid_concat(f, w as nat, m), ConstraintKind::Bend) == 0);
        assert(w * lesser(m as int, h - 1) == 0) by (nonlinear_arith)
            requires
                m == 0,
                h >= 2,
        ;
        assert(w * lesser(m as int, h - 2) == 0) by (nonlinear_arith)
            requires
                m == 0,
                h >= 2,
        ;
        assert(2 * (w - 1) * lesser(m as int, h - 1) == 0) by (nonlinear_arith)
            requires
                m == 0,
                h >= 2,
        ;
    } else {
        lemma_grid_counts(w, h, (m - 1) as nat);
        let prev = grid_concat(f, w as nat, (m - 1) as nat);
        let row = row_concat(f, m - 1, w as nat);
        lemma_row_counts(w, h, m - 1, w as nat);
        lemma_count_kind_concat(prev, row, ConstraintKind::StructuralEdge);
        lemma_count_kind_concat(prev, row, ConstraintKind::Shear);
        lemma_count_kind_concat(prev, row, ConstraintKind::Bend);
        let m1 = (m - 1) as int;
        assert(m * (w - 1) == m1 * (w - 1) + (w - 1)) by (nonlinear_arith)
            requires
                m1 == m - 1,
        ;
        assert(m * (w - 2) == m1 * (w - 2) + (w - 2)) by (nonlinear_arith)
            requires
                m1 == m - 1,
        ;
        assert(w * lesser(m as int, h - 1) == w * lesser(m1, h - 1) + (if m1 + 1 < h { w } else { 0 }))
            by (nonlinear_arith)
            requires
                m1 == m - 1,
                lesser(m as int, h - 1) == lesser(m1, h - 1) + (if m1 + 1 < h { 1int } else { 0 }),
        ;
        assert(w * lesser(m as int, h - 2) == w * lesser(m1, h - 2) + (if m1 + 2 < h { w } else { 0 }))
            by (nonlinear_arith)
            requires
                m1 == m - 1,
                lesser(m as int, h - 2) == lesser(m1, h - 2) + (if m1 + 2 < h { 1int } else { 0 }),
        ;
        assert(2 * (w - 1) * lesser(m as int, h - 1) == 2 * (w - 1) * lesser(m1, h - 1) + (if m1 + 1
            < h {
            2 * (w - 1)
        } else {
            0
        })) by (nonlinear_arith)
            requires
                m1 == m - 1,
                lesser(m as int, h - 1) == lesser(m1, h - 1) + (if m1 + 1 < h { 1int } else { 0 }),
        ;
    }
}

proof fn lemma_count_kinds_cover(s: Seq<Link>)
    ensures
        s.len() == count_kind(s, ConstraintKind::StructuralEdge) + count_kind(s, ConstraintKind::Shear)
            + count_kind(s, ConstraintKind::Bend),
    decreases s.len(),
{
    if s.len() > 0 {
        lemma_count_kinds_cover(s.drop_last());
    }
}

/// A `w` by `h` grid has `(w - 1) * h + w * (h - 1)` structural constraints,
/// `2 * (w - 1) * (h - 1)` shear constraints and `(w - 2) * h + w * (h - 2)` bend
/// constraints, and no others.
pub proof fn lemma_constraint_counts(w: nat, h: nat)
    requires
        2 <= w,
        2 <= h,
    ensures
        count_kind(grid_links(w, h), ConstraintKind::StructuralEdge) == (w - 1) * h + w * (h - 1),
        count_kind(grid_links(w, h), ConstraintKind::Shear) == 2 * (w - 1) * (h - 1),
        count_kind(grid_links(w, h), ConstraintKind::Bend) == (w - 2) * h + w * (h - 2),
        grid_links(w, h).len() == (w - 1) * h + w * (h - 1) + 2 * (w - 1) * (h - 1) + (w - 2) * h
            + w * (h - 2),
{
    lemma_grid_counts(w as int, h as int, h);
    lemma_count_kinds_cover(grid_links(w, h));
    assert(h * (w - 1) == (w - 1) * h) by (nonlinear_arith);
    assert(h * (w - 2) == (w - 2) * h) by (nonlinear_arith);
}

proof fn lemma_row_triangles(w: int, h: int, y: int, n: nat)
    requires
        2 <= w,
        0 <= y < h,
        n <= w,
    ensures
        row_concat(triangles_of(w, h), y, n).len() == (if y + 1 < h {
            6 * lesser(n as int, w - 1)
        } else {
            0
        }),
    decreases n,
{
    let f = triangles_of(w, h);
    if n > 0 {
        lemma_row_triangles(w, h, y, (n - 1) as nat);
        assert(f(n - 1, y) == cell_triangles(w, h, n - 1, y));
    }
}

proof fn lemma_grid_triangle_count(w: int, h: int, m: nat)
    requires
        2 <= w,
        2 <= h,
        m <= h,
    ensures
        grid_concat(triangles_of(w, h), w as nat, m).len() == 6 * (w - 1) * lesser(m as int, h - 1),
    decreases m,
{
    if m == 0 {
        assert(6 * (w - 1) * lesser(m as int, h - 1) == 0) by (nonlinear_arith)
            requires
                m == 0,
                h >= 2,
        ;
    } else {
        lemma_grid_triangle_count(w, h, (m - 1) as nat);
        lemma_row_triangles(w, h, m - 1, w as nat);
        let m1 = (m - 1) as int;
        assert(6 * (w - 1) * lesser(m as int, h - 1) == 6 * (w - 1) * lesser(m1, h - 1) + (if m1 + 1
            < h {
            6 * (w - 1)
        } else {
            0
        })) by (nonlinear_arith)
            requires
                m1 == m - 1,
                lesser(m as int, h - 1) == lesser(m1, h - 1) + (if m1 + 1 < h { 1int } else { 0 }),
        ;
    }
}

/// A `w` by `h` grid is cut into `2 * (w - 1) * (h - 1)` triangles: its triangle list
/// holds three indices for each, `6 * (w - 1) * (h - 1)` in all.
pub proof fn lemma_triangle_count(w: nat, h: nat)
    requires
        2 <= w,
        2 <= h,
    ensures
        grid_triangles(w, h).len() == 6 * (w - 1) * (h - 1),
        grid_triangles(w, h).len() == 3 * (2 * (w - 1) * (h - 1)),
{
    lemma_grid_triangle_count(w as int, h as int, h);
    assert(6 * (w - 1) * (h - 1) == 3 * (2 * (w - 1) * (h - 1))) by (nonlinear_arith);
}


/// The constraint joins two distinct particles below `n`, the lower index first.
pub open spec fn link_within(l: Link, n: int) -> bool {
    l.a < l.b && l.b < n
}

/// Every constraint joins two distinct particles below `n`, the lower index first.
pub open spec fn links_within(s: Seq<Link>, n: int) -> bool {
    forall|k: int| 0 <= k < s.len() ==> link_within(#[trigger] s[k], n)
}

/// The constraint's kind matches where its ends lie in a grid `w` wide: a structural link
/// joins horizontal (`b == a + 1` in one row) or vertical (`b == a + w`) neighbours, a
/// shear link the ends of a diagonal (`b == a + w + 1` down-right, `b == a + w - 1`
/// down-left), a bend link particles two apart along a row (`b == a + 2` in one row) or a
/// column (`b == a + 2 * w`).
pub open spec fn link_geometry(l: Link, w: int) -> bool {
    let a = l.a as int;
    let b = l.b as int;
    match l.kind {
        ConstraintKind::StructuralEdge => (b == a + 1 && a % w + 1 < w) || b == a + w,
        ConstraintKind::Shear => (b == a + w + 1 && a % w + 1 < w) || (b == a + w - 1 && a % w
            >= 1),
        ConstraintKind::Bend => (b == a + 2 && a % w + 2 < w) || b == a + 2 * w,
    }
}

/// Every constraint of `s` has the geometry of its kind in a grid `w` wide.
pub open spec fn links_geometric(s: Seq<Link>, w: int) -> bool {
    forall|k: int| 0 <= k < s.len() ==> link_geometry(#[trigger] s[k], w)
}

proof fn lemma_links_geometric_concat(s: Seq<Link>, t: Seq<Link>, w: int)
    requires
        links_geometric(s, w),
        links_geometric(t, w),
    ensures
        links_geometric(s + t, w),
{
    assert forall|k: int| 0 <= k < (s + t).len() implies link_geometry(#[trigger] (s + t)[k], w) by {
        if k < s.len() {
            assert((s + t)[k] == s[k]);
        } else {
            assert((s + t)[k] == t[k - s.len()]);
        }
    }
}

proof fn lemma_links_within_concat(s: Seq<Link>, t: Seq<Link>, n: int)
    requires
        links_within(s, n),
        links_within(t, n),
    ensures
        links_within(s + t, n),
{
    assert forall|k: int| 0 <= k < (s + t).len() implies link_within(#[trigger] (s + t)[k], n) by {
        if k < s.len() {
            assert((s + t)[k] == s[k]);
        } else {
            assert((s + t)[k] == t[k - s.len()]);
        }
    }
}

proof fn lemma_cell_links_within(w: int, h: int, x: int, y: int)
    requires
        2 <= w,
        2 <= h,
        0 <= x < w,
        0 <= y < h,
        w * h <= usize::MAX,
    ensures
        links_within(cell_links(w, h, x, y), w * h),
        links_geometric(cell_links(w, h, x, y), w),
{
    let i = grid_id(w, x, y);
    crate::topology::lemma_id_in_grid(w, h, x, y);
    lemma_grid_id_inverse(w, x, y);
    if x + 1 < w {
        lemma_grid_id_inverse(w, x + 1, y);
    }
    if x + 1 < w {
        crate::topology::lemma_id_in_grid(w, h, x + 1, y);
    }
    if y + 1 < h {
        crate::topology::lemma_id_in_grid(w, h, x, y + 1);
        assert(grid_id(w, x, y + 1) == i + w) by (nonlinear_arith)
            requires
                i == grid_id(w, x, y),
        ;
    }
    if x + 1 < w && y + 1 < h {
        crate::topology::lemma_id_in_grid(w, h, x + 1, y + 1);
        assert(grid_id(w, x + 1, y + 1) == i + w + 1) by (nonlinear_arith)
            requires
                i == grid_id(w, x, y),
        ;
    }
    if x + 2 < w {
        crate::topology::lemma_id_in_grid(w, h, x + 2, y);
    }
    if y + 2 < h {
        crate::topology::lemma_id_in_grid(w, h, x, y + 2);
        assert(grid_id(w, x, y + 2) == i + 2 * w) by (nonlinear_arith)
            requires
                i == grid_id(w, x, y),
        ;
    }
    let s1 = only_if(x + 1 < w, seq![link(i, grid_id(w, x + 1, y), ConstraintKind::StructuralEdge)]);
    let s2 = only_if(y + 1 < h, seq![link(i, grid_id(w, x, y + 1), ConstraintKind::StructuralEdge)]);
    let s3 = only_if(
        x + 1 < w && y + 1 < h,
        seq![
            link(i, grid_id(w, x + 1, y + 1), ConstraintKind::Shear),
            link(grid_id(w, x + 1, y), grid_id(w, x, y + 1), ConstraintKind::Shear),
        ],
    );
    let s4 = only_if(x + 2 < w, seq![link(i, grid_id(w, x + 2, y), ConstraintKind::Bend)]);
    let s5 = only_if(y + 2 < h, seq![link(i, grid_id(w, x, y + 2), ConstraintKind::Bend)]);
    assert(links_within(s1, w * h));
    assert(links_within(s2, w * h));
    assert(links_within(s3, w * h));
    assert(links_within(s4, w * h));
    assert(links_within(s5, w * h));
    lemma_links_within_concat(s1, s2, w * h);
    lemma_links_within_concat(s1 + s2, s3, w * h);
    lemma_links_within_concat(s1 + s2 + s3, s4, w * h);
    lemma_links_within_concat(s1 + s2 + s3 + s4, s5, w * h);
    assert(links_geometric(s1, w));
    assert(links_geometric(s2, w));
    assert(links_geometric(s3, w));
    assert(links_geometric(s4, w));
    assert(links_geometric(s5, w));
    lemma_links_geometric_concat(s1, s2, w);
    lemma_links_geometric_concat(s1 + s2, s3, w);
    lemma_links_geometric_concat(s1 + s2 + s3, s4, w);
    lemma_links_geometric_concat(s1 + s2 + s3 + s4, s5, w);
    assert(cell_links(w, h, x, y) == s1 + s2 + s3 + s4 + s5);
}

proof fn lemma_row_links_within(w: int, h: int, y: int, n: nat)
    requires
        2 <= w,
        2 <= h,
        0 <= y < h,
        n <= w,
        w * h <= usize::MAX,
    ensures
        links_within(row_concat(links_of(w, h), y, n), w * h),
        links_geometric(row_concat(links_of(w, h), y, n), w),
    decreases n,
{
    if n > 0 {
        let f = links_of(w, h);
        lemma_row_links_within(w, h, y, (n - 1) as nat);
        lemma_cell_links_within(w, h, n - 1, y);
        assert(f(n - 1, y) == cell_links(w, h, n - 1, y));
        lemma_links_within_concat(row_concat(f, y, (n - 1) as nat), f(n - 1, y), w * h);
        lemma_links_geometric_concat(row_concat(f, y, (n - 1) as nat), f(n - 1, y), w);
    }
}

proof fn lemma_grid_links_within(w: int, h: int, m: nat)
    requires
        2 <= w,
        2 <= h,
        m <= h,
        w * h <= usize::MAX,
    ensures
        links_within(grid_concat(links_of(w, h), w as nat, m), w * h),
        links_geometric(grid_concat(links_of(w, h), w as nat, m), w),
    decreases m,
{
    if m > 0 {
        let f = links_of(w, h);
        lemma_grid_links_within(w, h, (m - 1) as nat);
        lemma_row_links_within(w, h, m - 1, w as nat);
        lemma_links_within_concat(
            grid_concat(f, w as nat, (m - 1) as nat),
            row_concat(f, m - 1, w as nat),
            w * h,
        );
        lemma_links_geometric_concat(
            grid_concat(f, w as nat, (m - 1) as nat),
            row_concat(f, m - 1, w as nat),
            w,
        );
    }
}

/// Every constraint of a `w` by `h` grid joins two distinct particles `a < b` of the grid.
pub proof fn lemma_links_in_grid(w: nat, h: nat)
    requires
        2 <= w,
        2 <= h,
        w * h <= usize::MAX,
    ensures
        links_within(grid_links(w, h), (w * h) as int),
{
    lemma_grid_links_within(w as int, h as int, h);
}

/// Every constraint of a `w` by `h` grid has the geometry of its kind: structural links
/// join horizontal or vertical neighbours, shear links the ends of a cell diagonal, bend
/// links particles two apart along a row or a column.
pub proof fn lemma_link_geometry(w: nat, h: nat)
    requires
        2 <= w,
        2 <= h,
        w * h <= usize::MAX,
    ensures
        links_geometric(grid_links(w, h), w as int),
{
    lemma_grid_links_within(w as int, h as int, h);
}

/// Every vertex index in the list is below `n`.
pub open spec fn indices_within(s: Seq<u32>, n: int) -> bool {
    forall|k: int| 0 <= k < s.len() ==> #[trigger] s[k] < n
}

proof fn lemma_indices_within_concat(s: Seq<u32>, t: Seq<u32>, n: int)
    requires
        indices_within(s, n),
        indices_within(t, n),
    ensures
        indices_within(s + t, n),
{
    assert forall|k: int| 0 <= k < (s + t).len() implies #[trigger] (s + t)[k] < n by {
        if k < s.len() {
            assert((s + t)[k] == s[k]);
        } else {
            assert((s + t)[k] == t[k - s.len()]);
        }
    }
}

proof fn lemma_grid_indices_within(w: int, h: int, m: nat, n: nat)
    requires
        2 <= w,
        2 <= h,
        m <= h,
        n <= w,
        w * h <= 0x1_0000_0000,
    ensures
        indices_within(grid_concat(triangles_of(w, h), w as nat, m), w * h),
        m < h ==> indices_within(row_concat(triangles_of(w, h), m as int, n), w * h),
    decreases m, n,
{
    let f = triangles_of(w, h);
    if m < h && n > 0 {
        lemma_grid_indices_within(w, h, m, (n - 1) as nat);
        let x = n - 1;
        let y = m as int;
        assert(f(x, y) == cell_triangles(w, h, x, y));
        if x + 1 < w && y + 1 < h {
            crate::topology::lemma_id_in_grid(w, h, x, y);
            crate::topology::lemma_id_in_grid(w, h, x + 1, y);
            crate::topology::lemma_id_in_grid(w, h, x, y + 1);
            crate::topology::lemma_id_in_grid(w, h, x + 1, y + 1);
        }
        assert(indices_within(f(x, y), w * h));
        lemma_indices_within_concat(row_concat(f, y, (n - 1) as nat), f(x, y), w * h);
    }
    if m > 0 {
        lemma_grid_indices_within(w, h, (m - 1) as nat, w as nat);
        lemma_indices_within_concat(
            grid_concat(f, w as nat, (m - 1) as nat),
            row_concat(f, m - 1, w as nat),
            w * h,
        );
    }
}

/// Where every particle index fits in a `u32`, every vertex index of the triangle list
/// names a particle of the grid.
pub proof fn lemma_indices_in_grid(w: nat, h: nat)
    requires
        2 <= w,
        2 <= h,
        w * h <= 0x1_0000_0000,
    ensures
        indices_within(grid_triangles(w, h), (w * h) as int),
{
    lemma_grid_indices_within(w as int, h as int, h, 0);
}

/// Distinct cells of the grid have distinct indices, and the index gives back the cell.
pub proof fn lemma_grid_id_inverse(w: int, x: int, y: int)
    requires
        0 <= x < w,
        0 <= y,
    ensures
        grid_id(w, x, y) % w == x,
        grid_id(w, x, y) / w == y,
{
    lemma_fundamental_div_mod_converse(grid_id(w, x, y), w, y, x);
}

/// Two cells of a grid `w` wide share an index only if they are the same cell.
pub proof fn lemma_grid_id_injective(w: int, x1: int, y1: int, x2: int, y2: int)
    requires
        0 <= x1 < w,
        0 <= x2 < w,
        0 <= y1,
        0 <= y2,
        grid_id(w, x1, y1) == grid_id(w, x2, y2),
    ensures
        x1 == x2,
        y1 == y2,
{
    lemma_grid_id_inverse(w, x1, y1);
    lemma_grid_id_inverse(w, x2, y2);
}

proof fn lemma_full_edge_row(w: int, h: int, k: int, j: nat)
    requires
        2 <= w,
        0 <= k,
        j <= w,
        count_pinned(w, h, Attachment::FullEdge, (k * w) as nat) == k,
        k * w >= 0,
    ensures
        count_pinned(w, h, Attachment::FullEdge, (k * w + j) as nat) == k + (if j > 0 {
            1int
        } else {
            0int
        }),
    decreases j,
{
    if j > 0 {
        lemma_full_edge_row(w, h, k, (j - 1) as nat);
        lemma_fundamental_div_mod_converse(k * w + j - 1, w, k, j - 1);
        assert(is_pinned(w, h, Attachment::FullEdge, k * w + j - 1) == (j - 1 == 0));
    }
}

proof fn lemma_full_edge_rows(w: int, h: int, k: nat)
    requires
        2 <= w,
    ensures
        k * w >= 0,
        count_pinned(w, h, Attachment::FullEdge, (k * w) as nat) == k,
    decreases k,
{
    assert(k * w >= 0) by (nonlinear_arith)
        requires
            w >= 0,
    ;
    if k == 0 {
        assert(k * w == 0) by (nonlinear_arith)
            requires
                k == 0,
        ;
    } else {
        let k1 = (k - 1) as int;
        lemma_full_edge_rows(w, h, k1 as nat);
        lemma_full_edge_row(w, h, k1, w as nat);
        assert(k1 * w + w == k * w) by (nonlinear_arith)
            requires
                k1 == k - 1,
        ;
    }
}

proof fn lemma_two_point(w: int, h: int, n: nat)
    requires
        2 <= w,
        2 <= h,
    ensures
        count_pinned(w, h, Attachment::TwoPoint, n) == (if n > 0 { 1int } else { 0int }) + (if n
            > grid_id(w, 0, h - 1) {
            1int
        } else {
            0int
        }),
    decreases n,
{
    assert(grid_id(w, 0, h - 1) > 0) by (nonlinear_arith)
        requires
            2 <= w,
            2 <= h,
    ;
    if n > 0 {
        lemma_two_point(w, h, (n - 1) as nat);
    }
}

proof fn lemma_top_edge(w: int, h: int, n: nat)
    requires
        2 <= w,
    ensures
        count_pinned(w, h, Attachment::TopEdge, n) == lesser(n as int, w),
    decreases n,
{
    if n > 0 {
        lemma_top_edge(w, h, (n - 1) as nat);
    }
}

/// Holding the full left edge pins one particle per row, the two-point attachment pins
/// exactly two particles, and holding the top edge pins one particle per column.
pub proof fn lemma_pinned_counts(w: nat, h: nat)
    requires
        2 <= w,
        2 <= h,
    ensures
        count_pinned(w as int, h as int, Attachment::FullEdge, w * h) == h,
        count_pinned(w as int, h as int, Attachment::TwoPoint, w * h) == 2,
        count_pinned(w as int, h as int, Attachment::TopEdge, w * h) == w,
{
    lemma_full_edge_rows(w as int, h as int, h);
    assert(h * w == w * h) by (nonlinear_arith);
    lemma_two_point(w as int, h as int, w * h);
    assert(grid_id(w as int, 0, h - 1) < w * h) by (nonlinear_arith)
        requires
            2 <= w,
            2 <= h,
    ;
    lemma_top_edge(w as int, h as int, w * h);
    assert(w <= w * h) by (nonlinear_arith)
        requires
            2 <= h,
    ;
}


/// Twice the signed area of the triangle whose corners are the particles `p`, `q`, `r` of a
/// grid `w` wide, each placed at its column `i % w` and row `i / w`.
pub open spec fn orientation(w: int, p: int, q: int, r: int) -> int {
    (q % w - p % w) * (r / w - p / w) - (q / w - p / w) * (r % w - p % w)
}

/// Triangle `t` of the list `s` is a half grid cell wound the grid's one way: its signed
/// doubled area in grid coordinates is -1.
pub open spec fn triangle_wound(s: Seq<u32>, w: int, t: int) -> bool {
    orientation(w, s[3 * t] as int, s[3 * t + 1] as int, s[3 * t + 2] as int) == -1
}

/// Every whole triangle of `s` is wound the grid's one way.
pub open spec fn triangles_wound(s: Seq<u32>, w: int) -> bool {
    forall|t: int| 0 <= t && 3 * t + 2 < s.len() ==> #[trigger] triangle_wound(s, w, t)
}

/// The three corners of triangle `t` of `s` are three different particles.
pub open spec fn triangle_proper(s: Seq<u32>, t: int) -> bool {
    &&& s[3 * t] != s[3 * t + 1]
    &&& s[3 * t + 1] != s[3 * t + 2]
    &&& s[3 * t + 2] != s[3 * t]
}

proof fn lemma_triangles_wound_concat(s: Seq<u32>, u: Seq<u32>, w: int, m: int)
    requires
        s.len() == 3 * m,
        triangles_wound(s, w),
        triangles_wound(u, w),
    ensures
        triangles_wound(s + u, w),
{
    assert forall|t: int| 0 <= t && 3 * t + 2 < (s + u).len() implies #[trigger] triangle_wound(
        s + u,
        w,
        t,
    ) by {
        if t < m {
            assert(triangle_wound(s, w, t));
            assert((s + u)[3 * t] == s[3 * t]);
            assert((s + u)[3 * t + 1] == s[3 * t + 1]);
            assert((s + u)[3 * t + 2] == s[3 * t + 2]);
        } else {
            let t2 = t - m;
            assert(triangle_wound(u, w, t2));
            assert((s + u)[3 * t] == u[3 * t2]);
            assert((s + u)[3 * t + 1] == u[3 * t2 + 1]);
            assert((s + u)[3 * t + 2] == u[3 * t2 + 2]);
        }
    }
}

proof fn lemma_cell_triangles_wound(w: int, h: int, x: int, y: int)
    requires
        2 <= w,
        2 <= h,
        0 <= x < w,
        0 <= y < h,
        w * h <= 0x1_0000_0000,
    ensures
        triangles_wound(cell_triangles(w, h, x, y), w),
{
    let s = cell_triangles(w, h, x, y);
    if x + 1 < w && y + 1 < h {
        let a = grid_id(w, x, y);
        let b = grid_id(w, x + 1, y);
        let c = grid_id(w, x, y + 1);
        let d = grid_id(w, x + 1, y + 1);
        crate::topology::lemma_id_in_grid(w, h, x, y);
        crate::topology::lemma_id_in_grid(w, h, x + 1, y);
        crate::topology::lemma_id_in_grid(w, h, x, y + 1);
        crate::topology::lemma_id_in_grid(w, h, x + 1, y + 1);
        lemma_grid_id_inverse(w, x, y);
        lemma_grid_id_inverse(w, x + 1, y);
        lemma_grid_id_inverse(w, x, y + 1);
        lemma_grid_id_inverse(w, x + 1, y + 1);
        assert(s[0] as int == a && s[1] as int == c && s[2] as int == b);
        assert(s[3] as int == b && s[4] as int == c && s[5] as int == d);
        assert(orientation(w, a, c, b) == -1) by (nonlinear_arith)
            requires
                a % w == x,
                a / w == y,
                b % w == x + 1,
                b / w == y,
                c % w == x,
                c / w == y + 1,
        ;
        assert(orientation(w, b, c, d) == -1) by (nonlinear_arith)
            requires
                b % w == x + 1,
                b / w == y,
                c % w == x,
                c / w == y + 1,
                d % w == x + 1,
                d / w == y + 1,
        ;
        assert forall|t: int| 0 <= t && 3 * t + 2 < s.len() implies #[trigger] triangle_wound(
            s,
            w,
            t,
        ) by {
            if t == 0 {
            } else {
                assert(t == 1);
            }
        }
    }
}

proof fn lemma_grid_triangles_wound(w: int, h: int, m: nat, n: nat)
    requires
        2 <= w,
        2 <= h,
        m <= h,
        n <= w,
        w * h <= 0x1_0000_0000,
    ensures
        triangles_wound(grid_concat(triangles_of(w, h), w as nat, m), w),
        m < h ==> triangles_wound(row_concat(triangles_of(w, h), m as int, n), w),
    decreases m, n,
{
    let f = triangles_of(w, h);
    if m < h && n > 0 {
        lemma_grid_triangles_wound(w, h, m, (n - 1) as nat);
        let x = n - 1;
        let y = m as int;
        assert(f(x, y) == cell_triangles(w, h, x, y));
        lemma_cell_triangles_wound(w, h, x, y);
        lemma_row_triangles(w, h, y, (n - 1) as nat);
        let k = if y + 1 < h { 2 * lesser(n - 1, w - 1) } else { 0 };
        lemma_triangles_wound_concat(row_concat(f, y, (n - 1) as nat), f(x, y), w, k);
    }
    if m > 0 {
        lemma_grid_triangles_wound(w, h, (m - 1) as nat, w as nat);
        lemma_grid_triangle_count(w, h, (m - 1) as nat);
        let k = 2 * (w - 1) * lesser(m - 1, h - 1);
        assert(6 * (w - 1) * lesser(m - 1, h - 1) == 3 * k) by (nonlinear_arith)
            requires
                k == 2 * (w - 1) * lesser(m - 1, h - 1),
        ;
        lemma_triangles_wound_concat(
            grid_concat(f, w as nat, (m - 1) as nat),
            row_concat(f, m - 1, w as nat),
            w,
            k,
        );
    }
}

/// Where every particle index fits in a `u32`, every triangle of a `w` by `h` grid is
/// half a cell, (top-left, bottom-left, top-right) or (top-right, bottom-left,
/// bottom-right), and all are wound the same way: each has signed doubled area -1 in
/// grid coordinates (column, row).
pub proof fn lemma_triangle_winding(w: nat, h: nat)
    requires
        2 <= w,
        2 <= h,
        w * h <= 0x1_0000_0000,
    ensures
        triangles_wound(grid_triangles(w, h), w as int),
{
    lemma_grid_triangles_wound(w as int, h as int, h, 0);
}

/// A wound triangle has three different corners.
pub proof fn lemma_wound_triangle_proper(s: Seq<u32>, w: int, t: int)
    requires
        w > 0,
        0 <= t,
        3 * t + 2 < s.len(),
        triangle_wound(s, w, t),
    ensures
        triangle_proper(s, t),
{
    let p = s[3 * t] as int;
    let q = s[3 * t + 1] as int;
    let r = s[3 * t + 2] as int;
    if p == q || q == r || r == p {
        assert(orientation(w, p, q, r) == 0) by (nonlinear_arith)
            requires
                p == q || q == r || r == p,
        ;
    }
}


/// Where every particle index fits in a `u32`, every triangle of a `w` by `h` grid has
/// three different corners.
pub proof fn lemma_grid_triangles_proper(w: nat, h: nat)
    requires
        2 <= w,
        2 <= h,
        w * h <= 0x1_0000_0000,
    ensures
        crate::bends::triangles_proper(grid_triangles(w, h)),
{
    let s = grid_triangles(w, h);
    lemma_triangle_winding(w, h);
    assert forall|t: int| 0 <= t && 3 * t + 2 < s.len() implies {
        &&& #[trigger] s[3 * t] != s[3 * t + 1]
        &&& s[3 * t + 1] != s[3 * t + 2]
        &&& s[3 * t + 2] != s[3 * t]
    } by {
        assert(triangle_wound(s, w as int, t));
        lemma_wound_triangle_proper(s, w as int, t);
    }
}

} // verus!
