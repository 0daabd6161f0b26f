use vstd::prelude::*;

use crate::bends::{pair_shared_edges, shared_edge_stencils, stencil_joins, BendStencil};
use crate::grid_laws::{links_geometric, links_within, triangles_wound};
use vstd::arithmetic::div_mod::lemma_fundamental_div_mod;
use vstd::arithmetic::div_mod::lemma_fundamental_div_mod_converse;

verus! {

/// The role of a distance constraint in the grid.
#[derive(Clone, Copy, Debug, PartialEq, Eq, Structural)]
pub enum ConstraintKind {
    /// Between horizontal or vertical neighbours.
    StructuralEdge,
    /// Across the diagonals of a cell.
    Shear,
    /// Between particles two apart along a row or a column.
    Bend,
}

/// A distance constraint between particles `a` and `b`.
#[derive(Clone, Copy, Debug, PartialEq, Eq, Structural)]
pub struct Link {
    pub a: usize,
    pub b: usize,
    pub kind: ConstraintKind,
}

/// Row-major index of the particle in column `x` and row `y` of a grid `w` wide.
pub open spec fn grid_id(w: int, x: int, y: int) -> int {
    y * w + x
}

/// The constraint between particles `a` and `b`.
pub open spec fn link(a: int, b: int, kind: ConstraintKind) -> Link {
    Link { a: a as usize, b: b as usize, kind }
}

/// `s` when `c` holds, else nothing.
pub open spec fn only_if<A>(c: bool, s: Seq<A>) -> Seq<A> {
    if c {
        s
    } else {
        Seq::empty()
    }
}

/// The constraints that the cell at (`x`, `y`) of a `w` by `h` grid contributes, in order:
/// the structural link to the right, the structural link below, the two shear diagonals,
/// the bend link two to the right, the bend link two below; each only where its far end
/// lies inside the grid.
pub open spec fn cell_links(w: int, h: int, x: int, y: int) -> Seq<Link> {
    let i = grid_id(w, x, y);
    only_if(x + 1 < w, seq![link(i, grid_id(w, x + 1, y), ConstraintKind::StructuralEdge)])
        + only_if(y + 1 < h, seq![link(i, grid_id(w, x, y + 1), ConstraintKind::StructuralEdge)])
        + only_if(
        x + 1 < w && y + 1 < h,
        seq![
            link(i, grid_id(w, x + 1, y + 1), ConstraintKind::Shear),
            link(grid_id(w, x + 1, y), grid_id(w, x, y + 1), ConstraintKind::Shear),
        ],
    ) + only_if(x + 2 < w, seq![link(i, grid_id(w, x + 2, y), ConstraintKind::Bend)])
        + only_if(y + 2 < h, seq![link(i, grid_id(w, x, y + 2), ConstraintKind::Bend)])
}

/// The two triangles of the cell at (`x`, `y`), as six vertex indices, where the cell has
/// a right and a lower neighbour: (top-left, bottom-left, top-right) and
/// (top-right, bottom-left, bottom-right).
pub open spec fn cell_triangles(w: int, h: int, x: int, y: int) -> Seq<u32> {
    let a = grid_id(w, x, y) as u32;
    let b = grid_id(w, x + 1, y) as u32;
    let c = grid_id(w, x, y + 1) as u32;
    let d = grid_id(w, x + 1, y + 1) as u32;
    only_if(x + 1 < w && y + 1 < h, seq![a, c, b, b, c, d])
}

/// What the cells 0..`n` of row `y` contribute, in order.
pub open spec fn row_concat<A>(f: spec_fn(int, int) -> Seq<A>, y: int, n: nat) -> Seq<A>
    decreases n,
{
    if n == 0 {
        Seq::empty()
    } else {
        row_concat(f, y, (n - 1) as nat) + f(n - 1, y)
    }
}

/// What rows 0..`m` of a grid `w` wide contribute, in row-major order.
pub open spec fn grid_concat<A>(f: spec_fn(int, int) -> Seq<A>, w: nat, m: nat) -> Seq<A>
    decreases m,
{
    if m == 0 {
        Seq::empty()
    } else {
        grid_concat(f, w, (m - 1) as nat) + row_concat(f, m - 1, w)
    }
}

/// The per-cell constraint generator of a `w` by `h` grid.
pub open spec fn links_of(w: int, h: int) -> spec_fn(int, int) -> Seq<Link> {
    |x: int, y: int| cell_links(w, h, x, y)
}

/// The per-cell triangle generator of a `w` by `h` grid.
pub open spec fn triangles_of(w: int, h: int) -> spec_fn(int, int) -> Seq<u32> {
    |x: int, y: int| cell_triangles(w, h, x, y)
}

/// All constraints of a `w` by `h` grid, cell by cell in row-major order.
pub open spec fn grid_links(w: nat, h: nat) -> Seq<Link> {
    grid_concat(links_of(w as int, h as int), w, h)
}

/// The triangle list of a `w` by `h` grid, cell by cell in row-major order.
pub open spec fn grid_triangles(w: nat, h: nat) -> Seq<u32> {
    grid_concat(triangles_of(w as int, h as int), w, h)
}

pub(crate) proof fn lemma_id_in_grid(w: int, h: int, x: int, y: int)
    requires
        0 <= x < w,
        0 <= y < h,
    ensures
        0 <= grid_id(w, x, y) < w * h,
{
    assert(0 <= y * w + x < w * h) by (nonlinear_arith)
        requires
            0 <= x < w,
            0 <= y < h,
    ;
}

/// The row-major index of (`x`, `y`) in a grid `width` wide and `height` high.
fn grid_index(width: usize, height: usize, x: usize, y: usize) -> (i: usize)
    requires
        x < width,
        y < height,
        width * height <= usize::MAX,
    ensures
        i == grid_id(width as int, x as int, y as int),
        i < width * height,
{
    proof {
        lemma_id_in_grid(width as int, height as int, x as int, y as int);
    }
    y * width + x
}

/// Appends what the cell at (`x`, `y`) contributes to the constraint and triangle lists.
fn push_cell(
    links: &mut Vec<Link>,
    tris: &mut Vec<u32>,
    width: usize,
    height: usize,
    x: usize,
    y: usize,
)
    requires
        x < width,
        y < height,
        width * height <= usize::MAX,
    ensures
        final(links)@ == old(links)@ + cell_links(width as int, height as int, x as int, y as int),
        final(tris)@ == old(tris)@ + cell_triangles(width as int, height as int, x as int, y as int),
{
    let ghost w = width as int;
    let ghost h = height as int;
    let ghost l0 = links@;
    let ghost t0 = tris@;
    let i = grid_index(width, height, x, y);
    let ghost s1 = only_if(x + 1 < w, seq![link(i as int, grid_id(w, x + 1, y as int), ConstraintKind::StructuralEdge)]);
    if x + 1 < width {
        let r = grid_index(width, height, x + 1, y);
        links.push(Link { a: i, b: r, kind: ConstraintKind::StructuralEdge });
    }
    assert(links@ =~= l0 + s1);
    let ghost l1 = links@;
    let ghost s2 = only_if(y + 1 < h, seq![link(i as int, grid_id(w, x as int, y + 1), ConstraintKind::StructuralEdge)]);
    if y + 1 < height {
        let dn = grid_index(width, height, x, y + 1);
        links.push(Link { a: i, b: dn, kind: ConstraintKind::StructuralEdge });
    }
    assert(links@ =~= l1 + s2);
    let ghost l2 = links@;
    let ghost s3 = only_if(
        x + 1 < w && y + 1 < h,
        seq![
            link(i as int, grid_id(w, x + 1, y + 1), ConstraintKind::Shear),
            link(grid_id(w, x + 1, y as int), grid_id(w, x as int, y + 1), ConstraintKind::Shear),
        ],
    );
    if x + 1 < width && y + 1 < height {
        let r = grid_index(width, height, x + 1, y);
        let dn = grid_index(width, height, x, y + 1);
        let dr = grid_index(width, height, x + 1, y + 1);
        links.push(Link { a: i, b: dr, kind: ConstraintKind::Shear });
        links.push(Link { a: r, b: dn, kind: ConstraintKind::Shear });
    }
    assert(links@ =~= l2 + s3);
    let ghost l3 = links@;
    let ghost s4 = only_if(x + 2 < w, seq![link(i as int, grid_id(w, x + 2, y as int), ConstraintKind::Bend)]);
    if x + 1 < width && x + 2 < width {
        let r2 = grid_index(width, height, x + 2, y);
        links.push(Link { a: i, b: r2, kind: ConstraintKind::Bend });
    }
    assert(links@ =~= l3 + s4);
    let ghost l4 = links@;
    let ghost s5 = only_if(y + 2 < h, seq![link(i as int, grid_id(w, x as int, y + 2), ConstraintKind::Bend)]);
    if y + 1 < height && y + 2 < height {
        let d2 = grid_index(width, height, x, y + 2);
        links.push(Link { a: i, b: d2, kind: ConstraintKind::Bend });
    }
    assert(links@ =~= l4 + s5);
    assert(links@ =~= l0 + cell_links(w, h, x as int, y as int));
    if x + 1 < width && y + 1 < height {
        let b = grid_index(width, height, x + 1, y);
        let c = grid_index(width, height, x, y + 1);
        let d = grid_index(width, height, x + 1, y + 1);
        let a32 = #[verifier::truncate] (i as u32);
        let b32 = #[verifier::truncate] (b as u32);
        let c32 = #[verifier::truncate] (c as u32);
        let d32 = #[verifier::truncate] (d as u32);
        tris.push(a32);
        tris.push(c32);
        tris.push(b32);
        tris.push(b32);
        tris.push(c32);
        tris.push(d32);
    }
    assert(tris@ =~= t0 + cell_triangles(w, h, x as int, y as int));
}

/// Builds the constraint list and the triangle list of a `width` by `height` grid.
fn build_topology(width: usize, height: usize) -> (res: (Vec<Link>, Vec<u32>))
    requires
        width * height <= usize::MAX,
    ensures
        res.0@ == grid_links(width as nat, height as nat),
        res.1@ == grid_triangles(width as nat, height as nat),
{
    let ghost lf = links_of(width as int, height as int);
    let ghost tf = triangles_of(width as int, height as int);
    let mut links: Vec<Link> = Vec::new();
    let mut tris: Vec<u32> = Vec::new();
    let mut y: usize = 0;
    while y < height
        invariant
            y <= height,
            width * height <= usize::MAX,
            lf == links_of(width as int, height as int),
            tf == triangles_of(width as int, height as int),
            links@ == grid_concat(lf, width as nat, y as nat),
            tris@ == grid_concat(tf, width as nat, y as nat),
        decreases height - y,
    {
        let mut x: usize = 0;
        while x < width
            invariant
                x <= width,
                y < height,
                width * height <= usize::MAX,
                lf == links_of(width as int, height as int),
                tf == triangles_of(width as int, height as int),
                links@ == grid_concat(lf, width as nat, y as nat) + row_concat(lf, y as int, x as nat),
                tris@ == grid_concat(tf, width as nat, y as nat) + row_concat(tf, y as int, x as nat),
            decreases width - x,
        {
            let ghost lp = links@;
            let ghost tp = tris@;
            push_cell(&mut links, &mut tris, width, height, x, y);
            assert(lf(x as int, y as int) == cell_links(width as int, height as int, x as int, y as int));
            assert(tf(x as int, y as int) == cell_triangles(width as int, height as int, x as int, y as int));
            assert(row_concat(lf, y as int, (x + 1) as nat) == row_concat(lf, y as int, x as nat) + lf(x as int, y as int));
            assert(row_concat(tf, y as int, (x + 1) as nat) == row_concat(tf, y as int, x as nat) + tf(x as int, y as int));
            x = x + 1;
        }
        assert(grid_concat(lf, width as nat, (y + 1) as nat) == grid_concat(lf, width as nat, y as nat) + row_concat(lf, y as int, width as nat));
        assert(grid_concat(tf, width as nat, (y + 1) as nat) == grid_concat(tf, width as nat, y as nat) + row_concat(tf, y as int, width as nat));
        y = y + 1;
    }
    (links, tris)
}


/// Which particles are held in place.
#[derive(Clone, Copy, Debug, PartialEq, Eq, Structural)]
pub enum Attachment {
    /// The whole left column.
    FullEdge,
    /// The top-left and bottom-left corners.
    TwoPoint,
    /// The whole top row.
    TopEdge,
}

/// Whether particle `i` of a `w` by `h` grid is pinned under `attachment`.
pub open spec fn is_pinned(w: int, h: int, attachment: Attachment, i: int) -> bool {
    match attachment {
        Attachment::FullEdge => i % w == 0,
        Attachment::TwoPoint => i == 0 || i == grid_id(w, 0, h - 1),
        Attachment::TopEdge => i < w,
    }
}

/// The pin flag of every particle of a `w` by `h` grid under `attachment`.
pub open spec fn pin_mask(w: nat, h: nat, attachment: Attachment) -> Seq<bool> {
    Seq::new(w * h, |i: int| is_pinned(w as int, h as int, attachment, i))
}

/// Flags, for each particle of a `width` by `height` grid, whether `attachment` pins it.
fn apply_pins(width: usize, height: usize, attachment: Attachment) -> (mask: Vec<bool>)
    requires
        2 <= width,
        2 <= height,
        width * height <= usize::MAX,
    ensures
        mask@ == pin_mask(width as nat, height as nat, attachment),
{
    let n = width * height;
    let mut mask: Vec<bool> = Vec::new();
    while mask.len() < n
        invariant
            mask.len() <= n,
            forall|j: int| 0 <= j < mask.len() ==> !mask@[j],
        decreases n - mask.len(),
    {
        mask.push(false);
    }
    let ghost w = width as int;
    let ghost h = height as int;
    assert(width <= width * height) by (nonlinear_arith)
        requires
            height >= 1,
    ;
    match attachment {
        Attachment::FullEdge => {
            let mut y: usize = 0;
            while y < height
                invariant
                    y <= height,
                    2 <= width,
                    width * height <= usize::MAX,
                    n == width * height,
                    w == width,
                    mask.len() == n,
                    forall|j: int| 0 <= j < n ==> mask@[j] == (j % w == 0 && j / w < y),
                decreases height - y,
            {
                let i = grid_index(width, height, 0, y);
                mask.set(i, true);
                proof {
                    lemma_fundamental_div_mod_converse(i as int, w, y as int, 0);
                    assert forall|j: int| 0 <= j < n implies mask@[j] == (j % w == 0 && j / w < y + 1) by {
                        if j != i {
                            lemma_fundamental_div_mod(j, w);
                            if j % w == 0 && j / w == y {
                                assert(j == w * y);
                                assert(w * y == y * w) by (nonlinear_arith);
                            }
                        }
                    }
                }
                y = y + 1;
            }
            proof {
                assert forall|j: int| 0 <= j < n implies mask@[j] == is_pinned(w, h, attachment, j) by {
                    if j % w == 0 {
                        lemma_fundamental_div_mod(j, w);
                        let q = j / w;
                        assert(q < h) by (nonlinear_arith)
                            requires
                                j == w * q + 0,
                                j < w * h,
                                w > 0,
                        ;
                    }
                }
            }
        },
        Attachment::TwoPoint => {
            mask.set(0, true);
            let i = grid_index(width, height, 0, height - 1);
            mask.set(i, true);
        },
        Attachment::TopEdge => {
            let mut x: usize = 0;
            while x < width
                invariant
                    x <= width,
                    width <= n,
                    mask.len() == n,
                    forall|j: int| 0 <= j < n ==> mask@[j] == (j < x),
                decreases width - x,
            {
                mask.set(x, true);
                x = x + 1;
            }
        },
    }
    assert(mask@ =~= pin_mask(width as nat, height as nat, attachment));
    mask
}


/// Number of constraints of kind `k` in `s`.
pub open spec fn count_kind(s: Seq<Link>, k: ConstraintKind) -> nat
    decreases s.len(),
{
    if s.len() == 0 {
        0
    } else {
        count_kind(s.drop_last(), k) + (if s.last().kind == k { 1nat } else { 0nat })
    }
}

/// Number of pinned particles among the first `n` of a `w` by `h` grid under `attachment`.
pub open spec fn count_pinned(w: int, h: int, attachment: Attachment, n: nat) -> nat
    decreases n,
{
    if n == 0 {
        0
    } else {
        count_pinned(w, h, attachment, (n - 1) as nat) + (if is_pinned(w, h, attachment, n - 1) {
            1nat
        } else {
            0nat
        })
    }
}

/// The integer structure of a rectangular cloth: its grid of particles, the distance
/// constraints between them, its triangles and which particles are pinned.
pub struct Topology {
    width: usize,
    height: usize,
    attachment: Attachment,
    links: Vec<Link>,
    indices: Vec<u32>,
    pinned: Vec<bool>,
}

impl Topology {
    /// Columns of the grid.
    pub closed spec fn spec_width(&self) -> nat {
        self.width as nat
    }

    /// Rows of the grid.
    pub closed spec fn spec_height(&self) -> nat {
        self.height as nat
    }

    /// How the cloth is held.
    pub closed spec fn spec_attachment(&self) -> Attachment {
        self.attachment
    }

    /// The constraints, in the order they are built.
    pub closed spec fn spec_links(&self) -> Seq<Link> {
        self.links@
    }

    /// The triangle list, three vertex indices per triangle.
    pub closed spec fn spec_indices(&self) -> Seq<u32> {
        self.indices@
    }

    /// The pin flag of each particle.
    pub closed spec fn spec_pinned(&self) -> Seq<bool> {
        self.pinned@
    }

    /// The grid is at least 2 by 2, its particle count fits in a `usize`, and the
    /// constraints, triangles and pins are those that its size and attachment determine.
    pub closed spec fn wf(&self) -> bool {
        &&& 2 <= self.width
        &&& 2 <= self.height
        &&& self.width * self.height <= usize::MAX
        &&& self.links@ == grid_links(self.width as nat, self.height as nat)
        &&& self.indices@ == grid_triangles(self.width as nat, self.height as nat)
        &&& self.pinned@ == pin_mask(self.width as nat, self.height as nat, self.attachment)
    }

    /// What a well-formed topology holds, in terms of its size and attachment.
    pub open spec fn determined_by(&self, w: nat, h: nat, attachment: Attachment) -> bool {
        &&& self.spec_width() == w
        &&& self.spec_height() == h
        &&& self.spec_attachment() == attachment
        &&& 2 <= w
        &&& 2 <= h
        &&& w * h <= usize::MAX
        &&& self.spec_links() == grid_links(w, h)
        &&& self.spec_indices() == grid_triangles(w, h)
        &&& self.spec_pinned() == pin_mask(w, h, attachment)
    }

    /// Builds the grid of `width` by `height` particles held by `attachment`.
    /// A grid narrower or shorter than 2 is refused (the caller must not ask for one).
    pub fn new(width: usize, height: usize, attachment: Attachment) -> (t: Self)
        requires
            2 <= width,
            2 <= height,
            width * height <= usize::MAX,
        ensures
            t.wf(),
            t.determined_by(width as nat, height as nat, attachment),
    {
        let (links, indices) = build_topology(width, height);
        let pinned = apply_pins(width, height, attachment);
        Topology { width, height, attachment, links, indices, pinned }
    }

    /// A well-formed topology is the one its size and attachment determine.
    pub proof fn lemma_wf_determined(&self)
        requires
            self.wf(),
        ensures
            self.determined_by(self.spec_width(), self.spec_height(), self.spec_attachment()),
    {
    }

    /// Columns of the grid.
    pub fn width(&self) -> (w: usize)
        ensures
            w == self.spec_width(),
    {
        self.width
    }

    /// Rows of the grid.
    pub fn height(&self) -> (h: usize)
        ensures
            h == self.spec_height(),
    {
        self.height
    }

    /// How the cloth is held.
    pub fn attachment(&self) -> (a: Attachment)
        ensures
            a == self.spec_attachment(),
    {
        self.attachment
    }

    /// Index of the particle in column `x` and row `y`.
    pub fn id(&self, x: usize, y: usize) -> (i: usize)
        requires
            self.wf(),
            x < self.spec_width(),
            y < self.spec_height(),
        ensures
            i == grid_id(self.spec_width() as int, x as int, y as int),
            i < self.spec_width() * self.spec_height(),
    {
        grid_index(self.width, self.height, x, y)
    }

    /// Holds the cloth by `attachment` from now on; constraints and triangles stay.
    pub fn set_attachment(&mut self, attachment: Attachment)
        requires
            old(self).wf(),
        ensures
            final(self).wf(),
            final(self).spec_width() == old(self).spec_width(),
            final(self).spec_height() == old(self).spec_height(),
            final(self).spec_attachment() == attachment,
            final(self).spec_links() == old(self).spec_links(),
            final(self).spec_indices() == old(self).spec_indices(),
            final(self).spec_pinned() == pin_mask(old(self).spec_width(), old(self).spec_height(), attachment),
    {
        self.pinned = apply_pins(self.width, self.height, attachment);
        self.attachment = attachment;
    }

    /// The distance constraints, in build order.
    pub fn links(&self) -> (l: &Vec<Link>)
        ensures
            l@ == self.spec_links(),
            self.wf() ==> links_within(l@, (self.spec_width() * self.spec_height()) as int),
            self.wf() ==> links_geometric(l@, self.spec_width() as int),
    {
        proof {
            if self.wf() {
                crate::grid_laws::lemma_links_in_grid(self.width as nat, self.height as nat);
                crate::grid_laws::lemma_link_geometry(self.width as nat, self.height as nat);
            }
        }
        &self.links
    }

    /// The triangle list, three vertex indices per triangle.
    pub fn indices(&self) -> (ix: &Vec<u32>)
        ensures
            ix@ == self.spec_indices(),
            self.wf() ==> ix@.len() == 6 * (self.spec_width() - 1) * (self.spec_height() - 1),
            self.wf() && self.spec_width() * self.spec_height() <= 0x1_0000_0000 ==> triangles_wound(
                ix@,
                self.spec_width() as int,
            ),
    {
        proof {
            if self.wf() {
                crate::grid_laws::lemma_triangle_count(self.width as nat, self.height as nat);
                if self.width * self.height <= 0x1_0000_0000 {
                    crate::grid_laws::lemma_triangle_winding(self.width as nat, self.height as nat);
                }
            }
        }
        &self.indices
    }

    /// The pin flag of each particle.
    pub fn pinned(&self) -> (p: &Vec<bool>)
        ensures
            p@ == self.spec_pinned(),
    {
        &self.pinned
    }

    /// Number of distance constraints.
    pub fn constraint_count(&self) -> (n: usize)
        ensures
            n == self.spec_links().len(),
            self.wf() ==> {
                let w = self.spec_width();
                let h = self.spec_height();
                n == (w - 1) * h + w * (h - 1) + 2 * (w - 1) * (h - 1) + (w - 2) * h + w * (h - 2)
            },
    {
        proof {
            if self.wf() {
                crate::grid_laws::lemma_constraint_counts(self.width as nat, self.height as nat);
            }
        }
        self.links.len()
    }

    /// Number of pinned particles.
    pub fn pinned_count(&self) -> (n: usize)
        requires
            self.wf(),
        ensures
            n == count_pinned(
                self.spec_width() as int,
                self.spec_height() as int,
                self.spec_attachment(),
                self.spec_width() * self.spec_height(),
            ),
            n == match self.spec_attachment() {
                Attachment::FullEdge => self.spec_height(),
                Attachment::TwoPoint => 2,
                Attachment::TopEdge => self.spec_width(),
            },
    {
        proof {
            crate::grid_laws::lemma_pinned_counts(self.width as nat, self.height as nat);
        }
        let mut n: usize = 0;
        let mut i: usize = 0;
        let len = self.pinned.len();
        while i < len
            invariant
                self.wf(),
                len == self.pinned@.len(),
                len == self.width * self.height,
                i <= len,
                n <= i,
                n == count_pinned(self.width as int, self.height as int, self.attachment, i as nat),
            decreases len - i,
        {
            if self.pinned[i] {
                n = n + 1;
            }
            i = i + 1;
        }
        n
    }

    /// The candidate stencils for isometric bending: one for each edge that two of the
    /// grid's triangles share, in the order the triangle list meets them.
    pub fn build_isometric_bends(&self) -> (b: Vec<BendStencil>)
        ensures
            b@ == shared_edge_stencils(self.spec_indices()),
            self.wf() && self.spec_width() * self.spec_height() <= 0x1_0000_0000 ==> forall|j: int|
                0 <= j < b@.len() ==> stencil_joins(
                    self.spec_indices(),
                    #[trigger] b@[j],
                    (self.spec_indices().len() / 3) as int,
                ),
    {
        proof {
            if self.wf() && self.width * self.height <= 0x1_0000_0000 {
                crate::grid_laws::lemma_grid_triangles_proper(self.width as nat, self.height as nat);
                crate::bends::lemma_stencils_join_distinct_triangles(self.indices@);
            }
        }
        pair_shared_edges(&self.indices)
    }

    /// Number of structural, shear and bend constraints, in that order.
    pub fn kind_counts(&self) -> (c: (usize, usize, usize))
        ensures
            c.0 == count_kind(self.spec_links(), ConstraintKind::StructuralEdge),
            c.1 == count_kind(self.spec_links(), ConstraintKind::Shear),
            c.2 == count_kind(self.spec_links(), ConstraintKind::Bend),
            self.wf() ==> {
                let w = self.spec_width();
                let h = self.spec_height();
                &&& c.0 == (w - 1) * h + w * (h - 1)
                &&& c.1 == 2 * (w - 1) * (h - 1)
                &&& c.2 == (w - 2) * h + w * (h - 2)
            },
    {
        proof {
            if self.wf() {
                crate::grid_laws::lemma_constraint_counts(self.width as nat, self.height as nat);
            }
        }
        let mut s: usize = 0;
        let mut sh: usize = 0;
        let mut b: usize = 0;
        let mut i: usize = 0;
        let len = self.links.len();
        while i < len
            invariant
                len == self.links@.len(),
                i <= len,
                s + sh + b <= i,
                s == count_kind(self.links@.take(i as int), ConstraintKind::StructuralEdge),
                sh == count_kind(self.links@.take(i as int), ConstraintKind::Shear),
                b == count_kind(self.links@.take(i as int), ConstraintKind::Bend),
            decreases len - i,
        {
            assert(self.links@.take(i + 1).drop_last() =~= self.links@.take(i as int));
            match self.links[i].kind {
                ConstraintKind::StructuralEdge => s = s + 1,
                ConstraintKind::Shear => sh = sh + 1,
                ConstraintKind::Bend => b = b + 1,
            }
            i = i + 1;
        }
        assert(self.links@.take(len as int) =~= self.links@);
        (s, sh, b)
    }
}


impl Attachment {
    /// The attachment a numeric id selects: 1 holds two corners, 2 the top edge, any other
    /// id the full left edge.
    pub fn from_id(id: u8) -> (a: Attachment)
        ensures
            a == (if id == 1 {
                Attachment::TwoPoint
            } else if id == 2 {
                Attachment::TopEdge
            } else {
                Attachment::FullEdge
            }),
    {
        match id {
            1 => Attachment::TwoPoint,
            2 => Attachment::TopEdge,
            _ => Attachment::FullEdge,
        }
    }
}

/// Which of seven depth levels the rest position of the particle at (`x`, `y`) is
/// nudged to, so that a flat cloth is not perfectly planar.
pub fn jitter_step(x: usize, y: usize) -> (j: usize)
    requires
        x * 17 + y * 31 <= usize::MAX,
    ensures
        j == (x * 17 + y * 31) % 7,
        j < 7,
{
    (x * 17 + y * 31) % 7
}

} // verus!
