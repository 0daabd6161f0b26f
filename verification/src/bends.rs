use vstd::prelude::*;

use std::collections::HashMap;

use vstd::arithmetic::div_mod::lemma_fundamental_div_mod_converse;

verus! {

/// Four particles around an edge shared by two triangles: the edge is `a`–`b` (lower
/// index first), `c` is the vertex facing it in the first triangle met and `d` the vertex
/// facing it in the second.
#[derive(Clone, Copy, Debug, PartialEq, Eq, Structural)]
pub struct BendStencil {
    pub a: usize,
    pub b: usize,
    pub c: usize,
    pub d: usize,
}

/// The key under which the edge `lo`–`hi` waits for its second triangle.
pub open spec fn edge_key(lo: u32, hi: u32) -> u64 {
    (lo as int * 0x1_0000_0000 + hi as int) as u64
}

/// Edges met once so far, by key, with the vertex facing them; and the stencils found.
pub type Pairing = (Map<u64, usize>, Seq<BendStencil>);

/// Meets the edge `a`–`b` of a triangle whose third vertex is `o`: if the edge is waiting,
/// it stops waiting and yields a stencil; otherwise it starts waiting with `o`.
pub open spec fn pair_edge(st: Pairing, a: u32, b: u32, o: u32) -> Pairing {
    let lo = if a < b { a } else { b };
    let hi = if a < b { b } else { a };
    let k = edge_key(lo, hi);
    if st.0.contains_key(k) {
        (
            st.0.remove(k),
            st.1.push(BendStencil { a: lo as usize, b: hi as usize, c: st.0[k], d: o as usize }),
        )
    } else {
        (st.0.insert(k, o as usize), st.1)
    }
}

/// Meets the three edges of the triangle (`i0`, `i1`, `i2`) in order: `i0`–`i1`,
/// `i1`–`i2`, `i2`–`i0`.
pub open spec fn pair_triangle(st: Pairing, i0: u32, i1: u32, i2: u32) -> Pairing {
    pair_edge(pair_edge(pair_edge(st, i0, i1, i2), i1, i2, i0), i2, i0, i1)
}

/// The state after the first `t` triangles of the list `s` (three indices each).
pub open spec fn pairing_after(s: Seq<u32>, t: nat) -> Pairing
    decreases t,
{
    if t == 0 {
        (Map::empty(), Seq::empty())
    } else {
        pair_triangle(
            pairing_after(s, (t - 1) as nat),
            s[3 * t - 3],
            s[3 * t - 2],
            s[3 * t - 1],
        )
    }
}

/// The stencils of a triangle list: one for each edge met a second time, in the order
/// met. Trailing indices that do not make a whole triangle are ignored.
pub open spec fn shared_edge_stencils(s: Seq<u32>) -> Seq<BendStencil> {
    pairing_after(s, s.len() / 3).1
}

fn meet_edge(edges: &mut HashMap<u64, usize>, out: &mut Vec<BendStencil>, a: u32, b: u32, o: u32)
    ensures
        (final(edges)@, final(out)@) == pair_edge((old(edges)@, old(out)@), a, b, o),
{
    let (lo, hi) = if a < b { (a, b) } else { (b, a) };
    assert(lo as int * 0x1_0000_0000 + hi as int <= u64::MAX) by (nonlinear_arith)
        requires
            lo <= u32::MAX,
            hi <= u32::MAX,
    ;
    let key: u64 = (lo as u64) * 0x1_0000_0000 + (hi as u64);
    assert(key == edge_key(lo, hi));
    match edges.remove(&key) {
        Some(other) => {
            out.push(BendStencil { a: lo as usize, b: hi as usize, c: other, d: o as usize });
        },
        None => {
            edges.insert(key, o as usize);
        },
    }
}

/// Pairs up the triangles of `indices` (three vertex indices per triangle) that share an
/// edge, as `shared_edge_stencils` describes.
pub fn pair_shared_edges(indices: &Vec<u32>) -> (out: Vec<BendStencil>)
    ensures
        out@ == shared_edge_stencils(indices@),
{
    let mut edges: HashMap<u64, usize> = HashMap::new();
    let mut out: Vec<BendStencil> = Vec::new();
    let len = indices.len();
    let n = len / 3;
    let mut t: usize = 0;
    while t < n
        invariant
            len == indices@.len(),
            n == len / 3,
            t <= n,
            (edges@, out@) == pairing_after(indices@, t as nat),
        decreases n - t,
    {
        assert(3 * t + 2 < indices@.len()) by (nonlinear_arith)
            requires
                t < n,
                n == len / 3,
                len == indices@.len(),
        ;
        let i0 = indices[3 * t];
        let i1 = indices[3 * t + 1];
        let i2 = indices[3 * t + 2];
        meet_edge(&mut edges, &mut out, i0, i1, i2);
        meet_edge(&mut edges, &mut out, i1, i2, i0);
        meet_edge(&mut edges, &mut out, i2, i0, i1);
        t = t + 1;
    }
    out
}


/// `lo`–`hi` is the edge `p`–`q` with its ends in increasing order.
pub open spec fn edge_is(p: int, q: int, lo: int, hi: int) -> bool {
    if p < q {
        lo == p && hi == q
    } else {
        lo == q && hi == p
    }
}

/// Triangle `t` of the list `s` has the edge `lo`–`hi`, and `o` is its third vertex.
pub open spec fn faces(s: Seq<u32>, t: int, lo: int, hi: int, o: int) -> bool {
    let i0 = s[3 * t] as int;
    let i1 = s[3 * t + 1] as int;
    let i2 = s[3 * t + 2] as int;
    ||| edge_is(i0, i1, lo, hi) && o == i2
    ||| edge_is(i1, i2, lo, hi) && o == i0
    ||| edge_is(i2, i0, lo, hi) && o == i1
}

/// The stencil joins two of the first `n` triangles of `s` across an edge they share:
/// its edge is `a`–`b` with `a <= b`, `c` faces it in the first triangle and `d` in the
/// second, which is the first or comes after it.
pub open spec fn stencil_from(s: Seq<u32>, b: BendStencil, n: int) -> bool {
    &&& b.a <= b.b
    &&& exists|t1: int, t2: int|
        #![trigger faces(s, t1, b.a as int, b.b as int, b.c as int), faces(s, t2, b.a as int, b.b as int, b.d as int)]
        0 <= t1 <= t2 < n && faces(s, t1, b.a as int, b.b as int, b.c as int) && faces(
            s,
            t2,
            b.a as int,
            b.b as int,
            b.d as int,
        )
}

spec fn key_of(lo: int, hi: int) -> int {
    lo * 0x1_0000_0000 + hi
}

/// Every waiting edge was met in one of the first `n` triangles, facing the stored vertex.
spec fn open_from(s: Seq<u32>, m: Map<u64, usize>, n: int) -> bool {
    forall|k: u64|
        #[trigger] m.contains_key(k) ==> exists|t: int, lo: int, hi: int|
            #![trigger faces(s, t, lo, hi, m[k] as int)]
            0 <= t < n && 0 <= lo <= hi <= u32::MAX && k as int == key_of(lo, hi) && faces(
                s,
                t,
                lo,
                hi,
                m[k] as int,
            )
}

spec fn stencils_from(s: Seq<u32>, out: Seq<BendStencil>, n: int) -> bool {
    forall|j: int| 0 <= j < out.len() ==> stencil_from(s, #[trigger] out[j], n)
}

proof fn lemma_key_of_injective(lo1: int, hi1: int, lo2: int, hi2: int)
    requires
        0 <= lo1,
        0 <= hi1 <= u32::MAX,
        0 <= lo2,
        0 <= hi2 <= u32::MAX,
        key_of(lo1, hi1) == key_of(lo2, hi2),
    ensures
        lo1 == lo2,
        hi1 == hi2,
{
    lemma_fundamental_div_mod_converse(key_of(lo1, hi1), 0x1_0000_0000, lo1, hi1);
    lemma_fundamental_div_mod_converse(key_of(lo2, hi2), 0x1_0000_0000, lo2, hi2);
}

proof fn lemma_pair_edge_from(s: Seq<u32>, st: Pairing, n: int, a: u32, b: u32, o: u32)
    requires
        0 <= n,
        3 * n + 2 < s.len(),
        open_from(s, st.0, n + 1),
        stencils_from(s, st.1, n + 1),
        faces(
            s,
            n,
            (if a < b { a } else { b }) as int,
            (if a < b { b } else { a }) as int,
            o as int,
        ),
    ensures
        open_from(s, pair_edge(st, a, b, o).0, n + 1),
        stencils_from(s, pair_edge(st, a, b, o).1, n + 1),
{
    let lo = if a < b { a } else { b };
    let hi = if a < b { b } else { a };
    let k = edge_key(lo, hi);
    assert(lo as int * 0x1_0000_0000 + hi as int <= u64::MAX) by (nonlinear_arith)
        requires
            lo <= u32::MAX,
            hi <= u32::MAX,
    ;
    assert(k as int == key_of(lo as int, hi as int));
    let nst = pair_edge(st, a, b, o);
    if st.0.contains_key(k) {
        let (t1, lo1, hi1) = choose|t: int, lo1: int, hi1: int|
            #![trigger faces(s, t, lo1, hi1, st.0[k] as int)]
            0 <= t < n + 1 && 0 <= lo1 <= hi1 <= u32::MAX && k as int == key_of(lo1, hi1)
                && faces(s, t, lo1, hi1, st.0[k] as int);
        lemma_key_of_injective(lo1, hi1, lo as int, hi as int);
        let sb = BendStencil { a: lo as usize, b: hi as usize, c: st.0[k], d: o as usize };
        assert(faces(s, t1, sb.a as int, sb.b as int, sb.c as int));
        assert(faces(s, n, sb.a as int, sb.b as int, sb.d as int));
        assert(stencil_from(s, sb, n + 1));
        assert(nst.1 == st.1.push(sb));
        assert forall|j: int| 0 <= j < nst.1.len() implies stencil_from(s, #[trigger] nst.1[j], n + 1) by {
            if j < st.1.len() {
                assert(nst.1[j] == st.1[j]);
            } else {
                assert(nst.1[j] == sb);
            }
        }
        assert forall|k2: u64| #[trigger] nst.0.contains_key(k2) implies exists|t: int, lo2: int, hi2: int|
            #![trigger faces(s, t, lo2, hi2, nst.0[k2] as int)]
            0 <= t < n + 1 && 0 <= lo2 <= hi2 <= u32::MAX && k2 as int == key_of(lo2, hi2) && faces(
                s,
                t,
                lo2,
                hi2,
                nst.0[k2] as int,
            ) by {
            assert(st.0.contains_key(k2));
            assert(nst.0[k2] == st.0[k2]);
        }
    } else {
        assert(nst.0 == st.0.insert(k, o as usize));
        assert forall|k2: u64| #[trigger] nst.0.contains_key(k2) implies exists|t: int, lo2: int, hi2: int|
            #![trigger faces(s, t, lo2, hi2, nst.0[k2] as int)]
            0 <= t < n + 1 && 0 <= lo2 <= hi2 <= u32::MAX && k2 as int == key_of(lo2, hi2) && faces(
                s,
                t,
                lo2,
                hi2,
                nst.0[k2] as int,
            ) by {
            if k2 == k {
                assert(nst.0[k2] == o as usize);
                assert(faces(s, n, lo as int, hi as int, nst.0[k2] as int));
            } else {
                assert(st.0.contains_key(k2));
                assert(nst.0[k2] == st.0[k2]);
            }
        }
    }
}

proof fn lemma_widen(s: Seq<u32>, st: Pairing, n: int)
    requires
        open_from(s, st.0, n),
        stencils_from(s, st.1, n),
    ensures
        open_from(s, st.0, n + 1),
        stencils_from(s, st.1, n + 1),
{
    assert forall|k: u64| #[trigger] st.0.contains_key(k) implies exists|t: int, lo: int, hi: int|
        #![trigger faces(s, t, lo, hi, st.0[k] as int)]
        0 <= t < n + 1 && 0 <= lo <= hi <= u32::MAX && k as int == key_of(lo, hi) && faces(
            s,
            t,
            lo,
            hi,
            st.0[k] as int,
        ) by {
        let (t, lo, hi) = choose|t: int, lo: int, hi: int|
            #![trigger faces(s, t, lo, hi, st.0[k] as int)]
            0 <= t < n && 0 <= lo <= hi <= u32::MAX && k as int == key_of(lo, hi) && faces(
                s,
                t,
                lo,
                hi,
                st.0[k] as int,
            );
        assert(faces(s, t, lo, hi, st.0[k] as int));
    }
    assert forall|j: int| 0 <= j < st.1.len() implies stencil_from(s, #[trigger] st.1[j], n + 1) by {
        let b = st.1[j];
        assert(stencil_from(s, b, n));
        let (t1, t2) = choose|t1: int, t2: int|
            #![trigger faces(s, t1, b.a as int, b.b as int, b.c as int), faces(s, t2, b.a as int, b.b as int, b.d as int)]
            0 <= t1 <= t2 < n && faces(s, t1, b.a as int, b.b as int, b.c as int) && faces(
                s,
                t2,
                b.a as int,
                b.b as int,
                b.d as int,
            );
        assert(faces(s, t1, b.a as int, b.b as int, b.c as int));
        assert(faces(s, t2, b.a as int, b.b as int, b.d as int));
    }
}

proof fn lemma_pairing_from(s: Seq<u32>, t: nat)
    requires
        3 * t <= s.len(),
    ensures
        open_from(s, pairing_after(s, t).0, t as int),
        stencils_from(s, pairing_after(s, t).1, t as int),
    decreases t,
{
    if t > 0 {
        let n = t - 1;
        lemma_pairing_from(s, n as nat);
        let st0 = pairing_after(s, n as nat);
        lemma_widen(s, st0, n);
        let i0 = s[3 * n];
        let i1 = s[3 * n + 1];
        let i2 = s[3 * n + 2];
        assert(s[3 * t - 3] == i0 && s[3 * t - 2] == i1 && s[3 * t - 1] == i2);
        lemma_pair_edge_from(s, st0, n, i0, i1, i2);
        let st1 = pair_edge(st0, i0, i1, i2);
        lemma_pair_edge_from(s, st1, n, i1, i2, i0);
        let st2 = pair_edge(st1, i1, i2, i0);
        lemma_pair_edge_from(s, st2, n, i2, i0, i1);
    }
}

/// Each stencil joins two triangles of the list across an edge they share: its edge is
/// `a`–`b` with `a <= b`, `c` is the vertex facing that edge in one triangle and `d` the
/// vertex facing it in the same or a later one.
pub proof fn lemma_stencils_share_edges(s: Seq<u32>)
    ensures
        forall|j: int|
            0 <= j < shared_edge_stencils(s).len() ==> stencil_from(
                s,
                #[trigger] shared_edge_stencils(s)[j],
                (s.len() / 3) as int,
            ),
{
    assert(3 * (s.len() / 3) <= s.len()) by (nonlinear_arith);
    lemma_pairing_from(s, s.len() / 3);
}


/// How many of the three edges of triangle `t` of `s` are the edge `lo`–`hi`.
pub open spec fn edge_count_in_triangle(s: Seq<u32>, t: int, lo: int, hi: int) -> nat {
    let i0 = s[3 * t] as int;
    let i1 = s[3 * t + 1] as int;
    let i2 = s[3 * t + 2] as int;
    (if edge_is(i0, i1, lo, hi) { 1nat } else { 0nat }) + (if edge_is(i1, i2, lo, hi) {
        1nat
    } else {
        0nat
    }) + (if edge_is(i2, i0, lo, hi) { 1nat } else { 0nat })
}

/// How many times the edge `lo`–`hi` occurs among the edges of the first `t` triangles.
pub open spec fn edge_occurrences(s: Seq<u32>, t: nat, lo: int, hi: int) -> nat
    decreases t,
{
    if t == 0 {
        0
    } else {
        edge_occurrences(s, (t - 1) as nat, lo, hi) + edge_count_in_triangle(s, t - 1, lo, hi)
    }
}

/// How many stencils in `out` have the edge `lo`–`hi`.
pub open spec fn stencil_count(out: Seq<BendStencil>, lo: int, hi: int) -> nat
    decreases out.len(),
{
    if out.len() == 0 {
        0
    } else {
        stencil_count(out.drop_last(), lo, hi) + (if out.last().a == lo && out.last().b == hi {
            1nat
        } else {
            0nat
        })
    }
}

proof fn lemma_pair_edge_step(st: Pairing, a: u32, b: u32, o: u32, lo: int, hi: int)
    requires
        0 <= lo <= hi <= u32::MAX,
    ensures
        ({
            let e = edge_is(a as int, b as int, lo, hi);
            let k = edge_key(lo as u32, hi as u32);
            let nst = pair_edge(st, a, b, o);
            &&& nst.0.contains_key(k) == (if e {
                !st.0.contains_key(k)
            } else {
                st.0.contains_key(k)
            })
            &&& stencil_count(nst.1, lo, hi) == stencil_count(st.1, lo, hi) + (if e
                && st.0.contains_key(k) {
                1nat
            } else {
                0nat
            })
        }),
{
    let lo_e = if a < b { a } else { b };
    let hi_e = if a < b { b } else { a };
    let ke = edge_key(lo_e, hi_e);
    let k = edge_key(lo as u32, hi as u32);
    let e = edge_is(a as int, b as int, lo, hi);
    assert(lo_e as int * 0x1_0000_0000 + hi_e as int <= u64::MAX) by (nonlinear_arith)
        requires
            lo_e <= u32::MAX,
            hi_e <= u32::MAX,
    ;
    assert(lo * 0x1_0000_0000 + hi <= u64::MAX) by (nonlinear_arith)
        requires
            0 <= lo <= u32::MAX,
            0 <= hi <= u32::MAX,
    ;
    assert(ke as int == key_of(lo_e as int, hi_e as int));
    assert(k as int == key_of(lo, hi));
    if e {
        assert(k == ke);
    } else {
        if k == ke {
            lemma_key_of_injective(lo, hi, lo_e as int, hi_e as int);
        }
        assert(k != ke);
    }
    let nst = pair_edge(st, a, b, o);
    if st.0.contains_key(ke) {
        let sb = BendStencil { a: lo_e as usize, b: hi_e as usize, c: st.0[ke], d: o as usize };
        assert(nst.1 == st.1.push(sb));
        assert(nst.1.drop_last() =~= st.1);
    }
}

proof fn lemma_parity_step(n: nat, d: nat, c0: bool, sc0: nat, c1: bool, sc1: nat)
    requires
        d <= 1,
        c0 == (n % 2 == 1),
        sc0 == n / 2,
        c1 == (if d == 1 { !c0 } else { c0 }),
        sc1 == sc0 + (if d == 1 && c0 { 1nat } else { 0nat }),
    ensures
        c1 == ((n + d) % 2 == 1),
        sc1 == (n + d) / 2,
{
}

spec fn counts_hold(st: Pairing, s: Seq<u32>, t: nat) -> bool {
    forall|lo: int, hi: int|
        #![trigger edge_occurrences(s, t, lo, hi)]
        0 <= lo <= hi <= u32::MAX ==> {
            &&& (st.0.contains_key(edge_key(lo as u32, hi as u32)) <==> edge_occurrences(
                s,
                t,
                lo,
                hi,
            ) % 2 == 1)
            &&& stencil_count(st.1, lo, hi) == edge_occurrences(s, t, lo, hi) / 2
        }
}

proof fn lemma_pairing_counts(s: Seq<u32>, t: nat)
    requires
        3 * t <= s.len(),
    ensures
        counts_hold(pairing_after(s, t), s, t),
    decreases t,
{
    if t == 0 {
        assert forall|lo: int, hi: int|
            #![trigger edge_occurrences(s, t, lo, hi)]
            0 <= lo <= hi <= u32::MAX implies {
            &&& (pairing_after(s, t).0.contains_key(edge_key(lo as u32, hi as u32))
                <==> edge_occurrences(s, t, lo, hi) % 2 == 1)
            &&& stencil_count(pairing_after(s, t).1, lo, hi) == edge_occurrences(s, t, lo, hi) / 2
        } by {}
    } else {
        let n = (t - 1) as nat;
        lemma_pairing_counts(s, n);
        let st0 = pairing_after(s, n);
        let i0 = s[3 * n as int];
        let i1 = s[3 * n as int + 1];
        let i2 = s[3 * n as int + 2];
        assert(s[3 * t - 3] == i0 && s[3 * t - 2] == i1 && s[3 * t - 1] == i2);
        let st1 = pair_edge(st0, i0, i1, i2);
        let st2 = pair_edge(st1, i1, i2, i0);
        let st3 = pair_edge(st2, i2, i0, i1);
        assert(pairing_after(s, t) == st3);
        assert forall|lo: int, hi: int|
            #![trigger edge_occurrences(s, t, lo, hi)]
            0 <= lo <= hi <= u32::MAX implies {
            &&& (st3.0.contains_key(edge_key(lo as u32, hi as u32)) <==> edge_occurrences(
                s,
                t,
                lo,
                hi,
            ) % 2 == 1)
            &&& stencil_count(st3.1, lo, hi) == edge_occurrences(s, t, lo, hi) / 2
        } by {
            let k = edge_key(lo as u32, hi as u32);
            let occ = edge_occurrences(s, n, lo, hi);
            let d0: nat = if edge_is(i0 as int, i1 as int, lo, hi) { 1 } else { 0 };
            let d1: nat = if edge_is(i1 as int, i2 as int, lo, hi) { 1 } else { 0 };
            let d2: nat = if edge_is(i2 as int, i0 as int, lo, hi) { 1 } else { 0 };
            lemma_pair_edge_step(st0, i0, i1, i2, lo, hi);
            lemma_pair_edge_step(st1, i1, i2, i0, lo, hi);
            lemma_pair_edge_step(st2, i2, i0, i1, lo, hi);
            lemma_parity_step(
                occ,
                d0,
                st0.0.contains_key(k),
                stencil_count(st0.1, lo, hi),
                st1.0.contains_key(k),
                stencil_count(st1.1, lo, hi),
            );
            lemma_parity_step(
                occ + d0,
                d1,
                st1.0.contains_key(k),
                stencil_count(st1.1, lo, hi),
                st2.0.contains_key(k),
                stencil_count(st2.1, lo, hi),
            );
            lemma_parity_step(
                occ + d0 + d1,
                d2,
                st2.0.contains_key(k),
                stencil_count(st2.1, lo, hi),
                st3.0.contains_key(k),
                stencil_count(st3.1, lo, hi),
            );
            assert(edge_occurrences(s, t, lo, hi) == occ + d0 + d1 + d2);
        }
    }
}

/// An edge that occurs `n` times among the edges of the whole triangles of the list yields
/// `n / 2` stencils: each second meeting pairs with the one before it. So where every
/// edge lies in at most two triangles, there is one stencil per edge shared by two
/// triangles and none for an edge on the boundary.
pub proof fn lemma_stencils_count_shared_edges(s: Seq<u32>)
    ensures
        forall|lo: int, hi: int|
            0 <= lo <= hi <= u32::MAX ==> #[trigger] stencil_count(shared_edge_stencils(s), lo, hi)
                == edge_occurrences(s, s.len() / 3, lo, hi) / 2,
{
    assert(3 * (s.len() / 3) <= s.len()) by (nonlinear_arith);
    lemma_pairing_counts(s, s.len() / 3);
    assert forall|lo: int, hi: int| 0 <= lo <= hi <= u32::MAX implies #[trigger] stencil_count(
        shared_edge_stencils(s),
        lo,
        hi,
    ) == edge_occurrences(s, s.len() / 3, lo, hi) / 2 by {
        assert(edge_occurrences(s, s.len() / 3, lo, hi) == edge_occurrences(s, s.len() / 3, lo, hi));
    }
}


/// The stencil joins two different triangles among the first `n` of `s` across an edge
/// they share: its edge is `a`–`b` with `a <= b`, `c` faces it in a triangle `t1` and `d`
/// faces it in a strictly later triangle `t2`.
pub open spec fn stencil_joins(s: Seq<u32>, b: BendStencil, n: int) -> bool {
    &&& b.a <= b.b
    &&& exists|t1: int, t2: int|
        #![trigger faces(s, t1, b.a as int, b.b as int, b.c as int), faces(s, t2, b.a as int, b.b as int, b.d as int)]
        0 <= t1 < t2 < n && faces(s, t1, b.a as int, b.b as int, b.c as int) && faces(
            s,
            t2,
            b.a as int,
            b.b as int,
            b.d as int,
        )
}

/// The three corners of every whole triangle of `s` are three different particles.
pub open spec fn triangles_proper(s: Seq<u32>) -> bool {
    forall|t: int|
        0 <= t && 3 * t + 2 < s.len() ==> {
            &&& #[trigger] s[3 * t] != s[3 * t + 1]
            &&& s[3 * t + 1] != s[3 * t + 2]
            &&& s[3 * t + 2] != s[3 * t]
        }
}

/// Every waiting edge was met in one of the first `n` triangles, or in triangle `n` itself
/// when its key is among `fresh`, facing the stored vertex.
spec fn open_strict(s: Seq<u32>, m: Map<u64, usize>, n: int, fresh: Set<u64>) -> bool {
    forall|k: u64|
        #[trigger] m.contains_key(k) ==> exists|t: int, lo: int, hi: int|
            #![trigger faces(s, t, lo, hi, m[k] as int)]
            (0 <= t < n || (t == n && fresh.contains(k))) && 0 <= lo <= hi <= u32::MAX && k as int
                == key_of(lo, hi) && faces(s, t, lo, hi, m[k] as int)
}

spec fn stencils_join(s: Seq<u32>, out: Seq<BendStencil>, n: int) -> bool {
    forall|j: int| 0 <= j < out.len() ==> stencil_joins(s, #[trigger] out[j], n)
}

spec fn sorted_key(a: u32, b: u32) -> u64 {
    if a < b {
        edge_key(a, b)
    } else {
        edge_key(b, a)
    }
}

proof fn lemma_sorted_key_value(a: u32, b: u32)
    ensures
        sorted_key(a, b) as int == key_of(
            (if a < b { a } else { b }) as int,
            (if a < b { b } else { a }) as int,
        ),
{
    let lo = if a < b { a } else { b };
    let hi = if a < b { b } else { a };
    assert(lo as int * 0x1_0000_0000 + hi as int <= u64::MAX) by (nonlinear_arith)
        requires
            lo <= u32::MAX,
            hi <= u32::MAX,
    ;
}

proof fn lemma_pair_edge_strict(
    s: Seq<u32>,
    st: Pairing,
    n: int,
    a: u32,
    b: u32,
    o: u32,
    fresh: Set<u64>,
)
    requires
        0 <= n,
        3 * n + 2 < s.len(),
        open_strict(s, st.0, n, fresh),
        stencils_join(s, st.1, n + 1),
        faces(
            s,
            n,
            (if a < b { a } else { b }) as int,
            (if a < b { b } else { a }) as int,
            o as int,
        ),
        !fresh.contains(sorted_key(a, b)),
    ensures
        open_strict(s, pair_edge(st, a, b, o).0, n, fresh.insert(sorted_key(a, b))),
        stencils_join(s, pair_edge(st, a, b, o).1, n + 1),
{
    let lo = if a < b { a } else { b };
    let hi = if a < b { b } else { a };
    let k = edge_key(lo, hi);
    lemma_sorted_key_value(a, b);
    assert(k == sorted_key(a, b));
    let fresh2 = fresh.insert(k);
    let nst = pair_edge(st, a, b, o);
    if st.0.contains_key(k) {
        let (t1, lo1, hi1) = choose|t: int, lo1: int, hi1: int|
            #![trigger faces(s, t, lo1, hi1, st.0[k] as int)]
            (0 <= t < n || (t == n && fresh.contains(k))) && 0 <= lo1 <= hi1 <= u32::MAX && k as int
                == key_of(lo1, hi1) && faces(s, t, lo1, hi1, st.0[k] as int);
        lemma_key_of_injective(lo1, hi1, lo as int, hi as int);
        let sb = BendStencil { a: lo as usize, b: hi as usize, c: st.0[k], d: o as usize };
        assert(faces(s, t1, sb.a as int, sb.b as int, sb.c as int));
        assert(faces(s, n, sb.a as int, sb.b as int, sb.d as int));
        assert(stencil_joins(s, sb, n + 1));
        assert(nst.1 == st.1.push(sb));
        assert forall|j: int| 0 <= j < nst.1.len() implies stencil_joins(s, #[trigger] nst.1[j], n + 1) by {
            if j < st.1.len() {
                assert(nst.1[j] == st.1[j]);
            } else {
                assert(nst.1[j] == sb);
            }
        }
        assert forall|k2: u64| #[trigger] nst.0.contains_key(k2) implies exists|t: int, lo2: int, hi2: int|
            #![trigger faces(s, t, lo2, hi2, nst.0[k2] as int)]
            (0 <= t < n || (t == n && fresh2.contains(k2))) && 0 <= lo2 <= hi2 <= u32::MAX && k2 as int
                == key_of(lo2, hi2) && faces(s, t, lo2, hi2, nst.0[k2] as int) by {
            assert(st.0.contains_key(k2));
            assert(nst.0[k2] == st.0[k2]);
            let (t, lo2, hi2) = choose|t: int, lo2: int, hi2: int|
                #![trigger faces(s, t, lo2, hi2, st.0[k2] as int)]
                (0 <= t < n || (t == n && fresh.contains(k2))) && 0 <= lo2 <= hi2 <= u32::MAX && k2 as int
                    == key_of(lo2, hi2) && faces(s, t, lo2, hi2, st.0[k2] as int);
            assert(faces(s, t, lo2, hi2, nst.0[k2] as int));
        }
    } else {
        assert(nst.0 == st.0.insert(k, o as usize));
        assert(nst.1 == st.1);
        assert forall|k2: u64| #[trigger] nst.0.contains_key(k2) implies exists|t: int, lo2: int, hi2: int|
            #![trigger faces(s, t, lo2, hi2, nst.0[k2] as int)]
            (0 <= t < n || (t == n && fresh2.contains(k2))) && 0 <= lo2 <= hi2 <= u32::MAX && k2 as int
                == key_of(lo2, hi2) && faces(s, t, lo2, hi2, nst.0[k2] as int) by {
            if k2 == k {
                assert(nst.0[k2] == o as usize);
                assert(faces(s, n, lo as int, hi as int, nst.0[k2] as int));
            } else {
                assert(st.0.contains_key(k2));
                assert(nst.0[k2] == st.0[k2]);
                let (t, lo2, hi2) = choose|t: int, lo2: int, hi2: int|
                    #![trigger faces(s, t, lo2, hi2, st.0[k2] as int)]
                    (0 <= t < n || (t == n && fresh.contains(k2))) && 0 <= lo2 <= hi2 <= u32::MAX && k2
                        as int == key_of(lo2, hi2) && faces(s, t, lo2, hi2, st.0[k2] as int);
                assert(faces(s, t, lo2, hi2, nst.0[k2] as int));
            }
        }
    }
}

proof fn lemma_open_strict_promote(s: Seq<u32>, m: Map<u64, usize>, n: int, fresh: Set<u64>)
    requires
        0 <= n,
        open_strict(s, m, n, fresh),
    ensures
        open_strict(s, m, n + 1, Set::empty()),
{
    assert forall|k: u64| #[trigger] m.contains_key(k) implies exists|t: int, lo: int, hi: int|
        #![trigger faces(s, t, lo, hi, m[k] as int)]
        (0 <= t < n + 1 || (t == n + 1 && Set::<u64>::empty().contains(k))) && 0 <= lo <= hi
            <= u32::MAX && k as int == key_of(lo, hi) && faces(s, t, lo, hi, m[k] as int) by {
        let (t, lo, hi) = choose|t: int, lo: int, hi: int|
            #![trigger faces(s, t, lo, hi, m[k] as int)]
            (0 <= t < n || (t == n && fresh.contains(k))) && 0 <= lo <= hi <= u32::MAX && k as int
                == key_of(lo, hi) && faces(s, t, lo, hi, m[k] as int);
        assert(faces(s, t, lo, hi, m[k] as int));
    }
}

proof fn lemma_stencils_join_widen(s: Seq<u32>, out: Seq<BendStencil>, n: int)
    requires
        stencils_join(s, out, n),
    ensures
        stencils_join(s, out, n + 1),
{
    assert forall|j: int| 0 <= j < out.len() implies stencil_joins(s, #[trigger] out[j], n + 1) by {
        let b = out[j];
        assert(stencil_joins(s, b, n));
        let (t1, t2) = choose|t1: int, t2: int|
            #![trigger faces(s, t1, b.a as int, b.b as int, b.c as int), faces(s, t2, b.a as int, b.b as int, b.d as int)]
            0 <= t1 < t2 < n && faces(s, t1, b.a as int, b.b as int, b.c as int) && faces(
                s,
                t2,
                b.a as int,
                b.b as int,
                b.d as int,
            );
        assert(faces(s, t1, b.a as int, b.b as int, b.c as int));
        assert(faces(s, t2, b.a as int, b.b as int, b.d as int));
    }
}

proof fn lemma_sorted_keys_differ(a: u32, b: u32, c: u32)
    requires
        a != c,
    ensures
        sorted_key(a, b) != sorted_key(b, c),
{
    lemma_sorted_key_value(a, b);
    lemma_sorted_key_value(b, c);
    if sorted_key(a, b) == sorted_key(b, c) {
        lemma_key_of_injective(
            (if a < b { a } else { b }) as int,
            (if a < b { b } else { a }) as int,
            (if b < c { b } else { c }) as int,
            (if b < c { c } else { b }) as int,
        );
    }
}

proof fn lemma_pairing_strict(s: Seq<u32>, t: nat)
    requires
        3 * t <= s.len(),
        triangles_proper(s),
    ensures
        open_strict(s, pairing_after(s, t).0, t as int, Set::empty()),
        stencils_join(s, pairing_after(s, t).1, t as int),
    decreases t,
{
    if t > 0 {
        let n = t - 1;
        lemma_pairing_strict(s, n as nat);
        let st0 = pairing_after(s, n as nat);
        lemma_stencils_join_widen(s, st0.1, n);
        let i0 = s[3 * n];
        let i1 = s[3 * n + 1];
        let i2 = s[3 * n + 2];
        assert(s[3 * t - 3] == i0 && s[3 * t - 2] == i1 && s[3 * t - 1] == i2);
        assert(i0 != i1 && i1 != i2 && i2 != i0);
        let k0 = sorted_key(i0, i1);
        let k1 = sorted_key(i1, i2);
        let k2 = sorted_key(i2, i0);
        lemma_sorted_keys_differ(i0, i1, i2);
        lemma_sorted_keys_differ(i1, i2, i0);
        lemma_sorted_keys_differ(i2, i0, i1);
        let f0 = Set::<u64>::empty();
        lemma_pair_edge_strict(s, st0, n, i0, i1, i2, f0);
        let st1 = pair_edge(st0, i0, i1, i2);
        let f1 = f0.insert(k0);
        lemma_pair_edge_strict(s, st1, n, i1, i2, i0, f1);
        let st2 = pair_edge(st1, i1, i2, i0);
        let f2 = f1.insert(k1);
        lemma_pair_edge_strict(s, st2, n, i2, i0, i1, f2);
        let st3 = pair_edge(st2, i2, i0, i1);
        lemma_open_strict_promote(s, st3.0, n, f2.insert(k2));
    }
}

/// In a triangle list whose triangles each have three different corners, every stencil
/// joins two different triangles across the edge they share: `c` faces the edge `a`–`b`
/// in one triangle and `d` faces it in a strictly later one.
pub proof fn lemma_stencils_join_distinct_triangles(s: Seq<u32>)
    requires
        triangles_proper(s),
    ensures
        forall|j: int|
            0 <= j < shared_edge_stencils(s).len() ==> stencil_joins(
                s,
                #[trigger] shared_edge_stencils(s)[j],
                (s.len() / 3) as int,
            ),
{
    assert(3 * (s.len() / 3) <= s.len()) by (nonlinear_arith);
    lemma_pairing_strict(s, s.len() / 3);
}

} // verus!
