use vstd::prelude::*;

verus! {

/// A rectangle of a slice mask, `w` cells wide from column `u` and `h` rows high
/// from row `v`, whose cells all show texture `tex`.
#[derive(Clone, Copy, Debug, PartialEq, Eq, Structural)]
pub struct Rect {
    pub u: usize,
    pub v: usize,
    pub w: usize,
    pub h: usize,
    pub tex: u8,
}

/// Flat index of cell `(v, u)` in a mask `us` cells wide (row-major).
pub open spec fn cell(us: int, v: int, u: int) -> int {
    v * us + u
}

/// The mask entry of cell `(v, u)`.
pub open spec fn mask_at(mask: Seq<Option<u8>>, us: int, v: int, u: int) -> Option<u8> {
    mask[cell(us, v, u)]
}

/// Whether cell `(v, u)` lies in the rectangle.
pub open spec fn in_rect(r: Rect, v: int, u: int) -> bool {
    r.v <= v < r.v + r.h && r.u <= u < r.u + r.w
}

/// Whether cell `(v, u)` lies in one of the rectangles.
pub open spec fn covered_by(rs: Seq<Rect>, v: int, u: int) -> bool {
    exists|j: int| 0 <= j < rs.len() && in_rect(#[trigger] rs[j], v, u)
}

/// Whether cell `(v, u)` shows `tex` and is not covered by the rectangles.
pub open spec fn free_cell(mask: Seq<Option<u8>>, us: int, rs: Seq<Rect>, v: int, u: int, tex: u8) -> bool {
    mask_at(mask, us, v, u) == Some(tex) && !covered_by(rs, v, u)
}

/// Whether cell `(v, u)` shows a texture and is not covered by the rectangles.
pub open spec fn pending_cell(mask: Seq<Option<u8>>, us: int, rs: Seq<Rect>, v: int, u: int) -> bool {
    mask_at(mask, us, v, u) is Some && !covered_by(rs, v, u)
}

/// Whether `(v1, u1)` comes before `(v2, u2)` in row-major order.
pub open spec fn before(v1: int, u1: int, v2: int, u2: int) -> bool {
    v1 < v2 || (v1 == v2 && u1 < u2)
}

/// Whether `r` is the rectangle the greedy merge takes after the rectangles
/// `prior`: it starts at the first cell (row-major) that shows a texture and is
/// not yet covered, it is as wide as that texture runs along the row over cells
/// not yet covered, and then as high as whole rows of that width continue it.
pub open spec fn greedy_step(mask: Seq<Option<u8>>, us: int, vs: int, prior: Seq<Rect>, r: Rect) -> bool {
    &&& 1 <= r.w && r.u + r.w <= us
    &&& 1 <= r.h && r.v + r.h <= vs
    &&& forall|v: int, u: int| #[trigger] in_rect(r, v, u) ==> free_cell(mask, us, prior, v, u, r.tex)
    &&& forall|v: int, u: int|
        0 <= v < vs && 0 <= u < us && #[trigger] before(v, u, r.v as int, r.u as int) ==> !pending_cell(mask, us, prior, v, u)
    &&& r.u + r.w == us || !free_cell(mask, us, prior, r.v as int, r.u + r.w, r.tex)
    &&& r.v + r.h == vs || row_blocked(mask, us, prior, r.v + r.h, r)
}

/// Whether some cell of row `row` under the columns of `r` is not free for `r`'s
/// texture.
pub open spec fn row_blocked(mask: Seq<Option<u8>>, us: int, prior: Seq<Rect>, row: int, r: Rect) -> bool {
    exists|c: int| r.u <= c < r.u + r.w && !#[trigger] free_cell(mask, us, prior, row, c, r.tex)
}

/// The rectangles of the greedy merge of a `us` by `vs` mask: each is the next
/// greedy step after those before it, and together they cover every cell that
/// shows a texture.
pub open spec fn greedy_spec(mask: Seq<Option<u8>>, us: int, vs: int, rs: Seq<Rect>) -> bool {
    &&& forall|i: int| 0 <= i < rs.len() ==> greedy_step(mask, us, vs, rs.subrange(0, i), #[trigger] rs[i])
    &&& forall|v: int, u: int| 0 <= v < vs && 0 <= u < us && (mask_at(mask, us, v, u) is Some) ==> covered_by(rs, v, u)
}

/// The greedy rectangles partition the cells that show a texture: each lies
/// within the mask and shows its texture on every cell, no two share a cell,
/// and every cell showing a texture lies in one of them.
pub proof fn lemma_greedy_partition(mask: Seq<Option<u8>>, us: int, vs: int, rs: Seq<Rect>)
    requires
        greedy_spec(mask, us, vs, rs),
    ensures
        forall|i: int, v: int, u: int|
            0 <= i < rs.len() && #[trigger] in_rect(rs[i], v, u) ==> 0 <= v < vs && 0 <= u < us && mask_at(mask, us, v, u) == Some(rs[i].tex),
        forall|i: int, j: int, v: int, u: int|
            0 <= i < j < rs.len() ==> !(#[trigger] in_rect(rs[i], v, u) && #[trigger] in_rect(rs[j], v, u)),
        forall|v: int, u: int| 0 <= v < vs && 0 <= u < us && (mask_at(mask, us, v, u) is Some) ==> covered_by(rs, v, u),
{
    assert forall|i: int, v: int, u: int|
        0 <= i < rs.len() && #[trigger] in_rect(rs[i], v, u) implies 0 <= v < vs && 0 <= u < us && mask_at(mask, us, v, u) == Some(rs[i].tex) by {
        assert(greedy_step(mask, us, vs, rs.subrange(0, i), rs[i]));
    }
    assert forall|i: int, j: int, v: int, u: int|
        0 <= i < j < rs.len() implies !(#[trigger] in_rect(rs[i], v, u) && #[trigger] in_rect(rs[j], v, u)) by {
        assert(greedy_step(mask, us, vs, rs.subrange(0, j), rs[j]));
        if in_rect(rs[i], v, u) && in_rect(rs[j], v, u) {
            assert(rs.subrange(0, j)[i] == rs[i]);
            assert(covered_by(rs.subrange(0, j), v, u));
            assert(free_cell(mask, us, rs.subrange(0, j), v, u, rs[j].tex));
        }
    }
}

proof fn lemma_cell_bounds(us: int, vs: int, v: int, u: int)
    requires
        0 <= v < vs,
        0 <= u < us,
        us <= 256,
        vs <= 256,
    ensures
        0 <= v * us <= cell(us, v, u) < us * vs <= 65536,
{
    assert(0 <= v * us <= v * us + u < us * vs <= 65536) by (nonlinear_arith)
        requires
            0 <= v < vs,
            0 <= u < us,
            us <= 256,
            vs <= 256,
    ;
}

proof fn lemma_cell_injective(us: int, v1: int, u1: int, v2: int, u2: int)
    requires
        0 <= u1 < us,
        0 <= u2 < us,
        cell(us, v1, u1) == cell(us, v2, u2),
    ensures
        v1 == v2 && u1 == u2,
{
    assert(v1 == v2) by (nonlinear_arith)
        requires
            0 <= u1 < us,
            0 <= u2 < us,
            v1 * us + u1 == v2 * us + u2,
    ;
}

proof fn lemma_covered_push(rs: Seq<Rect>, r: Rect, v: int, u: int)
    ensures
        covered_by(rs.push(r), v, u) == (covered_by(rs, v, u) || in_rect(r, v, u)),
{
    if covered_by(rs.push(r), v, u) {
        let j = choose|j: int| 0 <= j < rs.len() + 1 && in_rect(#[trigger] rs.push(r)[j], v, u);
        if j < rs.len() {
            assert(rs[j] == rs.push(r)[j]);
        }
    }
    if covered_by(rs, v, u) {
        let j = choose|j: int| 0 <= j < rs.len() && in_rect(#[trigger] rs[j], v, u);
        assert(rs[j] == rs.push(r)[j]);
    }
    if in_rect(r, v, u) {
        assert(rs.push(r)[rs.len() as int] == r);
    }
}

/// Whether cell `(v, u)` shows `tex`.
fn cell_is(mask: &Vec<Option<u8>>, us: usize, vs: usize, v: usize, u: usize, tex: u8) -> (r: bool)
    requires
        mask@.len() == us * vs,
        us <= 256,
        vs <= 256,
        v < vs,
        u < us,
    ensures
        r == (mask_at(mask@, us as int, v as int, u as int) == Some(tex)),
{
    proof {
        lemma_cell_bounds(us as int, vs as int, v as int, u as int);
    }
    match mask[v * us + u] {
        Some(t) => t == tex,
        None => false,
    }
}

/// Whether cells `u .. u + w` of row `row` all show `tex`.
fn row_matches(mask: &Vec<Option<u8>>, us: usize, vs: usize, row: usize, u: usize, w: usize, tex: u8) -> (r: bool)
    requires
        mask@.len() == us * vs,
        us <= 256,
        vs <= 256,
        row < vs,
        u + w <= us,
    ensures
        r == forall|c: int| u <= c < u + w ==> #[trigger] mask_at(mask@, us as int, row as int, c) == Some(tex),
{
    let mut k: usize = 0;
    while k < w
        invariant
            mask@.len() == us * vs,
            us <= 256,
            vs <= 256,
            row < vs,
            u + w <= us,
            k <= w,
            forall|c: int| u <= c < u + k ==> #[trigger] mask_at(mask@, us as int, row as int, c) == Some(tex),
        decreases w - k,
    {
        proof {
            lemma_cell_bounds(us as int, vs as int, row as int, u + k);
        }
        let ok = match mask[row * us + u + k] {
            Some(t) => t == tex,
            None => false,
        };
        if !ok {
            assert(mask_at(mask@, us as int, row as int, (u + k) as int) != Some(tex));
            return false;
        }
        k = k + 1;
    }
    true
}

/// Clears the cells of a rectangle.
fn clear_rect(mask: &mut Vec<Option<u8>>, us: usize, vs: usize, r: Rect)
    requires
        old(mask)@.len() == us * vs,
        us <= 256,
        vs <= 256,
        r.u + r.w <= us,
        r.v + r.h <= vs,
    ensures
        final(mask)@.len() == us * vs,
        forall|v: int, u: int|
            0 <= v < vs && 0 <= u < us ==> #[trigger] mask_at(final(mask)@, us as int, v, u) == if in_rect(r, v, u) {
                None
            } else {
                mask_at(old(mask)@, us as int, v, u)
            },
{
    let mut i: usize = 0;
    while i < r.h
        invariant
            mask@.len() == us * vs,
            us <= 256,
            vs <= 256,
            r.u + r.w <= us,
            r.v + r.h <= vs,
            i <= r.h,
            forall|v: int, u: int|
                0 <= v < vs && 0 <= u < us ==> #[trigger] mask_at(mask@, us as int, v, u) == if in_rect(r, v, u) && v < r.v + i {
                    None
                } else {
                    mask_at(old(mask)@, us as int, v, u)
                },
        decreases r.h - i,
    {
        let mut j: usize = 0;
        while j < r.w
            invariant
                mask@.len() == us * vs,
                us <= 256,
                vs <= 256,
                r.u + r.w <= us,
                r.v + r.h <= vs,
                i < r.h,
                j <= r.w,
                forall|v: int, u: int|
                    0 <= v < vs && 0 <= u < us ==> #[trigger] mask_at(mask@, us as int, v, u) == if in_rect(r, v, u) && (v < r.v + i || (v == r.v + i && u < r.u + j)) {
                        None
                    } else {
                        mask_at(old(mask)@, us as int, v, u)
                    },
            decreases r.w - j,
        {
            let row = r.v + i;
            let col = r.u + j;
            proof {
                lemma_cell_bounds(us as int, vs as int, row as int, col as int);
            }
            let ghost before_set = mask@;
            mask.set(row * us + col, None);
            proof {
                assert forall|v: int, u: int| 0 <= v < vs && 0 <= u < us implies #[trigger] mask_at(mask@, us as int, v, u) == if in_rect(r, v, u) && (v < r.v + i || (v == r.v + i && u < r.u + j + 1)) {
                    None
                } else {
                    mask_at(old(mask)@, us as int, v, u)
                } by {
                    lemma_cell_bounds(us as int, vs as int, v, u);
                    assert(mask_at(before_set, us as int, v, u) == if in_rect(r, v, u) && (v < r.v + i || (v == r.v + i && u < r.u + j)) {
                        None
                    } else {
                        mask_at(old(mask)@, us as int, v, u)
                    });
                    if cell(us as int, v, u) == cell(us as int, row as int, col as int) {
                        lemma_cell_injective(us as int, v, u, row as int, col as int);
                    }
                }
            }
            j = j + 1;
        }
        i = i + 1;
    }
}

/// Merges the cells of a `us` by `vs` mask (row-major) into rectangles of one
/// texture each, greedily: scanning cells in row-major order, each cell that
/// still shows a texture starts a rectangle as wide as the texture runs along
/// the row, then as high as whole rows of that width continue it.
pub fn greedy_rects(mask: Vec<Option<u8>>, us: usize, vs: usize) -> (rs: Vec<Rect>)
    requires
        mask@.len() == us * vs,
        us <= 256,
        vs <= 256,
    ensures
        greedy_spec(mask@, us as int, vs as int, rs@),
        rs@.len() <= us * vs,
{
    let ghost m = mask@;
    let mut cur = mask;
    let mut rs: Vec<Rect> = Vec::new();
    let mut v: usize = 0;
    while v < vs
        invariant
            m.len() == us * vs,
            us <= 256,
            vs <= 256,
            cur@.len() == us * vs,
            v <= vs,
            forall|vv: int, uu: int|
                0 <= vv < vs && 0 <= uu < us ==> #[trigger] mask_at(cur@, us as int, vv, uu) == if covered_by(rs@, vv, uu) {
                    None
                } else {
                    mask_at(m, us as int, vv, uu)
                },
            forall|i: int| 0 <= i < rs@.len() ==> greedy_step(m, us as int, vs as int, rs@.subrange(0, i), #[trigger] rs@[i]),
            forall|vv: int, uu: int|
                0 <= vv < v && 0 <= uu < us ==> #[trigger] mask_at(cur@, us as int, vv, uu) is None,
            rs@.len() <= v * us,
        decreases vs - v,
    {
        let mut u: usize = 0;
        while u < us
            invariant
                m.len() == us * vs,
                us <= 256,
                vs <= 256,
                cur@.len() == us * vs,
                v < vs,
                u <= us,
                forall|vv: int, uu: int|
                    0 <= vv < vs && 0 <= uu < us ==> #[trigger] mask_at(cur@, us as int, vv, uu) == if covered_by(rs@, vv, uu) {
                        None
                    } else {
                        mask_at(m, us as int, vv, uu)
                    },
                forall|i: int| 0 <= i < rs@.len() ==> greedy_step(m, us as int, vs as int, rs@.subrange(0, i), #[trigger] rs@[i]),
                forall|vv: int, uu: int|
                    0 <= vv < vs && 0 <= uu < us && before(vv, uu, v as int, u as int) ==> #[trigger] mask_at(cur@, us as int, vv, uu) is None,
                rs@.len() <= v * us + u,
            decreases us - u,
        {
            proof {
                lemma_cell_bounds(us as int, vs as int, v as int, u as int);
            }
            if let Some(tex) = cur[v * us + u] {
                // Find width.
                let mut w: usize = 1;
                while u + w < us && cell_is(&cur, us, vs, v, u + w, tex)
                    invariant
                        cur@.len() == us * vs,
                        us <= 256,
                        vs <= 256,
                        v < vs,
                        u < us,
                        1 <= w,
                        u + w <= us,
                        forall|c: int| u <= c < u + w ==> #[trigger] mask_at(cur@, us as int, v as int, c) == Some(tex),
                    decreases us - w,
                {
                    w = w + 1;
                }
                // Find height.
                let mut h: usize = 1;
                while v + h < vs && row_matches(&cur, us, vs, v + h, u, w, tex)
                    invariant
                        cur@.len() == us * vs,
                        us <= 256,
                        vs <= 256,
                        v < vs,
                        1 <= h,
                        v + h <= vs,
                        u + w <= us,
                        forall|row: int, c: int| v <= row < v + h && u <= c < u + w ==> #[trigger] mask_at(cur@, us as int, row, c) == Some(tex),
                    decreases vs - h,
                {
                    h = h + 1;
                }
                let r = Rect { u, v, w, h, tex };
                let ghost prev = cur@;
                let ghost prev_rs = rs@;
                // Clear the mask.
                clear_rect(&mut cur, us, vs, r);
                rs.push(r);
                proof {
                    let n = prev_rs.len() as int;
                    assert(rs@[n] == r);
                    assert(rs@ == prev_rs.push(r));
                    assert forall|vv: int, uu: int| 0 <= vv < vs && 0 <= uu < us implies #[trigger] mask_at(cur@, us as int, vv, uu) == if covered_by(rs@, vv, uu) {
                        None
                    } else {
                        mask_at(m, us as int, vv, uu)
                    } by {
                        lemma_covered_push(prev_rs, r, vv, uu);
                        assert(mask_at(prev, us as int, vv, uu) == if covered_by(prev_rs, vv, uu) {
                            None
                        } else {
                            mask_at(m, us as int, vv, uu)
                        });
                    }
                    assert forall|i: int| 0 <= i < rs@.len() implies greedy_step(m, us as int, vs as int, rs@.subrange(0, i), #[trigger] rs@[i]) by {
                        if i < n {
                            assert(rs@.subrange(0, i) =~= prev_rs.subrange(0, i));
                            assert(rs@[i] == prev_rs[i]);
                        } else {
                            assert(rs@.subrange(0, i) =~= prev_rs);
                            assert forall|vv: int, uu: int| #[trigger] in_rect(r, vv, uu) implies free_cell(m, us as int, prev_rs, vv, uu, r.tex) by {
                                assert(mask_at(prev, us as int, vv, uu) == Some(tex));
                            }
                            assert forall|vv: int, uu: int|
                                0 <= vv < vs && 0 <= uu < us && #[trigger] before(vv, uu, r.v as int, r.u as int) implies !pending_cell(m, us as int, prev_rs, vv, uu) by {
                                assert(mask_at(prev, us as int, vv, uu) is None);
                            }
                            if r.u + r.w < us {
                                assert(!free_cell(m, us as int, prev_rs, r.v as int, r.u + r.w, r.tex)) by {
                                    assert(mask_at(prev, us as int, v as int, u + w) != Some(tex));
                                }
                            }
                            if r.v + r.h < vs {
                                assert(row_blocked(m, us as int, prev_rs, r.v + r.h, r)) by {
                                    let c = choose|c: int| u <= c < u + w && #[trigger] mask_at(prev, us as int, (v + h) as int, c) != Some(tex);
                                    assert(!free_cell(m, us as int, prev_rs, r.v + r.h, c, r.tex));
                                }
                            }
                        }
                    }
                }
            }
            u = u + 1;
        }
        assert((v + 1) * us == v * us + us) by (nonlinear_arith);
        v = v + 1;
    }
    proof {
        assert(vs * us == us * vs) by (nonlinear_arith);
        assert forall|vv: int, uu: int| 0 <= vv < vs && 0 <= uu < us && (mask_at(m, us as int, vv, uu) is Some) implies covered_by(rs@, vv, uu) by {
            assert(mask_at(cur@, us as int, vv, uu) is None);
        }
    }
    rs
}

} // verus!
