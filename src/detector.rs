//! Text detection post-processing: binarisation of the probability map,
//! 4-connected components, box extents and scores, unclipping, rescaling
//! and clipping to the image.
use vstd::prelude::*;
use crate::result::MAX_COORD;

verus! {

/// Components with fewer pixels are noise.
pub const MIN_COMPONENT: usize = 10;

/// Largest side of a probability map or image, in pixels.
pub const MAX_SIDE: usize = 100_000;

/// Detection settings, all in thousandths.
pub struct TextDetector {
    /// A pixel is text where its probability exceeds this.
    pub threshold: u32,
    /// A component whose mean probability is below this is dropped.
    pub box_threshold: u32,
    /// Expansion factor of the boxes (1000 keeps them as found).
    pub unclip_ratio: u32,
}

/// Detected quadrilaterals (corners top-left, top-right, bottom-right,
/// bottom-left, in thousandths of a pixel of the original image) with their
/// scores in thousandths.
pub struct DetectionResult {
    pub boxes: Vec<[i64; 8]>,
    pub scores: Vec<u32>,
    pub image_size: (u32, u32),
}

/// Per-pixel text probability in thousandths, row-major.
pub struct ProbabilityMap {
    pub width: usize,
    pub height: usize,
    pub values: Vec<u32>,
}

impl ProbabilityMap {
    pub open spec fn wf(&self) -> bool {
        &&& 0 < self.width <= MAX_SIDE
        &&& 0 < self.height <= MAX_SIDE
        &&& self.values.len() == self.width * self.height
    }
}

/// Pixel bounding box `(min_x, min_y, max_x, max_y)` of a component.
pub struct Extent {
    pub min_x: usize,
    pub min_y: usize,
    pub max_x: usize,
    pub max_y: usize,
}

pub open spec fn count_false(s: Seq<bool>) -> nat
    decreases s.len(),
{
    if s.len() == 0 {
        0
    } else {
        count_false(s.drop_last()) + if s.last() {
            0nat
        } else {
            1nat
        }
    }
}

proof fn lemma_count_false_update(s: Seq<bool>, i: int)
    requires
        0 <= i < s.len(),
        !s[i],
    ensures
        count_false(s) >= 1,
        count_false(s.update(i, true)) == count_false(s) - 1,
    decreases s.len(),
{
    if i < s.len() - 1 {
        lemma_count_false_update(s.drop_last(), i);
        assert(s.update(i, true).drop_last() =~= s.drop_last().update(i, true));
    } else {
        assert(s.update(i, true).drop_last() =~= s.drop_last());
    }
}

proof fn lemma_count_false_bound(s: Seq<bool>)
    ensures
        count_false(s) <= s.len(),
    decreases s.len(),
{
    if s.len() > 0 {
        lemma_count_false_bound(s.drop_last());
    }
}

/// Every pixel of `c` is a set pixel of the mask.
pub open spec fn pixels_in_mask(c: Seq<(usize, usize)>, mask: Seq<bool>, w: nat, h: nat) -> bool {
    forall|k: int|
        0 <= k < c.len() ==> {
            let (x, y) = #[trigger] c[k];
            &&& x < w
            &&& y < h
            &&& mask[y * w + x]
        }
}

proof fn lemma_index_bound(x: nat, y: nat, w: nat, h: nat)
    requires
        x < w,
        y < h,
    ensures
        y * w + x < w * h,
{
    assert(y * w + x < w * h) by (nonlinear_arith)
        requires
            x < w,
            y < h,
    ;
}

/// Row-major index of pixel `p` in a grid `w` wide.
pub open spec fn pix_index(p: (usize, usize), w: nat) -> int {
    p.1 * w + p.0
}

/// `a` and `b` are 4-neighbours.
pub open spec fn adjacent(a: (usize, usize), b: (usize, usize)) -> bool {
    (a.0 == b.0 && (a.1 + 1 == b.1 || b.1 + 1 == a.1)) || (a.1 == b.1 && (a.0 + 1 == b.0 || b.0 + 1
        == a.0))
}

/// `p` is a 4-neighbour of some pixel of `c`.
pub open spec fn touches(c: Seq<(usize, usize)>, p: (usize, usize)) -> bool {
    exists|j: int| 0 <= j < c.len() && adjacent(c[j], p)
}

/// Every pixel after the first touches an earlier one, so the pixels form
/// one 4-connected set.
pub open spec fn connected_in_order(c: Seq<(usize, usize)>) -> bool {
    forall|k: int| 0 < k < c.len() ==> touches(c.subrange(0, k), #[trigger] c[k])
}

/// No pixel appears twice.
pub open spec fn distinct_pixels(c: Seq<(usize, usize)>) -> bool {
    forall|a: int, b: int| 0 <= a < b < c.len() ==> c[a] != c[b]
}

/// No pixel is in both.
pub open spec fn disjoint_pixels(c: Seq<(usize, usize)>, d: Seq<(usize, usize)>) -> bool {
    forall|a: int, b: int| 0 <= a < c.len() && 0 <= b < d.len() ==> c[a] != d[b]
}

/// Every pixel of `c` is marked in `v`.
pub open spec fn all_marked(c: Seq<(usize, usize)>, v: Seq<bool>, w: nat) -> bool {
    forall|k: int| 0 <= k < c.len() ==> v[pix_index(#[trigger] c[k], w)]
}

/// Every pending pixel is the seed or touches the pixels collected so far.
pub open spec fn pending_ok(stack: Seq<(usize, usize)>, c: Seq<(usize, usize)>, seed: (usize, usize)) -> bool {
    forall|i: int| 0 <= i < stack.len() ==> #[trigger] stack[i] == seed || touches(c, stack[i])
}

proof fn lemma_touches_push(c: Seq<(usize, usize)>, p: (usize, usize), q: (usize, usize))
    requires
        touches(c, q),
    ensures
        touches(c.push(p), q),
{
    let j = choose|j: int| 0 <= j < c.len() && adjacent(c[j], q);
    assert(c.push(p)[j] == c[j]);
}

proof fn lemma_connected_push(c: Seq<(usize, usize)>, p: (usize, usize))
    requires
        connected_in_order(c),
        c.len() == 0 || touches(c, p),
    ensures
        connected_in_order(c.push(p)),
{
    let d = c.push(p);
    assert forall|k: int| 0 < k < d.len() implies touches(d.subrange(0, k), #[trigger] d[k]) by {
        if k < c.len() {
            assert(d.subrange(0, k) =~= c.subrange(0, k));
            assert(d[k] == c[k]);
        } else {
            assert(d.subrange(0, k) =~= c);
        }
    }
}

proof fn lemma_pending_pop(stack: Seq<(usize, usize)>, c: Seq<(usize, usize)>, seed: (usize, usize))
    requires
        pending_ok(stack, c, seed),
        stack.len() > 0,
    ensures
        pending_ok(stack.drop_last(), c, seed),
        stack.last() == seed || touches(c, stack.last()),
{
    assert(stack[stack.len() - 1] == seed || touches(c, stack[stack.len() - 1]));
    assert forall|i: int| 0 <= i < stack.drop_last().len() implies #[trigger] stack.drop_last()[i] == seed || touches(
        c,
        stack.drop_last()[i],
    ) by {
        assert(stack.drop_last()[i] == stack[i]);
        assert(stack[i] == seed || touches(c, stack[i]));
    }
}

proof fn lemma_pending_grow(stack: Seq<(usize, usize)>, c: Seq<(usize, usize)>, seed: (usize, usize), p: (usize, usize))
    requires
        pending_ok(stack, c, seed),
    ensures
        pending_ok(stack, c.push(p), seed),
{
    assert forall|i: int| 0 <= i < stack.len() implies #[trigger] stack[i] == seed || touches(c.push(p), stack[i]) by {
        if stack[i] != seed {
            assert(touches(c, stack[i]));
            lemma_touches_push(c, p, stack[i]);
        }
    }
}

proof fn lemma_pending_push(stack: Seq<(usize, usize)>, c: Seq<(usize, usize)>, seed: (usize, usize), q: (usize, usize))
    requires
        pending_ok(stack, c, seed),
        c.len() > 0,
        adjacent(c.last(), q),
    ensures
        pending_ok(stack.push(q), c, seed),
{
    assert(touches(c, q)) by {
        assert(adjacent(c[c.len() - 1], q));
    }
    assert forall|i: int| 0 <= i < stack.push(q).len() implies #[trigger] stack.push(q)[i] == seed || touches(
        c,
        stack.push(q)[i],
    ) by {
        if i < stack.len() {
            assert(stack.push(q)[i] == stack[i]);
            assert(stack[i] == seed || touches(c, stack[i]));
        }
    }
}

pub open spec fn in_grid(q: (usize, usize), w: nat, h: nat) -> bool {
    q.0 < w && q.1 < h
}

/// Every set 4-neighbour of a pixel of `c` is in `c`.
pub open spec fn closed_in(c: Seq<(usize, usize)>, mask: Seq<bool>, w: nat, h: nat) -> bool {
    forall|k: int, q: (usize, usize)|
        0 <= k < c.len() && in_grid(q, w, h) && #[trigger] adjacent(c[k], q) && mask[pix_index(q, w)] ==> c.contains(q)
}

/// The set neighbours of the collected pixels are collected, pending, or
/// were marked before.
pub open spec fn frontier_ok(
    c: Seq<(usize, usize)>,
    stack: Seq<(usize, usize)>,
    old_vis: Seq<bool>,
    mask: Seq<bool>,
    w: nat,
    h: nat,
) -> bool {
    forall|k: int, q: (usize, usize)|
        0 <= k < c.len() && in_grid(q, w, h) && #[trigger] adjacent(c[k], q) && mask[pix_index(q, w)] ==> c.contains(q)
            || stack.contains(q) || old_vis[pix_index(q, w)]
}

/// The marks in `vis` that `old_vis` lacks are pixels of `c`.
pub open spec fn new_marks_in(c: Seq<(usize, usize)>, vis: Seq<bool>, old_vis: Seq<bool>, w: nat, n: nat) -> bool {
    forall|i: int|
        0 <= i < n && #[trigger] vis[i] && !old_vis[i] ==> exists|k: int| 0 <= k < c.len() && pix_index(c[k], w) == i
}

/// The seed is an unmarked set pixel of the grid.
pub open spec fn fresh_seed(s: (usize, usize), mask: Seq<bool>, vis: Seq<bool>, w: nat, h: nat) -> bool {
    in_grid(s, w, h) && mask[pix_index(s, w)] && !vis[pix_index(s, w)]
}

proof fn lemma_index_injective(p: (usize, usize), q: (usize, usize), w: nat, h: nat)
    requires
        in_grid(p, w, h),
        in_grid(q, w, h),
        pix_index(p, w) == pix_index(q, w),
    ensures
        p == q,
{
    let (x1, y1) = p;
    let (x2, y2) = q;
    if y1 < y2 {
        assert(y1 * w + x1 < y2 * w + x2) by (nonlinear_arith)
            requires
                y1 < y2,
                x1 < w,
        ;
    } else if y2 < y1 {
        assert(y2 * w + x2 < y1 * w + x1) by (nonlinear_arith)
            requires
                y2 < y1,
                x2 < w,
        ;
    }
}

proof fn lemma_skip_step(
    c: Seq<(usize, usize)>,
    before: Seq<(usize, usize)>,
    vis: Seq<bool>,
    old_vis: Seq<bool>,
    mask: Seq<bool>,
    w: nat,
    h: nat,
)
    requires
        before.len() > 0,
        frontier_ok(c, before, old_vis, mask, w, h),
        new_marks_in(c, vis, old_vis, w, w * h),
        forall|k: int| 0 <= k < c.len() ==> in_grid(#[trigger] c[k], w, h),
        ({
            let q = before.last();
            !in_grid(q, w, h) || vis[pix_index(q, w)] || !mask[pix_index(q, w)]
        }),
    ensures
        frontier_ok(c, before.drop_last(), old_vis, mask, w, h),
{
    let q = before.last();
    let rest = before.drop_last();
    assert forall|k: int, r: (usize, usize)|
        0 <= k < c.len() && in_grid(r, w, h) && #[trigger] adjacent(c[k], r) && mask[pix_index(r, w)] implies c.contains(
            r,
        ) || rest.contains(r) || old_vis[pix_index(r, w)] by {
        if before.contains(r) && !c.contains(r) && !old_vis[pix_index(r, w)] {
            let i = choose|i: int| 0 <= i < before.len() && before[i] == r;
            if i < rest.len() {
                assert(rest[i] == r);
            } else {
                assert(r == q);
                lemma_index_bound(r.0 as nat, r.1 as nat, w, h);
                assert(vis[pix_index(r, w)]);
                let k2 = choose|k2: int| 0 <= k2 < c.len() && pix_index(c[k2], w) == pix_index(r, w);
                lemma_index_injective(c[k2], r, w, h);
            }
        }
    }
}

proof fn lemma_add_step(
    c: Seq<(usize, usize)>,
    before: Seq<(usize, usize)>,
    after: Seq<(usize, usize)>,
    old_vis: Seq<bool>,
    mask: Seq<bool>,
    w: nat,
    h: nat,
)
    requires
        before.len() > 0,
        frontier_ok(c, before, old_vis, mask, w, h),
        forall|i: int| 0 <= i < before.len() - 1 ==> after.contains(#[trigger] before[i]),
        forall|r: (usize, usize)|
            in_grid(r, w, h) && #[trigger] adjacent(before.last(), r) ==> after.contains(r),
    ensures
        frontier_ok(c.push(before.last()), after, old_vis, mask, w, h),
{
    let q = before.last();
    let d = c.push(q);
    assert forall|k: int, r: (usize, usize)|
        0 <= k < d.len() && in_grid(r, w, h) && #[trigger] adjacent(d[k], r) && mask[pix_index(r, w)] implies d.contains(
            r,
        ) || after.contains(r) || old_vis[pix_index(r, w)] by {
        if k < c.len() {
            assert(d[k] == c[k]);
            if c.contains(r) {
                let j = choose|j: int| 0 <= j < c.len() && c[j] == r;
                assert(d[j] == r);
            } else if before.contains(r) && !old_vis[pix_index(r, w)] {
                let i = choose|i: int| 0 <= i < before.len() && before[i] == r;
                if i == before.len() - 1 {
                    assert(d[c.len() as int] == r);
                }
            }
        }
    }
}

/// Collects the 4-connected set pixels reachable from `(sx, sy)` that are
/// not yet visited, marking them visited.
#[verifier::rlimit(40)]
fn flood_fill(mask: &Vec<bool>, visited: &mut Vec<bool>, sx: usize, sy: usize, w: usize, h: usize) -> (c: Vec<(usize, usize)>)
    requires
        0 < w <= MAX_SIDE,
        0 < h <= MAX_SIDE,
        mask.len() == w * h,
        old(visited).len() == w * h,
    ensures
        final(visited).len() == w * h,
        pixels_in_mask(c@, mask@, w as nat, h as nat),
        connected_in_order(c@),
        distinct_pixels(c@),
        c.len() > 0 ==> c@[0] == (sx, sy),
        fresh_seed((sx, sy), mask@, old(visited)@, w as nat, h as nat) ==> c.len() > 0,
        all_marked(c@, final(visited)@, w as nat),
        forall|k: int| 0 <= k < c.len() ==> !old(visited)@[pix_index(#[trigger] c@[k], w as nat)],
        forall|i: int| 0 <= i < w * h && old(visited)@[i] ==> final(visited)@[i],
        new_marks_in(c@, final(visited)@, old(visited)@, w as nat, (w * h) as nat),
        frontier_ok(c@, seq![], old(visited)@, mask@, w as nat, h as nat),
{
    let mut contour: Vec<(usize, usize)> = Vec::new();
    let mut stack: Vec<(usize, usize)> = Vec::new();
    stack.push((sx, sy));
    proof {
        lemma_count_false_bound(visited@);
    }
    while stack.len() > 0
        invariant
            0 < w <= MAX_SIDE,
            0 < h <= MAX_SIDE,
            mask.len() == w * h,
            visited.len() == w * h,
            pixels_in_mask(contour@, mask@, w as nat, h as nat),
            connected_in_order(contour@),
            distinct_pixels(contour@),
            contour.len() > 0 ==> contour@[0] == (sx, sy),
            contour.len() == 0 ==> visited@ == old(visited)@ && (stack@ == seq![(sx, sy)] || (stack.len() == 0
                && !fresh_seed((sx, sy), mask@, old(visited)@, w as nat, h as nat))),
            all_marked(contour@, visited@, w as nat),
            forall|k: int| 0 <= k < contour.len() ==> !old(visited)@[pix_index(#[trigger] contour@[k], w as nat)],
            forall|i: int| 0 <= i < w * h && old(visited)@[i] ==> visited@[i],
            pending_ok(stack@, contour@, (sx, sy)),
            new_marks_in(contour@, visited@, old(visited)@, w as nat, (w * h) as nat),
            frontier_ok(contour@, stack@, old(visited)@, mask@, w as nat, h as nat),
        decreases 5 * count_false(visited@) + stack.len(),
    {
        let ghost before = stack@;
        proof {
            lemma_pending_pop(stack@, contour@, (sx, sy));
        }
        let (x, y) = stack.pop().unwrap();
        assert(before.last() == (x, y));
        assert(stack@ == before.drop_last());
        proof {
            assert forall|k: int| 0 <= k < contour.len() implies in_grid(#[trigger] contour@[k], w as nat, h as nat) by {
                let (px, py) = contour@[k];
            }
        }
        if x >= w || y >= h {
            proof {
                lemma_skip_step(contour@, before, visited@, old(visited)@, mask@, w as nat, h as nat);
            }
            continue;
        }
        proof {
            lemma_index_bound(x as nat, y as nat, w as nat, h as nat);
        }
        let p = y * w + x;
        assert(pix_index((x, y), w as nat) == p);
        if visited[p] || !mask[p] {
            proof {
                lemma_skip_step(contour@, before, visited@, old(visited)@, mask@, w as nat, h as nat);
            }
            continue;
        }
        let ghost old_contour = contour@;
        let ghost old_visited = visited@;
        proof {
            lemma_count_false_update(visited@, p as int);
            if contour.len() > 0 {
                assert(visited@[pix_index(contour@[0], w as nat)]);
            }
            assert forall|k: int| 0 <= k < old_contour.len() implies old_contour[k] != (x, y) by {
                assert(visited@[pix_index(old_contour[k], w as nat)]);
            }
            lemma_connected_push(old_contour, (x, y));
            lemma_pending_grow(stack@, old_contour, (sx, sy), (x, y));
        }
        visited.set(p, true);
        contour.push((x, y));
        proof {
            assert(visited@ == old_visited.update(p as int, true));
            assert(all_marked(contour@, visited@, w as nat)) by {
                assert forall|k: int| 0 <= k < contour.len() implies visited@[pix_index(#[trigger] contour@[k], w as nat)] by {
                    if k < old_contour.len() {
                        assert(contour@[k] == old_contour[k]);
                        assert(old_visited[pix_index(old_contour[k], w as nat)]);
                        let (px, py) = old_contour[k];
                        lemma_index_bound(px as nat, py as nat, w as nat, h as nat);
                    } else {
                        assert(contour@[k] == (x, y));
                    }
                }
            }
            assert(new_marks_in(contour@, visited@, old(visited)@, w as nat, (w * h) as nat)) by {
                assert forall|i: int| 0 <= i < w * h && #[trigger] visited@[i] && !old(visited)@[i] implies exists|k: int|
                    0 <= k < contour.len() && pix_index(contour@[k], w as nat) == i by {
                    if i == p {
                        assert(pix_index(contour@[old_contour.len() as int], w as nat) == i);
                    } else {
                        assert(old_visited[i]);
                        let k = choose|k: int| 0 <= k < old_contour.len() && pix_index(old_contour[k], w as nat) == i;
                        assert(contour@[k] == old_contour[k]);
                    }
                }
            }
            assert(contour@.last() == (x, y));
        }
        let ghost rest = stack@;
        let ghost i1 = stack.len();
        if x > 0 {
            proof {
                lemma_pending_push(stack@, contour@, (sx, sy), ((x - 1) as usize, y));
            }
            stack.push((x - 1, y));
        }
        let ghost i2 = stack.len();
        if x + 1 < w {
            proof {
                lemma_pending_push(stack@, contour@, (sx, sy), ((x + 1) as usize, y));
            }
            stack.push((x + 1, y));
        }
        let ghost i3 = stack.len();
        if y > 0 {
            proof {
                lemma_pending_push(stack@, contour@, (sx, sy), (x, (y - 1) as usize));
            }
            stack.push((x, y - 1));
        }
        let ghost i4 = stack.len();
        if y + 1 < h {
            proof {
                lemma_pending_push(stack@, contour@, (sx, sy), (x, (y + 1) as usize));
            }
            stack.push((x, y + 1));
        }
        proof {
            assert(x > 0 ==> stack@[i1 as int] == ((x - 1) as usize, y));
            assert(x + 1 < w ==> stack@[i2 as int] == ((x + 1) as usize, y));
            assert(y > 0 ==> stack@[i3 as int] == (x, (y - 1) as usize));
            assert(y + 1 < h ==> stack@[i4 as int] == (x, (y + 1) as usize));
            assert forall|i: int| 0 <= i < before.len() - 1 implies stack@.contains(#[trigger] before[i]) by {
                assert(before[i] == rest[i]);
                assert(stack@[i] == rest[i]);
            }
            assert forall|r: (usize, usize)| in_grid(r, w as nat, h as nat) && #[trigger] adjacent(before.last(), r) implies stack@.contains(r) by {
                if r.0 == x && r.1 + 1 == y {
                    assert(stack@[i3 as int] == r);
                } else if r.0 == x && y + 1 == r.1 {
                    assert(stack@[i4 as int] == r);
                } else if r.1 == y && r.0 + 1 == x {
                    assert(stack@[i1 as int] == r);
                } else {
                    assert(stack@[i2 as int] == r);
                }
            }
            lemma_add_step(old_contour, before, stack@, old(visited)@, mask@, w as nat, h as nat);
        }
    }
    contour
}

/// Keeps the components with at least `MIN_COMPONENT` pixels, in order.
pub open spec fn big_components(all: Seq<Seq<(usize, usize)>>, n: nat) -> Seq<Seq<(usize, usize)>>
    decreases n,
{
    if n == 0 {
        seq![]
    } else if all[n - 1].len() >= MIN_COMPONENT {
        big_components(all, (n - 1) as nat).push(all[n - 1])
    } else {
        big_components(all, (n - 1) as nat)
    }
}

/// `all` are the 4-connected components of the set pixels of `mask`: each
/// is a non-empty connected set of distinct set pixels holding every set
/// neighbour of its pixels, no two share a pixel, and every set pixel is in
/// one of them.
pub open spec fn components_of(all: Seq<Seq<(usize, usize)>>, mask: Seq<bool>, w: nat, h: nat) -> bool {
    &&& forall|j: int|
        0 <= j < all.len() ==> (#[trigger] all[j]).len() > 0 && pixels_in_mask(all[j], mask, w, h) && connected_in_order(
            all[j],
        ) && distinct_pixels(all[j]) && closed_in(all[j], mask, w, h)
    &&& forall|i: int, j: int| 0 <= i < j < all.len() ==> disjoint_pixels(#[trigger] all[i], #[trigger] all[j])
    &&& forall|i: int|
        0 <= i < w * h && #[trigger] mask[i] ==> exists|j: int, k: int|
            0 <= j < all.len() && 0 <= k < all[j].len() && pix_index(all[j][k], w) == i
}

proof fn lemma_big_members(all: Seq<Seq<(usize, usize)>>, n: nat)
    requires
        n <= all.len(),
    ensures
        forall|i: int|
            0 <= i < big_components(all, n).len() ==> (#[trigger] big_components(all, n)[i]).len() >= MIN_COMPONENT
                && exists|j: int| 0 <= j < n && big_components(all, n)[i] == all[j],
    decreases n,
{
    if n > 0 {
        lemma_big_members(all, (n - 1) as nat);
        let prev = big_components(all, (n - 1) as nat);
        let cur = big_components(all, n);
        assert forall|i: int| 0 <= i < cur.len() implies (#[trigger] cur[i]).len() >= MIN_COMPONENT && exists|j: int|
            0 <= j < n && cur[i] == all[j] by {
            if i < prev.len() {
                assert(cur[i] == prev[i]);
                let j = choose|j: int| 0 <= j < n - 1 && prev[i] == all[j];
            } else {
                assert(cur[i] == all[n - 1]);
            }
        }
    }
}

proof fn lemma_big_prefix(a: Seq<Seq<(usize, usize)>>, b: Seq<Seq<(usize, usize)>>, n: nat)
    requires
        n <= a.len(),
        n <= b.len(),
        forall|i: int| 0 <= i < n ==> a[i] == b[i],
    ensures
        big_components(a, n) == big_components(b, n),
    decreases n,
{
    if n > 0 {
        lemma_big_prefix(a, b, (n - 1) as nat);
    }
}

/// Every pixel of every component is marked in `v`, and every mark is a
/// pixel of some component.
pub open spec fn marks_are(all: Seq<Seq<(usize, usize)>>, v: Seq<bool>, w: nat, n: nat) -> bool {
    &&& forall|j: int| 0 <= j < all.len() ==> all_marked(#[trigger] all[j], v, w)
    &&& forall|i: int|
        0 <= i < n && #[trigger] v[i] ==> exists|j: int, k: int|
            0 <= j < all.len() && 0 <= k < all[j].len() && pix_index(all[j][k], w) == i
}

proof fn lemma_new_component(
    all: Seq<Seq<(usize, usize)>>,
    c: Seq<(usize, usize)>,
    old_vis: Seq<bool>,
    vis: Seq<bool>,
    mask: Seq<bool>,
    w: nat,
    h: nat,
)
    requires
        0 < w,
        0 < h,
        mask.len() == w * h,
        old_vis.len() == w * h,
        vis.len() == w * h,
        forall|j: int|
            0 <= j < all.len() ==> (#[trigger] all[j]).len() > 0 && pixels_in_mask(all[j], mask, w, h) && connected_in_order(
                all[j],
            ) && distinct_pixels(all[j]) && closed_in(all[j], mask, w, h),
        forall|i: int, j: int| 0 <= i < j < all.len() ==> disjoint_pixels(#[trigger] all[i], #[trigger] all[j]),
        marks_are(all, old_vis, w, w * h),
        c.len() > 0,
        pixels_in_mask(c, mask, w, h),
        connected_in_order(c),
        distinct_pixels(c),
        all_marked(c, vis, w),
        forall|k: int| 0 <= k < c.len() ==> !old_vis[pix_index(#[trigger] c[k], w)],
        forall|i: int| 0 <= i < w * h && old_vis[i] ==> vis[i],
        new_marks_in(c, vis, old_vis, w, w * h),
        frontier_ok(c, seq![], old_vis, mask, w, h),
    ensures
        forall|j: int|
            0 <= j < all.push(c).len() ==> (#[trigger] all.push(c)[j]).len() > 0 && pixels_in_mask(
                all.push(c)[j],
                mask,
                w,
                h,
            ) && connected_in_order(all.push(c)[j]) && distinct_pixels(all.push(c)[j]) && closed_in(
                all.push(c)[j],
                mask,
                w,
                h,
            ),
        forall|i: int, j: int|
            0 <= i < j < all.push(c).len() ==> disjoint_pixels(#[trigger] all.push(c)[i], #[trigger] all.push(c)[j]),
        marks_are(all.push(c), vis, w, w * h),
{
    let a2 = all.push(c);
    assert(closed_in(c, mask, w, h)) by {
        assert forall|k: int, q: (usize, usize)|
            0 <= k < c.len() && in_grid(q, w, h) && #[trigger] adjacent(c[k], q) && mask[pix_index(q, w)] implies c.contains(q) by {
            if !c.contains(q) {
                assert(!Seq::<(usize, usize)>::empty().contains(q));
                assert(old_vis[pix_index(q, w)]);
                lemma_index_bound(q.0 as nat, q.1 as nat, w, h);
                let (j, k2) = choose|j: int, k2: int|
                    0 <= j < all.len() && 0 <= k2 < all[j].len() && pix_index(all[j][k2], w) == pix_index(q, w);
                assert(pixels_in_mask(all[j], mask, w, h));
                let r = all[j][k2];
                assert(in_grid(r, w, h));
                lemma_index_injective(r, q, w, h);
                let p = c[k];
                assert(pixels_in_mask(c, mask, w, h));
                assert(in_grid(p, w, h) && mask[pix_index(p, w)]);
                assert(adjacent(all[j][k2], p));
                assert(closed_in(all[j], mask, w, h));
                assert(all[j].contains(p));
                let k3 = choose|k3: int| 0 <= k3 < all[j].len() && all[j][k3] == p;
                assert(all_marked(all[j], old_vis, w));
                assert(old_vis[pix_index(all[j][k3], w)]);
            }
        }
    }
    assert forall|j: int| 0 <= j < all.len() implies disjoint_pixels(#[trigger] all[j], c) by {
        assert forall|a: int, b: int| 0 <= a < all[j].len() && 0 <= b < c.len() implies all[j][a] != c[b] by {
            assert(all_marked(all[j], old_vis, w));
            assert(old_vis[pix_index(all[j][a], w)]);
        }
    }
    assert forall|i: int, j: int| 0 <= i < j < a2.len() implies disjoint_pixels(#[trigger] a2[i], #[trigger] a2[j]) by {
        assert(a2[i] == all[i]);
        if j < all.len() {
            assert(a2[j] == all[j]);
        }
    }
    assert forall|j: int| 0 <= j < a2.len() implies all_marked(#[trigger] a2[j], vis, w) by {
        if j < all.len() {
            assert(a2[j] == all[j]);
            assert(all_marked(all[j], old_vis, w));
            assert(pixels_in_mask(all[j], mask, w, h));
            assert forall|k: int| 0 <= k < all[j].len() implies vis[pix_index(#[trigger] all[j][k], w)] by {
                let (px, py) = all[j][k];
                lemma_index_bound(px as nat, py as nat, w, h);
            }
        }
    }
    assert forall|i: int| 0 <= i < w * h && #[trigger] vis[i] implies exists|j: int, k: int|
        0 <= j < a2.len() && 0 <= k < a2[j].len() && pix_index(a2[j][k], w) == i by {
        if old_vis[i] {
            let (j, k) = choose|j: int, k: int|
                0 <= j < all.len() && 0 <= k < all[j].len() && pix_index(all[j][k], w) == i;
            assert(a2[j] == all[j]);
        } else {
            let k = choose|k: int| 0 <= k < c.len() && pix_index(c[k], w) == i;
            assert(a2[all.len() as int] == c);
        }
    }
    assert forall|j: int| 0 <= j < a2.len() implies (#[trigger] a2[j]).len() > 0 && pixels_in_mask(a2[j], mask, w, h)
        && connected_in_order(a2[j]) && distinct_pixels(a2[j]) && closed_in(a2[j], mask, w, h) by {
        if j < all.len() {
            assert(a2[j] == all[j]);
        }
    }
}

/// Set pixels of `mask` gathered into 4-connected components; components
/// smaller than `MIN_COMPONENT` are left out.
fn find_contours(mask: &Vec<bool>, w: usize, h: usize) -> (r: Vec<Vec<(usize, usize)>>)
    requires
        0 < w <= MAX_SIDE,
        0 < h <= MAX_SIDE,
        mask.len() == w * h,
    ensures
        exists|all: Seq<Seq<(usize, usize)>>|
            components_of(all, mask@, w as nat, h as nat) && r@.map_values(|c: Vec<(usize, usize)>| c@)
                == big_components(all, all.len()),
{
    let mut visited: Vec<bool> = Vec::new();
    let n = mask.len();
    let mut i: usize = 0;
    while i < n
        invariant
            visited.len() == i,
            i <= n,
            forall|k: int| 0 <= k < i ==> !visited@[k],
        decreases n - i,
    {
        visited.push(false);
        i += 1;
    }
    let ghost mut all: Seq<Seq<(usize, usize)>> = seq![];
    let mut contours: Vec<Vec<(usize, usize)>> = Vec::new();
    let mut y: usize = 0;
    while y < h
        invariant
            0 < w <= MAX_SIDE,
            0 < h <= MAX_SIDE,
            y <= h,
            mask.len() == w * h,
            visited.len() == w * h,
            forall|j: int|
                0 <= j < all.len() ==> (#[trigger] all[j]).len() > 0 && pixels_in_mask(all[j], mask@, w as nat, h as nat)
                    && connected_in_order(all[j]) && distinct_pixels(all[j]) && closed_in(all[j], mask@, w as nat, h as nat),
            forall|i: int, j: int| 0 <= i < j < all.len() ==> disjoint_pixels(#[trigger] all[i], #[trigger] all[j]),
            marks_are(all, visited@, w as nat, (w * h) as nat),
            contours@.map_values(|c: Vec<(usize, usize)>| c@) == big_components(all, all.len()),
            forall|i: int| 0 <= i < y * w && #[trigger] mask@[i] ==> visited@[i],
        decreases h - y,
    {
        let mut x: usize = 0;
        while x < w
            invariant
                0 < w <= MAX_SIDE,
                0 < h <= MAX_SIDE,
                y < h,
                x <= w,
                mask.len() == w * h,
                visited.len() == w * h,
                forall|j: int|
                    0 <= j < all.len() ==> (#[trigger] all[j]).len() > 0 && pixels_in_mask(all[j], mask@, w as nat, h as nat)
                        && connected_in_order(all[j]) && distinct_pixels(all[j]) && closed_in(all[j], mask@, w as nat, h as nat),
                forall|i: int, j: int| 0 <= i < j < all.len() ==> disjoint_pixels(#[trigger] all[i], #[trigger] all[j]),
                marks_are(all, visited@, w as nat, (w * h) as nat),
                contours@.map_values(|c: Vec<(usize, usize)>| c@) == big_components(all, all.len()),
                forall|i: int| 0 <= i < y * w + x && #[trigger] mask@[i] ==> visited@[i],
            decreases w - x,
        {
            proof {
                lemma_index_bound(x as nat, y as nat, w as nat, h as nat);
            }
            let p = y * w + x;
            if mask[p] && !visited[p] {
                let ghost vis_before = visited@;
                let c = flood_fill(mask, &mut visited, x, y, w, h);
                proof {
                    assert(pix_index((x, y), w as nat) == p);
                    assert(fresh_seed((x, y), mask@, vis_before, w as nat, h as nat));
                    lemma_new_component(all, c@, vis_before, visited@, mask@, w as nat, h as nat);
                    assert(visited@[p as int]) by {
                        assert(all_marked(c@, visited@, w as nat));
                        assert(c@[0] == (x, y));
                    }
                }
                let ghost old_all = all;
                proof {
                    all = all.push(c@);
                    lemma_big_prefix(all, old_all, old_all.len());
                }
                if c.len() >= MIN_COMPONENT {
                    let ghost old_views = contours@.map_values(|c: Vec<(usize, usize)>| c@);
                    contours.push(c);
                    assert(contours@.map_values(|c: Vec<(usize, usize)>| c@) =~= old_views.push(all.last()));
                }
                proof {
                    assert(all.drop_last() =~= old_all);
                    assert(forall|i: int| 0 <= i < y * w + x && vis_before[i] ==> visited@[i]);
                }
            }
            x += 1;
        }
        assert((y + 1) * w == y * w + w) by (nonlinear_arith);
        y += 1;
    }
    assert(h * w == w * h) by (nonlinear_arith);
    assert(forall|i: int| 0 <= i < w * h && #[trigger] mask@[i] ==> visited@[i]);
    assert(components_of(all, mask@, w as nat, h as nat)) by {
        assert forall|i: int| 0 <= i < w * h && #[trigger] mask@[i] implies exists|j: int, k: int|
            0 <= j < all.len() && 0 <= k < all[j].len() && pix_index(all[j][k], w as nat) == i by {
            assert(visited@[i]);
        }
    }
    contours
}

/// `e` is the exact axis-aligned extent of the pixels `c`.
pub open spec fn is_extent_of(e: Extent, c: Seq<(usize, usize)>) -> bool {
    &&& forall|k: int|
        0 <= k < c.len() ==> e.min_x <= (#[trigger] c[k]).0 <= e.max_x && e.min_y <= c[k].1 <= e.max_y
    &&& exists|k: int| 0 <= k < c.len() && (#[trigger] c[k]).0 == e.min_x
    &&& exists|k: int| 0 <= k < c.len() && (#[trigger] c[k]).0 == e.max_x
    &&& exists|k: int| 0 <= k < c.len() && (#[trigger] c[k]).1 == e.min_y
    &&& exists|k: int| 0 <= k < c.len() && (#[trigger] c[k]).1 == e.max_y
}

/// The extent of a non-empty set of pixels.
pub open spec fn extent_of(c: Seq<(usize, usize)>) -> Extent {
    choose|e: Extent| is_extent_of(e, c)
}

proof fn lemma_extent_unique(e: Extent, c: Seq<(usize, usize)>)
    requires
        is_extent_of(e, c),
    ensures
        extent_of(c) == e,
{
    let f = extent_of(c);
    assert(is_extent_of(f, c));
    let k1 = choose|k: int| 0 <= k < c.len() && (#[trigger] c[k]).0 == f.min_x;
    let k2 = choose|k: int| 0 <= k < c.len() && (#[trigger] c[k]).0 == e.min_x;
    let k3 = choose|k: int| 0 <= k < c.len() && (#[trigger] c[k]).0 == f.max_x;
    let k4 = choose|k: int| 0 <= k < c.len() && (#[trigger] c[k]).0 == e.max_x;
    let k5 = choose|k: int| 0 <= k < c.len() && (#[trigger] c[k]).1 == f.min_y;
    let k6 = choose|k: int| 0 <= k < c.len() && (#[trigger] c[k]).1 == e.min_y;
    let k7 = choose|k: int| 0 <= k < c.len() && (#[trigger] c[k]).1 == f.max_y;
    let k8 = choose|k: int| 0 <= k < c.len() && (#[trigger] c[k]).1 == e.max_y;
    assert(e.min_x <= c[k1].0 && f.min_x <= c[k2].0);
    assert(e.max_x >= c[k3].0 && f.max_x >= c[k4].0);
    assert(e.min_y <= c[k5].1 && f.min_y <= c[k6].1);
    assert(e.max_y >= c[k7].1 && f.max_y >= c[k8].1);
}

/// The smallest axis-aligned pixel rectangle holding every pixel of `c`.
pub fn component_extent(c: &Vec<(usize, usize)>) -> (e: Extent)
    requires
        c.len() > 0,
    ensures
        is_extent_of(e, c@),
{
    let mut e = Extent { min_x: c[0].0, min_y: c[0].1, max_x: c[0].0, max_y: c[0].1 };
    assert(c@.subrange(0, 1)[0] == c@[0]);
    let mut i: usize = 1;
    while i < c.len()
        invariant
            0 < i <= c.len(),
            is_extent_of(e, c@.subrange(0, i as int)),
        decreases c.len() - i,
    {
        let (x, y) = c[i];
        let ghost old_e = e;
        let ghost prev = c@.subrange(0, i as int);
        if x < e.min_x {
            e.min_x = x;
        }
        if x > e.max_x {
            e.max_x = x;
        }
        if y < e.min_y {
            e.min_y = y;
        }
        if y > e.max_y {
            e.max_y = y;
        }
        i += 1;
        let ghost cur = c@.subrange(0, i as int);
        assert(forall|k: int| 0 <= k < prev.len() ==> cur[k] == prev[k]);
        assert(cur[i - 1] == (x, y));
        assert(is_extent_of(e, cur)) by {
            if e.min_x == old_e.min_x {
                let k = choose|k: int| 0 <= k < prev.len() && (#[trigger] prev[k]).0 == old_e.min_x;
                assert(cur[k].0 == e.min_x);
            } else {
                assert(cur[i - 1].0 == e.min_x);
            }
            if e.max_x == old_e.max_x {
                let k = choose|k: int| 0 <= k < prev.len() && (#[trigger] prev[k]).0 == old_e.max_x;
                assert(cur[k].0 == e.max_x);
            } else {
                assert(cur[i - 1].0 == e.max_x);
            }
            if e.min_y == old_e.min_y {
                let k = choose|k: int| 0 <= k < prev.len() && (#[trigger] prev[k]).1 == old_e.min_y;
                assert(cur[k].1 == e.min_y);
            } else {
                assert(cur[i - 1].1 == e.min_y);
            }
            if e.max_y == old_e.max_y {
                let k = choose|k: int| 0 <= k < prev.len() && (#[trigger] prev[k]).1 == old_e.max_y;
                assert(cur[k].1 == e.max_y);
            } else {
                assert(cur[i - 1].1 == e.max_y);
            }
        }
    }
    assert(c@.subrange(0, c.len() as int) =~= c@);
    e
}

/// How far an unclip ratio (thousandths) moves each side of a run of
/// `len_px` pixels, in thousandths of a pixel.
pub open spec fn expansion(len_px: int, ratio: int) -> int {
    if ratio >= 1000 {
        len_px * (ratio - 1000) / 2
    } else {
        -(len_px * (1000 - ratio) / 2)
    }
}

pub open spec fn clamp(v: int, lo: int, hi: int) -> int {
    if v < lo {
        lo
    } else if v > hi {
        hi
    } else {
        v
    }
}

/// A coordinate of the detector's input mapped back to the original image
/// and clipped to `[0, orig]` pixels.
pub open spec fn rescaled(v: int, orig: int, resized: int) -> int {
    clamp(v * orig / resized, 0, orig * 1000)
}

/// The box of a component extent: the area its pixels cover, from the near
/// edge of the first pixel to the far edge of the last, each side moved out
/// by the unclip expansion of that length (the near sides not past 0),
/// mapped back to the original image and clipped to it. Returned as
/// `(x1, y1, x2, y2)`.
pub open spec fn detection_rect(e: Extent, ratio: int, ow: int, oh: int, rw: int, rh: int) -> (int, int, int, int) {
    let ex = expansion(e.max_x - e.min_x + 1, ratio);
    let ey = expansion(e.max_y - e.min_y + 1, ratio);
    let x1 = imax0(e.min_x * 1000 - ex);
    let y1 = imax0(e.min_y * 1000 - ey);
    let x2 = (e.max_x + 1) * 1000 + ex;
    let y2 = (e.max_y + 1) * 1000 + ey;
    (rescaled(x1, ow, rw), rescaled(y1, oh, rh), rescaled(x2, ow, rw), rescaled(y2, oh, rh))
}

pub open spec fn imax0(v: int) -> int {
    if v < 0 {
        0
    } else {
        v
    }
}

/// The quadrilateral of a rectangle: top-left, top-right, bottom-right,
/// bottom-left.
pub open spec fn quad_of(r: (int, int, int, int)) -> Seq<int> {
    seq![r.0, r.1, r.2, r.1, r.2, r.3, r.0, r.3]
}

fn expansion_exec(len_px: usize, ratio: u32) -> (r: i128)
    requires
        len_px <= MAX_SIDE,
    ensures
        r == expansion(len_px as int, ratio as int),
        -(MAX_SIDE * 500) <= r <= MAX_SIDE * 0x8000_0000,
{
    if ratio >= 1000 {
        let d = (ratio - 1000) as i128;
        assert(0 <= len_px * d <= MAX_SIDE * 0xffff_ffff) by (nonlinear_arith)
            requires
                len_px <= MAX_SIDE,
                0 <= d <= 0xffff_ffff,
        ;
        (len_px as i128 * d) / 2
    } else {
        let d = (1000 - ratio) as i128;
        assert(0 <= len_px * d <= MAX_SIDE * 1000) by (nonlinear_arith)
            requires
                len_px <= MAX_SIDE,
                0 <= d <= 1000,
        ;
        -((len_px as i128 * d) / 2)
    }
}

fn rescale_exec(v: i128, orig: u32, resized: usize) -> (r: i64)
    requires
        v <= MAX_SIDE * 0x1_0000_0000,
        0 < orig <= MAX_SIDE,
        0 < resized <= MAX_SIDE,
    ensures
        r == rescaled(v as int, orig as int, resized as int),
        0 <= r <= orig * 1000,
{
    let hi = orig as i128 * 1000;
    if v <= 0 {
        assert(v * orig / (resized as int) <= 0) by (nonlinear_arith)
            requires
                v <= 0,
                orig > 0,
                resized > 0,
        ;
        return 0;
    }
    assert(0 <= v * orig <= MAX_SIDE * 0x1_0000_0000 * MAX_SIDE) by (nonlinear_arith)
        requires
            0 < v <= MAX_SIDE * 0x1_0000_0000,
            0 < orig <= MAX_SIDE,
    ;
    let q = (v * orig as i128) / resized as i128;
    assert(q >= 0) by (nonlinear_arith)
        requires
            q == (v * orig) / (resized as int),
            v * orig >= 0,
            resized > 0,
    ;
    if q > hi {
        hi as i64
    } else {
        q as i64
    }
}

/// Every pixel of `c` lies in a `w` by `h` grid.
pub open spec fn pixels_in_bounds(c: Seq<(usize, usize)>, w: nat, h: nat) -> bool {
    forall|k: int| 0 <= k < c.len() ==> (#[trigger] c[k]).0 < w && c[k].1 < h
}

/// Sum of the probabilities at the pixels of `c`.
pub open spec fn component_sum(c: Seq<(usize, usize)>, values: Seq<u32>, w: nat) -> int
    decreases c.len(),
{
    if c.len() == 0 {
        0
    } else {
        component_sum(c.drop_last(), values, w) + values[c.last().1 * w + c.last().0] as int
    }
}

proof fn lemma_component_sum_bound(c: Seq<(usize, usize)>, values: Seq<u32>, w: nat)
    ensures
        0 <= component_sum(c, values, w) <= c.len() * 0xffff_ffff,
    decreases c.len(),
{
    if c.len() > 0 {
        lemma_component_sum_bound(c.drop_last(), values, w);
    }
}

fn pixel_sum(c: &Vec<(usize, usize)>, map: &ProbabilityMap) -> (r: u128)
    requires
        map.wf(),
        pixels_in_bounds(c@, map.width as nat, map.height as nat),
    ensures
        r == component_sum(c@, map.values@, map.width as nat),
{
    let mut sum: u128 = 0;
    let mut i: usize = 0;
    while i < c.len()
        invariant
            map.wf(),
            pixels_in_bounds(c@, map.width as nat, map.height as nat),
            i <= c.len(),
            sum == component_sum(c@.subrange(0, i as int), map.values@, map.width as nat),
        decreases c.len() - i,
    {
        let (x, y) = c[i];
        proof {
            lemma_index_bound(x as nat, y as nat, map.width as nat, map.height as nat);
            lemma_component_sum_bound(c@.subrange(0, i as int), map.values@, map.width as nat);
            assert(c@.subrange(0, i + 1).drop_last() =~= c@.subrange(0, i as int));
        }
        sum = sum + map.values[y * map.width + x] as u128;
        i += 1;
    }
    assert(c@.subrange(0, c.len() as int) =~= c@);
    sum
}

impl TextDetector {
    pub fn new() -> (r: Self)
        ensures
            r.threshold == 300,
            r.box_threshold == 600,
            r.unclip_ratio == 1500,
    {
        TextDetector { threshold: 300, box_threshold: 600, unclip_ratio: 1500 }
    }

    pub fn with_threshold(self, threshold: u32) -> (r: Self)
        ensures
            r.threshold == threshold,
            r.box_threshold == self.box_threshold,
            r.unclip_ratio == self.unclip_ratio,
    {
        TextDetector { threshold, ..self }
    }

    pub fn with_box_threshold(self, threshold: u32) -> (r: Self)
        ensures
            r.threshold == self.threshold,
            r.box_threshold == threshold,
            r.unclip_ratio == self.unclip_ratio,
    {
        TextDetector { box_threshold: threshold, ..self }
    }

    pub fn with_unclip_ratio(self, ratio: u32) -> (r: Self)
        ensures
            r.threshold == self.threshold,
            r.box_threshold == self.box_threshold,
            r.unclip_ratio == ratio,
    {
        TextDetector { unclip_ratio: ratio, ..self }
    }

/// The box of a component and its mean probability, or `None` where that
/// mean is below `box_threshold`.
pub fn box_from_component(
    &self,
    c: &Vec<(usize, usize)>,
    map: &ProbabilityMap,
    orig_size: (u32, u32),
    resized: (usize, usize),
) -> (r: Option<([i64; 8], u32)>)
    requires
        map.wf(),
        c.len() > 0,
        pixels_in_bounds(c@, map.width as nat, map.height as nat),
        0 < orig_size.0 <= MAX_SIDE,
        0 < orig_size.1 <= MAX_SIDE,
        0 < resized.0 <= MAX_SIDE,
        0 < resized.1 <= MAX_SIDE,
    ensures
        ({
            let mean = component_sum(c@, map.values@, map.width as nat) / (c.len() as int);
            match r {
                None => mean < self.box_threshold,
                Some((b, score)) => {
                    &&& mean >= self.box_threshold
                    &&& score == mean
                    &&& b@.map_values(|v: i64| v as int) == quad_of(
                        detection_rect(
                            extent_of(c@),
                            self.unclip_ratio as int,
                            orig_size.0 as int,
                            orig_size.1 as int,
                            resized.0 as int,
                            resized.1 as int,
                        ),
                    )
                    &&& forall|k: int| 0 <= k < 8 ==> 0 <= #[trigger] b[k] <= MAX_COORD
                    &&& forall|k: int| 0 <= k < 8 && k % 2 == 0 ==> #[trigger] b[k] <= orig_size.0 * 1000
                    &&& forall|k: int| 0 <= k < 8 && k % 2 == 1 ==> #[trigger] b[k] <= orig_size.1 * 1000
                },
            }
        }),
{
    let sum = pixel_sum(c, map);
    let mean128 = sum / c.len() as u128;
    proof {
        lemma_component_sum_bound(c@, map.values@, map.width as nat);
        assert(mean128 <= 0xffff_ffff) by (nonlinear_arith)
            requires
                mean128 == sum as int / (c.len() as int),
                sum <= c.len() * 0xffff_ffff,
                c.len() > 0,
        ;
    }
    let mean = mean128 as u32;
    if mean < self.box_threshold {
        return None;
    }
    let e = component_extent(c);
    proof {
        lemma_extent_unique(e, c@);
    }
    assert(c@[0].0 < map.width && c@[0].1 < map.height);
    assert(e.max_x < map.width && e.max_y < map.height) by {
        let k = choose|k: int| 0 <= k < c@.len() && (#[trigger] c@[k]).0 == e.max_x;
        let j = choose|j: int| 0 <= j < c@.len() && (#[trigger] c@[j]).1 == e.max_y;
    }
    let ex = expansion_exec(e.max_x - e.min_x + 1, self.unclip_ratio);
    let ey = expansion_exec(e.max_y - e.min_y + 1, self.unclip_ratio);
    let mut x1 = e.min_x as i128 * 1000 - ex;
    if x1 < 0 {
        x1 = 0;
    }
    let mut y1 = e.min_y as i128 * 1000 - ey;
    if y1 < 0 {
        y1 = 0;
    }
    let x2 = (e.max_x as i128 + 1) * 1000 + ex;
    let y2 = (e.max_y as i128 + 1) * 1000 + ey;
    let (ow, oh) = orig_size;
    let (rw, rh) = resized;
    let sx1 = rescale_exec(x1, ow, rw);
    let sy1 = rescale_exec(y1, oh, rh);
    let sx2 = rescale_exec(x2, ow, rw);
    let sy2 = rescale_exec(y2, oh, rh);
    let b: [i64; 8] = [sx1, sy1, sx2, sy1, sx2, sy2, sx1, sy2];
    assert(b@.map_values(|v: i64| v as int) =~= quad_of(
        detection_rect(e, self.unclip_ratio as int, ow as int, oh as int, rw as int, rh as int),
    ));
    Some((b, mean))
}

    /// Boxes of the text components of a probability map: pixels above
    /// `threshold` are grouped into 4-connected components, components under
    /// `MIN_COMPONENT` pixels or with mean probability under `box_threshold`
    /// are dropped, and each other one gives its unclipped box, mapped from
    /// the `resized` detector input back to `orig_size` and clipped to it.
    pub fn post_process(&self, map: &ProbabilityMap, orig_size: (u32, u32), resized: (usize, usize)) -> (r: DetectionResult)
        requires
            map.wf(),
            0 < orig_size.0 <= MAX_SIDE,
            0 < orig_size.1 <= MAX_SIDE,
            0 < resized.0 <= MAX_SIDE,
            0 < resized.1 <= MAX_SIDE,
        ensures
            r.boxes.len() == r.scores.len(),
            r.image_size == orig_size,
            exists|comps: Seq<Seq<(usize, usize)>>|
                text_components(comps, binarized(map.values@, self.threshold), map.width as nat, map.height as nat)
                    && outcomes_match(
                    r,
                    detections_of(*self, comps, *map, orig_size, resized, comps.len()),
                ),
            forall|i: int| 0 <= i < r.scores.len() ==> #[trigger] r.scores[i] >= self.box_threshold,
            forall|i: int, k: int|
                0 <= i < r.boxes.len() && 0 <= k < 8 ==> 0 <= #[trigger] r.boxes[i][k] <= MAX_COORD,
            forall|i: int, k: int|
                0 <= i < r.boxes.len() && 0 <= k < 8 && k % 2 == 0 ==> #[trigger] r.boxes[i][k]
                    <= orig_size.0 * 1000,
            forall|i: int, k: int|
                0 <= i < r.boxes.len() && 0 <= k < 8 && k % 2 == 1 ==> #[trigger] r.boxes[i][k]
                    <= orig_size.1 * 1000,
    {
        let n = map.values.len();
        let mut mask: Vec<bool> = Vec::new();
        let mut i: usize = 0;
        while i < n
            invariant
                n == map.values.len(),
                i <= n,
                mask.len() == i,
                forall|k: int| 0 <= k < i ==> mask@[k] == (map.values@[k] > self.threshold),
            decreases n - i,
        {
            mask.push(map.values[i] > self.threshold);
            i += 1;
        }
        assert(mask@ =~= binarized(map.values@, self.threshold));
        let contours = find_contours(&mask, map.width, map.height);
        let ghost comps = contours@.map_values(|c: Vec<(usize, usize)>| c@);
        assert(text_components(comps, mask@, map.width as nat, map.height as nat));
        proof {
            let all = choose|all: Seq<Seq<(usize, usize)>>|
                components_of(all, mask@, map.width as nat, map.height as nat) && comps == big_components(all, all.len());
            lemma_big_members(all, all.len());
            assert forall|i: int| 0 <= i < contours.len() implies pixels_in_mask(
                (#[trigger] contours[i])@,
                mask@,
                map.width as nat,
                map.height as nat,
            ) && contours[i].len() >= MIN_COMPONENT by {
                assert(comps[i] == contours[i]@);
                let j = choose|j: int| 0 <= j < all.len() && big_components(all, all.len())[i] == all[j];
                assert(pixels_in_mask(all[j], mask@, map.width as nat, map.height as nat));
            }
        }
        let mut boxes: Vec<[i64; 8]> = Vec::new();
        let mut scores: Vec<u32> = Vec::new();
        let mut j: usize = 0;
        while j < contours.len()
            invariant
                map.wf(),
                0 < orig_size.0 <= MAX_SIDE,
                0 < orig_size.1 <= MAX_SIDE,
                0 < resized.0 <= MAX_SIDE,
                0 < resized.1 <= MAX_SIDE,
                mask.len() == map.values.len(),
                comps == contours@.map_values(|c: Vec<(usize, usize)>| c@),
                forall|i: int|
                    0 <= i < contours.len() ==> pixels_in_mask(
                        (#[trigger] contours[i])@,
                        mask@,
                        map.width as nat,
                        map.height as nat,
                    ) && contours[i].len() >= MIN_COMPONENT,
                j <= contours.len(),
                outcomes_match(
                    (DetectionResult { boxes, scores, image_size: orig_size }),
                    detections_of(*self, comps, *map, orig_size, resized, j as nat),
                ),
                boxes.len() == scores.len(),
                forall|i: int| 0 <= i < scores.len() ==> #[trigger] scores[i] >= self.box_threshold,
                forall|i: int, k: int|
                    0 <= i < boxes.len() && 0 <= k < 8 ==> 0 <= #[trigger] boxes[i][k] <= MAX_COORD,
                forall|i: int, k: int|
                    0 <= i < boxes.len() && 0 <= k < 8 && k % 2 == 0 ==> #[trigger] boxes[i][k]
                        <= orig_size.0 * 1000,
                forall|i: int, k: int|
                    0 <= i < boxes.len() && 0 <= k < 8 && k % 2 == 1 ==> #[trigger] boxes[i][k]
                        <= orig_size.1 * 1000,
            decreases contours.len() - j,
        {
            let c = &contours[j];
            assert(comps[j as int] == c@);
            assert(pixels_in_mask(c@, mask@, map.width as nat, map.height as nat));
            assert(pixels_in_bounds(c@, map.width as nat, map.height as nat)) by {
                assert forall|k: int| 0 <= k < c@.len() implies (#[trigger] c@[k]).0 < map.width && c@[k].1
                    < map.height by {
                    let (x, y) = c@[k];
                }
            }
            let ghost prev = detections_of(*self, comps, *map, orig_size, resized, j as nat);
            let ghost old_boxes = boxes@;
            let ghost old_scores = scores@;
            match self.box_from_component(c, map, orig_size, resized) {
                Some((b, score)) => {
                    boxes.push(b);
                    scores.push(score);
                    assert(forall|i: int| 0 <= i < old_boxes.len() ==> boxes@[i] == old_boxes[i]);
                    assert(forall|i: int| 0 <= i < old_scores.len() ==> scores@[i] == old_scores[i]);
                },
                None => {},
            }
            j += 1;
        }
        let r = DetectionResult { boxes, scores, image_size: orig_size };
        assert(text_components(comps, binarized(map.values@, self.threshold), map.width as nat, map.height as nat));
        r
    }
}

/// Pixels whose probability exceeds `t`.
pub open spec fn binarized(values: Seq<u32>, t: u32) -> Seq<bool> {
    values.map_values(|v: u32| v > t)
}

/// `comps` are the 4-connected components of the set pixels of `mask`
/// that hold at least `MIN_COMPONENT` pixels, in scan order of their first
/// pixel.
pub open spec fn text_components(comps: Seq<Seq<(usize, usize)>>, mask: Seq<bool>, w: nat, h: nat) -> bool {
    exists|all: Seq<Seq<(usize, usize)>>| components_of(all, mask, w, h) && comps == big_components(all, all.len())
}

/// The box (corner coordinates) and mean probability a component gives, or
/// `None` where its mean is below `box_threshold`.
pub open spec fn component_outcome(
    d: TextDetector,
    c: Seq<(usize, usize)>,
    map: ProbabilityMap,
    orig: (u32, u32),
    resized: (usize, usize),
) -> Option<(Seq<int>, int)> {
    let mean = component_sum(c, map.values@, map.width as nat) / (c.len() as int);
    if mean < d.box_threshold {
        None
    } else {
        Some(
            (
                quad_of(
                    detection_rect(
                        extent_of(c),
                        d.unclip_ratio as int,
                        orig.0 as int,
                        orig.1 as int,
                        resized.0 as int,
                        resized.1 as int,
                    ),
                ),
                mean,
            ),
        )
    }
}

/// The outcomes of the first `n` components that give a box, in order.
pub open spec fn detections_of(
    d: TextDetector,
    comps: Seq<Seq<(usize, usize)>>,
    map: ProbabilityMap,
    orig: (u32, u32),
    resized: (usize, usize),
    n: nat,
) -> Seq<(Seq<int>, int)>
    decreases n,
{
    if n == 0 {
        seq![]
    } else {
        let acc = detections_of(d, comps, map, orig, resized, (n - 1) as nat);
        match component_outcome(d, comps[n - 1], map, orig, resized) {
            Some(o) => acc.push(o),
            None => acc,
        }
    }
}

/// The boxes and scores of `r` are exactly `outs`.
pub open spec fn outcomes_match(r: DetectionResult, outs: Seq<(Seq<int>, int)>) -> bool {
    &&& r.boxes.len() == outs.len()
    &&& r.scores.len() == outs.len()
    &&& forall|i: int|
        0 <= i < outs.len() ==> (#[trigger] r.boxes@[i])@.map_values(|v: i64| v as int) == outs[i].0
            && r.scores@[i] as int == outs[i].1
}

} // verus!
