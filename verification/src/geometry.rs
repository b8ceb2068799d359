//! Geometry primitives on integer fixed-point coordinates.
//!
//! Coordinates and lengths are in centimeters. Euclidean distances are
//! rounded down to whole centimeters by an integer square root, so every
//! quantity stays in machine integers and all arithmetic is exact.

use vstd::prelude::*;

verus! {

/// Largest magnitude of a stored coordinate: 100 km in centimeters.
pub const MAX_COORD: i64 = 10_000_000;

/// Coordinates produced by offsetting stored geometry stay under this bound.
pub const MAX_DERIVED_COORD: i64 = 20_000_000;

/// A point in the plane, in centimeter units. The y axis grows downward
/// (screen orientation), so the left side of a direction (dx, dy) is
/// (dy, -dx).
#[derive(Clone, Copy, Debug, PartialEq, Eq, Structural, Hash)]
pub struct Pt {
    pub x: i64,
    pub y: i64,
}

impl Pt {
    /// A stored map coordinate.
    pub open spec fn valid(self) -> bool {
        -MAX_COORD <= self.x <= MAX_COORD && -MAX_COORD <= self.y <= MAX_COORD
    }

    /// A coordinate that may come out of an offset computation.
    pub open spec fn in_range(self) -> bool {
        -MAX_DERIVED_COORD <= self.x <= MAX_DERIVED_COORD && -MAX_DERIVED_COORD <= self.y
            <= MAX_DERIVED_COORD
    }

    pub proof fn lemma_valid_in_range(self)
        requires
            self.valid(),
        ensures
            self.in_range(),
    {
    }
}

/// `r` is the integer square root of `n`.
pub open spec fn is_sqrt_of(r: nat, n: nat) -> bool {
    r * r <= n < (r + 1) * (r + 1)
}

/// The integer square root, as a mathematical value.
pub open spec fn spec_isqrt(n: nat) -> nat {
    choose|r: nat| is_sqrt_of(r, n)
}

/// The integer square root exists for every argument (the witness is found
/// by the executable search below), and is unique.
pub proof fn lemma_isqrt_unique(a: nat, b: nat, n: nat)
    requires
        is_sqrt_of(a, n),
        is_sqrt_of(b, n),
    ensures
        a == b,
{
    if a < b {
        assert((a + 1) * (a + 1) <= b * b) by (nonlinear_arith)
            requires
                a + 1 <= b,
        ;
    }
    if b < a {
        assert((b + 1) * (b + 1) <= a * a) by (nonlinear_arith)
            requires
                b + 1 <= a,
        ;
    }
}

/// Integer square root by binary search.
pub fn isqrt(n: u64) -> (r: u64)
    ensures
        is_sqrt_of(r as nat, n as nat),
        r == spec_isqrt(n as nat),
{
    let mut lo: u64 = 0;
    let mut hi: u64 = 4_294_967_296u64;
    while hi - lo > 1
        invariant
            lo < hi <= 4_294_967_296u64,
            (lo * lo) as nat <= n as nat,
            (hi as int) * (hi as int) > n as int,
        decreases hi - lo,
    {
        let mid = lo + (hi - lo) / 2;
        assert(mid * mid <= 4_294_967_295u64 * 4_294_967_295u64) by (nonlinear_arith)
            requires
                0 <= mid <= 4_294_967_295u64,
        ;
        if mid * mid <= n {
            lo = mid;
        } else {
            hi = mid;
        }
    }
    assert(is_sqrt_of(lo as nat, n as nat));
    proof {
        let w = choose|r: nat| is_sqrt_of(r, n as nat);
        assert(is_sqrt_of(w, n as nat));
        lemma_isqrt_unique(lo as nat, w, n as nat);
    }
    lo
}

/// The Euclidean distance between two points, rounded down.
pub open spec fn spec_dist(p: Pt, q: Pt) -> nat {
    spec_isqrt((((p.x - q.x) * (p.x - q.x)) + ((p.y - q.y) * (p.y - q.y))) as nat)
}

/// Distances between in-range points fit comfortably in u64 sums.
pub const MAX_SEG_LEN: u64 = 60_000_000;

pub proof fn lemma_dist_bound(p: Pt, q: Pt)
    requires
        p.in_range(),
        q.in_range(),
    ensures
        spec_dist(p, q) <= MAX_SEG_LEN,
{
    let dx = p.x - q.x;
    let dy = p.y - q.y;
    assert(0 <= dx * dx + dy * dy <= 3_200_000_000_000_000) by (nonlinear_arith)
        requires
            -40_000_000 <= dx <= 40_000_000,
            -40_000_000 <= dy <= 40_000_000,
    ;
    let dd = (dx * dx + dy * dy) as nat;
    let r = spec_isqrt(dd);
    assert(is_sqrt_of(r, dd)) by {
        lemma_isqrt_exists(dd);
    }
    if r > MAX_SEG_LEN {
        assert(r * r > 3_200_000_000_000_000) by (nonlinear_arith)
            requires
                r > 60_000_000,
        ;
    }
}

/// Every natural number has an integer square root.
pub proof fn lemma_isqrt_exists(n: nat)
    ensures
        is_sqrt_of(spec_isqrt(n), n),
    decreases n,
{
    if n == 0 {
        assert(0 * 0 <= 0 < (0 + 1) * (0 + 1)) by (nonlinear_arith);
        assert(is_sqrt_of(0, 0));
    } else {
        lemma_isqrt_exists((n - 1) as nat);
        let r = spec_isqrt((n - 1) as nat);
        if (r + 1) * (r + 1) <= n {
            assert(is_sqrt_of(r + 1, n)) by (nonlinear_arith)
                requires
                    r * r <= n - 1 < (r + 1) * (r + 1),
                    (r + 1) * (r + 1) <= n,
            ;
        } else {
            assert(is_sqrt_of(r, n));
        }
    }
}

/// Total length of the open polygonal chain through `s`.
pub open spec fn spec_polyline_len(s: Seq<Pt>) -> nat
    decreases s.len(),
{
    if s.len() < 2 {
        0
    } else {
        spec_polyline_len(s.drop_last()) + spec_dist(s[s.len() - 2], s[s.len() - 1])
    }
}

/// Euclidean distance, rounded down to whole centimeters.
pub fn dist(p: Pt, q: Pt) -> (d: u64)
    requires
        p.in_range(),
        q.in_range(),
    ensures
        d == spec_dist(p, q),
        d <= MAX_SEG_LEN,
{
    let dx = p.x - q.x;
    let dy = p.y - q.y;
    assert(0 <= dx * dx <= 1_600_000_000_000_000 && 0 <= dy * dy <= 1_600_000_000_000_000)
        by (nonlinear_arith)
        requires
            -40_000_000 <= dx <= 40_000_000,
            -40_000_000 <= dy <= 40_000_000,
    ;
    let dd = (dx * dx) as u64 + (dy * dy) as u64;
    let d = isqrt(dd);
    proof {
        lemma_dist_bound(p, q);
    }
    d
}

/// All points of a sequence lie within stored-coordinate bounds.
pub open spec fn all_valid(s: Seq<Pt>) -> bool {
    forall|k: int| 0 <= k < s.len() ==> #[trigger] s[k].valid()
}

/// All points of a sequence lie within derived-coordinate bounds.
pub open spec fn all_in_range(s: Seq<Pt>) -> bool {
    forall|k: int| 0 <= k < s.len() ==> #[trigger] s[k].in_range()
}

/// Hard cap on the number of points any one chain may carry, so that summed
/// lengths fit in a u64.
pub const MAX_PTS: usize = 1_000_000;

/// Length of the chain through the given points.
pub fn polyline_len(pts: &Vec<Pt>) -> (total: u64)
    requires
        all_in_range(pts@),
        pts@.len() <= MAX_PTS,
    ensures
        total == spec_polyline_len(pts@),
{
    if pts.len() < 2 {
        return 0;
    }
    let mut total: u64 = 0;
    let mut i: usize = 1;
    while i < pts.len()
        invariant
            1 <= i <= pts@.len() <= MAX_PTS,
            all_in_range(pts@),
            total == spec_polyline_len(pts@.take(i as int)),
            total <= (i - 1) * (MAX_SEG_LEN as int),
        decreases pts@.len() - i,
    {
        let d = dist(pts[i - 1], pts[i]);
        proof {
            assert(pts@.take(i + 1).drop_last() =~= pts@.take(i as int));
            assert(pts@.take(i + 1)[i - 1] == pts@[i - 1]);
            assert(pts@.take(i + 1)[i as int] == pts@[i as int]);
        }
        total = total + d;
        i = i + 1;
    }
    proof {
        assert(pts@.take(pts@.len() as int) =~= pts@);
    }
    total
}

/// Index of the first occurrence of `x` in `s`, or -1 if absent.
pub open spec fn first_index<T>(s: Seq<T>, x: T) -> int
    decreases s.len(),
{
    if s.len() == 0 {
        -1
    } else if s[0] == x {
        0
    } else {
        let r = first_index(s.drop_first(), x);
        if r < 0 {
            -1
        } else {
            r + 1
        }
    }
}

/// `first_index` is exactly the least index holding `x`.
pub proof fn lemma_first_index_char<T>(s: Seq<T>, x: T, k: int)
    requires
        0 <= k < s.len(),
        s[k] == x,
        forall|m: int| 0 <= m < k ==> s[m] != x,
    ensures
        first_index(s, x) == k,
    decreases s.len(),
{
    if k > 0 {
        assert(forall|m: int| 0 <= m < k - 1 ==> s.drop_first()[m] != x);
        lemma_first_index_char(s.drop_first(), x, k - 1);
    }
}

/// If `x` is nowhere in `s`, `first_index` reports -1.
pub proof fn lemma_first_index_absent<T>(s: Seq<T>, x: T)
    requires
        forall|m: int| 0 <= m < s.len() ==> s[m] != x,
    ensures
        first_index(s, x) == -1,
    decreases s.len(),
{
    if s.len() > 0 {
        lemma_first_index_absent(s.drop_first(), x);
    }
}

/// Find the first occurrence of a point in a vector.
pub fn find_pt(pts: &Vec<Pt>, x: Pt) -> (r: Option<usize>)
    ensures
        r matches Some(k) ==> {
            &&& first_index(pts@, x) == k as int
            &&& k < pts@.len()
            &&& pts@[k as int] == x
        },
        r is None ==> first_index(pts@, x) == -1,
{
    let mut k: usize = 0;
    while k < pts.len()
        invariant
            0 <= k <= pts@.len(),
            forall|m: int| 0 <= m < k ==> pts@[m] != x,
        decreases pts@.len() - k,
    {
        if pts[k] == x {
            proof {
                lemma_first_index_char(pts@, x, k as int);
            }
            return Some(k);
        }
        k = k + 1;
    }
    proof {
        lemma_first_index_absent(pts@, x);
    }
    None
}

/// Remove adjacent duplicate points, keeping the first of each run.
pub open spec fn spec_dedup(s: Seq<Pt>) -> Seq<Pt>
    decreases s.len(),
{
    if s.len() <= 1 {
        s
    } else {
        let pre = spec_dedup(s.drop_last());
        if s.last() == pre.last() {
            pre
        } else {
            pre.push(s.last())
        }
    }
}

/// Structure kept by deduplication: ends, membership, and the absence of
/// adjacent duplicates.
pub proof fn lemma_dedup_props(s: Seq<Pt>)
    requires
        s.len() > 0,
    ensures
        spec_dedup(s).len() >= 1,
        spec_dedup(s).len() <= s.len(),
        spec_dedup(s)[0] == s[0],
        spec_dedup(s).last() == s.last(),
        forall|k: int|
            0 <= k < spec_dedup(s).len() - 1 ==> #[trigger] spec_dedup(s)[k] != spec_dedup(s)[k
                + 1],
        forall|k: int| 0 <= k < spec_dedup(s).len() ==> s.contains(#[trigger] spec_dedup(s)[k]),
    decreases s.len(),
{
    if s.len() > 1 {
        lemma_dedup_props(s.drop_last());
        assert(forall|k: int|
            0 <= k < spec_dedup(s.drop_last()).len() ==> s.drop_last().contains(
                #[trigger] spec_dedup(s.drop_last())[k],
            ));
        assert forall|p: Pt| s.drop_last().contains(p) implies s.contains(p) by {
            let j = choose|j: int| 0 <= j < s.drop_last().len() && s.drop_last()[j] == p;
            assert(s[j] == p);
        }
        assert(s.contains(s.last())) by {
            assert(s[s.len() - 1] == s.last());
        }
    } else {
        assert(s.contains(s[0]));
    }
}

/// Remove adjacent duplicate points.
pub fn dedup_pts(pts: &Vec<Pt>) -> (r: Vec<Pt>)
    ensures
        r@ == spec_dedup(pts@),
{
    let mut r: Vec<Pt> = Vec::new();
    let mut k: usize = 0;
    while k < pts.len()
        invariant
            0 <= k <= pts@.len(),
            r@ == spec_dedup(pts@.take(k as int)),
        decreases pts@.len() - k,
    {
        proof {
            assert(pts@.take(k + 1).drop_last() =~= pts@.take(k as int));
            assert(pts@.take(k + 1).last() == pts@[k as int]);
            if k > 0 {
                lemma_dedup_props(pts@.take(k as int));
            }
        }
        if r.len() == 0 {
            r.push(pts[k]);
            proof {
                assert(pts@.take(k + 1) =~= pts@.take(k as int).push(pts@[k as int]));
                if k == 0 {
                    assert(r@ =~= spec_dedup(pts@.take(1)));
                }
            }
        } else {
            let last = r[r.len() - 1];
            if pts[k] == last {
            } else {
                r.push(pts[k]);
            }
        }
        k = k + 1;
    }
    proof {
        assert(pts@.take(pts@.len() as int) =~= pts@);
    }
    r
}

/// A component of the left-normal offset: `delta` scaled by `w / len`,
/// rounded toward zero.
pub open spec fn spec_scaled(delta: int, w: nat, len: nat) -> int {
    if len == 0 {
        0
    } else {
        let m = (vstd::math::abs(delta) * w) / len;
        if delta >= 0 {
            m as int
        } else {
            -(m as int)
        }
    }
}

/// The point `s[k]` moved to the left of its segment by `w`. Interior points
/// follow the segment they start; the final point follows the segment it
/// ends.
pub open spec fn spec_shift_pt(s: Seq<Pt>, k: int, w: nat) -> Pt {
    let j = if k < s.len() - 1 {
        k
    } else {
        k - 1
    };
    let a = s[j];
    let b = s[j + 1];
    let len = spec_dist(a, b);
    Pt {
        x: (s[k].x + spec_scaled(b.y - a.y, w, len)) as i64,
        y: (s[k].y + spec_scaled(-(b.x - a.x), w, len)) as i64,
    }
}

/// The whole chain moved to its left by `w`.
pub open spec fn spec_shift(s: Seq<Pt>, w: nat) -> Seq<Pt> {
    Seq::new(s.len(), |k: int| spec_shift_pt(s, k, w))
}

/// Offsets never exceed `w`, because a segment is at least as long as each
/// of its coordinate extents.
proof fn lemma_scaled_bound(delta: int, w: nat, len: nat)
    requires
        vstd::math::abs(delta) <= len,
    ensures
        -(w as int) <= spec_scaled(delta, w, len) <= w as int,
{
    if len > 0 {
        let a = vstd::math::abs(delta);
        vstd::arithmetic::mul::lemma_mul_inequality(a as int, len as int, w as int);
        vstd::arithmetic::div_mod::lemma_div_is_ordered(
            (a * w) as int,
            (len * w) as int,
            len as int,
        );
        vstd::arithmetic::div_mod::lemma_div_multiples_vanish(w as int, len as int);
        assert((len * w) as int == (len as int) * (w as int));
        assert(((len as int) * (w as int)) / (len as int) == w as int);
        vstd::arithmetic::div_mod::lemma_div_pos_is_pos((a * w) as int, len as int);
    }
}

/// A segment is at least as long, rounded down, as each coordinate extent.
proof fn lemma_dist_dominates(a: Pt, b: Pt)
    ensures
        vstd::math::abs(b.x - a.x) <= spec_dist(a, b),
        vstd::math::abs(b.y - a.y) <= spec_dist(a, b),
{
    let dx = a.x - b.x;
    let dy = a.y - b.y;
    let dd = (dx * dx + dy * dy) as nat;
    assert(dx * dx + dy * dy >= 0) by (nonlinear_arith);
    let r = spec_dist(a, b);
    lemma_isqrt_exists(dd);
    assert(is_sqrt_of(r, dd));
    let ax = vstd::math::abs(dx);
    let ay = vstd::math::abs(dy);
    assert(vstd::math::abs(b.x - a.x) == ax && vstd::math::abs(b.y - a.y) == ay);
    assert(ax * ax <= dd && ay * ay <= dd) by (nonlinear_arith)
        requires
            ax == vstd::math::abs(dx),
            ay == vstd::math::abs(dy),
            dd == (dx * dx + dy * dy) as nat,
    ;
    if ax > r {
        assert(ax * ax >= (r + 1) * (r + 1)) by (nonlinear_arith)
            requires
                ax >= r + 1,
        ;
    }
    if ay > r {
        assert(ay * ay >= (r + 1) * (r + 1)) by (nonlinear_arith)
            requires
                ay >= r + 1,
        ;
    }
}

/// Hard cap on lane widths, in centimeters.
pub const MAX_WIDTH: u64 = 10_000;

/// Move a chain of at least two stored points to its left by `w`.
pub fn shift_left_pts(pts: &Vec<Pt>, w: u64) -> (r: Vec<Pt>)
    requires
        pts@.len() >= 2,
        all_valid(pts@),
        w <= MAX_WIDTH,
    ensures
        r@ == spec_shift(pts@, w as nat),
        r@.len() == pts@.len(),
        all_in_range(r@),
{
    let mut r: Vec<Pt> = Vec::new();
    let mut k: usize = 0;
    while k < pts.len()
        invariant
            0 <= k <= pts@.len(),
            pts@.len() >= 2,
            all_valid(pts@),
            w <= MAX_WIDTH,
            r@.len() == k,
            forall|m: int| 0 <= m < k ==> r@[m] == spec_shift_pt(pts@, m, w as nat),
            all_in_range(r@),
        decreases pts@.len() - k,
    {
        let j = if k < pts.len() - 1 {
            k
        } else {
            k - 1
        };
        let a = pts[j];
        let b = pts[j + 1];
        proof {
            assert(pts@[j as int].valid());
            assert(pts@[j + 1].valid());
            a.lemma_valid_in_range();
            b.lemma_valid_in_range();
        }
        let len = dist(a, b);
        let ox: i64;
        let oy: i64;
        if len == 0 {
            ox = 0;
            oy = 0;
        } else {
            proof {
                lemma_dist_dominates(a, b);
            }
            let dy = b.y - a.y;
            let ady: u64 = if dy >= 0 {
                dy as u64
            } else {
                (-dy) as u64
            };
            assert(ady * w <= 200_000_000_000) by (nonlinear_arith)
                requires
                    0 <= ady <= 20_000_000,
                    0 <= w <= 10_000,
            ;
            let mx = ady * w / len;
            proof {
                lemma_scaled_bound(dy as int, w as nat, len as nat);
            }
            ox = if dy >= 0 {
                mx as i64
            } else {
                -(mx as i64)
            };
            let dx = b.x - a.x;
            let adx: u64 = if dx >= 0 {
                dx as u64
            } else {
                (-dx) as u64
            };
            assert(adx * w <= 200_000_000_000) by (nonlinear_arith)
                requires
                    0 <= adx <= 20_000_000,
                    0 <= w <= 10_000,
            ;
            let my = adx * w / len;
            proof {
                lemma_scaled_bound(-(dx as int), w as nat, len as nat);
            }
            oy = if dx > 0 {
                -(my as i64)
            } else {
                my as i64
            };
            assert(adx as int == vstd::math::abs(-(dx as int)));
            assert((my as int) == (vstd::math::abs(-(dx as int)) * (w as nat)) / (len as nat));
            assert(ox == spec_scaled(dy as int, w as nat, len as nat));
            assert(oy == spec_scaled(-(dx as int), w as nat, len as nat));
        }
        let p = Pt { x: pts[k].x + ox, y: pts[k].y + oy };
        assert(p == spec_shift_pt(pts@, k as int, w as nat));
        r.push(p);
        k = k + 1;
    }
    proof {
        assert(r@ =~= spec_shift(pts@, w as nat));
    }
    r
}

/// Hard cap on the number of points of one stored centerline.
pub const MAX_POLYLINE_PTS: usize = 10_000;

/// An open chain of at least two stored points with no adjacent duplicates.
pub struct Polyline {
    pub pts: Vec<Pt>,
}

impl Polyline {
    pub open spec fn wf(self) -> bool {
        &&& 2 <= self.pts@.len() <= MAX_POLYLINE_PTS
        &&& all_valid(self.pts@)
        &&& forall|k: int| 0 <= k < self.pts@.len() - 1 ==> #[trigger] self.pts@[k] != self.pts@[k
            + 1]
    }

    pub open spec fn spec_len(self) -> nat {
        spec_polyline_len(self.pts@)
    }

    /// Decide well-formedness at run time, for callers that assembled the
    /// points themselves.
    pub fn check_wf(&self) -> (r: bool)
        ensures
            r == self.wf(),
    {
        let n = self.pts.len();
        if n < 2 || n > MAX_POLYLINE_PTS {
            return false;
        }
        let mut k: usize = 0;
        while k < n
            invariant
                0 <= k <= n,
                n == self.pts@.len(),
                forall|m: int| 0 <= m < k ==> #[trigger] self.pts@[m].valid(),
            decreases n - k,
        {
            let p = self.pts[k];
            if p.x < -MAX_COORD || p.x > MAX_COORD || p.y < -MAX_COORD || p.y > MAX_COORD {
                proof {
                    assert(!self.pts@[k as int].valid());
                }
                return false;
            }
            k = k + 1;
        }
        let mut k: usize = 0;
        while k < n - 1
            invariant
                0 <= k <= n - 1,
                n == self.pts@.len(),
                n >= 2,
                forall|m: int| 0 <= m < k ==> #[trigger] self.pts@[m] != self.pts@[m + 1],
            decreases n - k,
        {
            if self.pts[k] == self.pts[k + 1] {
                return false;
            }
            k = k + 1;
        }
        true
    }

    pub fn first_pt(&self) -> (r: Pt)
        requires
            self.wf(),
        ensures
            r == self.pts@[0],
    {
        self.pts[0]
    }

    pub fn last_pt(&self) -> (r: Pt)
        requires
            self.wf(),
        ensures
            r == self.pts@.last(),
    {
        self.pts[self.pts.len() - 1]
    }

    /// Total chain length in centimeters.
    pub fn length(&self) -> (total: u64)
        requires
            self.wf(),
        ensures
            total == self.spec_len(),
            total <= 600_000_000_000u64,
    {
        proof {
            assert forall|k: int| 0 <= k < self.pts@.len() implies (
            #[trigger] self.pts@[k]).in_range() by {
                assert(self.pts@[k].valid());
            }
            lemma_polyline_len_bound(self.pts@);
        }
        polyline_len(&self.pts)
    }
}

/// A chain's length is at most one maximal segment per point.
pub proof fn lemma_polyline_len_bound(s: Seq<Pt>)
    requires
        all_in_range(s),
    ensures
        spec_polyline_len(s) <= s.len() * (MAX_SEG_LEN as nat),
    decreases s.len(),
{
    if s.len() < 2 {
    } else {
        lemma_polyline_len_bound(s.drop_last());
        assert(all_in_range(s.drop_last()));
        lemma_dist_bound(s[s.len() - 2], s[s.len() - 1]);
        assert(s.drop_last().len() * (MAX_SEG_LEN as nat) + (MAX_SEG_LEN as nat) <= s.len() * (
        MAX_SEG_LEN as nat)) by (nonlinear_arith)
            requires
                s.drop_last().len() == s.len() - 1,
                s.len() >= 2,
        ;
    }
}

/// A straight segment between two points.
#[derive(Clone, Copy, Debug, PartialEq, Eq, Structural)]
pub struct Line {
    pub p1: Pt,
    pub p2: Pt,
}

/// A closed ring of points: first equals last, no adjacent duplicates, and
/// at least three distinct corners.
pub struct Polygon {
    pub pts: Vec<Pt>,
}

/// What a raw point trail becomes when closed into a ring: the first point
/// is appended and adjacent duplicates are removed.
pub open spec fn spec_close_ring(s: Seq<Pt>) -> Seq<Pt> {
    spec_dedup(s.push(s[0]))
}

/// Closing a trail succeeds when at least three distinct corners remain.
pub open spec fn spec_polygon_new(s: Seq<Pt>) -> Option<Seq<Pt>> {
    if s.len() == 0 {
        None
    } else {
        let c = spec_close_ring(s);
        if c.len() >= 4 {
            Some(c)
        } else {
            None
        }
    }
}

impl Polygon {
    pub open spec fn wf(self) -> bool {
        &&& self.pts@.len() >= 4
        &&& self.pts@.len() <= MAX_PTS
        &&& self.pts@[0] == self.pts@.last()
        &&& forall|k: int| 0 <= k < self.pts@.len() - 1 ==> #[trigger] self.pts@[k] != self.pts@[k
            + 1]
        &&& all_in_range(self.pts@)
    }

    /// The ring's corners, without the closing duplicate of the first point.
    pub open spec fn corners(self) -> Seq<Pt> {
        self.pts@.drop_last()
    }

    /// Decide well-formedness at run time, for callers that assembled the
    /// ring themselves.
    pub fn check_wf(&self) -> (r: bool)
        ensures
            r == self.wf(),
    {
        let n = self.pts.len();
        if n < 4 || n > MAX_PTS {
            return false;
        }
        if !(self.pts[0] == self.pts[n - 1]) {
            return false;
        }
        let mut k: usize = 0;
        while k < n
            invariant
                0 <= k <= n,
                n == self.pts@.len(),
                forall|m: int| 0 <= m < k ==> #[trigger] self.pts@[m].in_range(),
            decreases n - k,
        {
            let p = self.pts[k];
            if p.x < -MAX_DERIVED_COORD || p.x > MAX_DERIVED_COORD || p.y < -MAX_DERIVED_COORD
                || p.y > MAX_DERIVED_COORD {
                proof {
                    assert(!self.pts@[k as int].in_range());
                }
                return false;
            }
            k = k + 1;
        }
        let mut k: usize = 0;
        while k < n - 1
            invariant
                0 <= k <= n - 1,
                n == self.pts@.len(),
                n >= 2,
                forall|m: int| 0 <= m < k ==> #[trigger] self.pts@[m] != self.pts@[m + 1],
            decreases n - k,
        {
            if self.pts[k] == self.pts[k + 1] {
                return false;
            }
            k = k + 1;
        }
        true
    }

    /// Close a raw point trail into a ring. Reports `None` when fewer than
    /// three distinct corners remain, mirroring `spec_polygon_new`.
    pub fn new(raw: &Vec<Pt>) -> (r: Option<Polygon>)
        requires
            all_in_range(raw@),
            raw@.len() < MAX_PTS,
        ensures
            r matches Some(p) ==> {
                &&& spec_polygon_new(raw@) == Some(p.pts@)
                &&& p.wf()
            },
            r is None ==> spec_polygon_new(raw@) is None,
    {
        if raw.len() == 0 {
            return None;
        }
        let mut closed: Vec<Pt> = Vec::new();
        let mut k: usize = 0;
        while k < raw.len()
            invariant
                0 <= k <= raw@.len(),
                closed@ == raw@.take(k as int),
            decreases raw@.len() - k,
        {
            closed.push(raw[k]);
            proof {
                assert(closed@ =~= raw@.take(k + 1));
            }
            k = k + 1;
        }
        proof {
            assert(raw@.take(raw@.len() as int) =~= raw@);
        }
        closed.push(raw[0]);
        assert(closed@ == raw@.push(raw@[0]));
        let c = dedup_pts(&closed);
        proof {
            lemma_dedup_props(closed@);
            assert(closed@[0] == raw@[0]);
            assert(closed@.last() == raw@[0]);
            assert forall|m: int| 0 <= m < c@.len() implies #[trigger] c@[m].in_range() by {
                assert(closed@.contains(c@[m]));
                let j = choose|j: int| 0 <= j < closed@.len() && closed@[j] == c@[m];
                if j < raw@.len() {
                    assert(raw@[j].in_range());
                } else {
                    assert(raw@[0].in_range());
                }
            }
        }
        if c.len() >= 4 {
            let p = Polygon { pts: c };
            Some(p)
        } else {
            None
        }
    }

    /// The arithmetic mean of the ring's corners, rounded down after a
    /// nonnegative translation.
    pub open spec fn spec_center(self) -> Pt {
        let s = self.corners();
        let n = s.len();
        Pt {
            x: ((spec_sum_x(s) + n * (MAX_DERIVED_COORD as int)) / (n as int)
                - MAX_DERIVED_COORD) as i64,
            y: ((spec_sum_y(s) + n * (MAX_DERIVED_COORD as int)) / (n as int)
                - MAX_DERIVED_COORD) as i64,
        }
    }

    /// A representative interior-ish point of the ring: the corner average.
    pub fn center(&self) -> (c: Pt)
        requires
            self.wf(),
        ensures
            c == self.spec_center(),
            c.in_range(),
    {
        let n = self.pts.len() - 1;
        let mut sx: u64 = 0;
        let mut sy: u64 = 0;
        let mut k: usize = 0;
        proof {
            assert(self.corners().len() == n);
        }
        while k < n
            invariant
                0 <= k <= n,
                n == self.pts@.len() - 1,
                self.wf(),
                sx == spec_sum_x(self.corners().take(k as int)) + k * (MAX_DERIVED_COORD as int),
                sy == spec_sum_y(self.corners().take(k as int)) + k * (MAX_DERIVED_COORD as int),
                sx <= k * 40_000_000,
                sy <= k * 40_000_000,
            decreases n - k,
        {
            let p = self.pts[k];
            proof {
                assert(self.pts@[k as int].in_range());
                assert(self.corners().take(k + 1).drop_last() =~= self.corners().take(k as int));
                assert(self.corners().take(k + 1).last() == self.corners()[k as int]);
                assert(self.corners()[k as int] == self.pts@[k as int]);
                assert(spec_sum_x(self.corners().take(k + 1)) == spec_sum_x(
                    self.corners().take(k as int),
                ) + self.pts@[k as int].x);
                assert(spec_sum_y(self.corners().take(k + 1)) == spec_sum_y(
                    self.corners().take(k as int),
                ) + self.pts@[k as int].y);
            }
            sx = sx + ((p.x + MAX_DERIVED_COORD) as u64);
            sy = sy + ((p.y + MAX_DERIVED_COORD) as u64);
            proof {
                assert(sx == spec_sum_x(self.corners().take(k + 1)) + (k + 1) * (
                MAX_DERIVED_COORD as int));
                assert(sy == spec_sum_y(self.corners().take(k + 1)) + (k + 1) * (
                MAX_DERIVED_COORD as int));
                assert(sx <= (k + 1) * 40_000_000);
                assert(sy <= (k + 1) * 40_000_000);
            }
            k = k + 1;
        }
        proof {
            assert(self.corners().take(n as int) =~= self.corners());
            lemma_avg_in_range(spec_sum_x(self.corners()), n as nat);
            lemma_avg_in_range(spec_sum_y(self.corners()), n as nat);
        }
        let cx = (sx / (n as u64)) as i64 - MAX_DERIVED_COORD;
        let cy = (sy / (n as u64)) as i64 - MAX_DERIVED_COORD;
        Pt { x: cx, y: cy }
    }
}

/// The corner run from index `i` to index `j`, wrapping past the end.
pub open spec fn spec_arc(c: Seq<Pt>, i: int, j: int) -> Seq<Pt> {
    if i <= j {
        c.subrange(i, j + 1)
    } else {
        c.subrange(i, c.len() as int) + c.subrange(0, j + 1)
    }
}

/// The shorter of the two corner runs between `a` and `b` along a ring,
/// oriented from `a` to `b`; `None` when either point is not a corner.
pub open spec fn spec_shorter_slice(c: Seq<Pt>, a: Pt, b: Pt) -> Option<Seq<Pt>> {
    let ia = first_index(c, a);
    let ib = first_index(c, b);
    if ia < 0 || ib < 0 {
        None
    } else {
        let fwd = spec_arc(c, ia, ib);
        let bwd = spec_arc(c, ib, ia);
        if spec_polyline_len(fwd) <= spec_polyline_len(bwd) {
            Some(fwd)
        } else {
            Some(bwd.reverse())
        }
    }
}

/// Copy `v[i..j]` into a fresh vector.
pub fn copy_subrange(v: &Vec<Pt>, i: usize, j: usize) -> (r: Vec<Pt>)
    requires
        0 <= i <= j <= v@.len(),
    ensures
        r@ == v@.subrange(i as int, j as int),
{
    let mut r: Vec<Pt> = Vec::new();
    let mut k: usize = i;
    while k < j
        invariant
            i <= k <= j <= v@.len(),
            r@ == v@.subrange(i as int, k as int),
        decreases j - k,
    {
        r.push(v[k]);
        proof {
            assert(r@ =~= v@.subrange(i as int, k + 1));
        }
        k = k + 1;
    }
    r
}

/// Reverse a vector of points.
pub fn reverse_pts(v: &Vec<Pt>) -> (r: Vec<Pt>)
    ensures
        r@ == v@.reverse(),
{
    let mut r: Vec<Pt> = Vec::new();
    let mut k: usize = v.len();
    while k > 0
        invariant
            0 <= k <= v@.len(),
            r@.len() == v@.len() - k,
            forall|m: int| 0 <= m < r@.len() ==> r@[m] == v@[v@.len() - 1 - m],
        decreases k,
    {
        k = k - 1;
        r.push(v[k]);
    }
    proof {
        assert(r@ =~= v@.reverse());
    }
    r
}

impl Polygon {
    /// The corner run between two corners of this ring whose chain length is
    /// least, oriented from `a` to `b`. Bridges gaps when tracing around a
    /// block. `None` when either point is not a corner of the ring.
    pub fn shorter_slice(&self, a: Pt, b: Pt) -> (r: Option<Vec<Pt>>)
        requires
            self.wf(),
        ensures
            r matches Some(v) ==> {
                &&& spec_shorter_slice(self.corners(), a, b) == Some(v@)
                &&& all_in_range(v@)
                &&& v@.len() <= 2 * self.pts@.len()
            },
            r is None ==> spec_shorter_slice(self.corners(), a, b) is None,
    {
        let n = self.pts.len() - 1;
        let corners = copy_subrange(&self.pts, 0, n);
        proof {
            assert(corners@ =~= self.corners());
        }
        let ia = match find_pt(&corners, a) {
            Some(i) => i,
            None => {
                return None;
            },
        };
        let ib = match find_pt(&corners, b) {
            Some(i) => i,
            None => {
                return None;
            },
        };
        let fwd = self.arc(&corners, ia, ib);
        let bwd = self.arc(&corners, ib, ia);
        proof {
            assert(all_in_range(corners@));
            lemma_arc_in_range(corners@, ia as int, ib as int);
            lemma_arc_in_range(corners@, ib as int, ia as int);
        }
        let lf = polyline_len(&fwd);
        let lb = polyline_len(&bwd);
        if lf <= lb {
            Some(fwd)
        } else {
            let r = reverse_pts(&bwd);
            proof {
                assert(all_in_range(r@)) by {
                    assert(forall|m: int|
                        0 <= m < r@.len() ==> r@[m] == bwd@[r@.len() - 1 - m]);
                }
            }
            Some(r)
        }
    }

    /// The corner run from `i` to `j`, wrapping past the end of the ring.
    fn arc(&self, corners: &Vec<Pt>, i: usize, j: usize) -> (r: Vec<Pt>)
        requires
            corners@.len() >= 1,
            i < corners@.len(),
            j < corners@.len(),
        ensures
            r@ == spec_arc(corners@, i as int, j as int),
            r@.len() <= 2 * corners@.len(),
    {
        let _cn = corners.len();
        if i <= j {
            copy_subrange(corners, i, j + 1)
        } else {
            let mut r = copy_subrange(corners, i, corners.len());
            let mut tail = copy_subrange(corners, 0, j + 1);
            let ghost head = r@;
            let mut k: usize = 0;
            while k < tail.len()
                invariant
                    0 <= k <= tail@.len(),
                    r@ == head + tail@.take(k as int),
                decreases tail@.len() - k,
            {
                r.push(tail[k]);
                proof {
                    assert(r@ =~= head + tail@.take(k + 1));
                }
                k = k + 1;
            }
            proof {
                assert(tail@.take(tail@.len() as int) =~= tail@);
            }
            r
        }
    }
}

/// Points of an arc come from the ring, so they stay in range.
proof fn lemma_arc_in_range(c: Seq<Pt>, i: int, j: int)
    requires
        all_in_range(c),
        0 <= i < c.len(),
        0 <= j < c.len(),
    ensures
        all_in_range(spec_arc(c, i, j)),
{
}

/// Sum of x coordinates.
pub open spec fn spec_sum_x(s: Seq<Pt>) -> int
    decreases s.len(),
{
    if s.len() == 0 {
        0
    } else {
        spec_sum_x(s.drop_last()) + s.last().x
    }
}

/// Sum of y coordinates.
pub open spec fn spec_sum_y(s: Seq<Pt>) -> int
    decreases s.len(),
{
    if s.len() == 0 {
        0
    } else {
        spec_sum_y(s.drop_last()) + s.last().y
    }
}

/// The translated average of in-range sums stays in range.
proof fn lemma_avg_in_range(sum: int, n: nat)
    requires
        n >= 1,
        -(n * (MAX_DERIVED_COORD as int)) <= sum <= n * (MAX_DERIVED_COORD as int),
    ensures
        0 <= (sum + n * (MAX_DERIVED_COORD as int)) / (n as int) <= 2 * (MAX_DERIVED_COORD as int),
        -MAX_DERIVED_COORD <= (sum + n * (MAX_DERIVED_COORD as int)) / (n as int)
            - MAX_DERIVED_COORD <= MAX_DERIVED_COORD,
{
    let t = sum + n * (MAX_DERIVED_COORD as int);
    assert(0 <= t && t <= n * (2 * MAX_DERIVED_COORD as int)) by (nonlinear_arith)
        requires
            -(n * (MAX_DERIVED_COORD as int)) <= sum <= n * (MAX_DERIVED_COORD as int),
            t == sum + n * (MAX_DERIVED_COORD as int),
    ;
    vstd::arithmetic::div_mod::lemma_div_pos_is_pos(t, n as int);
    vstd::arithmetic::div_mod::lemma_div_is_ordered(t, n * (2 * MAX_DERIVED_COORD as int), n as int);
    vstd::arithmetic::div_mod::lemma_div_multiples_vanish(2 * MAX_DERIVED_COORD as int, n as int);
    assert(n * (2 * MAX_DERIVED_COORD as int) == (n as int) * (2 * MAX_DERIVED_COORD as int));
}

} // verus!
