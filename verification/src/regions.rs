use vstd::prelude::*;

use crate::geometry::{Rect, lemma_intersect_contains};

verus! {

/// Total area of a sequence of rectangles (overlaps counted once per rectangle).
pub open spec fn sum_area(s: Seq<Rect>) -> nat
    decreases s.len(),
{
    if s.len() == 0 {
        0
    } else {
        sum_area(s.drop_last()) + s.last().area()
    }
}

/// How many rectangles of the sequence contain the point `(x, y)`.
pub open spec fn cover_count(s: Seq<Rect>, x: int, y: int) -> nat
    decreases s.len(),
{
    if s.len() == 0 {
        0
    } else {
        cover_count(s.drop_last(), x, y) + (if s.last().contains_point(x, y) {
            1nat
        } else {
            0nat
        })
    }
}

/// The sum of the areas that an occluder takes out of each rectangle.
pub open spec fn overlap_area(s: Seq<Rect>, occluder: Rect) -> nat
    decreases s.len(),
{
    if s.len() == 0 {
        0
    } else {
        overlap_area(s.drop_last(), occluder) + s.last().spec_intersect(occluder).area()
    }
}

pub open spec fn optional_piece(present: bool, r: Rect) -> Seq<Rect> {
    if present {
        seq![r]
    } else {
        seq![]
    }
}

/// The parts of `region` left over when `occluder` is cut out of it: a band above, a band
/// below, and the parts left and right of the overlap.
pub open spec fn spec_subtract_rect(region: Rect, occluder: Rect) -> Seq<Rect> {
    let i = region.spec_intersect(occluder);
    if i.spec_is_empty() {
        seq![region]
    } else {
        optional_piece(
            region.top < i.top,
            Rect { left: region.left, top: region.top, right: region.right, bottom: i.top },
        ) + optional_piece(
            i.bottom < region.bottom,
            Rect { left: region.left, top: i.bottom, right: region.right, bottom: region.bottom },
        ) + optional_piece(
            region.left < i.left,
            Rect { left: region.left, top: i.top, right: i.left, bottom: i.bottom },
        ) + optional_piece(
            i.right < region.right,
            Rect { left: i.right, top: i.top, right: region.right, bottom: i.bottom },
        )
    }
}

/// The rectangles of `s` that are not empty, in order.
pub open spec fn nonempty_only(s: Seq<Rect>) -> Seq<Rect>
    decreases s.len(),
{
    if s.len() == 0 {
        seq![]
    } else {
        nonempty_only(s.drop_last()) + optional_piece(!s.last().spec_is_empty(), s.last())
    }
}

/// Every region with the occluder cut out, empty pieces dropped, in order.
pub open spec fn spec_subtract_regions(regions: Seq<Rect>, occluder: Rect) -> Seq<Rect>
    decreases regions.len(),
{
    if regions.len() == 0 {
        seq![]
    } else {
        spec_subtract_regions(regions.drop_last(), occluder) + nonempty_only(
            spec_subtract_rect(regions.last(), occluder),
        )
    }
}

/// Smallest rectangle holding both arguments.
pub open spec fn hull(a: Rect, b: Rect) -> Rect {
    Rect {
        left: if a.left <= b.left { a.left } else { b.left },
        top: if a.top <= b.top { a.top } else { b.top },
        right: if a.right >= b.right { a.right } else { b.right },
        bottom: if a.bottom >= b.bottom { a.bottom } else { b.bottom },
    }
}

/// Bounding rectangle of a non-empty sequence, folded from the first rectangle on.
pub open spec fn spec_bounding(s: Seq<Rect>) -> Rect
    recommends
        s.len() > 0,
    decreases s.len(),
{
    if s.len() <= 1 {
        s[0]
    } else {
        hull(spec_bounding(s.drop_last()), s.last())
    }
}

pub open spec fn spec_bounding_rect(s: Seq<Rect>) -> Option<Rect> {
    if s.len() == 0 {
        None
    } else {
        Some(spec_bounding(s))
    }
}

pub open spec fn all_nonempty(s: Seq<Rect>) -> bool {
    forall|k: int| 0 <= k < s.len() ==> !(#[trigger] s[k]).spec_is_empty()
}

// ---------------------------------------------------------------------------------------
// Lemmas on sums and counts over sequences
pub proof fn lemma_sum_area_concat(a: Seq<Rect>, b: Seq<Rect>)
    ensures
        sum_area(a + b) == sum_area(a) + sum_area(b),
    decreases b.len(),
{
    if b.len() == 0 {
        assert(a + b =~= a);
    } else {
        lemma_sum_area_concat(a, b.drop_last());
        assert((a + b).drop_last() =~= a + b.drop_last());
    }
}

pub proof fn lemma_cover_count_concat(a: Seq<Rect>, b: Seq<Rect>, x: int, y: int)
    ensures
        cover_count(a + b, x, y) == cover_count(a, x, y) + cover_count(b, x, y),
    decreases b.len(),
{
    if b.len() == 0 {
        assert(a + b =~= a);
    } else {
        lemma_cover_count_concat(a, b.drop_last(), x, y);
        assert((a + b).drop_last() =~= a + b.drop_last());
    }
}

proof fn lemma_single(r: Rect, x: int, y: int)
    ensures
        sum_area(seq![r]) == r.area(),
        cover_count(seq![r], x, y) == (if r.contains_point(x, y) {
            1nat
        } else {
            0nat
        }),
        overlap_area(seq![r], r) == r.spec_intersect(r).area(),
{
    let e = Seq::<Rect>::empty();
    assert(seq![r].drop_last() =~= e);
    assert(seq![r].last() == r);
    assert(sum_area(e) == 0);
    assert(cover_count(e, x, y) == 0);
    assert(overlap_area(e, r) == 0);
}

proof fn lemma_optional_piece(c: bool, r: Rect, x: int, y: int)
    ensures
        sum_area(optional_piece(c, r)) == (if c {
            r.area()
        } else {
            0
        }),
        cover_count(optional_piece(c, r), x, y) == (if c && r.contains_point(x, y) {
            1nat
        } else {
            0nat
        }),
{
    lemma_single(r, x, y);
}

/// Dropping empty rectangles changes neither the area nor which points are covered.
pub proof fn lemma_nonempty_only(s: Seq<Rect>, x: int, y: int)
    ensures
        sum_area(nonempty_only(s)) == sum_area(s),
        cover_count(nonempty_only(s), x, y) == cover_count(s, x, y),
        all_nonempty(nonempty_only(s)),
        nonempty_only(s).len() <= s.len(),
    decreases s.len(),
{
    if s.len() > 0 {
        let last = s.last();
        lemma_nonempty_only(s.drop_last(), x, y);
        lemma_optional_piece(!last.spec_is_empty(), last, x, y);
        lemma_sum_area_concat(
            nonempty_only(s.drop_last()),
            optional_piece(!last.spec_is_empty(), last),
        );
        lemma_cover_count_concat(
            nonempty_only(s.drop_last()),
            optional_piece(!last.spec_is_empty(), last),
            x,
            y,
        );
        let n = nonempty_only(s);
        assert forall|k: int| 0 <= k < n.len() implies !(#[trigger] n[k]).spec_is_empty() by {
            if k < nonempty_only(s.drop_last()).len() {
                assert(n[k] == nonempty_only(s.drop_last())[k]);
            }
        }
    }
}

// ---------------------------------------------------------------------------------------
// Laws of subtracting one rectangle from another
/// Cutting `occluder` out of `region`: every point of `region` outside `occluder` lies in
/// exactly one piece, and no other point lies in any piece.
pub proof fn lemma_subtract_rect_cover(region: Rect, occluder: Rect, x: int, y: int)
    ensures
        cover_count(spec_subtract_rect(region, occluder), x, y) == (if region.contains_point(x, y)
            && !occluder.contains_point(x, y) {
            1nat
        } else {
            0nat
        }),
{
    lemma_intersect_contains(region, occluder);
    let i = region.spec_intersect(occluder);
    if i.spec_is_empty() {
        lemma_single(region, x, y);
        assert(!i.contains_point(x, y));
    } else {
        let t = Rect { left: region.left, top: region.top, right: region.right, bottom: i.top };
        let b = Rect {
            left: region.left,
            top: i.bottom,
            right: region.right,
            bottom: region.bottom,
        };
        let l = Rect { left: region.left, top: i.top, right: i.left, bottom: i.bottom };
        let r = Rect { left: i.right, top: i.top, right: region.right, bottom: i.bottom };
        let pt = optional_piece(region.top < i.top, t);
        let pb = optional_piece(i.bottom < region.bottom, b);
        let pl = optional_piece(region.left < i.left, l);
        let pr = optional_piece(i.right < region.right, r);
        lemma_optional_piece(region.top < i.top, t, x, y);
        lemma_optional_piece(i.bottom < region.bottom, b, x, y);
        lemma_optional_piece(region.left < i.left, l, x, y);
        lemma_optional_piece(i.right < region.right, r, x, y);
        lemma_cover_count_concat(pt, pb, x, y);
        lemma_cover_count_concat(pt + pb, pl, x, y);
        lemma_cover_count_concat(pt + pb + pl, pr, x, y);
    }
}

/// Cutting `occluder` out of `region` keeps the area: the pieces and the overlap together
/// have the area of `region`.
pub proof fn lemma_subtract_rect_area(region: Rect, occluder: Rect)
    ensures
        sum_area(spec_subtract_rect(region, occluder)) + region.spec_intersect(occluder).area()
            == region.area(),
{
    let i = region.spec_intersect(occluder);
    if i.spec_is_empty() {
        lemma_single(region, 0, 0);
    } else {
        let t = Rect { left: region.left, top: region.top, right: region.right, bottom: i.top };
        let b = Rect {
            left: region.left,
            top: i.bottom,
            right: region.right,
            bottom: region.bottom,
        };
        let l = Rect { left: region.left, top: i.top, right: i.left, bottom: i.bottom };
        let r = Rect { left: i.right, top: i.top, right: region.right, bottom: i.bottom };
        let pt = optional_piece(region.top < i.top, t);
        let pb = optional_piece(i.bottom < region.bottom, b);
        let pl = optional_piece(region.left < i.left, l);
        let pr = optional_piece(i.right < region.right, r);
        lemma_optional_piece(region.top < i.top, t, 0, 0);
        lemma_optional_piece(i.bottom < region.bottom, b, 0, 0);
        lemma_optional_piece(region.left < i.left, l, 0, 0);
        lemma_optional_piece(i.right < region.right, r, 0, 0);
        lemma_sum_area_concat(pt, pb);
        lemma_sum_area_concat(pt + pb, pl);
        lemma_sum_area_concat(pt + pb + pl, pr);
        let rl = region.left as int;
        let rt = region.top as int;
        let rr = region.right as int;
        let rb = region.bottom as int;
        let il = i.left as int;
        let it = i.top as int;
        let ir = i.right as int;
        let ib = i.bottom as int;
        assert(rl <= il < ir <= rr && rt <= it < ib <= rb);
        let at: int = if rt < it { (rr - rl) * (it - rt) } else { 0 };
        let ab: int = if ib < rb { (rr - rl) * (rb - ib) } else { 0 };
        let al: int = if rl < il { (il - rl) * (ib - it) } else { 0 };
        let ar: int = if ir < rr { (rr - ir) * (ib - it) } else { 0 };
        assert(at == (rr - rl) * (it - rt)) by (nonlinear_arith)
            requires
                at == (if rt < it { (rr - rl) * (it - rt) } else { 0 }),
                rt <= it,
        ;
        assert(ab == (rr - rl) * (rb - ib)) by (nonlinear_arith)
            requires
                ab == (if ib < rb { (rr - rl) * (rb - ib) } else { 0 }),
                ib <= rb,
        ;
        assert(al == (il - rl) * (ib - it)) by (nonlinear_arith)
            requires
                al == (if rl < il { (il - rl) * (ib - it) } else { 0 }),
                rl <= il,
        ;
        assert(ar == (rr - ir) * (ib - it)) by (nonlinear_arith)
            requires
                ar == (if ir < rr { (rr - ir) * (ib - it) } else { 0 }),
                ir <= rr,
        ;
        assert(at + ab + al + ar + (ir - il) * (ib - it) == (rr - rl) * (rb - rt))
            by (nonlinear_arith)
            requires
                at == (rr - rl) * (it - rt),
                ab == (rr - rl) * (rb - ib),
                al == (il - rl) * (ib - it),
                ar == (rr - ir) * (ib - it),
        ;
    }
}

/// Subtracting an occluder from a list of regions: a point stays covered exactly as often
/// as before when it is outside the occluder, and is no longer covered inside it.
pub proof fn lemma_subtract_regions_cover(regions: Seq<Rect>, occluder: Rect, x: int, y: int)
    ensures
        cover_count(spec_subtract_regions(regions, occluder), x, y) == (if occluder.contains_point(
            x,
            y,
        ) {
            0
        } else {
            cover_count(regions, x, y)
        }),
    decreases regions.len(),
{
    if regions.len() > 0 {
        let last = regions.last();
        lemma_subtract_regions_cover(regions.drop_last(), occluder, x, y);
        lemma_subtract_rect_cover(last, occluder, x, y);
        lemma_nonempty_only(spec_subtract_rect(last, occluder), x, y);
        lemma_cover_count_concat(
            spec_subtract_regions(regions.drop_last(), occluder),
            nonempty_only(spec_subtract_rect(last, occluder)),
            x,
            y,
        );
    }
}

/// Subtracting an occluder from a list of regions removes exactly the overlapping area.
pub proof fn lemma_subtract_regions_area(regions: Seq<Rect>, occluder: Rect)
    ensures
        sum_area(spec_subtract_regions(regions, occluder)) + overlap_area(regions, occluder)
            == sum_area(regions),
        sum_area(spec_subtract_regions(regions, occluder)) <= sum_area(regions),
        all_nonempty(spec_subtract_regions(regions, occluder)),
    decreases regions.len(),
{
    if regions.len() > 0 {
        let last = regions.last();
        let prev = spec_subtract_regions(regions.drop_last(), occluder);
        let add = nonempty_only(spec_subtract_rect(last, occluder));
        lemma_subtract_regions_area(regions.drop_last(), occluder);
        lemma_subtract_rect_area(last, occluder);
        lemma_nonempty_only(spec_subtract_rect(last, occluder), 0, 0);
        lemma_sum_area_concat(prev, add);
        let n = prev + add;
        assert forall|k: int| 0 <= k < n.len() implies !(#[trigger] n[k]).spec_is_empty() by {
            if k < prev.len() {
                assert(n[k] == prev[k]);
            } else {
                assert(n[k] == add[k - prev.len()]);
            }
        }
    }
}

/// Every rectangle lies within the bounding rectangle of a sequence that holds it.
pub proof fn lemma_bounding_contains(s: Seq<Rect>, k: int)
    requires
        0 <= k < s.len(),
    ensures
        spec_bounding(s).left <= s[k].left,
        spec_bounding(s).top <= s[k].top,
        spec_bounding(s).right >= s[k].right,
        spec_bounding(s).bottom >= s[k].bottom,
    decreases s.len(),
{
    if s.len() > 1 && k < s.len() - 1 {
        lemma_bounding_contains(s.drop_last(), k);
    }
}

/// Each side of the bounding rectangle of a non-empty sequence is the same side of one of
/// its rectangles: nothing is added beyond the rectangles themselves.
pub proof fn lemma_bounding_attained(s: Seq<Rect>)
    requires
        s.len() > 0,
    ensures
        exists|k: int| 0 <= k < s.len() && spec_bounding(s).left == (#[trigger] s[k]).left,
        exists|k: int| 0 <= k < s.len() && spec_bounding(s).top == (#[trigger] s[k]).top,
        exists|k: int| 0 <= k < s.len() && spec_bounding(s).right == (#[trigger] s[k]).right,
        exists|k: int| 0 <= k < s.len() && spec_bounding(s).bottom == (#[trigger] s[k]).bottom,
    decreases s.len(),
{
    if s.len() <= 1 {
        assert(spec_bounding(s) == s[0]);
    } else {
        let p = s.drop_last();
        let n = s.len() - 1;
        lemma_bounding_attained(p);
        let kl = choose|k: int| 0 <= k < p.len() && spec_bounding(p).left == (#[trigger] p[k]).left;
        let kt = choose|k: int| 0 <= k < p.len() && spec_bounding(p).top == (#[trigger] p[k]).top;
        let kr = choose|k: int|
            0 <= k < p.len() && spec_bounding(p).right == (#[trigger] p[k]).right;
        let kb = choose|k: int|
            0 <= k < p.len() && spec_bounding(p).bottom == (#[trigger] p[k]).bottom;
        assert(p[kl] == s[kl] && p[kt] == s[kt] && p[kr] == s[kr] && p[kb] == s[kb]);
        assert(s.last() == s[n]);
        let b = spec_bounding(s);
        assert(b.left == s[kl].left || b.left == s[n].left);
        assert(b.top == s[kt].top || b.top == s[n].top);
        assert(b.right == s[kr].right || b.right == s[n].right);
        assert(b.bottom == s[kb].bottom || b.bottom == s[n].bottom);
    }
}

/// A rectangle of the sequence that contains a point makes the point covered.
pub proof fn lemma_member_covers(s: Seq<Rect>, k: int, x: int, y: int)
    requires
        0 <= k < s.len(),
        s[k].contains_point(x, y),
    ensures
        cover_count(s, x, y) >= 1,
    decreases s.len(),
{
    if k < s.len() - 1 {
        lemma_member_covers(s.drop_last(), k, x, y);
    }
}

/// Two different rectangles of the sequence that contain a point cover it twice.
proof fn lemma_two_members_cover(s: Seq<Rect>, i: int, j: int, x: int, y: int)
    requires
        0 <= i < j < s.len(),
        s[i].contains_point(x, y),
        s[j].contains_point(x, y),
    ensures
        cover_count(s, x, y) >= 2,
    decreases s.len(),
{
    if j < s.len() - 1 {
        lemma_two_members_cover(s.drop_last(), i, j, x, y);
    } else {
        lemma_member_covers(s.drop_last(), i, x, y);
    }
}

/// No two rectangles of the sequence overlap.
pub open spec fn pairwise_disjoint(s: Seq<Rect>) -> bool {
    forall|i: int, j: int|
        0 <= i < s.len() && 0 <= j < s.len() && i != j ==> (#[trigger] s[i]).spec_intersect(
            #[trigger] s[j],
        ).spec_is_empty()
}

/// Rectangles that share no point have an empty intersection, and the other way round.
pub proof fn lemma_disjoint_points(a: Rect, b: Rect)
    ensures
        a.spec_intersect(b).spec_is_empty() <==> (forall|x: int, y: int|
            !(#[trigger] a.contains_point(x, y) && b.contains_point(x, y))),
{
    lemma_intersect_contains(a, b);
    let r = a.spec_intersect(b);
    if !r.spec_is_empty() {
        assert(r.contains_point(r.left as int, r.top as int));
        assert(a.contains_point(r.left as int, r.top as int));
    }
}

/// Pairwise disjoint rectangles cover each point at most once.
proof fn lemma_disjoint_cover_at_most_once(s: Seq<Rect>, x: int, y: int)
    requires
        pairwise_disjoint(s),
    ensures
        cover_count(s, x, y) <= 1,
    decreases s.len(),
{
    if s.len() > 0 {
        let d = s.drop_last();
        assert forall|i: int, j: int|
            0 <= i < d.len() && 0 <= j < d.len() && i != j implies (#[trigger] d[i]).spec_intersect(
            #[trigger] d[j],
        ).spec_is_empty() by {
            assert(d[i] == s[i] && d[j] == s[j]);
        }
        lemma_disjoint_cover_at_most_once(d, x, y);
        if s.last().contains_point(x, y) && cover_count(d, x, y) >= 1 {
            if forall|k: int| 0 <= k < d.len() ==> !(#[trigger] d[k]).contains_point(x, y) {
                lemma_no_member_no_cover(d, x, y);
            } else {
                let k = choose|k: int| 0 <= k < d.len() && (#[trigger] d[k]).contains_point(x, y);
                let n = s.len() - 1;
                assert(s[k] == d[k]);
                assert(s[k].spec_intersect(s[n]).spec_is_empty());
                lemma_disjoint_points(s[k], s[n]);
            }
        }
    }
}

/// A point that no rectangle contains is not covered.
proof fn lemma_no_member_no_cover(s: Seq<Rect>, x: int, y: int)
    requires
        forall|k: int| 0 <= k < s.len() ==> !(#[trigger] s[k]).contains_point(x, y),
    ensures
        cover_count(s, x, y) == 0,
    decreases s.len(),
{
    if s.len() > 0 {
        let d = s.drop_last();
        assert forall|k: int| 0 <= k < d.len() implies !(#[trigger] d[k]).contains_point(x, y) by {
            assert(d[k] == s[k]);
        }
        lemma_no_member_no_cover(d, x, y);
    }
}

/// Rectangles that cover each point at most once are pairwise disjoint.
proof fn lemma_cover_at_most_once_disjoint(s: Seq<Rect>)
    requires
        forall|x: int, y: int| #[trigger] cover_count(s, x, y) <= 1,
    ensures
        pairwise_disjoint(s),
{
    assert forall|i: int, j: int|
        0 <= i < s.len() && 0 <= j < s.len() && i != j implies (#[trigger] s[i]).spec_intersect(
        #[trigger] s[j],
    ).spec_is_empty() by {
        lemma_disjoint_points(s[i], s[j]);
        if !s[i].spec_intersect(s[j]).spec_is_empty() {
            let (x, y) = choose|x: int, y: int| s[i].contains_point(x, y) && s[j].contains_point(x, y);
            if i < j {
                lemma_two_members_cover(s, i, j, x, y);
            } else {
                lemma_two_members_cover(s, j, i, x, y);
            }
            assert(cover_count(s, x, y) <= 1);
        }
    }
}

/// Rectangles that meet the occluder in no point are left whole by subtracting it.
proof fn lemma_subtract_untouched(s: Seq<Rect>, o: Rect)
    requires
        all_nonempty(s),
        forall|k: int| 0 <= k < s.len() ==> (#[trigger] s[k]).spec_intersect(o).spec_is_empty(),
    ensures
        spec_subtract_regions(s, o) == s,
    decreases s.len(),
{
    if s.len() > 0 {
        let d = s.drop_last();
        assert(all_nonempty(d)) by {
            assert forall|k: int| 0 <= k < d.len() implies !(#[trigger] d[k]).spec_is_empty() by {
                assert(d[k] == s[k]);
            }
        }
        assert forall|k: int| 0 <= k < d.len() implies (#[trigger] d[k]).spec_intersect(
            o,
        ).spec_is_empty() by {
            assert(d[k] == s[k]);
        }
        lemma_subtract_untouched(d, o);
        let last = s.last();
        assert(!s[s.len() - 1].spec_is_empty());
        assert(s[s.len() - 1].spec_intersect(o).spec_is_empty());
        assert(spec_subtract_rect(last, o) == seq![last]);
        let e = Seq::<Rect>::empty();
        assert(seq![last].drop_last() =~= e);
        assert(nonempty_only(e) == e);
        assert(nonempty_only(seq![last]) =~= seq![last]);
        assert(d + seq![last] =~= s);
    }
}

/// The law of subtracting an occluder from a list of regions: no remaining piece meets the
/// occluder, so subtracting it again changes nothing; every piece is non-empty; exactly the
/// overlapping area is removed; and regions that did not overlap give pieces that do not
/// overlap.
pub proof fn lemma_subtract_regions_law(regions: Seq<Rect>, occluder: Rect)
    ensures
        forall|k: int|
            0 <= k < spec_subtract_regions(regions, occluder).len() ==> (
            #[trigger] spec_subtract_regions(regions, occluder)[k]).spec_intersect(
                occluder,
            ).spec_is_empty(),
        spec_subtract_regions(spec_subtract_regions(regions, occluder), occluder)
            == spec_subtract_regions(regions, occluder),
        all_nonempty(spec_subtract_regions(regions, occluder)),
        sum_area(spec_subtract_regions(regions, occluder)) + overlap_area(regions, occluder)
            == sum_area(regions),
        pairwise_disjoint(regions) ==> pairwise_disjoint(spec_subtract_regions(regions, occluder)),
{
    let s = spec_subtract_regions(regions, occluder);
    lemma_subtract_regions_area(regions, occluder);
    assert forall|k: int| 0 <= k < s.len() implies (#[trigger] s[k]).spec_intersect(
        occluder,
    ).spec_is_empty() by {
        lemma_disjoint_points(s[k], occluder);
        if !s[k].spec_intersect(occluder).spec_is_empty() {
            let (x, y) = choose|x: int, y: int|
                s[k].contains_point(x, y) && occluder.contains_point(x, y);
            lemma_member_covers(s, k, x, y);
            lemma_subtract_regions_cover(regions, occluder, x, y);
        }
    }
    lemma_subtract_untouched(s, occluder);
    if pairwise_disjoint(regions) {
        assert forall|x: int, y: int| #[trigger] cover_count(s, x, y) <= 1 by {
            lemma_subtract_regions_cover(regions, occluder, x, y);
            lemma_disjoint_cover_at_most_once(regions, x, y);
        }
        lemma_cover_at_most_once_disjoint(s);
    }
}

// ---------------------------------------------------------------------------------------
// Executable functions
/// Number of points covered by `rect`; zero for an empty rectangle.
pub fn rect_area(rect: Rect) -> (r: u64)
    ensures
        r == rect.area(),
{
    let w: i64 = (rect.right as i64) - (rect.left as i64);
    let h: i64 = (rect.bottom as i64) - (rect.top as i64);
    if w <= 0 || h <= 0 {
        0
    } else {
        let wu: u64 = w as u64;
        let hu: u64 = h as u64;
        assert(wu * hu <= 0xffff_ffffu64 * 0xffff_ffffu64) by (nonlinear_arith)
            requires
                0 < wu <= 0xffff_ffffu64,
                0 < hu <= 0xffff_ffffu64,
        ;
        wu * hu
    }
}

proof fn lemma_sum_area_prefix(s: Seq<Rect>, i: int)
    requires
        0 <= i <= s.len(),
    ensures
        sum_area(s.take(i)) <= sum_area(s),
    decreases s.len() - i,
{
    if i < s.len() {
        lemma_sum_area_prefix(s, i + 1);
        assert(s.take(i + 1).drop_last() =~= s.take(i));
    } else {
        assert(s.take(i) =~= s);
    }
}

/// Sum of the areas of the regions.
pub fn regions_area(regions: &[Rect]) -> (r: u64)
    requires
        sum_area(regions@) <= u64::MAX,
    ensures
        r == sum_area(regions@),
{
    let mut total: u64 = 0;
    let mut i: usize = 0;
    while i < regions.len()
        invariant
            0 <= i <= regions@.len(),
            total == sum_area(regions@.take(i as int)),
            sum_area(regions@) <= u64::MAX,
        decreases regions@.len() - i,
    {
        proof {
            assert(regions@.take(i + 1).drop_last() =~= regions@.take(i as int));
            lemma_sum_area_prefix(regions@, i + 1);
        }
        let a = rect_area(regions[i]);
        total = total + a;
        i = i + 1;
    }
    assert(regions@.take(i as int) =~= regions@);
    total
}

/// Smallest rectangle holding every region, or `None` for no regions.
pub fn bounding_rect(regions: &[Rect]) -> (r: Option<Rect>)
    ensures
        r == spec_bounding_rect(regions@),
        r matches Some(b) ==> forall|k: int|
            0 <= k < regions@.len() ==> b.left <= (#[trigger] regions@[k]).left && b.top
                <= regions@[k].top && b.right >= regions@[k].right && b.bottom
                >= regions@[k].bottom,
        r is None <==> regions@.len() == 0,
        r matches Some(b) ==> (exists|k: int|
            0 <= k < regions@.len() && b.left == (#[trigger] regions@[k]).left) && (exists|k: int|
            0 <= k < regions@.len() && b.top == (#[trigger] regions@[k]).top) && (exists|k: int|
            0 <= k < regions@.len() && b.right == (#[trigger] regions@[k]).right) && (exists|
            k: int,
        |
            0 <= k < regions@.len() && b.bottom == (#[trigger] regions@[k]).bottom),
{
    if regions.len() == 0 {
        return None;
    }
    let mut current = regions[0];
    let mut i: usize = 1;
    assert(regions@.take(1) =~= seq![regions@[0]]);
    while i < regions.len()
        invariant
            1 <= i <= regions@.len(),
            current == spec_bounding(regions@.take(i as int)),
        decreases regions@.len() - i,
    {
        let rect = regions[i];
        proof {
            assert(regions@.take(i + 1).drop_last() =~= regions@.take(i as int));
        }
        current = Rect::new(
            if current.left <= rect.left { current.left } else { rect.left },
            if current.top <= rect.top { current.top } else { rect.top },
            if current.right >= rect.right { current.right } else { rect.right },
            if current.bottom >= rect.bottom { current.bottom } else { rect.bottom },
        );
        i = i + 1;
    }
    assert(regions@.take(i as int) =~= regions@);
    proof {
        assert forall|k: int| 0 <= k < regions@.len() implies current.left <= (
        #[trigger] regions@[k]).left && current.top <= regions@[k].top && current.right
            >= regions@[k].right && current.bottom >= regions@[k].bottom by {
            lemma_bounding_contains(regions@, k);
        }
        lemma_bounding_attained(regions@);
    }
    Some(current)
}

/// The parts of `region` that `occluder` does not cover.
pub fn subtract_rect(region: Rect, occluder: Rect) -> (r: Vec<Rect>)
    ensures
        r@ == spec_subtract_rect(region, occluder),
        forall|x: int, y: int|
            #[trigger] cover_count(r@, x, y) == (if region.contains_point(x, y)
                && !occluder.contains_point(x, y) {
                1nat
            } else {
                0nat
            }),
        sum_area(r@) + region.spec_intersect(occluder).area() == region.area(),
        r@.len() <= 4,
{
    proof {
        lemma_subtract_rect_area(region, occluder);
        assert forall|x: int, y: int|
            #[trigger] cover_count(spec_subtract_rect(region, occluder), x, y) == (if region.contains_point(x, y)
                && !occluder.contains_point(x, y) {
                1nat
            } else {
                0nat
            }) by {
            lemma_subtract_rect_cover(region, occluder, x, y);
        }
    }
    let intersection = region.intersect(occluder);
    if intersection.is_empty() {
        let mut v = Vec::new();
        v.push(region);
        return v;
    }
    let ghost i = intersection;
    let mut result: Vec<Rect> = Vec::new();
    if region.top < intersection.top {
        result.push(Rect::new(region.left, region.top, region.right, intersection.top));
    }
    assert(result@ =~= optional_piece(
        region.top < i.top,
        Rect { left: region.left, top: region.top, right: region.right, bottom: i.top },
    ));
    let ghost s1 = result@;
    if intersection.bottom < region.bottom {
        result.push(Rect::new(region.left, intersection.bottom, region.right, region.bottom));
    }
    assert(result@ =~= s1 + optional_piece(
        i.bottom < region.bottom,
        Rect { left: region.left, top: i.bottom, right: region.right, bottom: region.bottom },
    ));
    let ghost s2 = result@;
    if region.left < intersection.left {
        result.push(Rect::new(region.left, intersection.top, intersection.left, intersection.bottom));
    }
    assert(result@ =~= s2 + optional_piece(
        region.left < i.left,
        Rect { left: region.left, top: i.top, right: i.left, bottom: i.bottom },
    ));
    let ghost s3 = result@;
    if intersection.right < region.right {
        result.push(Rect::new(intersection.right, intersection.top, region.right, intersection.bottom));
    }
    assert(result@ =~= s3 + optional_piece(
        i.right < region.right,
        Rect { left: i.right, top: i.top, right: region.right, bottom: i.bottom },
    ));
    result
}

/// Cuts `occluder` out of every region and keeps the non-empty pieces, in order.
pub fn subtract_regions(regions: Vec<Rect>, occluder: Rect) -> (r: Vec<Rect>)
    ensures
        r@ == spec_subtract_regions(regions@, occluder),
{
    let mut result: Vec<Rect> = Vec::new();
    let mut i: usize = 0;
    while i < regions.len()
        invariant
            0 <= i <= regions@.len(),
            result@ == spec_subtract_regions(regions@.take(i as int), occluder),
        decreases regions@.len() - i,
    {
        let pieces = subtract_rect(regions[i], occluder);
        let ghost before = result@;
        let mut j: usize = 0;
        while j < pieces.len()
            invariant
                0 <= j <= pieces@.len(),
                pieces@ == spec_subtract_rect(regions@[i as int], occluder),
                result@ == before + nonempty_only(pieces@.take(j as int)),
            decreases pieces@.len() - j,
        {
            proof {
                assert(pieces@.take(j + 1).drop_last() =~= pieces@.take(j as int));
                assert(pieces@.take(j + 1).last() == pieces@[j as int]);
            }
            let piece = pieces[j];
            if !piece.is_empty() {
                result.push(piece);
            }
            proof {
                assert(result@ =~= before + nonempty_only(pieces@.take(j + 1)));
            }
            j = j + 1;
        }
        proof {
            assert(pieces@.take(j as int) =~= pieces@);
            assert(regions@.take(i + 1).drop_last() =~= regions@.take(i as int));
            assert(regions@.take(i + 1).last() == regions@[i as int]);
        }
        i = i + 1;
    }
    assert(regions@.take(i as int) =~= regions@);
    result
}

} // verus!
