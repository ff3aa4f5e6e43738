use vstd::prelude::*;
use vstd::string::StringExecFns;

use crate::error::ScreenshotError;
use crate::geometry::Rect;
use crate::regions::{
    all_nonempty, bounding_rect, cover_count, lemma_disjoint_points, lemma_member_covers,
    overlap_area, lemma_subtract_regions_area,
    lemma_subtract_regions_cover, optional_piece, rect_area, regions_area, spec_bounding_rect,
    spec_subtract_regions, subtract_regions, sum_area,
};
use crate::types::{ScreenId, WindowId, WindowInfo, WindowLayoutInfo};

verus! {

/// Extended window style bit of tool windows.
pub const WS_EX_TOOLWINDOW: u32 = 0x0000_0080;

/// Extended window style bit of windows that do not become the foreground window.
pub const WS_EX_NOACTIVATE: u32 = 0x0800_0000;

/// A window as enumerated from the top of the z-order, with its rectangle clipped to the
/// work area of its monitor.
#[derive(Debug)]
pub struct WindowSnapshot {
    pub window: WindowInfo,
    pub window_rect: Rect,
    pub clipped_rect: Rect,
}

/// A window is offered for capture when it is visible, not minimized, neither a tool window
/// nor a no-activate window, still a window, and not excluded from capture by its display
/// affinity (`affinity` is `None` when the affinity could not be read).
pub open spec fn spec_should_include_window(
    visible: bool,
    iconic: bool,
    ex_style: u32,
    is_window: bool,
    affinity: Option<u32>,
) -> bool {
    &&& visible
    &&& !iconic
    &&& ex_style & WS_EX_TOOLWINDOW == 0
    &&& ex_style & WS_EX_NOACTIVATE == 0
    &&& is_window
    &&& !(affinity matches Some(a) && a != 0)
}

pub fn should_include_window(
    visible: bool,
    iconic: bool,
    ex_style: u32,
    is_window: bool,
    affinity: Option<u32>,
) -> (r: bool)
    ensures
        r == spec_should_include_window(visible, iconic, ex_style, is_window, affinity),
{
    if !visible {
        return false;
    }
    if iconic {
        return false;
    }
    if ex_style & WS_EX_TOOLWINDOW != 0 {
        return false;
    }
    if ex_style & WS_EX_NOACTIVATE != 0 {
        return false;
    }
    if !is_window {
        return false;
    }
    if let Some(a) = affinity {
        if a != 0 {
            return false;
        }
    }
    true
}

impl WindowSnapshot {
    /// Builds the snapshot of a window from what the system reported of it: no snapshot for
    /// an untitled window, an empty window rectangle, or a window outside the work area of its
    /// monitor. `hmonitor` is zero when the window has no monitor.
    pub fn from_parts(
        hwnd: u64,
        z_index: i32,
        title: String,
        module_file_name: String,
        window_rect: Rect,
        hmonitor: u64,
        work_rect: Rect,
    ) -> (r: Option<Self>)
        ensures
            r is Some <==> (title@.len() > 0 && !window_rect.spec_is_empty()
                && !window_rect.spec_intersect(work_rect).spec_is_empty()),
            r matches Some(s) ==> {
                &&& s.window == (WindowInfo {
                    id: WindowId(hwnd),
                    title,
                    module_file_name,
                    rect: window_rect,
                    z_index,
                    screen_id: if hmonitor == 0 {
                        None
                    } else {
                        Some(ScreenId(hmonitor))
                    },
                    hwnd,
                })
                &&& s.window_rect == window_rect
                &&& s.clipped_rect == window_rect.spec_intersect(work_rect)
            },
    {
        if title.as_str().is_empty() {
            return None;
        }
        if window_rect.is_empty() {
            return None;
        }
        let clipped_rect = window_rect.intersect(work_rect);
        if clipped_rect.is_empty() {
            return None;
        }
        Some(WindowSnapshot {
            window: WindowInfo {
                id: WindowId(hwnd),
                title,
                module_file_name,
                rect: window_rect,
                z_index,
                screen_id: if hmonitor == 0 {
                    None
                } else {
                    Some(ScreenId(hmonitor))
                },
                hwnd,
            },
            window_rect,
            clipped_rect,
        })
    }
}

// ---------------------------------------------------------------------------------------
// Occlusion
/// What is visible of a window before any window above it is considered.
pub open spec fn initial_visible(clipped: Rect) -> Seq<Rect> {
    optional_piece(!clipped.spec_is_empty(), clipped)
}

/// What remains of `start` once every window of `above` is cut out of it, in order.
pub open spec fn visible_after(start: Seq<Rect>, above: Seq<WindowSnapshot>) -> Seq<Rect>
    decreases above.len(),
{
    if above.len() == 0 {
        start
    } else {
        spec_subtract_regions(visible_after(start, above.drop_last()), above.last().clipped_rect)
    }
}

/// The windows of `above`, in order, whose cut took visible area away.
pub open spec fn occluders_of(start: Seq<Rect>, above: Seq<WindowSnapshot>) -> Seq<WindowId>
    decreases above.len(),
{
    if above.len() == 0 {
        seq![]
    } else {
        occluders_of(start, above.drop_last()) + (if sum_area(visible_after(start, above))
            < sum_area(visible_after(start, above.drop_last())) {
            seq![above.last().window.id]
        } else {
            seq![]
        })
    }
}

/// Some window of `above` covers the point `(x, y)`.
pub open spec fn covered_by_any(above: Seq<WindowSnapshot>, x: int, y: int) -> bool {
    exists|k: int| 0 <= k < above.len() && (#[trigger] above[k]).clipped_rect.contains_point(x, y)
}

/// The layout of window `i` of `snaps` (ordered from the top), as its fields say.
pub open spec fn layout_matches(l: WindowLayoutInfo, snaps: Seq<WindowSnapshot>, i: int) -> bool {
    let s = snaps[i];
    let start = initial_visible(s.clipped_rect);
    let above = snaps.take(i);
    &&& l.window == s.window
    &&& l.window_rect == s.window_rect
    &&& l.clipped_rect == s.clipped_rect
    &&& l.visible_regions@ == visible_after(start, above)
    &&& l.visible_bounds == spec_bounding_rect(l.visible_regions@)
    &&& l.total_area == s.clipped_rect.area()
    &&& l.visible_area == sum_area(l.visible_regions@)
    &&& l.visible_area <= l.total_area
    &&& l.occluded_area == l.total_area - l.visible_area
    &&& l.is_occluded == (l.visible_area < l.total_area)
    &&& l.is_fully_occluded == (l.visible_area == 0)
    &&& l.occluded_by@ == occluders_of(start, above)
}

/// A point stays visible exactly when no window above covers it; the visible area never
/// grows; every visible piece is non-empty once one window has been cut out.
pub proof fn lemma_visible_after(start: Seq<Rect>, above: Seq<WindowSnapshot>, x: int, y: int)
    ensures
        cover_count(visible_after(start, above), x, y) == (if covered_by_any(above, x, y) {
            0
        } else {
            cover_count(start, x, y)
        }),
        sum_area(visible_after(start, above)) <= sum_area(start),
        above.len() > 0 ==> all_nonempty(visible_after(start, above)),
    decreases above.len(),
{
    if above.len() > 0 {
        let prev = visible_after(start, above.drop_last());
        let o = above.last().clipped_rect;
        lemma_visible_after(start, above.drop_last(), x, y);
        lemma_subtract_regions_cover(prev, o, x, y);
        lemma_subtract_regions_area(prev, o);
        if covered_by_any(above.drop_last(), x, y) {
            let k = choose|k: int|
                0 <= k < above.drop_last().len() && (#[trigger] above.drop_last()[k]).clipped_rect.contains_point(
                    x,
                    y,
                );
            assert(above[k] == above.drop_last()[k]);
        }
        if o.contains_point(x, y) {
            assert(above[above.len() - 1].clipped_rect.contains_point(x, y));
        }
        if covered_by_any(above, x, y) && !o.contains_point(x, y) {
            let k = choose|k: int|
                0 <= k < above.len() && (#[trigger] above[k]).clipped_rect.contains_point(x, y);
            assert(k < above.len() - 1);
            assert(above.drop_last()[k] == above[k]);
        }
    }
}

/// The law of occlusion: a point lies in exactly one visible region of a window when it
/// lies in the window's clipped rectangle and in no clipped rectangle of a window above it,
/// and in none otherwise.
pub proof fn lemma_visible_points(clipped: Rect, above: Seq<WindowSnapshot>, x: int, y: int)
    ensures
        cover_count(visible_after(initial_visible(clipped), above), x, y) == (if clipped.contains_point(x, y)
            && !covered_by_any(above, x, y) {
            1nat
        } else {
            0nat
        }),
{
    lemma_visible_after(initial_visible(clipped), above, x, y);
    let e = Seq::<Rect>::empty();
    assert(seq![clipped].drop_last() =~= e);
    assert(cover_count(e, x, y) == 0);
    if clipped.spec_is_empty() {
        assert(!clipped.contains_point(x, y));
    }
}

proof fn lemma_nonempty_sum_zero(s: Seq<Rect>)
    requires
        all_nonempty(s),
    ensures
        sum_area(s) == 0 <==> s.len() == 0,
    decreases s.len(),
{
    if s.len() > 0 {
        let last = s.last();
        assert(!s[s.len() - 1].spec_is_empty());
        assert(last.area() > 0) by (nonlinear_arith)
            requires
                !last.spec_is_empty(),
                last.area() == (if last.spec_is_empty() {
                    0
                } else {
                    (last.spec_width() * last.spec_height()) as nat
                }),
        ;
    }
}

/// A window is fully occluded, its visible area zero, exactly when every point of its
/// clipped rectangle is covered by some window above it.
pub proof fn lemma_fully_occluded_iff_covered(clipped: Rect, above: Seq<WindowSnapshot>)
    ensures
        sum_area(visible_after(initial_visible(clipped), above)) == 0 <==> (forall|x: int, y: int|
            clipped.contains_point(x, y) ==> #[trigger] covered_by_any(above, x, y)),
{
    let start = initial_visible(clipped);
    let v = visible_after(start, above);
    lemma_visible_after(start, above, 0, 0);
    if above.len() == 0 {
        if !clipped.spec_is_empty() {
            assert(all_nonempty(v));
        } else {
            assert(v.len() == 0);
        }
    }
    lemma_nonempty_sum_zero(v);
    if sum_area(v) == 0 {
        assert forall|x: int, y: int| clipped.contains_point(x, y) implies #[trigger] covered_by_any(
            above,
            x,
            y,
        ) by {
            lemma_visible_points(clipped, above, x, y);
            assert(v.len() == 0);
            assert(cover_count(v, x, y) == 0);
        }
    } else {
        let r = v[0];
        assert(!r.spec_is_empty());
        lemma_member_covers(v, 0, r.left as int, r.top as int);
        lemma_visible_points(clipped, above, r.left as int, r.top as int);
    }
}

/// Every occluder of a window is one of the windows above it.
pub proof fn lemma_occluders_are_above(start: Seq<Rect>, above: Seq<WindowSnapshot>, k: int)
    requires
        0 <= k < occluders_of(start, above).len(),
    ensures
        exists|j: int| 0 <= j < above.len() && (#[trigger] above[j]).window.id == occluders_of(start, above)[k],
    decreases above.len(),
{
    let prev = occluders_of(start, above.drop_last());
    if k < prev.len() {
        lemma_occluders_are_above(start, above.drop_last(), k);
        let j = choose|j: int|
            0 <= j < above.drop_last().len() && (#[trigger] above.drop_last()[j]).window.id == prev[k];
        assert(above[j] == above.drop_last()[j]);
    } else {
        assert(above[above.len() - 1].window.id == occluders_of(start, above)[k]);
    }
}

proof fn lemma_overlap_area_zero(s: Seq<Rect>, o: Rect)
    requires
        forall|m: int| 0 <= m < s.len() ==> (#[trigger] s[m]).spec_intersect(o).spec_is_empty(),
    ensures
        overlap_area(s, o) == 0,
    decreases s.len(),
{
    if s.len() > 0 {
        let d = s.drop_last();
        assert forall|m: int| 0 <= m < d.len() implies (#[trigger] d[m]).spec_intersect(
            o,
        ).spec_is_empty() by {
            assert(d[m] == s[m]);
        }
        lemma_overlap_area_zero(d, o);
        assert(s[s.len() - 1].spec_intersect(o).spec_is_empty());
    }
}

/// Cutting out a window whose clipped rectangle does not meet the window's own clipped
/// rectangle takes no visible area away.
pub proof fn lemma_disjoint_cut_keeps_area(clipped: Rect, above: Seq<WindowSnapshot>, j: int)
    requires
        0 <= j < above.len(),
        clipped.spec_intersect(above[j].clipped_rect).spec_is_empty(),
    ensures
        sum_area(visible_after(initial_visible(clipped), above.take(j + 1))) == sum_area(
            visible_after(initial_visible(clipped), above.take(j)),
        ),
{
    let start = initial_visible(clipped);
    let prev = visible_after(start, above.take(j));
    let o = above[j].clipped_rect;
    assert(above.take(j + 1).drop_last() =~= above.take(j));
    assert(above.take(j + 1).last() == above[j]);
    assert forall|m: int| 0 <= m < prev.len() implies (#[trigger] prev[m]).spec_intersect(
        o,
    ).spec_is_empty() by {
        lemma_disjoint_points(prev[m], o);
        if !prev[m].spec_intersect(o).spec_is_empty() {
            let (x, y) = choose|x: int, y: int| prev[m].contains_point(x, y) && o.contains_point(x, y);
            lemma_member_covers(prev, m, x, y);
            lemma_visible_points(clipped, above.take(j), x, y);
            lemma_disjoint_points(clipped, o);
        }
    }
    lemma_overlap_area_zero(prev, o);
    lemma_subtract_regions_area(prev, o);
}

/// Every listed occluder of a window is a window above it whose cut took visible area away,
/// so in particular one whose clipped rectangle meets the window's own.
pub proof fn lemma_occluders_took_area(clipped: Rect, above: Seq<WindowSnapshot>, k: int)
    requires
        0 <= k < occluders_of(initial_visible(clipped), above).len(),
    ensures
        exists|j: int|
            0 <= j < above.len() && (#[trigger] above[j]).window.id == occluders_of(
                initial_visible(clipped),
                above,
            )[k] && sum_area(visible_after(initial_visible(clipped), above.take(j + 1)))
                < sum_area(visible_after(initial_visible(clipped), above.take(j)))
                && !clipped.spec_intersect(above[j].clipped_rect).spec_is_empty(),
    decreases above.len(),
{
    let start = initial_visible(clipped);
    let d = above.drop_last();
    let prev = occluders_of(start, d);
    if k < prev.len() {
        lemma_occluders_took_area(clipped, d, k);
        let j = choose|j: int|
            0 <= j < d.len() && (#[trigger] d[j]).window.id == prev[k] && sum_area(
                visible_after(start, d.take(j + 1)),
            ) < sum_area(visible_after(start, d.take(j)))
                && !clipped.spec_intersect(d[j].clipped_rect).spec_is_empty();
        assert(d.take(j + 1) =~= above.take(j + 1));
        assert(d.take(j) =~= above.take(j));
        assert(above[j] == d[j]);
    } else {
        let j = above.len() - 1;
        assert(above.take(j + 1) =~= above);
        assert(above.take(j) =~= d);
        if clipped.spec_intersect(above[j].clipped_rect).spec_is_empty() {
            lemma_disjoint_cut_keeps_area(clipped, above, j);
        }
        assert(above[j].window.id == occluders_of(start, above)[k]);
    }
}

/// Every window above whose cut took visible area away is listed among the occluders.
pub proof fn lemma_area_takers_listed(clipped: Rect, above: Seq<WindowSnapshot>, j: int)
    requires
        0 <= j < above.len(),
        sum_area(visible_after(initial_visible(clipped), above.take(j + 1))) < sum_area(
            visible_after(initial_visible(clipped), above.take(j)),
        ),
    ensures
        occluders_of(initial_visible(clipped), above).contains(above[j].window.id),
    decreases above.len(),
{
    let start = initial_visible(clipped);
    let d = above.drop_last();
    let occ = occluders_of(start, above);
    if j < above.len() - 1 {
        assert(d.take(j + 1) =~= above.take(j + 1));
        assert(d.take(j) =~= above.take(j));
        lemma_area_takers_listed(clipped, d, j);
        let prev = occluders_of(start, d);
        let m = choose|m: int| 0 <= m < prev.len() && prev[m] == d[j].window.id;
        assert(occ[m] == prev[m]);
        assert(d[j] == above[j]);
    } else {
        assert(above.take(j + 1) =~= above);
        assert(above.take(j) =~= d);
        assert(occ[occ.len() - 1] == above[j].window.id);
    }
}

proof fn lemma_subtract_from_nothing(o: Rect)
    ensures
        spec_subtract_regions(Seq::<Rect>::empty(), o) == Seq::<Rect>::empty(),
{
}

/// Once nothing is visible, windows further down the list neither uncover anything nor
/// count as occluders.
proof fn lemma_nothing_left(start: Seq<Rect>, above: Seq<WindowSnapshot>, j: int)
    requires
        0 <= j <= above.len(),
        visible_after(start, above.take(j)).len() == 0,
    ensures
        visible_after(start, above).len() == 0,
        occluders_of(start, above) == occluders_of(start, above.take(j)),
    decreases above.len() - j,
{
    if j == above.len() {
        assert(above.take(j) =~= above);
    } else {
        assert(above.drop_last().take(j) =~= above.take(j));
        lemma_nothing_left(start, above.drop_last(), j);
        lemma_subtract_from_nothing(above.last().clipped_rect);
        assert(visible_after(start, above.drop_last()) =~= Seq::<Rect>::empty());
        assert(visible_after(start, above) =~= Seq::<Rect>::empty());
        assert(sum_area(Seq::<Rect>::empty()) == 0);
        assert(occluders_of(start, above) =~= occluders_of(start, above.drop_last()));
    }
}

/// Computes, for every window in z-order (topmost first), what of it is visible once the
/// windows above it are cut out of its clipped rectangle.
pub fn get_all_window_layouts(snapshots: &Vec<WindowSnapshot>) -> (r: Vec<WindowLayoutInfo>)
    ensures
        r@.len() == snapshots@.len(),
        forall|i: int| 0 <= i < r@.len() ==> layout_matches(#[trigger] r@[i], snapshots@, i),
{
    let mut layouts: Vec<WindowLayoutInfo> = Vec::new();
    let mut index: usize = 0;
    while index < snapshots.len()
        invariant
            0 <= index <= snapshots@.len(),
            layouts@.len() == index,
            forall|i: int| 0 <= i < index ==> layout_matches(#[trigger] layouts@[i], snapshots@, i),
        decreases snapshots@.len() - index,
    {
        let snapshot = &snapshots[index];
        let clipped = snapshot.clipped_rect;
        let total_area = rect_area(clipped);
        let mut visible_regions: Vec<Rect> = Vec::new();
        if !clipped.is_empty() {
            visible_regions.push(clipped);
        }
        let ghost start = initial_visible(clipped);
        proof {
            assert(visible_regions@ =~= start);
            let e = Seq::<Rect>::empty();
            assert(seq![clipped].drop_last() =~= e);
            assert(sum_area(e) == 0);
            assert(sum_area(start) == clipped.area());
            assert(snapshots@.take(0) =~= Seq::<WindowSnapshot>::empty());
        }
        let mut occluded_by: Vec<WindowId> = Vec::new();
        let mut j: usize = 0;
        while j < index
            invariant
                0 <= j <= index < snapshots@.len(),
                start == initial_visible(clipped),
                clipped == snapshots@[index as int].clipped_rect,
                total_area == clipped.area(),
                sum_area(start) == clipped.area(),
                visible_regions@ == visible_after(start, snapshots@.take(j as int)),
                occluded_by@ == occluders_of(start, snapshots@.take(j as int)),
            ensures
                0 <= j <= index,
                visible_regions@ == visible_after(start, snapshots@.take(j as int)),
                occluded_by@ == occluders_of(start, snapshots@.take(j as int)),
                j == index || visible_regions@.len() == 0,
            decreases index - j,
        {
            let ghost above = snapshots@.take(j + 1);
            proof {
                assert(above.drop_last() =~= snapshots@.take(j as int));
                assert(above.last() == snapshots@[j as int]);
                lemma_visible_after(start, snapshots@.take(j as int), 0, 0);
                lemma_visible_after(start, above, 0, 0);
            }
            let before_area = regions_area(visible_regions.as_slice());
            visible_regions = subtract_regions(visible_regions, snapshots[j].clipped_rect);
            let after_area = regions_area(visible_regions.as_slice());
            if after_area < before_area {
                occluded_by.push(snapshots[j].window.id);
            }
            j = j + 1;
            if visible_regions.len() == 0 {
                break;
            }
        }
        proof {
            let above = snapshots@.take(index as int);
            assert(above.take(j as int) =~= snapshots@.take(j as int));
            if j < index {
                lemma_nothing_left(start, above, j as int);
            }
            lemma_visible_after(start, above, 0, 0);
        }
        let visible_area = regions_area(visible_regions.as_slice());
        let occluded_area = total_area - visible_area;
        let visible_bounds = bounding_rect(visible_regions.as_slice());
        let layout = WindowLayoutInfo {
            window: snapshot.window.clone(),
            window_rect: snapshot.window_rect,
            clipped_rect: clipped,
            visible_bounds,
            visible_regions,
            total_area,
            visible_area,
            occluded_area,
            is_occluded: visible_area < total_area,
            is_fully_occluded: visible_area == 0,
            occluded_by,
        };
        layouts.push(layout);
        index = index + 1;
    }
    layouts
}

/// Index of the first layout of the window `id`.
pub fn find_layout(layouts: &Vec<WindowLayoutInfo>, id: WindowId) -> (r: Option<usize>)
    ensures
        r matches Some(k) ==> k < layouts@.len() && layouts@[k as int].window.id == id && forall|
            j: int,
        |
            0 <= j < k ==> (#[trigger] layouts@[j]).window.id != id,
        r is None ==> forall|j: int| 0 <= j < layouts@.len() ==> (#[trigger] layouts@[j]).window.id != id,
{
    let mut i: usize = 0;
    while i < layouts.len()
        invariant
            0 <= i <= layouts@.len(),
            forall|j: int| 0 <= j < i ==> (#[trigger] layouts@[j]).window.id != id,
        decreases layouts@.len() - i,
    {
        if layouts[i].window.id == id {
            return Some(i);
        }
        i = i + 1;
    }
    None
}

/// `k` is the first index of a window with the id `id`.
pub open spec fn is_first_window_with_id(s: Seq<WindowInfo>, k: int, id: WindowId) -> bool {
    &&& 0 <= k < s.len()
    &&& s[k].id == id
    &&& forall|j: int| 0 <= j < k ==> (#[trigger] s[j]).id != id
}

/// The first window with the id `id`, if any.
pub open spec fn spec_find_window(s: Seq<WindowInfo>, id: WindowId) -> Option<WindowInfo> {
    if exists|k: int| 0 <= k < s.len() && (#[trigger] s[k]).id == id {
        Some(s[choose|k: int| #[trigger] is_first_window_with_id(s, k, id)])
    } else {
        None
    }
}

/// When some window has the id `id`, a first one has.
pub proof fn lemma_first_window_exists(s: Seq<WindowInfo>, id: WindowId)
    requires
        exists|k: int| 0 <= k < s.len() && (#[trigger] s[k]).id == id,
    ensures
        exists|k: int| #[trigger] is_first_window_with_id(s, k, id),
        spec_find_window(s, id) matches Some(w) && w.id == id && s.contains(w),
    decreases s.len(),
{
    let k0 = choose|k: int| 0 <= k < s.len() && (#[trigger] s[k]).id == id;
    if exists|k: int| 0 <= k < s.len() - 1 && (#[trigger] s.drop_last()[k]).id == id {
        lemma_first_window_exists(s.drop_last(), id);
        let k = choose|k: int| #[trigger] is_first_window_with_id(s.drop_last(), k, id);
        assert(s[k] == s.drop_last()[k]);
        assert forall|j: int| 0 <= j < k implies (#[trigger] s[j]).id != id by {
            assert(s.drop_last()[j] == s[j]);
        }
        assert(is_first_window_with_id(s, k, id));
    } else {
        assert(k0 == s.len() - 1) by {
            if k0 < s.len() - 1 {
                assert(s.drop_last()[k0].id == id);
            }
        }
        assert forall|j: int| 0 <= j < k0 implies (#[trigger] s[j]).id != id by {
            assert(s.drop_last()[j] == s[j]);
        }
        assert(is_first_window_with_id(s, k0, id));
    }
    let k = choose|k: int| #[trigger] is_first_window_with_id(s, k, id);
    assert(s[k] == spec_find_window(s, id)->0);
}

/// The first window with the given id.
pub fn find_window(windows: &Vec<WindowInfo>, id: WindowId) -> (r: Option<WindowInfo>)
    ensures
        r == spec_find_window(windows@, id),
        r matches Some(w) ==> exists|k: int|
            #![trigger windows@[k]]
            0 <= k < windows@.len() && windows@[k] == w && w.id == id && forall|j: int|
                0 <= j < k ==> (#[trigger] windows@[j]).id != id,
        r is None <==> forall|j: int|
            0 <= j < windows@.len() ==> (#[trigger] windows@[j]).id != id,
{
    let mut i: usize = 0;
    while i < windows.len()
        invariant
            0 <= i <= windows@.len(),
            forall|j: int| 0 <= j < i ==> (#[trigger] windows@[j]).id != id,
        decreases windows@.len() - i,
    {
        if windows[i].id == id {
            proof {
                assert(is_first_window_with_id(windows@, i as int, id));
                let k = choose|k: int| #[trigger] is_first_window_with_id(windows@, k, id);
                if k < i {
                    assert(windows@[k].id != id);
                }
                if i < k {
                    assert(windows@[i as int].id != id);
                }
            }
            return Some(windows[i].clone());
        }
        i = i + 1;
    }
    None
}

// ---------------------------------------------------------------------------------------
// Finding a window again
/// The same window: same id, or the same handle with the same title and module.
pub open spec fn same_window(w: WindowInfo, t: WindowInfo) -> bool {
    w.id == t.id || (w.hwnd == t.hwnd && w.title@ == t.title@ && w.module_file_name@
        == t.module_file_name@)
}

/// A window with the same title and module.
pub open spec fn same_title_and_module(w: WindowInfo, t: WindowInfo) -> bool {
    w.title@ == t.title@ && w.module_file_name@ == t.module_file_name@
}

/// A window of the same (named) module.
pub open spec fn same_module(w: WindowInfo, t: WindowInfo) -> bool {
    t.module_file_name@.len() > 0 && w.module_file_name@ == t.module_file_name@
}

/// Which of the three ways of matching a window is used: 0 for `same_window`, 1 for
/// `same_title_and_module`, 2 for `same_module`.
pub open spec fn matches_by(w: WindowInfo, t: WindowInfo, how: int) -> bool {
    if how == 0 {
        same_window(w, t)
    } else if how == 1 {
        same_title_and_module(w, t)
    } else {
        same_module(w, t)
    }
}

pub open spec fn any_matches_by(s: Seq<WindowInfo>, t: WindowInfo, how: int) -> bool {
    exists|k: int| 0 <= k < s.len() && matches_by(#[trigger] s[k], t, how)
}

/// `k` is the first index of `s` whose window matches `t` in the given way.
pub open spec fn first_match_by(s: Seq<WindowInfo>, t: WindowInfo, how: int, k: int) -> bool {
    &&& 0 <= k < s.len()
    &&& matches_by(s[k], t, how)
    &&& forall|j: int| 0 <= j < k ==> !matches_by(#[trigger] s[j], t, how)
}

/// The way of matching that finds `t` in `s`: the first of the three that matches any window.
pub open spec fn resolving_way(s: Seq<WindowInfo>, t: WindowInfo) -> int {
    if any_matches_by(s, t, 0) {
        0
    } else if any_matches_by(s, t, 1) {
        1
    } else {
        2
    }
}

fn strings_equal(a: &String, b: &String) -> (r: bool)
    ensures
        r == (a@ == b@),
{
    *a == *b
}

fn first_matching(windows: &Vec<WindowInfo>, target: &WindowInfo, how: u8) -> (r: Option<usize>)
    requires
        how <= 2,
    ensures
        r matches Some(k) ==> first_match_by(windows@, *target, how as int, k as int),
        r is None ==> !any_matches_by(windows@, *target, how as int),
{
    let mut i: usize = 0;
    while i < windows.len()
        invariant
            0 <= i <= windows@.len(),
            how <= 2,
            forall|j: int| 0 <= j < i ==> !matches_by(#[trigger] windows@[j], *target, how as int),
        decreases windows@.len() - i,
    {
        let w = &windows[i];
        let hit = if how == 0 {
            w.id == target.id || (w.hwnd == target.hwnd && strings_equal(&w.title, &target.title)
                && strings_equal(&w.module_file_name, &target.module_file_name))
        } else if how == 1 {
            strings_equal(&w.title, &target.title) && strings_equal(
                &w.module_file_name,
                &target.module_file_name,
            )
        } else {
            !target.module_file_name.as_str().is_empty() && strings_equal(
                &w.module_file_name,
                &target.module_file_name,
            )
        };
        if hit {
            return Some(i);
        }
        i = i + 1;
    }
    None
}

/// Finds `target` among the current windows: by id (or by handle, title and module), else
/// by title and module, else by module; the first window that matches wins.
pub fn resolve_window(windows: &Vec<WindowInfo>, target: &WindowInfo) -> (r: Result<
    WindowInfo,
    ScreenshotError,
>)
    ensures
        r is Ok <==> any_matches_by(windows@, *target, resolving_way(windows@, *target)),
        r matches Ok(w) ==> exists|k: int|
            first_match_by(windows@, *target, resolving_way(windows@, *target), k)
                && windows@[k] == w,
        r matches Err(e) ==> e matches ScreenshotError::WindowNotFound(msg) && msg@
            == target.title@ + " ("@ + target.module_file_name@ + ")"@,
        // By id or by handle: the first window with the target's id, or with its handle,
        // title and module.
        (exists|k: int|
            #![trigger windows@[k]]
            0 <= k < windows@.len() && (windows@[k].id == target.id || (windows@[k].hwnd
                == target.hwnd && windows@[k].title@ == target.title@
                && windows@[k].module_file_name@ == target.module_file_name@))) ==> (r matches Ok(
            w,
        ) && exists|k: int|
            #![trigger windows@[k]]
            0 <= k < windows@.len() && windows@[k] == w && (w.id == target.id || (w.hwnd
                == target.hwnd && w.title@ == target.title@ && w.module_file_name@
                == target.module_file_name@)) && forall|j: int|
                #![trigger windows@[j]]
                0 <= j < k ==> !(windows@[j].id == target.id || (windows@[j].hwnd == target.hwnd
                    && windows@[j].title@ == target.title@ && windows@[j].module_file_name@
                    == target.module_file_name@))),
        // Else by title and module: the first window with both the target's title and module.
        (forall|k: int|
            #![trigger windows@[k]]
            0 <= k < windows@.len() ==> windows@[k].id != target.id && !(windows@[k].hwnd
                == target.hwnd && windows@[k].title@ == target.title@
                && windows@[k].module_file_name@ == target.module_file_name@)) && (exists|k: int|
            #![trigger windows@[k]]
            0 <= k < windows@.len() && windows@[k].title@ == target.title@
                && windows@[k].module_file_name@ == target.module_file_name@) ==> (r matches Ok(
            w,
        ) && exists|k: int|
            #![trigger windows@[k]]
            0 <= k < windows@.len() && windows@[k] == w && w.title@ == target.title@
                && w.module_file_name@ == target.module_file_name@ && forall|j: int|
                #![trigger windows@[j]]
                0 <= j < k ==> !(windows@[j].title@ == target.title@
                    && windows@[j].module_file_name@ == target.module_file_name@)),
        // Else by module, when the target names one: the first window of that module.
        (forall|k: int|
            #![trigger windows@[k]]
            0 <= k < windows@.len() ==> windows@[k].id != target.id && !(windows@[k].hwnd
                == target.hwnd && windows@[k].title@ == target.title@
                && windows@[k].module_file_name@ == target.module_file_name@)) && (forall|k: int|
            #![trigger windows@[k]]
            0 <= k < windows@.len() ==> !(windows@[k].title@ == target.title@
                && windows@[k].module_file_name@ == target.module_file_name@))
            && target.module_file_name@.len() > 0 && (exists|k: int|
            #![trigger windows@[k]]
            0 <= k < windows@.len() && windows@[k].module_file_name@ == target.module_file_name@)
            ==> (r matches Ok(w) && exists|k: int|
            #![trigger windows@[k]]
            0 <= k < windows@.len() && windows@[k] == w && w.module_file_name@
                == target.module_file_name@ && forall|j: int|
                #![trigger windows@[j]]
                0 <= j < k ==> windows@[j].module_file_name@ != target.module_file_name@),
        // Not found: no window matches in any of the three ways.
        r is Err <==> (forall|k: int|
            #![trigger windows@[k]]
            0 <= k < windows@.len() ==> windows@[k].id != target.id && !(windows@[k].hwnd
                == target.hwnd && windows@[k].title@ == target.title@
                && windows@[k].module_file_name@ == target.module_file_name@) && !(
            windows@[k].title@ == target.title@ && windows@[k].module_file_name@
                == target.module_file_name@) && (target.module_file_name@.len() == 0
                || windows@[k].module_file_name@ != target.module_file_name@)),
{
    let mut how: u8 = 0;
    while how < 3
        invariant
            0 <= how <= 3,
            forall|h: int| 0 <= h < how ==> !any_matches_by(windows@, *target, h),
        decreases 3 - how,
    {
        match first_matching(windows, target, how) {
            Some(k) => {
                proof {
                    assert(matches_by(windows@[k as int], *target, how as int));
                    assert(resolving_way(windows@, *target) == how as int);
                    assert(how >= 1 ==> !any_matches_by(windows@, *target, 0));
                    assert(how >= 2 ==> !any_matches_by(windows@, *target, 1));
                }
                return Ok(windows[k].clone());
            },
            None => {},
        }
        how = how + 1;
    }
    proof {
        assert(!any_matches_by(windows@, *target, 0));
        assert(!any_matches_by(windows@, *target, 1));
        assert(!any_matches_by(windows@, *target, 2));
    }
    let mut msg = target.title.clone();
    msg.append(" (");
    msg.append(target.module_file_name.as_str());
    msg.append(")");
    Err(ScreenshotError::WindowNotFound(msg))
}

} // verus!
