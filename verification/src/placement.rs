//! Where fence windows go on the screen, in pixels.

use crate::state::WorkArea;
use vstd::prelude::*;

verus! {

/// A rectangle on the virtual screen. The right and bottom edges are outside.
#[derive(Clone, Copy, Debug, PartialEq, Eq, Structural)]
pub struct Rect {
    pub left: i32,
    pub top: i32,
    pub right: i32,
    pub bottom: i32,
}

/// The number is a coordinate.
pub open spec fn fits(n: int) -> bool {
    i32::MIN <= n <= i32::MAX
}

pub open spec fn width_of(r: Rect) -> int {
    r.right - r.left
}

pub open spec fn height_of(r: Rect) -> int {
    r.bottom - r.top
}

/// Half of a number, towards zero.
pub open spec fn half(n: int) -> int {
    if n >= 0 {
        n / 2
    } else {
        -((-n) / 2)
    }
}

/// Half of a number, towards zero.
pub fn halve(n: i32) -> (r: i32)
    ensures
        r == half(n as int),
{
    if n >= 0 {
        n / 2
    } else if n == i32::MIN {
        -0x4000_0000
    } else {
        -((-n) / 2)
    }
}

/// `n`, at least `lo` and at most `hi`.
pub open spec fn clamped(n: int, lo: int, hi: int) -> int {
    if n < lo {
        lo
    } else if n > hi {
        hi
    } else {
        n
    }
}

fn clamp_to(n: i32, lo: i32, hi: i32) -> (r: i32)
    ensures
        r == clamped(n as int, lo as int, hi as int),
{
    if n < lo {
        lo
    } else if n > hi {
        hi
    } else {
        n
    }
}

pub open spec fn larger(a: int, b: int) -> int {
    if a >= b {
        a
    } else {
        b
    }
}

impl Rect {
    /// The point halfway between the edges.
    pub fn centre(&self) -> (r: (i32, i32))
        requires
            fits(self.left + self.right),
            fits(self.top + self.bottom),
        ensures
            r.0 == half(self.left + self.right),
            r.1 == half(self.top + self.bottom),
    {
        (halve(self.left + self.right), halve(self.top + self.bottom))
    }
}

/// The rectangle of this size with its corner at `(left, top)`.
pub open spec fn rect_at(left: int, top: int, w: int, h: int) -> Rect {
    Rect {
        left: left as i32,
        top: top as i32,
        right: (left + w) as i32,
        bottom: (top + h) as i32,
    }
}

/// The rectangle of this size at `(left, top)` has coordinates.
pub open spec fn can_stand(left: int, top: int, w: int, h: int) -> bool {
    fits(left) && fits(top) && fits(left + w) && fits(top + h)
}

fn make_rect(left: i32, top: i32, w: i32, h: i32) -> (r: Rect)
    requires
        can_stand(left as int, top as int, w as int, h as int),
    ensures
        r == rect_at(left as int, top as int, w as int, h as int),
{
    Rect { left, top, right: left + w, bottom: top + h }
}

// ---- bounds -------------------------------------------------------------------------------

/// The rectangle that a fence is stored with: of a rolled-up one, its expanded height counts.
pub open spec fn stored_rect(r: Rect, rolled: bool, expanded: int) -> Rect {
    if rolled {
        Rect { bottom: (r.top + larger(expanded, 1)) as i32, ..r }
    } else {
        r
    }
}

/// The rectangle that a fence is stored with: of a rolled-up one, its expanded height counts.
pub fn bounds_to_store(r: Rect, rolled: bool, expanded: i32) -> (out: Rect)
    requires
        rolled ==> fits(r.top + larger(expanded as int, 1)),
    ensures
        out == stored_rect(r, rolled, expanded as int),
{
    if rolled {
        let h: i32 = if expanded >= 1 {
            expanded
        } else {
            1
        };
        Rect { bottom: r.top + h, ..r }
    } else {
        r
    }
}

/// The window of a fence once its frame was set anew: a rolled-up one keeps its height.
pub fn bounds_to_show(frame: Rect, rolled: bool, window_h: i32) -> (out: Rect)
    requires
        rolled ==> fits(frame.top + window_h),
    ensures
        out == (Rect {
            bottom: if rolled {
                (frame.top + window_h) as i32
            } else {
                frame.bottom
            },
            ..frame
        }),
{
    if rolled {
        Rect { bottom: frame.top + window_h, ..frame }
    } else {
        frame
    }
}

// ---- free places --------------------------------------------------------------------------

/// The rectangle reaches over another one by more than half the gap.
pub open spec fn overlaps(r: Rect, o: Rect, gap: int) -> bool {
    &&& r.left < o.right - half(gap)
    &&& r.right > o.left + half(gap)
    &&& r.top < o.bottom - half(gap)
    &&& r.bottom > o.top + half(gap)
}

/// The rectangle reaches over none of the others.
pub open spec fn is_clear(r: Rect, others: Seq<Rect>, gap: int) -> bool {
    forall|i: int| 0 <= i < others.len() ==> !overlaps(r, #[trigger] others[i], gap)
}

pub open spec fn is_within(r: Rect, work: Rect) -> bool {
    r.left >= work.left && r.top >= work.top && r.right <= work.right && r.bottom <= work.bottom
}

/// The rectangle lies in the work area and is clear of the others.
pub open spec fn is_free(r: Rect, work: Rect, others: Seq<Rect>, gap: int) -> bool {
    is_within(r, work) && is_clear(r, others, gap)
}

/// Whether a rectangle reaches over one of the others by more than half the gap.
pub fn overlaps_fence(r: &Rect, others: &Vec<Rect>, gap: i32) -> (out: bool)
    ensures
        out == !is_clear(*r, others@, gap as int),
{
    let slack: i64 = halve(gap) as i64;
    let n: usize = others.len();
    for i in 0..n
        invariant
            n == others.len(),
            slack == half(gap as int),
            forall|j: int| 0 <= j < i ==> !overlaps(*r, #[trigger] others@[j], gap as int),
    {
        let o = &others[i];
        if (r.left as i64) < o.right as i64 - slack && r.right as i64 > o.left as i64 + slack && (
        r.top as i64) < o.bottom as i64 - slack && r.bottom as i64 > o.top as i64 + slack {
            assert(overlaps(*r, others@[i as int], gap as int));
            return true;
        }
    }
    false
}

/// Whether a rectangle lies in the work area and is clear of the others.
pub fn rect_free(r: &Rect, work: &Rect, others: &Vec<Rect>, gap: i32) -> (out: bool)
    ensures
        out == is_free(*r, *work, others@, gap as int),
{
    r.left >= work.left && r.top >= work.top && r.right <= work.right && r.bottom <= work.bottom
        && !overlaps_fence(r, others, gap)
}

/// A new fence: its size, the gap to keep and the step of the search.
#[derive(Clone, Copy, Debug, PartialEq, Eq, Structural)]
pub struct NewFence {
    pub w: i32,
    pub h: i32,
    pub gap: i32,
    pub step: i32,
    /// The point it was asked for at.
    pub x: i32,
    pub y: i32,
}

/// The first places that are tried: beside `near` to the right, to the left, below and above, then
/// around the point.
pub open spec fn candidates(f: NewFence, near: Option<Rect>) -> Seq<(int, int)> {
    let around = (f.x - half(f.w as int), f.y - half(f.h as int));
    match near {
        Some(o) => seq![
            (o.right + f.gap, o.top as int),
            (o.left - f.gap - f.w, o.top as int),
            (o.left as int, o.bottom + f.gap),
            (o.left as int, o.top - f.gap - f.h),
            around,
        ],
        None => seq![around],
    }
}

pub open spec fn place(f: NewFence, at: (int, int)) -> Rect {
    rect_at(at.0, at.1, f.w as int, f.h as int)
}

/// The first of the places at which the fence is free.
pub open spec fn first_free(
    f: NewFence,
    places: Seq<(int, int)>,
    work: Rect,
    others: Seq<Rect>,
) -> Option<Rect>
    decreases places.len(),
{
    if places.len() == 0 {
        None
    } else if is_free(place(f, places[0]), work, others, f.gap as int) {
        Some(place(f, places[0]))
    } else {
        first_free(f, places.skip(1), work, others)
    }
}

/// The first clear place in a row of the search at `top`, from `left` on.
pub open spec fn clear_in_row(f: NewFence, left: int, top: int, work: Rect, others: Seq<Rect>) -> Option<
    Rect,
>
    decreases work.right - left + f.step,
{
    if f.step <= 0 || left + f.w > work.right || left > work.right {
        None
    } else if is_clear(place(f, (left, top)), others, f.gap as int) {
        Some(place(f, (left, top)))
    } else {
        clear_in_row(f, left + f.step, top, work, others)
    }
}

/// The first clear place of the search, row by row, from `top` on.
pub open spec fn clear_from(f: NewFence, top: int, work: Rect, others: Seq<Rect>) -> Option<Rect>
    decreases work.bottom - top + f.step,
{
    if f.step <= 0 || top + f.h > work.bottom || top > work.bottom {
        None
    } else {
        match clear_in_row(f, work.left + f.gap, top, work, others) {
            Some(r) => Some(r),
            None => clear_from(f, top + f.step, work, others),
        }
    }
}

/// Around the point, moved into the work area as far as it goes.
pub open spec fn forced_place(f: NewFence, work: Rect) -> Rect {
    place(
        f,
        (
            clamped(
                f.x - half(f.w as int),
                work.left as int,
                larger(work.right - f.w, work.left as int),
            ),
            clamped(
                f.y - half(f.h as int),
                work.top as int,
                larger(work.bottom - f.h, work.top as int),
            ),
        ),
    )
}

/// Where a new fence goes.
pub open spec fn new_place(f: NewFence, near: Option<Rect>, work: Rect, others: Seq<Rect>) -> Rect {
    match first_free(f, candidates(f, near), work, others) {
        Some(r) => r,
        None => match clear_from(f, work.top + f.gap, work, others) {
            Some(r) => r,
            None => forced_place(f, work),
        },
    }
}

/// Every place that may be tried has coordinates, and the search gets on.
pub open spec fn can_search(f: NewFence, near: Option<Rect>, work: Rect) -> bool {
    &&& f.w >= 0
    &&& f.h >= 0
    &&& f.step > 0
    &&& forall|i: int|
        0 <= i < candidates(f, near).len() ==> {
            let at = #[trigger] candidates(f, near)[i];
            can_stand(at.0, at.1, f.w as int, f.h as int)
        }
    &&& near matches Some(o) ==> fits(o.left - f.gap) && fits(o.top - f.gap)
    &&& fits(work.left + f.gap)
    &&& fits(work.top + f.gap)
    &&& fits(work.left + f.gap + f.w)
    &&& fits(work.top + f.gap + f.h)
    &&& fits(work.right + f.step)
    &&& fits(work.bottom + f.step)
    &&& fits(work.right - f.w)
    &&& fits(work.bottom - f.h)
    &&& fits(work.left + f.w)
    &&& fits(work.top + f.h)
}

fn try_place(f: &NewFence, left: i32, top: i32, work: &Rect, others: &Vec<Rect>) -> (r: Option<Rect>)
    requires
        can_stand(left as int, top as int, f.w as int, f.h as int),
    ensures
        r == if is_free(place(*f, (left as int, top as int)), *work, others@, f.gap as int) {
            Some(place(*f, (left as int, top as int)))
        } else {
            None
        },
{
    let r = make_rect(left, top, f.w, f.h);
    if rect_free(&r, work, others, f.gap) {
        Some(r)
    } else {
        None
    }
}

fn try_around(f: &NewFence, work: &Rect, others: &Vec<Rect>) -> (r: Option<Rect>)
    requires
        can_search(*f, None, *work),
    ensures
        r == first_free(*f, candidates(*f, None), *work, others@),
{
    let ghost cs = candidates(*f, None);
    assert(cs[0] == (f.x - half(f.w as int), f.y - half(f.h as int)));
    proof {
        reveal_with_fuel(first_free, 2);
    }
    try_place(f, f.x - halve(f.w), f.y - halve(f.h), work, others)
}

fn try_near(f: &NewFence, o: &Rect, work: &Rect, others: &Vec<Rect>) -> (r: Option<Rect>)
    requires
        can_search(*f, Some(*o), *work),
    ensures
        r == first_free(*f, candidates(*f, Some(*o)), *work, others@),
{
    let ghost cs = candidates(*f, Some(*o));
    proof {
        reveal_with_fuel(first_free, 6);
        assert(cs[0] == (o.right + f.gap, o.top as int));
        assert(cs[1] == (o.left - f.gap - f.w, o.top as int));
        assert(cs[2] == (o.left as int, o.bottom + f.gap));
        assert(cs[3] == (o.left as int, o.top - f.gap - f.h));
        assert(cs[4] == (f.x - half(f.w as int), f.y - half(f.h as int)));
        assert(cs.skip(1)[0] == cs[1]);
        assert(cs.skip(1).skip(1)[0] == cs[2]);
        assert(cs.skip(1).skip(1).skip(1)[0] == cs[3]);
        assert(cs.skip(1).skip(1).skip(1).skip(1)[0] == cs[4]);
    }
    if let Some(r) = try_place(f, o.right + f.gap, o.top, work, others) {
        return Some(r);
    }
    if let Some(r) = try_place(f, o.left - f.gap - f.w, o.top, work, others) {
        return Some(r);
    }
    if let Some(r) = try_place(f, o.left, o.bottom + f.gap, work, others) {
        return Some(r);
    }
    if let Some(r) = try_place(f, o.left, o.top - f.gap - f.h, work, others) {
        return Some(r);
    }
    try_place(f, f.x - halve(f.w), f.y - halve(f.h), work, others)
}

fn search_row(f: &NewFence, top: i32, work: &Rect, others: &Vec<Rect>) -> (r: Option<Rect>)
    requires
        can_search(*f, None, *work) || exists|o: Rect| #[trigger] can_search(*f, Some(o), *work),
        fits(top + f.h),
    ensures
        r == clear_in_row(*f, work.left + f.gap, top as int, *work, others@),
{
    let mut left: i32 = work.left + f.gap;
    let ghost from = left as int;
    while left + f.w <= work.right
        invariant
            from == work.left + f.gap,
            f.step > 0,
            f.w >= 0,
            fits(work.right + f.step),
            fits(left + f.w),
            fits(top + f.h),
            clear_in_row(*f, from, top as int, *work, others@) == clear_in_row(
                *f,
                left as int,
                top as int,
                *work,
                others@,
            ),
        decreases work.right - left + f.step,
    {
        let r = make_rect(left, top, f.w, f.h);
        if !overlaps_fence(&r, others, f.gap) {
            return Some(r);
        }
        left = left + f.step;
    }
    None
}

fn search(f: &NewFence, work: &Rect, others: &Vec<Rect>) -> (r: Option<Rect>)
    requires
        can_search(*f, None, *work) || exists|o: Rect| #[trigger] can_search(*f, Some(o), *work),
    ensures
        r == clear_from(*f, work.top + f.gap, *work, others@),
{
    let mut top: i32 = work.top + f.gap;
    let ghost from = top as int;
    while top + f.h <= work.bottom
        invariant
            can_search(*f, None, *work) || exists|o: Rect| #[trigger]
                can_search(*f, Some(o), *work),
            from == work.top + f.gap,
            f.step > 0,
            f.h >= 0,
            fits(work.bottom + f.step),
            fits(top + f.h),
            clear_from(*f, from, *work, others@) == clear_from(*f, top as int, *work, others@),
        decreases work.bottom - top + f.step,
    {
        if let Some(r) = search_row(f, top, work, others) {
            return Some(r);
        }
        top = top + f.step;
    }
    None
}

/// A place in the work area for a new fence that is clear of the others: beside `near` or around
/// the point where one of these is free, else the first one that a search of the work area finds,
/// else around the point, whatever is there.
pub fn place_new_fence(f: &NewFence, near: Option<Rect>, work: &Rect, others: &Vec<Rect>) -> (r: Rect)
    requires
        can_search(*f, near, *work),
    ensures
        r == new_place(*f, near, *work, others@),
{
    let found = match &near {
        Some(o) => try_near(f, o, work, others),
        None => try_around(f, work, others),
    };
    if let Some(r) = found {
        return r;
    }
    if let Some(r) = search(f, work, others) {
        return r;
    }
    proof {
        let cs = candidates(*f, near);
        let last = cs[cs.len() - 1];
        assert(last == (f.x - half(f.w as int), f.y - half(f.h as int)));
    }
    let right: i32 = if work.right - f.w >= work.left {
        work.right - f.w
    } else {
        work.left
    };
    let bottom: i32 = if work.bottom - f.h >= work.top {
        work.bottom - f.h
    } else {
        work.top
    };
    let left: i32 = clamp_to(f.x - halve(f.w), work.left, right);
    let top: i32 = clamp_to(f.y - halve(f.h), work.top, bottom);
    make_rect(left, top, f.w, f.h)
}

// ---- laws ---------------------------------------------------------------------------------

proof fn lemma_first_free(f: NewFence, places: Seq<(int, int)>, work: Rect, others: Seq<Rect>)
    ensures
        first_free(f, places, work, others) matches Some(r) ==> is_free(
            r,
            work,
            others,
            f.gap as int,
        ),
    decreases places.len(),
{
    if places.len() > 0 {
        lemma_first_free(f, places.skip(1), work, others);
    }
}

proof fn lemma_row(f: NewFence, left: int, top: int, work: Rect, others: Seq<Rect>)
    requires
        left >= work.left,
        work.top <= top,
        top + f.h <= work.bottom,
        f.w >= 0,
        f.h >= 0,
    ensures
        clear_in_row(f, left, top, work, others) matches Some(r) ==> is_free(
            r,
            work,
            others,
            f.gap as int,
        ),
    decreases work.right - left + f.step,
{
    if f.step > 0 && left + f.w <= work.right {
        lemma_row(f, left + f.step, top, work, others);
    }
}

proof fn lemma_rows(f: NewFence, top: int, work: Rect, others: Seq<Rect>)
    requires
        top >= work.top,
        f.gap >= 0,
        f.w >= 0,
        f.h >= 0,
    ensures
        clear_from(f, top, work, others) matches Some(r) ==> is_free(r, work, others, f.gap as int),
    decreases work.bottom - top + f.step,
{
    if f.step > 0 && top + f.h <= work.bottom {
        lemma_row(f, work.left + f.gap, top, work, others);
        lemma_rows(f, top + f.step, work, others);
    }
}

/// A new fence reaches over no other one and stays in the work area, as long as one of the places
/// that are tried is free; in any case it stays in the work area where it is no larger than that.
pub proof fn new_fences_keep_clear(f: NewFence, near: Option<Rect>, work: Rect, others: Seq<Rect>)
    requires
        can_search(f, near, work),
        f.gap >= 0,
    ensures
        first_free(f, candidates(f, near), work, others) is Some || clear_from(
            f,
            work.top + f.gap,
            work,
            others,
        ) is Some ==> is_free(new_place(f, near, work, others), work, others, f.gap as int),
        f.w <= width_of(work) && f.h <= height_of(work) ==> is_within(
            new_place(f, near, work, others),
            work,
        ),
{
    lemma_first_free(f, candidates(f, near), work, others);
    lemma_rows(f, work.top + f.gap, work, others);
}

// ---- other rectangles ---------------------------------------------------------------------

/// Flush against the top of the work area, as far left as fits.
pub open spec fn docked(r: Rect, work: Rect) -> Rect {
    rect_at(
        clamped(
            r.left as int,
            work.left as int,
            larger(work.right - width_of(r), work.left as int),
        ),
        work.top as int,
        width_of(r),
        height_of(r),
    )
}

/// Where a fence that is docked to the top of its work area goes.
pub fn dock_to_top(r: &Rect, work: &Rect) -> (out: Rect)
    requires
        fits(width_of(*r)),
        fits(height_of(*r)),
        fits(work.right - width_of(*r)),
        fits(work.left + width_of(*r)),
        fits(r.left + width_of(*r)),
        fits(work.top + height_of(*r)),
    ensures
        out == docked(*r, *work),
{
    let w: i32 = r.right - r.left;
    let h: i32 = r.bottom - r.top;
    let right: i32 = if work.right - w >= work.left {
        work.right - w
    } else {
        work.left
    };
    let left: i32 = clamp_to(r.left, work.left, right);
    make_rect(left, work.top, w, h)
}

/// The rectangle with a whole number of columns: `snapped` is the width for the nearest number,
/// `narrower` that for one column less, where that leaves one. It is moved left rather than past
/// the work area's edge, and is narrower where it would then not fit either.
pub open spec fn column_snapped(
    r: Rect,
    snapped: int,
    narrower: Option<int>,
    work: Option<Rect>,
    bottom: i32,
) -> Rect {
    match work {
        Some(wa) if r.left + snapped > wa.right => {
            let left = larger(wa.right - snapped, wa.left as int);
            match narrower {
                Some(n) if left + snapped > wa.right => Rect {
                    left: (wa.right - n) as i32,
                    top: r.top,
                    right: wa.right,
                    bottom,
                },
                _ => Rect { left: left as i32, top: r.top, right: (left + snapped) as i32, bottom },
            }
        },
        _ => Rect { left: r.left, top: r.top, right: (r.left + snapped) as i32, bottom },
    }
}

/// The rectangle with a whole number of columns; none where it is that already.
pub fn column_snap(
    r: &Rect,
    snapped: i32,
    narrower: Option<i32>,
    work: Option<Rect>,
    bottom: i32,
) -> (out: Option<Rect>)
    requires
        fits(r.left + snapped),
        fits(width_of(*r)),
        work matches Some(wa) ==> fits(wa.right - snapped) && fits(wa.left + snapped),
        work matches Some(wa) ==> (narrower matches Some(n) ==> fits(wa.right - n)),
    ensures
        ({
            let next = column_snapped(
                *r,
                snapped as int,
                match narrower {
                    Some(n) => Some(n as int),
                    None => None,
                },
                work,
                bottom,
            );
            out == if next == *r {
                None
            } else {
                Some(next)
            }
        }),
{
    let mut left: i32 = r.left;
    let mut right: i32 = r.left + snapped;
    if let Some(wa) = work {
        if right > wa.right {
            left = if wa.right - snapped >= wa.left {
                wa.right - snapped
            } else {
                wa.left
            };
            right = left + snapped;
            if right > wa.right {
                if let Some(n) = narrower {
                    left = wa.right - n;
                    right = wa.right;
                }
            }
        }
    }
    let next = Rect { left, top: r.top, right, bottom };
    if next == *r {
        None
    } else {
        Some(next)
    }
}

/// A snapped fence does not reach past the right edge of the work area, as long as its width, or
/// the one with a column less, fits into that.
pub proof fn snapping_stays_in_the_work_area(
    r: Rect,
    snapped: int,
    narrower: Option<int>,
    wa: Rect,
    bottom: i32,
)
    requires
        fits(r.left + snapped),
        fits(wa.right - snapped),
        fits(wa.left + snapped),
        narrower matches Some(n) ==> fits(wa.right - n),
        snapped <= width_of(wa) || narrower is Some,
    ensures
        column_snapped(r, snapped, narrower, Some(wa), bottom).right <= wa.right,
{
}

// ---- icon sizes ---------------------------------------------------------------------------

/// The icon size one step up or down: 32, 48, 64, 96. None at the ends.
pub fn step_icon_size(cur: u32, larger: bool) -> (r: Option<u32>)
    ensures
        r == if larger {
            if cur < 32 {
                Some(32u32)
            } else if cur < 48 {
                Some(48u32)
            } else if cur < 64 {
                Some(64u32)
            } else if cur < 96 {
                Some(96u32)
            } else {
                None
            }
        } else {
            if cur > 96 {
                Some(96u32)
            } else if cur > 64 {
                Some(64u32)
            } else if cur > 48 {
                Some(48u32)
            } else if cur > 32 {
                Some(32u32)
            } else {
                None
            }
        },
{
    let sizes: [u32; 4] = [32, 48, 64, 96];
    if larger {
        let mut i: usize = 0;
        while i < 4
            invariant
                i <= 4,
                sizes@ == seq![32u32, 48, 64, 96],
                larger,
                forall|j: int| 0 <= j < i ==> #[trigger] sizes@[j] <= cur,
            decreases 4 - i,
        {
            if sizes[i] > cur {
                assert(i > 0 ==> sizes@[i - 1] <= cur);
                return Some(sizes[i]);
            }
            i = i + 1;
        }
        assert(sizes@[3] <= cur);
        None
    } else {
        let mut i: usize = 4;
        while i > 0
            invariant
                i <= 4,
                sizes@ == seq![32u32, 48, 64, 96],
                !larger,
                forall|j: int| i <= j < 4 ==> #[trigger] sizes@[j] >= cur,
            decreases i,
        {
            i = i - 1;
            if sizes[i] < cur {
                assert(i + 1 < 4 ==> sizes@[i + 1] >= cur);
                return Some(sizes[i]);
            }
        }
        assert(sizes@[0] >= cur);
        None
    }
}

/// Stepping up and then down gives the size back, for sizes of the scale.
pub proof fn icon_sizes_step_back(i: int)
    requires
        0 <= i < 3,
    ensures
        ({
            let sizes = seq![32u32, 48, 64, 96];
            forall|up: Option<u32>, down: Option<u32>| #[trigger]
                call_ensures(step_icon_size, (sizes[i], true), up) && #[trigger] call_ensures(
                    step_icon_size,
                    (sizes[i + 1], false),
                    down,
                ) ==> up == Some(sizes[i + 1]) && down == Some(sizes[i])
        }),
{
}

// ---- monitors -----------------------------------------------------------------------------

/// The middle of the first monitor's work area; none without monitors.
pub open spec fn first_centre(areas: Seq<WorkArea>) -> Option<(int, int)> {
    if areas.len() > 0 {
        Some((half(areas[0].left + areas[0].right), half(areas[0].top + areas[0].bottom)))
    } else {
        None
    }
}

/// The point at which something that was asked for without a place appears: the middle of the
/// window `near` where there is one, else that of the first monitor's work area, else `fallback`.
pub fn start_point(near: Option<Rect>, areas: &Vec<WorkArea>, fallback: (i32, i32)) -> (r: (i32, i32))
    requires
        near matches Some(o) ==> fits(o.left + o.right) && fits(o.top + o.bottom),
        areas.len() > 0 ==> fits(areas@[0].left + areas@[0].right) && fits(
            areas@[0].top + areas@[0].bottom,
        ),
    ensures
        match near {
            Some(o) => r.0 == half(o.left + o.right) && r.1 == half(o.top + o.bottom),
            None => match first_centre(areas@) {
                Some(c) => r.0 == c.0 && r.1 == c.1,
                None => r == fallback,
            },
        },
{
    if let Some(o) = near {
        return o.centre();
    }
    if areas.len() > 0 {
        let w = &areas[0];
        (halve(w.left + w.right), halve(w.top + w.bottom))
    } else {
        fallback
    }
}

/// What a monitor is labelled with: its number, from 1 on, and its size in pixels.
#[derive(Clone, Copy, Debug, PartialEq, Eq, Structural)]
pub struct MonitorLabel {
    pub number: usize,
    pub width: i32,
    pub height: i32,
}

/// The labels of the monitors, in order.
pub fn monitor_labels(areas: &Vec<WorkArea>) -> (r: Vec<MonitorLabel>)
    requires
        areas.len() < usize::MAX,
        forall|i: int|
            0 <= i < areas.len() ==> fits((#[trigger] areas@[i]).mon_right - areas@[i].mon_left)
                && fits(areas@[i].mon_bottom - areas@[i].mon_top),
    ensures
        r.len() == areas.len(),
        forall|i: int|
            0 <= i < r.len() ==> {
                &&& (#[trigger] r@[i]).number == i + 1
                &&& r@[i].width == areas@[i].mon_right - areas@[i].mon_left
                &&& r@[i].height == areas@[i].mon_bottom - areas@[i].mon_top
            },
{
    let mut out: Vec<MonitorLabel> = Vec::new();
    let n: usize = areas.len();
    for i in 0..n
        invariant
            n == areas.len(),
            n < usize::MAX,
            out.len() == i,
            forall|j: int|
                0 <= j < areas.len() ==> fits((#[trigger] areas@[j]).mon_right - areas@[j].mon_left)
                    && fits(areas@[j].mon_bottom - areas@[j].mon_top),
            forall|j: int|
                0 <= j < i ==> {
                    &&& (#[trigger] out@[j]).number == j + 1
                    &&& out@[j].width == areas@[j].mon_right - areas@[j].mon_left
                    &&& out@[j].height == areas@[j].mon_bottom - areas@[j].mon_top
                },
    {
        let w = &areas[i];
        assert(fits(areas@[i as int].mon_right - areas@[i as int].mon_left));
        out.push(
            MonitorLabel {
                number: i + 1,
                width: w.mon_right - w.mon_left,
                height: w.mon_bottom - w.mon_top,
            },
        );
    }
    out
}

/// A new fence stands beside the one it was asked for at, right of it, left of it, below or above
/// it in that order, where it is free, or else around the point.
pub proof fn new_fences_stand_beside_the_old(f: NewFence, o: Rect, work: Rect, others: Seq<Rect>)
    ensures
        ({
            let n = new_place(f, Some(o), work, others);
            let right = rect_at(o.right + f.gap, o.top as int, f.w as int, f.h as int);
            let left = rect_at(o.left - f.gap - f.w, o.top as int, f.w as int, f.h as int);
            let below = rect_at(o.left as int, o.bottom + f.gap, f.w as int, f.h as int);
            let above = rect_at(o.left as int, o.top - f.gap - f.h, f.w as int, f.h as int);
            let gap = f.gap as int;
            &&& is_free(right, work, others, gap) ==> n == right
            &&& !is_free(right, work, others, gap) && is_free(left, work, others, gap) ==> n == left
            &&& !is_free(right, work, others, gap) && !is_free(left, work, others, gap) && is_free(
                below,
                work,
                others,
                gap,
            ) ==> n == below
            &&& !is_free(right, work, others, gap) && !is_free(left, work, others, gap) && !is_free(
                below,
                work,
                others,
                gap,
            ) && is_free(above, work, others, gap) ==> n == above
        }),
{
    reveal_with_fuel(first_free, 5);
    let c = candidates(f, Some(o));
    assert(c.skip(1)[0] == c[1]);
    assert(c.skip(1).skip(1)[0] == c[2]);
    assert(c.skip(1).skip(1).skip(1)[0] == c[3]);
}

/// A new fence that was asked for at a point stands around it, where that is free.
pub proof fn new_fences_stand_around_their_point(f: NewFence, work: Rect, others: Seq<Rect>)
    ensures
        ({
            let n = new_place(f, None, work, others);
            let here = rect_at(
                f.x - half(f.w as int),
                f.y - half(f.h as int),
                f.w as int,
                f.h as int,
            );
            is_free(here, work, others, f.gap as int) ==> n == here
        }),
{
    reveal_with_fuel(first_free, 2);
}

/// Two frames overlap where they meet by more than half the gap on both axes.
pub proof fn frames_apart_do_not_overlap(r: Rect, o: Rect, gap: int)
    requires
        gap >= 0,
    ensures
        r.right <= o.left || o.right <= r.left || r.bottom <= o.top || o.bottom <= r.top
            ==> !overlaps(r, o, gap),
        gap <= 1 && r.left < o.right && o.left < r.right && r.top < o.bottom && o.top < r.bottom
            ==> overlaps(r, o, gap),
        overlaps(r, o, gap) ==> overlaps(o, r, gap),
{
}

/// A docked window keeps its size, stands at the top of the work area, and moves sideways only as
/// far as it must to be in it.
pub proof fn docking_moves_to_the_top(r: Rect, work: Rect)
    requires
        fits(work.right - width_of(r)),
        width_of(r) >= 0,
        fits(work.left + width_of(r)),
        fits(work.top + height_of(r)),
    ensures
        docked(r, work).top == work.top,
        width_of(docked(r, work)) == width_of(r),
        height_of(docked(r, work)) == height_of(r),
        work.left <= r.left && r.right <= work.right ==> docked(r, work).left == r.left,
        width_of(r) <= width_of(work) ==> work.left <= docked(r, work).left && docked(r, work).right
            <= work.right,
{
}

/// The frame of a rolled-up window is stored with the height it unrolls to.
pub proof fn rolled_windows_are_stored_unrolled(r: Rect, rolled: bool, expanded: int)
    requires
        fits(r.top + larger(expanded, 1)),
    ensures
        !rolled ==> stored_rect(r, rolled, expanded) == r,
        rolled && expanded >= 1 ==> height_of(stored_rect(r, rolled, expanded)) == expanded,
        stored_rect(r, rolled, expanded).left == r.left && stored_rect(r, rolled, expanded).top == r.top
            && stored_rect(r, rolled, expanded).right == r.right,
{
}

/// A width that snaps to whole columns keeps the left edge, unless the window would leave the work
/// area, whose right edge it then keeps.
pub proof fn snapping_keeps_an_edge(r: Rect, snapped: int, narrower: Option<int>, wa: Rect, bottom: i32)
    requires
        fits(r.left + snapped),
        fits(wa.right - snapped),
        fits(wa.left + snapped),
        snapped <= width_of(wa),
    ensures
        ({
            let s = column_snapped(r, snapped, narrower, Some(wa), bottom);
            &&& width_of(s) == snapped
            &&& s.top == r.top && s.bottom == bottom
            &&& r.left + snapped <= wa.right ==> s.left == r.left
            &&& r.left + snapped > wa.right ==> s.right == wa.right
        }),
        column_snapped(r, snapped, narrower, None, bottom).left == r.left,
        width_of(column_snapped(r, snapped, narrower, None, bottom)) == snapped,
{
}

/// The centre of the first monitor is half way between its edges.
pub proof fn the_centre_is_half_way(areas: Seq<WorkArea>)
    ensures
        first_centre(areas) is None <==> areas.len() == 0,
        areas.len() > 0 && areas[0].left >= 0 && areas[0].top >= 0 && areas[0].right >= 0
            && areas[0].bottom >= 0 ==> first_centre(areas) == Some(
            ((areas[0].left + areas[0].right) / 2, (areas[0].top + areas[0].bottom) / 2),
        ),
{
}

/// Icons grow and shrink through 32, 48, 64 and 96 pixels and no further, each step the next size
/// up or down.
pub proof fn icons_step_through_four_sizes(cur: u32, up: Option<u32>, down: Option<u32>, size: u32)
    requires
        call_ensures(step_icon_size, (cur, true), up),
        call_ensures(step_icon_size, (cur, false), down),
        size == 32 || size == 48 || size == 64 || size == 96,
    ensures
        cur >= 96 <==> up is None,
        cur <= 32 <==> down is None,
        up matches Some(n) ==> n > cur && (n == 32 || n == 48 || n == 64 || n == 96),
        down matches Some(n) ==> n < cur && (n == 32 || n == 48 || n == 64 || n == 96),
        up is Some && size > cur ==> up->0 <= size,
        down is Some && size < cur ==> down->0 >= size,
{
}

/// Where nothing beside or around is free, the rows of the work area are gone through from left to
/// right, and the first place that is clear is taken.
pub proof fn rows_are_searched_from_the_left(
    f: NewFence,
    left: int,
    top: int,
    work: Rect,
    others: Seq<Rect>,
)
    requires
        f.step > 0,
        f.w >= 0,
    ensures
        left + f.w > work.right ==> clear_in_row(f, left, top, work, others) is None,
        left + f.w <= work.right && is_clear(place(f, (left, top)), others, f.gap as int)
            ==> clear_in_row(f, left, top, work, others) == Some(place(f, (left, top))),
        left + f.w <= work.right && !is_clear(place(f, (left, top)), others, f.gap as int)
            ==> clear_in_row(f, left, top, work, others) == clear_in_row(
            f,
            left + f.step,
            top,
            work,
            others,
        ),
        top + f.h <= work.bottom && top <= work.bottom && clear_in_row(
            f,
            work.left + f.gap,
            top,
            work,
            others,
        ) is Some ==> clear_from(f, top, work, others) == clear_in_row(
            f,
            work.left + f.gap,
            top,
            work,
            others,
        ),
        top + f.h <= work.bottom && top <= work.bottom && clear_in_row(
            f,
            work.left + f.gap,
            top,
            work,
            others,
        ) is None ==> clear_from(f, top, work, others) == clear_from(f, top + f.step, work, others),
        top + f.h > work.bottom ==> clear_from(f, top, work, others) is None,
{
}

} // verus!
