use vstd::prelude::*;

use crate::button::{button_at, lane_index, Pressed, LANE_COUNT};

verus! {

/// Empty space kept on each side of a marker inside its lane.
pub const INSIDE_PADDING: i64 = 5;

/// Width of the section given to each lane: the background width over twelve,
/// rounded to the nearest integer (halves round up).
pub open spec fn section_width(w: int) -> int {
    (w + 6) / 12
}

/// Width of a marker: its section less the inside padding on both sides.
pub open spec fn lane_width(w: int) -> int {
    section_width(w) - 2 * INSIDE_PADDING
}

/// Left edge of the marker of the lane at position `k`, in half units: twice
/// `left_padding + INSIDE_PADDING + k * section_width(w)`, where the left padding
/// is half of what the division by twelve leaves, `(w mod 12) / 2`.
pub open spec fn lane_x(w: int, k: int) -> int {
    w % 12 + 2 * INSIDE_PADDING + 2 * k * section_width(w)
}

/// A rectangle on screen. Every field is in half units (twice the length in
/// pixels), so that the half-way points of the layout and of the window are
/// exact.
#[derive(Clone, Copy, Debug, PartialEq, Eq, Structural)]
pub struct Rect {
    pub x: i64,
    pub y: i64,
    pub w: i64,
    pub h: i64,
}

/// The marker that a press admits: born at mid-height of the window (its `y`,
/// in half units, is the window height in pixels), one pixel thick.
pub open spec fn new_marker(x: i64, window_height: u32, width: i64) -> Rect {
    Rect { x, y: window_height as i64, w: width, h: 2 }
}

/// Every marker of the lane moved one pixel down.
pub open spec fn advanced(s: Seq<Rect>) -> Seq<Rect> {
    shifted(s, 1)
}

/// Every marker of the lane moved `t` pixels (`2 * t` half units) down.
pub open spec fn shifted(s: Seq<Rect>, t: int) -> Seq<Rect> {
    Seq::new(s.len(), |i: int| (Rect { y: (s[i].y + 2 * t) as i64, ..s[i] }))
}

/// The markers of the lane, in order, whose `y` has not passed `h` (both in
/// half units).
pub open spec fn kept(s: Seq<Rect>, h: int) -> Seq<Rect>
    decreases s.len(),
{
    if s.len() == 0 {
        s
    } else if s.last().y <= h {
        kept(s.drop_last(), h).push(s.last())
    } else {
        kept(s.drop_last(), h)
    }
}

/// One tick of a lane in a window `h` pixels high: advance, then evict what
/// left the window.
pub open spec fn tick(s: Seq<Rect>, h: int) -> Seq<Rect> {
    kept(advanced(s), 2 * h)
}

/// Markers ordered from the oldest (largest `y`) to the newest.
pub open spec fn descending(s: Seq<Rect>) -> bool {
    forall|i: int, j: int| 0 <= i < j < s.len() ==> s[i].y >= s[j].y
}

/// `n` markers newly admitted into the lane at `x`.
pub open spec fn admitted(x: i64, window_height: u32, width: i64, n: nat) -> Seq<Rect> {
    Seq::new(n, |i: int| new_marker(x, window_height, width))
}

/// How many times `p` occurs in `events`.
pub open spec fn count_of(events: Seq<Pressed>, p: Pressed) -> nat
    decreases events.len(),
{
    if events.len() == 0 {
        0
    } else {
        count_of(events.drop_last(), p) + if events.last() == p {
            1nat
        } else {
            0nat
        }
    }
}

/// Every marker of the lane is `w` wide.
pub open spec fn widths(s: Seq<Rect>, w: i64) -> bool {
    forall|i: int| 0 <= i < s.len() ==> #[trigger] s[i].w == w
}

/// Eviction keeps the markers' widths.
pub proof fn lemma_kept_widths(s: Seq<Rect>, h: int, w: i64)
    requires
        widths(s, w),
    ensures
        widths(kept(s, h), w),
    decreases s.len(),
{
    if s.len() > 0 {
        lemma_kept_widths(s.drop_last(), h, w);
    }
}

/// The markers of one button's lane, from the oldest to the newest.
pub struct PianoRollRect {
    pub x: i64,
    pub positions: Vec<Rect>,
}

impl PianoRollRect {
    /// The lane's markers stand in its column, one pixel thick, on screen.
    pub open spec fn wf(&self) -> bool {
        &&& forall|i: int|
            #![trigger self.positions@[i]]
            0 <= i < self.positions@.len() ==> {
                &&& self.positions@[i].x == self.x
                &&& self.positions@[i].h == 2
                &&& 0 <= self.positions@[i].y <= 2 * u32::MAX
            }
    }

    /// An empty lane whose markers stand at `x`.
    pub fn new(x: i64) -> (r: Self)
        ensures
            r.x == x,
            r.positions@ == Seq::<Rect>::empty(),
    {
        PianoRollRect { x, positions: Vec::new() }
    }

    /// Admits one marker at mid-height of a window `window_height` pixels high,
    /// `rect_width` half units wide, behind all others.
    pub fn add(&mut self, window_height: u32, rect_width: i64)
        requires
            old(self).wf(),
        ensures
            final(self).wf(),
            final(self).x == old(self).x,
            final(self).positions@ == old(self).positions@.push(
                new_marker(old(self).x, window_height, rect_width),
            ),
            final(self).positions@.last().y <= 2 * window_height,
    {
        let m = Rect { x: self.x, y: window_height as i64, w: rect_width, h: 2 };
        self.positions.push(m);
    }

    /// Moves every marker one pixel down, then evicts each marker that has
    /// passed the bottom of a window `window_height` pixels high; the others
    /// keep their order.
    pub fn update(&mut self, window_height: u32)
        requires
            old(self).wf(),
        ensures
            final(self).wf(),
            final(self).x == old(self).x,
            final(self).positions@ == tick(old(self).positions@, window_height as int),
            forall|i: int|
                0 <= i < final(self).positions@.len() ==> final(self).positions@[i].y <= 2
                    * window_height,
    {
        let ghost h = 2 * window_height;
        let ghost adv = advanced(self.positions@);
        let n = self.positions.len();
        let mut moved: Vec<Rect> = Vec::new();
        let mut i: usize = 0;
        while i < n
            invariant
                0 <= i <= n,
                n == self.positions@.len(),
                h == 2 * window_height,
                adv == advanced(self.positions@),
                self.wf(),
                moved@ == kept(adv.take(i as int), h),
                forall|j: int|
                    #![trigger moved@[j]]
                    0 <= j < moved@.len() ==> {
                        &&& moved@[j].x == self.x
                        &&& moved@[j].h == 2
                        &&& 0 <= moved@[j].y <= h
                    },
            decreases n - i,
        {
            let r = self.positions[i];
            let m = Rect { y: r.y + 2, ..r };
            assert(adv.take(i + 1).drop_last() =~= adv.take(i as int));
            if m.y <= 2 * (window_height as i64) {
                moved.push(m);
            }
            i = i + 1;
        }
        assert(adv.take(n as int) =~= adv);
        self.positions = moved;
    }
}

/// A background of a skin, by its theme name and pixel size.
#[derive(Clone, Debug)]
pub struct Theme {
    pub theme: String,
    pub width: u32,
    pub height: u32,
}

/// One lane per button, laid out across the background, with its markers.
pub struct PianoRoll {
    /// Width of every marker, in half units.
    pub rect_width: i64,
    /// The lanes, left to right, at the positions that `lane_index` gives.
    pub x_positions: Vec<PianoRollRect>,
}

impl PianoRoll {
    /// Twelve lanes, each in its column and each marker as wide as the rest.
    pub open spec fn wf(&self) -> bool {
        &&& self.x_positions@.len() == LANE_COUNT
        &&& forall|k: int|
            #![trigger self.x_positions@[k]]
            0 <= k < LANE_COUNT ==> {
                &&& self.x_positions@[k].wf()
                &&& widths(self.x_positions@[k].positions@, self.rect_width)
            }
    }

    /// The lane of button `p`.
    pub open spec fn lane_spec(&self, p: Pressed) -> PianoRollRect {
        self.x_positions@[lane_index(p)]
    }

    /// Lays out one empty lane per button across the background's width.
    pub fn new(background: &Theme) -> (r: Self)
        ensures
            r.wf(),
            r.rect_width == 2 * lane_width(background.width as int),
            forall|k: int|
                #![trigger r.x_positions@[k]]
                0 <= k < LANE_COUNT ==> {
                    &&& r.x_positions@[k].x == lane_x(background.width as int, k)
                    &&& r.x_positions@[k].positions@.len() == 0
                },
    {
        let ghost w = background.width as int;
        let width = background.width as i64;
        let section_width = (width + 6) / 12;
        let extra_width = width % 12;
        let inside_padding = INSIDE_PADDING;
        let rect_width = 2 * (section_width - inside_padding * 2);
        let mut x_positions: Vec<PianoRollRect> = Vec::new();
        let mut k: usize = 0;
        while k < LANE_COUNT
            invariant
                0 <= k <= LANE_COUNT,
                w == background.width,
                section_width == self::section_width(w),
                extra_width == w % 12,
                inside_padding == INSIDE_PADDING,
                x_positions@.len() == k,
                forall|j: int|
                    #![trigger x_positions@[j]]
                    0 <= j < k ==> {
                        &&& x_positions@[j].x == lane_x(w, j)
                        &&& x_positions@[j].positions@.len() == 0
                    },
            decreases LANE_COUNT - k,
        {
            assert(0 <= k * section_width <= 12 * 400_000_000) by (nonlinear_arith)
                requires
                    k <= 12,
                    0 <= section_width <= 400_000_000,
            ;
            assert(2 * k * section_width == 2 * (k * section_width)) by (nonlinear_arith);
            let x = extra_width + 2 * inside_padding + 2 * ((k as i64) * section_width);
            x_positions.push(PianoRollRect::new(x));
            k = k + 1;
        }
        PianoRoll { rect_width, x_positions }
    }

    /// One frame in a window `window.1` pixels high: every lane ticks (its
    /// markers move one pixel down and those past the window's bottom leave),
    /// then each press of `events` admits a marker at mid-height at the back of
    /// its button's lane.
    pub fn update(&mut self, window: (u32, u32), events: &[Pressed])
        requires
            old(self).wf(),
        ensures
            final(self).wf(),
            final(self).rect_width == old(self).rect_width,
            forall|k: int|
                #![trigger final(self).x_positions@[k]]
                0 <= k < LANE_COUNT ==> {
                    &&& final(self).x_positions@[k].x == old(self).x_positions@[k].x
                    &&& final(self).x_positions@[k].positions@ == tick(
                        old(self).x_positions@[k].positions@,
                        window.1 as int,
                    ) + admitted(
                        old(self).x_positions@[k].x,
                        window.1,
                        old(self).rect_width,
                        count_of(events@, button_at(k)),
                    )
                },
            forall|k: int, i: int|
                0 <= k < LANE_COUNT && 0 <= i < final(self).x_positions@[k].positions@.len()
                    ==> #[trigger] final(self).x_positions@[k].positions@[i].y <= 2 * window.1,
    {
        let window_height = window.1;
        let ghost h = window_height as int;
        let ghost before = self.x_positions@;
        let mut k: usize = 0;
        while k < LANE_COUNT
            invariant
                0 <= k <= LANE_COUNT,
                h == window_height,
                before == old(self).x_positions@,
                self.rect_width == old(self).rect_width,
                old(self).wf(),
                self.x_positions@.len() == LANE_COUNT,
                forall|j: int|
                    #![trigger self.x_positions@[j]]
                    0 <= j < LANE_COUNT ==> {
                        &&& self.x_positions@[j].wf()
                        &&& widths(self.x_positions@[j].positions@, self.rect_width)
                        &&& self.x_positions@[j].x == before[j].x
                        &&& self.x_positions@[j].positions@ == if j < k {
                            tick(before[j].positions@, h)
                        } else {
                            before[j].positions@
                        }
                        &&& j < k ==> forall|i: int|
                            0 <= i < self.x_positions@[j].positions@.len()
                                ==> #[trigger] self.x_positions@[j].positions@[i].y <= 2 * h
                    },
            decreases LANE_COUNT - k,
        {
            proof {
                lemma_kept_widths(advanced(before[k as int].positions@), 2 * h, self.rect_width);
            }
            self.x_positions[k].update(window_height);
            k = k + 1;
        }
        let rect_width = self.rect_width;
        let mut j: usize = 0;
        while j < events.len()
            invariant
                0 <= j <= events@.len(),
                h == window_height,
                before == old(self).x_positions@,
                self.rect_width == old(self).rect_width,
                rect_width == self.rect_width,
                self.x_positions@.len() == LANE_COUNT,
                forall|k: int|
                    #![trigger self.x_positions@[k]]
                    0 <= k < LANE_COUNT ==> {
                        &&& self.x_positions@[k].wf()
                        &&& widths(self.x_positions@[k].positions@, self.rect_width)
                        &&& self.x_positions@[k].x == before[k].x
                        &&& self.x_positions@[k].positions@ == tick(before[k].positions@, h)
                            + admitted(
                            before[k].x,
                            window_height,
                            rect_width,
                            count_of(events@.take(j as int), button_at(k)),
                        )
                        &&& forall|i: int|
                            0 <= i < self.x_positions@[k].positions@.len()
                                ==> #[trigger] self.x_positions@[k].positions@[i].y <= 2 * h
                    },
            decreases events@.len() - j,
        {
            let e = events[j];
            let lane = e.lane();
            proof {
                assert(events@.take(j + 1).drop_last() =~= events@.take(j as int));
                crate::button::lemma_lane_order_bijective(e, 0);
                assert forall|k: int| 0 <= k < LANE_COUNT implies #[trigger] admitted(
                    before[k].x,
                    window_height,
                    rect_width,
                    count_of(events@.take(j + 1), button_at(k)),
                ) == if k == lane {
                    admitted(
                        before[k].x,
                        window_height,
                        rect_width,
                        count_of(events@.take(j as int), button_at(k)),
                    ).push(new_marker(before[k].x, window_height, rect_width))
                } else {
                    admitted(
                        before[k].x,
                        window_height,
                        rect_width,
                        count_of(events@.take(j as int), button_at(k)),
                    )
                } by {
                    crate::button::lemma_lane_order_bijective(e, k);
                    let n = count_of(events@.take(j as int), button_at(k));
                    if k == lane {
                        assert(admitted(before[k].x, window_height, rect_width, n + 1) =~= admitted(
                            before[k].x,
                            window_height,
                            rect_width,
                            n,
                        ).push(new_marker(before[k].x, window_height, rect_width)));
                    }
                }
            }
            self.x_positions[lane].add(window_height, rect_width);
            j = j + 1;
        }
        assert(events@.take(events@.len() as int) =~= events@);
    }

    /// The lane of button `p`.
    pub fn lane(&self, p: Pressed) -> (r: &PianoRollRect)
        requires
            self.wf(),
        ensures
            *r == self.lane_spec(p),
    {
        &self.x_positions[p.lane()]
    }
}

} // verus!
