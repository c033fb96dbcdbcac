use vstd::prelude::*;

use crate::piano_roll::{
    admitted, advanced, descending, kept, lane_width, lane_x, new_marker, shifted, tick, Rect,
    INSIDE_PADDING,
};

verus! {

/// Lanes in the canonical order never overlap: each lane's marker, widened by
/// the marker width, ends at or before the next lane's left edge; and once the
/// background is wide enough for a section of at least one pixel (six pixels or
/// more), the left edges strictly increase. Positions are in half units.
pub proof fn lemma_lanes_disjoint(w: int, i: int, j: int)
    requires
        0 < w,
        0 <= i < j < 12,
    ensures
        lane_x(w, i) + 2 * lane_width(w) <= lane_x(w, j),
        w >= 6 ==> lane_x(w, i) < lane_x(w, j),
{
    let sw = (w + 6) / 12;
    assert(sw >= 0);
    assert(w >= 6 ==> sw >= 1);
    assert(2 * j * sw - 2 * i * sw >= 2 * sw) by (nonlinear_arith)
        requires
            i < j,
            sw >= 0,
    ;
}

/// The first lane's marker starts at least the inside padding from the left
/// edge; the last lane's marker ends within four pixels past the background's
/// right edge (the rounding of the section width), and within the background
/// when the width leaves a remainder under six on division by twelve.
/// Positions are in half units.
pub proof fn lemma_padding(w: int)
    requires
        0 < w,
    ensures
        lane_x(w, 0) >= 2 * INSIDE_PADDING,
        lane_x(w, 11) + 2 * lane_width(w) <= 2 * w + 8,
        w % 12 < 6 ==> lane_x(w, 11) + 2 * lane_width(w) <= 2 * w,
{
    let q = w / 12;
    let r = w % 12;
    let sw = (w + 6) / 12;
    assert(w == 12 * q + r);
    assert(lane_x(w, 11) == r + 2 * INSIDE_PADDING + 22 * sw);
    assert(lane_width(w) == sw - 2 * INSIDE_PADDING);
    if r < 6 {
        assert((w + 6) / 12 == q);
    } else {
        assert((w + 6) / 12 == q + 1);
    }
}

/// A lane's marker has a positive width exactly when the background is at
/// least 126 pixels wide; below that the inside padding takes the whole section.
pub proof fn lemma_lane_width_positive(w: int)
    requires
        0 <= w,
    ensures
        lane_width(w) > 0 <==> w >= 126,
{
}

/// Every marker moved `t` pixels down, then one more, is every marker moved
/// `t + 1` pixels down.
proof fn lemma_shift_step(s: Seq<Rect>, t: int)
    requires
        forall|i: int| 0 <= i < s.len() ==> 0 <= #[trigger] s[i].y <= 2 * u32::MAX,
        0 <= t <= u32::MAX,
    ensures
        advanced(shifted(s, t)) == shifted(s, t + 1),
{
    assert(advanced(shifted(s, t)) =~= shifted(s, t + 1));
}

/// What eviction keeps lies within the window and within any lower bound that
/// held of the whole lane.
pub proof fn lemma_kept_bounds(s: Seq<Rect>, h: int, lo: int)
    requires
        forall|i: int| 0 <= i < s.len() ==> #[trigger] s[i].y >= lo,
    ensures
        forall|i: int|
            0 <= i < kept(s, h).len() ==> lo <= #[trigger] kept(s, h)[i].y <= h,
    decreases s.len(),
{
    if s.len() > 0 {
        let d = s.drop_last();
        assert forall|i: int| 0 <= i < d.len() implies #[trigger] d[i].y >= lo by {
            assert(d[i] == s[i]);
        }
        lemma_kept_bounds(d, h, lo);
        assert(s.last() == s[s.len() - 1]);
        let k = kept(d, h);
        if s.last().y <= h {
            assert(kept(s, h) == k.push(s.last()));
            assert forall|i: int| 0 <= i < k.len() + 1 implies lo <= #[trigger] k.push(
                s.last(),
            )[i].y <= h by {
                if i < k.len() {
                    assert(k.push(s.last())[i] == k[i]);
                }
            }
        }
    }
}

/// Eviction keeps a lane ordered from the oldest to the newest marker.
pub proof fn lemma_kept_descending(s: Seq<Rect>, h: int)
    requires
        descending(s),
    ensures
        descending(kept(s, h)),
    decreases s.len(),
{
    if s.len() > 0 {
        lemma_kept_descending(s.drop_last(), h);
        lemma_kept_bounds(s.drop_last(), h, s.last().y as int);
    }
}

/// When every marker is within the window, eviction removes none.
pub proof fn lemma_kept_all(s: Seq<Rect>, h: int)
    requires
        forall|i: int| 0 <= i < s.len() ==> #[trigger] s[i].y <= h,
    ensures
        kept(s, h) == s,
    decreases s.len(),
{
    if s.len() > 0 {
        lemma_kept_all(s.drop_last(), h);
        assert(s.drop_last().push(s.last()) =~= s);
    }
}

/// A lane's markers stay ordered from the oldest (largest `y`) to the newest
/// across a frame, as long as the window does not grow: if the lane was ordered
/// and no marker lay above the previous frame's mid-height, then after a tick at
/// a height no larger and any number of presses, the lane is ordered and no
/// marker lies above the new mid-height. (In half units the mid-height of a
/// window `h` pixels high is `h`.)
pub proof fn lemma_order_kept(
    s: Seq<Rect>,
    previous_height: u32,
    window_height: u32,
    x: i64,
    w: i64,
    n: nat,
)
    requires
        descending(s),
        forall|i: int|
            0 <= i < s.len() ==> previous_height <= #[trigger] s[i].y <= 2 * u32::MAX,
        window_height <= previous_height,
    ensures
        descending(tick(s, window_height as int) + admitted(x, window_height, w, n)),
        forall|i: int|
            0 <= i < (tick(s, window_height as int) + admitted(x, window_height, w, n)).len()
                ==> window_height <= #[trigger] (tick(s, window_height as int) + admitted(
                x,
                window_height,
                w,
                n,
            ))[i].y,
{
    let h = window_height as int;
    let a = advanced(s);
    assert(descending(a));
    assert forall|i: int| 0 <= i < a.len() implies #[trigger] a[i].y >= h + 2 by {}
    lemma_kept_descending(a, 2 * h);
    lemma_kept_bounds(a, 2 * h, h + 2);
}

/// A lane after `t` ticks at window height `h` with no presses.
pub open spec fn ticks(s: Seq<Rect>, h: int, t: nat) -> Seq<Rect>
    decreases t,
{
    if t == 0 {
        s
    } else {
        tick(ticks(s, h, (t - 1) as nat), h)
    }
}

/// Evicting, moving down and evicting again keeps what moving down and then
/// evicting keeps.
proof fn lemma_kept_advanced(s: Seq<Rect>, h: int)
    requires
        forall|i: int| 0 <= i < s.len() ==> 0 <= #[trigger] s[i].y < i64::MAX - 2,
    ensures
        kept(advanced(kept(s, h)), h) == kept(advanced(s), h),
    decreases s.len(),
{
    if s.len() > 0 {
        let d = s.drop_last();
        let l = s.last();
        assert forall|i: int| 0 <= i < d.len() implies 0 <= #[trigger] d[i].y < i64::MAX - 2 by {
            assert(d[i] == s[i]);
        }
        lemma_kept_advanced(d, h);
        assert(advanced(s).drop_last() =~= advanced(d));
        assert(advanced(s).last() == advanced(s)[s.len() - 1]);
        if l.y <= h {
            let k = kept(d, h);
            assert(advanced(k.push(l)).drop_last() =~= advanced(k));
            assert(advanced(k.push(l)).last() == advanced(k.push(l))[k.len() as int]);
        }
    }
}

/// After `t >= 1` ticks a lane holds exactly its markers moved `t` pixels down
/// that are still within the window, in their order.
proof fn lemma_ticks_kept(s: Seq<Rect>, h: int, t: nat)
    requires
        forall|i: int| 0 <= i < s.len() ==> 0 <= #[trigger] s[i].y <= 2 * u32::MAX,
        0 <= h <= u32::MAX,
        1 <= t <= u32::MAX + 1,
    ensures
        ticks(s, h, t) == kept(shifted(s, t as int), 2 * h),
    decreases t,
{
    if t > 1 {
        lemma_ticks_kept(s, h, (t - 1) as nat);
        let x = shifted(s, t - 1);
        assert forall|i: int| 0 <= i < x.len() implies 0 <= #[trigger] x[i].y < i64::MAX - 2 by {
            assert(x[i].y == s[i].y + 2 * (t - 1));
        }
        lemma_kept_advanced(x, 2 * h);
        lemma_shift_step(s, t - 1);
        assert(ticks(s, h, t) == tick(ticks(s, h, (t - 1) as nat), h));
        assert(tick(kept(x, 2 * h), h) == kept(advanced(x), 2 * h));
        assert(shifted(s, t as int) == shifted(s, (t - 1) + 1));
    } else {
        assert(shifted(s, 1) =~= advanced(s));
        assert(ticks(s, h, 0) == s);
        assert(ticks(s, h, 1) == tick(ticks(s, h, 0), h));
    }
}

/// A marker at height `y0` (in half units) within a window of a constant `h`
/// pixels stays at the back of its lane (no presses come after it), moving one
/// pixel per tick, for as many ticks `t` as keep `y0 + 2 * t <= 2 * h`; at the
/// next tick it is evicted, and from then on the lane is what it would have
/// been without that marker. A marker admitted at mid-height (`y0 = h`) stays
/// `h / 2` ticks (rounded down) and leaves at the one after.
pub proof fn lemma_lifetime(s: Seq<Rect>, h: u32, t: nat)
    requires
        s.len() > 0,
        forall|i: int| 0 <= i < s.len() ==> 0 <= #[trigger] s[i].y <= 2 * u32::MAX,
        s.last().y <= 2 * h,
    ensures
        s.last().y + 2 * t <= 2 * h ==> ticks(s, h as int, t).len() > 0 && ticks(
            s,
            h as int,
            t,
        ).last() == (Rect { y: (s.last().y + 2 * t) as i64, ..s.last() }),
        s.last().y + 2 * t > 2 * h ==> ticks(s, h as int, t) == ticks(s.drop_last(), h as int, t),
    decreases t,
{
    let hi = h as int;
    let y0 = s.last().y as int;
    if t > 0 && y0 + 2 * t <= 2 * hi {
        lemma_lifetime(s, h, (t - 1) as nat);
        let x = ticks(s, hi, (t - 1) as nat);
        let a = advanced(x);
        assert(a.last() == a[x.len() - 1]);
        assert(a.drop_last().push(a.last()) =~= a);
    }
    if y0 + 2 * (t - 1) > 2 * hi {
        lemma_lifetime(s, h, (t - 1) as nat);
    } else if y0 + 2 * t > 2 * hi {
        let d = s.drop_last();
        assert forall|i: int| 0 <= i < d.len() implies 0 <= #[trigger] d[i].y <= 2 * u32::MAX by {
            assert(d[i] == s[i]);
        }
        lemma_ticks_kept(s, hi, t);
        lemma_ticks_kept(d, hi, t);
        let sh = shifted(s, t as int);
        assert(sh.last() == sh[s.len() - 1]);
        assert(sh.drop_last() =~= shifted(d, t as int));
    }
}

/// A lane that starts empty and gets one press at each of `n` ticks at a
/// constant window height `h`.
pub open spec fn pressed_each_tick(x: i64, h: u32, w: i64, n: nat) -> Seq<Rect>
    decreases n,
{
    if n == 0 {
        Seq::empty()
    } else {
        tick(pressed_each_tick(x, h, w, (n - 1) as nat), h as int) + admitted(x, h, w, 1)
    }
}

/// Pressing one button at each of `n` ticks gives `n` markers in its lane, the
/// one pressed `k` ticks ago `k` pixels below mid-height (at `h + 2 * k` in
/// half units), as long as the first of them has not yet left the window
/// (`n <= h / 2 + 1`, rounded down).
pub proof fn lemma_presses_counted(x: i64, h: u32, w: i64, n: nat)
    requires
        n <= h / 2 + 1,
    ensures
        pressed_each_tick(x, h, w, n).len() == n,
        forall|i: int|
            0 <= i < n ==> #[trigger] pressed_each_tick(x, h, w, n)[i] == (Rect {
                x,
                y: (h + 2 * (n - 1 - i)) as i64,
                w,
                h: 2,
            }),
    decreases n,
{
    if n > 0 {
        let m = (n - 1) as nat;
        lemma_presses_counted(x, h, w, m);
        let p = pressed_each_tick(x, h, w, m);
        let a = advanced(p);
        assert forall|i: int| 0 <= i < a.len() implies #[trigger] a[i].y <= 2 * h by {}
        lemma_kept_all(a, 2 * h);
        assert(admitted(x, h, w, 1) =~= seq![new_marker(x, h, w)]);
    }
}

} // verus!
