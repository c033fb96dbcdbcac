use piano_roll::button::{Pressed, LANE_COUNT};
use piano_roll::piano_roll::{PianoRoll, PianoRollRect, Rect, Theme, INSIDE_PADDING};

fn theme(width: u32) -> Theme {
    Theme { theme: String::from("default"), width, height: 100 }
}

fn lane_ys(roll: &PianoRoll, p: Pressed) -> Vec<i64> {
    roll.lane(p).positions.iter().map(|r| r.y).collect()
}

const ORDER: [Pressed; 12] = [
    Pressed::Left,
    Pressed::Up,
    Pressed::Down,
    Pressed::Right,
    Pressed::L,
    Pressed::Select,
    Pressed::Start,
    Pressed::R,
    Pressed::Y,
    Pressed::B,
    Pressed::X,
    Pressed::A,
];

#[test]
fn lane_order_is_canonical() {
    for (i, p) in ORDER.iter().enumerate() {
        assert_eq!(p.lane(), i);
        assert_eq!(Pressed::at_lane(i), *p);
    }
    assert_eq!(LANE_COUNT, 12);
}

// Positions and sizes are in half units: twice the length in pixels.

#[test]
fn width_120_gives_zero_marker_width() {
    let roll = PianoRoll::new(&theme(120));
    assert_eq!(roll.rect_width, 0);
    assert_eq!(roll.lane(Pressed::Left).x, 10);
    assert_eq!(roll.lane(Pressed::Up).x, 30);
    assert_eq!(roll.lane(Pressed::A).x, 230);
}

#[test]
fn width_240_layout() {
    // Sections of 20 pixels, markers 10 wide, the first lane at x = 5.
    let roll = PianoRoll::new(&theme(240));
    assert_eq!(roll.rect_width, 20);
    assert_eq!(roll.lane(Pressed::Left).x, 2 * INSIDE_PADDING);
    for (i, p) in ORDER.iter().enumerate() {
        assert_eq!(roll.lane(*p).x, 10 + 40 * i as i64);
        assert!(roll.lane(*p).positions.is_empty());
    }
    assert_eq!(roll.x_positions.len(), 12);
}

#[test]
fn odd_remainder_pads_left_by_half() {
    // 127 = 12 * 10 + 7: sections round to 11, the left padding is 3.5, so
    // the first lane stands at 8.5.
    let roll = PianoRoll::new(&theme(127));
    assert_eq!(roll.rect_width, 2);
    assert_eq!(roll.lane(Pressed::Left).x, 17);
    assert_eq!(roll.lane(Pressed::Up).x, 39);
    assert_eq!(roll.lane(Pressed::A).x, 17 + 22 * 11);
}

#[test]
fn marker_width_positive_from_126() {
    assert_eq!(PianoRoll::new(&theme(125)).rect_width, 0);
    assert_eq!(PianoRoll::new(&theme(126)).rect_width, 2);
    assert_eq!(PianoRoll::new(&theme(60)).rect_width, -10);
}

#[test]
fn lanes_do_not_overlap_and_fit() {
    for w in [6u32, 7, 50, 119, 120, 121, 240, 251, 1000, 1921] {
        let roll = PianoRoll::new(&theme(w));
        let xs: Vec<i64> = ORDER.iter().map(|p| roll.lane(*p).x).collect();
        assert!(xs[0] >= 2 * INSIDE_PADDING);
        for k in 1..12 {
            assert!(xs[k - 1] < xs[k]);
            assert!(xs[k - 1] + roll.rect_width <= xs[k]);
        }
        assert!(xs[11] + roll.rect_width <= 2 * w as i64 + 8);
        if w % 12 < 6 {
            assert!(xs[11] + roll.rect_width <= 2 * w as i64);
        }
    }
}

#[test]
fn press_then_age_then_evict() {
    let mut roll = PianoRoll::new(&theme(240));
    roll.update((240, 100), &[Pressed::Up]);
    assert_eq!(
        roll.lane(Pressed::Up).positions,
        vec![Rect { x: 50, y: 100, w: 20, h: 2 }]
    );
    roll.update((240, 100), &[]);
    assert_eq!(lane_ys(&roll, Pressed::Up), vec![102]);
    for _ in 0..49 {
        roll.update((240, 100), &[]);
    }
    assert_eq!(lane_ys(&roll, Pressed::Up), vec![200]);
    roll.update((240, 100), &[]);
    assert!(roll.lane(Pressed::Up).positions.is_empty());
    for p in ORDER.iter() {
        assert!(roll.lane(*p).positions.is_empty());
    }
}

#[test]
fn marker_lifetime_at_odd_height() {
    // Born at 50.5, on screen while y <= 101: 50 ticks after birth.
    let mut roll = PianoRoll::new(&theme(240));
    roll.update((240, 101), &[Pressed::A]);
    assert_eq!(lane_ys(&roll, Pressed::A), vec![101]);
    for _ in 0..50 {
        roll.update((240, 101), &[]);
    }
    assert_eq!(lane_ys(&roll, Pressed::A), vec![201]);
    roll.update((240, 101), &[]);
    assert!(lane_ys(&roll, Pressed::A).is_empty());
}

#[test]
fn repeated_presses_each_make_a_marker() {
    let mut roll = PianoRoll::new(&theme(240));
    for _ in 0..5 {
        roll.update((240, 100), &[Pressed::B]);
    }
    assert_eq!(lane_ys(&roll, Pressed::B), vec![108, 106, 104, 102, 100]);
    assert!(lane_ys(&roll, Pressed::X).is_empty());
}

#[test]
fn lane_stays_full_until_first_marker_leaves() {
    // With height 10, a marker is seen at 5, 6, .., 10: six frames.
    let mut roll = PianoRoll::new(&theme(240));
    for _ in 0..6 {
        roll.update((240, 10), &[Pressed::L]);
    }
    assert_eq!(lane_ys(&roll, Pressed::L), vec![20, 18, 16, 14, 12, 10]);
    roll.update((240, 10), &[Pressed::L]);
    assert_eq!(lane_ys(&roll, Pressed::L), vec![20, 18, 16, 14, 12, 10]);
}

#[test]
fn several_buttons_in_one_frame() {
    let mut roll = PianoRoll::new(&theme(240));
    roll.update((240, 100), &[Pressed::Left, Pressed::A, Pressed::Left]);
    assert_eq!(lane_ys(&roll, Pressed::Left), vec![100, 100]);
    assert_eq!(lane_ys(&roll, Pressed::A), vec![100]);
    assert_eq!(roll.lane(Pressed::A).positions[0].x, 450);
    assert!(lane_ys(&roll, Pressed::Start).is_empty());
}

#[test]
fn order_kept_while_window_shrinks() {
    let mut roll = PianoRoll::new(&theme(240));
    roll.update((240, 200), &[Pressed::Down]);
    roll.update((240, 150), &[Pressed::Down]);
    roll.update((240, 120), &[Pressed::Down]);
    assert_eq!(lane_ys(&roll, Pressed::Down), vec![204, 152, 120]);
}

#[test]
fn shrinking_window_evicts_every_marker_past_it() {
    let mut roll = PianoRoll::new(&theme(240));
    roll.update((240, 200), &[Pressed::R]);
    roll.update((240, 200), &[Pressed::R]);
    assert_eq!(lane_ys(&roll, Pressed::R), vec![202, 200]);
    roll.update((240, 40), &[]);
    assert!(lane_ys(&roll, Pressed::R).is_empty());
}

#[test]
fn growing_window_keeps_insertion_order() {
    let mut roll = PianoRoll::new(&theme(240));
    roll.update((240, 100), &[Pressed::Y]);
    roll.update((240, 200), &[Pressed::Y]);
    assert_eq!(lane_ys(&roll, Pressed::Y), vec![102, 200]);
}

#[test]
fn single_lane_add_and_update() {
    let mut lane = PianoRollRect::new(7);
    lane.add(20, 3);
    assert_eq!(lane.positions, vec![Rect { x: 7, y: 20, w: 3, h: 2 }]);
    lane.update(20);
    assert_eq!(lane.positions, vec![Rect { x: 7, y: 22, w: 3, h: 2 }]);
    lane.update(11);
    assert!(lane.positions.is_empty());
}

#[test]
fn zero_height_window() {
    let mut lane = PianoRollRect::new(0);
    lane.add(0, 1);
    assert_eq!(lane.positions[0].y, 0);
    lane.update(0);
    assert!(lane.positions.is_empty());
}

#[test]
fn height_one_marker_leaves_at_next_tick() {
    // Born at 0.5, moved to 1.5 > 1.
    let mut lane = PianoRollRect::new(0);
    lane.add(1, 2);
    assert_eq!(lane.positions[0].y, 1);
    lane.update(1);
    assert!(lane.positions.is_empty());
}
