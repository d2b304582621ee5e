use ytplay::keyboard::{layout, HEADER_H, PX};
use ytplay::notes::{Moment, Note};
use ytplay::paper::{floor_div, paper_tiles, TILE};
use ytplay::player::{
    clock_str, count_block, is_sounding, lead_frames, lead_in, playhead, roll_length, roll_over,
    time_label,
};
use ytplay::roll::{
    height_of, pill, punched_slots, roll_scene, ruled_seconds, Slot, CUT_EDGE, REACH,
};

const S: i128 = 1_000_000_000;

fn note(start: i128, end: i128, key: u8) -> Note {
    Note { start: Moment::At(start as u128), end: Moment::At(end as u128), key }
}

#[test]
fn the_roll_starts_three_seconds_early() {
    assert_eq!(playhead(0, 48_000), -3 * S);
    assert_eq!(playhead(48_000, 48_000), -2 * S);
    assert_eq!(playhead(144_000, 48_000), 0);
    assert_eq!(playhead(144_001, 48_000), 20_833);
    assert_eq!(lead_frames(44_100), 132_300);
}

#[test]
fn the_leader_is_silent() {
    let lead = lead_frames(48_000);
    let block = |played: u64| {
        let (mut l, mut r) = ([1.0f32, 2.0], [3.0f32, 4.0]);
        (lead_in(played, lead, &mut l, &mut r, 0.0), l, r)
    };
    for played in [0, 143_999] {
        assert_eq!(block(played), (true, [0.0, 0.0], [0.0, 0.0]));
        assert!(playhead(played, 48_000) < 0);
    }
    assert_eq!(block(144_000), (false, [1.0, 2.0], [3.0, 4.0]));
    assert!(playhead(144_000, 48_000) >= 0);
}

#[test]
fn every_block_is_counted() {
    let lead = lead_frames(16_000);
    let (mut clock, mut filled, mut silent) = (0, 0, 0);
    for n in [20_000, 27_000, 999, 1, 500, 0, 700] {
        if lead_in(clock, lead, &mut [0u8], &mut [0u8], 0) {
            silent += 1;
        } else {
            filled += n;
        }
        clock = count_block(clock, n);
    }
    assert_eq!((clock, filled, silent), (49_200, 1_200, 4));
    assert_eq!(count_block(u64::MAX, 3), 2);
}

#[test]
fn the_length_is_the_last_end() {
    assert_eq!(roll_length(&vec![]), Moment::At(0));
    assert_eq!(roll_length(&vec![note(0, 9, 60), note(1, 5, 61)]), Moment::At(9));
    let endless = Note { start: Moment::At(0), end: Moment::Never, key: 60 };
    assert_eq!(roll_length(&vec![note(0, 9, 60), endless]), Moment::Never);
    let odd = Note { start: Moment::At(0), end: Moment::Undefined, key: 60 };
    assert_eq!(roll_length(&vec![odd, note(0, 9, 60)]), Moment::At(9));
}

#[test]
fn the_roll_is_over_once_the_tail_has_rung_out() {
    assert!(!roll_over(Moment::At(10), 1_500_000_010));
    assert!(roll_over(Moment::At(10), 1_500_000_011));
    assert!(!roll_over(Moment::Never, i128::MAX));
    let notes = vec![note(0, 10, 60)];
    assert!(!is_sounding(&notes[0], 1_500_000_011));
}

#[test]
fn clocks() {
    assert_eq!(clock_str(-S), "0:00");
    assert_eq!(clock_str(59 * S + S / 2), "0:59");
    assert_eq!(clock_str(187 * S), "3:07");
    assert_eq!(clock_str(36_000 * S), "600:00");
    assert_eq!(time_label(42 * S, Moment::At(187_000_000_000)), "0:42 / 3:07");
    assert_eq!(time_label(0, Moment::Never), "0:00 / 4294967295:15");
}

#[test]
fn moments_move_down_the_window() {
    let l = layout(1560, 800);
    assert_eq!(height_of(&l, 5 * S, 5 * S), l.bar_y);
    assert_eq!(height_of(&l, 8 * S, 5 * S), HEADER_H);
    let middle = height_of(&l, 13 * S / 2, 5 * S);
    assert!((2 * middle - l.bar_y - HEADER_H).abs() <= 1);
    assert!(height_of(&l, 4 * S, 5 * S) > l.bar_y);
}

#[test]
fn notes_show_while_they_are_to_come() {
    let l = layout(1560, 800);
    let notes = vec![note(S, 2 * S, 60), note(4 * S, 5 * S, 61), note(9 * S, 10 * S, 62)];
    assert_eq!(punched_slots(&l, &notes, -3 * S).len(), 0);
    assert_eq!(punched_slots(&l, &notes, -S).len(), 1);
    assert_eq!(punched_slots(&l, &notes, 3 * S / 2).len(), 2);
    assert_eq!(punched_slots(&l, &notes, 2 * S).len(), 1);
    assert_eq!(punched_slots(&l, &notes, 11 * S).len(), 0);
    let slot = punched_slots(&l, &notes, 0)[0];
    assert_eq!(slot.y1, height_of(&l, S, 0));
    assert_eq!(slot.y0, height_of(&l, 2 * S, 0));
    assert_eq!(slot.w * 2, l.ww);
    assert_eq!((slot.cx - l.x0) * 2, 47 * l.ww); // the middle of the 24th white key
}

#[test]
fn long_notes_are_cut_at_the_edges() {
    let l = layout(1560, 800);
    let slot = punched_slots(&l, &vec![note(0, 100 * S, 61)], 50 * S)[0];
    assert_eq!(slot.y0, HEADER_H - 20 * PX);
    assert_eq!(slot.y1, l.bar_y + slot.w);
    assert_eq!(slot.w * 1000, l.ww * 372); // 0.62 of a black key's 0.6
}

#[test]
fn rules_for_whole_seconds() {
    let l = layout(1560, 800);
    // Both ends of the window lie on a second; neither is drawn.
    assert_eq!(ruled_seconds(&l, 0), vec![height_of(&l, S, 0), height_of(&l, 2 * S, 0)]);
    assert_eq!(ruled_seconds(&l, S / 2).len(), 3);
}

#[test]
fn the_leader_carries_title_and_start_line() {
    let l = layout(1560, 800);
    let s = roll_scene(&l, &vec![], -3 * S);
    assert_eq!(s.title, Some(height_of(&l, -3 * S / 2, -3 * S)));
    assert_eq!(s.start_line, None);
    assert_eq!(s.octaves.len(), 8);
    assert_eq!(s.octaves[0], l.x0 + 2 * l.ww);
    assert_eq!(roll_scene(&l, &vec![], -S).start_line, Some(height_of(&l, 0, -S)));
    let s = roll_scene(&l, &vec![note(0, 5 * S, 60)], S);
    assert_eq!((s.title, s.start_line, s.slots.len()), (None, None, 1));
    assert!(s.down[60] && !s.down[61]);
}

#[test]
fn paper_covers_the_window() {
    let l = layout(1560, 800);
    for t in [-3 * S, -1, 0, S / 3, 12_345 * S / 10] {
        let tiles = paper_tiles(&l, t);
        let area: i128 = tiles.iter().map(|p| p.w as i128 * p.h as i128).sum();
        assert_eq!(area, (l.w - 2 * l.x0) as i128 * (l.bar_y - HEADER_H) as i128);
        for p in &tiles {
            assert!(p.x >= l.x0 && p.x + p.w <= l.w - l.x0);
            assert!(p.y >= HEADER_H && p.y + p.h <= l.bar_y);
            assert!(p.cut >= 0 && p.cut + p.h <= TILE);
        }
    }
    // At the start an unmirrored tile hangs from the top of the window.
    let first = paper_tiles(&l, 0)[0];
    assert_eq!((first.x, first.y, first.cut, first.mirrored), (l.x0, HEADER_H, 0, false));
}

#[test]
fn division_rounds_down() {
    assert_eq!((floor_div(7, 2), floor_div(-7, 2), floor_div(-8, 2), floor_div(0, 5)), (3, -4, -4, 0));
}

#[test]
fn pills() {
    let slot = Slot { cx: 5, w: 20, y0: 100, y1: 180 };
    let p = pill(&slot, 0);
    assert_eq!((p.cx, p.r, p.upper, p.lower, p.body), (5, 10, 110, 170, true));
    let e = pill(&slot, CUT_EDGE);
    assert_eq!((e.r, e.upper - e.r, e.lower + e.r), (10 + CUT_EDGE, 100 - CUT_EDGE, 180 + CUT_EDGE));
    // Too short for a body.
    let p = pill(&Slot { cx: 0, w: 20, y0: 100, y1: 110 }, 0);
    assert_eq!((p.upper, p.lower, p.body), (100, 110, false));
}

#[test]
fn paper_rows_meet_at_the_same_line() {
    let l = layout(1560, 1400);
    let mut met = 0;
    for t in [0, S, 7 * S / 2] {
        let tiles = paper_tiles(&l, t);
        for a in &tiles {
            for b in &tiles {
                if a.y + a.h == b.y {
                    assert_eq!((a.cut + a.h, b.cut), (TILE, 0));
                    assert_ne!(a.mirrored, b.mirrored);
                    met += 1;
                }
            }
        }
    }
    assert!(met > 0);
}

#[test]
fn slots_lie_on_the_bar_while_their_notes_sound() {
    let l = layout(1560, 800);
    let n = note(2 * S, 4 * S, 60);
    for t in [S, 2 * S, 3 * S, 4 * S] {
        let (start, end) = (height_of(&l, 2 * S, t), height_of(&l, 4 * S, t));
        assert_eq!(is_sounding(&n, t), start >= l.bar_y && end < l.bar_y);
        assert_eq!(punched_slots(&l, &vec![n], t).len(), if t < 4 * S { 1 } else { 0 });
    }
}

#[test]
fn windows_that_are_too_low_turn_the_roll_around() {
    // The tracker bar stands above the nameboard's lower edge.
    let l = layout(1560, 200);
    let wh = (l.bar_y - HEADER_H) as i128;
    assert!(wh < 0);
    assert_eq!(height_of(&l, 3 * S, 0), HEADER_H);
    assert_eq!(height_of(&l, 3_000 * S, 0) as i128, l.bar_y as i128 - 1_000 * wh);
    assert_eq!(height_of(&l, 3_000_000_000 * S, 0), l.bar_y + REACH);
    assert_eq!(height_of(&l, -3_000_000_000 * S, 0), l.bar_y - REACH);
    let endless = Note { start: Moment::At(0), end: Moment::Never, key: 60 };
    assert_eq!(punched_slots(&l, &vec![endless], 0)[0].y0, l.bar_y + REACH);
    // Elsewhere what never ends reaches the upper edge.
    let l = layout(1560, 800);
    assert_eq!(punched_slots(&l, &vec![endless], 0)[0].y0, HEADER_H - 20 * PX);
}

#[test]
fn times_of_any_length_have_a_height() {
    let l = layout(1560, 800);
    assert_eq!(height_of(&l, i128::MAX, -3 * S), l.bar_y - REACH);
    assert_eq!(height_of(&l, i128::MIN, 0), l.bar_y + REACH);
}
