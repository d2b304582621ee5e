use ytplay::faces::keyboard_scene;
use ytplay::keyboard::{is_black, key_at, key_rect, layout, HIGHEST, LOWEST, PX};
use ytplay::notes::{Moment, Note};
use ytplay::player::{keys_down, keys_up};

#[test]
fn layout_of_the_first_window() {
    let l = layout(1560, 800);
    assert_eq!((l.w, l.h), (1560 * PX, 800 * PX));
    assert_eq!(l.x0 * 10, 312 * PX);
    assert_eq!(52 * l.ww, l.w - 2 * l.x0);
    assert_eq!(l.kb_h * 10, l.ww * 56);
    assert_eq!(l.slip_y, 778 * PX);
    assert_eq!(l.kb_y, l.slip_y - l.kb_h);
    assert_eq!(l.felt_y, l.kb_y - 7 * PX);
    assert_eq!(l.bar_y, l.felt_y - 14 * PX);
}

#[test]
fn cheek_blocks_stay_within_bounds() {
    assert_eq!(layout(100, 100).x0, 16 * PX);
    assert_eq!(layout(800, 100).x0, 16 * PX);
    assert_eq!(layout(1000, 100).x0, 20 * PX);
    assert_eq!(layout(5000, 100).x0, 36 * PX);
}

#[test]
fn a_piano_has_36_black_keys() {
    assert_eq!((LOWEST..=HIGHEST).filter(|&k| is_black(k)).count(), 36);
    assert!(is_black(61) && !is_black(60) && is_black(22) && !is_black(108));
}

#[test]
fn key_widths() {
    assert_eq!(key_rect(60, 100), (2300, 100));
    // Between the 24th white key and the 25th, 0.6 wide.
    assert_eq!(key_rect(61, 100), (2400 - 30, 60));
}

#[test]
fn every_key_answers_in_its_middle() {
    let l = layout(1560, 800);
    for k in LOWEST..=HIGHEST {
        let (x, w) = key_rect(k, l.ww);
        let y = if is_black(k) { l.kb_y + PX } else { l.kb_y + l.kb_h - PX };
        assert_eq!(key_at(&l, l.x0 + x + w / 2, y), Some(k));
    }
}

#[test]
fn no_key_beside_the_keyboard() {
    let l = layout(1560, 800);
    let y = l.kb_y + l.kb_h / 2;
    assert_eq!(key_at(&l, l.x0 - 1, y), None);
    assert_eq!(key_at(&l, l.w - l.x0 + 1, y), None);
    assert_eq!(key_at(&l, l.w / 2, l.slip_y + 1), None);
    assert_eq!(key_at(&l, l.x0, y), Some(21));
    assert_eq!(key_at(&l, l.w - l.x0, y), Some(108));
}

#[test]
fn keys_are_down_while_their_notes_sound() {
    let notes = vec![
        Note { start: Moment::At(10), end: Moment::At(20), key: 60 },
        Note { start: Moment::At(15), end: Moment::Never, key: 62 },
    ];
    let down = |t: i128| -> Vec<usize> {
        keys_down(&notes, t).iter().enumerate().filter(|(_, d)| **d).map(|(k, _)| k).collect()
    };
    assert!(down(9).is_empty());
    assert_eq!(down(10), vec![60]);
    assert_eq!(down(15), vec![60, 62]);
    assert_eq!(down(20), vec![62]);
    assert!(down(-1).is_empty());
    assert!(keys_up().iter().all(|d| !d));
}

#[test]
fn faces_of_the_keys() {
    let l = layout(1560, 800);
    let mut down = keys_up();
    down[60] = true;
    down[61] = true;
    let s = keyboard_scene(&l, &down);
    assert_eq!((s.ports.len(), s.whites.len(), s.blacks.len()), (88, 52, 36));
    // C4 is the 24th white key, C#4 the 17th black one.
    let (c, d) = (&s.whites[23], &s.whites[24]);
    assert!(c.pressed && !d.pressed);
    assert_eq!(d.x - c.x, l.ww);
    assert_eq!(c.w, l.ww - PX);
    assert_eq!(c.lip * 100, d.lip * 45);
    assert!(s.blacks[16].pressed && !s.blacks[15].pressed);
    assert_eq!(s.blacks[16].front * 2, s.blacks[15].front);
    assert!(s.ports[60 - 21].lit && !s.ports[0].lit);
}
