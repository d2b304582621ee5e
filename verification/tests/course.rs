use ytplay::keyboard::{key_rect, layout, PX};
use ytplay::midi::LoadError;
use ytplay::notes::Moment;
use ytplay::panels::{
    board, case_scene, end_plan, error_note, idle_panel, is_clicked, is_in, menu_plan, Area, VENEER,
};
use ytplay::session::{
    menu_frame, open_piece, play_frame, shown_status, Happening, Input, Mode, Session,
};

const IDLE: Input = Input { x: 0, y: 0, down: false, pressed: false, enter: false, escape: false };

fn click(a: &Area) -> Input {
    Input { x: a.x + a.w / 2, y: a.y + a.h / 2, down: true, pressed: true, ..IDLE }
}

#[test]
fn a_session_runs_its_course() {
    let mut s = Session::new();
    assert_eq!((s.mode, s.error.as_str(), s.piano_open), (Mode::Menu, "", false));
    s.note(Happening::PianoOpened);
    assert!(s.piano_open);
    s.note(Happening::JobStarted);
    assert_eq!((s.mode, s.piano_open), (Mode::Busy, false));
    s.note(Happening::JobPending);
    assert_eq!(s.mode, Mode::Busy);
    s.note(Happening::PlayStarted);
    assert_eq!(s.mode, Mode::Play);
    s.note(Happening::PlayStarted);
    assert_eq!(s.mode, Mode::Play);
    s.note(Happening::Left);
    assert_eq!((s.mode, s.error.as_str()), (Mode::Menu, ""));
}

#[test]
fn failures_come_back_to_the_menu() {
    let mut s = Session::new();
    s.note(Happening::PianoFailed("no device".to_string()));
    assert_eq!((s.mode, s.error.as_str(), s.piano_open), (Mode::Menu, "no device", false));
    s.note(Happening::JobStarted);
    assert_eq!(s.error, "");
    s.note(Happening::JobFailed("a\nb\nc".to_string()));
    assert_eq!(s.mode, Mode::Menu);
    assert_eq!(s.error_lines(2), ["a", "b"]);
    assert_eq!(s.error_lines(9), ["a", "b", "c"]);
    assert!(s.error_lines(0).is_empty());
    s.note(Happening::JobStarted);
    s.note(Happening::JobCrashed);
    assert_eq!((s.mode, s.error.as_str()), (Mode::Menu, "worker thread crashed"));
    s.note(Happening::JobStarted);
    s.note(Happening::PlayFailed("no output".to_string()));
    assert_eq!((s.mode, s.error.as_str()), (Mode::Menu, "no output"));
    s.note(Happening::Left);
    assert_eq!(s.error, "no output");
}

#[test]
fn the_mouse_plays_only_while_down() {
    let (l, s) = (layout(1560, 800), Session::new());
    let (x, y) = (l.x0 + key_rect(60, l.ww).0 + 2 * PX, l.slip_y - PX);
    let f = menu_frame(&s, &l, &Input { x, y, ..IDLE }, "");
    assert_eq!((f.key, f.open_piano), (None, false));
    assert!(f.keys.iter().all(|d| !d));
    let f = menu_frame(&s, &l, &Input { x, y, down: true, ..IDLE }, "");
    assert_eq!((f.key, f.open_piano), (Some(60), true));
    assert!(f.keys[60] && f.keys.iter().filter(|d| **d).count() == 1);
    let open = Session { piano_open: true, ..Session::new() };
    assert!(!menu_frame(&open, &l, &Input { x, y, down: true, ..IDLE }, "").open_piano);
}

#[test]
fn queries_start_jobs() {
    let (l, s) = (layout(1560, 800), Session::new());
    let button = menu_plan(&l).button;
    let enter = Input { enter: true, ..IDLE };
    assert_eq!(menu_frame(&s, &l, &IDLE, "x").start, None);
    assert_eq!(menu_frame(&s, &l, &enter, " clair de lune ").start.as_deref(), Some("clair de lune"));
    assert_eq!(menu_frame(&s, &l, &click(&button), "x").start.as_deref(), Some("x"));
    assert_eq!(menu_frame(&s, &l, &Input { pressed: false, ..click(&button) }, "x").start, None);
    assert_eq!(menu_frame(&s, &l, &enter, " \t ").start, None);
    assert_eq!(menu_frame(&s, &l, &click(&button), "x").key, None);
}

#[test]
fn the_menu_of_the_first_window() {
    let l = layout(1560, 800);
    let m = menu_plan(&l);
    assert_eq!(m.name_y * 5, l.bar_y * 2);
    assert_eq!(m.field, Area { x: 401 * PX, y: m.name_y + 104 * PX, w: 620 * PX, h: 50 * PX });
    assert_eq!(m.button, Area { x: 1035 * PX, y: m.field.y - 6 * PX, w: 124 * PX, h: 62 * PX });
    // The bar is at 595.72 px, the field at 342.288 px: (595.72 - 342.288 - 50 - 70) / 22 lines.
    assert_eq!(m.max_lines, 6);
    let n = error_note(&l, &m, 2);
    assert_eq!(n, Area { x: m.field.x, y: m.field.y + 80 * PX, w: 758 * PX, h: 64 * PX });
    assert_eq!(menu_plan(&layout(600, 200)).max_lines, 0);
    // A narrow window has a narrow field.
    assert_eq!(menu_plan(&layout(600, 800)).field.w, (600 - 124 - 14 - 32 - 80) * PX);
    assert_eq!(idle_panel(&l).y, 34 * PX);
    assert_eq!(idle_panel(&l).x, l.x0 + 24 * PX);
    assert_eq!(idle_panel(&l).w, l.w - 2 * l.x0 - 48 * PX);
    assert_eq!(idle_panel(&l).h, l.bar_y - 64 * PX);
}

#[test]
fn areas_hold_their_edges() {
    let a = Area { x: 10, y: 20, w: 5, h: 6 };
    assert!(is_in(&a, 10, 20) && is_in(&a, 15, 26) && !is_in(&a, 9, 20) && !is_in(&a, 15, 27));
    assert!(is_clicked(&a, 12, 22, true) && !is_clicked(&a, 12, 22, false) && !is_clicked(&a, 0, 0, true));
}

#[test]
fn the_end_panel() {
    let l = layout(1560, 800);
    let e = end_plan(&l);
    assert_eq!((e.panel.x, e.panel.w, e.panel.h), (540 * PX, 480 * PX, 200 * PX));
    assert_eq!(2 * e.panel.y, 58 * PX + l.bar_y - 200 * PX);
    assert_eq!(e.again, Area { x: 568 * PX, y: e.panel.y + 116 * PX, w: 204 * PX, h: 50 * PX });
    assert_eq!(e.back, Area { x: 788 * PX, ..e.again });
    assert_eq!(end_plan(&layout(400, 800)).panel.w, (400 - 32 - 40) * PX);
}

#[test]
fn the_end_of_the_roll() {
    let l = layout(1560, 800);
    let length = Moment::At(10_000_000_000);
    let (before, over) = (11_500_000_000, 11_500_000_001);
    let e = end_plan(&l);
    let f = play_frame(&l, &Input { enter: true, ..click(&e.again) }, length, before);
    assert_eq!((f.label.as_str(), f.end, f.again, f.leave), ("0:11 / 0:10", None, false, false));
    assert!(play_frame(&l, &Input { escape: true, ..IDLE }, length, before).leave);
    let f = play_frame(&l, &IDLE, length, over);
    assert_eq!((f.end, f.again, f.leave), (Some(e), false, false));
    let f = play_frame(&l, &click(&e.again), length, over);
    assert_eq!((f.again, f.leave), (true, false));
    let f = play_frame(&l, &click(&e.back), length, over);
    assert_eq!((f.again, f.leave), (false, true));
    let f = play_frame(&l, &Input { enter: true, escape: true, ..IDLE }, length, over);
    assert_eq!((f.again, f.leave), (true, true));
}

#[test]
fn pieces() {
    let bytes = [
        &b"MThd"[..], &[0, 0, 0, 6, 0, 0, 0, 1, 0x01, 0xE0],
        b"MTrk", &[0, 0, 0, 13],
        &[0x00, 0x90, 60, 100, 0x83, 0x60, 0x80, 60, 0, 0x00, 0xFF, 0x2F, 0x00],
    ].concat();
    let p = open_piece("T".to_string(), bytes.clone()).unwrap();
    assert_eq!((p.title.as_str(), p.bytes, p.notes.len()), ("T", bytes, 1));
    assert_eq!(p.length, Moment::At(500_000_000));
    assert!(matches!(open_piece("T".to_string(), vec![]), Err(LoadError::Midi(_))));
}

#[test]
fn statuses_lose_their_dots() {
    assert_eq!(shown_status("Downloading audio..."), "Downloading audio");
    assert_eq!(shown_status("Starting"), "Starting");
}

#[test]
fn boards() {
    let side = VENEER;
    let cut = board(&Area { x: 5, y: 7, w: 100, h: 50 }, 300);
    assert_eq!(cut, Area { x: 5, y: 300, w: 100, h: 50 });
    let cut = board(&Area { x: side, y: 0, w: 100, h: 2 * side }, 300);
    assert_eq!(cut, Area { x: side - 100, y: 0, w: 100, h: side });
    let l = layout(1560, 800);
    let c = case_scene(&l);
    assert_eq!(c.body.area, Area { x: 0, y: 0, w: l.w, h: l.h });
    assert_eq!((c.left.area.x, c.left.cut.x, c.right.area.x, c.right.cut.x), (0, 300 * PX, l.w - l.x0, 900 * PX));
    assert_eq!(c.slip.area, Area { x: l.x0, y: l.slip_y, w: l.w - 2 * l.x0, h: 22 * PX });
    assert_eq!(c.slip.cut, Area { x: 40 * PX, y: 700 * PX, w: l.w - 2 * l.x0, h: 22 * PX });
}

#[test]
fn the_menu_keeps_its_parts_apart() {
    for (w, h) in [(1560, 800), (700, 900), (3840, 2160)] {
        let l = layout(w, h);
        let m = menu_plan(&l);
        assert_eq!(m.field.x, l.w - (m.button.x + m.button.w));
        assert!(m.field.x >= l.x0 + 40 * PX);
        assert!(m.field.x + m.field.w < m.button.x);
        assert!(m.max_lines > 0);
        let n = error_note(&l, &m, m.max_lines);
        assert!(n.y > m.field.y + m.field.h && n.y + n.h + 20 * PX <= l.bar_y);
        let e = end_plan(&l);
        assert!(e.again.x + e.again.w < e.back.x);
        assert!(is_in(&e.panel, e.again.x, e.again.y) && is_in(&e.panel, e.back.x + e.back.w, e.back.y + e.back.h));
    }
}
