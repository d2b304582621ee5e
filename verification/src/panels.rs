//! What the screens are furnished with: the search field, its button and the error note on the
//! menu, the end panel and its buttons on the roll, and the boards that the case is built of.
use crate::keyboard::{laid_out, layout_facts, Layout, HEADER_H, MAX_SIDE, PX, SLIP_H};
use vstd::prelude::*;

verus! {

/// A rectangle of the screen or of a picture.
#[derive(Clone, Copy, Debug, PartialEq, Eq, Structural)]
pub struct Area {
    pub x: i64,
    pub y: i64,
    pub w: i64,
    pub h: i64,
}

/// Whether an area keeps clear of the ends of the number range.
pub open spec fn modest(a: Area) -> bool {
    &&& -0x1000_0000_0000_0000 < a.x < 0x1000_0000_0000_0000
    &&& -0x1000_0000_0000_0000 < a.y < 0x1000_0000_0000_0000
    &&& -0x1000_0000_0000_0000 < a.w < 0x1000_0000_0000_0000
    &&& -0x1000_0000_0000_0000 < a.h < 0x1000_0000_0000_0000
}

/// Whether a point is in an area. All four edges belong to it.
pub open spec fn holds(a: Area, x: int, y: int) -> bool {
    &&& a.x <= x <= a.x + a.w
    &&& a.y <= y <= a.y + a.h
}

/// Whether a point is in an area.
pub fn is_in(a: &Area, x: i64, y: i64) -> (r: bool)
    requires
        modest(*a),
    ensures
        r == holds(*a, x as int, y as int),
{
    a.x <= x && x <= a.x + a.w && a.y <= y && y <= a.y + a.h
}

/// Whether a button is clicked: the mouse button went down while the pointer was on it.
pub fn is_clicked(button: &Area, x: i64, y: i64, pressed: bool) -> (r: bool)
    requires
        modest(*button),
    ensures
        r == (pressed && holds(*button, x as int, y as int)),
{
    is_in(button, x, y) && pressed
}

/// Width of the menu's button, height of the search field, the gap between the two, and the
/// field's brass rim.
pub const BUTTON_W: i64 = 3_224_000_000;

pub const FIELD_H: i64 = 1_300_000_000;

pub const GAP: i64 = 364_000_000;

pub const RIM: i64 = 156_000_000;

/// Height of a line of the error note.
pub const LINE_H: i64 = 572_000_000;

/// Where the parts of the menu sit.
#[derive(Clone, Copy, Debug, PartialEq, Eq, Structural)]
pub struct MenuPlan {
    /// The baseline of the name.
    pub name_y: i64,
    /// The search field.
    pub field: Area,
    /// The button that starts a job.
    pub button: Area,
    /// How many lines an error note has room for.
    pub max_lines: usize,
}

/// The menu of a layout: the name two fifths of the way down to the tracker bar, below it the
/// search field and its button side by side in the middle of the width.
pub open spec fn is_menu(m: MenuPlan, l: Layout) -> bool {
    let room = l.w - BUTTON_W - GAP - 2 * l.x0 - 80 * PX;
    let below = l.bar_y - m.field.y - FIELD_H - 70 * PX;
    &&& 5 * m.name_y == 2 * l.bar_y
    &&& m.field.w == if 620 * PX < room {
        620 * PX as int
    } else {
        room
    }
    &&& 2 * m.field.x == l.w - m.field.w - GAP - BUTTON_W
    &&& m.field.y == m.name_y + 104 * PX
    &&& m.field.h == FIELD_H
    &&& m.button == (Area {
        x: (m.field.x + m.field.w + GAP) as i64,
        y: (m.field.y - RIM) as i64,
        w: BUTTON_W,
        h: (FIELD_H + 2 * RIM) as i64,
    })
    &&& m.max_lines == if below < 0 {
        0
    } else {
        below / LINE_H as int
    }
}

/// How many lines fit below the field.
fn lines_in(below: i64) -> (n: usize)
    requires
        below < 0x4000_0000_0000,
    ensures
        n == if below < 0 {
            0
        } else {
            below as int / LINE_H as int
        },
{
    if below < 0 {
        0
    } else {
        let n: i64 = below / LINE_H;
        n as usize
    }
}

/// Half of an even length.
fn half(d: i64) -> (x: i64)
    requires
        d % 2 == 0,
        d > i64::MIN,
    ensures
        2 * x == d,
{
    if d >= 0 {
        d / 2
    } else {
        -(-d / 2)
    }
}

/// Two fifths of a length that divides by five.
fn two_fifths(d: i64) -> (x: i64)
    requires
        d % 5 == 0,
        -0x1000_0000_0000_0000 < d < 0x1000_0000_0000_0000,
    ensures
        5 * x == 2 * d,
{
    if d >= 0 {
        d / 5 * 2
    } else {
        -(-d / 5 * 2)
    }
}

/// Where the parts of the menu sit.
#[verifier::rlimit(40)]
pub fn menu_plan(l: &Layout) -> (m: MenuPlan)
    requires
        laid_out(*l),
    ensures
        is_menu(m, *l),
        modest(m.field),
        modest(m.button),
{
    proof {
        even_sides(*l);
    }
    let name_y = two_fifths(l.bar_y);
    let room: i64 = l.w - BUTTON_W - GAP - 2 * l.x0 - 80 * PX;
    let w: i64 = if 620 * PX < room {
        620 * PX
    } else {
        room
    };
    let x = half(l.w - w - GAP - BUTTON_W);
    let y: i64 = name_y + 104 * PX;
    let max_lines = lines_in(l.bar_y - y - FIELD_H - 70 * PX);
    MenuPlan {
        name_y,
        field: Area { x, y, w, h: FIELD_H },
        button: Area { x: x + w + GAP, y: y - RIM, w: BUTTON_W, h: FIELD_H + 2 * RIM },
        max_lines,
    }
}

/// The lengths of a layout divide evenly.
#[verifier::rlimit(40)]
proof fn even_sides(l: Layout)
    requires
        laid_out(l),
    ensures
        l.w % 2 == 0,
        l.x0 % 2 == 0,
        l.bar_y % 2 == 0,
        l.bar_y % 5 == 0,
        0 <= l.w <= 0x4000_0000_0000,
        16 * PX <= l.x0 <= 36 * PX,
        -0x4000_0000_0000 <= l.bar_y <= 0x4000_0000_0000,
        l.bar_y <= 0x1800_0000_0000,
{
    let (w, h) = choose|w: int, h: int|
        0 <= w <= MAX_SIDE && 0 <= h <= MAX_SIDE && #[trigger] crate::keyboard::is_layout(l, w, h);
    layout_facts(l);
    assert(l.w as int / 50 == 520_000 * w);
    assert(l.h == 10 * (2_600_000 * h));
    assert(l.kb_h % 10 == 0) by {
        assert(l.kb_h % 112_000 == 0);
    }
}

/// Where the error note lies, for a note of `n` lines: as wide as field and button together, and
/// below them.
pub open spec fn is_note(note: Area, m: MenuPlan, n: int) -> bool {
    &&& note.x == m.field.x
    &&& note.y == m.field.y + FIELD_H + RIM + 24 * PX
    &&& note.w == m.field.w + GAP + BUTTON_W
    &&& note.h == n * LINE_H + 20 * PX
}

/// Where the error note lies.
pub fn error_note(l: &Layout, m: &MenuPlan, n: usize) -> (note: Area)
    requires
        laid_out(*l),
        is_menu(*m, *l),
        n <= m.max_lines,
    ensures
        is_note(note, *m, n as int),
{
    proof {
        layout_facts(*l);
        assert(m.max_lines <= 100_000_000);
    }
    Area {
        x: m.field.x,
        y: m.field.y + FIELD_H + RIM + 24 * PX,
        w: m.field.w + GAP + BUTTON_W,
        h: n as i64 * LINE_H + 20 * PX,
    }
}

/// Law: field and button stand in the middle: as much room is left of the field as right of the
/// button, 40 pixels beside the cheek block or more.
pub proof fn menu_is_centred(l: Layout, m: MenuPlan)
    requires
        laid_out(l),
        is_menu(m, l),
    ensures
        m.field.x == l.w - (m.button.x + m.button.w),
        m.field.x >= l.x0 + 40 * PX,
{
    layout_facts(l);
}

/// Law: the pointer is never on the field and on its button at once.
pub proof fn field_and_button_are_apart(l: Layout, m: MenuPlan, x: int, y: int)
    requires
        laid_out(l),
        is_menu(m, l),
    ensures
        !(holds(m.field, x, y) && holds(m.button, x, y)),
{
    layout_facts(l);
}

/// Law: an error note stays between the field and the tracker bar, with room to spare.
pub proof fn note_stays_above_the_bar(l: Layout, m: MenuPlan, note: Area, n: int)
    requires
        laid_out(l),
        is_menu(m, l),
        0 < n <= m.max_lines,
        is_note(note, m, n),
    ensures
        m.field.y + m.field.h + RIM < note.y,
        note.y + note.h + 20 * PX <= l.bar_y,
{
    layout_facts(l);
}

/// The panel that is routed into the case while no roll shows.
pub open spec fn idle_panel_of(l: Layout) -> Area {
    Area {
        x: (l.x0 + 24 * PX) as i64,
        y: (34 * PX) as i64,
        w: (l.w - 2 * l.x0 - 48 * PX) as i64,
        h: (l.bar_y - 64 * PX) as i64,
    }
}

/// The panel that is routed into the case while no roll shows.
pub fn idle_panel(l: &Layout) -> (panel: Area)
    requires
        laid_out(*l),
    ensures
        panel == idle_panel_of(*l),
{
    proof {
        layout_facts(*l);
    }
    Area {
        x: l.x0 + 24 * PX,
        y: 34 * PX,
        w: l.w - 2 * l.x0 - 48 * PX,
        h: l.bar_y - 64 * PX,
    }
}

/// Size of the end panel, and height of its buttons.
pub const PANEL_H: i64 = 5_200_000_000;

pub const PANEL_BUTTON_H: i64 = 1_300_000_000;

/// Where the parts of the end panel sit.
#[derive(Clone, Copy, Debug, PartialEq, Eq, Structural)]
pub struct EndPlan {
    pub panel: Area,
    pub again: Area,
    pub back: Area,
}

/// The end panel of a layout: in the middle of the roll window, two buttons side by side at its
/// foot.
pub open spec fn is_end(e: EndPlan, l: Layout) -> bool {
    let room = l.w - 2 * l.x0 - 40 * PX;
    &&& e.panel.w == if 480 * PX < room {
        480 * PX as int
    } else {
        room
    }
    &&& e.panel.h == PANEL_H
    &&& 2 * e.panel.x == l.w - e.panel.w
    &&& 2 * (e.panel.y - HEADER_H) == l.bar_y - HEADER_H - PANEL_H
    &&& 2 * e.again.w == e.panel.w - 72 * PX
    &&& e.again.h == PANEL_BUTTON_H
    &&& e.again.x == e.panel.x + 28 * PX
    &&& e.again.y == e.panel.y + PANEL_H - PANEL_BUTTON_H - 34 * PX
    &&& e.back == (Area { x: (e.again.x + e.again.w + 16 * PX) as i64, ..e.again })
}

/// Where the parts of the end panel sit.
#[verifier::rlimit(40)]
pub fn end_plan(l: &Layout) -> (e: EndPlan)
    requires
        laid_out(*l),
    ensures
        is_end(e, *l),
        modest(e.panel),
        modest(e.again),
        modest(e.back),
{
    proof {
        even_sides(*l);
    }
    let room: i64 = l.w - 2 * l.x0 - 40 * PX;
    let pw: i64 = if 480 * PX < room {
        480 * PX
    } else {
        room
    };
    let px = half(l.w - pw);
    let py: i64 = HEADER_H + half(l.bar_y - HEADER_H - PANEL_H);
    let bw = half(pw - 72 * PX);
    let by: i64 = py + PANEL_H - PANEL_BUTTON_H - 34 * PX;
    EndPlan {
        panel: Area { x: px, y: py, w: pw, h: PANEL_H },
        again: Area { x: px + 28 * PX, y: by, w: bw, h: PANEL_BUTTON_H },
        back: Area { x: px + 28 * PX + bw + 16 * PX, y: by, w: bw, h: PANEL_BUTTON_H },
    }
}

/// Law: no click meets both buttons of the end panel.
pub proof fn end_buttons_are_apart(l: Layout, e: EndPlan, x: int, y: int)
    requires
        laid_out(l),
        is_end(e, l),
    ensures
        !(holds(e.again, x, y) && holds(e.back, x, y)),
{
    layout_facts(l);
}

/// Law: the buttons lie on the end panel, as far from its left edge as from its right one.
pub proof fn end_buttons_are_on_the_panel(l: Layout, e: EndPlan, x: int, y: int)
    requires
        laid_out(l),
        is_end(e, l),
        holds(e.again, x, y) || holds(e.back, x, y),
    ensures
        holds(e.panel, x, y),
        e.again.x - e.panel.x == (e.panel.x + e.panel.w) - (e.back.x + e.back.w),
{
    layout_facts(l);
}

/// Side of the picture that boards are cut from.
pub const VENEER: i64 = 53_248_000_000;

pub open spec fn lesser(a: int, b: int) -> int {
    if a < b {
        a
    } else {
        b
    }
}

/// Where in the picture a board for `area` is cut, so that the grain is drawn at its own size:
/// at the board's own place across, and `from` the top, as far as the picture allows.
pub open spec fn cut_for(area: Area, from: int) -> Area {
    let w = lesser(area.w as int, VENEER as int);
    let h = lesser(area.h as int, VENEER as int);
    Area {
        x: lesser(area.x as int, VENEER - w) as i64,
        y: lesser(from, VENEER - h) as i64,
        w: w as i64,
        h: h as i64,
    }
}

/// Where in the picture a board is cut.
pub fn board(area: &Area, from: i64) -> (cut: Area)
    requires
        modest(*area),
    ensures
        cut == cut_for(*area, from as int),
{
    let w: i64 = if area.w < VENEER {
        area.w
    } else {
        VENEER
    };
    let h: i64 = if area.h < VENEER {
        area.h
    } else {
        VENEER
    };
    Area {
        x: if area.x < VENEER - w {
            area.x
        } else {
            VENEER - w
        },
        y: if from < VENEER - h {
            from
        } else {
            VENEER - h
        },
        w,
        h,
    }
}

/// Law: a board is cut out of the picture, never from beyond its edges.
pub proof fn boards_lie_in_the_picture(area: Area, from: int)
    requires
        area.x >= 0,
        0 <= area.w,
        0 <= area.h,
        0 <= from <= i64::MAX,
    ensures
        ({
            let cut = cut_for(area, from);
            0 <= cut.x && cut.x + cut.w <= VENEER && 0 <= cut.y && cut.y + cut.h <= VENEER
        }),
{
}

/// A board of the case: where it is drawn, and where in the picture it is cut.
#[derive(Clone, Copy, Debug, PartialEq, Eq, Structural)]
pub struct Board {
    pub area: Area,
    pub cut: Area,
}

/// The boards of the case.
#[derive(Clone, Copy, Debug, PartialEq, Eq, Structural)]
pub struct CaseScene {
    pub body: Board,
    /// The cheek blocks, cut along the grain.
    pub left: Board,
    pub right: Board,
    /// The key slip.
    pub slip: Board,
}

/// The cheek block at `x`, cut at `from` across.
pub open spec fn cheek(l: Layout, x: int, from: int) -> Board {
    Board {
        area: Area { x: x as i64, y: 0, w: l.x0, h: l.h },
        cut: Area { x: from as i64, y: 0, w: l.x0, h: lesser(l.h as int, VENEER as int) as i64 },
    }
}

/// The case of a layout: the body over the whole window, a cheek block at either side, and the
/// key slip between them in front of the keys.
pub open spec fn case_of(l: Layout) -> CaseScene {
    let whole = Area { x: 0, y: 0, w: l.w, h: l.h };
    let span = l.w - 2 * l.x0;
    CaseScene {
        body: Board { area: whole, cut: cut_for(whole, 0) },
        left: cheek(l, 0, 300 * PX),
        right: cheek(l, l.w - l.x0, 900 * PX),
        slip: Board {
            area: Area { x: l.x0, y: l.slip_y, w: span as i64, h: SLIP_H },
            cut: Area {
                x: (40 * PX) as i64,
                y: (700 * PX) as i64,
                w: lesser(span, 2000 * PX) as i64,
                h: SLIP_H,
            },
        },
    }
}

/// The boards of the case.
#[verifier::rlimit(40)]
pub fn case_scene(l: &Layout) -> (scene: CaseScene)
    requires
        laid_out(*l),
    ensures
        scene == case_of(*l),
{
    proof {
        layout_facts(*l);
    }
    let whole = Area { x: 0, y: 0, w: l.w, h: l.h };
    let span: i64 = l.w - 2 * l.x0;
    let tall: i64 = if l.h < VENEER {
        l.h
    } else {
        VENEER
    };
    CaseScene {
        body: Board { area: whole, cut: board(&whole, 0) },
        left: Board {
            area: Area { x: 0, y: 0, w: l.x0, h: l.h },
            cut: Area { x: 300 * PX, y: 0, w: l.x0, h: tall },
        },
        right: Board {
            area: Area { x: l.w - l.x0, y: 0, w: l.x0, h: l.h },
            cut: Area { x: 900 * PX, y: 0, w: l.x0, h: tall },
        },
        slip: Board {
            area: Area { x: l.x0, y: l.slip_y, w: span, h: SLIP_H },
            cut: Area {
                x: 40 * PX,
                y: 700 * PX,
                w: if span < 2000 * PX {
                    span
                } else {
                    2000 * PX
                },
                h: SLIP_H,
            },
        },
    }
}

/// Law: the field is 620 pixels wide where that leaves 40 pixels and more beside the cheek blocks;
/// otherwise it leaves just these. It stands 104 pixels below the baseline of the name, which is
/// two fifths of the way down to the tracker bar; the button stands 14 pixels beside it and reaches
/// 6 pixels further up and down.
pub proof fn the_field_is_as_wide_as_it_may_be(l: Layout, m: MenuPlan)
    requires
        laid_out(l),
        is_menu(m, l),
    ensures
        ({
            let px: int = 26_000_000;
            &&& m.field.w <= 620 * px
            &&& m.field.w < 620 * px ==> m.field.x == l.x0 + 40 * px
            &&& m.field.h == 50 * px
            &&& 5 * (m.field.y - 104 * px) == 2 * l.bar_y
            &&& m.name_y + 104 * px == m.field.y
            &&& m.button.x == m.field.x + m.field.w + 14 * px
            &&& m.button.w == 124 * px
            &&& m.button.y == m.field.y - 6 * px
            &&& m.button.y + m.button.h == m.field.y + m.field.h + 6 * px
        }),
{
    layout_facts(l);
    even_sides(l);
}

/// Law: an error note has room for as many lines of 22 pixels as leave 70 pixels between the field
/// and the tracker bar, and for no more. It starts 30 pixels below the field, takes the width of
/// field and button, and 20 pixels more than its lines.
pub proof fn notes_take_the_room_there_is(l: Layout, m: MenuPlan, note: Area, n: int)
    requires
        laid_out(l),
        is_menu(m, l),
        is_note(note, m, n),
    ensures
        ({
            let px: int = 26_000_000;
            let room = l.bar_y - (m.field.y + m.field.h) - 70 * px;
            &&& m.max_lines > 0 ==> m.max_lines * 22 * px <= room
            &&& room < (m.max_lines + 1) * 22 * px
            &&& note.x == m.field.x
            &&& note.x + note.w == m.button.x + m.button.w
            &&& note.y == m.field.y + m.field.h + 30 * px
            &&& note.h == n * 22 * px + 20 * px
        }),
{
    layout_facts(l);
    even_sides(l);
}

/// Law: the end panel is 480 pixels wide where that leaves 20 pixels and more beside the cheek
/// blocks; otherwise it leaves just these. It is 200 pixels high, in the middle of the roll window
/// both ways. Its buttons are equal, 50 pixels high, 16 pixels apart, 28 pixels in from its sides
/// and 34 pixels above its foot.
pub proof fn the_end_panel_is_in_the_middle(l: Layout, e: EndPlan)
    requires
        laid_out(l),
        is_end(e, l),
    ensures
        ({
            let px: int = 26_000_000;
            &&& e.panel.w <= 480 * px
            &&& e.panel.w < 480 * px ==> e.panel.x == l.x0 + 20 * px
            &&& e.panel.x == l.w - (e.panel.x + e.panel.w)
            &&& e.panel.h == 200 * px
            &&& e.panel.y - 58 * px == l.bar_y - (e.panel.y + e.panel.h)
            &&& e.again.w == e.back.w
            &&& e.again.h == 50 * px && e.back.h == 50 * px
            &&& e.again.x == e.panel.x + 28 * px
            &&& e.back.x == e.again.x + e.again.w + 16 * px
            &&& e.back.x + e.back.w + 28 * px == e.panel.x + e.panel.w
            &&& e.again.y + e.again.h + 34 * px == e.panel.y + e.panel.h
            &&& e.back.y == e.again.y
        }),
{
    layout_facts(l);
    even_sides(l);
}

/// Law: a point is in an area from its left edge to its right one and from its upper edge to its
/// lower one, the edges with it.
pub proof fn areas_hold_what_is_between_their_edges(a: Area, x: int, y: int)
    ensures
        holds(a, x, y) <==> (x - a.x >= 0 && a.x + a.w - x >= 0 && y - a.y >= 0 && a.y + a.h - y
            >= 0),
{
}

/// Law: a board is cut at its own size, and from the place asked for, as far as the picture of 2048
/// pixels goes; where it does not, it is moved back to the picture's edge.
pub proof fn boards_are_cut_at_their_size(area: Area, from: int)
    requires
        modest(area),
        -0x1000_0000_0000_0000 < from < 0x1000_0000_0000_0000,
    ensures
        ({
            let cut = cut_for(area, from);
            let side: int = 53_248_000_000;
            &&& area.w <= side ==> cut.w == area.w
            &&& area.w >= side ==> cut.w == side
            &&& area.h <= side ==> cut.h == area.h
            &&& area.h >= side ==> cut.h == side
            &&& area.x + cut.w <= side ==> cut.x == area.x
            &&& area.x + cut.w >= side ==> cut.x + cut.w == side
            &&& from + cut.h <= side ==> cut.y == from
            &&& from + cut.h >= side ==> cut.y + cut.h == side
        }),
{
}

/// Law: the case is whole. Its body covers the window; a cheek block stands at either side from top
/// to bottom, as wide as the layout has it, and the key slip fills the width between them at the
/// foot. Each is cut at its own size, the cheek blocks from different places.
pub proof fn the_case_is_whole(l: Layout)
    requires
        laid_out(l),
    ensures
        ({
            let c = case_of(l);
            let px: int = 26_000_000;
            let side = 2048 * px;
            &&& c.body.area == (Area { x: 0, y: 0, w: l.w, h: l.h })
            &&& c.body.cut.x == 0 && c.body.cut.y == 0
            &&& c.left.area == (Area { x: 0, y: 0, w: l.x0, h: l.h })
            &&& c.right.area.x + c.right.area.w == l.w && c.right.area.w == l.x0
            &&& c.right.area.y == 0 && c.right.area.h == l.h
            &&& c.left.cut.x == 300 * px && c.right.cut.x == 900 * px
            &&& c.left.cut.y == 0 && c.right.cut.y == 0
            &&& c.left.cut.w == l.x0 && c.right.cut.w == l.x0
            &&& c.left.cut.h == c.right.cut.h
            &&& l.h <= side ==> c.left.cut.h == l.h
            &&& l.h >= side ==> c.left.cut.h == side
            &&& c.slip.area.x == l.x0 && c.slip.area.x + c.slip.area.w + l.x0 == l.w
            &&& c.slip.area.y == l.slip_y && c.slip.area.y + c.slip.area.h == l.h
            &&& c.slip.cut.x == 40 * px && c.slip.cut.y == 700 * px && c.slip.cut.h == 22 * px
            &&& c.slip.area.w <= 2000 * px ==> c.slip.cut.w == c.slip.area.w
            &&& c.slip.area.w >= 2000 * px ==> c.slip.cut.w == 2000 * px
        }),
{
    layout_facts(l);
}

/// Law: the idle panel leaves 24 pixels beside the cheek blocks, 34 above and 30 below.
pub proof fn the_idle_panel_has_its_margins(l: Layout)
    requires
        laid_out(l),
    ensures
        ({
            let p = idle_panel_of(l);
            let px: int = 26_000_000;
            &&& p.x == l.x0 + 24 * px
            &&& p.x + p.w == l.w - l.x0 - 24 * px
            &&& p.y == 34 * px
            &&& p.y + p.h == l.bar_y - 30 * px
        }),
{
    layout_facts(l);
}

} // verus!
