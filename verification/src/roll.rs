//! What is printed and punched on the roll: rules, the leader, and a slot for every note.
use crate::keyboard::{
    black, is_black, key_rect, key_span, keys_stand_in_octaves, laid_out, layout_facts,
    whites_below, whites_below_bound, Layout, HEADER_H,
};
use crate::notes::{comparable, showable, Moment, Note, SECOND};
use crate::paper::{
    floor_div, larger, paper, paper_tiles, product_bound, smaller, window_height, Tile, FAR,
    LOOKAHEAD,
};
use crate::player::{held, is_to_come, keys_down, sounds, LEAD};
use vstd::prelude::*;

verus! {

/// The furthest that anything is drawn from the tracker bar: some ten million pixels, far out of
/// any window.
pub const REACH: i64 = 0x1_0000_0000_0000;

/// Height of the edge above the roll window into which slots may reach.
pub const EDGE: i64 = 520_000_000;

/// Room below the tracker bar into which the title may scroll.
pub const TITLE_ROOM: i64 = 1_560_000_000;

/// A height above the tracker bar, cut off where it is out of reach.
pub open spec fn within_reach(up: int) -> int {
    if up < -REACH {
        -REACH
    } else if up > REACH {
        REACH as int
    } else {
        up
    }
}

/// How high the moment `time` stands when the roll is at `t`: on the tracker bar when its time
/// has come, at the top of the window as long before as the window shows.
pub open spec fn y_of(l: Layout, time: int, t: int) -> int {
    l.bar_y - within_reach((time - t) * window_height(l) / LOOKAHEAD as int)
}

/// How high a moment stands that never comes: out of reach, the way that later moments lie. Where
/// the window has no height there is no such way.
pub open spec fn y_of_never(l: Layout) -> Option<int> {
    if window_height(l) > 0 {
        Some(l.bar_y - REACH)
    } else if window_height(l) < 0 {
        Some(l.bar_y + REACH)
    } else {
        None
    }
}

/// A moment so far off that it is out of reach in a window of any height.
proof fn far_is_out_of_reach(dt: int, h: int)
    ensures
        dt > FAR && h > 0 ==> dt * h / LOOKAHEAD as int > REACH,
        dt > FAR && h < 0 ==> dt * h / (LOOKAHEAD as int) < -REACH,
        dt < -FAR && h > 0 ==> dt * h / (LOOKAHEAD as int) < -REACH,
        dt < -FAR && h < 0 ==> dt * h / LOOKAHEAD as int > REACH,
{
    if dt > FAR && h > 0 || dt < -FAR && h < 0 {
        assert(dt * h > FAR) by (nonlinear_arith)
            requires
                dt > FAR && h > 0 || dt < -FAR && h < 0,
                FAR > 0,
        ;
    }
    if dt > FAR && h < 0 || dt < -FAR && h > 0 {
        assert(dt * h < -FAR) by (nonlinear_arith)
            requires
                dt > FAR && h < 0 || dt < -FAR && h > 0,
                FAR > 0,
        ;
    }
}

/// How high the moment `time` stands when the roll is at `t`.
pub fn height_of(l: &Layout, time: i128, t: i128) -> (y: i64)
    requires
        laid_out(*l),
        -FAR < t < FAR,
    ensures
        y == y_of(*l, time as int, t as int),
        -0x1800_0000_0000_0000 < y < 0x1800_0000_0000_0000,
{
    proof {
        layout_facts(*l);
        far_is_out_of_reach(time - t, window_height(*l));
    }
    let wh: i128 = l.bar_y as i128 - HEADER_H as i128;
    if time > t + FAR || time < t - FAR {
        if wh == 0 {
            assert((time - t) * 0 == 0) by (nonlinear_arith);
            return l.bar_y;
        }
        return if (time > t) == (wh > 0) {
            l.bar_y - REACH
        } else {
            l.bar_y + REACH
        };
    }
    proof {
        product_bound(time - t, FAR as int, wh as int, 0x2000_0000_0000);
    }
    let up = floor_div((time - t) * wh, LOOKAHEAD);
    if up < -REACH as i128 {
        l.bar_y + REACH
    } else if up > REACH as i128 {
        l.bar_y - REACH
    } else {
        l.bar_y - up as i64
    }
}

/// Law: music runs down the paper. A later moment stands no lower than an earlier one.
pub proof fn later_stands_higher(l: Layout, early: int, late: int, t: int)
    requires
        early <= late,
        window_height(l) >= 0,
    ensures
        y_of(l, late, t) <= y_of(l, early, t),
{
    let (a, b, h) = (early - t, late - t, window_height(l));
    assert(a * h <= b * h) by (nonlinear_arith)
        requires
            a <= b,
            h >= 0,
    ;
    assert(a * h / LOOKAHEAD as int <= b * h / LOOKAHEAD as int) by (nonlinear_arith)
        requires
            a * h <= b * h,
            LOOKAHEAD > 0,
    ;
}

/// Law: a moment reaches the tracker bar when its time has come, and enters at the top of the
/// window three seconds before.
pub proof fn moments_cross_the_window(l: Layout, t: int)
    requires
        laid_out(l),
    ensures
        y_of(l, t, t) == l.bar_y,
        y_of(l, t + LOOKAHEAD, t) == HEADER_H,
{
    layout_facts(l);
    let h = window_height(l);
    assert(LOOKAHEAD * h / LOOKAHEAD as int == h) by (nonlinear_arith)
        requires
            LOOKAHEAD > 0,
    ;
    assert(0 * h == 0) by (nonlinear_arith);
}

/// Whether `y` is inside the roll window.
pub open spec fn in_window(l: Layout, y: int) -> bool {
    HEADER_H < y < l.bar_y
}

/// A slot punched for a note: centre line, width, upper and lower end.
#[derive(Clone, Copy, Debug, PartialEq, Eq, Structural)]
pub struct Slot {
    pub cx: i64,
    pub w: i64,
    pub y0: i64,
    pub y1: i64,
}

/// Whether a note shows: it has not ended, and it starts within what the window shows.
pub open spec fn shows(n: Note, t: int) -> bool {
    &&& is_to_come(n.end, t)
    &&& n.start matches Moment::At(s) && s < t + LOOKAHEAD
}

/// The middle of a key and the width of its slots.
pub open spec fn slot_span(l: Layout, k: int) -> (int, int) {
    let (x, kw) = key_span(k, l.ww as int);
    (l.x0 + x + kw / 2, if black(k) {
        kw / 100 * 62
    } else {
        kw / 2
    })
}

/// The slot of a note that shows.
pub open spec fn slot_of(l: Layout, n: Note, t: int) -> Slot {
    let (cx, w) = slot_span(l, n.key as int);
    let upper = match n.end {
        Moment::At(e) => larger(y_of(l, e as int, t), HEADER_H - EDGE),
        _ => match y_of_never(l) {
            Some(y) => larger(y, HEADER_H - EDGE),
            None => HEADER_H - EDGE,
        },
    };
    let lower = match n.start {
        Moment::At(s) => smaller(y_of(l, s as int, t), l.bar_y + w),
        _ => l.bar_y + w,
    };
    Slot { cx: cx as i64, w: w as i64, y0: upper as i64, y1: lower as i64 }
}

/// Law: the keys play what the holes say. While a note sounds, its slot shows and lies on the
/// tracker bar, begun and not yet ended; a note that shows and does not sound has its slot still
/// above the bar.
pub proof fn keys_follow_the_holes(l: Layout, n: Note, t: int)
    requires
        laid_out(l),
        window_height(l) >= 0,
    ensures
        n.start matches Moment::At(s) ==> {
            &&& sounds(n, t) ==> shows(n, t) && y_of(l, s as int, t) >= l.bar_y
            &&& shows(n, t) && !sounds(n, t) ==> y_of(l, s as int, t) <= l.bar_y
        },
        n.end matches Moment::At(e) ==> (sounds(n, t) ==> y_of(l, e as int, t) <= l.bar_y),
{
    moments_cross_the_window(l, t);
    if let Moment::At(s) = n.start {
        if s <= t {
            later_stands_higher(l, s as int, t, t);
        } else {
            later_stands_higher(l, t, s as int, t);
        }
    }
    if let Moment::At(e) = n.end {
        if e >= t {
            later_stands_higher(l, t, e as int, t);
        }
    }
}

/// The slots of those of the first `n` notes that show.
pub open spec fn slots(l: Layout, notes: Seq<Note>, t: int, n: int) -> Seq<Slot>
    decreases n,
{
    if n <= 0 {
        Seq::empty()
    } else if shows(notes[n - 1], t) {
        slots(l, notes, t, n - 1).push(slot_of(l, notes[n - 1], t))
    } else {
        slots(l, notes, t, n - 1)
    }
}

/// The middle of a key and the width of its slots.
#[verifier::rlimit(40)]
fn span_of_slot(l: &Layout, k: u8) -> (r: (i64, i64))
    requires
        laid_out(*l),
    ensures
        (r.0 as int, r.1 as int) == slot_span(*l, k as int),
        -0x1000_0000_0000_0000 < r.1 < 0x1000_0000_0000_0000,
{
    proof {
        layout_facts(*l);
    }
    let (x, kw) = key_rect(k, l.ww);
    proof {
        let n = whites_below(k as int) as int;
        whites_below_bound(k as int);
        product_bound(n, 255, l.ww as int, 0x2000_0000_0000);
    }
    let w = if is_black(k) {
        kw / 100 * 62
    } else {
        kw / 2
    };
    (l.x0 + x + kw / 2, w)
}

#[verifier::rlimit(40)]
fn punch(l: &Layout, n: &Note, t: i128) -> (slot: Slot)
    requires
        laid_out(*l),
        -FAR < t < FAR,
        comparable(n.start),
        comparable(n.end),
    ensures
        slot == slot_of(*l, *n, t as int),
        modest_slot(slot),
{
    proof {
        layout_facts(*l);
    }
    let (cx, w) = span_of_slot(l, n.key);
    let top: i64 = HEADER_H - EDGE;
    let y0 = match n.end {
        Moment::At(e) => {
            let y = height_of(l, e as i128, t);
            if y < top {
                top
            } else {
                y
            }
        },
        _ => if l.bar_y < HEADER_H && l.bar_y + REACH > top {
            l.bar_y + REACH
        } else {
            top
        },
    };
    let bottom: i64 = l.bar_y + w;
    let y1 = match n.start {
        Moment::At(s) => {
            let y = height_of(l, s as i128, t);
            if y < bottom {
                y
            } else {
                bottom
            }
        },
        _ => bottom,
    };
    Slot { cx, w, y0, y1 }
}

/// Whether a note shows.
fn is_showing(n: &Note, t: i128) -> (r: bool)
    requires
        -FAR < t < FAR,
    ensures
        r == shows(*n, t as int),
{
    let started = match n.start {
        Moment::At(s) => t + LOOKAHEAD > 0 && s < (t + LOOKAHEAD) as u128,
        _ => false,
    };
    started && (match n.end {
        Moment::At(e) => t < 0 || e > t as u128,
        Moment::Never => true,
        Moment::Undefined => false,
    })
}

/// Slots for the notes that show at time `t`.
pub fn punched_slots(l: &Layout, notes: &Vec<Note>, t: i128) -> (r: Vec<Slot>)
    requires
        laid_out(*l),
        -FAR < t < FAR,
        showable(notes@),
    ensures
        r@ == slots(*l, notes@, t as int, notes@.len() as int),
        forall|i: int| 0 <= i < r.len() ==> modest_slot(#[trigger] r[i]),
{
    let mut out: Vec<Slot> = Vec::new();
    let mut i: usize = 0;
    while i < notes.len()
        invariant
            i <= notes.len(),
            laid_out(*l),
            -FAR < t < FAR,
            showable(notes@),
            out@ == slots(*l, notes@, t as int, i as int),
            forall|i: int| 0 <= i < out.len() ==> modest_slot(#[trigger] out[i]),
        decreases notes.len() - i,
    {
        if is_showing(&notes[i], t) {
            let slot = punch(l, &notes[i], t);
            out.push(slot);
        }
        i += 1;
    }
    out
}

/// A pill: two round ends of radius `r`, and between their centres a body, if there is room.
#[derive(Clone, Copy, Debug, PartialEq, Eq, Structural)]
pub struct Pill {
    pub cx: i64,
    pub r: i64,
    /// The centre of the upper end and of the lower end.
    pub upper: i64,
    pub lower: i64,
    pub body: bool,
}

/// How far the cut edge stands out around a slot: 1.6 pixels.
pub const CUT_EDGE: i64 = 41_600_000;

/// The pill that is `pad` larger than a slot on every side. A slot shorter than it is wide is
/// punched as if it were round.
pub open spec fn pill_of(slot: Slot, pad: int) -> Pill {
    let r = slot.w as int / 2 + pad;
    let (a, b) = (slot.y0 - pad + r, slot.y1 + pad - r);
    Pill {
        cx: slot.cx,
        r: r as i64,
        upper: smaller(a, b) as i64,
        lower: larger(a, b) as i64,
        body: b > a,
    }
}

/// Whether a slot keeps clear of the ends of the number range.
pub open spec fn modest_slot(slot: Slot) -> bool {
    &&& -0x2000_0000_0000_0000 < slot.w < 0x2000_0000_0000_0000
    &&& -0x2000_0000_0000_0000 < slot.y0 < 0x2000_0000_0000_0000
    &&& -0x2000_0000_0000_0000 < slot.y1 < 0x2000_0000_0000_0000
}

/// The pill that is `pad` larger than a slot.
pub fn pill(slot: &Slot, pad: i64) -> (p: Pill)
    requires
        modest_slot(*slot),
        0 <= pad <= CUT_EDGE,
    ensures
        p == pill_of(*slot, pad as int),
{
    let half: i64 = if slot.w >= 0 {
        slot.w / 2
    } else {
        -((1 - slot.w) / 2)
    };
    let r: i64 = half + pad;
    let (a, b): (i64, i64) = (slot.y0 - pad + r, slot.y1 + pad - r);
    Pill {
        cx: slot.cx,
        r,
        upper: if a < b {
            a
        } else {
            b
        },
        lower: if a > b {
            a
        } else {
            b
        },
        body: b > a,
    }
}

/// Law: a slot's pill reaches from the slot's upper end to its lower one, where the slot is as
/// long as it is wide, and the cut edge surrounds it.
pub proof fn pills_fill_their_slots(slot: Slot, pad: int)
    requires
        modest_slot(slot),
        slot.w >= 0,
        slot.w % 2 == 0,
        0 <= pad <= CUT_EDGE,
        slot.y1 - slot.y0 >= slot.w,
    ensures
        pill_of(slot, pad).upper - pill_of(slot, pad).r == slot.y0 - pad,
        pill_of(slot, pad).lower + pill_of(slot, pad).r == slot.y1 + pad,
        2 * pill_of(slot, pad).r == slot.w + 2 * pad,
{
}

/// The heights of the whole seconds from `s` to `to` that are inside the window.
pub open spec fn rules_between(l: Layout, t: int, s: int, to: int) -> Seq<i64>
    decreases to + 1 - s,
{
    if s > to {
        Seq::empty()
    } else {
        let y = y_of(l, s * SECOND, t);
        (if in_window(l, y) {
            seq![y as i64]
        } else {
            Seq::empty()
        }) + rules_between(l, t, s + 1, to)
    }
}

/// The rules printed at every whole second that shows.
pub open spec fn second_rules(l: Layout, t: int) -> Seq<i64> {
    rules_between(
        l,
        t,
        t / SECOND as int,
        (t + LOOKAHEAD + SECOND - 1) / SECOND as int,
    )
}

/// Heights of the rules at every whole second that shows.
pub fn ruled_seconds(l: &Layout, t: i128) -> (r: Vec<i64>)
    requires
        laid_out(*l),
        -FAR < t < FAR,
    ensures
        r@ == second_rules(*l, t as int),
{
    let second: i128 = SECOND as i128;
    let first = floor_div(t, second);
    let last = floor_div(t + LOOKAHEAD + second - 1, second);
    let mut out: Vec<i64> = Vec::new();
    let mut s: i128 = first;
    assert(-FAR <= first <= FAR && -FAR <= last <= FAR);
    while s <= last
        invariant
            laid_out(*l),
            -FAR < t < FAR,
            second == SECOND,
            first <= s,
            -FAR <= first <= FAR,
            first == t as int / SECOND as int,
            -FAR <= last <= FAR,
            out@ + rules_between(*l, t as int, s as int, last as int) =~= rules_between(
                *l,
                t as int,
                first as int,
                last as int,
            ),
        decreases last + 1 - s,
    {
        assert(s * second >= first * second) by (nonlinear_arith)
            requires
                s >= first,
                second > 0,
        ;
        let y = height_of(l, s * second, t);
        if HEADER_H < y && y < l.bar_y {
            out.push(y);
        }
        s = s + 1;
    }
    out
}

/// The x positions of the rules printed at every C.
pub fn ruled_octaves(l: &Layout) -> (r: Vec<i64>)
    requires
        laid_out(*l),
    ensures
        r.len() == 8,
        forall|i: int|
            0 <= i < 8 ==> #[trigger] r[i] == l.x0 + key_span(24 + 12 * i, l.ww as int).0,
{
    proof {
        layout_facts(*l);
    }
    let mut out: Vec<i64> = Vec::new();
    let mut k: u8 = 24;
    while k <= 108
        invariant
            laid_out(*l),
            24 <= k <= 120,
            k == 24 + 12 * out.len(),
            forall|i: int|
                0 <= i < out.len() ==> #[trigger] out[i] == l.x0 + key_span(
                    24 + 12 * i,
                    l.ww as int,
                ).0,
        decreases 120 - k,
    {
        proof {
            layout_facts(*l);
            whites_below_bound(k as int);
            product_bound(
                whites_below(k as int) as int,
                255,
                l.ww as int,
                0x2000_0000_0000,
            );
        }
        let (x, _) = key_rect(k, l.ww);
        out.push(l.x0 + x);
        k += 12;
    }
    out
}

/// Where the title is printed, if it shows: in the middle of the leader.
pub open spec fn title_at(l: Layout, t: int) -> Option<i64> {
    let y = y_of(l, -LEAD / 2, t);
    if HEADER_H < y < l.bar_y + TITLE_ROOM {
        Some(y as i64)
    } else {
        None
    }
}

/// Where the line is printed at which the music starts, if it shows.
pub open spec fn start_line_at(l: Layout, t: int) -> Option<i64> {
    let y = y_of(l, 0, t);
    if in_window(l, y) {
        Some(y as i64)
    } else {
        None
    }
}

/// Everything that the roll window and the keyboard show of a piece at one time.
#[derive(Debug)]
pub struct RollScene {
    /// Which keys are down.
    pub down: Vec<bool>,
    pub paper: Vec<Tile>,
    /// Where a rule is printed for every C.
    pub octaves: Vec<i64>,
    /// Where a rule is printed for every second.
    pub seconds: Vec<i64>,
    /// The baseline of the title.
    pub title: Option<i64>,
    /// The line at which the music starts.
    pub start_line: Option<i64>,
    pub slots: Vec<Slot>,
}

/// The roll at time `t`: paper scrolling down onto the tracker bar, notes as punched slots, the
/// title printed on the leader.
pub fn roll_scene(l: &Layout, notes: &Vec<Note>, t: i128) -> (scene: RollScene)
    requires
        laid_out(*l),
        -FAR < t < FAR,
        showable(notes@),
    ensures
        scene.down.len() == 128,
        forall|k: int| 0 <= k < 128 ==> #[trigger] scene.down[k] == held(notes@, t as int, k),
        scene.paper@ == paper(*l, t as int),
        scene.octaves.len() == 8,
        forall|i: int|
            0 <= i < 8 ==> #[trigger] scene.octaves[i] == l.x0 + key_span(
                24 + 12 * i,
                l.ww as int,
            ).0,
        scene.seconds@ == second_rules(*l, t as int),
        scene.title == title_at(*l, t as int),
        scene.start_line == start_line_at(*l, t as int),
        scene.slots@ == slots(*l, notes@, t as int, notes@.len() as int),
        forall|i: int| 0 <= i < scene.slots.len() ==> modest_slot(#[trigger] scene.slots[i]),
{
    proof {
        layout_facts(*l);
    }
    let title_y = height_of(l, -1_500_000_000, t);
    let start_y = height_of(l, 0, t);
    RollScene {
        down: keys_down(notes, t),
        paper: paper_tiles(l, t),
        octaves: ruled_octaves(l),
        seconds: ruled_seconds(l, t),
        title: if HEADER_H < title_y && title_y < l.bar_y + TITLE_ROOM {
            Some(title_y)
        } else {
            None
        },
        start_line: if HEADER_H < start_y && start_y < l.bar_y {
            Some(start_y)
        } else {
            None
        },
        slots: punched_slots(l, notes, t),
    }
}

/// Law: a moment stands as high above the tracker bar as its time is off, at a window's height to
/// three seconds, cut down to whole units; and no further off than ten million pixels or so.
pub proof fn heights_are_in_proportion(l: Layout, time: int, t: int)
    ensures
        ({
            let up = l.bar_y - y_of(l, time, t);
            let height = l.bar_y - 58 * 26_000_000;
            let reach: int = 0x1_0000_0000_0000;
            &&& -reach <= up <= reach
            &&& up > -reach ==> up * 3_000_000_000 <= (time - t) * height
            &&& up < reach ==> (time - t) * height < (up + 1) * 3_000_000_000
        }),
{
    let x = (time - t) * window_height(l);
    assert((x / 3_000_000_000int) * 3_000_000_000 <= x < (x / 3_000_000_000int + 1)
        * 3_000_000_000);
}

/// Whether a note shows: it starts within three seconds, and has not ended.
pub open spec fn starts_soon_and_lasts(n: Note, t: int) -> bool {
    &&& n.start matches Moment::At(s) && s - t < 3_000_000_000
    &&& n.end == Moment::Never || (n.end matches Moment::At(e) && e - t > 0)
}

/// Law: every note that starts within three seconds and has not ended has a slot, and no other
/// has: slot `p` is that of note `of[p]`, in order.
pub proof fn every_note_that_shows_has_its_slot(l: Layout, notes: Seq<Note>, t: int, n: int) -> (of:
    Seq<int>)
    requires
        0 <= n <= notes.len(),
    ensures
        of.len() == slots(l, notes, t, n).len(),
        forall|p: int, q: int| 0 <= p < q < of.len() ==> of[p] < of[q],
        forall|p: int|
            0 <= p < of.len() ==> {
                &&& 0 <= #[trigger] of[p] < n
                &&& starts_soon_and_lasts(notes[of[p]], t)
                &&& slots(l, notes, t, n)[p] == slot_of(l, notes[of[p]], t)
            },
        forall|i: int|
            0 <= i < n && starts_soon_and_lasts(#[trigger] notes[i], t) ==> of.contains(i),
    decreases n,
{
    if n == 0 {
        Seq::empty()
    } else {
        let before = every_note_that_shows_has_its_slot(l, notes, t, n - 1);
        let (old_slots, new_slots) = (slots(l, notes, t, n - 1), slots(l, notes, t, n));
        if starts_soon_and_lasts(notes[n - 1], t) {
            assert(shows(notes[n - 1], t));
            let of = before.push(n - 1);
            assert forall|p: int| 0 <= p < of.len() implies {
                &&& 0 <= #[trigger] of[p] < n
                &&& starts_soon_and_lasts(notes[of[p]], t)
                &&& new_slots[p] == slot_of(l, notes[of[p]], t)
            } by {
                if p < before.len() {
                    assert(of[p] == before[p]);
                    assert(new_slots[p] == old_slots[p]);
                }
            }
            assert forall|i: int|
                0 <= i < n && starts_soon_and_lasts(#[trigger] notes[i], t) implies of.contains(
                i,
            ) by {
                if i == n - 1 {
                    assert(of[before.len() as int] == i);
                } else {
                    assert(before.contains(i));
                    let q = before.index_of(i);
                    assert(of[q] == i);
                }
            }
            of
        } else {
            assert(!shows(notes[n - 1], t));
            before
        }
    }
}

/// Law: a slot lies over the middle of its key, half as wide as a white key or 0.62 times as wide
/// as a black one.
pub proof fn slots_lie_over_their_keys(l: Layout, n: Note, t: int)
    requires
        laid_out(l),
        n.key < 128,
    ensures
        ({
            let slot = slot_of(l, n, t);
            let (kx, kw) = key_span(n.key as int, l.ww as int);
            let k = n.key % 12;
            &&& 2 * slot.cx == 2 * (l.x0 + kx) + kw
            &&& if k == 1 || k == 3 || k == 6 || k == 8 || k == 10 {
                100 * slot.w == 62 * kw
            } else {
                2 * slot.w == kw
            }
        }),
{
    layout_facts(l);
    let w = whites_below(n.key as int) as int;
    whites_below_bound(n.key as int);
    product_bound(w, 255, l.ww as int, 0x2000_0000_0000);
    assert(l.ww % 20_000 == 0);
}

/// Law: a slot reaches from where the note's end stands down to where its start stands, but not
/// above 20 pixels over the roll window, nor further below the tracker bar than it is wide. One
/// without end reaches as far up as may be, or as far down where the window is upside down.
pub proof fn slots_reach_from_end_to_start(l: Layout, n: Note, t: int)
    requires
        laid_out(l),
        n.key < 128,
        n.start is At,
    ensures
        ({
            let slot = slot_of(l, n, t);
            let top: int = 988_000_000;
            let start = y_of(l, n.start->At_0 as int, t);
            &&& slot.y1 <= start && slot.y1 <= l.bar_y + slot.w
            &&& slot.y1 == start || slot.y1 == l.bar_y + slot.w
            &&& slot.y0 >= top
            &&& n.end matches Moment::At(e) ==> {
                &&& slot.y0 >= y_of(l, e as int, t)
                &&& slot.y0 == top || slot.y0 == y_of(l, e as int, t)
            }
            &&& n.end == Moment::Never && l.bar_y >= 1_508_000_000 ==> slot.y0 == top
            &&& n.end == Moment::Never && l.bar_y < 1_508_000_000 ==> slot.y0 == l.bar_y
                + 0x1_0000_0000_0000
        }),
{
    layout_facts(l);
    slots_lie_over_their_keys(l, n, t);
    let w = slot_span(l, n.key as int).1;
    slot_width(l, n.key as int);
    assert(slot_of(l, n, t).w == w);
}

/// A slot is no wider than a white key, and narrower than nothing only where those are.
proof fn slot_width(l: Layout, k: int)
    requires
        laid_out(l),
    ensures
        -0x2000_0000_0000 <= slot_span(l, k).1 <= 0x2000_0000_0000,
{
    layout_facts(l);
}

proof fn rules_are_seconds(l: Layout, t: int, s: int, to: int) -> (of: Seq<int>)
    requires
        laid_out(l),
    ensures
        of.len() == rules_between(l, t, s, to).len(),
        forall|p: int, q: int| 0 <= p < q < of.len() ==> of[p] < of[q],
        forall|p: int|
            0 <= p < of.len() ==> {
                &&& s <= #[trigger] of[p] <= to
                &&& rules_between(l, t, s, to)[p] == y_of(l, of[p] * 1_000_000_000, t)
                &&& in_window(l, y_of(l, of[p] * 1_000_000_000, t))
            },
        forall|i: int|
            s <= i <= to && in_window(l, #[trigger] y_of(l, i * 1_000_000_000, t)) ==> of.contains(
                i,
            ),
    decreases to + 1 - s,
{
    if s > to {
        Seq::empty()
    } else {
        layout_facts(l);
        let rest = rules_are_seconds(l, t, s + 1, to);
        let y = y_of(l, s * 1_000_000_000, t);
        let (all, some) = (rules_between(l, t, s, to), rules_between(l, t, s + 1, to));
        if in_window(l, y) {
            let of = seq![s] + rest;
            assert(all =~= seq![y as i64] + some);
            assert forall|p: int| 0 <= p < of.len() implies {
                &&& s <= #[trigger] of[p] <= to
                &&& all[p] == y_of(l, of[p] * 1_000_000_000, t)
                &&& in_window(l, y_of(l, of[p] * 1_000_000_000, t))
            } by {
                if p > 0 {
                    assert(of[p] == rest[p - 1]);
                    assert(all[p] == some[p - 1]);
                }
            }
            assert forall|p: int, q: int| 0 <= p < q < of.len() implies of[p] < of[q] by {
                assert(of[q] == rest[q - 1]);
                if p > 0 {
                    assert(of[p] == rest[p - 1]);
                }
            }
            assert forall|i: int|
                s <= i <= to && in_window(
                    l,
                    #[trigger] y_of(l, i * 1_000_000_000, t),
                ) implies of.contains(i) by {
                if i == s {
                    assert(of[0] == i);
                } else {
                    assert(rest.contains(i));
                    let q = rest.index_of(i);
                    assert(of[q + 1] == i);
                }
            }
            of
        } else {
            assert(all =~= some);
            rest
        }
    }
}

/// Law: every whole second that stands inside the roll window has its rule, and there is no other:
/// rule `p` is that of second `of[p]`.
pub proof fn every_second_in_the_window_is_ruled(l: Layout, t: int) -> (of: Seq<int>)
    requires
        laid_out(l),
    ensures
        of.len() == second_rules(l, t).len(),
        forall|p: int, q: int| 0 <= p < q < of.len() ==> of[p] < of[q],
        forall|p: int|
            0 <= p < of.len() ==> second_rules(l, t)[p] == y_of(
                l,
                #[trigger] of[p] * 1_000_000_000,
                t,
            ) && 58 * 26_000_000 < second_rules(l, t)[p] < l.bar_y,
        forall|i: int|
            58 * 26_000_000 < #[trigger] y_of(l, i * 1_000_000_000, t) < l.bar_y ==> of.contains(i),
{
    layout_facts(l);
    let (first, last) = (t / SECOND as int, (t + LOOKAHEAD + SECOND - 1) / SECOND as int);
    let of = rules_are_seconds(l, t, first, last);
    assert forall|i: int|
        58 * 26_000_000 < #[trigger] y_of(l, i * 1_000_000_000, t) < l.bar_y implies of.contains(
        i,
    ) by {
        let (dt, h) = (i * 1_000_000_000 - t, window_height(l));
        let up = dt * h / LOOKAHEAD as int;
        assert(0 < up < h);
        assert(0 < dt < LOOKAHEAD) by (nonlinear_arith)
            requires
                0 < up < h,
                up == dt * h / LOOKAHEAD as int,
                LOOKAHEAD > 0,
        ;
        assert(first <= i <= last);
        assert(in_window(l, y_of(l, i * 1_000_000_000, t)));
    }
    of
}

/// Law: rules for pitch stand at every C, an octave apart, the first two white keys up.
pub proof fn octaves_are_seven_white_keys_apart(l: Layout, i: int)
    requires
        laid_out(l),
        0 <= i < 8,
    ensures
        key_span(24 + 12 * i, l.ww as int) == ((2 + 7 * i) * l.ww, l.ww as int),
{
    layout_facts(l);
    keys_stand_in_octaves(24 + 12 * i, l.ww as int);
    assert((24 + 12 * i) % 12 == 0 && (24 + 12 * i) / 12 == 2 + i);
}

/// Law: the title stands in the middle of the leader, a second and a half before the music, and
/// shows while that is below the top of the roll window and less than 60 pixels below the tracker
/// bar; the line at which the music starts shows inside the window.
pub proof fn the_leader_scrolls_by(l: Layout, t: int)
    requires
        laid_out(l),
    ensures
        ({
            let (title, line) = (y_of(l, -1_500_000_000, t), y_of(l, 0, t));
            &&& title_at(l, t) is Some <==> 58 * 26_000_000 < title < l.bar_y + 60 * 26_000_000
            &&& title_at(l, t) matches Some(y) ==> y == title
            &&& start_line_at(l, t) is Some <==> 58 * 26_000_000 < line < l.bar_y
            &&& start_line_at(l, t) matches Some(y) ==> y == line
        }),
{
    layout_facts(l);
}

/// Law: a pill is round at both ends, as wide as its slot and its edge together, over its middle;
/// one end lies as far inside each end of the slot as it is wide, the upper one uppermost, and there
/// is a body between them exactly where the slot is longer than it is wide.
pub proof fn pills_are_round(slot: Slot, pad: int)
    requires
        modest_slot(slot),
        slot.w % 2 == 0,
        0 <= pad <= CUT_EDGE,
    ensures
        ({
            let p = pill_of(slot, pad);
            &&& p.cx == slot.cx
            &&& 2 * p.r == slot.w + 2 * pad
            &&& p.upper <= p.lower
            &&& 2 * (p.upper + p.lower) == 2 * (slot.y0 + slot.y1)
            &&& p.body ==> p.upper == slot.y0 - pad + p.r
            &&& !p.body ==> p.lower == slot.y0 - pad + p.r
            &&& p.body <==> slot.y1 - slot.y0 > slot.w
        }),
{
}

/// Law: the cut edge of the paper shows 1.6 pixels wide all round a slot.
pub proof fn slots_have_a_cut_edge(slot: Slot)
    requires
        modest_slot(slot),
        0 <= slot.w,
        slot.y1 - slot.y0 > slot.w,
    ensures
        ({
            let (edge, hole) = (pill_of(slot, CUT_EDGE as int), pill_of(slot, 0));
            &&& edge.cx == hole.cx
            &&& edge.r == hole.r + 41_600_000
            &&& edge.upper - edge.r == hole.upper - hole.r - 41_600_000
            &&& edge.lower + edge.r == hole.lower + hole.r + 41_600_000
        }),
{
}

} // verus!
