//! The piano keyboard on the screen: where everything sits, and which key is under a point.
//!
//! Lengths are whole numbers of a unit so fine that every length of a window whose sides are
//! whole pixels comes out exact.
use vstd::prelude::*;

verus! {

/// Units in a pixel.
pub const PX: i64 = 26_000_000;

/// The longest side of a window, in pixels.
pub const MAX_SIDE: u32 = 1_000_000;

/// The lowest key of a piano, A0.
pub const LOWEST: u8 = 21;

/// The highest key of a piano, C8.
pub const HIGHEST: u8 = 108;

/// Height of the nameboard, of the tracker bar, of the felt strip and of the key slip.
pub const HEADER_H: i64 = 1_508_000_000;

pub const TRACKER_H: i64 = 364_000_000;

pub const FELT_H: i64 = 182_000_000;

pub const SLIP_H: i64 = 572_000_000;

/// Where everything sits: cheek blocks either side, keys between them, the roll window above.
#[derive(Clone, Copy, Debug, PartialEq, Eq, Structural)]
pub struct Layout {
    pub w: i64,
    pub h: i64,
    /// Width of a cheek block: where the lowest key starts.
    pub x0: i64,
    /// Width of a white key.
    pub ww: i64,
    pub bar_y: i64,
    pub felt_y: i64,
    pub kb_y: i64,
    pub kb_h: i64,
    pub slip_y: i64,
}

pub open spec fn clamped(v: int, lo: int, hi: int) -> int {
    if v < lo {
        lo
    } else if v > hi {
        hi
    } else {
        v
    }
}

/// The layout of a window of `w` by `h` pixels. From the bottom up: key slip, keys, felt strip,
/// tracker bar. A cheek block takes a fiftieth of the width, within 16 to 36 pixels; 52 white
/// keys share the rest, each 5.6 times as long as wide.
pub open spec fn is_layout(l: Layout, w: int, h: int) -> bool {
    &&& l.w == w * PX
    &&& l.h == h * PX
    &&& l.x0 == clamped(l.w as int / 50, 16 * PX, 36 * PX)
    &&& 52 * l.ww == l.w - 2 * l.x0
    &&& 5 * l.kb_h == 28 * l.ww
    &&& l.slip_y == l.h - SLIP_H
    &&& l.kb_y == l.slip_y - l.kb_h
    &&& l.felt_y == l.kb_y - FELT_H
    &&& l.bar_y == l.felt_y - TRACKER_H
}

/// Whether `l` is the layout of some window.
pub open spec fn laid_out(l: Layout) -> bool {
    exists|w: int, h: int|
        0 <= w <= MAX_SIDE && 0 <= h <= MAX_SIDE && #[trigger] is_layout(l, w, h)
}

#[verifier::rlimit(40)]
pub proof fn layout_facts(l: Layout)
    requires
        laid_out(l),
    ensures
        l.ww % 20_000 == 0,
        l.ww % 10 == 0,
        l.kb_h % 112_000 == 0,
        5 * l.kb_h == 28 * l.ww,
        52 * l.ww == l.w - 2 * l.x0,
        0 <= l.w <= MAX_SIDE * PX,
        0 <= l.h <= MAX_SIDE * PX,
        16 * PX <= l.x0 <= 36 * PX,
        -20_000_000 <= l.ww <= MAX_SIDE * 500_000,
        -100_000_000 <= l.kb_h <= MAX_SIDE * 2_800_000,
        l.slip_y == l.h - SLIP_H,
        l.kb_y == l.slip_y - l.kb_h,
        l.felt_y == l.kb_y - FELT_H,
        l.bar_y == l.felt_y - TRACKER_H,
{
    let (w, h) = choose|w: int, h: int|
        0 <= w <= MAX_SIDE && 0 <= h <= MAX_SIDE && #[trigger] is_layout(l, w, h);
    assert(l.w as int / 50 == 520_000 * w);
    let q: int = if w < 800 {
        25 * (w - 32)
    } else if w > 1800 {
        25 * (w - 72)
    } else {
        24 * w
    };
    assert(l.ww == 20_000 * q);
    assert(l.kb_h == 112_000 * q);
}

/// The layout of a window of `w` by `h` pixels.
#[verifier::rlimit(40)]
pub fn layout(w: u32, h: u32) -> (l: Layout)
    requires
        w <= MAX_SIDE,
        h <= MAX_SIDE,
    ensures
        is_layout(l, w as int, h as int),
        laid_out(l),
{
    let (pw, ph): (i64, i64) = (w as i64 * PX, h as i64 * PX);
    let fiftieth: i64 = pw / 50;
    let x0: i64 = if fiftieth < 16 * PX {
        16 * PX
    } else if fiftieth > 36 * PX {
        36 * PX
    } else {
        fiftieth
    };
    let ww: i64 = (pw - 2 * x0) / 52;
    proof {
        assert(52 * ww == pw - 2 * x0) by {
            if fiftieth < 16 * PX {
                assert(pw - 2 * x0 == 52 * (500_000 * (w - 32)));
            } else if fiftieth > 36 * PX {
                assert(pw - 2 * x0 == 52 * (500_000 * (w - 72)));
            } else {
                assert(pw - 2 * x0 == 52 * (480_000 * w));
            }
        }
        if fiftieth < 16 * PX {
            assert(ww == 5 * (100_000 * (w - 32)));
        } else if fiftieth > 36 * PX {
            assert(ww == 5 * (100_000 * (w - 72)));
        } else {
            assert(ww == 5 * (96_000 * w));
        }
    }
    let kb_h: i64 = ww / 5 * 28;
    let slip_y: i64 = ph - SLIP_H;
    let kb_y: i64 = slip_y - kb_h;
    let felt_y: i64 = kb_y - FELT_H;
    let l = Layout { w: pw, h: ph, x0, ww, bar_y: felt_y - TRACKER_H, felt_y, kb_y, kb_h, slip_y };
    assert(is_layout(l, w as int, h as int));
    l
}

/// Whether a key is black, by its place in the octave.
pub open spec fn black(k: int) -> bool {
    let d = k % 12;
    d == 1 || d == 3 || d == 6 || d == 8 || d == 10
}

/// Whether a key is black.
pub fn is_black(k: u8) -> (b: bool)
    ensures
        b == black(k as int),
{
    let d: u8 = k % 12;
    d == 1 || d == 3 || d == 6 || d == 8 || d == 10
}

/// The number of white keys from the lowest key of the piano up to, not counting, key `k`.
pub open spec fn whites_below(k: int) -> nat
    decreases k - LOWEST,
{
    if k <= LOWEST {
        0
    } else {
        whites_below(k - 1) + (if black(k - 1) {
            0nat
        } else {
            1
        })
    }
}

/// No more white keys than keys.
pub proof fn whites_below_bound(k: int)
    ensures
        k >= LOWEST ==> whites_below(k) <= k - LOWEST,
    decreases k,
{
    if k > LOWEST {
        whites_below_bound(k - 1);
    }
}

fn count_whites_below(k: u8) -> (n: i64)
    ensures
        n == whites_below(k as int),
        0 <= n <= 255,
{
    let mut n: i64 = 0;
    let mut i: u8 = LOWEST;
    while i < k
        invariant
            LOWEST <= i,
            i <= k || i == LOWEST,
            n == whites_below(i as int),
            n <= i,
        decreases k - i,
    {
        if !is_black(i) {
            n += 1;
        }
        i += 1;
    }
    if k < LOWEST {
        return 0;
    }
    n
}

/// Where a key starts and how wide it is, for white keys of width `ww`: white keys side by side,
/// black keys 0.6 times as wide and centred on the gap between two white ones.
pub open spec fn key_span(k: int, ww: int) -> (int, int) {
    if black(k) {
        (whites_below(k) * ww - ww / 10 * 3, ww / 10 * 6)
    } else {
        (whites_below(k) * ww, ww)
    }
}

/// The x position and width of a piano key, for a given width of the white keys.
pub fn key_rect(k: u8, ww: i64) -> (r: (i64, i64))
    requires
        ww % 10 == 0,
        -0x1_0000_0000_0000 <= ww <= 0x1_0000_0000_0000,
    ensures
        (r.0 as int, r.1 as int) == key_span(k as int, ww as int),
{
    let n = count_whites_below(k);
    assert(-256 * 0x1_0000_0000_0000 <= n * ww <= 256 * 0x1_0000_0000_0000) by (nonlinear_arith)
        requires
            0 <= n <= 255,
            -0x1_0000_0000_0000 <= ww <= 0x1_0000_0000_0000,
    ;
    if is_black(k) {
        (n * ww - ww / 10 * 3, ww / 10 * 6)
    } else {
        (n * ww, ww)
    }
}

/// How far down a key reaches: black keys 0.63 times as far as white ones.
pub open spec fn key_length(l: Layout, k: int) -> int {
    if black(k) {
        l.kb_h / 100 * 63
    } else {
        l.kb_h as int
    }
}

/// Whether key `k` reaches the point; its edges belong to it.
pub open spec fn reaches(l: Layout, k: int, x: int, y: int) -> bool {
    let (kx, kw) = key_span(k, l.ww as int);
    &&& l.x0 + kx <= x <= l.x0 + kx + kw
    &&& l.kb_y <= y <= l.kb_y + key_length(l, k)
}

/// The lowest key from `k` up, black or white as asked, that reaches the point.
pub open spec fn lowest_reaching(l: Layout, k: int, blacks: bool, x: int, y: int) -> Option<u8>
    decreases HIGHEST + 1 - k,
{
    if k > HIGHEST {
        None
    } else if black(k) == blacks && reaches(l, k, x, y) {
        Some(k as u8)
    } else {
        lowest_reaching(l, k + 1, blacks, x, y)
    }
}

/// The key under a point. Black keys sit on top of the white ones.
pub open spec fn key_under(l: Layout, x: int, y: int) -> Option<u8> {
    match lowest_reaching(l, LOWEST as int, true, x, y) {
        Some(k) => Some(k),
        None => lowest_reaching(l, LOWEST as int, false, x, y),
    }
}

fn find_key(l: &Layout, blacks: bool, x: i64, y: i64) -> (r: Option<u8>)
    requires
        laid_out(*l),
    ensures
        r == lowest_reaching(*l, LOWEST as int, blacks, x as int, y as int),
{
    proof {
        layout_facts(*l);
    }
    let mut k: u8 = LOWEST;
    while k <= HIGHEST
        invariant
            LOWEST <= k <= HIGHEST + 1,
            laid_out(*l),
            lowest_reaching(*l, LOWEST as int, blacks, x as int, y as int) == lowest_reaching(
                *l,
                k as int,
                blacks,
                x as int,
                y as int,
            ),
        decreases HIGHEST + 1 - k,
    {
        proof {
            layout_facts(*l);
            whites_below_bound(k as int);
            assert(-100 * 20_000_000 <= whites_below(k as int) * l.ww <= 100 * MAX_SIDE * 500_000)
                by (nonlinear_arith)
                requires
                    0 <= whites_below(k as int) <= 100,
                    -20_000_000 <= l.ww <= MAX_SIDE * 500_000,
            ;
        }
        if is_black(k) == blacks {
            let (kx, kw) = key_rect(k, l.ww);
            let len: i64 = if blacks {
                l.kb_h / 100 * 63
            } else {
                l.kb_h
            };
            if l.x0 + kx <= x && x <= l.x0 + kx + kw && l.kb_y <= y && y <= l.kb_y + len {
                return Some(k);
            }
        }
        k += 1;
    }
    None
}

/// The key under a point of the screen, if any.
pub fn key_at(l: &Layout, x: i64, y: i64) -> (key: Option<u8>)
    requires
        laid_out(*l),
    ensures
        key == key_under(*l, x as int, y as int),
{
    match find_key(l, true, x, y) {
        Some(k) => Some(k),
        None => find_key(l, false, x, y),
    }
}

proof fn whites_below_grows(i: int, k: int)
    requires
        i <= k,
    ensures
        whites_below(i) <= whites_below(k),
    decreases k - i,
{
    if i < k {
        whites_below_grows(i, k - 1);
    }
}

/// An octave has seven white keys.
proof fn octave_up(k: int)
    requires
        LOWEST <= k,
    ensures
        whites_below(k + 12) == whites_below(k) + 7,
    decreases k,
{
    if k == LOWEST {
        assert(whites_below(33) == 7) by {
            reveal_with_fuel(whites_below, 13);
        }
    } else {
        octave_up(k - 1);
        assert(black(k - 1) == black(k + 11)) by {
            assert((k + 11) % 12 == (k - 1) % 12);
        }
    }
}

/// Between two black keys there is a white one.
proof fn black_keys_apart(a: int, b: int)
    requires
        LOWEST <= a < b,
        black(a),
        black(b),
    ensures
        whites_below(a) + 1 <= whites_below(b),
{
    assert(!black(a + 1));
    assert(b >= a + 2);
    assert(whites_below(a + 2) == whites_below(a + 1) + 1);
    assert(whites_below(a + 1) == whites_below(a));
    whites_below_grows(a + 2, b);
}

/// Law: a piano has 52 white keys and 36 black ones, and the white keys fill the width between
/// the cheek blocks: the first starts at the left block, the last ends at the right one.
pub proof fn white_keys_fill_the_width(l: Layout)
    requires
        laid_out(l),
    ensures
        whites_below(HIGHEST + 1) == 52,
        HIGHEST + 1 - LOWEST - whites_below(HIGHEST + 1) == 36,
        key_span(LOWEST as int, l.ww as int).0 == 0,
        l.x0 + key_span(HIGHEST as int, l.ww as int).0 + key_span(HIGHEST as int, l.ww as int).1
            == l.w - l.x0,
{
    layout_facts(l);
    octave_up(21);
    octave_up(33);
    octave_up(45);
    octave_up(57);
    octave_up(69);
    octave_up(81);
    octave_up(93);
    assert(whites_below(21) == 0);
    assert(whites_below(105) == 49);
    assert(whites_below(106) == 50);
    assert(whites_below(107) == 50);
    assert(whites_below(108) == 51);
    assert(whites_below(109) == 52);
}

proof fn lowest_reaching_is(l: Layout, from: int, blacks: bool, x: int, y: int)
    requires
        LOWEST <= from,
    ensures
        match lowest_reaching(l, from, blacks, x, y) {
            Some(k) => {
                &&& from <= k <= HIGHEST
                &&& black(k as int) == blacks
                &&& reaches(l, k as int, x, y)
                &&& forall|i: int|
                    from <= i < k && black(i) == blacks ==> !#[trigger] reaches(l, i, x, y)
            },
            None => forall|i: int|
                from <= i <= HIGHEST && black(i) == blacks ==> !#[trigger] reaches(l, i, x, y),
        },
    decreases HIGHEST + 1 - from,
{
    if from <= HIGHEST && !(black(from) == blacks && reaches(l, from, x, y)) {
        lowest_reaching_is(l, from + 1, blacks, x, y);
    }
}

/// Law: black keys lie on top. Wherever a black key reaches, the key under the point is a black
/// one that reaches it; a white key is under the point only where no black key reaches.
pub proof fn black_keys_lie_on_top(l: Layout, x: int, y: int)
    ensures
        match key_under(l, x, y) {
            Some(k) => {
                &&& LOWEST <= k <= HIGHEST
                &&& reaches(l, k as int, x, y)
                &&& !black(k as int) ==> forall|i: int|
                    LOWEST <= i <= HIGHEST && black(i) ==> !#[trigger] reaches(l, i, x, y)
            },
            None => forall|i: int| LOWEST <= i <= HIGHEST ==> !#[trigger] reaches(l, i, x, y),
        },
{
    lowest_reaching_is(l, LOWEST as int, true, x, y);
    lowest_reaching_is(l, LOWEST as int, false, x, y);
}

/// Law: on a keyboard of keys with some width, a point that a black key reaches has that key
/// under it: no two black keys touch.
pub proof fn black_keys_do_not_touch(l: Layout, k: int, x: int, y: int)
    requires
        laid_out(l),
        l.ww > 0,
        LOWEST <= k <= HIGHEST,
        black(k),
        reaches(l, k, x, y),
    ensures
        key_under(l, x, y) == Some(k as u8),
{
    layout_facts(l);
    lowest_reaching_is(l, LOWEST as int, true, x, y);
    let ww = l.ww as int;
    assert forall|i: int| LOWEST <= i <= HIGHEST && black(i) && #[trigger] reaches(
        l,
        i,
        x,
        y,
    ) implies i == k by {
        if i != k {
            let (a, b) = if i < k {
                (i, k)
            } else {
                (k, i)
            };
            black_keys_apart(a, b);
            let (na, nb) = (whites_below(a) as int, whites_below(b) as int);
            assert(na * ww + ww <= nb * ww) by (nonlinear_arith)
                requires
                    na + 1 <= nb,
                    ww > 0,
            ;
        }
    }
}

proof fn some_white_key_reaches(l: Layout, k: int, x: int, y: int) -> (i: int)
    requires
        l.ww > 0,
        LOWEST <= k <= HIGHEST,
        l.x0 <= x <= l.x0 + whites_below(k + 1) * l.ww,
        whites_below(k + 1) > 0,
        l.kb_y <= y <= l.kb_y + l.kb_h,
    ensures
        LOWEST <= i <= k,
        !black(i),
        reaches(l, i, x, y),
    decreases k,
{
    if !black(k) && l.x0 + whites_below(k) * l.ww <= x {
        assert((whites_below(k) + 1) * l.ww == whites_below(k) * l.ww + l.ww) by (nonlinear_arith);
        k
    } else {
        if !black(k) {
            assert(whites_below(k) > 0) by {
                if whites_below(k) == 0 {
                    assert(whites_below(k) * l.ww == 0) by (nonlinear_arith)
                        requires
                            whites_below(k) == 0,
                    ;
                }
            }
        }
        assert(k > LOWEST);
        some_white_key_reaches(l, k - 1, x, y)
    }
}

/// Law: there is a key under every point of the keyboard.
pub proof fn every_point_has_a_key(l: Layout, x: int, y: int)
    requires
        laid_out(l),
        l.ww > 0,
        l.x0 <= x <= l.w - l.x0,
        l.kb_y <= y <= l.kb_y + l.kb_h,
    ensures
        key_under(l, x, y) is Some,
{
    layout_facts(l);
    white_keys_fill_the_width(l);
    let i = some_white_key_reaches(l, HIGHEST as int, x, y);
    lowest_reaching_is(l, LOWEST as int, true, x, y);
    lowest_reaching_is(l, LOWEST as int, false, x, y);
}

/// Law: in front of the black keys, a point inside a white key's edges has that key under it.
pub proof fn white_keys_answer_in_front(l: Layout, k: int, x: int, y: int)
    requires
        laid_out(l),
        l.ww > 0,
        LOWEST <= k <= HIGHEST,
        !black(k),
        l.x0 + key_span(k, l.ww as int).0 < x < l.x0 + key_span(k, l.ww as int).0 + l.ww,
        l.kb_y + l.kb_h / 100 * 63 < y <= l.kb_y + l.kb_h,
    ensures
        key_under(l, x, y) == Some(k as u8),
{
    layout_facts(l);
    lowest_reaching_is(l, LOWEST as int, true, x, y);
    lowest_reaching_is(l, LOWEST as int, false, x, y);
    let ww = l.ww as int;
    if k == 21 {
        assert(whites_below(k) == 0);
        assert(whites_below(k) * ww == 0) by (nonlinear_arith)
            requires
                whites_below(k) == 0,
        ;
    }
    assert(reaches(l, k, x, y));
    assert forall|i: int| LOWEST <= i < k && !black(i) implies !#[trigger] reaches(l, i, x, y) by {
        whites_below_grows(i + 1, k);
        let (ni, nk) = (whites_below(i) as int, whites_below(k) as int);
        assert(ni * ww + ww <= nk * ww) by (nonlinear_arith)
            requires
                ni + 1 <= nk,
                ww > 0,
        ;
    }
    assert forall|i: int| k < i <= HIGHEST && !black(i) implies !#[trigger] reaches(l, i, x, y) by {
        whites_below_grows(k + 1, i);
        let (ni, nk) = (whites_below(i) as int, whites_below(k) as int);
        assert(nk * ww + ww <= ni * ww) by (nonlinear_arith)
            requires
                nk + 1 <= ni,
                ww > 0,
        ;
    }
}

/// Law: above the keyboard, below it and beside it there is no key.
pub proof fn no_key_off_the_keyboard(l: Layout, x: int, y: int)
    requires
        laid_out(l),
        l.ww > 0,
        x < l.x0 || x > l.w - l.x0 || y < l.kb_y || y > l.kb_y + l.kb_h,
    ensures
        key_under(l, x, y) is None,
{
    layout_facts(l);
    white_keys_fill_the_width(l);
    lowest_reaching_is(l, LOWEST as int, true, x, y);
    lowest_reaching_is(l, LOWEST as int, false, x, y);
    let ww = l.ww as int;
    assert forall|i: int| LOWEST <= i <= HIGHEST implies !#[trigger] reaches(l, i, x, y) by {
        whites_below_grows(i + 1, HIGHEST + 1);
        let n = whites_below(i) as int;
        assert(0 <= n * ww) by (nonlinear_arith)
            requires
                0 <= n,
                ww > 0,
        ;
        if black(i) {
            reveal_with_fuel(whites_below, 3);
            whites_below_grows(LOWEST + 1, i);
            whites_below_grows(i + 2, HIGHEST + 1);
            assert(ww <= n * ww <= 51 * ww) by (nonlinear_arith)
                requires
                    1 <= n <= 51,
                    ww > 0,
            ;
        } else {
            assert(n * ww + ww <= 52 * ww) by (nonlinear_arith)
                requires
                    n <= 51,
                    ww > 0,
            ;
        }
    }
}

/// White keys of an octave below its `n`th key, counting from C.
pub open spec fn whites_of_octave(n: int) -> int {
    if n <= 4 {
        (n + 1) / 2
    } else {
        (n + 2) / 2
    }
}

proof fn whites_in_octaves(k: int)
    requires
        LOWEST <= k,
    ensures
        whites_below(k) == 7 * (k / 12) + whites_of_octave(k % 12) - 12,
    decreases k,
{
    if k > LOWEST {
        whites_in_octaves(k - 1);
        let (n, m) = ((k - 1) % 12, k % 12);
        if m == 0 {
            assert(n == 11 && k / 12 == (k - 1) / 12 + 1);
        } else {
            assert(n == m - 1 && k / 12 == (k - 1) / 12);
        }
    }
}

/// Law: keys stand in octaves. An octave is seven white keys wide, side by side; its black keys
/// are the second, fourth, seventh, ninth and eleventh, 0.6 times as wide as a white one, each in
/// the middle of the edge between two white ones. Keys below the lowest of a piano stand where that
/// one does.
pub proof fn keys_stand_in_octaves(k: int, ww: int)
    requires
        ww % 10 == 0,
    ensures
        ({
            let n = k % 12;
            let edge = if k < 21 {
                0
            } else {
                (7 * (k / 12) + whites_of_octave(n) - 12) * ww
            };
            let (x, w) = key_span(k, ww);
            if n == 1 || n == 3 || n == 6 || n == 8 || n == 10 {
                10 * w == 6 * ww && 2 * x + w == 2 * edge
            } else {
                w == ww && x == edge
            }
        }),
{
    if k >= 21 {
        whites_in_octaves(k);
    } else {
        assert(0 * ww == 0) by (nonlinear_arith);
    }
}

/// Law: a point on a black key, from edge to edge and down to 0.63 of the keyboard's depth, has
/// that key under it.
pub proof fn black_keys_answer_where_they_are_painted(l: Layout, k: int, x: int, y: int)
    requires
        laid_out(l),
        l.ww > 0,
        21 <= k <= 108,
        k % 12 == 1 || k % 12 == 3 || k % 12 == 6 || k % 12 == 8 || k % 12 == 10,
        l.x0 + key_span(k, l.ww as int).0 <= x <= l.x0 + key_span(k, l.ww as int).0 + key_span(
            k,
            l.ww as int,
        ).1,
        l.kb_y <= y,
        100 * (y - l.kb_y) <= 63 * l.kb_h,
    ensures
        key_under(l, x, y) == Some(k as u8),
{
    layout_facts(l);
    assert(100 * (l.kb_h / 100 * 63) == 63 * l.kb_h);
    black_keys_do_not_touch(l, k, x, y);
}

/// Law: a point on a white key, over the whole depth of the keyboard, has that key under it where
/// no black key is painted. The edge between two white keys belongs to the lower one.
pub proof fn white_keys_answer_beside_black_ones(l: Layout, k: int, x: int, y: int)
    requires
        laid_out(l),
        l.ww > 0,
        21 <= k <= 108,
        !(k % 12 == 1 || k % 12 == 3 || k % 12 == 6 || k % 12 == 8 || k % 12 == 10),
        l.x0 + key_span(k, l.ww as int).0 < x <= l.x0 + key_span(k, l.ww as int).0 + l.ww || (k
            == 21 && x == l.x0),
        l.kb_y <= y <= l.kb_y + l.kb_h,
        100 * (y - l.kb_y) > 63 * l.kb_h || forall|b: int|
            21 <= b <= 108 && (b % 12 == 1 || b % 12 == 3 || b % 12 == 6 || b % 12 == 8 || b % 12
                == 10) ==> !(l.x0 + (#[trigger] key_span(b, l.ww as int)).0 <= x <= l.x0 + key_span(
                b,
                l.ww as int,
            ).0 + key_span(b, l.ww as int).1),
    ensures
        key_under(l, x, y) == Some(k as u8),
{
    layout_facts(l);
    assert(100 * (l.kb_h / 100 * 63) == 63 * l.kb_h);
    lowest_reaching_is(l, LOWEST as int, true, x, y);
    lowest_reaching_is(l, LOWEST as int, false, x, y);
    assert forall|b: int| LOWEST <= b <= HIGHEST && black(b) implies !#[trigger] reaches(
        l,
        b,
        x,
        y,
    ) by {
        let span = key_span(b, l.ww as int);
    }
    let ww = l.ww as int;
    if k == 21 {
        assert(whites_below(k) == 0);
        assert(whites_below(k) * ww == 0) by (nonlinear_arith)
            requires
                whites_below(k) == 0,
        ;
    }
    assert(reaches(l, k, x, y));
    assert forall|i: int| LOWEST <= i < k && !black(i) implies !#[trigger] reaches(l, i, x, y) by {
        whites_below_grows(i + 1, k);
        let (ni, nk) = (whites_below(i) as int, whites_below(k) as int);
        assert(ni * ww + ww <= nk * ww) by (nonlinear_arith)
            requires
                ni + 1 <= nk,
                ww > 0,
        ;
    }
}

/// Law: a layout adds up. From the left: a cheek block of a fiftieth of the width, but of 16 pixels
/// at least and 36 at most, 52 white keys, and a cheek block like the first; from the bottom: a key
/// slip of 22 pixels, keys 5.6 times as long as wide, a felt strip of 7 and a tracker bar of 14.
pub proof fn layouts_add_up(l: Layout, w: int, h: int)
    requires
        0 <= w <= 1_000_000,
        0 <= h <= 1_000_000,
        is_layout(l, w, h),
    ensures
        l.w == w * 26_000_000,
        l.h == h * 26_000_000,
        w <= 800 ==> l.x0 == 16 * 26_000_000,
        800 <= w <= 1800 ==> 50 * l.x0 == l.w,
        1800 <= w ==> l.x0 == 36 * 26_000_000,
        l.x0 + 52 * l.ww + l.x0 == l.w,
        10 * l.kb_h == 56 * l.ww,
        l.slip_y + 22 * 26_000_000 == l.h,
        l.kb_y + l.kb_h == l.slip_y,
        l.felt_y + 7 * 26_000_000 == l.kb_y,
        l.bar_y + 14 * 26_000_000 == l.felt_y,
{
    assert(l.w as int / 50 == 520_000 * w);
}

} // verus!
