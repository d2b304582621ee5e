//! The faces of the keyboard: a port in the tracker bar for every key, and the keys themselves,
//! white ones first, black ones on top.
use crate::keyboard::{
    black, is_black, key_rect, key_span, laid_out, layout_facts, whites_below, whites_below_bound,
    Layout, HIGHEST, LOWEST, MAX_SIDE, PX, TRACKER_H,
};
use vstd::prelude::*;

verus! {

/// Corner radius at the front of every key.
pub const KEY_R: i64 = 78_000_000;

/// A port in the tracker bar. It glows while its key is down.
#[derive(Clone, Copy, Debug, PartialEq, Eq, Structural)]
pub struct Port {
    pub cx: i64,
    pub cy: i64,
    pub lit: bool,
}

/// A white key: its face, and the lip in front of it, which shortens when the key is pressed.
#[derive(Clone, Copy, Debug, PartialEq, Eq, Structural)]
pub struct WhiteKey {
    pub x: i64,
    pub w: i64,
    pub face_h: i64,
    pub lip: i64,
    pub r: i64,
    pub pressed: bool,
}

/// A black key: a raised block with a sloped front and bevelled sides.
#[derive(Clone, Copy, Debug, PartialEq, Eq, Structural)]
pub struct BlackKey {
    pub x: i64,
    pub w: i64,
    pub top_h: i64,
    pub front: i64,
    pub lift: i64,
    pub bevel: i64,
    pub r: i64,
    pub pressed: bool,
}

/// All that there is to paint of the keyboard.
#[derive(Debug)]
pub struct KeyboardScene {
    pub ports: Vec<Port>,
    pub whites: Vec<WhiteKey>,
    pub blacks: Vec<BlackKey>,
}

pub open spec fn least(a: int, b: int) -> int {
    if a < b {
        a
    } else {
        b
    }
}

/// Depth of the lip of a white key at rest: 0.3 of its width, within 6 to 11 pixels.
pub open spec fn lip_depth(l: Layout) -> int {
    let third = l.ww as int / 10 * 3;
    if third < 6 * PX {
        6 * PX
    } else if third > 11 * PX {
        11 * PX
    } else {
        third
    }
}

/// The port above key `k`, at 0.45 of the height of the bar.
pub open spec fn port_of(l: Layout, down: Seq<bool>, k: int) -> Port {
    let (x, kw) = key_span(k, l.ww as int);
    Port {
        cx: (l.x0 + x + kw / 2) as i64,
        cy: (l.bar_y + TRACKER_H / 100 * 45) as i64,
        lit: down[k],
    }
}

/// White key `k`: half a pixel of the bed shows at either side. A pressed key keeps 0.45 of its
/// lip.
pub open spec fn white_of(l: Layout, down: Seq<bool>, k: int) -> WhiteKey {
    let (x, kw) = key_span(k, l.ww as int);
    let lip = if down[k] {
        lip_depth(l) / 100 * 45
    } else {
        lip_depth(l)
    };
    WhiteKey {
        x: (l.x0 + x + PX / 2) as i64,
        w: (kw - PX) as i64,
        face_h: (l.kb_h - lip) as i64,
        lip: lip as i64,
        r: least(KEY_R as int, lip) as i64,
        pressed: down[k],
    }
}

/// Width of the bevels of a black key: 0.12 of its width, within 1.5 to 3 pixels.
pub open spec fn bevel_width(kw: int) -> int {
    let b = kw / 100 * 12;
    if b < PX / 2 * 3 {
        PX / 2 * 3
    } else if b > 3 * PX {
        3 * PX
    } else {
        b
    }
}

/// Black key `k`. A tenth of its length slopes down to the front, half as much when pressed; it
/// casts a shadow of three pixels, half as much when pressed.
pub open spec fn black_of(l: Layout, down: Seq<bool>, k: int) -> BlackKey {
    let (x, kw) = key_span(k, l.ww as int);
    let bh = l.kb_h as int / 100 * 63;
    let front = if down[k] {
        bh / 20
    } else {
        bh / 10
    };
    BlackKey {
        x: (l.x0 + x) as i64,
        w: kw as i64,
        top_h: (bh - front) as i64,
        front: front as i64,
        lift: if down[k] {
            (PX / 2 * 3) as i64
        } else {
            (3 * PX) as i64
        },
        bevel: bevel_width(kw) as i64,
        r: least(KEY_R as int, front) as i64,
        pressed: down[k],
    }
}

/// The ports of the keys below `k`.
pub open spec fn ports_below(l: Layout, down: Seq<bool>, k: int) -> Seq<Port> {
    Seq::new((k - LOWEST) as nat, |i: int| port_of(l, down, LOWEST + i))
}

/// The white keys below `k`, from left to right.
pub open spec fn white_keys_below(l: Layout, down: Seq<bool>, k: int) -> Seq<WhiteKey>
    decreases k,
{
    if k <= LOWEST {
        Seq::empty()
    } else if black(k - 1) {
        white_keys_below(l, down, k - 1)
    } else {
        white_keys_below(l, down, k - 1).push(white_of(l, down, k - 1))
    }
}

/// The black keys below `k`, from left to right.
pub open spec fn black_keys_below(l: Layout, down: Seq<bool>, k: int) -> Seq<BlackKey>
    decreases k,
{
    if k <= LOWEST {
        Seq::empty()
    } else if black(k - 1) {
        black_keys_below(l, down, k - 1).push(black_of(l, down, k - 1))
    } else {
        black_keys_below(l, down, k - 1)
    }
}

/// Law: every key of the piano is painted once, in its own colour.
pub proof fn every_key_is_painted(l: Layout, down: Seq<bool>, k: int)
    requires
        LOWEST <= k <= HIGHEST + 1,
    ensures
        white_keys_below(l, down, k).len() == whites_below(k),
        white_keys_below(l, down, k).len() + black_keys_below(l, down, k).len() == k - LOWEST,
        ports_below(l, down, k).len() == k - LOWEST,
    decreases k,
{
    if k > LOWEST {
        every_key_is_painted(l, down, k - 1);
    }
}

/// Law: a key that is down is painted pressed, and one that is up at rest.
pub proof fn pressed_keys_look_pressed(l: Layout, down: Seq<bool>, k: int)
    requires
        LOWEST <= k <= HIGHEST,
    ensures
        ports_below(l, down, HIGHEST + 1)[k - LOWEST].lit == down[k],
        !black(k) ==> white_keys_below(l, down, HIGHEST + 1)[whites_below(k) as int].pressed
            == down[k],
        black(k) ==> black_keys_below(l, down, HIGHEST + 1)[k - LOWEST - whites_below(k)].pressed
            == down[k],
{
    key_in_its_place(l, down, k, HIGHEST + 1);
}

proof fn key_in_its_place(l: Layout, down: Seq<bool>, k: int, to: int)
    requires
        LOWEST <= k < to <= HIGHEST + 1,
    ensures
        !black(k) ==> {
            &&& whites_below(k) < white_keys_below(l, down, to).len()
            &&& white_keys_below(l, down, to)[whites_below(k) as int] == white_of(l, down, k)
        },
        black(k) ==> {
            &&& k - LOWEST - whites_below(k) < black_keys_below(l, down, to).len()
            &&& black_keys_below(l, down, to)[k - LOWEST - whites_below(k)] == black_of(l, down, k)
        },
    decreases to,
{
    every_key_is_painted(l, down, k);
    if k + 1 < to {
        key_in_its_place(l, down, k, to - 1);
    }
}

proof fn span_bounds(l: Layout, k: int)
    requires
        laid_out(l),
        LOWEST <= k <= HIGHEST,
    ensures
        -0x4000_0000_0000 < key_span(k, l.ww as int).0 < 0x4000_0000_0000,
        -0x4000_0000_0000 < key_span(k, l.ww as int).1 < 0x4000_0000_0000,
{
    layout_facts(l);
    whites_below_bound(k);
    let n = whites_below(k) as int;
    assert(-1_740_000_000 <= n * l.ww <= 87 * (MAX_SIDE * 500_000)) by (nonlinear_arith)
        requires
            0 <= n <= 87,
            -20_000_000 <= l.ww <= MAX_SIDE * 500_000,
    ;
}

#[verifier::rlimit(40)]
fn white_key(l: &Layout, pressed: bool, x: i64, kw: i64, Ghost(down): Ghost<Seq<bool>>, Ghost(
    k,
): Ghost<int>) -> (key: WhiteKey)
    requires
        laid_out(*l),
        LOWEST <= k <= HIGHEST,
        pressed == down[k],
        (x as int, kw as int) == key_span(k, l.ww as int),
    ensures
        key == white_of(*l, down, k),
{
    proof {
        layout_facts(*l);
        span_bounds(*l, k);
    }
    let third = l.ww / 10 * 3;
    let depth = if third < 6 * PX {
        6 * PX
    } else if third > 11 * PX {
        11 * PX
    } else {
        third
    };
    let lip = if pressed {
        depth / 100 * 45
    } else {
        depth
    };
    WhiteKey {
        x: l.x0 + x + PX / 2,
        w: kw - PX,
        face_h: l.kb_h - lip,
        lip,
        r: if KEY_R < lip {
            KEY_R
        } else {
            lip
        },
        pressed,
    }
}

/// The length of the black keys, and how much of it slopes.
fn black_lengths(kb_h: i64, pressed: bool) -> (r: (i64, i64))
    requires
        kb_h % 112_000 == 0,
        -0x4000_0000_0000 < kb_h < 0x4000_0000_0000,
    ensures
        r.0 == kb_h as int / 100 * 63,
        r.1 == if pressed {
            r.0 as int / 20
        } else {
            r.0 as int / 10
        },
        -0x4000_0000_0000 < r.0 < 0x4000_0000_0000,
        -0x4000_0000_0000 < r.1 < 0x4000_0000_0000,
{
    let ghost q = kb_h as int / 112_000;
    assert(kb_h == 112_000 * q);
    let hundredth = kb_h / 100;
    assert(hundredth == 1_120 * q);
    let bh = hundredth * 63;
    assert(bh == 70_560 * q);
    if pressed {
        (bh, bh / 20)
    } else {
        (bh, bh / 10)
    }
}

/// The width of the bevels of a black key.
fn bevel_of(kw: i64) -> (b: i64)
    requires
        kw % 100 == 0,
        -0x4000_0000_0000 < kw < 0x4000_0000_0000,
    ensures
        b == bevel_width(kw as int),
{
    let b = kw / 100 * 12;
    if b < PX / 2 * 3 {
        PX / 2 * 3
    } else if b > 3 * PX {
        3 * PX
    } else {
        b
    }
}

#[verifier::rlimit(40)]
fn black_key(l: &Layout, pressed: bool, x: i64, kw: i64, Ghost(down): Ghost<Seq<bool>>, Ghost(
    k,
): Ghost<int>) -> (key: BlackKey)
    requires
        laid_out(*l),
        LOWEST <= k <= HIGHEST,
        black(k),
        pressed == down[k],
        (x as int, kw as int) == key_span(k, l.ww as int),
    ensures
        key == black_of(*l, down, k),
{
    proof {
        layout_facts(*l);
        span_bounds(*l, k);
    }
    assert(kw % 100 == 0) by {
        assert(l.ww % 20_000 == 0);
    }
    let (bh, front) = black_lengths(l.kb_h, pressed);
    BlackKey {
        x: l.x0 + x,
        w: kw,
        top_h: bh - front,
        front,
        lift: if pressed {
            PX / 2 * 3
        } else {
            3 * PX
        },
        bevel: bevel_of(kw),
        r: if KEY_R < front {
            KEY_R
        } else {
            front
        },
        pressed,
    }
}

#[verifier::rlimit(40)]
fn port(l: &Layout, pressed: bool, x: i64, kw: i64, Ghost(down): Ghost<Seq<bool>>, Ghost(
    k,
): Ghost<int>) -> (port: Port)
    requires
        laid_out(*l),
        LOWEST <= k <= HIGHEST,
        pressed == down[k],
        (x as int, kw as int) == key_span(k, l.ww as int),
    ensures
        port == port_of(*l, down, k),
{
    proof {
        layout_facts(*l);
        span_bounds(*l, k);
    }
    Port { cx: l.x0 + x + kw / 2, cy: l.bar_y + TRACKER_H / 100 * 45, lit: pressed }
}

/// Where a key of the piano starts and how wide it is.
fn span(l: &Layout, k: u8) -> (r: (i64, i64))
    requires
        laid_out(*l),
        LOWEST <= k <= HIGHEST,
    ensures
        (r.0 as int, r.1 as int) == key_span(k as int, l.ww as int),
{
    proof {
        layout_facts(*l);
    }
    key_rect(k, l.ww)
}

/// The keyboard with the given keys down.
pub fn keyboard_scene(l: &Layout, down: &Vec<bool>) -> (scene: KeyboardScene)
    requires
        laid_out(*l),
        down.len() == 128,
    ensures
        scene.ports@ == ports_below(*l, down@, HIGHEST + 1),
        scene.whites@ == white_keys_below(*l, down@, HIGHEST + 1),
        scene.blacks@ == black_keys_below(*l, down@, HIGHEST + 1),
{
    let mut ports: Vec<Port> = Vec::new();
    let mut whites: Vec<WhiteKey> = Vec::new();
    let mut blacks: Vec<BlackKey> = Vec::new();
    let mut k: u8 = LOWEST;
    assert(ports@ =~= ports_below(*l, down@, LOWEST as int));
    while k <= HIGHEST
        invariant
            LOWEST <= k <= HIGHEST + 1,
            laid_out(*l),
            down.len() == 128,
            ports@ == ports_below(*l, down@, k as int),
            whites@ == white_keys_below(*l, down@, k as int),
            blacks@ == black_keys_below(*l, down@, k as int),
        decreases HIGHEST + 1 - k,
    {
        let (x, kw) = span(l, k);
        let pressed = down[k as usize];
        let p = port(l, pressed, x, kw, Ghost(down@), Ghost(k as int));
        ports.push(p);
        assert(ports@ =~= ports_below(*l, down@, k + 1));
        if is_black(k) {
            let key = black_key(l, pressed, x, kw, Ghost(down@), Ghost(k as int));
            blacks.push(key);
        } else {
            let key = white_key(l, pressed, x, kw, Ghost(down@), Ghost(k as int));
            whites.push(key);
        }
        k += 1;
    }
    KeyboardScene { ports, whites, blacks }
}

/// Law: a white key is painted on its own place, half a pixel in from either edge: a face, and
/// in front of it a lip, which together are as long as the keyboard is deep. The lip of a key at
/// rest is 0.3 times as deep as the key is wide, within 6 to 11 pixels, and a pressed key keeps 0.45
/// of it; its corners are round by three pixels, or as far as the lip goes.
pub proof fn white_keys_are_painted_in_place(l: Layout, down: Seq<bool>, k: int)
    requires
        laid_out(l),
        LOWEST <= k <= HIGHEST,
        !black(k),
    ensures
        ({
            let p = white_keys_below(l, down, HIGHEST + 1)[whites_below(k) as int];
            let (kx, kw) = key_span(k, l.ww as int);
            let px: int = 26_000_000;
            let lip = if down[k] {
                100 * p.lip
            } else {
                45 * p.lip
            };
            &&& 2 * p.x == 2 * (l.x0 + kx) + px
            &&& p.w == kw - px
            &&& p.face_h + p.lip == l.kb_h
            &&& 3 * l.ww <= 60 * px ==> lip == 270 * px
            &&& 60 * px <= 3 * l.ww <= 110 * px ==> 10 * lip == 135 * l.ww
            &&& 3 * l.ww >= 110 * px ==> lip == 495 * px
            &&& p.r <= 3 * px && p.r <= p.lip && (p.r == 3 * px || p.r == p.lip)
            &&& p.pressed == down[k]
        }),
{
    layout_facts(l);
    span_bounds(l, k);
    key_in_its_place(l, down, k, HIGHEST + 1);
    let q = l.ww as int / 20_000;
    assert(l.ww == 20_000 * q);
    let third = l.ww as int / 10 * 3;
    assert(third == 6_000 * q);
    assert(third / 100 * 45 == 2_700 * q);
    let p = white_keys_below(l, down, HIGHEST + 1)[whites_below(k) as int];
    assert(p == white_of(l, down, k));
    assert(p.lip == if down[k] {
        lip_depth(l) / 100 * 45
    } else {
        lip_depth(l)
    });
}

/// Law: a black key is painted on its own place, 0.63 of the keyboard long: a top, and a front of
/// a tenth of that, or half as much when pressed. It stands three pixels high, or half as much; its
/// bevels are 0.12 of its width, within 1.5 to 3 pixels; its corners are round by three pixels, or
/// as far as the front goes.
pub proof fn black_keys_are_painted_in_place(l: Layout, down: Seq<bool>, k: int)
    requires
        laid_out(l),
        LOWEST <= k <= HIGHEST,
        black(k),
    ensures
        ({
            let p = black_keys_below(l, down, HIGHEST + 1)[k - LOWEST - whites_below(k)];
            let (kx, kw) = key_span(k, l.ww as int);
            let px: int = 26_000_000;
            &&& p.x == l.x0 + kx
            &&& p.w == kw
            &&& 100 * (p.top_h + p.front) == 63 * l.kb_h
            &&& p.top_h + p.front == (if down[k] {
                20
            } else {
                10int
            }) * p.front
            &&& 2 * p.lift == (if down[k] {
                3
            } else {
                6int
            }) * px
            &&& 12 * kw <= 150 * px ==> 2 * p.bevel == 3 * px
            &&& 150 * px <= 12 * kw <= 300 * px ==> 100 * p.bevel == 12 * kw
            &&& 12 * kw >= 300 * px ==> p.bevel == 3 * px
            &&& p.r <= 3 * px && p.r <= p.front && (p.r == 3 * px || p.r == p.front)
            &&& p.pressed == down[k]
        }),
{
    layout_facts(l);
    span_bounds(l, k);
    key_in_its_place(l, down, k, HIGHEST + 1);
    let q = l.ww as int / 20_000;
    assert(l.ww == 20_000 * q);
    assert(l.kb_h == 112_000 * q);
    let bh = l.kb_h as int / 100 * 63;
    assert(bh == 70_560 * q);
    assert(bh / 10 == 7_056 * q && bh / 20 == 3_528 * q);
    let kw = key_span(k, l.ww as int).1;
    assert(kw == 12_000 * q);
    assert(kw / 100 * 12 == 1_440 * q);
}

/// Law: every key has its port in the tracker bar, over its middle, 0.45 of the way down the bar,
/// lit while the key is down.
pub proof fn ports_stand_over_their_keys(l: Layout, down: Seq<bool>, k: int)
    requires
        laid_out(l),
        LOWEST <= k <= HIGHEST,
    ensures
        ports_below(l, down, HIGHEST + 1).len() == 88,
        ({
            let p = ports_below(l, down, HIGHEST + 1)[k - 21];
            let (kx, kw) = key_span(k, l.ww as int);
            &&& 2 * p.cx == 2 * (l.x0 + kx) + kw
            &&& 100 * (p.cy - l.bar_y) == 45 * 14 * 26_000_000
            &&& p.lit == down[k]
        }),
{
    layout_facts(l);
    span_bounds(l, k);
}

} // verus!
