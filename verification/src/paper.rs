//! The paper of the roll: tiles that scroll down the roll window, every other row mirrored so
//! that the texture has no seams.
use crate::keyboard::{laid_out, layout_facts, Layout, HEADER_H, MAX_SIDE, PX};
use vstd::prelude::*;

verus! {

/// Music that the roll window shows above the tracker bar, in nanoseconds.
pub const LOOKAHEAD: i128 = 3_000_000_000;

/// Side of a tile of paper.
pub const TILE: i64 = 16_640_000_000;

/// Bound on the times that the roll can show.
pub const FAR: i128 = 0x1_0000_0000_0000_0000_0000;

/// Height of the roll window.
pub open spec fn window_height(l: Layout) -> int {
    l.bar_y - HEADER_H
}

/// Part of a tile of paper: where it is drawn, how much of the tile's top is cut off, and
/// whether the tile is mirrored top to bottom.
#[derive(Clone, Copy, Debug, PartialEq, Eq, Structural)]
pub struct Tile {
    pub x: i64,
    pub y: i64,
    pub w: i64,
    pub h: i64,
    pub cut: i64,
    pub mirrored: bool,
}

/// How far the paper has scrolled at time `t`, modulo two tiles.
pub open spec fn scroll_at(l: Layout, t: int) -> int {
    (t * window_height(l) / LOOKAHEAD as int) % (2 * TILE as int)
}

/// Where row `row` of tiles starts.
pub open spec fn row_top(scroll: int, row: int) -> int {
    HEADER_H + row * TILE + scroll
}

pub open spec fn larger(a: int, b: int) -> int {
    if a < b {
        b
    } else {
        a
    }
}

pub open spec fn smaller(a: int, b: int) -> int {
    if a < b {
        a
    } else {
        b
    }
}

/// The part of tile `col` of row `row` that is inside the roll window.
pub open spec fn tile(l: Layout, scroll: int, row: int, col: int) -> Tile {
    let top = row_top(scroll, row);
    let (y0, y1) = (larger(top, HEADER_H as int), smaller(top + TILE, l.bar_y as int));
    let x = l.x0 + col * TILE;
    Tile {
        x: x as i64,
        y: y0 as i64,
        w: smaller(l.w - l.x0 - x, TILE as int) as i64,
        h: (y1 - y0) as i64,
        cut: (y0 - top) as i64,
        mirrored: row % 2 == 1,
    }
}

/// Tiles in a row.
pub open spec fn columns(l: Layout) -> int {
    if l.w - 2 * l.x0 <= 0 {
        0
    } else {
        (l.w - 2 * l.x0 + TILE - 1) / TILE as int
    }
}

/// Whether row `row` shows in the roll window.
pub open spec fn row_shows(l: Layout, scroll: int, row: int) -> bool {
    larger(row_top(scroll, row), HEADER_H as int) < smaller(
        row_top(scroll, row) + TILE,
        l.bar_y as int,
    )
}

/// The tiles of row `row`, from left to right.
pub open spec fn row_tiles(l: Layout, scroll: int, row: int) -> Seq<Tile> {
    if row_shows(l, scroll, row) {
        Seq::new(columns(l) as nat, |col: int| tile(l, scroll, row, col))
    } else {
        Seq::empty()
    }
}

/// The tiles of row `row` and the rows below it.
pub open spec fn tiles_from(l: Layout, scroll: int, row: int) -> Seq<Tile>
    decreases l.bar_y - row_top(scroll, row) + TILE,
{
    if row_top(scroll, row) >= l.bar_y {
        Seq::empty()
    } else {
        row_tiles(l, scroll, row) + tiles_from(l, scroll, row + 1)
    }
}

/// All the paper that shows at time `t`. Row -2 is the first that can reach into the window.
pub open spec fn paper(l: Layout, t: int) -> Seq<Tile> {
    tiles_from(l, scroll_at(l, t), -2)
}

/// A product of bounded factors is bounded.
pub proof fn product_bound(a: int, a_max: int, b: int, b_max: int)
    requires
        -a_max <= a <= a_max,
        -b_max <= b <= b_max,
    ensures
        -(a_max * b_max) <= a * b <= a_max * b_max,
{
    assert(-(a_max * b_max) <= a * b <= a_max * b_max) by (nonlinear_arith)
        requires
            -a_max <= a <= a_max,
            -b_max <= b <= b_max,
    {
        let (x, y) = (if a < 0 { -a } else { a }, if b < 0 { -b } else { b });
        assert(0 <= x * y <= a_max * b_max);
        assert(a * b == x * y || a * b == -(x * y));
    }
}

/// Division that rounds down.
pub fn floor_div(a: i128, b: i128) -> (q: i128)
    requires
        b > 0,
        b < 0x1_0000_0000_0000,
        -0x7000_0000_0000_0000_0000_0000_0000_0000 < a < 0x7000_0000_0000_0000_0000_0000_0000_0000,
    ensures
        q == a as int / b as int,
{
    if a >= 0 {
        a / b
    } else {
        let m: i128 = (b - 1 - a) / b;
        assert(-m == a as int / b as int) by (nonlinear_arith)
            requires
                b > 0,
                a < 0,
                m == (b - 1 - a) / b as int,
        ;
        -m
    }
}

/// How far the paper has scrolled at time `t`, modulo two tiles.
fn scroll_of(l: &Layout, t: i128) -> (scroll: i64)
    requires
        laid_out(*l),
        -FAR < t < FAR,
    ensures
        scroll == scroll_at(*l, t as int),
        0 <= scroll < 2 * TILE,
{
    proof {
        layout_facts(*l);
    }
    let wh: i128 = l.bar_y as i128 - HEADER_H as i128;
    proof {
        product_bound(t as int, FAR as int, wh as int, 0x4000_0000_0000);
    }
    let moved = floor_div(t * wh, LOOKAHEAD);
    let two: i128 = 2 * TILE as i128;
    let whole = floor_div(moved, two);
    assert(moved - whole * two == moved as int % two as int && whole * two <= moved) by (nonlinear_arith)
        requires
            two > 0,
            whole == moved as int / two as int,
    ;
    assert(moved as int % two as int >= 0 && (moved as int % two as int) < two);
    (moved - whole * two) as i64
}

/// The paper that shows in the roll window at time `t`.
#[verifier::rlimit(40)]
pub fn paper_tiles(l: &Layout, t: i128) -> (tiles: Vec<Tile>)
    requires
        laid_out(*l),
        -FAR < t < FAR,
    ensures
        tiles@ == paper(*l, t as int),
{
    proof {
        layout_facts(*l);
    }
    let scroll = scroll_of(l, t);
    let mut tiles: Vec<Tile> = Vec::new();
    let mut row: i64 = -2;
    let mut top: i64 = HEADER_H - 2 * TILE + scroll;
    while top < l.bar_y
        invariant
            laid_out(*l),
            0 <= scroll < 2 * TILE,
            -2 <= row <= 100_000_000_000,
            top == row_top(scroll as int, row as int),
            top <= 3 * MAX_SIDE * PX,
            l.bar_y <= 2 * MAX_SIDE * PX,
            paper(*l, t as int) =~= tiles@ + tiles_from(*l, scroll as int, row as int),
            scroll == scroll_at(*l, t as int),
        decreases l.bar_y - top + TILE,
    {
        proof {
            layout_facts(*l);
        }
        let y0: i64 = if top < HEADER_H {
            HEADER_H
        } else {
            top
        };
        let y1: i64 = if top + TILE < l.bar_y {
            top + TILE
        } else {
            l.bar_y
        };
        let ghost before = tiles@;
        if y0 < y1 {
            let right: i64 = l.w - l.x0;
            let mut x: i64 = l.x0;
            let mut col: i64 = 0;
            let ghost mine = row_tiles(*l, scroll as int, row as int);
            assert(mine.take(0) =~= Seq::<Tile>::empty());
            while x < right
                invariant
                    laid_out(*l),
                    right == l.w - l.x0,
                    x == l.x0 + col * TILE,
                    0 <= col <= columns(*l),
                    x < right ==> col < columns(*l),
                    x >= right ==> col == columns(*l),
                    mine == row_tiles(*l, scroll as int, row as int),
                    row_shows(*l, scroll as int, row as int),
                    -2 <= row <= 100_000_000_000,
                    top == row_top(scroll as int, row as int),
                    y0 == larger(top as int, HEADER_H as int),
                    y1 == smaller(top + TILE, l.bar_y as int),
                    y0 < y1,
                    -2 * TILE <= top,
                    l.bar_y <= 2 * MAX_SIDE * PX,
                    tiles@ =~= before + mine.take(col as int),
                decreases right - x + TILE,
            {
                proof {
                    layout_facts(*l);
                }
                let left = right - x;
                tiles.push(
                    Tile {
                        x,
                        y: y0,
                        w: if left < TILE {
                            left
                        } else {
                            TILE
                        },
                        h: y1 - y0,
                        cut: y0 - top,
                        mirrored: row % 2 == 1 || row % 2 == -1,
                    },
                );
                assert(tiles@.last() == tile(*l, scroll as int, row as int, col as int));
                assert(mine.take(col + 1) =~= mine.take(col as int).push(mine[col as int]));
                x = x + TILE;
                col = col + 1;
            }
            assert(mine.take(columns(*l)) =~= mine);
        }
        assert(tiles@ =~= before + row_tiles(*l, scroll as int, row as int));
        row = row + 1;
        top = top + TILE;
    }
    tiles
}

/// The row and column of the `i`th tile from row `row` on.
pub open spec fn place(l: Layout, scroll: int, row: int, i: int) -> (int, int)
    decreases l.bar_y - row_top(scroll, row) + TILE,
{
    let mine = row_tiles(l, scroll, row).len() as int;
    if row_top(scroll, row) >= l.bar_y || i < mine {
        (row, i)
    } else {
        place(l, scroll, row + 1, i - mine)
    }
}

proof fn tile_in_its_place(l: Layout, scroll: int, row: int, i: int)
    requires
        0 <= i < tiles_from(l, scroll, row).len(),
    ensures
        ({
            let (r, c) = place(l, scroll, row, i);
            &&& row <= r
            &&& 0 <= c < columns(l)
            &&& row_top(scroll, r) < l.bar_y
            &&& row_shows(l, scroll, r)
            &&& tiles_from(l, scroll, row)[i] == tile(l, scroll, r, c)
        }),
    decreases l.bar_y - row_top(scroll, row) + TILE,
{
    let mine = row_tiles(l, scroll, row).len() as int;
    if i >= mine {
        tile_in_its_place(l, scroll, row + 1, i - mine);
    }
}

proof fn places_in_order(l: Layout, scroll: int, row: int, i: int, j: int)
    requires
        0 <= i < j < tiles_from(l, scroll, row).len(),
    ensures
        ({
            let (r, c) = place(l, scroll, row, i);
            let (s, d) = place(l, scroll, row, j);
            r < s || (r == s && c < d)
        }),
    decreases l.bar_y - row_top(scroll, row) + TILE,
{
    let mine = row_tiles(l, scroll, row).len() as int;
    if i >= mine {
        places_in_order(l, scroll, row + 1, i - mine, j - mine);
    } else if j >= mine {
        tile_in_its_place(l, scroll, row + 1, j - mine);
    }
}

proof fn tile_is_there(l: Layout, scroll: int, row: int, r: int, c: int)
    requires
        row <= r,
        0 <= c < columns(l),
        row_shows(l, scroll, r),
    ensures
        exists|i: int|
            0 <= i < tiles_from(l, scroll, row).len() && #[trigger] tiles_from(l, scroll, row)[i]
                == tile(l, scroll, r, c),
    decreases r - row,
{
    assert(row_top(scroll, row) <= row_top(scroll, r)) by (nonlinear_arith)
        requires
            row <= r,
            row_top(scroll, row) == HEADER_H + row * TILE + scroll,
            row_top(scroll, r) == HEADER_H + r * TILE + scroll,
    ;
    let mine = row_tiles(l, scroll, row);
    if r == row {
        assert(tiles_from(l, scroll, row)[c] == tile(l, scroll, r, c));
    } else {
        tile_is_there(l, scroll, row + 1, r, c);
        let i = choose|i: int|
            0 <= i < tiles_from(l, scroll, row + 1).len() && #[trigger] tiles_from(
                l,
                scroll,
                row + 1,
            )[i] == tile(l, scroll, r, c);
        assert(tiles_from(l, scroll, row)[mine.len() + i] == tile(l, scroll, r, c));
    }
}

/// Whether the tile covers the point. Its right and lower edges belong to its neighbours.
pub open spec fn covers(p: Tile, x: int, y: int) -> bool {
    p.x <= x < p.x + p.w && p.y <= y < p.y + p.h
}

/// What a tile that shows looks like, without the bounds of machine numbers.
proof fn tile_extent(l: Layout, scroll: int, r: int, c: int)
    requires
        laid_out(l),
        0 <= scroll < 2 * TILE,
        -2 <= r,
        0 <= c < columns(l),
        row_shows(l, scroll, r),
    ensures
        ({
            let p = tile(l, scroll, r, c);
            let top = row_top(scroll, r);
            &&& p.x == l.x0 + c * TILE
            &&& p.w == smaller(l.w - l.x0 - p.x, TILE as int)
            &&& p.w > 0
            &&& p.y == larger(top, HEADER_H as int)
            &&& p.y + p.h == smaller(top + TILE, l.bar_y as int)
            &&& p.cut == p.y - top
            &&& p.h > 0
        }),
{
    layout_facts(l);
    let span = l.w - 2 * l.x0;
    assert(c * TILE < span) by (nonlinear_arith)
        requires
            span > 0,
            c < (span + TILE - 1) / TILE as int,
            TILE > 0,
    ;
    assert(0 <= c * TILE) by (nonlinear_arith)
        requires
            c >= 0,
            TILE > 0,
    ;
    assert(-2 * TILE <= r * TILE) by (nonlinear_arith)
        requires
            -2 <= r,
            TILE > 0,
    ;
}

/// Law: the paper covers the whole roll window.
pub proof fn paper_has_no_holes(l: Layout, t: int, x: int, y: int)
    requires
        laid_out(l),
        l.x0 <= x < l.w - l.x0,
        HEADER_H <= y < l.bar_y,
    ensures
        exists|i: int| 0 <= i < paper(l, t).len() && covers(#[trigger] paper(l, t)[i], x, y),
{
    layout_facts(l);
    let scroll = scroll_at(l, t);
    let r = (y - HEADER_H - scroll) / TILE as int;
    let c = (x - l.x0) / TILE as int;
    let span = l.w - 2 * l.x0;
    assert(r * TILE <= y - HEADER_H - scroll < r * TILE + TILE) by (nonlinear_arith)
        requires
            r == (y - HEADER_H - scroll) / TILE as int,
            TILE > 0,
    ;
    assert(-2 <= r) by (nonlinear_arith)
        requires
            -2 * TILE <= y - HEADER_H - scroll,
            r == (y - HEADER_H - scroll) / TILE as int,
            TILE > 0,
    ;
    assert(c * TILE <= x - l.x0 < c * TILE + TILE && 0 <= c) by (nonlinear_arith)
        requires
            c == (x - l.x0) / TILE as int,
            x >= l.x0,
            TILE > 0,
    ;
    assert(c < (span + TILE - 1) / TILE as int) by (nonlinear_arith)
        requires
            c * TILE < span,
            TILE > 0,
    ;
    assert(row_shows(l, scroll, r));
    tile_extent(l, scroll, r, c);
    tile_is_there(l, scroll, -2, r, c);
    let i = choose|i: int|
        0 <= i < tiles_from(l, scroll, -2).len() && #[trigger] tiles_from(l, scroll, -2)[i] == tile(
            l,
            scroll,
            r,
            c,
        );
    assert(covers(paper(l, t)[i], x, y));
}

/// Law: no tile of paper reaches out of the roll window, and none shows more than a tile has.
pub proof fn paper_stays_in_the_window(l: Layout, t: int, i: int)
    requires
        laid_out(l),
        0 <= i < paper(l, t).len(),
    ensures
        ({
            let p = paper(l, t)[i];
            &&& l.x0 <= p.x && 0 < p.w && p.x + p.w <= l.w - l.x0
            &&& HEADER_H <= p.y && 0 < p.h && p.y + p.h <= l.bar_y
            &&& 0 <= p.cut && p.cut + p.h <= TILE && p.w <= TILE
        }),
{
    let scroll = scroll_at(l, t);
    tile_in_its_place(l, scroll, -2, i);
    let (r, c) = place(l, scroll, -2, i);
    tile_extent(l, scroll, r, c);
    assert(0 <= c * TILE) by (nonlinear_arith)
        requires
            c >= 0,
            TILE > 0,
    ;
}

/// Law: no two tiles of paper lie on top of each other.
pub proof fn paper_lies_flat(l: Layout, t: int, i: int, j: int, x: int, y: int)
    requires
        laid_out(l),
        0 <= i < j < paper(l, t).len(),
    ensures
        !(covers(paper(l, t)[i], x, y) && covers(paper(l, t)[j], x, y)),
{
    let scroll = scroll_at(l, t);
    tile_in_its_place(l, scroll, -2, i);
    tile_in_its_place(l, scroll, -2, j);
    places_in_order(l, scroll, -2, i, j);
    let (r, c) = place(l, scroll, -2, i);
    let (s, d) = place(l, scroll, -2, j);
    tile_extent(l, scroll, r, c);
    tile_extent(l, scroll, s, d);
    if r < s {
        assert(r * TILE + TILE <= s * TILE) by (nonlinear_arith)
            requires
                r < s,
                TILE > 0,
        ;
    } else {
        assert(c * TILE + TILE <= d * TILE) by (nonlinear_arith)
            requires
                c < d,
                TILE > 0,
        ;
    }
}

/// Law: the paper has no seams. Where one tile ends on top of another, both show their shared
/// edge, and one of the two is mirrored, so the same line of the texture meets itself.
pub proof fn paper_has_no_seams(l: Layout, t: int, i: int, j: int)
    requires
        laid_out(l),
        0 <= i < paper(l, t).len(),
        0 <= j < paper(l, t).len(),
        paper(l, t)[i].y + paper(l, t)[i].h == paper(l, t)[j].y,
    ensures
        paper(l, t)[i].cut + paper(l, t)[i].h == TILE,
        paper(l, t)[j].cut == 0,
        paper(l, t)[i].mirrored != paper(l, t)[j].mirrored,
{
    let scroll = scroll_at(l, t);
    tile_in_its_place(l, scroll, -2, i);
    tile_in_its_place(l, scroll, -2, j);
    let (r, c) = place(l, scroll, -2, i);
    let (s, d) = place(l, scroll, -2, j);
    tile_extent(l, scroll, r, c);
    tile_extent(l, scroll, s, d);
    if r >= s {
        assert(s * TILE <= r * TILE) by (nonlinear_arith)
            requires
                s <= r,
                TILE > 0,
        ;
    } else if r + 1 < s {
        assert(r * TILE + 2 * TILE <= s * TILE) by (nonlinear_arith)
            requires
                r + 2 <= s,
                TILE > 0,
        ;
    }
    assert(s == r + 1);
    assert((r + 1) * TILE == r * TILE + TILE) by (nonlinear_arith);
}

/// Law: the paper scrolls with the music. Wherever a tile covers a point, the tile shows there the
/// line of its texture that has come down to it: rows of 640 pixels, every other one mirrored,
/// moved down from the top of the window by a window's height in three seconds; and across, columns
/// of 640 pixels from the left edge of the window.
pub proof fn paper_scrolls_with_the_music(l: Layout, t: int, i: int, x: int, y: int)
    requires
        laid_out(l),
        0 <= i < paper(l, t).len(),
        covers(paper(l, t)[i], x, y),
    ensures
        ({
            let p = paper(l, t)[i];
            let side: int = 16_640_000_000;
            let moved = t * (l.bar_y - 58 * 26_000_000) / 3_000_000_000;
            let down = y - 58 * 26_000_000 - moved;
            &&& p.cut + (y - p.y) == down % side
            &&& p.mirrored <==> (down / side) % 2 == 1
            &&& x - p.x == (x - l.x0) % side
        }),
{
    let scroll = scroll_at(l, t);
    tile_in_its_place(l, scroll, -2, i);
    let (r, c) = place(l, scroll, -2, i);
    tile_extent(l, scroll, r, c);
    let p = paper(l, t)[i];
    let side: int = 16_640_000_000;
    let moved = t * (l.bar_y - 58 * 26_000_000) / 3_000_000_000;
    let down = y - 58 * 26_000_000 - moved;
    let q = moved / (2 * side);
    assert(moved == 2 * side * q + scroll);
    let off = y - row_top(scroll, r);
    assert(0 <= off < side);
    assert(down == side * (r - 2 * q) + off);
    assert(down % side == off && down / side == r - 2 * q);
    assert((r - 2 * q) % 2 == r % 2);
    assert((x - l.x0) % side == x - p.x) by {
        assert(0 <= x - p.x < side);
        assert(x - l.x0 == side * c + (x - p.x));
    }
}

} // verus!
