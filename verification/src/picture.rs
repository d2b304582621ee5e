//! Pictures: the veneer that the case is built of, decoded and turned, and textures painted
//! pixel by pixel.
use crate::jpeg::{frame_of, is_undecodable, undecodable};
use vstd::prelude::*;

verus! {

/// Why a picture could not be decoded.
#[verifier::external_type_specification]
#[verifier::external_body]
pub struct ExPictureError(macroquad::Error);

/// A picture of four bytes a pixel: red, green, blue and opacity, row by row from the top.
#[derive(Debug)]
pub struct Picture {
    pub bytes: Vec<u8>,
    pub width: u16,
    pub height: u16,
}

/// Where the byte `c` of the pixel in column `x` of row `y` stands.
pub open spec fn place_of(width: int, x: int, y: int, c: int) -> int {
    (y * width + x) * 4 + c
}

impl Picture {
    /// Whether there are as many bytes as the sides ask for.
    pub open spec fn whole(&self) -> bool {
        self.bytes.len() == self.width * self.height * 4
    }

    /// The byte `c` of the pixel in column `x` of row `y`.
    pub open spec fn at(&self, x: int, y: int, c: int) -> u8 {
        self.bytes@[place_of(self.width as int, x, y, c)]
    }

    /// Whether every pixel is opaque.
    pub open spec fn opaque_throughout(&self) -> bool {
        forall|x: int, y: int|
            0 <= x < self.width && 0 <= y < self.height ==> #[trigger] self.at(x, y, 3) == 255
    }
}

/// Whether these can be the pixels that a JPEG file is decoded to.
pub uninterp spec fn decodes_to(bytes: Seq<u8>, pixels: Seq<u8>) -> bool;

/// Whether `e` can be the error that decoding a JPEG file reports.
pub uninterp spec fn decoding_fails_with(bytes: Seq<u8>, e: macroquad::Error) -> bool;

/// Whether a JPEG file can be decoded.
pub uninterp spec fn decodes(bytes: Seq<u8>) -> bool;

/// `macroquad::texture::Image::from_file_with_format`, for JPEG. Claimed: whether it succeeds
/// depends on the bytes alone, an error that it reports is one of these bytes, and a picture that
/// comes back has the sides that the frame header gives, four bytes a pixel and no transparency.
/// One file may come out in more than one way: the decoder computes colours with the instructions
/// that the processor has, and rounds differently with different ones. Two kinds of files are kept
/// away: lossless ones whose samples the decoder counts by one width and writes by another, and
/// those with a scan of a single component that overflows the 16 bits in which it counts pixels.
#[verifier::external_body]
fn decode(bytes: &[u8]) -> (r: Result<Picture, macroquad::Error>)
    requires
        !undecodable(bytes@),
    ensures
        (r is Ok) == decodes(bytes@),
        r matches Err(e) ==> decoding_fails_with(bytes@, e),
        r matches Ok(p) ==> decodes_to(bytes@, p.bytes@),
        r matches Ok(p) ==> p.whole(),
        r matches Ok(p) ==> p.opaque_throughout(),
        r matches Ok(p) ==> frame_of(bytes@) is Some,
        r matches Ok(p) ==> p.width == frame_of(bytes@)->0.width,
        r matches Ok(p) ==> p.height == frame_of(bytes@)->0.height,
{
    let img = macroquad::texture::Image::from_file_with_format(
        bytes,
        Some(image::ImageFormat::Jpeg),
    )?;
    Ok(Picture { bytes: img.bytes, width: img.width, height: img.height })
}

/// Whether `q` is `p` turned on its diagonal: rows become columns.
pub open spec fn is_transposed(p: Picture, q: Picture) -> bool {
    &&& q.whole()
    &&& q.width == p.height
    &&& q.height == p.width
    &&& forall|x: int, y: int, c: int|
        0 <= x < p.width && 0 <= y < p.height && 0 <= c < 4 ==> #[trigger] q.at(y, x, c) == p.at(
            x,
            y,
            c,
        )
}

/// Turns a picture on its diagonal.
pub fn transpose(p: &Picture) -> (q: Picture)
    requires
        p.whole(),
    ensures
        is_transposed(*p, q),
{
    let (w, h) = (p.width as usize, p.height as usize);
    let mut bytes: Vec<u8> = Vec::new();
    let mut x: usize = 0;
    assert(0 * h * 4 == 0);
    while x < w
        invariant
            w == p.width,
            h == p.height,
            p.whole(),
            x <= w,
            bytes.len() == x * h * 4,
            forall|i: int, y: int, c: int|
                0 <= i < x && 0 <= y < h && 0 <= c < 4 ==> #[trigger] bytes@[place_of(
                    h as int,
                    y,
                    i,
                    c,
                )] == p.at(i, y, c),
        decreases w - x,
    {
        let mut y: usize = 0;
        while y < h
            invariant
                w == p.width,
                h == p.height,
                p.whole(),
                x < w,
                y <= h,
                bytes.len() == (x * h + y) * 4,
                forall|i: int, j: int, c: int|
                    0 <= i < x && 0 <= j < h && 0 <= c < 4 ==> #[trigger] bytes@[place_of(
                        h as int,
                        j,
                        i,
                        c,
                    )] == p.at(i, j, c),
                forall|j: int, c: int|
                    0 <= j < y && 0 <= c < 4 ==> #[trigger] bytes@[place_of(
                        h as int,
                        j,
                        x as int,
                        c,
                    )] == p.at(x as int, j, c),
            decreases h - y,
        {
            proof {
                pixel_is_inside(w as int, h as int, x as int, y as int);
            }
            let ghost before = bytes@;
            let src: usize = (y * w + x) * 4;
            bytes.push(p.bytes[src]);
            bytes.push(p.bytes[src + 1]);
            bytes.push(p.bytes[src + 2]);
            bytes.push(p.bytes[src + 3]);
            proof {
                assert forall|i: int, j: int, c: int|
                    0 <= i < x && 0 <= j < h && 0 <= c < 4 implies #[trigger] bytes@[place_of(
                    h as int,
                    j,
                    i,
                    c,
                )] == p.at(i, j, c) by {
                    earlier_rows(h as int, i, j, x as int, y as int);
                    assert(before[place_of(h as int, j, i, c)] == p.at(i, j, c));
                }
                assert forall|j: int, c: int|
                    0 <= j < y + 1 && 0 <= c < 4 implies #[trigger] bytes@[place_of(
                    h as int,
                    j,
                    x as int,
                    c,
                )] == p.at(x as int, j, c) by {
                    if j < y {
                        assert(before[place_of(h as int, j, x as int, c)] == p.at(x as int, j, c));
                    }
                }
            }
            y += 1;
        }
        assert((x + 1) * h == x * h + h) by (nonlinear_arith);
        x += 1;
    }
    assert(p.height * p.width == p.width * p.height) by (nonlinear_arith);
    let q = Picture { bytes, width: p.height, height: p.width };
    assert forall|x: int, y: int, c: int|
        0 <= x < p.width && 0 <= y < p.height && 0 <= c < 4 implies #[trigger] q.at(y, x, c)
        == p.at(x, y, c) by {
        assert(q.bytes@[place_of(h as int, y, x, c)] == p.at(x, y, c));
    }
    q
}

proof fn pixel_is_inside(w: int, h: int, x: int, y: int)
    requires
        0 <= x < w <= 65_535,
        0 <= y < h <= 65_535,
    ensures
        0 <= y * w,
        y * w + x < w * h,
        w * h <= 65_535 * 65_535,
{
    assert(0 <= y * w && y * w + w <= w * h && w * h <= 65_535 * 65_535) by (nonlinear_arith)
        requires
            0 <= x < w <= 65_535,
            0 <= y < h <= 65_535,
    ;
}

proof fn earlier_rows(h: int, i: int, j: int, x: int, y: int)
    requires
        0 <= i < x,
        0 <= j < h,
        0 <= y,
    ensures
        0 <= i * h + j < x * h + y,
{
    assert(0 <= i * h && i * h + h <= x * h) by (nonlinear_arith)
        requires
            0 <= i < x,
            0 <= h,
    ;
}

/// Why there is no photograph.
#[derive(Debug)]
pub enum PhotoError {
    /// A file that the decoder is not handed: its sizes do not add up, or cannot be counted.
    Frame,
    /// Not a JPEG file, or a broken one.
    Decode(macroquad::Error),
}

/// Whether `q` is `p` itself or, if asked, `p` turned.
pub open spec fn is_oriented(p: Picture, q: Picture, rotate: bool) -> bool {
    if rotate {
        is_transposed(p, q)
    } else {
        q == p
    }
}

/// A photograph as it was decoded, or turned.
pub fn oriented(p: Picture, rotate: bool) -> (q: Picture)
    requires
        p.whole(),
    ensures
        is_oriented(p, q, rotate),
{
    if rotate {
        transpose(&p)
    } else {
        p
    }
}

/// Whether `p` can be what a file is decoded to.
pub open spec fn is_decoded(bytes: Seq<u8>, p: Picture) -> bool {
    &&& decodes_to(bytes, p.bytes@)
    &&& p.whole()
    &&& p.opaque_throughout()
    &&& frame_of(bytes) matches Some(f) && p.width == f.width && p.height == f.height
}

/// Decodes a JPEG file; `rotate` turns the grain from horizontal to vertical.
pub fn photo(bytes: &[u8], rotate: bool) -> (r: Result<Picture, PhotoError>)
    ensures
        undecodable(bytes@) <==> r matches Err(PhotoError::Frame),
        !undecodable(bytes@) ==> (r is Ok <==> decodes(bytes@)),
        r matches Err(PhotoError::Decode(e)) ==> decoding_fails_with(bytes@, e),
        r matches Ok(q) ==> exists|p: Picture| #[trigger]
            is_decoded(bytes@, p) && is_oriented(p, q, rotate),
{
    if is_undecodable(bytes) {
        return Err(PhotoError::Frame);
    }
    match decode(bytes) {
        Err(e) => Err(PhotoError::Decode(e)),
        Ok(p) => {
            let ghost decoded = p;
            let q = oriented(p, rotate);
            assert(is_decoded(bytes@, decoded) && is_oriented(decoded, q, rotate));
            Ok(q)
        },
    }
}

/// Law: a photograph has no transparency, and keeps its sides or swaps them.
pub proof fn photographs_are_opaque(bytes: Seq<u8>, p: Picture, q: Picture, rotate: bool)
    requires
        is_decoded(bytes, p),
        is_oriented(p, q, rotate),
    ensures
        q.whole(),
        q.opaque_throughout(),
        rotate ==> q.width == p.height && q.height == p.width,
        !rotate ==> q.width == p.width && q.height == p.height,
{
    assert forall|x: int, y: int| 0 <= x < q.width && 0 <= y < q.height implies #[trigger] q.at(
        x,
        y,
        3,
    ) == 255 by {
        if rotate {
            assert(q.at(x, y, 3) == p.at(y, x, 3));
        } else {
            assert(p.at(x, y, 3) == 255);
        }
    }
}

/// Law: turned twice, a picture is as it was.
pub proof fn turned_twice(p: Picture, q: Picture, r: Picture)
    requires
        p.whole(),
        is_transposed(p, q),
        is_transposed(q, r),
    ensures
        r.bytes@ == p.bytes@,
{
    let (w, h) = (p.width as int, p.height as int);
    assert forall|i: int| 0 <= i < p.bytes@.len() implies #[trigger] r.bytes@[i] == p.bytes@[i] by {
        let (pixel, c) = (i / 4, i % 4);
        let (x, y) = (pixel % w, pixel / w);
        assert(w > 0) by (nonlinear_arith)
            requires
                i < w * h * 4,
                0 <= i,
                w >= 0,
                h >= 0,
        ;
        assert(pixel == y * w + x && 0 <= x < w && 0 <= y) by (nonlinear_arith)
            requires
                w > 0,
                pixel >= 0,
                x == pixel % w,
                y == pixel / w,
        ;
        assert(y < h) by (nonlinear_arith)
            requires
                y * w + x < w * h,
                0 <= x,
                w > 0,
        ;
        assert(place_of(w, x, y, c) == i);
        assert(r.at(x, y, c) == q.at(y, x, c));
        assert(q.at(y, x, c) == p.at(x, y, c));
    }
    assert(r.bytes@ =~= p.bytes@);
}

/// Paints a picture pixel by pixel: `f` gives red, green and blue for a column and a row. All of
/// it is opaque.
pub fn gen_texture<F: Fn(u16, u16) -> (u8, u8, u8)>(width: u16, height: u16, f: F) -> (p: Picture)
    requires
        forall|x: u16, y: u16| #[trigger] call_requires(f, (x, y)),
    ensures
        p.whole(),
        p.width == width,
        p.height == height,
        p.opaque_throughout(),
        forall|x: u16, y: u16|
            x < width && y < height ==> #[trigger] call_ensures(
                f,
                (x, y),
                (
                    p.at(x as int, y as int, 0),
                    p.at(x as int, y as int, 1),
                    p.at(x as int, y as int, 2),
                ),
            ),
{
    let ghost (w, h) = (width as int, height as int);
    let mut bytes: Vec<u8> = Vec::new();
    let mut y: u16 = 0;
    while y < height
        invariant
            y <= height,
            forall|x: u16, y: u16| #[trigger] call_requires(f, (x, y)),
            bytes.len() == y * width * 4,
            forall|i: u16, j: u16|
                i < width && j < y ==> painted(bytes@, width as int, f, i, j),
        decreases height - y,
    {
        let mut x: u16 = 0;
        while x < width
            invariant
                y < height,
                x <= width,
                forall|x: u16, y: u16| #[trigger] call_requires(f, (x, y)),
                bytes.len() == (y * width + x) * 4,
                forall|i: u16, j: u16|
                    i < width && j < y ==> painted(bytes@, width as int, f, i, j),
                forall|i: u16| i < x ==> painted(bytes@, width as int, f, i, y),
            decreases width - x,
        {
            let ghost before = bytes@;
            let (r, g, b) = f(x, y);
            bytes.push(r);
            bytes.push(g);
            bytes.push(b);
            bytes.push(255);
            proof {
                assert forall|i: u16, j: u16| i < width && j < y implies painted(
                    bytes@,
                    width as int,
                    f,
                    i,
                    j,
                ) by {
                    assert(painted(before, width as int, f, i, j));
                    earlier_rows(width as int, j as int, i as int, y as int, x as int);
                }
                assert forall|i: u16| i < x + 1 implies painted(bytes@, width as int, f, i, y) by {
                    if i < x {
                        assert(painted(before, width as int, f, i, y));
                    }
                    assert(0 <= y * width) by (nonlinear_arith);
                }
            }
            x += 1;
        }
        assert((y + 1) * width == y * width + width) by (nonlinear_arith);
        y += 1;
    }
    assert(height * width == width * height) by (nonlinear_arith);
    let p = Picture { bytes, width, height };
    proof {
        assert forall|x: int, y: int| 0 <= x < w && 0 <= y < h implies #[trigger] p.at(x, y, 3)
            == 255 by {
            assert(painted(p.bytes@, width as int, f, x as u16, y as u16));
        }
        assert forall|x: u16, y: u16| x < width && y < height implies #[trigger] call_ensures(
            f,
            (x, y),
            (p.at(x as int, y as int, 0), p.at(x as int, y as int, 1), p.at(x as int, y as int, 2)),
        ) by {
            assert(painted(p.bytes@, width as int, f, x, y));
        }
    }
    p
}

/// Whether the pixel in column `x` of row `y` is what `f` gives, and opaque.
spec fn painted<F: Fn(u16, u16) -> (u8, u8, u8)>(
    bytes: Seq<u8>,
    width: int,
    f: F,
    x: u16,
    y: u16,
) -> bool {
    let at = place_of(width, x as int, y as int, 0);
    call_ensures(f, (x, y), (bytes[at], bytes[at + 1], bytes[at + 2])) && bytes[at + 3] == 255
}

/// The number below 2^16 that a grid point is dealt: the same each time, and scattered as if by
/// chance.
pub open spec fn scattered(x: u32, y: u32) -> u32 {
    let h = (x as int * 374_761_393 % 0x1_0000_0000) as u32 ^ (y as int * 668_265_263
        % 0x1_0000_0000) as u32;
    let m = ((h ^ (h >> 13)) as int * 1_274_126_177 % 0x1_0000_0000) as u32;
    (m ^ (m >> 16)) & 0xffff
}

/// A number as 32 bits, negative ones in two's complement.
pub open spec fn bits(x: i32) -> u32 {
    (if x < 0 {
        x + 0x1_0000_0000
    } else {
        x as int
    }) as u32
}

fn bits_of(x: i32) -> (b: u32)
    ensures
        b == bits(x),
{
    if x < 0 {
        u32::MAX - (-(x + 1)) as u32
    } else {
        x as u32
    }
}

/// The number that a grid point is dealt.
pub fn hash2(x: i32, y: i32) -> (n: u16)
    ensures
        n == scattered(bits(x), bits(y)),
{
    let h: u32 = bits_of(x).wrapping_mul(374_761_393) ^ bits_of(y).wrapping_mul(668_265_263);
    let m: u32 = (h ^ (h >> 13)).wrapping_mul(1_274_126_177);
    let n: u32 = (m ^ (m >> 16)) & 0xffff;
    assert(n <= 0xffff) by (bit_vector)
        requires
            n == (m ^ (m >> 16)) & 0xffff,
    ;
    n as u16
}

/// Law: turning moves the four bytes of every pixel from its place in rows of the one picture to
/// its place in rows of the other, row for column.
pub proof fn turning_swaps_rows_and_columns(p: Picture, q: Picture, x: int, y: int, c: int)
    requires
        p.whole(),
        is_oriented(p, q, true),
        0 <= x < p.width,
        0 <= y < p.height,
        0 <= c < 4,
    ensures
        q.bytes@.len() == p.bytes@.len(),
        q.bytes@.len() == 4 * (p.width * p.height),
        q.bytes@[4 * (x * p.height + y) + c] == p.bytes@[4 * (y * p.width + x) + c],
{
    assert(q.at(y, x, c) == p.at(x, y, c));
    assert(p.height * p.width == p.width * p.height) by (nonlinear_arith);
}

/// Law: a picture that is not to be turned stays as it is.
pub proof fn unturned_pictures_stay(p: Picture, q: Picture)
    ensures
        is_oriented(p, q, false) <==> q == p,
{
}

/// Law: a picture is opaque where the last of every four bytes is 255.
pub proof fn every_fourth_byte_is_opacity(p: Picture, i: int)
    requires
        p.whole(),
        p.opaque_throughout(),
        0 <= i < p.width * p.height,
    ensures
        p.bytes@[4 * i + 3] == 255,
{
    let w = p.width as int;
    let (x, y) = (i % w, i / w);
    assert(w > 0) by (nonlinear_arith)
        requires
            0 <= i < w * p.height,
            w >= 0,
    ;
    assert(i == y * w + x && 0 <= x < w && 0 <= y < p.height) by (nonlinear_arith)
        requires
            w > 0,
            0 <= i < w * p.height,
            x == i % w,
            y == i / w,
    ;
    assert(p.at(x, y, 3) == 255);
}

/// Law: the number that a grid point is dealt is that of two products modulo 2^32, mixed, multiplied
/// and mixed again, cut to 16 bits.
pub proof fn grid_points_are_dealt_numbers(x: u32, y: u32, a: u32, b: u32, c: u32)
    requires
        a == (374_761_393 * x) % 4_294_967_296,
        b == (668_265_263 * y) % 4_294_967_296,
        c == (1_274_126_177 * ((a ^ b) ^ ((a ^ b) >> 13u32))) % 4_294_967_296,
    ensures
        scattered(x, y) == (c ^ (c >> 16u32)) & 0xffff,
{
}

/// Law: as 32 bits, a number is the same modulo 2^32.
pub proof fn bits_are_twos_complement(x: i32)
    ensures
        (bits(x) - x) % 0x1_0000_0000 == 0,
{
}

/// Law: what is decoded is what the decoder made of the bytes: a picture with all its bytes, opaque,
/// and of the sides that the frame header tells.
pub proof fn decoded_pictures_are_whole(bytes: Seq<u8>, p: Picture)
    ensures
        is_decoded(bytes, p) <==> {
            &&& decodes_to(bytes, p.bytes@)
            &&& p.bytes@.len() == 4 * (p.width * p.height)
            &&& p.opaque_throughout()
            &&& frame_of(bytes) is Some
            &&& p.width == frame_of(bytes)->0.width
            &&& p.height == frame_of(bytes)->0.height
        },
{
}

} // verus!
