use image::codecs::jpeg::JpegEncoder;
use image::ColorType;
use ytplay::jpeg::is_undecodable;
use ytplay::picture::{gen_texture, hash2, oriented, photo, transpose, PhotoError, Picture};

/// A JPEG file, 16 by 8, its left half black and its right half white.
fn file() -> Vec<u8> {
    let grey: Vec<u8> = (0..128).map(|i| if i % 16 < 8 { 0 } else { 255 }).collect();
    let mut out = Vec::new();
    JpegEncoder::new(&mut out).encode(&grey, 16, 8, ColorType::L8).unwrap();
    out
}

fn red(p: &Picture, x: usize, y: usize) -> u8 {
    p.bytes[(y * p.width as usize + x) * 4]
}

#[test]
fn photographs_are_decoded_and_turned() {
    let p = photo(&file(), false).unwrap();
    assert_eq!((p.width, p.height, p.bytes.len()), (16, 8, 512));
    assert!(red(&p, 1, 6) < 20 && red(&p, 14, 1) > 235);
    assert!(p.bytes.chunks(4).all(|c| c[3] == 255));
    let q = photo(&file(), true).unwrap();
    assert_eq!((q.width, q.height, q.bytes.len()), (8, 16, 512));
    for y in 0..8 {
        for x in 0..16 {
            assert_eq!(red(&q, y, x), red(&p, x, y));
        }
    }
}

/// The start of a file, up to a frame header of this code, precision, height, width and components.
fn start(code: u8, precision: u8, h: u16, w: u16, components: &[[u8; 3]]) -> Vec<u8> {
    let mut f = vec![0xff, 0xd8, 0xff, code, 0, 8 + 3 * components.len() as u8, precision];
    f.extend(h.to_be_bytes());
    f.extend(w.to_be_bytes());
    f.push(components.len() as u8);
    f.extend(components.concat());
    f
}

const GREY: [u8; 3] = [1, 0x11, 0];

/// A lossless file of one grey pixel.
fn lossless(precision: u8) -> Vec<u8> {
    let mut f = start(0xc3, precision, 1, 1, &[GREY]);
    // One code of one bit, for no difference.
    f.extend([0xff, 0xc4, 0, 20, 0, 1, 0, 0, 0, 0, 0, 0, 0, 0, 0, 0, 0, 0, 0, 0, 0, 0]);
    f.extend([0xff, 0xda, 0, 8, 1, 1, 0, 1, 0, 0, 0x7f, 0xff, 0xd9]);
    f
}

#[test]
fn frame_headers_are_found_behind_other_segments() {
    // Bytes that look like a frame header inside a comment do not count.
    let fake = start(0xc3, 7, 1, 1, &[GREY]);
    let behind = |comment: &[u8], frame: Vec<u8>| {
        let size = (comment.len() as u16 + 2).to_be_bytes();
        [&[0xff, 0xd8, 0xff, 0xfe][..], &size, comment, &[0xff], &frame[2..]].concat()
    };
    assert!(is_undecodable(&fake));
    assert!(!is_undecodable(&behind(&fake, lossless(8))));
    assert!(is_undecodable(&behind(b"a comment", lossless(7))));
    assert_eq!(photo(&behind(&fake, file()), false).unwrap().width, 16);
    // A header that is cut off is none.
    assert!(!is_undecodable(&fake[..fake.len() - 1]));
    assert!(!is_undecodable(&[]) && !is_undecodable(&[0xff, 0xd8, 0xff, 0xd9]));
}

#[test]
fn lossless_photographs_are_decoded() {
    let p = photo(&lossless(8), true).unwrap();
    assert_eq!((p.width, p.height, p.bytes), (1, 1, vec![128, 128, 128, 255]));
    let p = photo(&lossless(16), false).unwrap();
    assert_eq!((p.width, p.height, p.bytes), (1, 1, vec![128, 128, 128, 255]));
}

#[test]
fn wide_photographs_are_decoded() {
    let mut wide = Vec::new();
    JpegEncoder::new(&mut wide).encode(&vec![90; 65_535], 65_535, 1, ColorType::L8).unwrap();
    let p = photo(&wide, false).unwrap();
    assert_eq!((p.width, p.height), (65_535, 1));
    assert_eq!(photo(&wide, true).unwrap().height, 65_535);
}

/// A progressive file, one pixel wide and 65535 high, of these scans: the first and the last
/// coefficient of each, and how many bits it leaves for later. All their codes are a single bit.
fn progressive(scans: &[[u8; 3]]) -> Vec<u8> {
    let mut f = vec![0xff, 0xd8, 0xff, 0xdb, 0, 67, 0];
    f.extend([1; 64]);
    f.extend(&start(0xc2, 8, 65_535, 1, &[GREY])[2..]);
    for class in [0, 0x10] {
        f.extend([0xff, 0xc4, 0, 20, class, 1, 0, 0, 0, 0, 0, 0, 0, 0, 0, 0, 0, 0, 0, 0, 0, 0]);
    }
    for [first, last, low] in scans {
        f.extend([0xff, 0xda, 0, 8, 1, 1, 0, *first, *last, *low]);
        f.extend([0; 1024]);
    }
    f.extend([0xff, 0xd9]);
    f
}

#[test]
fn tall_photographs_that_are_not_completed_are_decoded() {
    for scans in [&[[0, 0, 0]][..], &[[0, 0, 0], [1, 62, 0]], &[[0, 0, 0], [1, 63, 1]]] {
        let p = photo(&progressive(scans), false).unwrap();
        assert_eq!((p.width, p.height), (1, 65_535));
        assert!(p.bytes.chunks(4).all(|c| c == [128, 128, 128, 255]));
    }
    let complete = progressive(&[[0, 0, 0], [1, 63, 0]]);
    assert!(matches!(photo(&complete, false), Err(PhotoError::Frame)));
}

#[test]
fn what_is_no_photograph_is_refused() {
    assert!(matches!(photo(b"not a picture", false), Err(PhotoError::Decode(_))));
    assert!(matches!(photo(&start(0xc0, 8, 1, 1, &[GREY]), false), Err(PhotoError::Decode(_))));
}

#[test]
fn what_cannot_be_counted_is_refused() {
    let refused = |f: &[u8]| {
        assert_eq!(matches!(photo(f, false), Err(PhotoError::Frame)), is_undecodable(f));
        is_undecodable(f)
    };
    let colours = [[1, 0x11, 0], [2, 0x11, 0], [3, 0x11, 0]];
    // Lossless samples of another width than their pixels.
    assert!(refused(&lossless(7)) && !refused(&lossless(9)));
    assert!(refused(&start(0xc3, 12, 1, 1, &colours)) && !refused(&start(0xc3, 8, 1, 1, &colours)));
    // Scans: one of component 1 alone, one of components 1 and 2.
    let alone = [0xff, 0xda, 0, 8, 1, 1, 0, 0, 63, 0];
    let both = [0xff, 0xda, 0, 10, 2, 1, 0, 2, 0, 0, 63, 0];
    let tall = |h: u16, first: u8, scan: &[u8]| {
        [&start(0xc0, 8, h, 1, &[[1, first, 0], [2, 0x12, 0], [3, 0x11, 0]])[..], scan].concat()
    };
    assert!(refused(&tall(65_529, 0x12, &alone)) && !refused(&tall(65_528, 0x12, &alone)));
    assert!(!refused(&tall(65_535, 0x12, &both)) && !refused(&tall(65_535, 0x11, &alone)));
    // Behind another scan, its data and a restart.
    let data = [1, 2, 0xff, 0, 3, 0xff, 0xd0, 4];
    let others = [0xff, 0xda, 0, 10, 2, 2, 0, 3, 0, 0, 63, 0];
    assert!(refused(&tall(65_535, 0x12, &[&others[..], &data, &alone].concat())));
    // A scan that comes when its component is complete counts no further than the edge.
    assert!(!refused(&tall(65_535, 0x12, &[&both[..], &data, &alone].concat())));
    // Blocks in threes reach past it all the same.
    assert!(refused(&tall(65_535, 0x13, &[&both[..], &data, &alone].concat())));
    let wide = |first: u8| [&start(0xc0, 8, 1, 65_535, &[[1, first, 0]])[..], &alone].concat();
    assert!(refused(&wide(0x31)) && !refused(&wide(0x11)) && !refused(&wide(0x41)));
}

#[test]
fn turning() {
    let p = Picture { bytes: (0..24).collect(), width: 3, height: 2 };
    let q = transpose(&p);
    assert_eq!((q.width, q.height), (2, 3));
    assert_eq!(
        q.bytes,
        vec![0, 1, 2, 3, 12, 13, 14, 15, 4, 5, 6, 7, 16, 17, 18, 19, 8, 9, 10, 11, 20, 21, 22, 23]
    );
    assert_eq!(transpose(&q).bytes, p.bytes);
    assert_eq!(oriented(p, false).bytes, (0..24).collect::<Vec<u8>>());
    assert_eq!(oriented(q, true).width, 3);
}

#[test]
fn textures() {
    let p = gen_texture(3, 2, |x, y| (x as u8, y as u8, 7));
    assert_eq!((p.width, p.height), (3, 2));
    assert_eq!(
        p.bytes,
        vec![0, 0, 7, 255, 1, 0, 7, 255, 2, 0, 7, 255, 0, 1, 7, 255, 1, 1, 7, 255, 2, 1, 7, 255]
    );
}

#[test]
fn grid_points_are_scattered() {
    assert_eq!(hash2(0, 0), 0);
    for (x, y) in [(1, 0), (0, 1), (-1, 5), (i32::MIN, i32::MAX), (12_345, -678)] {
        let h = (x as u32).wrapping_mul(374_761_393) ^ (y as u32).wrapping_mul(668_265_263);
        let h = (h ^ (h >> 13)).wrapping_mul(1_274_126_177);
        assert_eq!(hash2(x, y) as u32, (h ^ (h >> 16)) & 0xffff);
    }
}
