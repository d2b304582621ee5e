//! The chunks that a MIDI file is made of, walked to find headers that no reader should be
//! handed: a division whose first byte is 0x80 stands for -128, which has no negation in 8 bits.
use vstd::prelude::*;

verus! {

/// Whether the four bytes at `at` are `a b c d`.
pub open spec fn tagged(s: Seq<u8>, at: int, a: u8, b: u8, c: u8, d: u8) -> bool {
    s[at] == a && s[at + 1] == b && s[at + 2] == c && s[at + 3] == d
}

/// The number that four bytes spell, the most significant first.
pub open spec fn big_endian(a: u8, b: u8, c: u8, d: u8) -> int {
    a * 0x100_0000 + b * 0x1_0000 + c * 0x100 + d
}

/// Where the chunk of `size` bytes that starts at `at` ends: at `to` at the latest.
pub open spec fn chunk_end(at: int, size: int, to: int) -> int {
    if at + size <= to {
        at + size
    } else {
        to
    }
}

/// Whether a readable division starts with this byte: ticks per beat, or minus the frames per
/// second of one of the four frame rates.
pub open spec fn division_readable(high: u8) -> bool {
    high < 0x80 || high == 256 - 24 || high == 256 - 25 || high == 256 - 29 || high == 256 - 30
}

/// Whether, walking the chunks from `at` to `to`, one comes to a header of a known format whose
/// division starts with 0x80. The walk ends at a header that cannot be read.
pub open spec fn unnegatable(s: Seq<u8>, at: int, to: int) -> bool
    decreases to - at,
{
    if at < 0 || to - at < 8 {
        false
    } else {
        let end = chunk_end(at + 8, big_endian(s[at + 4], s[at + 5], s[at + 6], s[at + 7]), to);
        if tagged(s, at, 0x4d, 0x54, 0x68, 0x64) {
            if end - at < 14 || s[at + 8] != 0 || s[at + 9] > 2 {
                false
            } else if s[at + 12] == 0x80 {
                true
            } else {
                division_readable(s[at + 12]) && unnegatable(s, end, to)
            }
        } else {
            unnegatable(s, end, to)
        }
    }
}

/// The first chunk named `data` among those from `at` to `to`, as the range of its contents.
pub open spec fn data_chunk(s: Seq<u8>, at: int, to: int) -> Option<(int, int)>
    decreases to - at,
{
    if at < 0 || to - at < 8 {
        None
    } else {
        let size = big_endian(s[at + 7], s[at + 6], s[at + 5], s[at + 4]);
        let end = chunk_end(at + 8, size, to);
        if tagged(s, at, 0x64, 0x61, 0x74, 0x61) {
            Some((at + 8, end))
        } else if size % 2 == 1 && end < to {
            data_chunk(s, end + 1, to)
        } else {
            data_chunk(s, end, to)
        }
    }
}

/// The range of the bytes that are the MIDI file itself: all of them, or the `data` chunk of a
/// RIFF file of form RMID.
pub open spec fn midi_range(s: Seq<u8>) -> Option<(int, int)> {
    if s.len() >= 4 && tagged(s, 0, 0x4d, 0x54, 0x68, 0x64) {
        Some((0, s.len() as int))
    } else if s.len() >= 8 && tagged(s, 0, 0x52, 0x49, 0x46, 0x46) {
        let end = chunk_end(8, big_endian(s[7], s[6], s[5], s[4]), s.len() as int);
        if end >= 12 && tagged(s, 8, 0x52, 0x4d, 0x49, 0x44) {
            data_chunk(s, 12, end)
        } else {
            None
        }
    } else {
        None
    }
}

/// Whether the bytes hold a header whose division starts with 0x80.
pub open spec fn holds_unnegatable_division(s: Seq<u8>) -> bool {
    match midi_range(s) {
        Some((from, to)) => unnegatable(s, from, to),
        None => false,
    }
}

fn has_tag(s: &[u8], at: usize, a: u8, b: u8, c: u8, d: u8) -> (r: bool)
    requires
        at + 4 <= s.len(),
    ensures
        r == tagged(s@, at as int, a, b, c, d),
{
    s[at] == a && s[at + 1] == b && s[at + 2] == c && s[at + 3] == d
}

/// Where the chunk whose contents start at `at` ends.
fn end_of_chunk(at: usize, a: u8, b: u8, c: u8, d: u8, to: usize) -> (end: usize)
    requires
        at <= to,
    ensures
        end == chunk_end(at as int, big_endian(a, b, c, d), to as int),
        at <= end <= to,
{
    let size: u64 = a as u64 * 0x100_0000 + b as u64 * 0x1_0000 + c as u64 * 0x100 + d as u64;
    if size <= (to - at) as u64 {
        at + size as usize
    } else {
        to
    }
}

fn find_unnegatable(s: &[u8], from: usize, to: usize) -> (r: bool)
    requires
        from <= to <= s.len(),
    ensures
        r == unnegatable(s@, from as int, to as int),
{
    let mut at: usize = from;
    while to - at >= 8
        invariant
            at <= to <= s.len(),
            unnegatable(s@, from as int, to as int) == unnegatable(s@, at as int, to as int),
        decreases to - at,
    {
        let end = end_of_chunk(at + 8, s[at + 4], s[at + 5], s[at + 6], s[at + 7], to);
        if has_tag(s, at, 0x4d, 0x54, 0x68, 0x64) {
            if end - at < 14 || s[at + 8] != 0 || s[at + 9] > 2 {
                return false;
            }
            let high = s[at + 12];
            if high == 0x80 {
                return true;
            }
            if !(high < 0x80 || high == 232 || high == 231 || high == 227 || high == 226) {
                return false;
            }
        }
        at = end;
    }
    false
}

fn find_data_chunk(s: &[u8], from: usize, to: usize) -> (r: Option<(usize, usize)>)
    requires
        from <= to <= s.len(),
    ensures
        match data_chunk(s@, from as int, to as int) {
            Some((a, b)) => r matches Some((x, y)) && x == a && y == b && x <= y <= to,
            None => r is None,
        },
{
    let mut at: usize = from;
    while to - at >= 8
        invariant
            at <= to <= s.len(),
            data_chunk(s@, from as int, to as int) == data_chunk(s@, at as int, to as int),
        decreases to - at,
    {
        let end = end_of_chunk(at + 8, s[at + 7], s[at + 6], s[at + 5], s[at + 4], to);
        if has_tag(s, at, 0x64, 0x61, 0x74, 0x61) {
            return Some((at + 8, end));
        }
        if s[at + 4] % 2 == 1 && end < to {
            at = end + 1;
        } else {
            at = end;
        }
    }
    None
}

/// Whether the bytes hold a header whose division cannot be negated.
pub fn has_unnegatable_division(s: &[u8]) -> (r: bool)
    ensures
        r == holds_unnegatable_division(s@),
{
    let n = s.len();
    if n >= 4 && has_tag(s, 0, 0x4d, 0x54, 0x68, 0x64) {
        return find_unnegatable(s, 0, n);
    }
    if n >= 8 && has_tag(s, 0, 0x52, 0x49, 0x46, 0x46) {
        let end = end_of_chunk(8, s[7], s[6], s[5], s[4], n);
        if end >= 12 && has_tag(s, 8, 0x52, 0x4d, 0x49, 0x44) {
            if let Some((from, to)) = find_data_chunk(s, 12, end) {
                return find_unnegatable(s, from, to);
            }
        }
    }
    false
}

/// Whether a header stands at `at`, of a known format, whose division starts with 0x80.
pub open spec fn header_with_0x80(s: Seq<u8>, at: int) -> bool {
    &&& 0 <= at && at + 14 <= s.len()
    &&& s[at] == 0x4d && s[at + 1] == 0x54 && s[at + 2] == 0x68 && s[at + 3] == 0x64
    &&& s[at + 8] == 0 && s[at + 9] <= 2
    &&& s[at + 12] == 0x80
}

proof fn unnegatable_is_there(s: Seq<u8>, at: int, to: int)
    requires
        0 <= at,
        to <= s.len(),
        unnegatable(s, at, to),
    ensures
        exists|k: int| #[trigger] header_with_0x80(s, k),
    decreases to - at,
{
    let end = chunk_end(at + 8, big_endian(s[at + 4], s[at + 5], s[at + 6], s[at + 7]), to);
    if tagged(s, at, 0x4d, 0x54, 0x68, 0x64) && s[at + 12] == 0x80 && end - at >= 14 && s[at + 8]
        == 0 && s[at + 9] <= 2 {
        assert(header_with_0x80(s, at));
    } else {
        unnegatable_is_there(s, end, to);
    }
}

proof fn data_is_inside(s: Seq<u8>, at: int, to: int)
    requires
        0 <= at,
        to <= s.len(),
    ensures
        data_chunk(s, at, to) matches Some((a, b)) ==> 0 <= a && b <= s.len(),
    decreases to - at,
{
    if to - at >= 8 {
        let size = big_endian(s[at + 7], s[at + 6], s[at + 5], s[at + 4]);
        let end = chunk_end(at + 8, size, to);
        if size % 2 == 1 && end < to {
            data_is_inside(s, end + 1, to);
        } else {
            data_is_inside(s, end, to);
        }
    }
}

/// Law: a file is refused for its division only where it holds a header of a known format whose
/// division starts with 0x80.
pub proof fn divisions_are_refused_for_0x80_alone(s: Seq<u8>)
    requires
        holds_unnegatable_division(s),
    ensures
        exists|at: int| #[trigger] header_with_0x80(s, at),
{
    if s.len() >= 8 {
        data_is_inside(s, 12, chunk_end(8, big_endian(s[7], s[6], s[5], s[4]), s.len() as int));
    }
    let (from, to) = midi_range(s)->0;
    unnegatable_is_there(s, from, to);
}

/// Law: a file that starts with such a header is refused.
pub proof fn first_headers_with_0x80_are_refused(s: Seq<u8>)
    requires
        header_with_0x80(s, 0),
        s[4] > 0 || s[5] > 0 || s[6] > 0 || s[7] >= 6,
    ensures
        holds_unnegatable_division(s),
{
}

/// Law: chunks are looked at one after the other. Behind eight bytes with its length, from the
/// highest byte down, each is stepped over, a header with a known format and division too.
pub proof fn chunks_are_stepped_over(s: Seq<u8>, at: int, to: int, size: int)
    requires
        0 <= at,
        at + 8 + size <= to <= s.len(),
        size == 16_777_216 * s[at + 4] + 65_536 * s[at + 5] + 256 * s[at + 6] + s[at + 7],
        s[at] == 0x4d && s[at + 1] == 0x54 && s[at + 2] == 0x68 && s[at + 3] == 0x64 ==> {
            &&& size >= 6
            &&& s[at + 8] == 0 && s[at + 9] <= 2
            &&& s[at + 12] < 0x80 || s[at + 12] == 0xe8 || s[at + 12] == 0xe7 || s[at + 12] == 0xe3
                || s[at + 12] == 0xe2
        },
    ensures
        unnegatable(s, at, to) <==> unnegatable(s, at + 8 + size, to),
{
}

/// Law: a header that is reached decides where it is too short, of an unknown format, or of an
/// unknown division: only a division that starts with 0x80 is refused.
pub proof fn headers_decide_by_their_division(s: Seq<u8>, at: int, to: int, size: int)
    requires
        0 <= at,
        at + 8 <= to <= s.len(),
        size == 16_777_216 * s[at + 4] + 65_536 * s[at + 5] + 256 * s[at + 6] + s[at + 7],
        s[at] == 0x4d && s[at + 1] == 0x54 && s[at + 2] == 0x68 && s[at + 3] == 0x64,
    ensures
        size < 6 || at + 14 > to ==> !unnegatable(s, at, to),
        size >= 6 && at + 14 <= to ==> {
            &&& s[at + 8] > 0 || s[at + 9] > 2 ==> !unnegatable(s, at, to)
            &&& s[at + 8] == 0 && s[at + 9] <= 2 && s[at + 12] == 0x80 ==> unnegatable(s, at, to)
            &&& s[at + 12] > 0x80 && s[at + 12] != 0xe8 && s[at + 12] != 0xe7 && s[at + 12] != 0xe3
                && s[at + 12] != 0xe2 ==> !unnegatable(s, at, to)
        },
{
}

/// Law: in a wrapped file the chunks of the wrapping have their lengths from the lowest byte up and
/// start at even places: one that is not the data is stepped over, with a byte more behind an odd
/// length. The data are what stands in the first chunk of that name.
pub proof fn wrappings_are_stepped_over(s: Seq<u8>, at: int, to: int, size: int)
    requires
        0 <= at,
        at + 8 + size <= to <= s.len(),
        size == s[at + 4] + 256 * s[at + 5] + 65_536 * s[at + 6] + 16_777_216 * s[at + 7],
    ensures
        ({
            let named_data = s[at] == 0x64 && s[at + 1] == 0x61 && s[at + 2] == 0x74 && s[at + 3]
                == 0x61;
            &&& named_data ==> data_chunk(s, at, to) == Some((at + 8, at + 8 + size))
            &&& !named_data && size % 2 == 0 ==> data_chunk(s, at, to) == data_chunk(
                s,
                at + 8 + size,
                to,
            )
            &&& !named_data && size % 2 == 1 && at + 8 + size < to ==> data_chunk(s, at, to)
                == data_chunk(s, at + 8 + size + 1, to)
            &&& !named_data && at + 8 + size == to ==> data_chunk(s, at, to) is None
        }),
{
    reveal_with_fuel(data_chunk, 2);
}

/// Law: where fewer than eight bytes are left there is no chunk, and one that is cut short lasts to
/// the end.
pub proof fn chunks_end_with_what_holds_them(s: Seq<u8>, at: int, to: int, size: int)
    requires
        0 <= at <= to <= s.len(),
    ensures
        to - at < 8 ==> !unnegatable(s, at, to) && data_chunk(s, at, to) is None,
        at + 8 <= to && size == s[at + 4] + 256 * s[at + 5] + 65_536 * s[at + 6] + 16_777_216 * s[at
            + 7] && at + 8 + size > to ==> data_chunk(s, at, to) == if s[at] == 0x64 && s[at + 1]
            == 0x61 && s[at + 2] == 0x74 && s[at + 3] == 0x61 {
            Some((at + 8, to))
        } else {
            None
        },
        at + 8 <= to && at + 8 + 16_777_216 * s[at + 4] + 65_536 * s[at + 5] + 256 * s[at + 6]
            + s[at + 7] > to && !(s[at] == 0x4d && s[at + 1] == 0x54 && s[at + 2] == 0x68 && s[at + 3]
            == 0x64) ==> !unnegatable(s, at, to),
{
    reveal_with_fuel(data_chunk, 2);
    reveal_with_fuel(unnegatable, 2);
}

/// Law: a file that starts with a header is looked at from its start to its end; one that is
/// wrapped, in the data that stand behind its first twelve bytes; no other is refused.
pub proof fn headers_are_looked_for_where_they_are(s: Seq<u8>)
    ensures
        ({
            let bare = s.len() >= 4 && s[0] == 0x4d && s[1] == 0x54 && s[2] == 0x68 && s[3] == 0x64;
            let wrapped = s.len() >= 12 && s[0] == 0x52 && s[1] == 0x49 && s[2] == 0x46 && s[3]
                == 0x46 && s[8] == 0x52 && s[9] == 0x4d && s[10] == 0x49 && s[11] == 0x44;
            let told = 8 + s[4] + 256 * s[5] + 65_536 * s[6] + 16_777_216 * s[7];
            let to = if told < s.len() {
                told
            } else {
                s.len() as int
            };
            &&& bare ==> (holds_unnegatable_division(s) <==> unnegatable(s, 0, s.len() as int))
            &&& wrapped && told >= 12 ==> (holds_unnegatable_division(s) <==> (data_chunk(s, 12, to)
                matches Some((a, b)) && unnegatable(s, a, b)))
            &&& wrapped && told < 12 ==> !holds_unnegatable_division(s)
            &&& !bare && !wrapped ==> !holds_unnegatable_division(s)
        }),
{
}

} // verus!
