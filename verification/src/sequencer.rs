//! The sequencer that plays the roll: the MIDI file read for it, and the walk that keeps away the
//! files whose numbers overflow on the way.
use crate::chunks::{big_endian, tagged};
use crate::piano::{
    font_of, playable, rate_reported, roll_synthesizer, settings_of, signed, SynthError,
};
use crate::player::POLYPHONY;
use std::sync::Arc;
use vstd::prelude::*;

verus! {

/// What comes of reading a track.
pub enum Reading {
    /// It cannot be read.
    Broken,
    /// A number in it goes past 31 bits.
    Overflows,
    /// It ends here.
    Ends(int),
}

/// A number of at most `n` bytes from `at` on, seven bits in each, behind those `so_far`; and
/// where it ends.
pub open spec fn quantity(s: Seq<u8>, at: int, n: nat, so_far: int) -> Option<(int, int)>
    decreases n,
{
    if n == 0 || at < 0 || at >= s.len() {
        None
    } else if s[at] < 128 {
        Some((so_far * 128 + s[at], at + 1))
    } else {
        quantity(s, at + 1, (n - 1) as nat, so_far * 128 + s[at] - 128)
    }
}

/// Where the data end whose length stands at `at`.
pub open spec fn data_end(s: Seq<u8>, at: int) -> Option<int> {
    match quantity(s, at, 4, 0) {
        Some((n, q)) => if q + n <= s.len() {
            Some(q + n)
        } else {
            None
        },
        None => None,
    }
}

/// Whether messages of this status hold a single byte: a change of programme or of pressure.
pub open spec fn holds_one_byte(status: u8) -> bool {
    0xc0 <= status <= 0xdf
}

/// Where the event ends that starts with the byte at `p`, other than the end of a track. A byte
/// below 128 is the first of a message of the status before.
pub open spec fn event_end(s: Seq<u8>, p: int, status: u8) -> Option<int> {
    let first = s[p];
    if first == 0xf0 || first == 0xf7 {
        data_end(s, p + 1)
    } else if first == 0xff {
        if p + 1 >= s.len() {
            None
        } else if s[p + 1] == 0x51 && !(quantity(s, p + 2, 4, 0) matches Some((n, _)) && n == 3) {
            None
        } else {
            data_end(s, p + 2)
        }
    } else {
        let end = p + (if first < 128 {
            0int
        } else {
            1
        }) + (if holds_one_byte(
            if first < 128 {
                status
            } else {
                first
            },
        ) {
            1int
        } else {
            2
        });
        if end <= s.len() {
            Some(end)
        } else {
            None
        }
    }
}

/// What comes of a track of `size` bytes from `start` on, once its end is marked and `at` comes
/// next: one more byte, and whatever is left of its size.
pub open spec fn closing(s: Seq<u8>, start: int, size: int, at: int) -> Reading {
    if at >= s.len() {
        Reading::Broken
    } else if size > i32::MAX {
        Reading::Overflows
    } else if at + 1 - start >= size {
        Reading::Ends(at + 1)
    } else if start + size <= s.len() {
        Reading::Ends(start + size)
    } else {
        Reading::Broken
    }
}

/// What comes of reading a track of `size` bytes from `start` on, once `at` is reached at `tick`
/// with the last status `status`.
pub open spec fn track_from(
    s: Seq<u8>,
    start: int,
    size: int,
    at: int,
    tick: int,
    status: u8,
) -> Reading
    decreases s.len() - at,
    via track_goes_on
{
    match quantity(s, at, 4, 0) {
        None => Reading::Broken,
        Some((delta, p)) => if p >= s.len() {
            Reading::Broken
        } else if tick + delta > i32::MAX {
            Reading::Overflows
        } else if s[p] == 0xff && p + 1 < s.len() && s[p + 1] == 0x2f {
            closing(s, start, size, p + 2)
        } else {
            match event_end(s, p, status) {
                None => Reading::Broken,
                Some(next) => track_from(
                    s,
                    start,
                    size,
                    next,
                    tick + delta,
                    if s[p] < 128 {
                        status
                    } else {
                        s[p]
                    },
                ),
            }
        },
    }
}

#[via_fn]
proof fn track_goes_on(s: Seq<u8>, start: int, size: int, at: int, tick: int, status: u8) {
    quantity_is_ahead(s, at, 4, 0);
    if let Some((_, p)) = quantity(s, at, 4, 0) {
        event_is_ahead(s, p, status);
    }
}

proof fn quantity_is_ahead(s: Seq<u8>, at: int, n: nat, so_far: int)
    requires
        so_far >= 0,
    ensures
        quantity(s, at, n, so_far) matches Some((v, q)) ==> 0 <= at < q <= s.len() && v >= 0,
    decreases n,
{
    if n > 0 && 0 <= at < s.len() && s[at] >= 128 {
        quantity_is_ahead(s, at + 1, (n - 1) as nat, so_far * 128 + s[at] - 128);
    }
}

proof fn event_is_ahead(s: Seq<u8>, p: int, status: u8)
    ensures
        p < s.len() ==> (event_end(s, p, status) matches Some(next) ==> p < next <= s.len()),
{
    quantity_is_ahead(s, p + 1, 4, 0);
    quantity_is_ahead(s, p + 2, 4, 0);
}

/// Whether, reading `n` tracks from `at` on, a number overflows.
pub open spec fn overflows_from(s: Seq<u8>, at: int, n: nat) -> bool
    decreases n,
{
    if n == 0 || at < 0 || at + 8 > s.len() || !tagged(s, at, 0x4d, 0x54, 0x72, 0x6b) {
        false
    } else {
        match track_from(
            s,
            at + 8,
            big_endian(s[at + 4], s[at + 5], s[at + 6], s[at + 7]),
            at + 8,
            0,
            0,
        ) {
            Reading::Broken => false,
            Reading::Overflows => true,
            Reading::Ends(end) => overflows_from(s, end, (n - 1) as nat),
        }
    }
}

/// How many tracks a header tells of; counts that read as negative stand for none.
pub open spec fn tracks_told(high: u8, low: u8) -> nat {
    if high < 128 {
        (high * 256 + low) as nat
    } else {
        0
    }
}

/// Whether a file is not to be read for the sequencer: its header is in order, and on the way
/// through its tracks one comes to ticks past 31 bits, or to the end of a track whose size is.
pub open spec fn unsequenceable(s: Seq<u8>) -> bool {
    &&& s.len() >= 14
    &&& tagged(s, 0, 0x4d, 0x54, 0x68, 0x64)
    &&& big_endian(s[4], s[5], s[6], s[7]) == 6
    &&& s[8] == 0
    &&& s[9] <= 1
    &&& overflows_from(s, 14, tracks_told(s[10], s[11]))
}

fn read_quantity(s: &[u8], from: usize) -> (r: Option<(u32, usize)>)
    ensures
        match r {
            Some((v, q)) => {
                &&& quantity(s@, from as int, 4, 0) == Some((v as int, q as int))
                &&& from < q <= s.len()
                &&& v < 0x1000_0000
            },
            None => quantity(s@, from as int, 4, 0) is None,
        },
{
    let total = s.len();
    let mut at: usize = from;
    let mut v: u32 = 0;
    let mut left: u32 = 4;
    while left > 0 && at < total
        invariant
            total == s.len(),
            left <= 4,
            from <= at,
            left < 4 ==> at <= total,
            left == 4 ==> v == 0,
            left == 3 ==> v < 0x80,
            left == 2 ==> v < 0x4000,
            left == 1 ==> v < 0x20_0000,
            quantity(s@, from as int, 4, 0) == quantity(s@, at as int, left as nat, v as int),
        decreases left,
    {
        let b = s[at];
        if b < 128 {
            return Some((v * 128 + b as u32, at + 1));
        }
        if left == 1 {
            assert(quantity(s@, at + 1, 0, v * 128 + b - 128) is None);
            return None;
        }
        v = v * 128 + (b - 128) as u32;
        at += 1;
        left -= 1;
    }
    None
}

fn find_data_end(s: &[u8], at: usize) -> (r: Option<usize>)
    ensures
        match r {
            Some(end) => data_end(s@, at as int) == Some(end as int) && at < end <= s.len(),
            None => data_end(s@, at as int) is None,
        },
{
    let total = s.len();
    match read_quantity(s, at) {
        Some((n, q)) => if n as usize <= total - q {
            Some(q + n as usize)
        } else {
            None
        },
        None => None,
    }
}

fn find_event_end(s: &[u8], p: usize, status: u8) -> (r: Option<usize>)
    requires
        p < s.len(),
    ensures
        match r {
            Some(end) => event_end(s@, p as int, status) == Some(end as int) && p < end <= s.len(),
            None => event_end(s@, p as int, status) is None,
        },
{
    let total = s.len();
    let first = s[p];
    if first == 0xf0 || first == 0xf7 {
        if p + 1 >= total {
            assert(quantity(s@, p + 1, 4, 0) is None);
            return None;
        }
        return find_data_end(s, p + 1);
    }
    if first == 0xff {
        if total - p <= 1 {
            return None;
        }
        if total - p <= 2 {
            assert(quantity(s@, p + 2, 4, 0) is None);
            return None;
        }
        if s[p + 1] == 0x51 {
            match read_quantity(s, p + 2) {
                Some((n, _)) => if n != 3 {
                    return None;
                },
                None => {
                    return None;
                },
            }
        }
        return find_data_end(s, p + 2);
    }
    let kept = if first < 128 {
        status
    } else {
        first
    };
    let size: usize = (if first < 128 {
        0usize
    } else {
        1
    }) + (if 0xc0 <= kept && kept <= 0xdf {
        1usize
    } else {
        2
    });
    if size <= total - p {
        Some(p + size)
    } else {
        None
    }
}

/// A track as it was read: `None` where it overflows, and otherwise where it ends, if it does.
fn read_track(s: &[u8], start: usize, size: u32) -> (r: Option<Option<usize>>)
    requires
        start <= s.len(),
    ensures
        match track_from(s@, start as int, size as int, start as int, 0, 0) {
            Reading::Broken => r == Some(None::<usize>),
            Reading::Overflows => r is None,
            Reading::Ends(end) => r matches Some(Some(e)) && e == end && start <= e <= s.len(),
        },
{
    let total = s.len();
    let mut at: usize = start;
    let mut tick: u32 = 0;
    let mut status: u8 = 0;
    loop
        invariant
            total == s.len(),
            start <= at <= total,
            tick <= i32::MAX,
            track_from(s@, start as int, size as int, start as int, 0, 0) == track_from(
                s@,
                start as int,
                size as int,
                at as int,
                tick as int,
                status,
            ),
        decreases total - at,
    {
        let (delta, p) = match read_quantity(s, at) {
            None => {
                return Some(None);
            },
            Some(x) => x,
        };
        if p >= total {
            return Some(None);
        }
        if tick + delta > i32::MAX as u32 {
            return None;
        }
        let first = s[p];
        if first == 0xff && total - p > 1 && s[p + 1] == 0x2f {
            if total - p <= 2 {
                return Some(None);
            }
            if size > i32::MAX as u32 {
                return None;
            }
            if p + 3 - start >= size as usize {
                return Some(Some(p + 3));
            }
            if size as usize <= total - start {
                return Some(Some(start + size as usize));
            }
            return Some(None);
        }
        match find_event_end(s, p, status) {
            None => {
                return Some(None);
            },
            Some(next) => {
                at = next;
            },
        }
        tick = tick + delta;
        if first >= 128 {
            status = first;
        }
    }
}

/// Whether a file is not to be read for the sequencer.
pub fn is_unsequenceable(s: &[u8]) -> (r: bool)
    ensures
        r == unsequenceable(s@),
{
    let total = s.len();
    if total < 14 || s[0] != 0x4d || s[1] != 0x54 || s[2] != 0x68 || s[3] != 0x64 || s[4] != 0
        || s[5] != 0 || s[6] != 0 || s[7] != 6 || s[8] != 0 || s[9] > 1 {
        return false;
    }
    let mut left: usize = if s[10] < 128 {
        s[10] as usize * 256 + s[11] as usize
    } else {
        0
    };
    let mut at: usize = 14;
    while left > 0
        invariant
            total == s.len(),
            at <= total,
            unsequenceable(s@) == overflows_from(s@, at as int, left as nat),
        decreases left,
    {
        if total - at < 8 || s[at] != 0x4d || s[at + 1] != 0x54 || s[at + 2] != 0x72 || s[at + 3]
            != 0x6b {
            return false;
        }
        let size = s[at + 4] as u32 * 0x100_0000 + s[at + 5] as u32 * 0x1_0000 + s[at + 6] as u32
            * 0x100 + s[at + 7] as u32;
        match read_track(s, at + 8, size) {
            None => {
                return true;
            },
            Some(None) => {
                return false;
            },
            Some(Some(end)) => {
                at = end;
            },
        }
        left -= 1;
    }
    false
}

/// A MIDI file as the sequencer keeps it.
#[verifier::external_type_specification]
#[verifier::external_body]
pub struct ExMidiFile(rustysynth::MidiFile);

/// Why a file could not be read.
#[verifier::external_type_specification]
#[verifier::external_body]
pub struct ExMidiFileError(rustysynth::MidiFileError);

/// A sequencer.
#[verifier::external_type_specification]
#[verifier::external_body]
pub struct ExMidiFileSequencer(rustysynth::MidiFileSequencer);

/// What `rustysynth::MidiFile::new` reads out of the bytes of a file; `None` where it reports an
/// error.
pub uninterp spec fn file_read(bytes: Seq<u8>) -> Option<rustysynth::MidiFile>;

/// Whether `e` can be the error that `rustysynth::MidiFile::new` reports of the bytes of a file.
pub uninterp spec fn file_fails_with(bytes: Seq<u8>, e: rustysynth::MidiFileError) -> bool;

/// The file that a sequencer plays.
pub uninterp spec fn file_of(seq: rustysynth::MidiFileSequencer) -> Option<rustysynth::MidiFile>;

/// Whether a sequencer starts over at the end of its file.
pub uninterp spec fn loops(seq: rustysynth::MidiFileSequencer) -> bool;

/// Whether a sequencer stands at the start of its file: no time has passed, and no message has
/// been sent.
pub uninterp spec fn at_start(seq: rustysynth::MidiFileSequencer) -> bool;

/// The rate and the number of voices of the synthesizer that a sequencer drives.
pub uninterp spec fn sequenced_at(seq: rustysynth::MidiFileSequencer) -> (int, int);

/// The sound font of the synthesizer that a sequencer drives.
pub uninterp spec fn sequenced_font(seq: rustysynth::MidiFileSequencer) -> rustysynth::SoundFont;

/// `rustysynth::MidiFile::new`, reading from a slice. Claimed: what comes of it depends on the
/// bytes alone: whether it succeeds, and the file; and an error that it reports is one of these
/// bytes. Files whose ticks or track sizes go past 31 bits are kept away: on these its arithmetic
/// overflows, or it asks for more memory than there can be.
#[verifier::external_body]
fn read_file(bytes: &[u8]) -> (r: Result<rustysynth::MidiFile, rustysynth::MidiFileError>)
    requires
        !unsequenceable(bytes@),
    ensures
        match file_read(bytes@) {
            Some(file) => r matches Ok(f) && f == file,
            None => r matches Err(e) && file_fails_with(bytes@, e),
        },
{
    let mut reader = bytes;
    rustysynth::MidiFile::new(&mut reader)
}

/// `rustysynth::MidiFileSequencer::new`. Claimed: the sequencer drives the given synthesizer, has
/// no file yet, and does not start over.
#[verifier::external_body]
fn new_sequencer(synth: rustysynth::Synthesizer) -> (seq: rustysynth::MidiFileSequencer)
    ensures
        sequenced_at(seq) == settings_of(synth),
        sequenced_font(seq) == font_of(synth),
        file_of(seq) is None,
        !loops(seq),
{
    rustysynth::MidiFileSequencer::new(synth)
}

/// `rustysynth::MidiFileSequencer::play`. Claimed: the sequencer stands at the start of the given
/// file, and starts over at its end or not, as asked; its synthesizer keeps rate, number of voices
/// and font.
#[verifier::external_body]
fn cue(seq: &mut rustysynth::MidiFileSequencer, file: &Arc<rustysynth::MidiFile>, looped: bool)
    ensures
        file_of(*final(seq)) == Some(**file),
        loops(*final(seq)) == looped,
        at_start(*final(seq)),
        sequenced_at(*final(seq)) == sequenced_at(*old(seq)),
        sequenced_font(*final(seq)) == sequenced_font(*old(seq)),
{
    seq.play(file, looped)
}

/// Why a roll cannot be played.
#[derive(Debug)]
pub enum RollError {
    /// The device's rate is out of range.
    Synth(rustysynth::SynthesizerError),
    /// A number in the file goes past 31 bits.
    Refused,
    /// Not a MIDI file that the sequencer plays, or a broken one.
    File(rustysynth::MidiFileError),
}

/// Whether a sequencer is ready to play `file` from its start, once, with a synthesizer of this
/// rate and font and as many voices as there can be.
pub open spec fn cued(
    seq: rustysynth::MidiFileSequencer,
    file: rustysynth::MidiFile,
    rate: u32,
    font: rustysynth::SoundFont,
) -> bool {
    &&& file_of(seq) == Some(file)
    &&& at_start(seq)
    &&& !loops(seq)
    &&& sequenced_at(seq) == (rate as int, POLYPHONY as int)
    &&& sequenced_font(seq) == font
}

/// The sequencer that plays the roll: the piece from its start, once.
pub fn roll_sequencer(font: &Arc<rustysynth::SoundFont>, rate: u32, bytes: &[u8]) -> (r: Result<
    rustysynth::MidiFileSequencer,
    RollError,
>)
    ensures
        !playable(rate) ==> (r matches Err(RollError::Synth(e)) && rate_reported(e) == Some(
            signed(rate),
        )),
        playable(rate) && unsequenceable(bytes@) ==> r matches Err(RollError::Refused),
        playable(rate) && !unsequenceable(bytes@) ==> match file_read(bytes@) {
            None => r matches Err(RollError::File(e)) && file_fails_with(bytes@, e),
            Some(file) => r matches Ok(seq) && cued(seq, file, rate, **font),
        },
{
    let synth = match roll_synthesizer(font, rate) {
        Ok(synth) => synth,
        Err(SynthError(e)) => {
            return Err(RollError::Synth(e));
        },
    };
    if is_unsequenceable(bytes) {
        return Err(RollError::Refused);
    }
    match read_file(bytes) {
        Err(e) => Err(RollError::File(e)),
        Ok(file) => {
            let mut seq = new_sequencer(synth);
            cue(&mut seq, &Arc::new(file), false);
            Ok(seq)
        },
    }
}

/// The number that the bytes at `p` spell, seven bits in each, the last below 128, of which there
/// are four at most; and where it ends.
pub open spec fn spelled(s: Seq<u8>, p: int) -> Option<(int, int)> {
    if p < 0 || p >= s.len() {
        None
    } else if s[p] < 128 {
        Some((s[p] as int, p + 1))
    } else if p + 1 >= s.len() {
        None
    } else if s[p + 1] < 128 {
        Some((128 * (s[p] - 128) + s[p + 1], p + 2))
    } else if p + 2 >= s.len() {
        None
    } else if s[p + 2] < 128 {
        Some((16_384 * (s[p] - 128) + 128 * (s[p + 1] - 128) + s[p + 2], p + 3))
    } else if p + 3 >= s.len() || s[p + 3] >= 128 {
        None
    } else {
        Some(
            (
                2_097_152 * (s[p] - 128) + 16_384 * (s[p + 1] - 128) + 128 * (s[p + 2] - 128) + s[p
                    + 3],
                p + 4,
            ),
        )
    }
}

/// Law: numbers are spelled in sevens of bits, the first of them first.
pub proof fn numbers_are_spelled_in_sevens(s: Seq<u8>, p: int)
    ensures
        quantity(s, p, 4, 0) == spelled(s, p),
{
    reveal_with_fuel(quantity, 5);
}

/// Law: an event is as long as its kind is. A message of a channel has two bytes behind its
/// status, or one where it changes the programme or the pressure; without a status of its own it
/// goes by the one before. Data of the system and of the file go by their own length, and a tempo
/// has three bytes.
pub proof fn events_are_as_long_as_their_kind(s: Seq<u8>, p: int, status: u8)
    requires
        0 <= p < s.len(),
    ensures
        ({
            let first = s[p] as int;
            let kind = if first < 128 {
                status as int / 16
            } else {
                first / 16
            };
            let size = (if first < 128 {
                0int
            } else {
                1
            }) + (if kind == 12 || kind == 13 {
                1int
            } else {
                2
            });
            let own = first == 0xf0 || first == 0xf7 || first == 0xff;
            &&& !own ==> event_end(s, p, status) == if p + size <= s.len() {
                Some(p + size)
            } else {
                None
            }
            &&& first == 0xf0 || first == 0xf7 ==> (event_end(s, p, status) matches Some(q) <==> (
            spelled(s, p + 1) matches Some((n, r)) && r + n <= s.len()))
            &&& first == 0xf0 || first == 0xf7 ==> (event_end(s, p, status) matches Some(q) ==> (
            spelled(s, p + 1) matches Some((n, r)) && q == r + n))
            &&& first == 0xff && p + 1 < s.len() ==> (event_end(s, p, status) matches Some(q) <==> (
            spelled(s, p + 2) matches Some((n, r)) && r + n <= s.len() && (s[p + 1] == 0x51 ==> n
                == 3)))
            &&& first == 0xff ==> (event_end(s, p, status) matches Some(q) ==> (spelled(
                s,
                p + 2,
            ) matches Some((n, r)) && q == r + n))
        }),
{
    numbers_are_spelled_in_sevens(s, p + 1);
    numbers_are_spelled_in_sevens(s, p + 2);
}

/// Law: a track is read event by event. A pause is added to the ticks, which overflow past
/// 2^31 - 1; then comes an event, whose status is kept, and reading goes on behind it, until the end
/// of the track is marked.
pub proof fn tracks_are_read_event_by_event(
    s: Seq<u8>,
    start: int,
    size: int,
    at: int,
    tick: int,
    status: u8,
)
    ensures
        ({
            let reading = track_from(s, start, size, at, tick, status);
            match spelled(s, at) {
                None => reading == Reading::Broken,
                Some((pause, p)) => {
                    let ends = p + 1 < s.len() && s[p] == 0xff && s[p + 1] == 0x2f;
                    &&& p >= s.len() ==> reading == Reading::Broken
                    &&& p < s.len() && tick + pause > 2_147_483_647 ==> reading
                        == Reading::Overflows
                    &&& p < s.len() && tick + pause <= 2_147_483_647 && !ends ==> match event_end(
                        s,
                        p,
                        status,
                    ) {
                        None => reading == Reading::Broken,
                        Some(q) => reading == track_from(
                            s,
                            start,
                            size,
                            q,
                            tick + pause,
                            if s[p] >= 128 {
                                s[p]
                            } else {
                                status
                            },
                        ),
                    }
                    &&& p < s.len() && tick + pause <= 2_147_483_647 && ends ==> {
                        &&& p + 2 >= s.len() ==> reading == Reading::Broken
                        &&& p + 2 < s.len() && size > 2_147_483_647 ==> reading
                            == Reading::Overflows
                        &&& p + 2 < s.len() && size <= 2_147_483_647 && start + size <= p + 3
                            ==> reading == Reading::Ends(p + 3)
                        &&& p + 2 < s.len() && p + 3 < start + size <= s.len() && size
                            <= 2_147_483_647 ==> reading == Reading::Ends(start + size)
                        &&& start + size > s.len() && p + 2 < s.len() && size <= 2_147_483_647
                            ==> reading == Reading::Broken
                    }
                },
            }
        }),
{
    numbers_are_spelled_in_sevens(s, at);
    quantity_is_ahead(s, at, 4, 0);
}

/// All the pauses that start at these places together.
pub open spec fn pauses_at(s: Seq<u8>, places: Seq<int>) -> int
    decreases places.len(),
{
    if places.len() == 0 {
        0
    } else {
        let (pause, _) = spelled(s, places[0])->0;
        pause + pauses_at(s, places.subrange(1, places.len() as int))
    }
}

/// Whether pauses are spelled at these places, one behind the other, from `from` on.
pub open spec fn pauses_stand_at(s: Seq<u8>, places: Seq<int>, from: int) -> bool {
    &&& forall|i: int|
        0 <= i < places.len() ==> from <= #[trigger] places[i] < s.len() && spelled(s, places[i])
            is Some
    &&& forall|i: int, j: int| 0 <= i < j < places.len() ==> places[i] < places[j]
}

proof fn overflow_is_there(
    s: Seq<u8>,
    start: int,
    size: int,
    at: int,
    tick: int,
    status: u8,
) -> (places: Seq<int>)
    requires
        track_from(s, start, size, at, tick, status) == Reading::Overflows,
        size <= i32::MAX,
    ensures
        pauses_stand_at(s, places, at),
        tick + pauses_at(s, places) > i32::MAX,
    decreases s.len() - at,
{
    numbers_are_spelled_in_sevens(s, at);
    quantity_is_ahead(s, at, 4, 0);
    let (delta, p) = quantity(s, at, 4, 0)->0;
    if tick + delta > i32::MAX {
        let places = seq![at];
        assert(places.subrange(1, 1) =~= Seq::empty());
        reveal_with_fuel(pauses_at, 2);
        places
    } else {
        event_is_ahead(s, p, status);
        let next = event_end(s, p, status)->0;
        let rest = overflow_is_there(
            s,
            start,
            size,
            next,
            tick + delta,
            if s[p] < 128 {
                status
            } else {
                s[p]
            },
        );
        let places = seq![at] + rest;
        assert(places.subrange(1, places.len() as int) =~= rest);
        assert forall|i: int| 0 <= i < places.len() implies at <= #[trigger] places[i] < s.len()
            && spelled(s, places[i]) is Some by {
            if i > 0 {
                assert(places[i] == rest[i - 1]);
            }
        }
        assert forall|i: int, j: int| 0 <= i < j < places.len() implies places[i] < places[j] by {
            assert(places[j] == rest[j - 1]);
            if i > 0 {
                assert(places[i] == rest[i - 1]);
            }
        }
        places
    }
}

proof fn end_is_ahead(s: Seq<u8>, start: int, size: int, at: int, tick: int, status: u8)
    requires
        0 <= start <= at,
    ensures
        track_from(s, start, size, at, tick, status) matches Reading::Ends(e) ==> at < e <= s.len(),
    decreases s.len() - at,
{
    quantity_is_ahead(s, at, 4, 0);
    if let Some((delta, p)) = quantity(s, at, 4, 0) {
        event_is_ahead(s, p, status);
        if p < s.len() && tick + delta <= i32::MAX && !(s[p] == 0xff && p + 1 < s.len() && s[p + 1]
            == 0x2f) {
            if let Some(next) = event_end(s, p, status) {
                end_is_ahead(
                    s,
                    start,
                    size,
                    next,
                    tick + delta,
                    if s[p] < 128 {
                        status
                    } else {
                        s[p]
                    },
                );
            }
        }
    }
}

proof fn overflow_is_in_a_track(s: Seq<u8>, at: int, n: nat) -> (found: (int, Seq<int>))
    requires
        overflows_from(s, at, n),
        at >= 0,
    ensures
        at <= found.0 <= s.len() - 8,
        tagged(s, found.0, 0x4d, 0x54, 0x72, 0x6b),
        s[found.0 + 4] >= 128 || (pauses_stand_at(s, found.1, found.0 + 8) && pauses_at(s, found.1)
            > i32::MAX),
    decreases n,
{
    let size = big_endian(s[at + 4], s[at + 5], s[at + 6], s[at + 7]);
    match track_from(s, at + 8, size, at + 8, 0, 0) {
        Reading::Overflows => {
            if size > i32::MAX {
                (at, Seq::empty())
            } else {
                (at, overflow_is_there(s, at + 8, size, at + 8, 0, 0))
            }
        },
        Reading::Ends(end) => {
            end_is_ahead(s, at + 8, size, at + 8, 0, 0);
            overflow_is_in_a_track(s, end, (n - 1) as nat)
        },
        Reading::Broken => (at, Seq::empty()),
    }
}

proof fn pauses_are_short(s: Seq<u8>, places: Seq<int>)
    requires
        forall|i: int| 0 <= i < places.len() ==> spelled(s, #[trigger] places[i]) is Some,
    ensures
        0 <= pauses_at(s, places) <= 268_435_455 * places.len(),
    decreases places.len(),
{
    if places.len() > 0 {
        let rest = places.subrange(1, places.len() as int);
        assert forall|i: int| 0 <= i < rest.len() implies spelled(s, #[trigger] rest[i]) is Some by {
            assert(places[i + 1] == rest[i]);
        }
        pauses_are_short(s, rest);
        assert(spelled(s, places[0]) is Some);
    }
}

/// Law: a file is refused only for numbers that go past 31 bits. Some track of it tells of a size
/// with its top bit set, or holds pauses that add up to 2^31 and more; since a pause has 28 bits,
/// there are nine of them or more.
pub proof fn files_are_refused_for_large_numbers_alone(s: Seq<u8>) -> (found: (int, Seq<int>))
    requires
        unsequenceable(s),
    ensures
        14 <= found.0 <= s.len() - 8,
        s[found.0] == 0x4d && s[found.0 + 1] == 0x54 && s[found.0 + 2] == 0x72 && s[found.0 + 3]
            == 0x6b,
        s[found.0 + 4] >= 128 || (pauses_stand_at(s, found.1, found.0 + 8) && pauses_at(s, found.1)
            >= 2_147_483_648 && found.1.len() >= 9),
{
    let found = overflow_is_in_a_track(s, 14, tracks_told(s[10], s[11]));
    if s[found.0 + 4] < 128 {
        pauses_are_short(s, found.1);
    }
    found
}

/// Law: a file of one track is refused exactly where reading that track overflows, and one of more
/// where reading the first does, or reading on from its end.
pub proof fn tracks_are_read_in_turn(s: Seq<u8>, at: int, n: nat)
    requires
        0 <= at <= s.len() - 8,
        s[at] == 0x4d && s[at + 1] == 0x54 && s[at + 2] == 0x72 && s[at + 3] == 0x6b,
        n > 0,
    ensures
        ({
            let size = ((s[at + 4] * 256 + s[at + 5]) * 256 + s[at + 6]) * 256 + s[at + 7];
            match track_from(s, at + 8, size, at + 8, 0, 0) {
                Reading::Overflows => overflows_from(s, at, n),
                Reading::Broken => !overflows_from(s, at, n),
                Reading::Ends(end) => overflows_from(s, at, n) == overflows_from(
                    s,
                    end,
                    (n - 1) as nat,
                ),
            }
        }),
        !overflows_from(s, at, 0),
{
}

/// Law: a file whose header is that of format 0 or 1 is refused exactly where reading its tracks,
/// as many as the header tells, overflows.
pub proof fn headers_do_not_decide(s: Seq<u8>)
    requires
        s.len() >= 14,
        s[0] == 0x4d && s[1] == 0x54 && s[2] == 0x68 && s[3] == 0x64,
        s[4] == 0 && s[5] == 0 && s[6] == 0 && s[7] == 6,
        s[8] == 0 && s[9] <= 1,
    ensures
        s[10] < 128 ==> (unsequenceable(s) <==> overflows_from(
            s,
            14,
            (256 * s[10] + s[11]) as nat,
        )),
        s[10] >= 128 ==> !unsequenceable(s),
{
}

/// Law: a file with another header, or with none, is not refused: reading it ends there.
pub proof fn other_headers_are_not_refused(s: Seq<u8>)
    requires
        s.len() < 14 || !(s[0] == 0x4d && s[1] == 0x54 && s[2] == 0x68 && s[3] == 0x64 && s[4] == 0
            && s[5] == 0 && s[6] == 0 && s[7] == 6 && s[8] == 0 && s[9] <= 1),
    ensures
        !unsequenceable(s),
{
}

proof fn same_quantity(s: Seq<u8>, t: Seq<u8>, p: int)
    requires
        s.len() == t.len(),
        p >= 14,
        forall|i: int| 14 <= i < s.len() ==> #[trigger] s[i] == t[i],
    ensures
        quantity(s, p, 4, 0) == quantity(t, p, 4, 0),
{
    numbers_are_spelled_in_sevens(s, p);
    numbers_are_spelled_in_sevens(t, p);
}

proof fn same_event(s: Seq<u8>, t: Seq<u8>, p: int, status: u8)
    requires
        s.len() == t.len(),
        14 <= p < s.len(),
        forall|i: int| 14 <= i < s.len() ==> #[trigger] s[i] == t[i],
    ensures
        event_end(s, p, status) == event_end(t, p, status),
{
    same_quantity(s, t, p + 1);
    same_quantity(s, t, p + 2);
}

proof fn same_track(
    s: Seq<u8>,
    t: Seq<u8>,
    start: int,
    size: int,
    at: int,
    tick: int,
    status: u8,
)
    requires
        s.len() == t.len(),
        14 <= at,
        forall|i: int| 14 <= i < s.len() ==> #[trigger] s[i] == t[i],
    ensures
        track_from(s, start, size, at, tick, status) == track_from(
            t,
            start,
            size,
            at,
            tick,
            status,
        ),
    decreases s.len() - at,
{
    same_quantity(s, t, at);
    quantity_is_ahead(s, at, 4, 0);
    if let Some((delta, p)) = quantity(s, at, 4, 0) {
        if p < s.len() {
            same_event(s, t, p, status);
            event_is_ahead(s, p, status);
            if let Some(next) = event_end(s, p, status) {
                same_track(
                    s,
                    t,
                    start,
                    size,
                    next,
                    tick + delta,
                    if s[p] < 128 {
                        status
                    } else {
                        s[p]
                    },
                );
            }
        }
    }
}

proof fn same_tracks(s: Seq<u8>, t: Seq<u8>, at: int, n: nat)
    requires
        s.len() == t.len(),
        14 <= at,
        forall|i: int| 14 <= i < s.len() ==> #[trigger] s[i] == t[i],
    ensures
        overflows_from(s, at, n) == overflows_from(t, at, n),
    decreases n,
{
    if n > 0 && at + 8 <= s.len() {
        let size = big_endian(s[at + 4], s[at + 5], s[at + 6], s[at + 7]);
        same_track(s, t, at + 8, size, at + 8, 0, 0);
        end_is_ahead(s, at + 8, size, at + 8, 0, 0);
        if let Reading::Ends(end) = track_from(s, at + 8, size, at + 8, 0, 0) {
            same_tracks(s, t, end, (n - 1) as nat);
        }
    }
}

/// Law: neither the format of a file nor its ticks per beat have a say in whether it is refused.
pub proof fn only_tracks_decide(s: Seq<u8>, t: Seq<u8>)
    requires
        s.len() == t.len(),
        forall|i: int|
            0 <= i < s.len() && i != 9 && i != 12 && i != 13 ==> #[trigger] s[i] == t[i],
        s.len() >= 14,
        s[9] <= 1,
        t[9] <= 1,
    ensures
        unsequenceable(s) <==> unsequenceable(t),
{
    same_tracks(s, t, 14, tracks_told(s[10], s[11]));
    assert(s[0] == t[0] && s[1] == t[1] && s[2] == t[2] && s[3] == t[3] && s[4] == t[4] && s[5]
        == t[5] && s[6] == t[6] && s[7] == t[7] && s[8] == t[8] && s[10] == t[10] && s[11]
        == t[11]);
}

/// Law: a roll that is cued has its file, from the start, once, and a synthesizer of the device's
/// rate with 256 voices.
pub proof fn rolls_are_cued_from_the_start(
    seq: rustysynth::MidiFileSequencer,
    file: rustysynth::MidiFile,
    rate: u32,
    font: rustysynth::SoundFont,
)
    requires
        cued(seq, file, rate, font),
    ensures
        file_of(seq) == Some(file),
        at_start(seq),
        !loops(seq),
        sequenced_at(seq) == (rate as int, 256int),
        sequenced_font(seq) == font,
{
}

} // verus!
