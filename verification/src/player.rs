//! Playing a roll. The audio is the clock: what the roll shows follows from the number of frames
//! that were handed to the speakers.
use crate::notes::{showable, Moment, Note, SECOND};
use crate::paper::FAR;
use crate::text::{
    figure, figures, figures_spell_their_number, number_of, write_number, write_two_figures,
};
use vstd::prelude::*;
use vstd::string::*;

verus! {

/// Length of the blank leader before the music, in nanoseconds.
pub const LEAD: i128 = 3_000_000_000;

/// How long the last note's tail rings after the last note was released, in nanoseconds.
pub const TAIL: i128 = 1_500_000_000;

/// Voices that the synthesizer may sound at a time: passages under the sustain pedal hold many.
pub const POLYPHONY: usize = 256;

/// Where the roll stands, in nanoseconds of music, once `frames` frames were played at `rate`
/// frames a second. Negative while the leader scrolls by.
pub open spec fn playhead_at(frames: int, rate: int) -> int {
    frames * SECOND / rate - LEAD
}

/// Where the roll stands once `frames` frames were played.
pub fn playhead(frames: u64, rate: u32) -> (t: i128)
    requires
        rate > 0,
    ensures
        t == playhead_at(frames as int, rate as int),
        t >= -LEAD,
        rate >= 16_000 ==> t < FAR,
{
    let whole: u128 = frames as u128 * SECOND as u128 / rate as u128;
    assert(frames * SECOND / rate as int <= frames * SECOND) by (nonlinear_arith)
        requires
            frames * SECOND >= 0,
            rate >= 1,
    ;
    assert(rate >= 16_000 ==> frames * SECOND / rate as int <= frames * SECOND / 16_000)
        by (nonlinear_arith)
        requires
            frames * SECOND >= 0,
            rate >= 1,
    ;
    whole as i128 - LEAD
}

/// Frames that the leader lasts.
pub fn lead_frames(rate: u32) -> (frames: u64)
    ensures
        frames == 3 * rate,
{
    3 * rate as u64
}

/// Frames played once a block of `n` more is handed to the device. The count is one of 64 bits.
pub open spec fn counted(played: int, n: int) -> int {
    (played + n) % 0x1_0000_0000_0000_0000
}

/// Frames played once a block of `n` more is handed to the device.
pub fn count_block(played: u64, n: usize) -> (now: u64)
    ensures
        now == counted(played as int, n as int),
{
    played.wrapping_add(n as u64)
}

fn silence_all<T: Copy>(samples: &mut [T], silence: T)
    ensures
        final(samples)@ == Seq::new(old(samples)@.len(), |i: int| silence),
{
    let n = samples.len();
    let mut i: usize = 0;
    while i < n
        invariant
            i <= n,
            n == samples@.len(),
            n == old(samples)@.len(),
            forall|j: int| 0 <= j < i ==> #[trigger] samples@[j] == silence,
        decreases n - i,
    {
        samples[i] = silence;
        i += 1;
    }
}

/// Silences a block while the leader still scrolls by: one that starts after fewer frames than the
/// leader lasts. Any other is left as it is, for the sequencer to fill.
pub fn lead_in<T: Copy>(
    played: u64,
    lead: u64,
    left: &mut [T],
    right: &mut [T],
    silence: T,
) -> (silent: bool)
    ensures
        silent == (played < lead),
        silent ==> final(left)@ == Seq::new(old(left)@.len(), |i: int| silence),
        silent ==> final(right)@ == Seq::new(old(right)@.len(), |i: int| silence),
        !silent ==> final(left)@ == old(left)@ && final(right)@ == old(right)@,
{
    if played < lead {
        silence_all(left, silence);
        silence_all(right, silence);
        true
    } else {
        false
    }
}

/// Frames in the first `k` blocks.
pub open spec fn played_after(blocks: Seq<nat>, k: int) -> nat
    decreases k,
{
    if k <= 0 {
        0
    } else {
        played_after(blocks, k - 1) + blocks[k - 1]
    }
}

/// What the clock shows after the first `k` blocks. It starts at zero.
pub open spec fn clock_after(blocks: Seq<nat>, k: int) -> int
    decreases k,
{
    if k <= 0 {
        0
    } else {
        counted(clock_after(blocks, k - 1), blocks[k - 1] as int)
    }
}

/// Frames that the sequencer has filled after the first `k` blocks: those of the blocks that start
/// once the clock has counted the leader.
pub open spec fn sequenced_after(blocks: Seq<nat>, lead: int, k: int) -> nat
    decreases k,
{
    if k <= 0 {
        0
    } else if clock_after(blocks, k - 1) < lead {
        sequenced_after(blocks, lead, k - 1)
    } else {
        sequenced_after(blocks, lead, k - 1) + blocks[k - 1]
    }
}

/// Law: the audio is the clock. It counts every frame, those of silent blocks too; the first `f`
/// blocks are silent and the others are not; and those others, and nothing before them, come from
/// the sequencer.
pub proof fn audio_is_the_clock(blocks: Seq<nat>, lead: int, k: int) -> (f: int)
    requires
        0 <= k <= blocks.len(),
        played_after(blocks, k) <= u64::MAX,
    ensures
        clock_after(blocks, k) == played_after(blocks, k),
        0 <= f <= k,
        forall|i: int| 0 <= i < f ==> #[trigger] played_after(blocks, i) < lead,
        forall|i: int| f <= i < k ==> #[trigger] played_after(blocks, i) >= lead,
        forall|i: int| 0 <= i <= k ==> #[trigger] clock_after(blocks, i) == played_after(blocks, i),
        sequenced_after(blocks, lead, k) == played_after(blocks, k) - played_after(blocks, f),
    decreases k,
{
    if k == 0 {
        0
    } else {
        let f = audio_is_the_clock(blocks, lead, k - 1);
        if played_after(blocks, k - 1) < lead {
            assert forall|i: int| 0 <= i < k implies #[trigger] played_after(blocks, i) < lead by {
                played_grows(blocks, i, k - 1);
            }
            if f < k - 1 {
                assert(played_after(blocks, f) >= lead);
            }
            k
        } else {
            f
        }
    }
}

proof fn played_grows(blocks: Seq<nat>, i: int, k: int)
    requires
        i <= k,
    ensures
        played_after(blocks, i) <= played_after(blocks, k),
    decreases k - i,
{
    if i < k {
        played_grows(blocks, i, k - 1);
    }
}

/// Law: picture and sound start together. Blocks are silent exactly while the roll stands before
/// the start of the music.
pub proof fn silent_until_the_music_starts(played: int, rate: int)
    requires
        played >= 0,
        rate > 0,
    ensures
        played < 3 * rate <==> playhead_at(played, rate) < 0,
{
    let x = played * SECOND;
    assert(x / rate < LEAD <==> x < LEAD * rate) by (nonlinear_arith)
        requires
            rate > 0,
            x >= 0,
    ;
}

/// Law: the roll never runs backwards, and a second of frames moves it by a second.
pub proof fn roll_follows_the_audio(played: int, more: int, rate: int)
    requires
        played >= 0,
        more >= 0,
        rate > 0,
    ensures
        playhead_at(played, rate) <= playhead_at(played + more, rate),
        playhead_at(played + rate, rate) == playhead_at(played, rate) + SECOND,
{
    let (a, b) = (played * SECOND, (played + more) * SECOND);
    assert(a / rate <= b / rate) by (nonlinear_arith)
        requires
            0 <= a <= b,
            rate > 0,
    ;
    assert((played + rate) * SECOND == a + SECOND * rate) by (nonlinear_arith)
        requires
            a == played * SECOND,
    ;
    assert((a + SECOND * rate) / rate == a / rate + SECOND) by (nonlinear_arith)
        requires
            rate > 0,
    ;
}

/// Whether the moment has come at time `t`.
pub open spec fn has_come(m: Moment, t: int) -> bool {
    m matches Moment::At(n) && n <= t
}

/// Whether the moment is still to come at time `t`.
pub open spec fn is_to_come(m: Moment, t: int) -> bool {
    match m {
        Moment::At(n) => n > t,
        Moment::Never => true,
        Moment::Undefined => false,
    }
}

/// Whether a note sounds at time `t`.
pub open spec fn sounds(n: Note, t: int) -> bool {
    has_come(n.start, t) && is_to_come(n.end, t)
}

/// Whether a note sounds at time `t`.
pub fn is_sounding(n: &Note, t: i128) -> (r: bool)
    ensures
        r == sounds(*n, t as int),
{
    let started = match n.start {
        Moment::At(s) => t >= 0 && s <= t as u128,
        _ => false,
    };
    started && (match n.end {
        Moment::At(e) => t < 0 || e > t as u128,
        Moment::Never => true,
        Moment::Undefined => false,
    })
}

/// Whether one of the notes holds key `k` down at time `t`.
pub open spec fn held(notes: Seq<Note>, t: int, k: int) -> bool {
    exists|i: int| 0 <= i < notes.len() && notes[i].key == k && sounds(#[trigger] notes[i], t)
}

/// No key down.
pub fn keys_up() -> (down: Vec<bool>)
    ensures
        down.len() == 128,
        forall|k: int| 0 <= k < 128 ==> !#[trigger] down[k],
{
    let mut down: Vec<bool> = Vec::new();
    let mut i: usize = 0;
    while i < 128
        invariant
            i <= 128,
            down.len() == i,
            forall|k: int| 0 <= k < i ==> !#[trigger] down[k],
        decreases 128 - i,
    {
        down.push(false);
        i += 1;
    }
    down
}

/// Which keys are down at time `t`: those of the notes that sound.
pub fn keys_down(notes: &Vec<Note>, t: i128) -> (down: Vec<bool>)
    requires
        showable(notes@),
    ensures
        down.len() == 128,
        forall|k: int| 0 <= k < 128 ==> #[trigger] down[k] == held(notes@, t as int, k),
{
    let mut down = keys_up();
    let mut i: usize = 0;
    while i < notes.len()
        invariant
            i <= notes.len(),
            showable(notes@),
            down.len() == 128,
            forall|k: int|
                0 <= k < 128 ==> #[trigger] down[k] == held(notes@.take(i as int), t as int, k),
        decreases notes.len() - i,
    {
        let n = notes[i];
        let ghost before = down@;
        let ghost (a, b) = (notes@.take(i as int), notes@.take(i + 1));
        let on = is_sounding(&n, t);
        if on {
            down.set(n.key as usize, true);
        }
        assert forall|k: int| 0 <= k < 128 implies #[trigger] down[k] == held(b, t as int, k) by {
            assert(before[k] == held(a, t as int, k));
            if held(a, t as int, k) {
                let j = choose|j: int|
                    0 <= j < a.len() && a[j].key == k && sounds(#[trigger] a[j], t as int);
                assert(b[j] == a[j]);
            }
            if held(b, t as int, k) {
                let j = choose|j: int|
                    0 <= j < b.len() && b[j].key == k && sounds(#[trigger] b[j], t as int);
                if j < i {
                    assert(a[j] == b[j]);
                }
            }
            if on && n.key == k {
                assert(b[i as int] == n);
            }
        }
        i += 1;
    }
    assert(notes@.take(notes@.len() as int) =~= notes@);
    down
}

/// The later of a length so far and the end of one more note; a note without an end time counts
/// for nothing.
pub open spec fn longer(length: Moment, end: Moment) -> Moment {
    match (length, end) {
        (Moment::At(a), Moment::At(b)) => if a < b {
            end
        } else {
            length
        },
        (Moment::At(_), Moment::Never) => Moment::Never,
        _ => length,
    }
}

/// When the last of the first `n` notes ends.
pub open spec fn longest(notes: Seq<Note>, n: int) -> Moment
    decreases n,
{
    if n <= 0 {
        Moment::At(0)
    } else {
        longer(longest(notes, n - 1), notes[n - 1].end)
    }
}

/// When the last note ends.
pub fn roll_length(notes: &Vec<Note>) -> (length: Moment)
    ensures
        length == longest(notes@, notes@.len() as int),
        length != Moment::Undefined,
{
    let mut length = Moment::At(0);
    let mut i: usize = 0;
    while i < notes.len()
        invariant
            i <= notes.len(),
            length == longest(notes@, i as int),
            length != Moment::Undefined,
        decreases notes.len() - i,
    {
        let end = notes[i].end;
        length = match (length, end) {
            (Moment::At(a), Moment::At(b)) => if a < b {
                end
            } else {
                length
            },
            (Moment::At(_), Moment::Never) => Moment::Never,
            _ => length,
        };
        i += 1;
    }
    length
}

/// Law: the length is when the last note ends: no note that has an end time ends after it, and it
/// is the start or the end of one of the notes.
pub proof fn length_is_the_last_end(notes: Seq<Note>, n: int)
    requires
        0 <= n <= notes.len(),
    ensures
        forall|i: int|
            0 <= i < n ==> match (#[trigger] notes[i]).end {
                Moment::At(e) => match longest(notes, n) {
                    Moment::At(x) => e <= x,
                    Moment::Never => true,
                    Moment::Undefined => false,
                },
                Moment::Never => longest(notes, n) == Moment::Never,
                Moment::Undefined => true,
            },
        longest(notes, n) != Moment::Undefined,
        longest(notes, n) == Moment::At(0) || exists|i: int|
            0 <= i < n && (#[trigger] notes[i]).end == longest(notes, n),
    decreases n,
{
    if n > 0 {
        length_is_the_last_end(notes, n - 1);
        if longest(notes, n) != Moment::At(0) {
            if longest(notes, n) == longest(notes, n - 1) {
                let i = choose|i: int|
                    0 <= i < n - 1 && (#[trigger] notes[i]).end == longest(notes, n - 1);
                assert(notes[i].end == longest(notes, n));
            }
        }
    }
}

/// Whether the roll is over at time `t`: the last note was released and its tail has rung out.
pub open spec fn is_over(length: Moment, t: int) -> bool {
    length matches Moment::At(n) && t > n + TAIL
}

/// Whether the roll is over.
pub fn roll_over(length: Moment, t: i128) -> (over: bool)
    ensures
        over == is_over(length, t as int),
{
    match length {
        Moment::At(n) => t > TAIL && (t - TAIL) as u128 > n,
        _ => false,
    }
}

proof fn no_longer_held(notes: Seq<Note>, t: int, k: int)
    requires
        is_over(longest(notes, notes.len() as int), t),
    ensures
        !held(notes, t, k),
{
    length_is_the_last_end(notes, notes.len() as int);
}

/// Law: once the roll is over, every key is up.
pub proof fn keys_rest_when_the_roll_is_over(notes: Seq<Note>, t: int)
    requires
        is_over(longest(notes, notes.len() as int), t),
    ensures
        forall|k: int| !#[trigger] held(notes, t, k),
{
    assert forall|k: int| !#[trigger] held(notes, t, k) by {
        no_longer_held(notes, t, k);
    }
}

/// Law: while the leader scrolls by, every key is up.
pub proof fn keys_rest_in_the_leader(notes: Seq<Note>, t: int)
    requires
        t < 0,
    ensures
        forall|k: int| !#[trigger] held(notes, t, k),
{
}

/// The largest count that a clock shows.
pub open spec fn at_most_32_bits(n: int) -> int {
    if n > u32::MAX {
        u32::MAX as int
    } else {
        n
    }
}

/// A time in whole seconds as a clock shows it: nothing before the start counts.
pub open spec fn clock_face(t: int) -> Seq<char> {
    let s = if t > 0 {
        t / SECOND as int
    } else {
        0
    };
    let (minutes, seconds) = (at_most_32_bits(s / 60), at_most_32_bits(s) % 60);
    figures(minutes as nat) + seq![':', figure(seconds / 10), figure(seconds % 10)]
}

/// Minutes and seconds, as in `3:07`.
pub fn clock_str(t: i128) -> (s: String)
    ensures
        s@ == clock_face(t as int),
{
    let whole: u128 = if t > 0 {
        t as u128 / SECOND as u128
    } else {
        0
    };
    let minutes: u32 = if whole / 60 > u32::MAX as u128 {
        u32::MAX
    } else {
        (whole / 60) as u32
    };
    let seconds: u32 = if whole > u32::MAX as u128 {
        u32::MAX % 60
    } else {
        whole as u32 % 60
    };
    let mut s = String::new();
    write_number(&mut s, minutes);
    s.append(":");
    write_two_figures(&mut s, seconds);
    proof {
        reveal_strlit(":");
        assert(s@ =~= clock_face(t as int));
    }
    s
}

/// A length as a clock shows it; one without end shows the largest counts.
pub open spec fn length_face(length: Moment) -> Seq<char> {
    match length {
        Moment::At(n) => clock_face(n as int),
        _ => clock_face(i128::MAX as int),
    }
}

/// Time played and length of the roll, as in `0:42 / 3:07`.
pub fn time_label(t: i128, length: Moment) -> (s: String)
    ensures
        s@ == clock_face(t as int) + " / "@ + length_face(length),
{
    let mut s = clock_str(t);
    s.append(" / ");
    let l = clock_str(
        match length {
            Moment::At(n) => if n < i128::MAX as u128 {
                n as i128
            } else {
                i128::MAX
            },
            _ => i128::MAX,
        },
    );
    s.append(l.as_str());
    s
}

/// Law: the roll stands at the time that the frames played take, less three seconds, cut down to
/// whole nanoseconds.
pub proof fn the_roll_stands_where_the_audio_is(played: int, rate: int)
    requires
        played >= 0,
        rate > 0,
    ensures
        ({
            let past = playhead_at(played, rate) + 3_000_000_000;
            past * rate <= played * 1_000_000_000 < (past + 1) * rate
        }),
{
    let x = played * 1_000_000_000;
    assert((x / rate) * rate <= x < (x / rate + 1) * rate) by (nonlinear_arith)
        requires
            rate > 0,
    ;
}

/// Law: a key is down exactly while a note of it has started and not ended.
pub proof fn keys_are_down_while_notes_last(notes: Seq<Note>, t: int, k: int)
    ensures
        held(notes, t, k) <==> exists|i: int|
            0 <= i < notes.len() && (#[trigger] notes[i]).key == k && (
            notes[i].start matches Moment::At(s) && s <= t) && (notes[i].end == Moment::Never || (
            notes[i].end matches Moment::At(e) && t < e)),
{
    if held(notes, t, k) {
        let i = choose|i: int|
            0 <= i < notes.len() && notes[i].key == k && sounds(#[trigger] notes[i], t);
        assert(notes[i].key == k);
    }
    if exists|i: int|
        0 <= i < notes.len() && (#[trigger] notes[i]).key == k && (
        notes[i].start matches Moment::At(s) && s <= t) && (notes[i].end == Moment::Never || (
        notes[i].end matches Moment::At(e) && t < e)) {
        let i = choose|i: int|
            0 <= i < notes.len() && (#[trigger] notes[i]).key == k && (
            notes[i].start matches Moment::At(s) && s <= t) && (notes[i].end == Moment::Never || (
            notes[i].end matches Moment::At(e) && t < e));
        assert(sounds(notes[i], t));
    }
}

/// Law: the roll is over once more than a second and a half has passed since its length; one
/// without end is never over.
pub proof fn the_roll_is_over_after_its_tail(length: Moment, t: int)
    ensures
        is_over(length, t) <==> (length matches Moment::At(n) && t - n > 1_500_000_000),
{
}

/// Law: a clock shows whole minutes, a colon, and two figures for the seconds left over, which
/// together are the time in whole seconds; before the start it shows none.
pub proof fn clocks_show_the_time(t: int)
    requires
        t < 4_294_967_296_000_000_000,
    ensures
        ({
            let face = clock_face(t);
            let n = face.len() - 3;
            let minutes = number_of(face.subrange(0, n));
            let (tens, ones) = (face[n + 1] as int - '0' as int, face[n + 2] as int - '0' as int);
            let time = minutes * 60 + tens * 10 + ones;
            &&& n >= 1
            &&& face[n] == ':'
            &&& n > 1 ==> face[0] != '0'
            &&& 0 <= tens < 6
            &&& 0 <= ones < 10
            &&& t >= 0 ==> time * 1_000_000_000 <= t < (time + 1) * 1_000_000_000
            &&& t < 0 ==> time == 0
        }),
{
    let face = clock_face(t);
    let s = if t > 0 {
        t / SECOND as int
    } else {
        0
    };
    let m = s / 60;
    figures_spell_their_number(m as nat);
    let f = figures(m as nat);
    let n = f.len() as int;
    assert(face.len() == n + 3);
    assert(face.subrange(0, n) =~= f);
    assert(face[n] == ':' && face[n + 1] == figure((s % 60) / 10) && face[n + 2] == figure(
        (s % 60) % 10,
    ));
    assert(face[0] == f[0]);
}

/// Law: times too long for a clock show the most that fits in 32 bits, of minutes and of seconds
/// each, and a length without end shows like these.
pub proof fn clocks_stop_at_32_bits(t: int)
    requires
        t >= 257_698_037_760_000_000_000,
    ensures
        clock_face(t) == figures(4_294_967_295) + seq![':', '1', '5'],
        length_face(Moment::Never) == clock_face(t),
{
    assert(clock_face(t) =~= figures(4_294_967_295) + seq![':', '1', '5']);
    assert(clock_face(i128::MAX as int) =~= figures(4_294_967_295) + seq![':', '1', '5']);
}

/// Law: a length shows as the time it is.
pub proof fn lengths_show_as_times(n: u128)
    ensures
        length_face(Moment::At(n)) == clock_face(n as int),
{
}

/// Law: from 2^32 seconds on, a clock still shows the minutes, up to 32 bits of them, but stops at
/// 15 seconds.
pub proof fn clocks_lose_their_seconds(t: int)
    requires
        4_294_967_296_000_000_000 <= t < 257_698_037_760_000_000_000,
    ensures
        ({
            let face = clock_face(t);
            let n = face.len() - 3;
            let minutes = number_of(face.subrange(0, n));
            &&& minutes * 60_000_000_000 <= t < (minutes + 1) * 60_000_000_000
            &&& face.subrange(n, n + 3) == seq![':', '1', '5']
        }),
{
    let face = clock_face(t);
    let m = t / SECOND as int / 60;
    figures_spell_their_number(m as nat);
    let f = figures(m as nat);
    let n = f.len() as int;
    assert(face.subrange(0, n) =~= f);
    assert(face.subrange(n, n + 3) =~= seq![':', '1', '5']);
}

} // verus!
