//! What a MIDI file says, as plain values: tracks of events, each event so many ticks after the
//! one before it.
use vstd::prelude::*;

verus! {

/// How the ticks of a file measure time.
#[derive(Clone, Copy, Debug, PartialEq, Eq, Structural)]
pub enum Timing {
    /// Ticks per beat; the length of a beat is set by tempo events.
    Metrical(u16),
    /// Frames per second (24, 25, 29 or 30, where 29 stands for 30 / 1.001) and ticks per frame.
    Timecode(u8, u8),
}

/// The events that matter for a piano roll.
#[derive(Clone, Copy, Debug, PartialEq, Eq, Structural)]
pub enum Event {
    /// Microseconds per beat from here on.
    Tempo(u32),
    /// Channel, key and velocity. Velocity 0 lifts the key.
    NoteOn(u8, u8, u8),
    /// Channel and key.
    NoteOff(u8, u8),
    /// Anything else.
    Other,
}

/// An event and the ticks that pass between the previous event of its track and this one.
#[derive(Clone, Copy, Debug, PartialEq, Eq, Structural)]
pub struct TrackEvent {
    pub delta: u32,
    pub event: Event,
}

/// An event and the tick at which it happens, counted from the start of the piece.
#[derive(Clone, Copy, Debug, PartialEq, Eq, Structural)]
pub struct Timed {
    pub tick: u64,
    pub event: Event,
}

/// The channel and key that an event strikes or lifts, if it does either.
pub open spec fn slot(e: Event) -> Option<(u8, u8)> {
    match e {
        Event::NoteOn(channel, key, _) => Some((channel, key)),
        Event::NoteOff(channel, key) => Some((channel, key)),
        _ => None,
    }
}

/// Whether an event strikes a key.
pub open spec fn strikes(e: Event) -> bool {
    e matches Event::NoteOn(_, _, vel) && vel > 0
}

/// The bounds that the file format puts on the numbers in an event.
pub open spec fn in_range(e: Event) -> bool {
    match e {
        Event::Tempo(us) => us < 0x100_0000,
        Event::NoteOn(channel, key, vel) => channel < 16 && key < 128 && vel < 128,
        Event::NoteOff(channel, key) => channel < 16 && key < 128,
        Event::Other => true,
    }
}

/// Every event of every track is in range.
pub open spec fn tracks_in_range(tracks: Seq<Seq<TrackEvent>>) -> bool {
    forall|i: int, j: int|
        0 <= i < tracks.len() && 0 <= j < tracks[i].len() ==> in_range(
            (#[trigger] tracks[i][j]).event,
        )
}

/// Every event of a merged piece is in range.
pub open spec fn all_in_range(events: Seq<Timed>) -> bool {
    forall|i: int| 0 <= i < events.len() ==> in_range((#[trigger] events[i]).event)
}

/// Ticks from the start of a track to its event `j`.
pub open spec fn tick_of(track: Seq<TrackEvent>, j: int) -> nat
    decreases j + 1,
{
    if j < 0 {
        0
    } else {
        tick_of(track, j - 1) + track[j].delta as nat
    }
}

/// Whether the last tick of the track can be counted in 64 bits.
pub open spec fn countable(track: Seq<TrackEvent>) -> bool {
    tick_of(track, track.len() - 1) <= u64::MAX
}

/// The events of a track with their ticks counted from the start.
pub open spec fn timed_track(track: Seq<TrackEvent>) -> Seq<Timed> {
    Seq::new(
        track.len(),
        |j: int| Timed { tick: tick_of(track, j) as u64, event: track[j].event },
    )
}

/// All tracks one after the other, each with its own ticks.
pub open spec fn laid_end_to_end(tracks: Seq<Seq<TrackEvent>>) -> Seq<Timed>
    decreases tracks.len(),
{
    if tracks.len() == 0 {
        Seq::empty()
    } else {
        laid_end_to_end(tracks.drop_last()) + timed_track(tracks.last())
    }
}

/// The contents of nested vectors.
pub open spec fn contents(tracks: Seq<Vec<TrackEvent>>) -> Seq<Seq<TrackEvent>> {
    Seq::new(tracks.len(), |i: int| tracks[i]@)
}

/// Ticks only grow along a track.
pub proof fn tick_of_grows(track: Seq<TrackEvent>, i: int, j: int)
    requires
        i <= j,
    ensures
        tick_of(track, i) <= tick_of(track, j),
    decreases j - i,
{
    if i < j {
        tick_of_grows(track, i, j - 1);
        reveal_with_fuel(tick_of, 2);
    }
}

/// Appends the events of a track with ticks counted from the start; whether every tick fits.
fn time_track(track: &Vec<TrackEvent>, events: &mut Vec<Timed>) -> (fits: bool)
    ensures
        fits == countable(track@),
        fits ==> final(events)@ == old(events)@ + timed_track(track@),
{
    let mut tick: u64 = 0;
    let mut j: usize = 0;
    while j < track.len()
        invariant
            j <= track.len(),
            tick == tick_of(track@, j - 1),
            events@ =~= old(events)@ + timed_track(track@).take(j as int),
        decreases track.len() - j,
    {
        let e = track[j];
        proof {
            tick_of_grows(track@, j as int, track@.len() - 1);
        }
        match tick.checked_add(e.delta as u64) {
            Some(t) => {
                tick = t;
            },
            None => {
                return false;
            },
        }
        events.push(Timed { tick, event: e.event });
        j += 1;
    }
    assert(timed_track(track@).take(track@.len() as int) =~= timed_track(track@));
    true
}

/// Counts every track's ticks from the start and lays the tracks end to end. `None` where some
/// tick does not fit in 64 bits.
pub fn lay_end_to_end(tracks: &Vec<Vec<TrackEvent>>) -> (events: Option<Vec<Timed>>)
    ensures
        events is None <==> exists|i: int|
            0 <= i < tracks.len() && !countable(#[trigger] tracks@[i]@),
        events matches Some(e) ==> e@ == laid_end_to_end(contents(tracks@)),
{
    let mut events: Vec<Timed> = Vec::new();
    let mut i: usize = 0;
    let ghost all = contents(tracks@);
    assert(all.take(0) =~= Seq::<Seq<TrackEvent>>::empty());
    while i < tracks.len()
        invariant
            i <= tracks.len(),
            all == contents(tracks@),
            events@ == laid_end_to_end(all.take(i as int)),
            forall|k: int| 0 <= k < i ==> countable(#[trigger] tracks@[k]@),
        decreases tracks.len() - i,
    {
        if !time_track(&tracks[i], &mut events) {
            return None;
        }
        proof {
            assert(all.take(i + 1).drop_last() =~= all.take(i as int));
            assert(all.take(i + 1).last() == tracks@[i as int]@);
        }
        i += 1;
    }
    assert(all.take(i as int) =~= all);
    Some(events)
}

/// Laying tracks end to end keeps every event's numbers in range.
pub proof fn end_to_end_in_range(tracks: Seq<Seq<TrackEvent>>)
    requires
        tracks_in_range(tracks),
    ensures
        all_in_range(laid_end_to_end(tracks)),
    decreases tracks.len(),
{
    if tracks.len() > 0 {
        let init = tracks.drop_last();
        assert forall|i: int, j: int|
            0 <= i < init.len() && 0 <= j < init[i].len() implies in_range(
            (#[trigger] init[i][j]).event,
        ) by {
            assert(init[i] == tracks[i]);
            assert(in_range(tracks[i][j].event));
        }
        end_to_end_in_range(init);
        let last = timed_track(tracks.last());
        assert forall|i: int| 0 <= i < laid_end_to_end(tracks).len() implies in_range(
            (#[trigger] laid_end_to_end(tracks)[i]).event,
        ) by {
            let n = laid_end_to_end(init).len();
            if i >= n {
                assert(laid_end_to_end(tracks)[i] == last[i - n]);
                assert(in_range(tracks[tracks.len() - 1][i - n].event));
            } else {
                assert(laid_end_to_end(tracks)[i] == laid_end_to_end(init)[i]);
            }
        }
    }
}

/// Law: ticks add up. The first event comes as many ticks after the start as its pause, every
/// other as many after the one before it, and nothing else of an event changes.
pub proof fn ticks_add_up(track: Seq<TrackEvent>, j: int)
    requires
        0 <= j < track.len(),
        countable(track),
    ensures
        timed_track(track).len() == track.len(),
        timed_track(track)[j].event == track[j].event,
        timed_track(track)[j].tick == track[j].delta + (if j > 0 {
            timed_track(track)[j - 1].tick as int
        } else {
            0
        }),
{
    tick_of_grows(track, j, track.len() - 1);
    tick_of_grows(track, j - 1, j);
    reveal_with_fuel(tick_of, 2);
}

/// Events in the first `i` tracks.
pub open spec fn events_before(tracks: Seq<Seq<TrackEvent>>, i: int) -> int
    decreases i,
{
    if i <= 0 {
        0
    } else {
        events_before(tracks, i - 1) + tracks[i - 1].len()
    }
}

/// Law: laid end to end, the tracks are all there, one after the other, with every event.
pub proof fn every_event_is_laid(tracks: Seq<Seq<TrackEvent>>, i: int, j: int)
    requires
        0 <= i < tracks.len(),
        0 <= j < tracks[i].len(),
    ensures
        laid_end_to_end(tracks).len() == events_before(tracks, tracks.len() as int),
        0 <= events_before(tracks, i) + j < laid_end_to_end(tracks).len(),
        laid_end_to_end(tracks)[events_before(tracks, i) + j] == timed_track(tracks[i])[j],
    decreases tracks.len(),
{
    let init = tracks.drop_last();
    let n = init.len() as int;
    laid_length(tracks);
    laid_length(init);
    same_before(init, tracks, n);
    same_before(init, tracks, i);
    if i < n {
        every_event_is_laid(init, i, j);
    }
}

proof fn laid_length(tracks: Seq<Seq<TrackEvent>>)
    ensures
        laid_end_to_end(tracks).len() == events_before(tracks, tracks.len() as int),
    decreases tracks.len(),
{
    if tracks.len() > 0 {
        laid_length(tracks.drop_last());
        same_before(tracks.drop_last(), tracks, tracks.len() - 1);
    }
}

proof fn same_before(a: Seq<Seq<TrackEvent>>, b: Seq<Seq<TrackEvent>>, i: int)
    requires
        i <= a.len(),
        i <= b.len(),
        forall|k: int| 0 <= k < i ==> #[trigger] a[k] == b[k],
    ensures
        events_before(a, i) == events_before(b, i),
        0 <= events_before(a, i),
    decreases i,
{
    if i > 0 {
        same_before(a, b, i - 1);
        assert(a[i - 1] == b[i - 1]);
    }
}

} // verus!
