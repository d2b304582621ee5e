//! Reading MIDI files.
use crate::chunks::{has_unnegatable_division, holds_unnegatable_division};
use crate::notes::{
    base_of, every_note_is_there, moment_at, not_after, notes_are_showable, notes_end_in_order,
    notes_ended, notes_of, notes_start_before_they_end, showable, struck_until, time_base, Note,
};
use crate::order::{
    at_tick, in_order, order_events, order_in_range, order_is_stable, order_keeps_every_event,
};
use crate::score::{
    contents, countable, end_to_end_in_range, laid_end_to_end, lay_end_to_end, tick_of,
    tracks_in_range, Event, Timed, Timing, TrackEvent,
};
use midly::{MetaMessage, MidiMessage, Smf, TrackEventKind};
use vstd::prelude::*;

verus! {

/// A parsed MIDI file.
#[verifier::external_type_specification]
#[verifier::external_body]
pub struct ExSmf<'a>(midly::Smf<'a>);

/// Why a file could not be parsed.
#[verifier::external_type_specification]
#[verifier::external_body]
pub struct ExMidiError(midly::Error);

/// What `midly::Smf::parse` reads out of the bytes of a file: its timing and its tracks, or
/// `None` where it reports an error.
pub uninterp spec fn parsed(bytes: Seq<u8>) -> Option<(Timing, Seq<Seq<TrackEvent>>)>;

/// Whether `e` can be the error that `midly::Smf::parse` reports of the bytes of a file.
pub uninterp spec fn fails_with(bytes: Seq<u8>, e: midly::Error) -> bool;

/// The tracks that a parsed file holds.
pub uninterp spec fn tracks_held(smf: midly::Smf) -> Seq<Seq<TrackEvent>>;

/// Calls `midly::Smf::parse`. Claims that what comes of it depends on the bytes alone: whether
/// it succeeds, the timing in the header, and the tracks. An error that it reports is one of these
/// bytes; of a file with several faults, it may be that of any of them. Bytes with a division that
/// cannot be negated are kept out: `midly` negates it in 8 bits.
#[verifier::external_body]
fn parse_smf(bytes: &[u8]) -> (r: Result<(Timing, Smf<'_>), midly::Error>)
    requires
        !holds_unnegatable_division(bytes@),
    ensures
        match parsed(bytes@) {
            Some((timing, tracks)) => r matches Ok((t, smf)) && t == timing && tracks_held(smf)
                == tracks,
            None => r matches Err(e) && fails_with(bytes@, e),
        },
{
    let smf = Smf::parse(bytes)?;
    let timing = match smf.header.timing {
        midly::Timing::Metrical(ticks) => Timing::Metrical(ticks.as_int()),
        midly::Timing::Timecode(fps, ticks) => Timing::Timecode(fps.as_int(), ticks),
    };
    Ok((timing, smf))
}

/// Hands out the events of a parsed file (the fields of `midly::Smf`), each as a plain value.
/// Claims that these are the tracks it holds, and that every number is in the range of the
/// `midly` integer it comes from.
#[verifier::external_body]
fn tracks_of(smf: &Smf<'_>) -> (tracks: Vec<Vec<TrackEvent>>)
    ensures
        contents(tracks@) == tracks_held(*smf),
        tracks_in_range(contents(tracks@)),
{
    let event = |kind: TrackEventKind| match kind {
        TrackEventKind::Meta(MetaMessage::Tempo(us)) => Event::Tempo(us.as_int()),
        TrackEventKind::Midi { channel, message: MidiMessage::NoteOn { key, vel } } =>
            Event::NoteOn(channel.as_int(), key.as_int(), vel.as_int()),
        TrackEventKind::Midi { channel, message: MidiMessage::NoteOff { key, .. } } =>
            Event::NoteOff(channel.as_int(), key.as_int()),
        _ => Event::Other,
    };
    smf.tracks.iter().map(|track| track.iter().map(|e| TrackEvent {
        delta: e.delta.as_int(),
        event: event(e.kind),
    }).collect()).collect()
}

/// Why there are no notes to show.
#[derive(Debug)]
pub enum LoadError {
    /// Not a MIDI file, or a broken one.
    Midi(midly::Error),
    /// A header with a division that stands for no frame rate: 0x80.
    Division,
    /// A track lasts more ticks than fit in 64 bits.
    TooLong,
}

/// All events of a piece in order of their ticks; at equal ticks earlier tracks come first, and
/// each track keeps its own order.
pub open spec fn merged(tracks: Seq<Seq<TrackEvent>>) -> Seq<Timed> {
    in_order(laid_end_to_end(tracks))
}

/// The notes of a piece.
pub open spec fn piece_notes(timing: Timing, tracks: Seq<Seq<TrackEvent>>) -> Seq<Note> {
    notes_ended(merged(tracks), base_of(timing), merged(tracks).len() as int)
}

/// Law: no note of a piece ends before it starts, and notes come in the order in which they end.
pub proof fn pieces_run_forward(timing: Timing, tracks: Seq<Seq<TrackEvent>>)
    ensures
        forall|i: int|
            0 <= i < piece_notes(timing, tracks).len() ==> {
                let note = #[trigger] piece_notes(timing, tracks)[i];
                not_after(note.start, note.end)
            },
        forall|i: int, k: int|
            0 <= i <= k < piece_notes(timing, tracks).len() ==> not_after(
                #[trigger] piece_notes(timing, tracks)[i].end,
                #[trigger] piece_notes(timing, tracks)[k].end,
            ),
{
    let events = merged(tracks);
    order_keeps_every_event(laid_end_to_end(tracks));
    notes_start_before_they_end(events, base_of(timing), events.len() as int);
    notes_end_in_order(events, base_of(timing), events.len() as int);
}

/// Whether some track lasts more ticks than fit in 64 bits.
pub open spec fn too_long(tracks: Seq<Seq<TrackEvent>>) -> bool {
    exists|i: int| 0 <= i < tracks.len() && !countable(#[trigger] tracks[i])
}

/// The notes of a piece; `None` where a track lasts more ticks than can be counted.
pub fn flatten(timing: Timing, tracks: &Vec<Vec<TrackEvent>>) -> (notes: Option<Vec<Note>>)
    requires
        tracks_in_range(contents(tracks@)),
    ensures
        notes is None <==> too_long(contents(tracks@)),
        notes matches Some(n) ==> n@ == piece_notes(timing, contents(tracks@)) && showable(n@),
{
    let ghost all = contents(tracks@);
    match lay_end_to_end(tracks) {
        None => {
            proof {
                let i = choose|i: int|
                    0 <= i < tracks.len() && !countable(#[trigger] tracks@[i]@);
                assert(!countable(all[i]));
            }
            None
        },
        Some(events) => {
            proof {
                if too_long(all) {
                    let i = choose|i: int| 0 <= i < all.len() && !countable(#[trigger] all[i]);
                    assert(!countable(tracks@[i]@));
                }
                end_to_end_in_range(all);
                order_in_range(events@);
                order_keeps_every_event(events@);
            }
            let ordered = order_events(&events);
            let base = time_base(timing);
            proof {
                notes_are_showable(ordered@, base, ordered@.len() as int);
            }
            Some(notes_of(&ordered, base))
        },
    }
}

/// Flattens all tracks of a MIDI file into notes with times, honouring the tempo map.
pub fn load_notes(bytes: &[u8]) -> (r: Result<Vec<Note>, LoadError>)
    ensures
        holds_unnegatable_division(bytes@) <==> r matches Err(LoadError::Division),
        !holds_unnegatable_division(bytes@) ==> match parsed(bytes@) {
            None => r matches Err(LoadError::Midi(e)) && fails_with(bytes@, e),
            Some((timing, tracks)) => if too_long(tracks) {
                r matches Err(LoadError::TooLong)
            } else {
                r matches Ok(notes) && {
                    &&& notes@ == piece_notes(timing, tracks)
                    &&& showable(notes@)
                    &&& tracks_in_range(tracks)
                }
            },
        },
{
    if has_unnegatable_division(bytes) {
        return Err(LoadError::Division);
    }
    match parse_smf(bytes) {
        Err(e) => Err(LoadError::Midi(e)),
        Ok((timing, smf)) => {
            let tracks = tracks_of(&smf);
            match flatten(timing, &tracks) {
                None => Err(LoadError::TooLong),
                Some(notes) => Ok(notes),
            }
        },
    }
}

/// Law: a piece has the events of all its tracks, none lost and none added, in order of their
/// ticks; those of one tick come track by track, each track's in its own order.
pub proof fn pieces_hold_every_event(tracks: Seq<Seq<TrackEvent>>, tick: u64)
    ensures
        merged(tracks).to_multiset() == laid_end_to_end(tracks).to_multiset(),
        merged(tracks).len() == laid_end_to_end(tracks).len(),
        forall|i: int, j: int|
            0 <= i <= j < merged(tracks).len() ==> (#[trigger] merged(tracks)[i]).tick <= (
            #[trigger] merged(tracks)[j]).tick,
        merged(tracks).filter(|e: Timed| e.tick == tick) == laid_end_to_end(tracks).filter(
            |e: Timed| e.tick == tick,
        ),
{
    let laid = laid_end_to_end(tracks);
    order_keeps_every_event(laid);
    order_is_stable(laid, tick);
    let f = |e: Timed| e.tick == tick;
    assert(at_tick(laid, tick) == laid.filter(f));
    assert(at_tick(merged(tracks), tick) == merged(tracks).filter(f));
}

/// Law: the notes of a piece are those that its events strike and touch again: note `p` is the one
/// that event `ends[p]` ends, in order, and every event that ends one is among these.
pub proof fn pieces_have_every_note(timing: Timing, tracks: Seq<Seq<TrackEvent>>) -> (ends: Seq<
    int,
>)
    ensures
        ends.len() == piece_notes(timing, tracks).len(),
        forall|p: int, q: int| 0 <= p < q < ends.len() ==> ends[p] < ends[q],
        forall|p: int|
            0 <= p < ends.len() ==> {
                let (e, note) = (#[trigger] ends[p], piece_notes(timing, tracks)[p]);
                &&& 0 <= e < merged(tracks).len()
                &&& note.end == moment_at(merged(tracks), base_of(timing), e)
                &&& exists|i: int, c: u8|
                    #[trigger] struck_until(merged(tracks), i, e, c, note.key) && note.start
                        == moment_at(merged(tracks), base_of(timing), i)
            },
        forall|i: int, j: int, c: u8, k: u8|
            0 <= j < merged(tracks).len() && #[trigger] struck_until(merged(tracks), i, j, c, k)
                ==> ends.contains(j),
{
    every_note_is_there(merged(tracks), base_of(timing), merged(tracks).len() as int)
}

/// Law: a piece is too long exactly where the pauses of some track add up past 64 bits.
pub proof fn too_long_past_64_bits(tracks: Seq<Seq<TrackEvent>>)
    ensures
        too_long(tracks) <==> exists|i: int|
            0 <= i < tracks.len() && pauses(#[trigger] tracks[i]) > 0xffff_ffff_ffff_ffff,
{
    assert forall|i: int| 0 <= i < tracks.len() implies pauses(#[trigger] tracks[i]) == tick_of(
        tracks[i],
        tracks[i].len() - 1,
    ) by {
        pauses_are_ticks(tracks[i]);
    }
    if too_long(tracks) {
        let i = choose|i: int| 0 <= i < tracks.len() && !countable(#[trigger] tracks[i]);
        assert(pauses(tracks[i]) > 0xffff_ffff_ffff_ffff);
    }
    if exists|i: int|
        0 <= i < tracks.len() && pauses(#[trigger] tracks[i]) > 0xffff_ffff_ffff_ffff {
        let i = choose|i: int|
            0 <= i < tracks.len() && pauses(#[trigger] tracks[i]) > 0xffff_ffff_ffff_ffff;
        assert(!countable(tracks[i]));
    }
}

/// All pauses of a track together.
pub open spec fn pauses(track: Seq<TrackEvent>) -> int {
    track.fold_left(0, |sum: int, e: TrackEvent| sum + e.delta)
}

proof fn pauses_are_ticks(track: Seq<TrackEvent>)
    ensures
        pauses(track) == tick_of(track, track.len() - 1),
    decreases track.len(),
{
    if track.len() > 0 {
        let init = track.drop_last();
        pauses_are_ticks(init);
        same_ticks(init, track, init.len() - 1);
    }
}

proof fn same_ticks(a: Seq<TrackEvent>, b: Seq<TrackEvent>, j: int)
    requires
        j < a.len(),
        j < b.len(),
        forall|k: int| 0 <= k <= j ==> #[trigger] a[k] == b[k],
    ensures
        tick_of(a, j) == tick_of(b, j),
    decreases j + 1,
{
    if j >= 0 {
        same_ticks(a, b, j - 1);
        assert(a[j] == b[j]);
    }
}

} // verus!
