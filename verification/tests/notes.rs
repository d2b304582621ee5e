use ytplay::keyboard::{key_at, key_rect, layout, PX};
use ytplay::midi::{flatten, load_notes, LoadError};
use ytplay::notes::{notes_of, time_base, Moment, Note};
use ytplay::order::order_events;
use ytplay::score::{lay_end_to_end, Event, Timed, Timing, TrackEvent};

const S: u128 = 1_000_000_000;

/// A file of these tracks, with a header of this division.
fn file(division: [u8; 2], tracks: &[&[u8]]) -> Vec<u8> {
    let mut f = b"MThd".to_vec();
    f.extend([0, 0, 0, 6, 0, 1, 0, tracks.len() as u8]);
    f.extend(division);
    for t in tracks {
        f.extend(b"MTrk");
        f.extend((t.len() as u32 + 4).to_be_bytes());
        f.extend(*t);
        f.extend([0x00, 0xFF, 0x2F, 0x00]);
    }
    f
}

fn note(start: u128, end: u128, key: u8) -> Note {
    Note { start: Moment::At(start), end: Moment::At(end), key }
}

fn at(tick: u64, event: Event) -> Timed {
    Timed { tick, event }
}

#[test]
fn tempo_map_and_keys() {
    // 1 track, 480 tpb: tempo 1s/beat, note 60 on at tick 0, off at tick 480; then note 62 480..960
    let bytes: Vec<u8> = [
        &b"MThd"[..], &[0, 0, 0, 6, 0, 0, 0, 1, 0x01, 0xE0],
        b"MTrk", &[0, 0, 0, 29],
        &[0x00, 0xFF, 0x51, 0x03, 0x0F, 0x42, 0x40], // tempo 1_000_000 us
        &[0x00, 0x90, 60, 100],
        &[0x83, 0x60, 0x90, 60, 0], // delta 480, note-on vel 0 = off
        &[0x00, 0x90, 62, 100],
        &[0x83, 0x60, 0x80, 62, 0],
        &[0x00, 0xFF, 0x2F, 0x00],
    ].concat();
    let n = load_notes(&bytes).unwrap();
    assert_eq!(n.len(), 2);
    assert_eq!((n[0].key, n[0].start, n[0].end), (60, Moment::At(0), Moment::At(S)));
    assert_eq!((n[1].key, n[1].start, n[1].end), (62, Moment::At(S), Moment::At(2 * S)));
    assert_eq!(key_rect(21, 10 * PX).0, 0);
    assert_eq!(key_rect(108, 10 * PX).0, 510 * PX); // C8 is the 52nd white key

    // Clicking the menu keyboard: black keys sit on top of the white ones.
    let l = layout(1560, 800);
    let at = |k: u8, dx: i64, y: i64| key_at(&l, l.x0 + key_rect(k, l.ww).0 + dx, y);
    assert_eq!(at(61, 2 * PX, l.kb_y + 5 * PX), Some(61)); // C#4 near the back
    assert_eq!(at(60, l.ww - 2 * PX, l.kb_y + 5 * PX), Some(61)); // right edge of C4 at the back is under C#4
    assert_eq!(at(60, l.ww - 2 * PX, l.kb_y + l.kb_h - 3 * PX), Some(60)); // same x at the front is C4
    assert_eq!(at(60, 2 * PX, l.bar_y - 5 * PX), None); // above the keyboard
}

#[test]
fn without_a_tempo_a_beat_takes_half_a_second() {
    let bytes = file([0x01, 0xE0], &[&[0x00, 0x90, 60, 100, 0x83, 0x60, 0x80, 60, 0]]);
    assert_eq!(load_notes(&bytes).unwrap(), vec![note(0, S / 2, 60)]);
}

#[test]
fn a_tempo_on_one_track_rules_the_others() {
    let bytes = file(
        [0x01, 0xE0],
        &[
            &[0x83, 0x60, 0xFF, 0x51, 0x03, 0x0F, 0x42, 0x40], // 1 s/beat from the second beat on
            &[0x00, 0x91, 60, 100, 0x87, 0x40, 0x81, 60, 0],   // two beats
        ],
    );
    assert_eq!(load_notes(&bytes).unwrap(), vec![note(0, S / 2 + S, 60)]);
}

#[test]
fn times_keep_what_a_tick_leaves_over() {
    // Three ticks a beat at half a second: a tick is a sixth of a second.
    let base = time_base(Timing::Metrical(3));
    let events = vec![
        at(0, Event::NoteOn(0, 1, 1)),
        at(1, Event::NoteOff(0, 1)),
        at(1, Event::NoteOn(0, 2, 1)),
        at(2, Event::NoteOff(0, 2)),
        at(2, Event::NoteOn(0, 3, 1)),
        at(3, Event::NoteOff(0, 3)),
    ];
    assert_eq!(
        notes_of(&events, base),
        vec![note(0, 166_666_666, 1), note(166_666_666, 333_333_333, 2), note(333_333_333, S / 2, 3)]
    );
}

#[test]
fn timecode_counts_frames() {
    // 25 frames of 40 ticks: 1000 ticks a second. Tempo has no say.
    let base = time_base(Timing::Timecode(25, 40));
    let events = vec![
        at(0, Event::Tempo(1)),
        at(0, Event::NoteOn(0, 5, 1)),
        at(1500, Event::NoteOff(0, 5)),
    ];
    assert_eq!(notes_of(&events, base), vec![note(0, 1_500_000_000, 5)]);
    // 29 stands for 30000 frames in 1001 seconds.
    let base = time_base(Timing::Timecode(29, 100));
    let events = vec![at(0, Event::NoteOn(0, 5, 1)), at(3000, Event::NoteOff(0, 5))];
    assert_eq!(notes_of(&events, base), vec![note(0, 1_001_000_000, 5)]);
}

#[test]
fn beats_without_ticks_never_come() {
    let base = time_base(Timing::Metrical(0));
    let times = |on: u64, off: u64| {
        let n = notes_of(&vec![at(on, Event::NoteOn(0, 5, 1)), at(off, Event::NoteOff(0, 5))], base);
        (n[0].start, n[0].end)
    };
    assert_eq!(times(1, 7), (Moment::Never, Moment::Never));
    // No ticks of endless length have no length at all.
    assert_eq!(times(0, 7), (Moment::Undefined, Moment::Undefined));
    assert_eq!(times(1, 1), (Moment::Never, Moment::Undefined));
}

#[test]
fn a_second_strike_ends_the_first() {
    let base = time_base(Timing::Metrical(1));
    let events = vec![
        at(0, Event::NoteOn(3, 60, 1)),
        at(2, Event::NoteOn(3, 60, 1)),
        at(4, Event::NoteOn(3, 60, 0)),
        at(6, Event::NoteOff(3, 60)),
    ];
    assert_eq!(notes_of(&events, base), vec![note(0, S, 60), note(S, 2 * S, 60)]);
}

#[test]
fn channels_do_not_end_each_others_notes() {
    let base = time_base(Timing::Metrical(1));
    let events = vec![
        at(0, Event::NoteOn(0, 60, 1)),
        at(2, Event::NoteOff(1, 60)),
        at(4, Event::NoteOff(0, 60)),
    ];
    assert_eq!(notes_of(&events, base), vec![note(0, 2 * S, 60)]);
}

#[test]
fn notes_that_never_end_do_not_show() {
    let base = time_base(Timing::Metrical(1));
    assert!(notes_of(&vec![at(0, Event::NoteOn(0, 60, 1))], base).is_empty());
}

#[test]
fn events_are_put_in_order_of_their_ticks() {
    let events = vec![
        at(5, Event::Other),
        at(0, Event::Tempo(1)),
        at(5, Event::Tempo(2)),
        at(3, Event::Tempo(3)),
        at(5, Event::Tempo(4)),
        at(0, Event::Tempo(5)),
    ];
    assert_eq!(
        order_events(&events),
        vec![
            at(0, Event::Tempo(1)),
            at(0, Event::Tempo(5)),
            at(3, Event::Tempo(3)),
            at(5, Event::Other),
            at(5, Event::Tempo(2)),
            at(5, Event::Tempo(4)),
        ]
    );
    assert!(order_events(&vec![]).is_empty());
}

#[test]
fn tracks_are_laid_end_to_end() {
    let tracks = vec![
        vec![TrackEvent { delta: 2, event: Event::Other }, TrackEvent { delta: 3, event: Event::Tempo(1) }],
        vec![],
        vec![TrackEvent { delta: 1, event: Event::NoteOff(0, 1) }],
    ];
    assert_eq!(
        lay_end_to_end(&tracks),
        Some(vec![at(2, Event::Other), at(5, Event::Tempo(1)), at(1, Event::NoteOff(0, 1))])
    );
}

#[test]
fn flattened_tracks_share_the_clock() {
    let tracks = vec![
        vec![
            TrackEvent { delta: 0, event: Event::NoteOn(0, 60, 9) },
            TrackEvent { delta: 4, event: Event::NoteOff(0, 60) },
        ],
        vec![TrackEvent { delta: 2, event: Event::Tempo(1_000_000) }],
    ];
    assert_eq!(flatten(Timing::Metrical(2), &tracks), Some(vec![note(0, 3 * S / 2, 60)]));
}

#[test]
fn what_is_no_midi_file_is_refused() {
    assert!(matches!(load_notes(b""), Err(LoadError::Midi(_))));
    assert!(matches!(load_notes(b"RIFF and then nothing"), Err(LoadError::Midi(_))));
    for bytes in [&b""[..], b"hello", b"MThd\0\0\0\x06\0\x07\0\x01\0\x01"] {
        match load_notes(bytes) {
            Err(LoadError::Midi(e)) => {
                assert_eq!(e.to_string(), midly::Smf::parse(bytes).unwrap_err().to_string());
            }
            other => panic!("{other:?}"),
        }
    }
}

#[test]
fn a_division_without_a_frame_rate_is_refused() {
    let bytes = file([0x80, 0x28], &[&[]]);
    assert!(matches!(load_notes(&bytes), Err(LoadError::Division)));
    // 25 frames of 40 ticks.
    let bytes = file([0xE7, 0x28], &[&[0x00, 0x90, 60, 100, 0x87, 0x68, 0x80, 60, 0]]);
    assert_eq!(load_notes(&bytes).unwrap(), vec![note(0, S, 60)]);
}

#[test]
fn ordered_events_stay_as_they_are() {
    let events = vec![at(0, Event::Other), at(1, Event::Tempo(1)), at(1, Event::Tempo(2)), at(9, Event::Other)];
    assert_eq!(order_events(&events), events);
}

#[test]
fn velocity_zero_is_a_lift() {
    let base = time_base(Timing::Metrical(4));
    let with = |lift: Event| {
        notes_of(
            &vec![at(1, Event::NoteOn(2, 70, 5)), at(9, lift), at(10, Event::NoteOn(2, 70, 5)), at(11, lift)],
            base,
        )
    };
    let notes = with(Event::NoteOff(2, 70));
    assert_eq!(notes, with(Event::NoteOn(2, 70, 0)));
    assert_eq!(notes, vec![note(S / 8, 9 * S / 8, 70), note(10 * S / 8, 11 * S / 8, 70)]);
}

#[test]
fn the_order_of_tracks_does_not_matter() {
    let e = |delta: u32, event: Event| TrackEvent { delta, event };
    let tempo = vec![e(3, Event::Tempo(1_000_000)), e(1, Event::Other)];
    let high = vec![e(0, Event::NoteOn(0, 80, 1)), e(4, Event::NoteOff(0, 80))];
    let low = vec![e(1, Event::NoteOn(0, 30, 1)), e(3, Event::Other), e(1, Event::NoteOn(0, 30, 0))];
    let orders = [
        vec![tempo.clone(), high.clone(), low.clone()],
        vec![low.clone(), tempo.clone(), high.clone()],
        vec![high, low, tempo],
    ];
    for tracks in &orders {
        assert_eq!(
            flatten(Timing::Metrical(1), tracks),
            Some(vec![note(0, 5 * S / 2, 80), note(S / 2, 7 * S / 2, 30)])
        );
    }
}

#[test]
fn it_does_not_matter_how_finely_a_beat_is_divided() {
    let tracks = |k: u32| {
        let e = |delta: u32, event: Event| TrackEvent { delta: delta * k, event };
        vec![
            vec![e(7, Event::Tempo(999_983)), e(5, Event::Other)],
            vec![e(1, Event::NoteOn(0, 80, 1)), e(4, Event::NoteOn(1, 30, 1)), e(5, Event::NoteOff(0, 80)), e(9, Event::NoteOff(1, 30))],
        ]
    };
    let notes = flatten(Timing::Metrical(7), &tracks(1)).unwrap();
    assert_eq!(notes.len(), 2);
    for k in [2, 3, 100] {
        assert_eq!(flatten(Timing::Metrical(7 * k as u16), &tracks(k)).unwrap(), notes);
    }
}

#[test]
fn files_without_notes_give_none() {
    for track in [&[][..], &[0, 0x80, 60, 0], &[0, 0x90, 60, 100], &[0, 0x90, 60, 0]] {
        assert!(load_notes(&file([0, 96], &[track])).unwrap().is_empty());
    }
    assert!(load_notes(&file([0, 96], &[])).unwrap().is_empty());
}
