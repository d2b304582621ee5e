use std::sync::Arc;
use rustysynth::SoundFont;
use ytplay::audio::{frames_in, lay_frames};
use ytplay::piano::{roll_synthesizer, LivePiano, LIVE_POLYPHONY};
use ytplay::player::POLYPHONY;
use ytplay::sequencer::{is_unsequenceable, roll_sequencer, RollError};

fn chunk(id: &[u8; 4], body: &[u8]) -> Vec<u8> {
    [&id[..], &(body.len() as u32).to_le_bytes(), body].concat()
}

fn named(name: &str, rest: &[u8]) -> Vec<u8> {
    let mut v = name.as_bytes().to_vec();
    v.resize(20, 0);
    v.extend(rest);
    v
}

/// A sound font with one looped square wave for all keys.
fn font() -> Arc<SoundFont> {
    let wave: Vec<u8> = (0..96u32)
        .flat_map(|i| (if i / 24 % 2 == 0 { 20_000i16 } else { -20_000 }).to_le_bytes())
        .collect();
    let i32s = |v: &[i32]| -> Vec<u8> { v.iter().flat_map(|x| x.to_le_bytes()).collect() };
    let u16s = |v: &[u16]| -> Vec<u8> { v.iter().flat_map(|x| x.to_le_bytes()).collect() };
    let sample = [i32s(&[0, 95, 0, 48, 44_100]), vec![60, 0], u16s(&[0, 1])].concat();
    let preset = |zone: u16| [u16s(&[0, 0, zone]), i32s(&[0, 0, 0])].concat();
    let pdta = [
        b"pdta".to_vec(),
        chunk(b"phdr", &[named("square", &preset(0)), named("EOP", &preset(1))].concat()),
        chunk(b"pbag", &u16s(&[0, 0, 1, 0])),
        chunk(b"pmod", &[0; 10]),
        chunk(b"pgen", &u16s(&[41, 0, 0, 0])), // instrument 0
        chunk(b"inst", &[named("square", &u16s(&[0])), named("EOI", &u16s(&[1]))].concat()),
        chunk(b"ibag", &u16s(&[0, 0, 2, 0])),
        chunk(b"imod", &[0; 10]),
        chunk(b"igen", &u16s(&[54, 1, 53, 0, 0, 0])), // looped, sample 0
        chunk(b"shdr", &[named("square", &sample), named("EOS", &[0; 26])].concat()),
    ]
    .concat();
    let bank = [
        b"sfbk".to_vec(),
        chunk(b"LIST", &[b"INFO".to_vec(), chunk(b"ifil", &u16s(&[2, 1]))].concat()),
        chunk(b"LIST", &[b"sdta".to_vec(), chunk(b"smpl", &wave)].concat()),
        chunk(b"LIST", &pdta),
    ]
    .concat();
    Arc::new(SoundFont::new(&mut &chunk(b"RIFF", &bank)[..]).unwrap())
}

/// The loudest sample of the next `n` frames.
fn peak(p: &mut LivePiano, n: usize) -> f32 {
    let (mut l, mut r) = (vec![0.0; n], vec![0.0; n]);
    p.synth.render(&mut l, &mut r);
    l.iter().chain(&r).fold(0.0, |m, x| x.abs().max(m))
}

#[test]
fn a_held_key_sounds_until_it_is_lifted() {
    let mut p = LivePiano::new(&font(), 44_100).unwrap();
    assert_eq!(p.held, None);
    assert_eq!(peak(&mut p, 4_410), 0.0);
    p.hold(Some(60));
    assert_eq!(p.held, Some(60));
    assert!(peak(&mut p, 4_410) > 0.01);
    p.hold(Some(60));
    assert!(peak(&mut p, 44_100) > 0.01);
    p.hold(None);
    assert_eq!(p.held, None);
    peak(&mut p, 441_000);
    assert!(peak(&mut p, 4_410) < 0.001);
}

#[test]
fn dragging_plays_each_key_in_turn() {
    let mut p = LivePiano::new(&font(), 44_100).unwrap();
    for k in 48..72 {
        p.hold(Some(k));
        assert_eq!(p.held, Some(k));
        assert!(peak(&mut p, 4_410) > 0.01);
    }
    p.hold(None);
    peak(&mut p, 441_000);
    assert!(peak(&mut p, 4_410) < 0.001);
}

#[test]
fn synthesizers_have_the_voices_they_need() {
    let f = font();
    let s = roll_synthesizer(&f, 48_000).unwrap();
    assert_eq!((s.get_sample_rate(), s.get_maximum_polyphony()), (48_000, POLYPHONY));
    let p = LivePiano::new(&f, 44_100).unwrap();
    assert_eq!((p.synth.get_sample_rate(), p.synth.get_maximum_polyphony()), (44_100, LIVE_POLYPHONY));
    assert_eq!((POLYPHONY, LIVE_POLYPHONY), (256, 64));
}

#[test]
fn rates_out_of_range_are_refused() {
    let f = font();
    for rate in [0, 15_999, 192_001, u32::MAX] {
        assert!(roll_synthesizer(&f, rate).is_err());
        assert!(LivePiano::new(&f, rate).is_err());
    }
    for rate in [16_000, 192_000] {
        assert!(roll_synthesizer(&f, rate).is_ok());
        assert!(LivePiano::new(&f, rate).is_ok());
    }
    let e = roll_synthesizer(&f, u32::MAX).unwrap_err();
    assert_eq!(e.0.to_string(), "the sample rate must be between 16000 and 192000, but was -1");
}

#[test]
fn frames_of_a_block() {
    assert_eq!((frames_in(10, 2), frames_in(9, 3)), (5, 3));
    let (l, r) = (vec![1, 2], vec![3, 4]);
    let mut data = [9; 8];
    lay_frames(&mut data, 4, &l, &r, 0, |x| x * 10);
    assert_eq!(data, [10, 30, 0, 0, 20, 40, 0, 0]);
    let mut data = [9; 4];
    lay_frames(&mut data, 2, &l, &r, 0, |x| x * 10);
    assert_eq!(data, [10, 30, 20, 40]);
    let mut data = [9; 2];
    lay_frames(&mut data, 1, &l, &r, 0, |x| x * 10);
    assert_eq!(data, [10, 20]);
    let mut data = [0.0f32; 2];
    lay_frames(&mut data, 2, &vec![0.25], &vec![-0.5], 0.0, |x| x * 2.0);
    assert_eq!(data, [0.5, -1.0]);
}

/// A file with one track of this size, at 100 ticks a beat.
fn midi(size: u32, track: &[u8]) -> Vec<u8> {
    let header = [0, 0, 0, 6, 0, 0, 0, 1, 0, 100];
    [&b"MThd"[..], &header, b"MTrk", &size.to_be_bytes(), track].concat()
}

/// One key held for half a second, and the end of the track.
const NOTE: [u8; 12] = [0, 0x90, 60, 100, 100, 0x80, 60, 0, 0, 0xff, 0x2f, 0];

#[test]
fn the_sequencer_plays_a_piece_from_its_start_once() {
    let mut seq = roll_sequencer(&font(), 48_000, &midi(12, &NOTE)).unwrap();
    let synth = seq.get_synthesizer();
    assert_eq!((synth.get_sample_rate(), synth.get_maximum_polyphony()), (48_000, POLYPHONY));
    assert_eq!(seq.get_position(), 0.0);
    let mut peak = |n: usize| {
        let (mut l, mut r) = (vec![0.0f32; n], vec![0.0; n]);
        seq.render(&mut l, &mut r);
        l.iter().chain(&r).fold(0.0, |m: f32, x| x.abs().max(m))
    };
    assert!(peak(4_800) > 0.01);
    peak(480_000);
    assert!(peak(48_000) < 0.001);
}

#[test]
fn rolls_that_cannot_be_played() {
    let f = font();
    assert!(matches!(roll_sequencer(&f, 8_000, &midi(12, &NOTE)), Err(RollError::Synth(_))));
    assert!(matches!(roll_sequencer(&f, 48_000, b""), Err(RollError::File(_))));
    assert!(matches!(roll_sequencer(&f, 48_000, &midi(12, &NOTE[..7])), Err(RollError::File(_))));
    assert!(matches!(roll_sequencer(&f, 48_000, &midi(0x8000_0000, &NOTE)), Err(RollError::Refused)));
    assert!(matches!(roll_sequencer(&f, 48_000, &midi(0x7fff_ffff, &NOTE)), Err(RollError::File(_))));
}

#[test]
fn ticks_are_counted_in_31_bits() {
    // Eight of the longest pauses fit, the ninth does not.
    let track = |pauses: usize, events: &[u8]| {
        let mut t: Vec<u8> = vec![0, 0x90, 60, 100];
        for _ in 0..pauses {
            t.extend([0xff, 0xff, 0xff, 0x7f]);
            t.extend(events);
        }
        t.extend([0, 0xff, 0x2f, 0]);
        midi(t.len() as u32, &t)
    };
    // A message that keeps the status, a programme, data of the system, a text and a tempo.
    let texts: [&[u8]; 5] =
        [&[60, 0], &[0xc0, 1], &[0xf0, 1, 0xf7], &[0xff, 1, 2, 65, 66], &[0xff, 0x51, 3, 1, 2, 3]];
    for events in texts {
        assert!(!is_unsequenceable(&track(8, events)));
        assert!(is_unsequenceable(&track(9, events)));
        assert!(roll_sequencer(&font(), 48_000, &track(8, events)).is_ok());
    }
    // A tempo of another length ends the reading before the ticks do.
    assert!(!is_unsequenceable(&track(9, &[0xff, 0x51, 2, 1, 2])));
    // The last status after a programme goes with a single byte.
    assert!(is_unsequenceable(&track(9, &[0xc0, 1, 0, 1])));
}
