use ytplay::text::{
    characters, ends_with, is_white, lines, starts_with, trim, trim_final, write_number,
    write_two_figures,
};
use ytplay::transcribe::{
    advance, begin, command_result, download_flags, status, transcription_flags, Device, Outcome,
    Stage,
};

fn text(s: &str) -> String {
    s.to_string()
}

#[test]
fn white_space() {
    for c in (0..=0x10_ffff).filter_map(char::from_u32) {
        assert_eq!(is_white(c), c.is_whitespace(), "{c:?}");
    }
}

#[test]
fn trimming() {
    for s in ["", "  ", "a", " a b\t\n", "\u{3000}Gymnop\u{e9}die\u{a0}"] {
        assert_eq!(trim(s), s.trim());
    }
    for s in ["", "...", "Working...", "a.b", ".a"] {
        assert_eq!(trim_final(s, '.'), s.trim_end_matches('.'));
    }
}

#[test]
fn splitting_into_lines() {
    for s in ["", "\n", "a", "a\n", "a\r\nb", "a\rb\n\nc\r", "\r\n", "x\n\r\n"] {
        assert_eq!(lines(s), s.lines().map(String::from).collect::<Vec<_>>(), "{s:?}");
    }
}

#[test]
fn prefixes_and_suffixes() {
    assert!(starts_with("https://x", "http") && !starts_with("htt", "http") && starts_with("", ""));
    assert!(ends_with("a.mid", ".mid") && !ends_with("mid", ".mid") && !ends_with("a.midi", ".mid"));
    assert_eq!(characters("a\u{e9}"), vec!['a', '\u{e9}']);
}

#[test]
fn figures() {
    let mut s = String::new();
    write_number(&mut s, 0);
    write_number(&mut s, u32::MAX);
    write_two_figures(&mut s, 7);
    assert_eq!(s, "0429496729507");
}

#[test]
fn a_midi_file_is_read_as_it_is() {
    let stage = begin("songs/x.mid");
    assert!(matches!(&stage, Stage::ReadFile { path } if path == "songs/x.mid"));
    assert_eq!(status(&stage), None);
    let done = advance(stage, Outcome::Bytes(vec![1, 2]));
    assert!(matches!(done, Stage::Done { title, bytes } if title == "songs/x.mid" && bytes == [1, 2]));
    let failed = advance(begin("x.mid"), Outcome::Failed(text("gone")));
    assert!(matches!(failed, Stage::Failed { message } if message == "gone"));
}

#[test]
fn links_are_followed_and_words_searched_for() {
    assert!(matches!(begin("https://youtu.be/x"), Stage::Download { target, .. } if target == "https://youtu.be/x"));
    assert!(matches!(
        begin("clair de lune"),
        Stage::Download { query, target } if query == "clair de lune" && target == "ytsearch1:clair de lune"
    ));
    assert_eq!(status(&begin("x")), Some(text("Downloading audio...")));
}

#[test]
fn the_last_lines_are_path_and_title() {
    let lookup = |printed: &str| advance(begin("q"), Outcome::Printed(text(printed)));
    assert!(matches!(
        lookup("WARNING: x\nClair de lune\nC:/a.mp3"),
        Stage::Lookup { title, audio } if title == "Clair de lune" && audio == "C:/a.mp3"
    ));
    assert!(matches!(lookup("C:/a.mp3"), Stage::Lookup { title, .. } if title == "q"));
    assert!(matches!(
        lookup(""),
        Stage::Failed { message } if message == "yt-dlp printed no file path"
    ));
}

fn looked_up(found: bool) -> Stage {
    let stage = advance(begin("q"), Outcome::Printed(text("T\na.mp3")));
    advance(stage, Outcome::Found(found))
}

#[test]
fn a_cached_piece_is_not_transcribed() {
    let stage = looked_up(true);
    assert!(matches!(stage, Stage::LoadFont { .. }));
    assert_eq!(status(&stage), Some(text("Loading soundfont...")));
    let stage = advance(stage, Outcome::Succeeded);
    assert!(matches!(&stage, Stage::ReadMidi { audio, .. } if audio == "a.mp3"));
    let done = advance(stage, Outcome::Bytes(vec![7]));
    assert!(matches!(done, Stage::Done { title, bytes } if title == "T" && bytes == [7]));
}

#[test]
fn the_cpu_stands_in_for_the_gpu() {
    let gpu = looked_up(false);
    assert!(matches!(gpu, Stage::Transcribe { device: Device::Cuda, .. }));
    assert_eq!(status(&gpu), Some(text("Transcribing \"T\" on GPU...")));
    let cpu = advance(gpu, Outcome::Failed(text("no CUDA")));
    assert!(matches!(cpu, Stage::Transcribe { device: Device::Cpu, .. }));
    assert_eq!(status(&cpu), Some(text("GPU failed, transcribing \"T\" on CPU (slow)...")));
    let failed = advance(cpu, Outcome::Failed(text("no torch")));
    assert!(matches!(failed, Stage::Failed { message } if message == "no torch"));
    assert!(matches!(advance(looked_up(false), Outcome::Succeeded), Stage::LoadFont { .. }));
}

#[test]
fn commands() {
    assert_eq!(command_result("x", true, " a\nb \n", ""), Ok(text("a\nb")));
    assert_eq!(command_result("x", false, "a", "bad"), Err(text("x failed:\nbad")));
    assert_eq!(download_flags().join(" "), "-x --audio-format mp3 --no-playlist --no-simulate --encoding utf-8 --print after_move:title --print after_move:filepath -o");
    assert_eq!(transcription_flags(Device::Cuda).join(" "), "-m transkun.transcribe --device cuda");
    assert_eq!(transcription_flags(Device::Cpu).join(" "), "-m transkun.transcribe --device cpu");
}
