//! From a link, a search or a file to a title and MIDI bytes: what to do next, given what came of
//! the step before.
use crate::text::{
    ends_with, first_line_comes_off, last_line, lines, lines_of, starts_with, texts, trim, trimmed,
};
use vstd::prelude::*;
use vstd::string::*;

verus! {

/// What a transcription runs on.
#[derive(Clone, Copy, Debug, PartialEq, Eq, Structural)]
pub enum Device {
    Cuda,
    Cpu,
}

/// The step to take next. `audio` is the path of the downloaded audio; its MIDI lies beside it.
#[derive(Debug)]
pub enum Stage {
    /// Read a MIDI file of the user's.
    ReadFile { path: String },
    /// Download the audio of `target`.
    Download { query: String, target: String },
    /// See whether the audio has been transcribed before.
    Lookup { title: String, audio: String },
    /// Transcribe the audio.
    Transcribe { title: String, audio: String, device: Device },
    /// Make sure the sound font is loaded.
    LoadFont { title: String, audio: String },
    /// Read the transcription.
    ReadMidi { title: String, audio: String },
    /// Done: play this.
    Done { title: String, bytes: Vec<u8> },
    /// Give up, and say why.
    Failed { message: String },
}

/// What came of a step.
#[derive(Debug)]
pub enum Outcome {
    /// It failed, for this reason.
    Failed(String),
    /// A command succeeded and printed this.
    Printed(String),
    /// Whether the transcription is there.
    Found(bool),
    /// It succeeded.
    Succeeded,
    /// These bytes were read.
    Bytes(Vec<u8>),
}

/// A stage, with texts as sequences of characters.
pub enum StageView {
    ReadFile { path: Seq<char> },
    Download { query: Seq<char>, target: Seq<char> },
    Lookup { title: Seq<char>, audio: Seq<char> },
    Transcribe { title: Seq<char>, audio: Seq<char>, device: Device },
    LoadFont { title: Seq<char>, audio: Seq<char> },
    ReadMidi { title: Seq<char>, audio: Seq<char> },
    Done { title: Seq<char>, bytes: Seq<u8> },
    Failed { message: Seq<char> },
}

/// An outcome, with texts as sequences of characters.
pub enum OutcomeView {
    Failed(Seq<char>),
    Printed(Seq<char>),
    Found(bool),
    Succeeded,
    Bytes(Seq<u8>),
}

impl View for Stage {
    type V = StageView;

    open spec fn view(&self) -> StageView {
        match *self {
            Stage::ReadFile { path } => StageView::ReadFile { path: path@ },
            Stage::Download { query, target } => StageView::Download {
                query: query@,
                target: target@,
            },
            Stage::Lookup { title, audio } => StageView::Lookup { title: title@, audio: audio@ },
            Stage::Transcribe { title, audio, device } => StageView::Transcribe {
                title: title@,
                audio: audio@,
                device,
            },
            Stage::LoadFont { title, audio } => StageView::LoadFont {
                title: title@,
                audio: audio@,
            },
            Stage::ReadMidi { title, audio } => StageView::ReadMidi {
                title: title@,
                audio: audio@,
            },
            Stage::Done { title, bytes } => StageView::Done { title: title@, bytes: bytes@ },
            Stage::Failed { message } => StageView::Failed { message: message@ },
        }
    }
}

impl View for Outcome {
    type V = OutcomeView;

    open spec fn view(&self) -> OutcomeView {
        match *self {
            Outcome::Failed(message) => OutcomeView::Failed(message@),
            Outcome::Printed(text) => OutcomeView::Printed(text@),
            Outcome::Found(found) => OutcomeView::Found(found),
            Outcome::Succeeded => OutcomeView::Succeeded,
            Outcome::Bytes(bytes) => OutcomeView::Bytes(bytes@),
        }
    }
}

/// What to download for a query: the link itself, or the first result of a search.
pub open spec fn target_of(query: Seq<char>) -> Seq<char> {
    if "http"@.is_prefix_of(query) {
        query
    } else {
        "ytsearch1:"@ + query
    }
}

/// The first step for a query: a MIDI file is read, anything else is downloaded.
pub open spec fn first_stage(query: Seq<char>) -> StageView {
    if ".mid"@.is_suffix_of(query) {
        StageView::ReadFile { path: query }
    } else {
        StageView::Download { query, target: target_of(query) }
    }
}

/// Whether a stage can have this outcome.
pub open spec fn can_have(stage: StageView, outcome: OutcomeView) -> bool {
    match stage {
        StageView::ReadFile { .. } | StageView::ReadMidi { .. } => outcome is Failed
            || outcome is Bytes,
        StageView::Download { .. } => outcome is Failed || outcome is Printed,
        StageView::Lookup { .. } => outcome is Found,
        StageView::Transcribe { .. } | StageView::LoadFont { .. } => outcome is Failed
            || outcome is Succeeded,
        StageView::Done { .. } | StageView::Failed { .. } => false,
    }
}

/// What to make of the text that the download printed: its last line is the path of the audio,
/// the line before it the title. Without a title the query stands for it.
pub open spec fn after_download(query: Seq<char>, printed: Seq<char>) -> StageView {
    let l = lines_of(printed);
    if l.len() == 0 {
        StageView::Failed { message: "yt-dlp printed no file path"@ }
    } else {
        StageView::Lookup {
            title: if l.len() >= 2 {
                l[l.len() - 2]
            } else {
                query
            },
            audio: l.last(),
        }
    }
}

/// The step that follows a stage, given its outcome.
pub open spec fn next_stage(stage: StageView, outcome: OutcomeView) -> StageView {
    match (stage, outcome) {
        (
            StageView::Transcribe { title, audio, device: Device::Cuda },
            OutcomeView::Failed(_),
        ) => StageView::Transcribe { title, audio, device: Device::Cpu },
        (_, OutcomeView::Failed(message)) => StageView::Failed { message },
        (StageView::ReadFile { path }, OutcomeView::Bytes(bytes)) => StageView::Done {
            title: path,
            bytes,
        },
        (StageView::Download { query, .. }, OutcomeView::Printed(text)) => after_download(
            query,
            text,
        ),
        (StageView::Lookup { title, audio }, OutcomeView::Found(found)) => if found {
            StageView::LoadFont { title, audio }
        } else {
            StageView::Transcribe { title, audio, device: Device::Cuda }
        },
        (
            StageView::Transcribe { title, audio, .. },
            OutcomeView::Succeeded,
        ) => StageView::LoadFont { title, audio },
        (StageView::LoadFont { title, audio }, OutcomeView::Succeeded) => StageView::ReadMidi {
            title,
            audio,
        },
        (StageView::ReadMidi { title, .. }, OutcomeView::Bytes(bytes)) => StageView::Done {
            title,
            bytes,
        },
        _ => stage,
    }
}

/// The first step for a query.
pub fn begin(query: &str) -> (stage: Stage)
    ensures
        stage@ == first_stage(query@),
{
    if ends_with(query, ".mid") {
        return Stage::ReadFile { path: query.to_string() };
    }
    let target = if starts_with(query, "http") {
        query.to_string()
    } else {
        let mut t = "ytsearch1:".to_string();
        t.append(query);
        t
    };
    Stage::Download { query: query.to_string(), target }
}

fn read_download(query: String, text: &str) -> (stage: Stage)
    ensures
        stage@ == after_download(query@, text@),
{
    let l = lines(text);
    let n = l.len();
    assert(texts(l@).len() == n);
    if n == 0 {
        return Stage::Failed { message: "yt-dlp printed no file path".to_string() };
    }
    assert(texts(l@)[n - 1] == l@[n - 1]@);
    let audio = l[n - 1].clone();
    let title = if n >= 2 {
        assert(texts(l@)[n - 2] == l@[n - 2]@);
        l[n - 2].clone()
    } else {
        query
    };
    Stage::Lookup { title, audio }
}

/// The step that follows.
pub fn advance(stage: Stage, outcome: Outcome) -> (next: Stage)
    requires
        can_have(stage@, outcome@),
    ensures
        next@ == next_stage(stage@, outcome@),
{
    match (stage, outcome) {
        (Stage::Transcribe { title, audio, device: Device::Cuda }, Outcome::Failed(_)) => {
            Stage::Transcribe { title, audio, device: Device::Cpu }
        },
        (_, Outcome::Failed(message)) => Stage::Failed { message },
        (Stage::ReadFile { path }, Outcome::Bytes(bytes)) => Stage::Done { title: path, bytes },
        (Stage::Download { query, target: _ }, Outcome::Printed(text)) => read_download(
            query,
            text.as_str(),
        ),
        (Stage::Lookup { title, audio }, Outcome::Found(found)) => if found {
            Stage::LoadFont { title, audio }
        } else {
            Stage::Transcribe { title, audio, device: Device::Cuda }
        },
        (Stage::Transcribe { title, audio, device: _ }, Outcome::Succeeded) => Stage::LoadFont {
            title,
            audio,
        },
        (Stage::LoadFont { title, audio }, Outcome::Succeeded) => Stage::ReadMidi { title, audio },
        (Stage::ReadMidi { title, audio: _ }, Outcome::Bytes(bytes)) => Stage::Done {
            title,
            bytes,
        },
        (stage, _) => stage,
    }
}

/// What the user is told while a stage lasts, where it is news.
pub open spec fn status_of(stage: StageView) -> Option<Seq<char>> {
    match stage {
        StageView::Download { .. } => Some("Downloading audio..."@),
        StageView::Transcribe { title, device: Device::Cuda, .. } => Some(
            "Transcribing \""@ + title + "\" on GPU..."@,
        ),
        StageView::Transcribe { title, device: Device::Cpu, .. } => Some(
            "GPU failed, transcribing \""@ + title + "\" on CPU (slow)..."@,
        ),
        StageView::LoadFont { .. } => Some("Loading soundfont..."@),
        _ => None,
    }
}

/// What to tell the user while a stage lasts; `None` to leave the last message standing.
pub fn status(stage: &Stage) -> (s: Option<String>)
    ensures
        match s {
            Some(text) => status_of(stage@) == Some(text@),
            None => status_of(stage@) is None,
        },
{
    match stage {
        Stage::Download { query: _, target: _ } => Some("Downloading audio...".to_string()),
        Stage::Transcribe { title, audio: _, device } => {
            let (before, after) = match device {
                Device::Cuda => ("Transcribing \"", "\" on GPU..."),
                Device::Cpu => ("GPU failed, transcribing \"", "\" on CPU (slow)..."),
            };
            let mut s = before.to_string();
            s.append(title.as_str());
            s.append(after);
            Some(s)
        },
        Stage::LoadFont { title: _, audio: _ } => Some("Loading soundfont...".to_string()),
        _ => None,
    }
}

/// The texts of a list of literals.
fn owned(list: &[&str]) -> (r: Vec<String>)
    ensures
        texts(r@) == list@.map_values(|s: &str| s@),
{
    let mut r: Vec<String> = Vec::new();
    let mut i: usize = 0;
    while i < list.len()
        invariant
            i <= list.len(),
            r.len() == i,
            forall|j: int| 0 <= j < i ==> #[trigger] r[j]@ == list@[j]@,
        decreases list.len() - i,
    {
        r.push(list[i].to_string());
        i += 1;
    }
    assert(texts(r@) =~= list@.map_values(|s: &str| s@));
    r
}

/// What yt-dlp is told ahead of the path and the target: fetch one piece as MP3, and print its
/// title and then its path.
pub open spec fn told_to_download() -> Seq<Seq<char>> {
    seq![
        "-x"@,
        "--audio-format"@,
        "mp3"@,
        "--no-playlist"@,
        "--no-simulate"@,
        "--encoding"@,
        "utf-8"@,
        "--print"@,
        "after_move:title"@,
        "--print"@,
        "after_move:filepath"@,
        "-o"@,
    ]
}

/// What yt-dlp is told ahead of the path and the target.
pub fn download_flags() -> (r: Vec<String>)
    ensures
        texts(r@) == told_to_download(),
{
    let r = owned(
        &[
            "-x",
            "--audio-format",
            "mp3",
            "--no-playlist",
            "--no-simulate",
            "--encoding",
            "utf-8",
            "--print",
            "after_move:title",
            "--print",
            "after_move:filepath",
            "-o",
        ],
    );
    assert(texts(r@) =~= told_to_download());
    r
}

/// What Python is told ahead of the paths of the audio and of the transcription.
pub open spec fn told_to_transcribe(device: Device) -> Seq<Seq<char>> {
    seq![
        "-m"@,
        "transkun.transcribe"@,
        "--device"@,
        match device {
            Device::Cuda => "cuda"@,
            Device::Cpu => "cpu"@,
        },
    ]
}

/// What Python is told ahead of the paths of the audio and of the transcription.
pub fn transcription_flags(device: Device) -> (r: Vec<String>)
    ensures
        texts(r@) == told_to_transcribe(device),
{
    let name = match device {
        Device::Cuda => "cuda",
        Device::Cpu => "cpu",
    };
    let r = owned(&["-m", "transkun.transcribe", "--device", name]);
    assert(texts(r@) =~= told_to_transcribe(device));
    r
}

/// What a command that has run comes to: what it printed, trimmed, or the reason to give for its
/// failure.
pub fn command_result(command: &str, success: bool, printed: &str, errors: &str) -> (r: Result<
    String,
    String,
>)
    ensures
        match r {
            Ok(text) => success && text@ == trimmed(printed@),
            Err(message) => !success && message@ == command@ + " failed:\n"@ + errors@,
        },
{
    if success {
        Ok(trim(printed))
    } else {
        let mut message = command.to_string();
        message.append(" failed:\n");
        message.append(errors);
        Err(message)
    }
}

/// Steps that can still follow a stage.
pub open spec fn steps_left(stage: StageView) -> nat {
    match stage {
        StageView::Download { .. } => 6,
        StageView::Lookup { .. } => 5,
        StageView::Transcribe { device: Device::Cuda, .. } => 4,
        StageView::Transcribe { device: Device::Cpu, .. } => 3,
        StageView::LoadFont { .. } => 2,
        StageView::ReadMidi { .. } | StageView::ReadFile { .. } => 1,
        StageView::Done { .. } | StageView::Failed { .. } => 0,
    }
}

/// The stage reached from `stage` by a run of outcomes.
pub open spec fn reached(stage: StageView, outcomes: Seq<OutcomeView>) -> StageView
    decreases outcomes.len(),
{
    if outcomes.len() == 0 {
        stage
    } else {
        next_stage(reached(stage, outcomes.drop_last()), outcomes.last())
    }
}

/// Whether every outcome is one that the stage it meets can have.
pub open spec fn can_run(stage: StageView, outcomes: Seq<OutcomeView>) -> bool
    decreases outcomes.len(),
{
    outcomes.len() == 0 || (can_run(stage, outcomes.drop_last()) && can_have(
        reached(stage, outcomes.drop_last()),
        outcomes.last(),
    ))
}

/// Law: every step brings the end nearer, so no job takes more than six, and no stage comes back.
pub proof fn jobs_end(stage: StageView, outcomes: Seq<OutcomeView>)
    requires
        can_run(stage, outcomes),
    ensures
        steps_left(reached(stage, outcomes)) + outcomes.len() <= steps_left(stage),
        outcomes.len() <= 6,
    decreases outcomes.len(),
{
    if outcomes.len() > 0 {
        jobs_end(stage, outcomes.drop_last());
    }
}

/// Law: a piece that was transcribed before is not transcribed again.
pub proof fn cached_pieces_are_not_transcribed(
    title: Seq<char>,
    audio: Seq<char>,
    outcomes: Seq<OutcomeView>,
)
    requires
        can_run(StageView::Lookup { title, audio }, seq![OutcomeView::Found(true)] + outcomes),
    ensures
        !(reached(StageView::Lookup { title, audio }, seq![OutcomeView::Found(true)] + outcomes)
            is Transcribe),
    decreases outcomes.len(),
{
    let stage = StageView::Lookup { title, audio };
    let all = seq![OutcomeView::Found(true)] + outcomes;
    if outcomes.len() == 0 {
        assert(all.drop_last() =~= Seq::<OutcomeView>::empty());
        reveal_with_fuel(reached, 2);
    } else {
        assert(all.drop_last() =~= seq![OutcomeView::Found(true)] + outcomes.drop_last());
        cached_pieces_are_not_transcribed(title, audio, outcomes.drop_last());
        found_piece_past_lookup(title, audio, outcomes.drop_last());
    }
}

proof fn found_piece_past_lookup(
    title: Seq<char>,
    audio: Seq<char>,
    outcomes: Seq<OutcomeView>,
)
    requires
        can_run(StageView::Lookup { title, audio }, seq![OutcomeView::Found(true)] + outcomes),
    ensures
        steps_left(
            reached(StageView::Lookup { title, audio }, seq![OutcomeView::Found(true)] + outcomes),
        ) <= 2,
    decreases outcomes.len(),
{
    let stage = StageView::Lookup { title, audio };
    let all = seq![OutcomeView::Found(true)] + outcomes;
    if outcomes.len() == 0 {
        assert(all.drop_last() =~= Seq::<OutcomeView>::empty());
        reveal_with_fuel(reached, 2);
    } else {
        assert(all.drop_last() =~= seq![OutcomeView::Found(true)] + outcomes.drop_last());
        found_piece_past_lookup(title, audio, outcomes.drop_last());
    }
}

/// Law: the CPU is tried exactly when the GPU failed, the GPU exactly when there is no
/// transcription yet.
pub proof fn gpu_first_then_cpu(stage: StageView, outcome: OutcomeView)
    requires
        can_have(stage, outcome),
    ensures
        next_stage(stage, outcome) matches StageView::Transcribe { device: Device::Cpu, .. } <==> (
        stage matches StageView::Transcribe { device: Device::Cuda, .. } && outcome is Failed),
        next_stage(stage, outcome) matches StageView::Transcribe { device: Device::Cuda, .. } <==> (
        stage is Lookup && outcome == OutcomeView::Found(false)),
{
}

/// Law: a failure ends the job with the reason that was given, except that of the GPU.
pub proof fn failures_are_reported(stage: StageView, reason: Seq<char>)
    requires
        can_have(stage, OutcomeView::Failed(reason)),
        !(stage matches StageView::Transcribe { device: Device::Cuda, .. }),
    ensures
        next_stage(stage, OutcomeView::Failed(reason)) == (StageView::Failed { message: reason }),
{
}

/// The title of a job, once it is known.
pub open spec fn title_of(stage: StageView) -> Option<Seq<char>> {
    match stage {
        StageView::ReadFile { path } => Some(path),
        StageView::Lookup { title, .. } => Some(title),
        StageView::Transcribe { title, .. } => Some(title),
        StageView::LoadFont { title, .. } => Some(title),
        StageView::ReadMidi { title, .. } => Some(title),
        StageView::Done { title, .. } => Some(title),
        _ => None,
    }
}

/// Law: once a job has a title it keeps it.
pub proof fn titles_stay(stage: StageView, outcome: OutcomeView)
    requires
        can_have(stage, outcome),
        title_of(stage) is Some,
    ensures
        next_stage(stage, outcome) is Failed || title_of(next_stage(stage, outcome)) == title_of(
            stage,
        ),
{
}

/// The path of the audio of a job, once it is known.
pub open spec fn audio_of(stage: StageView) -> Option<Seq<char>> {
    match stage {
        StageView::Lookup { audio, .. } => Some(audio),
        StageView::Transcribe { audio, .. } => Some(audio),
        StageView::LoadFont { audio, .. } => Some(audio),
        StageView::ReadMidi { audio, .. } => Some(audio),
        _ => None,
    }
}

/// Law: once a job has the path of its audio it keeps it, until it is done or has failed.
pub proof fn audio_stays(stage: StageView, outcome: OutcomeView)
    requires
        can_have(stage, outcome),
        audio_of(stage) is Some,
    ensures
        next_stage(stage, outcome) is Failed || next_stage(stage, outcome) is Done || audio_of(
            next_stage(stage, outcome),
        ) == audio_of(stage),
{
}

/// Law: every step has its one successor. What is downloaded is looked up; what is found, or
/// transcribed on either device, goes on to the sound font, and then is read; and a job is done
/// exactly when bytes are read, with those bytes.
pub proof fn jobs_go_step_by_step(stage: StageView, outcome: OutcomeView)
    requires
        can_have(stage, outcome),
    ensures
        next_stage(stage, outcome) is LoadFont <==> (stage is Lookup && outcome
            == OutcomeView::Found(true)) || (stage is Transcribe && outcome is Succeeded),
        next_stage(stage, outcome) is ReadMidi <==> stage is LoadFont && outcome is Succeeded,
        next_stage(stage, outcome) is Lookup ==> stage is Download && outcome is Printed,
        next_stage(stage, outcome) is Done <==> outcome is Bytes,
        forall|bytes: Seq<u8>|
            outcome == OutcomeView::Bytes(bytes) ==> #[trigger] ends_with_bytes(
                next_stage(stage, outcome),
                bytes,
            ),
        !(next_stage(stage, outcome) is ReadFile),
        !(next_stage(stage, outcome) is Download),
        next_stage(stage, outcome) is Failed ==> outcome is Failed || stage is Download,
{
}

/// Whether a job is done with these bytes.
pub open spec fn ends_with_bytes(stage: StageView, bytes: Seq<u8>) -> bool {
    stage matches StageView::Done { bytes: b, .. } && b == bytes
}

/// Law: a query that ends in `.mid` is the path of a file to read; any other is downloaded: as it
/// is where it starts with `http`, and otherwise as the first result of a search for it.
pub proof fn queries_are_files_links_or_searches(query: Seq<char>)
    ensures
        ({
            let n = query.len() as int;
            let file = n >= 4 && query[n - 4] == '.' && query[n - 3] == 'm' && query[n - 2] == 'i'
                && query[n - 1] == 'd';
            let link = n >= 4 && query[0] == 'h' && query[1] == 't' && query[2] == 't' && query[3]
                == 'p';
            let search = seq!['y', 't', 's', 'e', 'a', 'r', 'c', 'h', '1', ':'];
            first_stage(query) == if file {
                StageView::ReadFile { path: query }
            } else {
                StageView::Download {
                    query,
                    target: if link {
                        query
                    } else {
                        search + query
                    },
                }
            }
        }),
{
    reveal_strlit(".mid");
    reveal_strlit("http");
    reveal_strlit("ytsearch1:");
    let n = query.len() as int;
    let (m, h) = (".mid"@, "http"@);
    if n >= 4 {
        let (tail, head) = (query.subrange(n - 4, n), query.subrange(0, 4));
        assert(tail[0] == query[n - 4] && tail[1] == query[n - 3] && tail[2] == query[n - 2]
            && tail[3] == query[n - 1]);
        if tail[0] == '.' && tail[1] == 'm' && tail[2] == 'i' && tail[3] == 'd' {
            assert(tail =~= m);
        }
        if head[0] == 'h' && head[1] == 't' && head[2] == 't' && head[3] == 'p' {
            assert(head =~= h);
        }
    }
    assert("ytsearch1:"@ =~= seq!['y', 't', 's', 'e', 'a', 'r', 'c', 'h', '1', ':']);
}

/// Law: of what a download prints, the last line is the path of the audio, and the line before it,
/// where there is one, the title; whatever lines come before do not matter.
pub proof fn last_lines_are_title_and_path(
    query: Seq<char>,
    before: Seq<char>,
    title: Seq<char>,
    path: Seq<char>,
)
    requires
        path.len() > 0,
        forall|i: int| 0 <= i < path.len() ==> path[i] != '\n',
        forall|i: int| 0 <= i < title.len() ==> title[i] != '\n',
        title.len() > 0 ==> title[title.len() - 1] != '\r',
    ensures
        after_download(query, path) == (StageView::Lookup { title: query, audio: path }),
        after_download(query, title + seq!['\n'] + path) == (StageView::Lookup {
            title,
            audio: path,
        }),
        after_download(query, before + seq!['\n'] + (title + seq!['\n'] + path)) == (
        StageView::Lookup { title, audio: path }),
        after_download(query, Seq::empty()) is Failed,
{
    last_line(path);
    last_line(Seq::empty());
    first_line_comes_off(title, path);
    let two = title + seq!['\n'] + path;
    assert(lines_of(two) =~= seq![title, path]);
    lines_behind(before, two);
}

/// Lines in front leave those behind as they are.
proof fn lines_behind(before: Seq<char>, rest: Seq<char>)
    ensures
        ({
            let all = lines_of(before + seq!['\n'] + rest);
            let n = lines_of(rest).len();
            all.len() >= n && all.subrange(all.len() - n, all.len() as int) =~= lines_of(rest)
        }),
    decreases before.len(),
{
    let s = before + seq!['\n'] + rest;
    if forall|i: int| 0 <= i < before.len() ==> before[i] != '\n' {
        first_line_comes_off(before, rest);
    } else {
        let k = first_feed(before);
        let (line, more) = (before.subrange(0, k), before.subrange(k + 1, before.len() as int));
        let tail = more + seq!['\n'] + rest;
        assert(s =~= line + seq!['\n'] + tail);
        first_line_comes_off(line, tail);
        lines_behind(more, rest);
        let (all, some, n) = (lines_of(s), lines_of(tail), lines_of(rest).len());
        assert(all.subrange(all.len() - n, all.len() as int) =~= some.subrange(
            some.len() - n,
            some.len() as int,
        ));
    }
}

proof fn first_feed(s: Seq<char>) -> (k: int)
    requires
        exists|i: int| 0 <= i < s.len() && s[i] == '\n',
    ensures
        0 <= k < s.len(),
        s[k] == '\n',
        forall|i: int| 0 <= i < k ==> s[i] != '\n',
    decreases s.len(),
{
    if s[0] == '\n' {
        0
    } else {
        let t = s.subrange(1, s.len() as int);
        let w = choose|i: int| 0 <= i < s.len() && s[i] == '\n';
        assert(t[w - 1] == '\n');
        let k = first_feed(t);
        assert forall|i: int| 0 <= i < k + 1 implies s[i] != '\n' by {
            if i > 0 {
                assert(t[i - 1] == s[i]);
            }
        }
        k + 1
    }
}

/// Law: the user is told of every download, transcription and loading, and of nothing else; of a
/// transcription, with its title in full and what it runs on.
pub proof fn the_user_is_told(stage: StageView)
    ensures
        status_of(stage) is Some <==> stage is Download || stage is Transcribe || stage is LoadFont,
        match stage {
            StageView::Transcribe { title, device, .. } => {
                let text = status_of(stage)->0;
                let (head, tail) = match device {
                    Device::Cuda => ("Transcribing \""@, "\" on GPU..."@),
                    Device::Cpu => (
                        "GPU failed, transcribing \""@,
                        "\" on CPU (slow)..."@,
                    ),
                };
                let (n, m) = (head.len() as int, title.len() as int);
                &&& text.len() == n + m + tail.len()
                &&& text.subrange(0, n) == head
                &&& text.subrange(n, n + m) == title
                &&& text.subrange(n + m, text.len() as int) == tail
            },
            StageView::Download { .. } => status_of(stage)->0 == "Downloading audio..."@,
            StageView::LoadFont { .. } => status_of(stage)->0 == "Loading soundfont..."@,
            _ => true,
        },
{
    if let StageView::Transcribe { title, device, .. } = stage {
        let text = status_of(stage)->0;
        let (head, tail) = match device {
            Device::Cuda => ("Transcribing \""@, "\" on GPU..."@),
            Device::Cpu => ("GPU failed, transcribing \""@, "\" on CPU (slow)..."@),
        };
        let (n, m) = (head.len() as int, title.len() as int);
        assert(text.subrange(0, n) =~= head);
        assert(text.subrange(n, n + m) =~= title);
        assert(text.subrange(n + m, text.len() as int) =~= tail);
    }
}

/// Law: a download that printed nothing has failed, and says so; any other is looked up under the
/// last line that it printed, with the line before it as the title, or the query where it printed
/// but one.
pub proof fn downloads_are_looked_up_by_their_lines(query: Seq<char>, printed: Seq<char>)
    ensures
        ({
            let l = lines_of(printed);
            let n = l.len() as int;
            match after_download(query, printed) {
                StageView::Failed { message } => n == 0 && message
                    == "yt-dlp printed no file path"@,
                StageView::Lookup { title, audio } => {
                    &&& n >= 1
                    &&& audio == l[n - 1]
                    &&& n == 1 ==> title == query
                    &&& n >= 2 ==> title == l[n - 2]
                },
                _ => false,
            }
        }),
        after_download(query, printed) is Failed <==> printed.len() == 0,
{
}

/// Law: every step that does something can fail but for looking up, and can succeed in its own way;
/// nothing comes after the end of a job.
pub proof fn steps_have_their_outcomes(stage: StageView, outcome: OutcomeView)
    ensures
        outcome is Failed ==> (can_have(stage, outcome) <==> !(stage is Lookup || stage is Done
            || stage is Failed)),
        outcome is Printed ==> (can_have(stage, outcome) <==> stage is Download),
        outcome is Found ==> (can_have(stage, outcome) <==> stage is Lookup),
        outcome is Succeeded ==> (can_have(stage, outcome) <==> stage is Transcribe || stage
            is LoadFont),
        outcome is Bytes ==> (can_have(stage, outcome) <==> stage is ReadFile || stage is ReadMidi),
{
}

/// Law: what a download printed is what decides the step behind it.
pub proof fn printed_text_decides(query: Seq<char>, target: Seq<char>, printed: Seq<char>)
    ensures
        next_stage(StageView::Download { query, target }, OutcomeView::Printed(printed))
            == after_download(query, printed),
{
}

/// Law: a download is told what to print and in which order: the title of what it has moved, and
/// behind it the path, so that the last two lines are these. It takes the audio alone, as MP3, of
/// one entry, and ends with the flag that the place to write to follows.
pub proof fn downloads_print_the_title_and_then_the_path()
    ensures
        ({
            let told = told_to_download();
            &&& told.len() == 12
            &&& told[0] == "-x"@ && told[1] == "--audio-format"@ && told[2] == "mp3"@
            &&& told[3] == "--no-playlist"@ && told[4] == "--no-simulate"@
            &&& told[5] == "--encoding"@ && told[6] == "utf-8"@
            &&& told[7] == "--print"@ && told[8] == "after_move:title"@
            &&& told[9] == "--print"@ && told[10] == "after_move:filepath"@
            &&& told[11] == "-o"@
        }),
{
}

/// Law: a transcription is told which device to run on, by a name that no other device has, and
/// apart from that the same for each.
pub proof fn transcriptions_name_their_device(a: Device, b: Device)
    ensures
        ({
            let told = told_to_transcribe(a);
            &&& told.len() == 4
            &&& told[0] == "-m"@ && told[1] == "transkun.transcribe"@ && told[2] == "--device"@
            &&& a == Device::Cuda ==> told[3] == "cuda"@
            &&& a == Device::Cpu ==> told[3] == "cpu"@
            &&& told == told_to_transcribe(b) <==> a == b
        }),
{
    reveal_strlit("cuda");
    reveal_strlit("cpu");
    if a != b {
        assert(told_to_transcribe(a)[3].len() != told_to_transcribe(b)[3].len());
    }
}

} // verus!
