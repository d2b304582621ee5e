//! The course of a session: the menu, the wait for a job, the roll, and what leads from one to
//! another.
use crate::chunks::holds_unnegatable_division;
use crate::keyboard::{key_at, key_under, laid_out, Layout};
use crate::midi::{fails_with, load_notes, parsed, piece_notes, too_long, LoadError};
use crate::notes::{showable, Moment, Note};
use crate::panels::{
    end_plan, holds, is_clicked, is_end, is_menu, menu_plan, EndPlan, MenuPlan,
};
use crate::player::{
    clock_face, is_over, keys_up, length_face, longest, roll_length, roll_over, time_label,
};
use crate::score::tracks_in_range;
use crate::text::{
    lines, lines_of, texts, trim, trim_final, trimmed, trimming_cuts_white_space, white,
    without_final,
};
use vstd::prelude::*;
use vstd::string::*;

verus! {

/// The screen that shows.
#[derive(Clone, Copy, Debug, PartialEq, Eq, Structural)]
pub enum Mode {
    Menu,
    Busy,
    Play,
}

/// A session: the screen that shows, the error on the menu's note, and whether the menu's
/// keyboard has its sound.
#[derive(Debug)]
pub struct Session {
    pub mode: Mode,
    pub error: String,
    pub piano_open: bool,
}

/// What happens to a session.
#[derive(Debug)]
pub enum Happening {
    /// The menu's keyboard got its sound.
    PianoOpened,
    /// It did not, for this reason.
    PianoFailed(String),
    /// A job was started.
    JobStarted,
    /// The job goes on.
    JobPending,
    /// The job failed, for this reason.
    JobFailed(String),
    /// The job ended without a word.
    JobCrashed,
    /// A roll was started.
    PlayStarted,
    /// It could not be, for this reason.
    PlayFailed(String),
    /// The user left the roll.
    Left,
}

/// A session, with its error as a sequence of characters.
pub struct SessionView {
    pub mode: Mode,
    pub error: Seq<char>,
    pub piano_open: bool,
}

/// A happening, with reasons as sequences of characters.
pub enum HappeningView {
    PianoOpened,
    PianoFailed(Seq<char>),
    JobStarted,
    JobPending,
    JobFailed(Seq<char>),
    JobCrashed,
    PlayStarted,
    PlayFailed(Seq<char>),
    Left,
}

impl View for Session {
    type V = SessionView;

    open spec fn view(&self) -> SessionView {
        SessionView { mode: self.mode, error: self.error@, piano_open: self.piano_open }
    }
}

impl View for Happening {
    type V = HappeningView;

    open spec fn view(&self) -> HappeningView {
        match *self {
            Happening::PianoOpened => HappeningView::PianoOpened,
            Happening::PianoFailed(reason) => HappeningView::PianoFailed(reason@),
            Happening::JobStarted => HappeningView::JobStarted,
            Happening::JobPending => HappeningView::JobPending,
            Happening::JobFailed(reason) => HappeningView::JobFailed(reason@),
            Happening::JobCrashed => HappeningView::JobCrashed,
            Happening::PlayStarted => HappeningView::PlayStarted,
            Happening::PlayFailed(reason) => HappeningView::PlayFailed(reason@),
            Happening::Left => HappeningView::Left,
        }
    }
}

/// The session that follows. Every change of screen closes the menu's keyboard.
pub open spec fn after(s: SessionView, h: HappeningView) -> SessionView {
    match h {
        HappeningView::PianoOpened => SessionView { piano_open: true, ..s },
        HappeningView::PianoFailed(reason) => SessionView { error: reason, ..s },
        HappeningView::JobStarted => SessionView {
            mode: Mode::Busy,
            error: Seq::empty(),
            piano_open: false,
        },
        HappeningView::JobPending => s,
        HappeningView::JobFailed(reason) => SessionView {
            mode: Mode::Menu,
            error: reason,
            piano_open: false,
        },
        HappeningView::JobCrashed => SessionView {
            mode: Mode::Menu,
            error: "worker thread crashed"@,
            piano_open: false,
        },
        HappeningView::PlayStarted => SessionView { mode: Mode::Play, piano_open: false, ..s },
        HappeningView::PlayFailed(reason) => SessionView {
            mode: Mode::Menu,
            error: reason,
            piano_open: false,
        },
        HappeningView::Left => SessionView { mode: Mode::Menu, piano_open: false, ..s },
    }
}

/// Whether this can happen to the session.
pub open spec fn can_happen(s: SessionView, h: HappeningView) -> bool {
    match h {
        HappeningView::PianoOpened | HappeningView::PianoFailed(_) => s.mode == Mode::Menu
            && !s.piano_open,
        HappeningView::JobStarted => s.mode == Mode::Menu,
        HappeningView::JobPending
        | HappeningView::JobFailed(_)
        | HappeningView::JobCrashed => s.mode == Mode::Busy,
        HappeningView::PlayStarted | HappeningView::PlayFailed(_) => s.mode != Mode::Menu,
        HappeningView::Left => s.mode != Mode::Busy,
    }
}

impl Session {
    /// A session starts on the menu.
    pub fn new() -> (s: Session)
        ensures
            s@ == (SessionView { mode: Mode::Menu, error: Seq::empty(), piano_open: false }),
    {
        Session { mode: Mode::Menu, error: String::new(), piano_open: false }
    }

    /// Notes what has happened.
    pub fn note(&mut self, h: Happening)
        requires
            can_happen(old(self)@, h@),
        ensures
            final(self)@ == after(old(self)@, h@),
    {
        match h {
            Happening::PianoOpened => {
                self.piano_open = true;
            },
            Happening::PianoFailed(reason) => {
                self.error = reason;
            },
            Happening::JobStarted => {
                self.error = String::new();
                self.show(Mode::Busy);
            },
            Happening::JobPending => {},
            Happening::JobFailed(reason) => {
                self.error = reason;
                self.show(Mode::Menu);
            },
            Happening::JobCrashed => {
                self.error = "worker thread crashed".to_string();
                self.show(Mode::Menu);
            },
            Happening::PlayStarted => {
                self.show(Mode::Play);
            },
            Happening::PlayFailed(reason) => {
                self.error = reason;
                self.show(Mode::Menu);
            },
            Happening::Left => {
                self.show(Mode::Menu);
            },
        }
    }

    fn show(&mut self, mode: Mode)
        ensures
            final(self)@ == (SessionView { mode, error: old(self)@.error, piano_open: false }),
    {
        self.mode = mode;
        self.piano_open = false;
    }

    /// The lines of the error that the note has room for.
    pub fn error_lines(&self, max: usize) -> (r: Vec<String>)
        ensures
            texts(r@) == first_lines(self@.error, max as int),
    {
        let mut all = lines(self.error.as_str());
        assert(texts(all@).len() == all@.len());
        if all.len() > max {
            all.truncate(max);
        }
        assert(texts(all@) =~= first_lines(self@.error, max as int));
        all
    }
}

/// The first `max` lines of a text, or all where it has fewer.
pub open spec fn first_lines(text: Seq<char>, max: int) -> Seq<Seq<char>> {
    let l = lines_of(text);
    if l.len() > max {
        l.take(max)
    } else {
        l
    }
}

/// The status of a job as the screen shows it, without the dots at its end.
pub fn shown_status(status: &str) -> (s: String)
    ensures
        s@ == without_final(status@, '.'),
{
    trim_final(status, '.')
}

/// The mouse and the keys in one frame.
#[derive(Clone, Copy, Debug, PartialEq, Eq, Structural)]
pub struct Input {
    /// Where the pointer is.
    pub x: i64,
    pub y: i64,
    /// Whether the mouse button is down, and whether it went down in this frame.
    pub down: bool,
    pub pressed: bool,
    /// Whether these keys went down in this frame.
    pub enter: bool,
    pub escape: bool,
}

/// What the menu does in one frame.
#[derive(Debug)]
pub struct MenuFrame {
    pub plan: MenuPlan,
    /// The key that the mouse plays.
    pub key: Option<u8>,
    /// The same as a list of which keys are down.
    pub keys: Vec<bool>,
    /// Whether the keyboard is to get its sound now.
    pub open_piano: bool,
    /// The query to start a job for.
    pub start: Option<String>,
}

/// The key that the mouse plays: the one under the pointer while the button is down.
pub open spec fn played_key(l: Layout, input: Input) -> Option<u8> {
    if input.down {
        key_under(l, input.x as int, input.y as int)
    } else {
        None
    }
}

/// The query that a frame of the menu starts a job for: what was typed, without white space
/// around it, unless nothing is left.
pub open spec fn started_query(plan: MenuPlan, input: Input, query: Seq<char>) -> Option<
    Seq<char>,
> {
    let go = input.enter || (input.pressed && holds(plan.button, input.x as int, input.y as int));
    if go && trimmed(query).len() > 0 {
        Some(trimmed(query))
    } else {
        None
    }
}

/// What the menu does in one frame.
pub fn menu_frame(session: &Session, l: &Layout, input: &Input, query: &str) -> (f: MenuFrame)
    requires
        laid_out(*l),
    ensures
        is_menu(f.plan, *l),
        f.key == played_key(*l, *input),
        f.keys.len() == 128,
        forall|k: int| 0 <= k < 128 ==> #[trigger] f.keys[k] == (f.key == Some(k as u8)),
        f.open_piano == (f.key is Some && !session@.piano_open),
        match f.start {
            Some(q) => started_query(f.plan, *input, query@) == Some(q@),
            None => started_query(f.plan, *input, query@) is None,
        },
{
    let plan = menu_plan(l);
    let key = if input.down {
        key_at(l, input.x, input.y)
    } else {
        None
    };
    let mut keys = keys_up();
    if let Some(k) = key {
        proof {
            keys_are_few(*l, input.x as int, input.y as int);
        }
        keys.set(k as usize, true);
    }
    let go = is_clicked(&plan.button, input.x, input.y, input.pressed) || input.enter;
    let q = trim(query);
    let blank = q.as_str().unicode_len() == 0;
    MenuFrame {
        plan,
        key,
        keys,
        open_piano: key.is_some() && !session.piano_open,
        start: if go && !blank {
            Some(q)
        } else {
            None
        },
    }
}

proof fn found_key_is_in_range(l: Layout, k: int, blacks: bool, x: int, y: int)
    requires
        0 <= k,
    ensures
        crate::keyboard::lowest_reaching(l, k, blacks, x, y) matches Some(found) ==> found <= 108,
    decreases 109 - k,
{
    if k <= 108 {
        found_key_is_in_range(l, k + 1, blacks, x, y);
    }
}

proof fn keys_are_few(l: Layout, x: int, y: int)
    ensures
        key_under(l, x, y) matches Some(k) ==> k <= 108,
{
    found_key_is_in_range(l, 21, true, x, y);
    found_key_is_in_range(l, 21, false, x, y);
}

/// What the roll does in one frame.
#[derive(Debug)]
pub struct PlayFrame {
    /// Time played and length.
    pub label: String,
    /// The end panel, once the roll is over.
    pub end: Option<EndPlan>,
    /// Whether to start the roll anew.
    pub again: bool,
    /// Whether to leave for the menu.
    pub leave: bool,
}

/// What the roll does in one frame at time `t`. The end panel comes once the roll is over; on it
/// one button, or Enter, starts the roll anew, and the other leaves. Escape always leaves.
pub fn play_frame(l: &Layout, input: &Input, length: Moment, t: i128) -> (f: PlayFrame)
    requires
        laid_out(*l),
    ensures
        f.label@ == clock_face(t as int) + " / "@ + length_face(length),
        f.end is Some <==> is_over(length, t as int),
        match f.end {
            Some(e) => {
                &&& is_end(e, *l)
                &&& f.again == (input.enter || (input.pressed && holds(
                    e.again,
                    input.x as int,
                    input.y as int,
                )))
                &&& f.leave == (input.escape || (input.pressed && holds(
                    e.back,
                    input.x as int,
                    input.y as int,
                )))
            },
            None => !f.again && f.leave == input.escape,
        },
{
    let label = time_label(t, length);
    if roll_over(length, t) {
        let e = end_plan(l);
        PlayFrame {
            label,
            again: is_clicked(&e.again, input.x, input.y, input.pressed) || input.enter,
            leave: is_clicked(&e.back, input.x, input.y, input.pressed) || input.escape,
            end: Some(e),
        }
    } else {
        PlayFrame { label, end: None, again: false, leave: input.escape }
    }
}

/// A piece ready to be played: its title, the MIDI file, its notes and how long the roll is.
#[derive(Debug)]
pub struct Piece {
    pub title: String,
    pub bytes: Vec<u8>,
    pub notes: Vec<Note>,
    pub length: Moment,
}

/// Makes a piece of a MIDI file.
pub fn open_piece(title: String, bytes: Vec<u8>) -> (r: Result<Piece, LoadError>)
    ensures
        holds_unnegatable_division(bytes@) <==> r matches Err(LoadError::Division),
        !holds_unnegatable_division(bytes@) ==> match parsed(bytes@) {
            None => r matches Err(LoadError::Midi(e)) && fails_with(bytes@, e),
            Some((timing, tracks)) => if too_long(tracks) {
                r matches Err(LoadError::TooLong)
            } else {
                r matches Ok(piece) && {
                    &&& piece.title == title
                    &&& piece.bytes == bytes
                    &&& piece.notes@ == piece_notes(timing, tracks)
                    &&& showable(piece.notes@)
                    &&& tracks_in_range(tracks)
                    &&& piece.length == longest(piece.notes@, piece.notes@.len() as int)
                }
            },
        },
{
    match load_notes(bytes.as_slice()) {
        Err(e) => Err(e),
        Ok(notes) => {
            let length = roll_length(&notes);
            Ok(Piece { title, bytes, notes, length })
        },
    }
}

/// Whether a session is sound: the menu's keyboard has sound only on the menu, and no error
/// waits behind a job.
pub open spec fn sound(s: SessionView) -> bool {
    &&& s.piano_open ==> s.mode == Mode::Menu
    &&& s.mode == Mode::Busy ==> s.error.len() == 0
}

/// Law: a session starts sound and stays sound.
pub proof fn sessions_stay_sound(s: SessionView, h: HappeningView)
    requires
        sound(s),
        can_happen(s, h),
    ensures
        sound(SessionView { mode: Mode::Menu, error: Seq::empty(), piano_open: false }),
        sound(after(s, h)),
{
}

/// The reason that a happening gives for a failure.
pub open spec fn reason_of(h: HappeningView) -> Option<Seq<char>> {
    match h {
        HappeningView::PianoFailed(reason) => Some(reason),
        HappeningView::JobFailed(reason) => Some(reason),
        HappeningView::PlayFailed(reason) => Some(reason),
        HappeningView::JobCrashed => Some("worker thread crashed"@),
        _ => None,
    }
}

/// Law: every failure ends on the menu with its reason on the note, and nothing else changes the
/// note but the start of a job, which clears it.
pub proof fn failures_end_on_the_menu(s: SessionView, h: HappeningView)
    requires
        can_happen(s, h),
    ensures
        match reason_of(h) {
            Some(reason) => after(s, h).mode == Mode::Menu && after(s, h).error == reason,
            None => after(s, h).error == if h is JobStarted {
                Seq::empty()
            } else {
                s.error
            },
        },
{
}

/// Law: a change of screen closes the menu's keyboard, and no roll starts but by way of a job.
pub proof fn screens_follow_in_order(s: SessionView, h: HappeningView)
    requires
        sound(s),
        can_happen(s, h),
    ensures
        after(s, h).mode != s.mode ==> !after(s, h).piano_open,
        s.mode == Mode::Menu ==> after(s, h).mode != Mode::Play,
        s.mode == Mode::Play ==> after(s, h).mode != Mode::Busy,
{
}

/// Law: a blank query starts nothing, whatever is clicked or pressed.
pub proof fn blank_queries_start_nothing(plan: MenuPlan, input: Input, query: Seq<char>)
    requires
        forall|i: int| 0 <= i < query.len() ==> white(#[trigger] query[i]),
    ensures
        started_query(plan, input, query) is None,
{
    nothing_left(query);
}

proof fn nothing_left(s: Seq<char>)
    requires
        forall|i: int| 0 <= i < s.len() ==> white(#[trigger] s[i]),
    ensures
        trimmed(s).len() == 0,
    decreases s.len(),
{
    if s.len() > 0 {
        assert(white(s[s.len() - 1]));
        assert forall|i: int| 0 <= i < s.drop_last().len() implies white(
            #[trigger] s.drop_last()[i],
        ) by {
            assert(white(s[i]));
        }
        nothing_left(s.drop_last());
    }
}

/// Law: where the menu's button stands above the keyboard, no click both starts a job and plays a
/// key.
pub proof fn clicks_play_or_start(l: Layout, plan: MenuPlan, input: Input)
    requires
        laid_out(l),
        l.ww > 0,
        is_menu(plan, l),
        plan.button.y + plan.button.h < l.kb_y,
        holds(plan.button, input.x as int, input.y as int),
    ensures
        played_key(l, input) is None,
{
    crate::keyboard::no_key_off_the_keyboard(l, input.x as int, input.y as int);
}

/// Law: what happens leads where it should. A job leads to the wait for it, a roll that starts to
/// the roll, every failure and leaving to the menu; the menu's keyboard gets its sound when it is
/// opened, and keeps it only while nothing else happens.
pub proof fn happenings_lead_to_their_screens(s: SessionView, h: HappeningView)
    requires
        can_happen(s, h),
    ensures
        after(s, h).mode == Mode::Busy <==> h is JobStarted || h is JobPending,
        after(s, h).mode == Mode::Play <==> h is PlayStarted,
        after(s, h).piano_open <==> h is PianoOpened || (h is JobPending && s.piano_open),
        h is JobPending ==> after(s, h) == s,
{
}

/// Law: keys are opened for sound only on the menu and once, jobs start on the menu, only a job
/// that is waited for can go on or fail, and no roll starts from the menu.
pub proof fn happenings_have_their_time(s: SessionView, h: HappeningView)
    ensures
        h is PianoOpened || h is PianoFailed ==> (can_happen(s, h) <==> s.mode == Mode::Menu
            && !s.piano_open),
        h is JobStarted ==> (can_happen(s, h) <==> s.mode == Mode::Menu),
        h is JobPending || h is JobFailed || h is JobCrashed ==> (can_happen(s, h) <==> s.mode
            == Mode::Busy),
        h is PlayStarted || h is PlayFailed ==> (can_happen(s, h) <==> s.mode == Mode::Busy
            || s.mode == Mode::Play),
        h is Left ==> (can_happen(s, h) <==> s.mode == Mode::Menu || s.mode == Mode::Play),
{
}

/// Law: the mouse plays the key under it exactly while its button is down.
pub proof fn the_mouse_plays_what_it_is_on(l: Layout, input: Input, k: u8)
    ensures
        played_key(l, input) == Some(k) <==> input.down && key_under(
            l,
            input.x as int,
            input.y as int,
        ) == Some(k),
        !input.down ==> played_key(l, input) is None,
{
}

/// Law: a job is started by Enter, or by a click between the edges of the button, where anything
/// but white space was typed; it is started for what was typed, from the first character that is
/// not white space to the last.
pub proof fn jobs_are_started_for_what_was_typed(plan: MenuPlan, input: Input, query: Seq<char>)
    ensures
        started_query(plan, input, query) is Some <==> (input.enter || (input.pressed
            && plan.button.x <= input.x <= plan.button.x + plan.button.w && plan.button.y <= input.y
            <= plan.button.y + plan.button.h)) && exists|i: int|
            0 <= i < query.len() && !white(#[trigger] query[i]),
        started_query(plan, input, query) matches Some(q) ==> exists|a: int, b: int|
            {
                &&& 0 <= a < b <= query.len()
                &&& q == #[trigger] query.subrange(a, b)
                &&& !white(query[a]) && !white(query[b - 1])
                &&& forall|i: int| 0 <= i < a || b <= i < query.len() ==> white(#[trigger] query[i])
            },
{
    let (a, b) = trimming_cuts_white_space(query);
    if a < b {
        assert(!white(query[a]));
        assert(trimmed(query) == query.subrange(a, b));
    }
}

/// Law: of an error, the note shows the first lines, as many as there are or as it has room for.
pub proof fn the_note_shows_the_first_lines(text: Seq<char>, max: int, i: int)
    requires
        max >= 0,
    ensures
        first_lines(text, max).len() <= max,
        first_lines(text, max).len() <= lines_of(text).len(),
        first_lines(text, max).len() == max || first_lines(text, max).len() == lines_of(text).len(),
        0 <= i < first_lines(text, max).len() ==> first_lines(text, max)[i] == lines_of(text)[i],
{
}

} // verus!
