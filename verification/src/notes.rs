//! From ordered events to notes with times, honouring the tempo map.
use crate::order::sorted;
use crate::score::{all_in_range, in_range, slot, strikes, Event, Timed, Timing};
use vstd::prelude::*;

verus! {

/// Nanoseconds in a second.
pub const SECOND: u64 = 1_000_000_000;

/// Microseconds per beat until a tempo event says otherwise: 120 beats per minute.
pub const DEFAULT_TEMPO: u32 = 500_000;

/// How ticks become seconds: every tick adds a weight, and so much weight makes a second.
#[derive(Clone, Copy, Debug, PartialEq, Eq, Structural)]
pub struct TimeBase {
    /// The weight of one second. Zero where the file gives its ticks no finite length.
    pub per_second: u64,
    /// The weight of a tick at the start.
    pub weight: u32,
    /// Whether tempo events set the weight of the ticks that follow.
    pub tempo_counts: bool,
}

/// When something happens, measured from the start of the piece.
#[derive(Clone, Copy, Debug, PartialEq, Eq, Structural)]
pub enum Moment {
    /// Whole nanoseconds after the start.
    At(u128),
    /// Infinitely late: ticks passed, and a tick has no finite length.
    Never,
    /// No time at all: no tick passed before some event, and a tick has no finite length.
    Undefined,
}

/// One key held from `start` to `end`.
#[derive(Clone, Copy, Debug, PartialEq, Eq, Structural)]
pub struct Note {
    pub start: Moment,
    pub end: Moment,
    pub key: u8,
}

/// Whether a time fits where signed times are compared with it.
pub open spec fn comparable(m: Moment) -> bool {
    m matches Moment::At(n) ==> n <= i128::MAX
}

/// Whether every note can be shown: its key is one of the 128, and its times can be compared.
pub open spec fn showable(notes: Seq<Note>) -> bool {
    forall|i: int|
        0 <= i < notes.len() ==> {
            &&& (#[trigger] notes[i]).key < 128
            &&& comparable(notes[i].start)
            &&& comparable(notes[i].end)
        }
}

/// The time base of a file.
pub open spec fn base_of(timing: Timing) -> TimeBase {
    match timing {
        Timing::Metrical(per_beat) => TimeBase {
            per_second: (per_beat * 1_000_000) as u64,
            weight: DEFAULT_TEMPO,
            tempo_counts: per_beat > 0,
        },
        Timing::Timecode(fps, per_frame) => if fps == 29 {
            TimeBase { per_second: (30_000 * per_frame) as u64, weight: 1001, tempo_counts: false }
        } else {
            TimeBase { per_second: (fps * per_frame) as u64, weight: 1, tempo_counts: false }
        },
    }
}

/// Ticks between event `j` and the event before it, or the start.
pub open spec fn gap(events: Seq<Timed>, j: int) -> int {
    events[j].tick - (if j > 0 {
        events[j - 1].tick as int
    } else {
        0
    })
}

/// The weight of the ticks just before event `j`: the last tempo set before it, if any counts.
pub open spec fn weight_at(events: Seq<Timed>, base: TimeBase, j: int) -> int
    decreases j,
{
    if j <= 0 {
        base.weight as int
    } else {
        match events[j - 1].event {
            Event::Tempo(us) if base.tempo_counts => us as int,
            _ => weight_at(events, base, j - 1),
        }
    }
}

/// The weight of all ticks up to event `j`.
pub open spec fn elapsed(events: Seq<Timed>, base: TimeBase, j: int) -> int
    decreases j + 1,
{
    if j < 0 {
        0
    } else {
        elapsed(events, base, j - 1) + gap(events, j) * weight_at(events, base, j)
    }
}

/// Whether some event up to event `j` comes with no tick before it.
pub open spec fn stalls(events: Seq<Timed>, j: int) -> bool {
    exists|k: int| 0 <= k <= j && #[trigger] gap(events, k) == 0
}

/// When event `j` happens.
pub open spec fn moment_at(events: Seq<Timed>, base: TimeBase, j: int) -> Moment {
    if base.per_second == 0 {
        if stalls(events, j) {
            Moment::Undefined
        } else {
            Moment::Never
        }
    } else {
        Moment::At((elapsed(events, base, j) * SECOND / base.per_second as int) as u128)
    }
}

/// The last event before event `j` that strikes or lifts this key of this channel.
pub open spec fn last_touch(events: Seq<Timed>, j: int, channel: u8, key: u8) -> Option<int>
    decreases j,
{
    if j <= 0 {
        None
    } else if slot(events[j - 1].event) == Some((channel, key)) {
        Some(j - 1)
    } else {
        last_touch(events, j - 1, channel, key)
    }
}

/// When the key that is down just before event `j` was struck; `None` if it is up.
pub open spec fn down_since(
    events: Seq<Timed>,
    base: TimeBase,
    j: int,
    channel: u8,
    key: u8,
) -> Option<Moment> {
    match last_touch(events, j, channel, key) {
        Some(i) if strikes(events[i].event) => Some(moment_at(events, base, i)),
        _ => None,
    }
}

/// The note that event `j` ends: it strikes or lifts a key that is down.
pub open spec fn note_ended_at(events: Seq<Timed>, base: TimeBase, j: int) -> Option<Note> {
    match slot(events[j].event) {
        Some((channel, key)) => match down_since(events, base, j, channel, key) {
            Some(start) => Some(Note { start, end: moment_at(events, base, j), key }),
            None => None,
        },
        None => None,
    }
}

/// The notes that the first `n` events end, in the order in which they end.
pub open spec fn notes_ended(events: Seq<Timed>, base: TimeBase, n: int) -> Seq<Note>
    decreases n,
{
    if n <= 0 {
        Seq::empty()
    } else {
        match note_ended_at(events, base, n - 1) {
            Some(note) => notes_ended(events, base, n - 1).push(note),
            None => notes_ended(events, base, n - 1),
        }
    }
}

/// The time base of a file with this timing.
pub fn time_base(timing: Timing) -> (base: TimeBase)
    ensures
        base == base_of(timing),
{
    match timing {
        Timing::Metrical(per_beat) => TimeBase {
            per_second: per_beat as u64 * 1_000_000,
            weight: DEFAULT_TEMPO,
            tempo_counts: per_beat > 0,
        },
        Timing::Timecode(fps, per_frame) => if fps == 29 {
            TimeBase { per_second: 30_000 * per_frame as u64, weight: 1001, tempo_counts: false }
        } else {
            assert(fps * per_frame <= 255 * 255) by (nonlinear_arith)
                requires
                    fps <= 255,
                    per_frame <= 255,
            ;
            TimeBase { per_second: fps as u64 * per_frame as u64, weight: 1, tempo_counts: false }
        },
    }
}

proof fn weight_bound(events: Seq<Timed>, base: TimeBase, j: int)
    ensures
        0 <= weight_at(events, base, j) <= u32::MAX,
    decreases j,
{
    if j > 0 {
        weight_bound(events, base, j - 1);
    }
}

proof fn elapsed_bound(events: Seq<Timed>, base: TimeBase, j: int)
    requires
        sorted(events),
        j < events.len(),
    ensures
        0 <= elapsed(events, base, j),
        j >= 0 ==> elapsed(events, base, j) <= events[j].tick * 0x1_0000_0000,
        j >= 0 ==> elapsed(events, base, j - 1) <= elapsed(events, base, j),
        j >= 0 ==> 0 <= gap(events, j) * weight_at(events, base, j) <= gap(events, j) * 0x1_0000_0000,
    decreases j + 1,
{
    if j >= 0 {
        weight_bound(events, base, j);
        elapsed_bound(events, base, j - 1);
        let g = gap(events, j);
        let w = weight_at(events, base, j);
        assert(g >= 0);
        assert(0 <= g * w <= g * 0x1_0000_0000) by (nonlinear_arith)
            requires
                g >= 0,
                0 <= w <= 0x1_0000_0000,
        ;
    }
}

proof fn elapsed_grows(events: Seq<Timed>, base: TimeBase, i: int, j: int)
    requires
        sorted(events),
        i <= j < events.len(),
    ensures
        elapsed(events, base, i) <= elapsed(events, base, j),
    decreases j - i,
{
    if i < j {
        elapsed_grows(events, base, i, j - 1);
        if j >= 0 {
            elapsed_bound(events, base, j);
        }
    }
}

proof fn last_touch_before(events: Seq<Timed>, j: int, channel: u8, key: u8)
    ensures
        last_touch(events, j, channel, key) matches Some(i) ==> 0 <= i < j && slot(events[i].event)
            == Some((channel, key)),
    decreases j,
{
    if j > 0 {
        last_touch_before(events, j - 1, channel, key);
    }
}

/// The notes of a piece whose events are in order, in the order in which they end. A key that is
/// struck while it is down ends one note and starts the next; one that is never lifted again
/// gives no note.
pub fn notes_of(events: &Vec<Timed>, base: TimeBase) -> (notes: Vec<Note>)
    requires
        sorted(events@),
        all_in_range(events@),
    ensures
        notes@ == notes_ended(events@, base, events@.len() as int),
{
    let mut open: Vec<Option<Moment>> = Vec::new();
    let mut i: usize = 0;
    while i < 2048
        invariant
            i <= 2048,
            open.len() == i,
            forall|k: int| 0 <= k < i ==> open[k] is None,
        decreases 2048 - i,
    {
        open.push(None);
        i += 1;
    }
    let mut now: u128 = 0;
    let mut last: u64 = 0;
    let mut weight: u32 = base.weight;
    let mut stalled: bool = false;
    let mut notes: Vec<Note> = Vec::new();
    let mut j: usize = 0;
    while j < events.len()
        invariant
            j <= events.len(),
            sorted(events@),
            all_in_range(events@),
                last == (if j > 0 {
                events[j - 1].tick
            } else {
                0
            }),
            now == elapsed(events@, base, j - 1),
            weight == weight_at(events@, base, j as int),
            stalled == stalls(events@, j - 1),
            open.len() == 2048,
            forall|c: u8, k: u8|
                c < 16 && k < 128 ==> #[trigger] open[c * 128 + k] == down_since(
                    events@,
                    base,
                    j as int,
                    c,
                    k,
                ),
            notes@ == notes_ended(events@, base, j as int),
        decreases events.len() - j,
    {
        let e = events[j];
        proof {
            elapsed_bound(events@, base, j as int);
            elapsed_bound(events@, base, j - 1);
            weight_bound(events@, base, j as int);
            assert(in_range(e.event));
            assert(j > 0 ==> events@[j - 1].tick <= events@[j as int].tick);
            assert(gap(events@, j as int) == e.tick - last);
            assert(elapsed(events@, base, j as int) == now + (e.tick - last) * weight);
        }
        let gap_ticks: u64 = e.tick - last;
        now = now + gap_ticks as u128 * weight as u128;
        last = e.tick;
        let ghost stalled_before = stalled;
        stalled = stalled || gap_ticks == 0;
        proof {
            if stalled_before {
                let k = choose|k: int| 0 <= k <= j - 1 && #[trigger] gap(events@, k) == 0;
                assert(0 <= k <= j && gap(events@, k) == 0);
            }
            assert(gap(events@, j as int) == gap_ticks);
            assert(stalled == stalls(events@, j as int));
            assert(now * SECOND <= u128::MAX);
        }
        let moment = if base.per_second == 0 {
            if stalled {
                Moment::Undefined
            } else {
                Moment::Never
            }
        } else {
            Moment::At(now * SECOND as u128 / base.per_second as u128)
        };
        assert(moment == moment_at(events@, base, j as int));
        let touched: Option<(u8, u8, bool)> = match e.event {
            Event::NoteOn(c, k, vel) => Some((c, k, vel > 0)),
            Event::NoteOff(c, k) => Some((c, k, false)),
            Event::Tempo(us) => {
                if base.tempo_counts {
                    weight = us;
                }
                None
            },
            Event::Other => None,
        };
        if let Some((c, k, struck)) = touched {
            let at: usize = c as usize * 128 + k as usize;
            assert(open[c * 128 + k] == down_since(events@, base, j as int, c, k));
            let ghost before = open@;
            if let Some(start) = open[at] {
                notes.push(Note { start, end: moment, key: k });
            }
            open.set(
                at,
                if struck {
                    Some(moment)
                } else {
                    None
                },
            );
            assert forall|c2: u8, k2: u8| c2 < 16 && k2 < 128 implies #[trigger] open[c2 * 128 + k2]
                == down_since(events@, base, j + 1, c2, k2) by {
                assert(before[c2 * 128 + k2] == down_since(events@, base, j as int, c2, k2));
                if c2 * 128 + k2 == c * 128 + k {
                    assert(c2 == c && k2 == k);
                }
            }
        } else {
            assert forall|c2: u8, k2: u8| c2 < 16 && k2 < 128 implies #[trigger] open[c2 * 128 + k2]
                == down_since(events@, base, j + 1, c2, k2) by {
                assert(open[c2 * 128 + k2] == down_since(events@, base, j as int, c2, k2));
            }
        }
        j += 1;
    }
    notes
}

/// Whether `a` is no later than `b`.
pub open spec fn not_after(a: Moment, b: Moment) -> bool {
    match (a, b) {
        (Moment::At(x), Moment::At(y)) => x <= y,
        (Moment::Never, Moment::Never) => true,
        (Moment::Never, Moment::Undefined) => true,
        (Moment::Undefined, Moment::Undefined) => true,
        _ => false,
    }
}

proof fn moments_in_order(events: Seq<Timed>, base: TimeBase, i: int, j: int)
    requires
        sorted(events),
        0 <= i <= j < events.len(),
    ensures
        not_after(moment_at(events, base, i), moment_at(events, base, j)),
        comparable(moment_at(events, base, i)),
        comparable(moment_at(events, base, j)),
{
    if base.per_second == 0 {
        if stalls(events, i) {
            let k = choose|k: int| 0 <= k <= i && #[trigger] gap(events, k) == 0;
            assert(0 <= k <= j && gap(events, k) == 0);
        }
    } else {
        elapsed_bound(events, base, i);
        elapsed_bound(events, base, j);
        elapsed_grows(events, base, i, j);
        let (a, b, p) = (
            elapsed(events, base, i) * SECOND,
            elapsed(events, base, j) * SECOND,
            base.per_second as int,
        );
        assert(0 <= a / p <= b / p <= b) by (nonlinear_arith)
            requires
                0 <= a <= b,
                p > 0,
        ;
        assert(b <= u64::MAX * 0x1_0000_0000 * SECOND);
    }
}

/// Law: all notes of a piece can be shown.
pub proof fn notes_are_showable(events: Seq<Timed>, base: TimeBase, n: int)
    requires
        sorted(events),
        all_in_range(events),
        0 <= n <= events.len(),
    ensures
        showable(notes_ended(events, base, n)),
    decreases n,
{
    if n > 0 {
        notes_are_showable(events, base, n - 1);
        if let Some((channel, key)) = slot(events[n - 1].event) {
            last_touch_before(events, n - 1, channel, key);
            if let Some(i) = last_touch(events, n - 1, channel, key) {
                moments_in_order(events, base, i, n - 1);
            }
            assert(in_range(events[n - 1].event));
        }
    }
}

/// Law: no note ends before it starts.
pub proof fn notes_start_before_they_end(events: Seq<Timed>, base: TimeBase, n: int)
    requires
        sorted(events),
        0 <= n <= events.len(),
    ensures
        forall|i: int|
            0 <= i < notes_ended(events, base, n).len() ==> {
                let note = #[trigger] notes_ended(events, base, n)[i];
                not_after(note.start, note.end)
            },
    decreases n,
{
    if n > 0 {
        notes_start_before_they_end(events, base, n - 1);
        if let Some((channel, key)) = slot(events[n - 1].event) {
            last_touch_before(events, n - 1, channel, key);
            if let Some(i) = last_touch(events, n - 1, channel, key) {
                moments_in_order(events, base, i, n - 1);
            }
        }
    }
}

/// Law: notes come in the order in which they end.
pub proof fn notes_end_in_order(events: Seq<Timed>, base: TimeBase, n: int)
    requires
        sorted(events),
        0 <= n <= events.len(),
    ensures
        forall|i: int, k: int|
            0 <= i <= k < notes_ended(events, base, n).len() ==> not_after(
                #[trigger] notes_ended(events, base, n)[i].end,
                #[trigger] notes_ended(events, base, n)[k].end,
            ),
        forall|i: int|
            0 <= i < notes_ended(events, base, n).len() ==> not_after(
                (#[trigger] notes_ended(events, base, n)[i]).end,
                moment_at(events, base, n - 1),
            ),
    decreases n,
{
    if n > 0 {
        notes_end_in_order(events, base, n - 1);
        moments_in_order(events, base, n - 1, n - 1);
        if n > 1 {
            moments_in_order(events, base, n - 2, n - 1);
        }
        let (before, after) = (notes_ended(events, base, n - 1), notes_ended(events, base, n));
        assert forall|i: int| 0 <= i < after.len() implies not_after(
            (#[trigger] after[i]).end,
            moment_at(events, base, n - 1),
        ) by {
            if i < before.len() {
                assert(after[i] == before[i]);
            }
        }
        assert forall|i: int, k: int| 0 <= i <= k < after.len() implies not_after(
            #[trigger] after[i].end,
            #[trigger] after[k].end,
        ) by {
            if k < before.len() {
                assert(after[i] == before[i] && after[k] == before[k]);
            } else {
                assert(after[k].end == moment_at(events, base, n - 1));
            }
        }
    }
}

/// Law: a key of a channel sounds one note at a time. Of two notes that events `i` and `j` end on
/// the same key, the first is over when the second starts.
pub proof fn notes_of_a_key_follow_each_other(
    events: Seq<Timed>,
    base: TimeBase,
    i: int,
    j: int,
)
    requires
        sorted(events),
        0 <= i < j < events.len(),
        slot(events[i].event) == slot(events[j].event),
        note_ended_at(events, base, i) is Some,
        note_ended_at(events, base, j) is Some,
    ensures
        not_after(
            note_ended_at(events, base, i)->0.end,
            note_ended_at(events, base, j)->0.start,
        ),
{
    let (channel, key) = slot(events[j].event)->0;
    last_touch_before(events, j, channel, key);
    last_touch_no_earlier(events, i, j, channel, key);
    moments_in_order(events, base, i, last_touch(events, j, channel, key)->0);
}

proof fn last_touch_no_earlier(events: Seq<Timed>, i: int, j: int, channel: u8, key: u8)
    requires
        0 <= i < j <= events.len(),
        slot(events[i].event) == Some((channel, key)),
    ensures
        last_touch(events, j, channel, key) is Some,
        last_touch(events, j, channel, key)->0 >= i,
    decreases j,
{
    if slot(events[j - 1].event) != Some((channel, key)) {
        last_touch_no_earlier(events, i, j - 1, channel, key);
    }
}

/// The events with every strike of velocity zero written as a lift.
pub open spec fn lifts_spelled_out(events: Seq<Timed>) -> Seq<Timed> {
    Seq::new(
        events.len(),
        |i: int|
            match events[i].event {
                Event::NoteOn(channel, key, 0) => Timed {
                    tick: events[i].tick,
                    event: Event::NoteOff(channel, key),
                },
                _ => events[i],
            },
    )
}

proof fn lifts_same_time(events: Seq<Timed>, base: TimeBase, j: int)
    requires
        j < events.len(),
    ensures
        weight_at(lifts_spelled_out(events), base, j) == weight_at(events, base, j),
        elapsed(lifts_spelled_out(events), base, j) == elapsed(events, base, j),
        moment_at(lifts_spelled_out(events), base, j) == moment_at(events, base, j),
    decreases j + 1,
{
    let lifted = lifts_spelled_out(events);
    if j >= 0 {
        lifts_same_time(events, base, j - 1);
        assert(gap(lifted, j) == gap(events, j));
        if stalls(events, j) {
            let k = choose|k: int| 0 <= k <= j && #[trigger] gap(events, k) == 0;
            assert(gap(lifted, k) == 0);
        }
        if stalls(lifted, j) {
            let k = choose|k: int| 0 <= k <= j && #[trigger] gap(lifted, k) == 0;
            assert(gap(events, k) == 0);
        }
    }
}

proof fn lifts_same_touch(events: Seq<Timed>, j: int, channel: u8, key: u8)
    requires
        j <= events.len(),
    ensures
        last_touch(lifts_spelled_out(events), j, channel, key) == last_touch(
            events,
            j,
            channel,
            key,
        ),
    decreases j,
{
    if j > 0 {
        lifts_same_touch(events, j - 1, channel, key);
    }
}

/// Law: a strike of velocity zero lifts the key. Writing it as a lift changes no note.
pub proof fn velocity_zero_lifts(events: Seq<Timed>, base: TimeBase, n: int)
    requires
        n <= events.len(),
    ensures
        notes_ended(lifts_spelled_out(events), base, n) == notes_ended(events, base, n),
    decreases n,
{
    let lifted = lifts_spelled_out(events);
    if n > 0 {
        velocity_zero_lifts(events, base, n - 1);
        lifts_same_time(events, base, n - 1);
        assert(slot(lifted[n - 1].event) == slot(events[n - 1].event));
        if let Some((channel, key)) = slot(events[n - 1].event) {
            lifts_same_touch(events, n - 1, channel, key);
            last_touch_before(events, n - 1, channel, key);
            if let Some(i) = last_touch(events, n - 1, channel, key) {
                lifts_same_time(events, base, i);
                assert(strikes(lifted[i].event) == strikes(events[i].event));
            }
        }
    }
}

/// Law: where no tempo counts, time runs evenly: every tick has the base's weight.
pub proof fn time_runs_evenly(events: Seq<Timed>, base: TimeBase, j: int)
    requires
        0 <= j < events.len(),
        base.tempo_counts ==> forall|k: int| 0 <= k < j ==> !((#[trigger] events[k]).event is Tempo),
    ensures
        elapsed(events, base, j) == events[j].tick * base.weight,
    decreases j,
{
    no_tempo_no_change(events, base, j);
    if j > 0 {
        time_runs_evenly(events, base, j - 1);
        assert(events[j - 1].tick * base.weight + (events[j].tick - events[j - 1].tick)
            * base.weight == events[j].tick * base.weight) by (nonlinear_arith);
    }
    reveal_with_fuel(elapsed, 2);
}

proof fn no_tempo_no_change(events: Seq<Timed>, base: TimeBase, j: int)
    requires
        0 <= j <= events.len(),
        base.tempo_counts ==> forall|k: int| 0 <= k < j ==> !((#[trigger] events[k]).event is Tempo),
    ensures
        weight_at(events, base, j) == base.weight,
    decreases j,
{
    if j > 0 {
        no_tempo_no_change(events, base, j - 1);
        if base.tempo_counts {
            assert(!(events[j - 1].event is Tempo));
        }
    }
}

/// Law: every tempo event sets the pace. From one to the next, or to any event up to it, time
/// advances by the ticks between times the microseconds per beat that it tells.
pub proof fn tempo_sets_the_pace(events: Seq<Timed>, base: TimeBase, i: int, j: int, us: u32)
    requires
        0 <= i < j < events.len(),
        base.tempo_counts,
        events[i].event == Event::Tempo(us),
        forall|k: int| i < k < j ==> !((#[trigger] events[k]).event is Tempo),
    ensures
        elapsed(events, base, j) - elapsed(events, base, i) == (events[j].tick - events[i].tick)
            * us,
    decreases j,
{
    weight_since(events, base, i, j, us);
    if i + 1 < j {
        tempo_sets_the_pace(events, base, i, j - 1, us);
        assert((events[j - 1].tick - events[i].tick) * us + (events[j].tick - events[j - 1].tick)
            * us == (events[j].tick - events[i].tick) * us) by (nonlinear_arith);
    }
}

proof fn weight_since(events: Seq<Timed>, base: TimeBase, i: int, j: int, us: u32)
    requires
        0 <= i < j <= events.len(),
        base.tempo_counts,
        events[i].event == Event::Tempo(us),
        forall|k: int| i < k < j ==> !((#[trigger] events[k]).event is Tempo),
    ensures
        weight_at(events, base, j) == us,
    decreases j,
{
    if i + 1 < j {
        assert(!(events[j - 1].event is Tempo));
        weight_since(events, base, i, j - 1, us);
    }
}

/// Law: until a tempo is told, and in files that tell time by frames throughout, an event happens
/// as many ticks after the start as its own: at half a second to a beat, or at so many ticks to a
/// frame and so many frames to a second, of which 29 stand for 30000 in 1001 seconds. Times are
/// cut to whole nanoseconds.
pub proof fn first_times(timing: Timing, events: Seq<Timed>, j: int)
    requires
        sorted(events),
        0 <= j < events.len(),
        timing is Metrical ==> forall|k: int|
            0 <= k < j ==> !((#[trigger] events[k]).event is Tempo),
    ensures
        match (timing, moment_at(events, base_of(timing), j)) {
            (Timing::Metrical(p), Moment::At(n)) => p > 0 && n * p <= events[j].tick * 500_000_000
                < (n + 1) * p,
            (Timing::Timecode(fps, sub), Moment::At(n)) => {
                let ticks = (if fps == 29 {
                    30_000int
                } else {
                    fps as int
                }) * sub;
                let span = events[j].tick * (if fps == 29 {
                    1001int
                } else {
                    1
                });
                fps != 0 && sub != 0 && n * ticks <= span * 1_000_000_000 < (n + 1) * ticks
            },
            (Timing::Metrical(p), _) => p == 0,
            (Timing::Timecode(fps, sub), _) => fps == 0 || sub == 0,
        },
{
    let base = base_of(timing);
    time_runs_evenly(events, base, j);
    elapsed_bound(events, base, j);
    let (tick, w, p) = (events[j].tick as int, base.weight as int, base.per_second as int);
    let x = tick * w * SECOND;
    assert(elapsed(events, base, j) * SECOND == x);
    match timing {
        Timing::Metrical(per_beat) => {
            if per_beat > 0 {
                let n = x / p;
                assert(p == per_beat * 1_000_000);
                division(x, p);
                let b = per_beat as int;
                assert(n * b <= tick * 500_000_000 < (n + 1) * b) by (nonlinear_arith)
                    requires
                        n * p <= x < (n + 1) * p,
                        p == b * 1_000_000,
                        x == tick * 500_000 * 1_000_000_000,
                ;
            }
        },
        Timing::Timecode(fps, sub) => {
            assert(0 <= fps * sub <= 255 * 255) by (nonlinear_arith)
                requires
                    0 <= fps <= 255,
                    0 <= sub <= 255,
            ;
            if fps == 0 || sub == 0 {
                assert(fps * sub == 0) by (nonlinear_arith)
                    requires
                        fps == 0 || sub == 0,
                ;
            } else {
                assert(fps * sub > 0) by (nonlinear_arith)
                    requires
                        fps > 0,
                        sub > 0,
                ;
                division(x, p);
            }
        },
    }
}

proof fn division(x: int, p: int)
    requires
        p > 0,
    ensures
        (x / p) * p <= x < (x / p + 1) * p,
{
    assert((x / p) * p <= x < (x / p + 1) * p) by (nonlinear_arith)
        requires
            p > 0,
    ;
}

/// Law: after a tempo is told, the time that passes is the ticks that pass times the microseconds
/// per beat over the ticks per beat, but for less than a nanosecond.
pub proof fn time_between(
    per_beat: u16,
    events: Seq<Timed>,
    i: int,
    j: int,
    us: u32,
)
    requires
        sorted(events),
        per_beat > 0,
        0 <= i < j < events.len(),
        events[i].event == Event::Tempo(us),
        forall|k: int| i < k < j ==> !((#[trigger] events[k]).event is Tempo),
    ensures
        moment_at(events, base_of(Timing::Metrical(per_beat)), i) is At,
        moment_at(events, base_of(Timing::Metrical(per_beat)), j) is At,
        ({
            let base = base_of(Timing::Metrical(per_beat));
            let passed = moment_at(events, base, j)->0 - moment_at(events, base, i)->0;
            let told = (events[j].tick - events[i].tick) * us * 1000;
            -per_beat < passed * per_beat - told < per_beat
        }),
{
    let base = base_of(Timing::Metrical(per_beat));
    tempo_sets_the_pace(events, base, i, j, us);
    elapsed_bound(events, base, i);
    elapsed_bound(events, base, j);
    elapsed_grows(events, base, i, j);
    let (p, b) = (base.per_second as int, per_beat as int);
    let (x, y) = (elapsed(events, base, i) * SECOND, elapsed(events, base, j) * SECOND);
    division(x, p);
    division(y, p);
    let (m, n) = (x / p, y / p);
    assert(0 <= m <= u128::MAX && 0 <= n <= u128::MAX) by {
        assert(0 <= m <= x) by (nonlinear_arith)
            requires
                m == x / p,
                x >= 0,
                p > 0,
        ;
        assert(0 <= n <= y) by (nonlinear_arith)
            requires
                n == y / p,
                y >= 0,
                p > 0,
        ;
    }
    let d = (events[j].tick - events[i].tick) * us;
    assert(y - x == d * 1_000_000_000);
    assert(-b < (n - m) * b - d * 1000 < b) by (nonlinear_arith)
        requires
            m * p <= x < (m + 1) * p,
            n * p <= y < (n + 1) * p,
            p == b * 1_000_000,
            b > 0,
            y - x == d * 1_000_000_000,
    ;
}

/// Law: in a file that gives its ticks no finite length, an event never comes, or, once two events
/// (or the start and an event) share a tick, has no time at all.
pub proof fn times_without_length(timing: Timing, events: Seq<Timed>, j: int)
    requires
        0 <= j < events.len(),
        match timing {
            Timing::Metrical(p) => p == 0,
            Timing::Timecode(fps, sub) => fps == 0 || sub == 0,
        },
    ensures
        moment_at(events, base_of(timing), j) == Moment::Undefined || moment_at(
            events,
            base_of(timing),
            j,
        ) == Moment::Never,
        moment_at(events, base_of(timing), j) == Moment::Undefined <==> (events[0].tick == 0
            || exists|k: int| 0 < k <= j && (#[trigger] events[k]).tick == events[k - 1].tick),
{
    if let Timing::Timecode(fps, sub) = timing {
        assert(fps * sub == 0) by (nonlinear_arith)
            requires
                fps == 0 || sub == 0,
        ;
    }
    if stalls(events, j) {
        let k = choose|k: int| 0 <= k <= j && #[trigger] gap(events, k) == 0;
        if k > 0 {
            assert(events[k].tick == events[k - 1].tick);
        }
    }
    if events[0].tick == 0 {
        assert(gap(events, 0) == 0);
    }
    if exists|k: int| 0 < k <= j && (#[trigger] events[k]).tick == events[k - 1].tick {
        let k = choose|k: int| 0 < k <= j && (#[trigger] events[k]).tick == events[k - 1].tick;
        assert(gap(events, k) == 0);
    }
}

/// Whether an event touches this key of this channel: strikes it, or lifts it.
pub open spec fn touches_key(e: Event, channel: u8, key: u8) -> bool {
    ||| e matches Event::NoteOn(c, k, _) && c == channel && k == key
    ||| e == Event::NoteOff(channel, key)
}

/// Whether event `i` strikes a key that event `j` is the next to touch.
pub open spec fn struck_until(events: Seq<Timed>, i: int, j: int, channel: u8, key: u8) -> bool {
    &&& 0 <= i < j
    &&& events[i].event matches Event::NoteOn(c, k, vel) && c == channel && k == key && vel > 0
    &&& touches_key(events[j].event, channel, key)
    &&& forall|k: int| i < k < j ==> !touches_key((#[trigger] events[k]).event, channel, key)
}

proof fn last_touch_is(events: Seq<Timed>, j: int, channel: u8, key: u8)
    requires
        j <= events.len(),
    ensures
        match last_touch(events, j, channel, key) {
            Some(i) => {
                &&& 0 <= i < j
                &&& touches_key(events[i].event, channel, key)
                &&& forall|k: int|
                    i < k < j ==> !touches_key((#[trigger] events[k]).event, channel, key)
            },
            None => forall|k: int|
                0 <= k < j ==> !touches_key((#[trigger] events[k]).event, channel, key),
        },
    decreases j,
{
    if j > 0 {
        last_touch_is(events, j - 1, channel, key);
    }
}

/// Law: an event ends a note exactly where it touches a key that was struck, with no touch of it
/// between; the note lasts from the strike to the touch.
pub proof fn notes_last_from_strike_to_touch(
    events: Seq<Timed>,
    base: TimeBase,
    i: int,
    j: int,
    channel: u8,
    key: u8,
)
    requires
        0 <= j < events.len(),
    ensures
        struck_until(events, i, j, channel, key) ==> note_ended_at(events, base, j) == Some(
            Note { start: moment_at(events, base, i), end: moment_at(events, base, j), key },
        ),
        note_ended_at(events, base, j) is Some ==> exists|h: int, c: u8|
            #[trigger] struck_until(events, h, j, c, note_ended_at(events, base, j)->0.key),
{
    if struck_until(events, i, j, channel, key) {
        last_touch_is(events, j, channel, key);
        let h = last_touch(events, j, channel, key);
        assert(touches_key(events[i].event, channel, key));
        assert(h == Some(i));
    }
    if note_ended_at(events, base, j) is Some {
        let (c, k) = slot(events[j].event)->0;
        last_touch_is(events, j, c, k);
        let h = last_touch(events, j, c, k)->0;
        assert(note_ended_at(events, base, j)->0.key == k);
        assert(struck_until(events, h, j, c, note_ended_at(events, base, j)->0.key));
    }
}

/// Law: every note that is struck and touched again is there, nothing else is, and notes come in
/// the order of the events that end them: note `p` is the one that event `ends[p]` ends, and every
/// event that ends one is among these.
pub proof fn every_note_is_there(events: Seq<Timed>, base: TimeBase, n: int) -> (ends: Seq<int>)
    requires
        0 <= n <= events.len(),
    ensures
        ends.len() == notes_ended(events, base, n).len(),
        forall|p: int, q: int| 0 <= p < q < ends.len() ==> ends[p] < ends[q],
        forall|p: int|
            0 <= p < ends.len() ==> {
                let (e, note) = (#[trigger] ends[p], notes_ended(events, base, n)[p]);
                &&& 0 <= e < n
                &&& note.end == moment_at(events, base, e)
                &&& exists|i: int, c: u8|
                    #[trigger] struck_until(events, i, e, c, note.key) && note.start == moment_at(
                        events,
                        base,
                        i,
                    )
            },
        forall|i: int, j: int, c: u8, k: u8|
            0 <= j < n && #[trigger] struck_until(events, i, j, c, k) ==> ends.contains(j),
    decreases n,
{
    if n == 0 {
        Seq::empty()
    } else {
        let before = every_note_is_there(events, base, n - 1);
        let old_notes = notes_ended(events, base, n - 1);
        let new_notes = notes_ended(events, base, n);
        notes_last_from_strike_to_touch(events, base, 0, n - 1, 0, 0);
        match note_ended_at(events, base, n - 1) {
            Some(note) => {
                let ends = before.push(n - 1);
                assert forall|p: int| 0 <= p < ends.len() implies {
                    let (e, note) = (#[trigger] ends[p], new_notes[p]);
                    &&& 0 <= e < n
                    &&& note.end == moment_at(events, base, e)
                    &&& exists|i: int, c: u8|
                        #[trigger] struck_until(events, i, e, c, note.key) && note.start
                            == moment_at(events, base, i)
                } by {
                    if p < before.len() {
                        assert(before[p] == ends[p]);
                        assert(new_notes[p] == old_notes[p]);
                    } else {
                        assert(new_notes[p] == note);
                        let (h, c) = choose|h: int, c: u8|
                            #[trigger] struck_until(events, h, n - 1, c, note.key);
                        notes_last_from_strike_to_touch(events, base, h, n - 1, c, note.key);
                        assert(struck_until(events, h, n - 1, c, note.key));
                    }
                }
                assert forall|i: int, j: int, c: u8, k: u8|
                    0 <= j < n && #[trigger] struck_until(events, i, j, c, k) implies ends.contains(
                    j,
                ) by {
                    if j == n - 1 {
                        assert(ends[before.len() as int] == j);
                    } else {
                        let q = before.index_of(j);
                        assert(before.contains(j));
                        assert(ends[q] == j);
                    }
                }
                ends
            },
            None => {
                assert forall|i: int, j: int, c: u8, k: u8|
                    0 <= j < n && #[trigger] struck_until(
                        events,
                        i,
                        j,
                        c,
                        k,
                    ) implies before.contains(j) by {
                    notes_last_from_strike_to_touch(events, base, i, j, c, k);
                }
                before
            },
        }
    }
}

/// Law: tempo events count where time is kept in beats, of a tick or more, and nowhere else.
pub proof fn tempo_counts_in_beats(timing: Timing)
    ensures
        base_of(timing).tempo_counts <==> (timing matches Timing::Metrical(per_beat) && per_beat
            > 0),
{
}

} // verus!
