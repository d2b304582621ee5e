//! Why the order of tracks does not matter: where no two of them tell of anything at the same
//! tick, a piece has the same notes in whatever order its tracks come.
use crate::midi::{merged, piece_notes};
use crate::notes::{
    base_of, down_since, elapsed, gap, last_touch, moment_at, note_ended_at, notes_ended, stalls,
    weight_at, TimeBase,
};
use crate::order::{at_tick, order_is_stable, order_keeps_every_event, sorted};
use crate::score::{laid_end_to_end, slot, timed_track, Event, Timed, Timing, TrackEvent};
use vstd::prelude::*;

verus! {

/// Whether an event has a say in the notes: one of a key or a tempo. Where ticks have no finite
/// length, `all` do: each parts the ticks before it from those behind.
pub open spec fn tells(e: Event, all: bool) -> bool {
    all || !(e is Other)
}

/// The events that tell.
pub open spec fn telling(s: Seq<Timed>, all: bool) -> Seq<Timed> {
    s.filter(|e: Timed| tells(e.event, all))
}

/// Whether no two tracks have events that tell at the same tick.
pub open spec fn keep_apart(tracks: Seq<Seq<TrackEvent>>, all: bool) -> bool {
    forall|i: int, j: int, p: int, q: int|
        #![trigger timed_track(tracks[i])[p], timed_track(tracks[j])[q]]
        0 <= i < tracks.len() && 0 <= j < tracks.len() && i != j && 0 <= p < tracks[i].len() && 0
            <= q < tracks[j].len() && tells(timed_track(tracks[i])[p].event, all) && tells(
            timed_track(tracks[j])[q].event,
            all,
        ) ==> timed_track(tracks[i])[p].tick != timed_track(tracks[j])[q].tick
}

proof fn telling_push(s: Seq<Timed>, x: Timed, all: bool)
    ensures
        telling(s.push(x), all) == if tells(x.event, all) {
            telling(s, all).push(x)
        } else {
            telling(s, all)
        },
{
    assert(s.push(x).drop_last() =~= s);
    reveal(Seq::filter);
}

proof fn at_tick_push(s: Seq<Timed>, x: Timed, tick: u64)
    ensures
        at_tick(s.push(x), tick) == if x.tick == tick {
            at_tick(s, tick).push(x)
        } else {
            at_tick(s, tick)
        },
{
    assert(s.push(x).drop_last() =~= s);
    reveal(Seq::filter);
}

proof fn of_nothing(all: bool, tick: u64)
    ensures
        telling(Seq::empty(), all) == Seq::<Timed>::empty(),
        at_tick(Seq::empty(), tick) == Seq::<Timed>::empty(),
{
    reveal(Seq::filter);
}

/// The telling events at a tick: choosing by tick first or by event first makes no difference.
proof fn choices_commute(s: Seq<Timed>, all: bool, tick: u64)
    ensures
        at_tick(telling(s, all), tick) == telling(at_tick(s, tick), all),
    decreases s.len(),
{
    if s.len() == 0 {
        assert(s =~= Seq::empty());
        of_nothing(all, tick);
    } else {
        let (r, x) = (s.drop_last(), s.last());
        assert(s =~= r.push(x));
        choices_commute(r, all, tick);
        telling_push(r, x, all);
        at_tick_push(r, x, tick);
        if tells(x.event, all) {
            at_tick_push(telling(r, all), x, tick);
        }
        if x.tick == tick {
            telling_push(at_tick(r, tick), x, all);
        }
    }
}

proof fn telling_add(a: Seq<Timed>, b: Seq<Timed>, all: bool, tick: u64)
    ensures
        at_tick(telling(a + b, all), tick) == at_tick(telling(a, all), tick) + at_tick(
            telling(b, all),
            tick,
        ),
    decreases b.len(),
{
    if b.len() == 0 {
        assert(a + b =~= a);
        assert(b =~= Seq::empty());
        of_nothing(all, tick);
        assert(at_tick(telling(a, all), tick) + Seq::<Timed>::empty() =~= at_tick(
            telling(a, all),
            tick,
        ));
    } else {
        let (r, x) = (b.drop_last(), b.last());
        assert(b =~= r.push(x));
        assert(a + b =~= (a + r).push(x));
        telling_add(a, r, all, tick);
        telling_push(a + r, x, all);
        telling_push(r, x, all);
        if tells(x.event, all) {
            at_tick_push(telling(a + r, all), x, tick);
            at_tick_push(telling(r, all), x, tick);
        }
    }
}

/// What a track tells at a tick.
spec fn told(track: Seq<TrackEvent>, all: bool, tick: u64) -> Seq<Timed> {
    at_tick(telling(timed_track(track), all), tick)
}

/// What tracks tell at a tick, one after the other.
spec fn all_told(tracks: Seq<Seq<TrackEvent>>, all: bool, tick: u64) -> Seq<Timed>
    decreases tracks.len(),
{
    if tracks.len() == 0 {
        Seq::empty()
    } else {
        all_told(tracks.drop_last(), all, tick) + told(tracks.last(), all, tick)
    }
}

proof fn all_told_is_laid(tracks: Seq<Seq<TrackEvent>>, all: bool, tick: u64)
    ensures
        at_tick(telling(laid_end_to_end(tracks), all), tick) == all_told(tracks, all, tick),
    decreases tracks.len(),
{
    if tracks.len() == 0 {
        of_nothing(all, tick);
    } else {
        all_told_is_laid(tracks.drop_last(), all, tick);
        telling_add(
            laid_end_to_end(tracks.drop_last()),
            timed_track(tracks.last()),
            all,
            tick,
        );
    }
}

proof fn all_told_add(a: Seq<Seq<TrackEvent>>, b: Seq<Seq<TrackEvent>>, all: bool, tick: u64)
    ensures
        all_told(a + b, all, tick) == all_told(a, all, tick) + all_told(b, all, tick),
    decreases b.len(),
{
    if b.len() == 0 {
        assert(a + b =~= a);
        assert(all_told(a, all, tick) + Seq::<Timed>::empty() =~= all_told(a, all, tick));
    } else {
        assert((a + b).drop_last() =~= a + b.drop_last());
        all_told_add(a, b.drop_last(), all, tick);
        assert(all_told(a + b, all, tick) =~= all_told(a, all, tick) + all_told(b, all, tick));
    }
}

proof fn nothing_told(tracks: Seq<Seq<TrackEvent>>, all: bool, tick: u64)
    requires
        forall|i: int| 0 <= i < tracks.len() ==> (#[trigger] told(tracks[i], all, tick)).len() == 0,
    ensures
        all_told(tracks, all, tick).len() == 0,
    decreases tracks.len(),
{
    if tracks.len() > 0 {
        let init = tracks.drop_last();
        assert forall|i: int| 0 <= i < init.len() implies (#[trigger] told(
            init[i],
            all,
            tick,
        )).len() == 0 by {
            assert(told(tracks[i], all, tick).len() == 0);
        }
        nothing_told(init, all, tick);
        assert(told(tracks[tracks.len() - 1], all, tick).len() == 0);
    }
}

/// What is told at a tick is one of the track's events, with that tick.
proof fn told_is_there(s: Seq<Timed>, all: bool, tick: u64) -> (p: int)
    requires
        at_tick(telling(s, all), tick).len() > 0,
    ensures
        0 <= p < s.len(),
        s[p].tick == tick,
        tells(s[p].event, all),
    decreases s.len(),
{
    if s.len() == 0 {
        assert(s =~= Seq::empty());
        of_nothing(all, tick);
        0
    } else {
        let (r, x) = (s.drop_last(), s.last());
        assert(s =~= r.push(x));
        telling_push(r, x, all);
        if tells(x.event, all) {
            at_tick_push(telling(r, all), x, tick);
        }
        if tells(x.event, all) && x.tick == tick {
            s.len() - 1
        } else {
            told_is_there(r, all, tick)
        }
    }
}

/// Of tracks that keep apart, one tells at a tick at most.
proof fn one_tells(tracks: Seq<Seq<TrackEvent>>, all: bool, tick: u64, i: int, j: int)
    requires
        keep_apart(tracks, all),
        0 <= i < tracks.len(),
        0 <= j < tracks.len(),
        i != j,
    ensures
        told(tracks[i], all, tick).len() == 0 || told(tracks[j], all, tick).len() == 0,
{
    if told(tracks[i], all, tick).len() > 0 && told(tracks[j], all, tick).len() > 0 {
        let p = told_is_there(timed_track(tracks[i]), all, tick);
        let q = told_is_there(timed_track(tracks[j]), all, tick);
        assert(timed_track(tracks[i])[p].tick != timed_track(tracks[j])[q].tick);
    }
}

/// Moving a track to the end changes nothing of what is told.
proof fn moved_to_the_end(tracks: Seq<Seq<TrackEvent>>, k: int, all: bool, tick: u64)
    requires
        keep_apart(tracks, all),
        0 <= k < tracks.len(),
    ensures
        all_told(tracks, all, tick) == all_told(tracks.remove(k), all, tick) + told(
            tracks[k],
            all,
            tick,
        ),
{
    let (a, b) = (tracks.take(k), tracks.skip(k + 1));
    let one = seq![tracks[k]];
    assert(tracks =~= a + one + b);
    assert(tracks.remove(k) =~= a + b);
    all_told_add(a + one, b, all, tick);
    all_told_add(a, one, all, tick);
    all_told_add(a, b, all, tick);
    assert(one.drop_last() =~= Seq::empty());
    assert(all_told(one, all, tick) =~= told(tracks[k], all, tick)) by {
        reveal_with_fuel(all_told, 2);
        assert(one.last() == tracks[k]);
    }
    if told(tracks[k], all, tick).len() > 0 {
        assert forall|i: int| 0 <= i < b.len() implies (#[trigger] told(b[i], all, tick)).len()
            == 0 by {
            one_tells(tracks, all, tick, k, k + 1 + i);
        }
        nothing_told(b, all, tick);
    } else {
        assert(told(tracks[k], all, tick) =~= Seq::empty());
    }
    assert(all_told(tracks, all, tick) =~= all_told(tracks.remove(k), all, tick) + told(
        tracks[k],
        all,
        tick,
    ));
}

proof fn apart_without(tracks: Seq<Seq<TrackEvent>>, k: int, all: bool)
    requires
        keep_apart(tracks, all),
        0 <= k < tracks.len(),
    ensures
        keep_apart(tracks.remove(k), all),
{
    let rest = tracks.remove(k);
    assert forall|i: int, j: int, p: int, q: int|
        #![trigger timed_track(rest[i])[p], timed_track(rest[j])[q]]
        0 <= i < rest.len() && 0 <= j < rest.len() && i != j && 0 <= p < rest[i].len() && 0 <= q
            < rest[j].len() && tells(timed_track(rest[i])[p].event, all) && tells(
            timed_track(rest[j])[q].event,
            all,
        ) implies timed_track(rest[i])[p].tick != timed_track(rest[j])[q].tick by {
        let (i2, j2) = (if i < k {
            i
        } else {
            i + 1
        }, if j < k {
            j
        } else {
            j + 1
        });
        assert(rest[i] == tracks[i2] && rest[j] == tracks[j2]);
        assert(timed_track(tracks[i2])[p].tick != timed_track(tracks[j2])[q].tick);
    }
}

/// Tracks that keep apart tell the same in any order.
proof fn any_order_tells_the_same(
    a: Seq<Seq<TrackEvent>>,
    b: Seq<Seq<TrackEvent>>,
    all: bool,
    tick: u64,
)
    requires
        keep_apart(a, all),
        a.to_multiset() == b.to_multiset(),
    ensures
        all_told(a, all, tick) == all_told(b, all, tick),
    decreases b.len(),
{
    broadcast use vstd::seq_lib::group_to_multiset_ensures;

    assert(a.to_multiset().len() == a.len() && b.to_multiset().len() == b.len());
    if b.len() > 0 {
        let x = b.last();
        assert(b.contains(x));
        assert(b.to_multiset().contains(x));
        assert(a.to_multiset().contains(x));
        assert(a.contains(x));
        let k = choose|k: int| 0 <= k < a.len() && a[k] == x;
        assert(a.remove(k).to_multiset() =~= a.to_multiset().remove(x));
        assert(b =~= b.drop_last().push(x));
        assert(b.drop_last().to_multiset() =~= b.to_multiset().remove(x));
        apart_without(a, k, all);
        any_order_tells_the_same(a.remove(k), b.drop_last(), all, tick);
        moved_to_the_end(a, k, all, tick);
    }
}

/// Ordered events that agree at every tick are the same.
proof fn same_at_every_tick(a: Seq<Timed>, b: Seq<Timed>)
    requires
        sorted(a),
        sorted(b),
        forall|tick: u64| #[trigger] at_tick(a, tick) == at_tick(b, tick),
    ensures
        a == b,
    decreases a.len(),
{
    if a.len() == 0 {
        if b.len() > 0 {
            of_nothing(false, b.last().tick);
            assert(a =~= Seq::empty());
            assert(b =~= b.drop_last().push(b.last()));
            at_tick_push(b.drop_last(), b.last(), b.last().tick);
            assert(at_tick(a, b.last().tick) == at_tick(b, b.last().tick));
        }
        assert(a =~= b);
    } else if b.len() == 0 {
        of_nothing(false, a.last().tick);
        assert(b =~= Seq::empty());
        assert(a =~= a.drop_last().push(a.last()));
        at_tick_push(a.drop_last(), a.last(), a.last().tick);
        assert(at_tick(a, a.last().tick) == at_tick(b, a.last().tick));
    } else {
        let (r, x, s, y) = (a.drop_last(), a.last(), b.drop_last(), b.last());
        assert(a =~= r.push(x) && b =~= s.push(y));
        assert(at_tick(a, x.tick) == at_tick(b, x.tick));
        assert(at_tick(a, y.tick) == at_tick(b, y.tick));
        at_tick_push(r, x, x.tick);
        at_tick_push(r, x, y.tick);
        at_tick_push(s, y, x.tick);
        at_tick_push(s, y, y.tick);
        if x.tick > y.tick {
            nothing_later(b, x.tick);
        } else if y.tick > x.tick {
            nothing_later(a, y.tick);
        }
        assert(x.tick == y.tick);
        assert(at_tick(a, x.tick).last() == x && at_tick(b, x.tick).last() == y);
        assert forall|tick: u64| #[trigger] at_tick(r, tick) == at_tick(s, tick) by {
            at_tick_push(r, x, tick);
            at_tick_push(s, y, tick);
            assert(at_tick(a, tick) == at_tick(b, tick));
            if tick == x.tick {
                assert(at_tick(r, tick) =~= at_tick(a, tick).drop_last());
                assert(at_tick(s, tick) =~= at_tick(b, tick).drop_last());
            }
        }
        same_at_every_tick(r, s);
    }
}

proof fn nothing_later(s: Seq<Timed>, tick: u64)
    requires
        sorted(s),
        s.len() > 0 ==> s.last().tick < tick,
    ensures
        at_tick(s, tick).len() == 0,
    decreases s.len(),
{
    if s.len() == 0 {
        assert(s =~= Seq::empty());
        of_nothing(false, tick);
    } else {
        assert(s =~= s.drop_last().push(s.last()));
        at_tick_push(s.drop_last(), s.last(), tick);
        nothing_later(s.drop_last(), tick);
    }
}

proof fn telling_sorted(s: Seq<Timed>, all: bool)
    requires
        sorted(s),
    ensures
        sorted(telling(s, all)),
        telling(s, all).len() > 0 ==> s.len() > 0 && telling(s, all).last().tick <= s.last().tick,
    decreases s.len(),
{
    if s.len() == 0 {
        assert(s =~= Seq::empty());
        of_nothing(all, 0);
    } else {
        let (r, x) = (s.drop_last(), s.last());
        assert(s =~= r.push(x));
        telling_sorted(r, all);
        telling_push(r, x, all);
    }
}

/// What events tell of times and keys does not change when another comes behind them.
proof fn told_before(s: Seq<Timed>, x: Timed, base: TimeBase, j: int)
    requires
        j <= s.len(),
    ensures
        weight_at(s.push(x), base, j) == weight_at(s, base, j),
        j < s.len() ==> elapsed(s.push(x), base, j) == elapsed(s, base, j),
        j < s.len() ==> moment_at(s.push(x), base, j) == moment_at(s, base, j),
    decreases j + 1,
{
    if j >= 0 {
        told_before(s, x, base, j - 1);
        if j < s.len() {
            let t = s.push(x);
            assert(gap(t, j) == gap(s, j));
            if stalls(s, j) {
                let k = choose|k: int| 0 <= k <= j && #[trigger] gap(s, k) == 0;
                assert(gap(t, k) == 0);
            }
            if stalls(t, j) {
                let k = choose|k: int| 0 <= k <= j && #[trigger] gap(t, k) == 0;
                assert(gap(s, k) == 0);
            }
        }
    }
}

proof fn touched_before(s: Seq<Timed>, x: Timed, j: int, channel: u8, key: u8)
    requires
        j <= s.len(),
    ensures
        last_touch(s.push(x), j, channel, key) == last_touch(s, j, channel, key),
        last_touch(s, j, channel, key) matches Some(i) ==> 0 <= i < j,
    decreases j,
{
    if j > 0 {
        touched_before(s, x, j - 1, channel, key);
    }
}

proof fn down_before(s: Seq<Timed>, x: Timed, base: TimeBase, channel: u8, key: u8)
    ensures
        down_since(s.push(x), base, s.len() as int, channel, key) == down_since(
            s,
            base,
            s.len() as int,
            channel,
            key,
        ),
{
    touched_before(s, x, s.len() as int, channel, key);
    if let Some(i) = last_touch(s, s.len() as int, channel, key) {
        told_before(s, x, base, i);
    }
}

proof fn ended_before(s: Seq<Timed>, x: Timed, base: TimeBase, n: int)
    requires
        n <= s.len(),
    ensures
        notes_ended(s.push(x), base, n) == notes_ended(s, base, n),
    decreases n,
{
    if n > 0 {
        ended_before(s, x, base, n - 1);
        told_before(s, x, base, n - 1);
        if let Some((channel, key)) = slot(s[n - 1].event) {
            touched_before(s, x, n - 1, channel, key);
            if let Some(i) = last_touch(s, n - 1, channel, key) {
                told_before(s, x, base, i);
            }
        }
        assert(note_ended_at(s.push(x), base, n - 1) == note_ended_at(s, base, n - 1));
    }
}

/// The weight of all ticks up to `tick`, once all the events have come.
spec fn weighed(s: Seq<Timed>, base: TimeBase, tick: int) -> int {
    let n = s.len() as int;
    elapsed(s, base, n - 1) + (tick - (if n > 0 {
        s[n - 1].tick as int
    } else {
        0
    })) * weight_at(s, base, n)
}

proof fn weighed_push(s: Seq<Timed>, x: Timed, base: TimeBase, tick: int)
    ensures
        elapsed(s.push(x), base, s.len() as int) == weighed(s, base, x.tick as int),
        weighed(s.push(x), base, tick) == weighed(s, base, x.tick as int) + (tick - x.tick)
            * weight_at(s.push(x), base, s.len() as int + 1),
{
    let n = s.len() as int;
    told_before(s, x, base, n);
    told_before(s, x, base, n - 1);
    if n > 0 {
        assert(elapsed(s.push(x), base, n - 1) == elapsed(s, base, n - 1));
        assert(s.push(x)[n - 1] == s[n - 1]);
    } else {
        assert(elapsed(s.push(x), base, -1) == 0 && elapsed(s, base, -1) == 0);
    }
    assert(gap(s.push(x), n) == x.tick - (if n > 0 {
        s[n - 1].tick as int
    } else {
        0
    }));
}

/// Dropping the events that do not tell changes no weight.
proof fn telling_weighs_the_same(s: Seq<Timed>, base: TimeBase, tick: int)
    ensures
        weight_at(telling(s, false), base, telling(s, false).len() as int) == weight_at(
            s,
            base,
            s.len() as int,
        ),
        weighed(telling(s, false), base, tick) == weighed(s, base, tick),
    decreases s.len(),
{
    if s.len() == 0 {
        assert(s =~= Seq::empty());
        of_nothing(false, 0);
    } else {
        let (r, x) = (s.drop_last(), s.last());
        assert(s =~= r.push(x));
        let f = telling(r, false);
        telling_push(r, x, false);
        telling_weighs_the_same(r, base, tick);
        telling_weighs_the_same(r, base, x.tick as int);
        told_before(r, x, base, r.len() as int);
        weighed_push(r, x, base, tick);
        if tells(x.event, false) {
            told_before(f, x, base, f.len() as int);
            weighed_push(f, x, base, tick);
            assert(f.push(x)[f.len() as int] == x && r.push(x)[r.len() as int] == x);
        } else {
            let w = weight_at(r, base, r.len() as int);
            assert(weight_at(s, base, s.len() as int) == w);
            let last: int = if r.len() > 0 {
                r[r.len() - 1].tick as int
            } else {
                0
            };
            assert((x.tick - last) * w + (tick - x.tick) * w == (tick - last) * w)
                by (nonlinear_arith);
        }
    }
}

/// Where ticks have a length, dropping the events that do not tell changes no note.
proof fn telling_gives_the_notes(s: Seq<Timed>, base: TimeBase)
    requires
        base.per_second > 0,
    ensures
        notes_ended(telling(s, false), base, telling(s, false).len() as int) == notes_ended(
            s,
            base,
            s.len() as int,
        ),
        forall|channel: u8, key: u8| #[trigger]
            down_since(telling(s, false), base, telling(s, false).len() as int, channel, key)
                == down_since(s, base, s.len() as int, channel, key),
    decreases s.len(),
{
    if s.len() == 0 {
        assert(s =~= Seq::empty());
        of_nothing(false, 0);
    } else {
        let (r, x) = (s.drop_last(), s.last());
        assert(s =~= r.push(x));
        let f = telling(r, false);
        let (n, m) = (r.len() as int, f.len() as int);
        telling_push(r, x, false);
        telling_gives_the_notes(r, base);
        ended_before(r, x, base, n);
        if tells(x.event, false) {
            ended_before(f, x, base, m);
            telling_weighs_the_same(r, base, x.tick as int);
            weighed_push(r, x, base, 0);
            weighed_push(f, x, base, 0);
            assert(moment_at(r.push(x), base, n) == moment_at(f.push(x), base, m));
            assert(r.push(x)[n] == x && f.push(x)[m] == x);
            if let Some((channel, key)) = slot(x.event) {
                down_before(r, x, base, channel, key);
                down_before(f, x, base, channel, key);
                assert(down_since(f, base, m, channel, key) == down_since(r, base, n, channel, key));
            }
            assert(note_ended_at(r.push(x), base, n) == note_ended_at(f.push(x), base, m));
        } else {
            assert(r.push(x)[n] == x);
            assert(note_ended_at(r.push(x), base, n) is None);
        }
        assert forall|channel: u8, key: u8| #[trigger]
            down_since(telling(s, false), base, telling(s, false).len() as int, channel, key)
                == down_since(s, base, s.len() as int, channel, key) by {
            down_before(r, x, base, channel, key);
            assert(down_since(f, base, m, channel, key) == down_since(r, base, n, channel, key));
            if tells(x.event, false) {
                down_before(f, x, base, channel, key);
            }
        }
    }
}

proof fn all_tell(s: Seq<Timed>)
    ensures
        telling(s, true) == s,
    decreases s.len(),
{
    if s.len() == 0 {
        of_nothing(true, 0);
        assert(s =~= Seq::empty());
    } else {
        assert(s =~= s.drop_last().push(s.last()));
        all_tell(s.drop_last());
        telling_push(s.drop_last(), s.last(), true);
    }
}

/// Law: a piece has the same notes, in the same order, in whatever order its tracks come, where
/// no two tracks have a key or a tempo event at the same tick (or, in a file that gives its ticks
/// no finite length, any event): a tempo governs every track, whichever track it stands in.
pub proof fn order_of_tracks_does_not_matter(
    timing: Timing,
    a: Seq<Seq<TrackEvent>>,
    b: Seq<Seq<TrackEvent>>,
)
    requires
        a.to_multiset() == b.to_multiset(),
        keep_apart(a, base_of(timing).per_second == 0),
    ensures
        piece_notes(timing, a) == piece_notes(timing, b),
{
    let base = base_of(timing);
    let all = base.per_second == 0;
    let (la, lb) = (laid_end_to_end(a), laid_end_to_end(b));
    let (ma, mb) = (merged(a), merged(b));
    order_keeps_every_event(la);
    order_keeps_every_event(lb);
    telling_sorted(ma, all);
    telling_sorted(mb, all);
    assert forall|tick: u64| #[trigger] at_tick(telling(ma, all), tick) == at_tick(
        telling(mb, all),
        tick,
    ) by {
        order_is_stable(la, tick);
        order_is_stable(lb, tick);
        choices_commute(ma, all, tick);
        choices_commute(mb, all, tick);
        choices_commute(la, all, tick);
        choices_commute(lb, all, tick);
        all_told_is_laid(a, all, tick);
        all_told_is_laid(b, all, tick);
        any_order_tells_the_same(a, b, all, tick);
    }
    same_at_every_tick(telling(ma, all), telling(mb, all));
    if all {
        all_tell(ma);
        all_tell(mb);
    } else {
        telling_gives_the_notes(ma, base);
        telling_gives_the_notes(mb, base);
    }
}

} // verus!
