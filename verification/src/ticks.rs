//! Why it does not matter how finely a beat is divided: with `k` times the ticks to a beat, and
//! every pause `k` times as many ticks, a piece has the same notes.
use crate::midi::{merged, piece_notes, too_long};
use crate::notes::{
    base_of, down_since, elapsed, gap, last_touch, moment_at, note_ended_at, notes_ended, weight_at,
    TimeBase, SECOND,
};
use crate::order::{in_order, put_in};
use crate::score::{
    countable, laid_end_to_end, slot, tick_of, tick_of_grows, timed_track, Timed, Timing, TrackEvent,
};
use vstd::prelude::*;

verus! {

/// A track with every pause `k` times as many ticks.
pub open spec fn finer_track(track: Seq<TrackEvent>, k: int) -> Seq<TrackEvent> {
    Seq::new(
        track.len(),
        |j: int| TrackEvent { delta: (track[j].delta * k) as u32, event: track[j].event },
    )
}

/// Tracks with every pause `k` times as many ticks.
pub open spec fn finer(tracks: Seq<Seq<TrackEvent>>, k: int) -> Seq<Seq<TrackEvent>> {
    Seq::new(tracks.len(), |i: int| finer_track(tracks[i], k))
}

/// Whether every pause, `k` times as long, still fits.
pub open spec fn pauses_fit(tracks: Seq<Seq<TrackEvent>>, k: int) -> bool {
    forall|i: int, j: int|
        0 <= i < tracks.len() && 0 <= j < tracks[i].len() ==> (#[trigger] tracks[i][j]).delta * k
            <= u32::MAX
}

/// Events with `k` times the ticks.
spec fn stretched(s: Seq<Timed>, k: int) -> Seq<Timed> {
    Seq::new(s.len(), |j: int| Timed { tick: (s[j].tick * k) as u64, event: s[j].event })
}

/// Whether all ticks, `k` times as many, still fit.
spec fn ticks_fit(s: Seq<Timed>, k: int) -> bool {
    forall|j: int| 0 <= j < s.len() ==> (#[trigger] s[j]).tick * k <= u64::MAX
}

proof fn finer_ticks(track: Seq<TrackEvent>, k: int, j: int)
    requires
        k > 0,
        forall|i: int| 0 <= i < track.len() ==> (#[trigger] track[i]).delta * k <= u32::MAX,
        j < track.len(),
    ensures
        tick_of(finer_track(track, k), j) == tick_of(track, j) * k,
    decreases j + 1,
{
    if j < 0 {
        assert(0 * k == 0) by (nonlinear_arith);
    } else {
        finer_ticks(track, k, j - 1);
        assert(0 <= track[j].delta * k) by (nonlinear_arith)
            requires
                k > 0,
                track[j].delta >= 0,
        ;
        assert(track[j].delta * k <= u32::MAX);
        let (a, d) = (tick_of(track, j - 1) as int, track[j].delta as int);
        assert((a + d) * k == a * k + d * k) by (nonlinear_arith);
    }
}

proof fn finer_timed_track(track: Seq<TrackEvent>, k: int)
    requires
        k > 0,
        forall|i: int| 0 <= i < track.len() ==> (#[trigger] track[i]).delta * k <= u32::MAX,
        countable(finer_track(track, k)),
    ensures
        timed_track(finer_track(track, k)) == stretched(timed_track(track), k),
        ticks_fit(timed_track(track), k),
{
    let f = finer_track(track, k);
    assert forall|j: int| 0 <= j < track.len() implies #[trigger] timed_track(f)[j] == stretched(
        timed_track(track),
        k,
    )[j] by {
        finer_tick_fits(track, k, j);
    }
    assert forall|j: int| 0 <= j < timed_track(track).len() implies (#[trigger] timed_track(
        track,
    )[j]).tick * k <= u64::MAX by {
        finer_tick_fits(track, k, j);
    }
    assert(timed_track(f) =~= stretched(timed_track(track), k));
}

proof fn finer_tick_fits(track: Seq<TrackEvent>, k: int, j: int)
    requires
        k > 0,
        forall|i: int| 0 <= i < track.len() ==> (#[trigger] track[i]).delta * k <= u32::MAX,
        countable(finer_track(track, k)),
        0 <= j < track.len(),
    ensures
        tick_of(finer_track(track, k), j) == tick_of(track, j) * k,
        tick_of(track, j) * k <= u64::MAX,
        tick_of(track, j) <= u64::MAX,
{
    let f = finer_track(track, k);
    finer_ticks(track, k, j);
    tick_of_grows(f, j, f.len() - 1);
    let t = tick_of(track, j) as int;
    assert(t <= t * k) by (nonlinear_arith)
        requires
            t >= 0,
            k > 0,
    ;
}

proof fn finer_laid(tracks: Seq<Seq<TrackEvent>>, k: int)
    requires
        k > 0,
        pauses_fit(tracks, k),
        !too_long(finer(tracks, k)),
    ensures
        laid_end_to_end(finer(tracks, k)) == stretched(laid_end_to_end(tracks), k),
        ticks_fit(laid_end_to_end(tracks), k),
    decreases tracks.len(),
{
    let f = finer(tracks, k);
    if tracks.len() == 0 {
        assert(laid_end_to_end(f) =~= stretched(laid_end_to_end(tracks), k));
    } else {
        let (init, last) = (tracks.drop_last(), tracks.last());
        let n = tracks.len() - 1;
        assert(f.drop_last() =~= finer(init, k));
        assert(f.last() == finer_track(last, k));
        assert(pauses_fit(init, k)) by {
            assert forall|i: int, j: int| 0 <= i < init.len() && 0 <= j < init[i].len() implies (
            #[trigger] init[i][j]).delta * k <= u32::MAX by {
                assert(tracks[i][j].delta * k <= u32::MAX);
            }
        }
        assert(!too_long(finer(init, k))) by {
            if too_long(finer(init, k)) {
                let i = choose|i: int|
                    0 <= i < finer(init, k).len() && !countable(#[trigger] finer(init, k)[i]);
                assert(f[i] == finer(init, k)[i]);
                assert(!countable(f[i]));
            }
        }
        finer_laid(init, k);
        assert(countable(f[n]));
        assert forall|i: int| 0 <= i < last.len() implies (#[trigger] last[i]).delta * k
            <= u32::MAX by {
            assert(tracks[n][i].delta * k <= u32::MAX);
        }
        finer_timed_track(last, k);
        let (a, b) = (laid_end_to_end(init), timed_track(last));
        assert(stretched(a + b, k) =~= stretched(a, k) + stretched(b, k));
        assert forall|j: int| 0 <= j < (a + b).len() implies (#[trigger] (a + b)[j]).tick * k
            <= u64::MAX by {
            if j < a.len() {
                assert((a + b)[j] == a[j]);
            } else {
                assert((a + b)[j] == b[j - a.len()]);
            }
        }
    }
}

proof fn stretched_put_in(s: Seq<Timed>, x: Timed, k: int)
    requires
        k > 0,
        ticks_fit(s, k),
        x.tick * k <= u64::MAX,
    ensures
        put_in(stretched(s, k), Timed { tick: (x.tick * k) as u64, event: x.event }) == stretched(
            put_in(s, x),
            k,
        ),
        ticks_fit(put_in(s, x), k),
    decreases s.len(),
{
    let y = Timed { tick: (x.tick * k) as u64, event: x.event };
    assert(0 <= x.tick * k) by (nonlinear_arith)
        requires
            k > 0,
            x.tick >= 0,
    ;
    if s.len() == 0 {
        assert(put_in(stretched(s, k), y) =~= stretched(s.push(x), k));
    } else {
        let last = s[s.len() - 1];
        assert(last.tick * k <= u64::MAX);
        assert(0 <= last.tick * k && (last.tick <= x.tick <==> last.tick * k <= x.tick * k))
            by (nonlinear_arith)
            requires
                k > 0,
                last.tick >= 0,
        ;
        assert(stretched(s, k).last().tick == last.tick * k);
        if last.tick <= x.tick {
            assert(stretched(s, k).push(y) =~= stretched(s.push(x), k));
        } else {
            let init = s.drop_last();
            assert(stretched(s, k).drop_last() =~= stretched(init, k));
            assert forall|j: int| 0 <= j < init.len() implies (#[trigger] init[j]).tick * k
                <= u64::MAX by {
                assert(s[j].tick * k <= u64::MAX);
            }
            stretched_put_in(init, x, k);
            let p = put_in(init, x);
            assert(stretched(p, k).push(stretched(s, k).last()) =~= stretched(p.push(last), k));
        }
    }
}

proof fn stretched_in_order(s: Seq<Timed>, k: int)
    requires
        k > 0,
        ticks_fit(s, k),
    ensures
        in_order(stretched(s, k)) == stretched(in_order(s), k),
        ticks_fit(in_order(s), k),
    decreases s.len(),
{
    if s.len() == 0 {
        assert(in_order(stretched(s, k)) =~= stretched(in_order(s), k));
    } else {
        let init = s.drop_last();
        assert(stretched(s, k).drop_last() =~= stretched(init, k));
        assert forall|j: int| 0 <= j < init.len() implies (#[trigger] init[j]).tick * k
            <= u64::MAX by {
            assert(s[j].tick * k <= u64::MAX);
        }
        assert(s[s.len() - 1].tick * k <= u64::MAX);
        stretched_in_order(init, k);
        stretched_put_in(in_order(init), s.last(), k);
    }
}

/// Stretched events of a base `k` times as fine happen at the same moments.
proof fn stretched_moments(s: Seq<Timed>, k: int, coarse: TimeBase, fine: TimeBase, j: int)
    requires
        k > 0,
        ticks_fit(s, k),
        j < s.len(),
        coarse.per_second > 0,
        fine.per_second == coarse.per_second * k,
        fine.weight == coarse.weight,
        fine.tempo_counts == coarse.tempo_counts,
    ensures
        weight_at(stretched(s, k), fine, j) == weight_at(s, coarse, j),
        elapsed(stretched(s, k), fine, j) == elapsed(s, coarse, j) * k,
        moment_at(stretched(s, k), fine, j) == moment_at(s, coarse, j),
    decreases j + 1,
{
    let f = stretched(s, k);
    if j < 0 {
        assert(0 * k == 0) by (nonlinear_arith);
    } else {
        stretched_moments(s, k, coarse, fine, j - 1);
        assert(s[j].tick * k <= u64::MAX);
        assert(0 <= s[j].tick * k) by (nonlinear_arith)
            requires
                k > 0,
                s[j].tick >= 0,
        ;
        let before: int = if j > 0 {
            s[j - 1].tick as int
        } else {
            0
        };
        if j > 0 {
            assert(s[j - 1].tick * k <= u64::MAX);
            assert(0 <= s[j - 1].tick * k) by (nonlinear_arith)
                requires
                    k > 0,
                    s[j - 1].tick >= 0,
            ;
        } else {
            assert(0 * k == 0) by (nonlinear_arith);
        }
        let (g, w) = (gap(s, j), weight_at(s, coarse, j));
        assert(gap(f, j) == s[j].tick * k - before * k);
        assert(s[j].tick * k - before * k == g * k) by (nonlinear_arith)
            requires
                g == s[j].tick - before,
        ;
        let e = elapsed(s, coarse, j - 1);
        assert(e * k + (g * k) * w == (e + g * w) * k) by (nonlinear_arith);
    }
    let (e, p) = (elapsed(s, coarse, j), coarse.per_second as int);
    assert(p * k > 0) by (nonlinear_arith)
        requires
            p > 0,
            k > 0,
    ;
    assert((e * k) * SECOND == (e * SECOND) * k) by (nonlinear_arith);
    quotient_stays(e * SECOND, p, k);
}

/// Dividend and divisor grow alike, and the quotient stays.
proof fn quotient_stays(x: int, p: int, k: int)
    requires
        p > 0,
        k > 0,
    ensures
        (x * k) / (p * k) == x / p,
{
    let (q, r) = (x / p, x % p);
    assert(x == q * p + r && 0 <= r < p) by (nonlinear_arith)
        requires
            p > 0,
            q == x / p,
            r == x % p,
    ;
    assert(x * k == q * (p * k) + r * k && 0 <= r * k < p * k) by (nonlinear_arith)
        requires
            x == q * p + r,
            0 <= r < p,
            k > 0,
    ;
    vstd::arithmetic::div_mod::lemma_fundamental_div_mod_converse(x * k, p * k, q, r * k);
}

proof fn stretched_touches(s: Seq<Timed>, k: int, j: int, channel: u8, key: u8)
    requires
        j <= s.len(),
    ensures
        last_touch(stretched(s, k), j, channel, key) == last_touch(s, j, channel, key),
        last_touch(s, j, channel, key) matches Some(i) ==> 0 <= i < j,
    decreases j,
{
    if j > 0 {
        stretched_touches(s, k, j - 1, channel, key);
    }
}

proof fn stretched_notes(s: Seq<Timed>, k: int, coarse: TimeBase, fine: TimeBase, n: int)
    requires
        k > 0,
        ticks_fit(s, k),
        n <= s.len(),
        coarse.per_second > 0,
        fine.per_second == coarse.per_second * k,
        fine.weight == coarse.weight,
        fine.tempo_counts == coarse.tempo_counts,
    ensures
        notes_ended(stretched(s, k), fine, n) == notes_ended(s, coarse, n),
    decreases n,
{
    if n > 0 {
        let f = stretched(s, k);
        stretched_notes(s, k, coarse, fine, n - 1);
        stretched_moments(s, k, coarse, fine, n - 1);
        assert(f[n - 1].event == s[n - 1].event);
        if let Some((channel, key)) = slot(s[n - 1].event) {
            stretched_touches(s, k, n - 1, channel, key);
            if let Some(i) = last_touch(s, n - 1, channel, key) {
                stretched_moments(s, k, coarse, fine, i);
                assert(f[i].event == s[i].event);
            }
            assert(down_since(f, fine, n - 1, channel, key) == down_since(
                s,
                coarse,
                n - 1,
                channel,
                key,
            ));
        }
        assert(note_ended_at(f, fine, n - 1) == note_ended_at(s, coarse, n - 1));
    }
}

/// Law: it does not matter how finely a beat is divided. With `k` times the ticks to a beat, and
/// every pause `k` times as many ticks, a piece has the same notes in the same order.
pub proof fn finer_ticks_change_nothing(
    per_beat: u16,
    finer_per_beat: u16,
    tracks: Seq<Seq<TrackEvent>>,
    k: int,
)
    requires
        per_beat > 0,
        k > 0,
        finer_per_beat == per_beat * k,
        pauses_fit(tracks, k),
        !too_long(finer(tracks, k)),
    ensures
        piece_notes(Timing::Metrical(finer_per_beat), finer(tracks, k)) == piece_notes(
            Timing::Metrical(per_beat),
            tracks,
        ),
{
    let (coarse, fine) = (
        base_of(Timing::Metrical(per_beat)),
        base_of(Timing::Metrical(finer_per_beat)),
    );
    finer_laid(tracks, k);
    let laid = laid_end_to_end(tracks);
    stretched_in_order(laid, k);
    let events = merged(tracks);
    assert(merged(finer(tracks, k)) == stretched(events, k));
    assert(fine.per_second == coarse.per_second * k) by {
        assert((per_beat * k) * 1_000_000 == (per_beat * 1_000_000) * k) by (nonlinear_arith);
    }
    assert(per_beat * k > 0) by (nonlinear_arith)
        requires
            per_beat > 0,
            k > 0,
    ;
    stretched_notes(events, k, coarse, fine, events.len() as int);
}

} // verus!
