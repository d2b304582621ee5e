//! Putting events in order of their ticks, events of one tick staying in the order they came in.
use crate::score::{all_in_range, in_range, Timed};
use vstd::prelude::*;

verus! {

/// `s` with `x` put in: after everything that is not later than `x`, before all that is later.
/// (`s` is meant to be in order already.)
pub open spec fn put_in(s: Seq<Timed>, x: Timed) -> Seq<Timed>
    decreases s.len(),
{
    if s.len() == 0 || s.last().tick <= x.tick {
        s.push(x)
    } else {
        put_in(s.drop_last(), x).push(s.last())
    }
}

/// The events in order of their ticks: put in one by one, in the order they come.
pub open spec fn in_order(s: Seq<Timed>) -> Seq<Timed>
    decreases s.len(),
{
    if s.len() == 0 {
        s
    } else {
        put_in(in_order(s.drop_last()), s.last())
    }
}

/// Whether ticks never go back.
pub open spec fn sorted(s: Seq<Timed>) -> bool {
    forall|i: int, j: int| 0 <= i <= j < s.len() ==> s[i].tick <= s[j].tick
}

/// The events of `s` that happen at `tick`, in the order in which `s` has them.
pub open spec fn at_tick(s: Seq<Timed>, tick: u64) -> Seq<Timed> {
    s.filter(|e: Timed| e.tick == tick)
}

/// Two ordered runs zipped into one; at equal ticks those of `a` come first.
pub closed spec fn zip(a: Seq<Timed>, b: Seq<Timed>) -> Seq<Timed>
    decreases a.len() + b.len(),
{
    if b.len() == 0 {
        a
    } else if a.len() == 0 {
        b
    } else if a.last().tick > b.last().tick {
        zip(a.drop_last(), b).push(a.last())
    } else {
        zip(a, b.drop_last()).push(b.last())
    }
}

proof fn zip_len(a: Seq<Timed>, b: Seq<Timed>)
    ensures
        zip(a, b).len() == a.len() + b.len(),
    decreases a.len() + b.len(),
{
    if b.len() > 0 && a.len() > 0 {
        if a.last().tick > b.last().tick {
            zip_len(a.drop_last(), b);
        } else {
            zip_len(a, b.drop_last());
        }
    }
}

/// Putting `x` into the second run puts it into the zipped runs.
proof fn zip_put_in(a: Seq<Timed>, b: Seq<Timed>, x: Timed)
    ensures
        zip(a, put_in(b, x)) == put_in(zip(a, b), x),
    decreases a.len() + b.len(),
{
    let c = put_in(b, x);
    if b.len() == 0 || b.last().tick <= x.tick {
        assert(c.drop_last() =~= b);
        assert(c.last() == x);
        if a.len() > 0 {
            if a.last().tick > x.tick {
                zip_put_in(a.drop_last(), b, x);
                assert(zip(a, b) =~= zip(a.drop_last(), b).push(a.last()));
                assert(zip(a, b).drop_last() =~= zip(a.drop_last(), b));
            } else {
                zip_len(a, b);
            }
        }
    } else {
        assert(c.drop_last() =~= put_in(b.drop_last(), x));
        assert(c.last() == b.last());
        if a.len() > 0 {
            if a.last().tick > b.last().tick {
                zip_put_in(a.drop_last(), b, x);
                assert(zip(a, b).drop_last() =~= zip(a.drop_last(), b));
            } else {
                zip_put_in(a, b.drop_last(), x);
                assert(zip(a, b).drop_last() =~= zip(a, b.drop_last()));
            }
        }
    }
}

/// Two runs put in order apart and zipped are the runs put in order together.
proof fn zip_in_order(a: Seq<Timed>, b: Seq<Timed>)
    ensures
        zip(in_order(a), in_order(b)) == in_order(a + b),
    decreases b.len(),
{
    if b.len() == 0 {
        assert(a + b =~= a);
    } else {
        assert((a + b).drop_last() =~= a + b.drop_last());
        assert((a + b).last() == b.last());
        zip_in_order(a, b.drop_last());
        zip_put_in(in_order(a), in_order(b.drop_last()), b.last());
    }
}

/// Zips two ordered runs, from the back.
fn zip_runs(a: &Vec<Timed>, b: &Vec<Timed>) -> (out: Vec<Timed>)
    ensures
        out@ == zip(a@, b@),
{
    let mut i: usize = a.len();
    let mut j: usize = b.len();
    let mut back: Vec<Timed> = Vec::new();
    assert(a@.take(i as int) =~= a@);
    assert(b@.take(j as int) =~= b@);
    assert(zip(a@, b@) =~= zip(a@, b@) + back@.reverse());
    while i > 0 || j > 0
        invariant
            i <= a.len(),
            j <= b.len(),
            zip(a@, b@) =~= zip(a@.take(i as int), b@.take(j as int)) + back@.reverse(),
        decreases i + j,
    {
        let ghost ta = a@.take(i as int);
        let ghost tb = b@.take(j as int);
        let ghost before = back@;
        if j == 0 || (i > 0 && a[i - 1].tick > b[j - 1].tick) {
            back.push(a[i - 1]);
            i -= 1;
            assert(ta.drop_last() =~= a@.take(i as int));
            assert(zip(ta, tb) =~= zip(ta.drop_last(), tb).push(ta.last())) by {
                if j == 0 {
                    assert(zip(ta, tb) == ta);
                    assert(zip(ta.drop_last(), tb) == ta.drop_last());
                }
            }
        } else {
            back.push(b[j - 1]);
            j -= 1;
            assert(tb.drop_last() =~= b@.take(j as int));
            assert(zip(ta, tb) =~= zip(ta, tb.drop_last()).push(tb.last())) by {
                if i == 0 {
                    assert(zip(ta, tb) == tb);
                    assert(zip(ta, tb.drop_last()) =~= tb.drop_last());
                }
            }
        }
        assert(back@.reverse() =~= seq![back@.last()] + before.reverse());
    }
    assert(zip(a@.take(0), b@.take(0)) =~= Seq::<Timed>::empty());
    let mut out: Vec<Timed> = Vec::new();
    let mut k: usize = back.len();
    while k > 0
        invariant
            k <= back.len(),
            out@ =~= back@.reverse().take(back@.len() - k),
        decreases k,
    {
        k -= 1;
        out.push(back[k]);
    }
    assert(out@ =~= back@.reverse());
    out
}

/// Puts the events from `from` up to `to` in order.
fn order_range(events: &Vec<Timed>, from: usize, to: usize) -> (out: Vec<Timed>)
    requires
        from <= to <= events.len(),
    ensures
        out@ == in_order(events@.subrange(from as int, to as int)),
    decreases to - from,
{
    let ghost part = events@.subrange(from as int, to as int);
    if to - from <= 1 {
        let mut out: Vec<Timed> = Vec::new();
        if from < to {
            out.push(events[from]);
            assert(part.drop_last() =~= Seq::<Timed>::empty());
            reveal_with_fuel(in_order, 2);
        }
        assert(out@ =~= in_order(part));
        return out;
    }
    let mid = from + (to - from) / 2;
    let a = order_range(events, from, mid);
    let b = order_range(events, mid, to);
    proof {
        let pa = events@.subrange(from as int, mid as int);
        let pb = events@.subrange(mid as int, to as int);
        assert(pa + pb =~= part);
        zip_in_order(pa, pb);
    }
    zip_runs(&a, &b)
}

/// The events in order of their ticks, events of one tick in the order they came in.
pub fn order_events(events: &Vec<Timed>) -> (out: Vec<Timed>)
    ensures
        out@ == in_order(events@),
{
    assert(events@.subrange(0, events@.len() as int) =~= events@);
    order_range(events, 0, events.len())
}

proof fn put_in_sorted(s: Seq<Timed>, x: Timed)
    requires
        sorted(s),
    ensures
        sorted(put_in(s, x)),
        put_in(s, x).len() == s.len() + 1,
        put_in(s, x).last().tick == if s.len() > 0 && s.last().tick > x.tick {
            s.last().tick
        } else {
            x.tick
        },
    decreases s.len(),
{
    if s.len() > 0 && s.last().tick > x.tick {
        put_in_sorted(s.drop_last(), x);
        let r = put_in(s.drop_last(), x);
        assert(r.last().tick <= s.last().tick);
    }
}

proof fn put_in_multiset(s: Seq<Timed>, x: Timed)
    ensures
        put_in(s, x).to_multiset() =~= s.to_multiset().insert(x),
    decreases s.len(),
{
    broadcast use vstd::seq_lib::group_to_multiset_ensures;

    if s.len() > 0 && s.last().tick > x.tick {
        put_in_multiset(s.drop_last(), x);
        assert(s =~= s.drop_last().push(s.last()));
    }
}

proof fn filter_push(s: Seq<Timed>, x: Timed, tick: u64)
    ensures
        at_tick(s.push(x), tick) == if x.tick == tick {
            at_tick(s, tick).push(x)
        } else {
            at_tick(s, tick)
        },
{
    assert(s.push(x).drop_last() =~= s);
    reveal(Seq::filter);
}

proof fn put_in_at_tick(s: Seq<Timed>, x: Timed, tick: u64)
    requires
        sorted(s),
    ensures
        at_tick(put_in(s, x), tick) == if x.tick == tick {
            at_tick(s, tick).push(x)
        } else {
            at_tick(s, tick)
        },
    decreases s.len(),
{
    if s.len() == 0 || s.last().tick <= x.tick {
        filter_push(s, x, tick);
    } else {
        let init = s.drop_last();
        put_in_at_tick(init, x, tick);
        filter_push(put_in(init, x), s.last(), tick);
        assert(s =~= init.push(s.last()));
        filter_push(init, s.last(), tick);
        if s.last().tick == tick {
            assert(x.tick != tick);
        }
    }
}

/// Law: putting events in order loses none, adds none, and leaves their ticks in order.
pub proof fn order_keeps_every_event(s: Seq<Timed>)
    ensures
        sorted(in_order(s)),
        in_order(s).len() == s.len(),
        in_order(s).to_multiset() == s.to_multiset(),
    decreases s.len(),
{
    broadcast use vstd::seq_lib::group_to_multiset_ensures;

    if s.len() > 0 {
        order_keeps_every_event(s.drop_last());
        put_in_sorted(in_order(s.drop_last()), s.last());
        put_in_multiset(in_order(s.drop_last()), s.last());
        assert(s =~= s.drop_last().push(s.last()));
    }
}

/// Law: events of one tick keep the order in which they came.
pub proof fn order_is_stable(s: Seq<Timed>, tick: u64)
    ensures
        at_tick(in_order(s), tick) == at_tick(s, tick),
    decreases s.len(),
{
    if s.len() > 0 {
        order_is_stable(s.drop_last(), tick);
        order_keeps_every_event(s.drop_last());
        put_in_at_tick(in_order(s.drop_last()), s.last(), tick);
        assert(s =~= s.drop_last().push(s.last()));
        filter_push(s.drop_last(), s.last(), tick);
    }
}

/// Law: events that are in order already stay as they are.
pub proof fn order_of_ordered(s: Seq<Timed>)
    requires
        sorted(s),
    ensures
        in_order(s) == s,
    decreases s.len(),
{
    if s.len() > 0 {
        order_of_ordered(s.drop_last());
        assert(s =~= s.drop_last().push(s.last()));
    }
}

proof fn put_in_in_range(s: Seq<Timed>, x: Timed)
    requires
        all_in_range(s),
        in_range(x.event),
    ensures
        all_in_range(put_in(s, x)),
    decreases s.len(),
{
    if s.len() > 0 && s.last().tick > x.tick {
        put_in_in_range(s.drop_last(), x);
        assert(in_range(s[s.len() - 1].event));
    }
}

/// Putting events in order keeps every event's numbers in range.
pub proof fn order_in_range(s: Seq<Timed>)
    requires
        all_in_range(s),
    ensures
        all_in_range(in_order(s)),
    decreases s.len(),
{
    if s.len() > 0 {
        order_in_range(s.drop_last());
        assert(in_range(s[s.len() - 1].event));
        put_in_in_range(in_order(s.drop_last()), s.last());
    }
}

} // verus!
