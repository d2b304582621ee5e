//! The segments that a JPEG file is made of, walked to its frame header and on to its scans, to
//! tell the few files that no decoder should be handed.
use vstd::prelude::*;

verus! {

/// What the frame header of a JPEG file says: the code of the coding process, the bits of a
/// sample, the sides, and the number of components.
#[derive(Clone, Copy, Debug, PartialEq, Eq, Structural)]
pub struct Frame {
    pub code: u8,
    pub precision: u8,
    pub width: u16,
    pub height: u16,
    pub components: u8,
}

/// Where the code of the first marker from `at` on stands: a byte other than 0 and 0xff behind a
/// byte 0xff.
pub open spec fn marker_from(s: Seq<u8>, at: int) -> Option<int>
    decreases s.len() - at,
{
    if at < 0 || at + 1 >= s.len() {
        None
    } else if s[at] == 0xff && s[at + 1] != 0 && s[at + 1] != 0xff {
        Some(at + 1)
    } else {
        marker_from(s, at + 1)
    }
}

/// Whether this is the code of a frame header.
pub open spec fn starts_frame(code: u8) -> bool {
    0xc0 <= code <= 0xcf && code != 0xc4 && code != 0xc8 && code != 0xcc
}

/// Whether this is the code of a segment that may stand anywhere: tables, application data and
/// comments.
pub open spec fn stands_anywhere(code: u8) -> bool {
    code == 0xc4 || code == 0xdb || code == 0xdd || 0xe0 <= code <= 0xef || code == 0xfe
}

/// The number that two bytes spell, the most significant first.
pub open spec fn pair(high: u8, low: u8) -> int {
    high * 256 + low
}

/// The length of the segment whose code stands at `m`; `None` where it is cut off or too short to
/// count itself.
pub open spec fn segment_length(s: Seq<u8>, m: int) -> Option<int> {
    if m + 2 < s.len() && pair(s[m + 1], s[m + 2]) >= 2 {
        Some(pair(s[m + 1], s[m + 2]))
    } else {
        None
    }
}

/// What is left of `s` from `at` on.
pub open spec fn left_from(s: Seq<u8>, at: int) -> int {
    if at <= s.len() {
        s.len() - at
    } else {
        0
    }
}

/// Whether the frame header whose code stands at `m` is there in full.
pub open spec fn header_fits(s: Seq<u8>, m: int) -> bool {
    m + 8 < s.len() && m + 8 + 3 * s[m + 8] < s.len()
}

/// Where the code of the first frame header stands, walking the segments from `at` on.
pub open spec fn header_from(s: Seq<u8>, at: int) -> Option<int>
    decreases left_from(s, at),
    via header_walk_goes_on
{
    match marker_from(s, at) {
        None => None,
        Some(m) => if starts_frame(s[m]) {
            if header_fits(s, m) {
                Some(m)
            } else {
                None
            }
        } else if stands_anywhere(s[m]) {
            match segment_length(s, m) {
                Some(n) => header_from(s, m + 1 + n),
                None => None,
            }
        } else {
            None
        },
    }
}

#[via_fn]
proof fn header_walk_goes_on(s: Seq<u8>, at: int) {
    marker_is_ahead(s, at);
}

proof fn marker_is_ahead(s: Seq<u8>, at: int)
    ensures
        marker_from(s, at) matches Some(m) ==> 0 <= at < m < s.len(),
    decreases s.len() - at,
{
    if at >= 0 && at + 1 < s.len() {
        marker_is_ahead(s, at + 1);
    }
}

/// The frame header whose code stands at `m`.
pub open spec fn frame_at(s: Seq<u8>, m: int) -> Frame {
    Frame {
        code: s[m],
        precision: s[m + 3],
        height: pair(s[m + 4], s[m + 5]) as u16,
        width: pair(s[m + 6], s[m + 7]) as u16,
        components: s[m + 8],
    }
}

/// The frame header of a JPEG file.
pub open spec fn frame_of(s: Seq<u8>) -> Option<Frame> {
    match header_from(s, 2) {
        Some(m) => Some(frame_at(s, m)),
        None => None,
    }
}

/// The longest side whose blocks can be counted, in pixels, with 16 bits.
pub const LONGEST: u16 = 65_528;

/// How often component `i` of the frame header at `m` is sampled down a unit of the picture.
pub open spec fn down_factor(s: Seq<u8>, m: int, i: int) -> int {
    s[m + 10 + 3 * i] as int % 16
}

/// How often component `i` of the frame header at `m` is sampled across a unit of the picture.
pub open spec fn across_factor(s: Seq<u8>, m: int, i: int) -> int {
    s[m + 10 + 3 * i] as int / 16
}

/// Whether no component of the frame header at `m` is sampled more often down than component `i`.
pub open spec fn finest_down(s: Seq<u8>, m: int, i: int) -> bool {
    forall|j: int| 0 <= j < s[m + 8] ==> #[trigger] down_factor(s, m, j) <= down_factor(s, m, i)
}

/// Whether the scan header whose code stands at `k` is there in full.
pub open spec fn scan_fits(s: Seq<u8>, k: int) -> bool {
    k + 3 < s.len() && k + 6 + 2 * s[k + 3] < s.len()
}

/// The component that the scan header at `k` names in place `j`.
pub open spec fn scanned(s: Seq<u8>, k: int, j: int) -> u8 {
    s[k + 4 + 2 * j]
}

/// Whether the scan header at `k` names this component.
pub open spec fn scans(s: Seq<u8>, k: int, id: u8) -> bool {
    exists|j: int| 0 <= j < s[k + 3] && #[trigger] scanned(s, k, j) == id
}

/// Which coefficients of a block are settled once the scan at `k` of the frame at `m` has come, for
/// those that were settled `before`: a scan down to the last bit settles the coefficients that it
/// spans, and one that is not progressive spans them all.
pub open spec fn settled_by(s: Seq<u8>, m: int, k: int, before: Seq<bool>) -> Seq<bool> {
    let n = s[k + 3] as int;
    let last: int = if s[m] == 0xc2 {
        s[k + 5 + 2 * n] as int
    } else {
        63
    };
    if s[k + 6 + 2 * n] % 16 == 0 {
        Seq::new(64, |c: int| before[c] || s[k + 4 + 2 * n] <= c <= last)
    } else {
        before
    }
}

/// Which coefficients of each component are settled once the scan at `k` has come.
pub open spec fn settled_after(
    s: Seq<u8>,
    m: int,
    k: int,
    before: Seq<Seq<bool>>,
) -> Seq<Seq<bool>> {
    Seq::new(
        before.len(),
        |i: int|
            if scans(s, k, s[m + 9 + 3 * i]) {
                settled_by(s, m, k, before[i])
            } else {
                before[i]
            },
    )
}

/// Whether all coefficients of a block are settled.
pub open spec fn all_settled(settled: Seq<bool>) -> bool {
    forall|c: int| 0 <= c < 64 ==> #[trigger] settled[c]
}

/// Whether the scan at `k` is the one that completes a component.
pub open spec fn completes(s: Seq<u8>, m: int, k: int, before: Seq<bool>) -> bool {
    !all_settled(before) && all_settled(settled_by(s, m, k, before))
}

/// Whether the pixels of component `i`, scanned alone, are too many down or across to count. A
/// scan of one component goes by its own blocks; three to a unit, they may reach past the edge,
/// and where the scan completes the component, the row behind the last is counted too.
pub open spec fn outgrows(s: Seq<u8>, m: int, k: int, i: int, before: Seq<bool>) -> bool {
    ||| frame_at(s, m).height > LONGEST && finest_down(s, m, i) && (down_factor(s, m, i) == 3
        || completes(s, m, k, before))
    ||| frame_at(s, m).width > LONGEST && across_factor(s, m, i) == 3
}

/// Whether the scan header whose code stands at `k` names a single component, and that one
/// outgrows its scan.
pub open spec fn overgrown(s: Seq<u8>, m: int, k: int, before: Seq<Seq<bool>>) -> bool {
    &&& s[k + 3] == 1
    &&& exists|i: int|
        0 <= i < s[m + 8] && s[m + 9 + 3 * i] == s[k + 4] && #[trigger] outgrows(
            s,
            m,
            k,
            i,
            before[i],
        )
}

/// Whether, walking the segments from `at` on, one comes to a scan of a single component that
/// outgrows it. Between a scan and what follows it stand its data, which hold no marker but those
/// of restarts.
pub open spec fn overgrown_from(s: Seq<u8>, m: int, at: int, before: Seq<Seq<bool>>) -> bool
    decreases left_from(s, at),
    via scan_walk_goes_on
{
    match marker_from(s, at) {
        None => false,
        Some(k) => if 0xd0 <= s[k] <= 0xd7 {
            overgrown_from(s, m, k + 1, before)
        } else if s[k] == 0xda {
            scan_fits(s, k) && {
                ||| overgrown(s, m, k, before)
                ||| segment_length(s, k) matches Some(n) && overgrown_from(
                    s,
                    m,
                    k + 1 + n,
                    settled_after(s, m, k, before),
                )
            }
        } else if stands_anywhere(s[k]) {
            segment_length(s, k) matches Some(n) && overgrown_from(s, m, k + 1 + n, before)
        } else {
            false
        },
    }
}

#[via_fn]
proof fn scan_walk_goes_on(s: Seq<u8>, m: int, at: int, before: Seq<Seq<bool>>) {
    marker_is_ahead(s, at);
}

/// A block with nothing settled.
pub open spec fn unsettled_block() -> Seq<bool> {
    Seq::new(64, |c: int| false)
}

/// Nothing settled of `n` components.
pub open spec fn unsettled(n: int) -> Seq<Seq<bool>> {
    Seq::new(n as nat, |i: int| unsettled_block())
}

/// Whether a lossless frame decodes to another number of bytes than its pixels are given: samples
/// of 8 bits take a byte and all others two, but only those of a single component of more than 8
/// bits are given two.
pub open spec fn miscounted(f: Frame) -> bool {
    f.precision != 8 && !(f.components == 1 && f.precision > 8)
}

/// Whether a file is not to be handed to the decoder: a lossless frame whose bytes are
/// miscounted, or another with a scan of one component that is too large to count.
pub open spec fn undecodable(s: Seq<u8>) -> bool {
    header_from(s, 2) matches Some(m) && if s[m] == 0xc3 {
        miscounted(frame_at(s, m))
    } else {
        overgrown_from(s, m, m + 1 + pair(s[m + 1], s[m + 2]), unsettled(s[m + 8] as int))
    }
}

fn find_marker(s: &[u8], from: usize) -> (r: Option<usize>)
    ensures
        match r {
            Some(m) => marker_from(s@, from as int) == Some(m as int) && from < m < s.len(),
            None => marker_from(s@, from as int) is None,
        },
{
    let n = s.len();
    let mut at: usize = from;
    while at < n && at + 1 < n
        invariant
            n == s.len(),
            from <= at,
            marker_from(s@, from as int) == marker_from(s@, at as int),
        decreases n - at,
    {
        if s[at] == 0xff && s[at + 1] != 0 && s[at + 1] != 0xff {
            return Some(at + 1);
        }
        at += 1;
    }
    None
}

fn may_stand_anywhere(code: u8) -> (r: bool)
    ensures
        r == stands_anywhere(code),
{
    code == 0xc4 || code == 0xdb || code == 0xdd || (0xe0 <= code && code <= 0xef) || code == 0xfe
}

/// Where the segment whose code stands at `m` ends; `None` where that is past the end of the file.
fn segment_end(s: &[u8], m: usize) -> (r: Option<usize>)
    requires
        m < s.len(),
    ensures
        match r {
            Some(end) => segment_length(s@, m as int) == Some(end - m - 1) && m < end <= s.len(),
            None => segment_length(s@, m as int) matches Some(n) ==> m + 1 + n > s.len(),
        },
{
    let n = s.len();
    if n - m <= 2 {
        return None;
    }
    let size = s[m + 1] as usize * 256 + s[m + 2] as usize;
    if size < 2 || size >= n - m {
        return None;
    }
    Some(m + 1 + size)
}

/// Where the code of the frame header stands.
fn find_header(s: &[u8]) -> (r: Option<usize>)
    ensures
        match r {
            Some(m) => header_from(s@, 2) == Some(m as int) && header_fits(s@, m as int),
            None => header_from(s@, 2) is None,
        },
{
    let n = s.len();
    let mut at: usize = 2;
    loop
        invariant
            n == s.len(),
            header_from(s@, 2) == header_from(s@, at as int),
        decreases left_from(s@, at as int),
    {
        let m = match find_marker(s, at) {
            None => {
                return None;
            },
            Some(m) => m,
        };
        let code = s[m];
        if 0xc0 <= code && code <= 0xcf && code != 0xc4 && code != 0xc8 && code != 0xcc {
            if n - m <= 8 || n - m - 8 <= 3 * s[m + 8] as usize {
                return None;
            }
            return Some(m);
        }
        if !may_stand_anywhere(code) {
            return None;
        }
        match segment_end(s, m) {
            None => {
                proof {
                    if let Some(size) = segment_length(s@, m as int) {
                        nothing_past_the_end(
                            s@,
                            m as int,
                            m + 1 + size,
                            unsettled(s[m + 8] as int),
                        );
                    }
                }
                return None;
            },
            Some(end) => {
                at = end;
            },
        }
    }
}

fn frame(s: &[u8], m: usize) -> (f: Frame)
    requires
        header_fits(s@, m as int),
    ensures
        f == frame_at(s@, m as int),
{
    let total = s.len();
    assert(m + 8 < total);
    Frame {
        code: s[m],
        precision: s[m + 3],
        height: s[m + 4] as u16 * 256 + s[m + 5] as u16,
        width: s[m + 6] as u16 * 256 + s[m + 7] as u16,
        components: s[m + 8],
    }
}

fn is_finest_down(s: &[u8], m: usize, i: usize) -> (r: bool)
    requires
        header_fits(s@, m as int),
        i < s[m + 8],
    ensures
        r == finest_down(s@, m as int, i as int),
{
    let total = s.len();
    let n = s[m + 8] as usize;
    let mine = s[m + 10 + 3 * i] % 16;
    let mut j: usize = 0;
    while j < n
        invariant
            j <= n,
            total == s.len(),
            n == s[m + 8],
            i < n,
            header_fits(s@, m as int),
            mine == down_factor(s@, m as int, i as int),
            forall|k: int|
                0 <= k < j ==> #[trigger] down_factor(s@, m as int, k) <= down_factor(
                    s@,
                    m as int,
                    i as int,
                ),
        decreases n - j,
    {
        let other = s[m + 10 + 3 * j] % 16;
        assert(other == down_factor(s@, m as int, j as int));
        if other > mine {
            return false;
        }
        j += 1;
    }
    true
}

/// What is settled, as sequences.
spec fn seqs(settled: Seq<Vec<bool>>) -> Seq<Seq<bool>> {
    Seq::new(settled.len(), |i: int| settled[i]@)
}

fn nothing_settled(n: usize) -> (r: Vec<Vec<bool>>)
    ensures
        seqs(r@) == unsettled(n as int),
        r.len() == n,
        forall|i: int| 0 <= i < n ==> (#[trigger] r[i]).len() == 64,
{
    let mut r: Vec<Vec<bool>> = Vec::new();
    let mut i: usize = 0;
    while i < n
        invariant
            i <= n,
            r.len() == i,
            forall|j: int| 0 <= j < i ==> (#[trigger] r[j])@ == unsettled_block(),
        decreases n - i,
    {
        let mut row: Vec<bool> = Vec::new();
        let mut c: usize = 0;
        while c < 64
            invariant
                c <= 64,
                row@ =~= unsettled_block().take(c as int),
            decreases 64 - c,
        {
            row.push(false);
            c += 1;
        }
        assert(row@ =~= unsettled_block());
        r.push(row);
        i += 1;
    }
    assert forall|i: int| 0 <= i < n implies (#[trigger] r[i]).len() == 64 by {
        assert(r[i]@ == unsettled_block());
    }
    assert(seqs(r@) =~= unsettled(n as int));
    r
}

fn settle(s: &[u8], m: usize, k: usize, before: &Vec<bool>) -> (after: Vec<bool>)
    requires
        m < s.len(),
        scan_fits(s@, k as int),
        before.len() == 64,
    ensures
        after@ == settled_by(s@, m as int, k as int, before@),
        after.len() == 64,
{
    let total = s.len();
    let n = s[k + 3] as usize;
    let first = s[k + 4 + 2 * n] as usize;
    let last = if s[m] == 0xc2 {
        s[k + 5 + 2 * n] as usize
    } else {
        63
    };
    let full = s[k + 6 + 2 * n] % 16 == 0;
    let mut after: Vec<bool> = Vec::new();
    let mut c: usize = 0;
    while c < 64
        invariant
            c <= 64,
            before.len() == 64,
            after@ =~= Seq::new(
                c as nat,
                |c: int| before[c] || (full && first <= c <= last),
            ),
        decreases 64 - c,
    {
        after.push(before[c] || (full && first <= c && c <= last));
        c += 1;
    }
    assert(after@ =~= settled_by(s@, m as int, k as int, before@));
    after
}

fn is_all_settled(settled: &Vec<bool>) -> (r: bool)
    requires
        settled.len() == 64,
    ensures
        r == all_settled(settled@),
{
    let mut c: usize = 0;
    while c < 64
        invariant
            c <= 64,
            settled.len() == 64,
            forall|d: int| 0 <= d < c ==> #[trigger] settled@[d],
        decreases 64 - c,
    {
        if !settled[c] {
            assert(!settled@[c as int]);
            return false;
        }
        c += 1;
    }
    true
}

fn does_scan(s: &[u8], k: usize, id: u8) -> (r: bool)
    requires
        scan_fits(s@, k as int),
    ensures
        r == scans(s@, k as int, id),
{
    let total = s.len();
    let n = s[k + 3] as usize;
    let mut j: usize = 0;
    while j < n
        invariant
            j <= n,
            n == s[k + 3],
            total == s.len(),
            scan_fits(s@, k as int),
            forall|i: int| 0 <= i < j ==> #[trigger] scanned(s@, k as int, i) != id,
        decreases n - j,
    {
        assert(scanned(s@, k as int, j as int) == s[k + 4 + 2 * j]);
        if s[k + 4 + 2 * j] == id {
            return true;
        }
        j += 1;
    }
    false
}

fn settle_all(s: &[u8], m: usize, k: usize, before: &Vec<Vec<bool>>) -> (after: Vec<Vec<bool>>)
    requires
        header_fits(s@, m as int),
        scan_fits(s@, k as int),
        before.len() == s[m + 8],
        forall|i: int| 0 <= i < before.len() ==> (#[trigger] before[i]).len() == 64,
    ensures
        seqs(after@) == settled_after(s@, m as int, k as int, seqs(before@)),
        after.len() == before.len(),
        forall|i: int| 0 <= i < after.len() ==> (#[trigger] after[i]).len() == 64,
{
    let total = s.len();
    let n = before.len();
    let mut after: Vec<Vec<bool>> = Vec::new();
    let mut i: usize = 0;
    while i < n
        invariant
            i <= n,
            n == before.len(),
            n == s[m + 8],
            total == s.len(),
            header_fits(s@, m as int),
            scan_fits(s@, k as int),
            forall|i: int| 0 <= i < n ==> (#[trigger] before[i]).len() == 64,
            after.len() == i,
            forall|j: int|
                0 <= j < i ==> (#[trigger] after[j]).len() == 64 && after[j]@ == settled_after(
                    s@,
                    m as int,
                    k as int,
                    seqs(before@),
                )[j],
        decreases n - i,
    {
        assert(seqs(before@)[i as int] == before[i as int]@);
        let row = if does_scan(s, k, s[m + 9 + 3 * i]) {
            settle(s, m, k, &before[i])
        } else {
            let mut same: Vec<bool> = Vec::new();
            let mut c: usize = 0;
            while c < 64
                invariant
                    c <= 64,
                    i < before.len(),
                    before[i as int].len() == 64,
                    same@ =~= before[i as int]@.take(c as int),
                decreases 64 - c,
            {
                same.push(before[i][c]);
                c += 1;
            }
            assert(same@ =~= before[i as int]@);
            same
        };
        after.push(row);
        i += 1;
    }
    assert(seqs(after@) =~= settled_after(s@, m as int, k as int, seqs(before@)));
    after
}

fn is_overgrown(s: &[u8], m: usize, k: usize, before: &Vec<Vec<bool>>) -> (r: bool)
    requires
        header_fits(s@, m as int),
        scan_fits(s@, k as int),
        before.len() == s[m + 8],
        forall|i: int| 0 <= i < before.len() ==> (#[trigger] before[i]).len() == 64,
    ensures
        r == overgrown(s@, m as int, k as int, seqs(before@)),
{
    let total = s.len();
    if s[k + 3] != 1 {
        return false;
    }
    let id = s[k + 4];
    let f = frame(s, m);
    let n = before.len();
    let mut i: usize = 0;
    while i < n
        invariant
            i <= n,
            total == s.len(),
            scan_fits(s@, k as int),
            s[k + 3] == 1,
            id == s[k + 4],
            n == before.len(),
            n == s[m + 8],
            header_fits(s@, m as int),
            f == frame_at(s@, m as int),
            forall|i: int| 0 <= i < n ==> (#[trigger] before[i]).len() == 64,
            forall|j: int|
                0 <= j < i && s@[m + 9 + 3 * j] == id ==> !#[trigger] outgrows(
                    s@,
                    m as int,
                    k as int,
                    j,
                    seqs(before@)[j],
                ),
        decreases n - i,
    {
        let settled = settle(s, m, k, &before[i]);
        let completing = !is_all_settled(&before[i]) && is_all_settled(&settled);
        let factors = s[m + 10 + 3 * i];
        let tall = f.height > LONGEST && is_finest_down(s, m, i) && (factors % 16 == 3
            || completing);
        let wide = f.width > LONGEST && factors / 16 == 3;
        assert(seqs(before@)[i as int] == before[i as int]@);
        assert((tall || wide) == outgrows(
            s@,
            m as int,
            k as int,
            i as int,
            seqs(before@)[i as int],
        ));
        if s[m + 9 + 3 * i] == id && (tall || wide) {
            return true;
        }
        i += 1;
    }
    false
}

proof fn nothing_past_the_end(s: Seq<u8>, m: int, at: int, before: Seq<Seq<bool>>)
    requires
        at >= s.len(),
    ensures
        header_from(s, at) is None,
        !overgrown_from(s, m, at, before),
{
}

fn has_overgrown_scan(s: &[u8], m: usize, from: usize) -> (r: bool)
    requires
        header_fits(s@, m as int),
    ensures
        r == overgrown_from(s@, m as int, from as int, unsettled(s[m + 8] as int)),
{
    let n = s.len();
    let mut settled = nothing_settled(s[m + 8] as usize);
    let mut at: usize = from;
    loop
        invariant
            n == s.len(),
            header_fits(s@, m as int),
            settled.len() == s[m + 8],
            forall|i: int| 0 <= i < settled.len() ==> (#[trigger] settled[i]).len() == 64,
            overgrown_from(s@, m as int, from as int, unsettled(s[m + 8] as int))
                == overgrown_from(s@, m as int, at as int, seqs(settled@)),
        decreases left_from(s@, at as int),
    {
        let k = match find_marker(s, at) {
            None => {
                return false;
            },
            Some(k) => k,
        };
        let code = s[k];
        if 0xd0 <= code && code <= 0xd7 {
            at = k + 1;
        } else if code == 0xda || may_stand_anywhere(code) {
            if code == 0xda {
                if n - k <= 3 || n - k - 3 <= 3 + 2 * s[k + 3] as usize {
                    return false;
                }
                if is_overgrown(s, m, k, &settled) {
                    return true;
                }
                settled = settle_all(s, m, k, &settled);
            }
            match segment_end(s, k) {
                None => {
                    proof {
                        if let Some(size) = segment_length(s@, k as int) {
                            nothing_past_the_end(s@, m as int, k + 1 + size, seqs(settled@));
                        }
                    }
                    return false;
                },
                Some(end) => {
                    at = end;
                },
            }
        } else {
            return false;
        }
    }
}

/// Whether a file is not to be handed to the decoder.
pub fn is_undecodable(s: &[u8]) -> (r: bool)
    ensures
        r == undecodable(s@),
{
    match find_header(s) {
        None => false,
        Some(m) => {
            let total = s.len();
            let f = frame(s, m);
            if f.code == 0xc3 {
                f.precision != 8 && !(f.components == 1 && f.precision > 8)
            } else {
                let size = s[m + 1] as usize * 256 + s[m + 2] as usize;
                if size >= total - m {
                    proof {
                        nothing_past_the_end(
                            s@,
                            m as int,
                            m + 1 + size,
                            unsettled(s[m + 8] as int),
                        );
                    }
                    false
                } else {
                    has_overgrown_scan(s, m, m + 1 + size)
                }
            }
        },
    }
}

/// Law: a marker is the first byte, other than 0 and 0xff, that stands behind a byte 0xff.
pub proof fn markers_stand_behind_0xff(s: Seq<u8>, at: int)
    requires
        0 <= at,
    ensures
        match marker_from(s, at) {
            Some(m) => {
                &&& at < m < s.len()
                &&& s[m - 1] == 255 && 0 < s[m] < 255
                &&& forall|i: int|
                    at <= i < m - 1 ==> !((#[trigger] s[i]) == 255 && 0 < s[i + 1] < 255)
            },
            None => forall|i: int|
                at <= i < s.len() - 1 ==> !((#[trigger] s[i]) == 255 && 0 < s[i + 1] < 255),
        },
    decreases s.len() - at,
{
    if at + 1 < s.len() && !(s[at] == 0xff && s[at + 1] != 0 && s[at + 1] != 0xff) {
        markers_stand_behind_0xff(s, at + 1);
    }
}

/// Law: the frame header is found behind segments of tables, application data and comments, each
/// skipped by its length, and behind nothing else.
pub proof fn frame_headers_are_found_behind_segments(s: Seq<u8>, at: int, m: int)
    requires
        0 <= at,
        marker_from(s, at) == Some(m),
    ensures
        ({
            let code = s[m] as int;
            let frame = 192 <= code <= 207 && code != 196 && code != 200 && code != 204;
            let segment = code == 196 || code == 219 || code == 221 || 224 <= code <= 239 || code
                == 254;
            &&& frame ==> header_from(s, at) == if m + 9 + 3 * s[m + 8] <= s.len() && m + 9
                <= s.len() {
                Some(m)
            } else {
                None
            }
            &&& segment && m + 3 <= s.len() && 256 * s[m + 1] + s[m + 2] >= 2 ==> header_from(s, at)
                == header_from(s, m + 1 + 256 * s[m + 1] + s[m + 2])
            &&& segment && m + 3 > s.len() ==> header_from(s, at) is None
            &&& !frame && !segment ==> header_from(s, at) is None
        }),
{
    markers_stand_behind_0xff(s, at);
}

/// Law: what a frame header says stands in its bytes, sides with the most significant byte first.
pub proof fn frame_headers_say_what_stands_in_them(s: Seq<u8>, m: int)
    ensures
        ({
            let f = frame_at(s, m);
            &&& f.code == s[m]
            &&& f.precision == s[m + 3]
            &&& f.height == 256 * s[m + 4] + s[m + 5]
            &&& f.width == 256 * s[m + 6] + s[m + 7]
            &&& f.components == s[m + 8]
        }),
        header_from(s, 2) == Some(m) ==> frame_of(s) == Some(frame_at(s, m)),
        header_from(s, 2) is None ==> frame_of(s) is None,
{
}

proof fn overgrown_is_long(s: Seq<u8>, m: int, at: int, before: Seq<Seq<bool>>)
    requires
        overgrown_from(s, m, at, before),
    ensures
        frame_at(s, m).height > 65_528 || frame_at(s, m).width > 65_528,
    decreases left_from(s, at),
{
    marker_is_ahead(s, at);
    let k = marker_from(s, at)->0;
    if 0xd0 <= s[k] <= 0xd7 {
        overgrown_is_long(s, m, k + 1, before);
    } else if s[k] == 0xda {
        if !overgrown(s, m, k, before) {
            let n = segment_length(s, k)->0;
            overgrown_is_long(s, m, k + 1 + n, settled_after(s, m, k, before));
        }
    } else {
        let n = segment_length(s, k)->0;
        overgrown_is_long(s, m, k + 1 + n, before);
    }
}

proof fn header_is_behind_0xff(s: Seq<u8>, at: int)
    requires
        0 <= at,
    ensures
        header_from(s, at) matches Some(m) ==> at < m && s[m - 1] == 0xff && header_fits(s, m)
            && starts_frame(s[m]),
    decreases left_from(s, at),
{
    markers_stand_behind_0xff(s, at);
    if let Some(m) = marker_from(s, at) {
        if !starts_frame(s[m]) && stands_anywhere(s[m]) {
            if let Some(n) = segment_length(s, m) {
                header_is_behind_0xff(s, m + 1 + n);
            }
        }
    }
}

/// Law: a file is kept from the decoder only for its sizes. Its frame header is that of a lossless
/// file with samples of other than 8 bits, of several components or of fewer bits; or it tells of a
/// side above 65528 pixels.
pub proof fn photographs_are_refused_for_their_sizes_alone(s: Seq<u8>) -> (m: int)
    requires
        undecodable(s),
    ensures
        3 <= m < s.len() - 8,
        s[m - 1] == 255,
        if s[m] == 195 {
            s[m + 3] != 8 && (s[m + 8] != 1 || s[m + 3] < 8)
        } else {
            256 * s[m + 4] + s[m + 5] > 65_528 || 256 * s[m + 6] + s[m + 7] > 65_528
        },
{
    let m = header_from(s, 2)->0;
    header_is_behind_0xff(s, 2);
    if s[m] != 0xc3 {
        overgrown_is_long(
            s,
            m,
            m + 1 + pair(s[m + 1], s[m + 2]),
            unsettled(s[m + 8] as int),
        );
    }
    m
}

/// Law: of lossless files, those are kept from the decoder whose samples are not of 8 bits, but for
/// those of a single component and more bits.
pub proof fn lossless_photographs_are_refused_for_their_samples(s: Seq<u8>, m: int)
    requires
        header_from(s, 2) == Some(m),
        s[m] == 195,
    ensures
        undecodable(s) <==> s[m + 3] != 8 && !(s[m + 8] == 1 && s[m + 3] > 8),
{
}

/// Law: of other files, those are kept from the decoder that have, behind their frame header, a
/// scan that overgrows.
pub proof fn other_photographs_are_refused_for_their_scans(s: Seq<u8>, m: int)
    requires
        header_from(s, 2) == Some(m),
        s[m] != 195,
    ensures
        undecodable(s) <==> overgrown_from(
            s,
            m,
            m + 1 + 256 * s[m + 1] + s[m + 2],
            Seq::new(s[m + 8] as nat, |i: int| Seq::new(64, |c: int| false)),
        ),
{
    assert(unsettled(s[m + 8] as int) =~~= Seq::new(
        s[m + 8] as nat,
        |i: int| Seq::new(64, |c: int| false),
    ));
}

/// Law: scans are walked in turn. Restarts are passed over, tables, application data and comments
/// skipped, every scan is looked at and then remembered, and the walk ends at any other marker.
pub proof fn scans_are_walked_in_turn(
    s: Seq<u8>,
    m: int,
    at: int,
    k: int,
    before: Seq<Seq<bool>>,
)
    requires
        0 <= at,
        marker_from(s, at) == Some(k),
    ensures
        ({
            let code = s[k] as int;
            let segment = code == 196 || code == 219 || code == 221 || 224 <= code <= 239 || code
                == 254;
            let next = k + 1 + 256 * s[k + 1] + s[k + 2];
            let whole = k + 2 < s.len() && 256 * s[k + 1] + s[k + 2] >= 2;
            let walk = overgrown_from(s, m, at, before);
            &&& 208 <= code <= 215 ==> walk == overgrown_from(s, m, k + 1, before)
            &&& code == 218 && k + 3 < s.len() && k + 6 + 2 * s[k + 3] < s.len() ==> walk == (
            overgrown(s, m, k, before) || (whole && overgrown_from(
                s,
                m,
                next,
                settled_after(s, m, k, before),
            )))
            &&& segment ==> walk == (whole && overgrown_from(s, m, next, before))
            &&& !segment && code != 218 && !(208 <= code <= 215) ==> !walk
        }),
{
    markers_stand_behind_0xff(s, at);
}

/// Law: a scan overgrows where it is of a single component, and this has either three blocks to a
/// unit across and more than 65528 pixels, or as many blocks to a unit down as any and more than
/// 65528 pixels, with three blocks or in the scan that completes it.
pub proof fn single_components_overgrow(
    s: Seq<u8>,
    m: int,
    k: int,
    i: int,
    before: Seq<Seq<bool>>,
)
    requires
        0 <= i < s[m + 8],
        s[k + 3] == 1,
        s[m + 9 + 3 * i] == s[k + 4],
        forall|j: int|
            0 <= j < s[m + 8] && j != i ==> #[trigger] id_of(s, m, j) != s[m + 9 + 3 * i],
    ensures
        ({
            let (h, w) = (256 * s[m + 4] + s[m + 5], 256 * s[m + 6] + s[m + 7]);
            let factors = s[m + 10 + 3 * i];
            let finest = forall|j: int|
                0 <= j < s[m + 8] ==> #[trigger] down_factor(s, m, j) <= factors % 16;
            overgrown(s, m, k, before) <==> (w > 65_528 && factors / 16 == 3) || (h > 65_528
                && finest && (factors % 16 == 3 || completes(s, m, k, before[i])))
        }),
{
    assert(down_factor(s, m, i) == s[m + 10 + 3 * i] % 16);
    assert(finest_down(s, m, i) <==> forall|j: int|
        0 <= j < s[m + 8] ==> #[trigger] down_factor(s, m, j) <= s[m + 10 + 3 * i] % 16);
    if overgrown(s, m, k, before) {
        let j = choose|j: int|
            0 <= j < s[m + 8] && s[m + 9 + 3 * j] == s[k + 4] && #[trigger] outgrows(
                s,
                m,
                k,
                j,
                before[j],
            );
        assert(id_of(s, m, j) == s[m + 9 + 3 * j]);
        assert(i == j);
    }
    if outgrows(s, m, k, i, before[i]) {
        assert(overgrown(s, m, k, before));
    }
}

/// The name of component `j` of the frame header at `m`.
pub open spec fn id_of(s: Seq<u8>, m: int, j: int) -> u8 {
    s[m + 9 + 3 * j]
}

/// Law: a scan completes a component where it goes down to the last bit and settles what was left
/// of its 64 coefficients: those from the first to the last that it spans, or all of them where the
/// file is not progressive.
pub proof fn scans_complete_components(s: Seq<u8>, m: int, k: int, before: Seq<bool>)
    requires
        before.len() == 64,
    ensures
        ({
            let n = s[k + 3] as int;
            let (first, last, bits) = (
                s[k + 4 + 2 * n],
                s[k + 5 + 2 * n],
                s[k + 6 + 2 * n],
            );
            completes(s, m, k, before) <==> {
                &&& bits % 16 == 0
                &&& exists|c: int| 0 <= c < 64 && !#[trigger] before[c]
                &&& forall|c: int|
                    0 <= c < 64 && !#[trigger] before[c] ==> first <= c && (s[m] != 194 || c
                        <= last)
            }
        }),
        s[k + 6 + 2 * s[k + 3]] % 16 != 0 ==> settled_by(s, m, k, before) == before,
        forall|c: int|
            0 <= c < 64 ==> (#[trigger] settled_by(s, m, k, before)[c] <==> before[c] || (s[k + 6
                + 2 * s[k + 3]] % 16 == 0 && s[k + 4 + 2 * s[k + 3]] <= c && (s[m] != 194 || c
                <= s[k + 5 + 2 * s[k + 3]]))),
{
    let after = settled_by(s, m, k, before);
    if completes(s, m, k, before) {
        assert forall|c: int| 0 <= c < 64 && !#[trigger] before[c] implies s[k + 4 + 2 * s[k + 3]]
            <= c && (s[m] != 194 || c <= s[k + 5 + 2 * s[k + 3]]) by {
            assert(after[c]);
        }
    }
}

/// Law: a scan is remembered for the components that it names, and for no others.
pub proof fn scans_are_remembered_by_component(
    s: Seq<u8>,
    m: int,
    k: int,
    before: Seq<Seq<bool>>,
    i: int,
)
    requires
        0 <= i < before.len(),
    ensures
        settled_after(s, m, k, before).len() == before.len(),
        ({
            let named = exists|j: int|
                0 <= j < s[k + 3] && #[trigger] scanned(s, k, j) == s[m + 9 + 3 * i];
            &&& named ==> settled_after(s, m, k, before)[i] == settled_by(s, m, k, before[i])
            &&& !named ==> settled_after(s, m, k, before)[i] == before[i]
        }),
        forall|j: int| #[trigger] scanned(s, k, j) == s[k + 4 + 2 * j],
{
}

/// Law: a scan of several components, or of none, does not overgrow, nor does one of a component
/// that the frame does not name.
pub proof fn interleaved_scans_do_not_overgrow(
    s: Seq<u8>,
    m: int,
    k: int,
    before: Seq<Seq<bool>>,
)
    requires
        s[k + 3] != 1 || forall|j: int| 0 <= j < s[m + 8] ==> #[trigger] id_of(s, m, j) != s[k + 4],
    ensures
        !overgrown(s, m, k, before),
{
    if overgrown(s, m, k, before) {
        let j = choose|j: int|
            0 <= j < s[m + 8] && s[m + 9 + 3 * j] == s[k + 4] && #[trigger] outgrows(
                s,
                m,
                k,
                j,
                before[j],
            );
        assert(id_of(s, m, j) == s[k + 4]);
    }
}

} // verus!
