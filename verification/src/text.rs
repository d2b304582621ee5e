//! Small work on text: trimming, lines, prefixes, numbers in figures.
use vstd::prelude::*;
use vstd::string::*;

verus! {

/// Whether a character is white space in Unicode's sense.
pub open spec fn white(c: char) -> bool {
    let u = c as u32;
    ||| 0x9 <= u <= 0xd
    ||| u == 0x20
    ||| u == 0x85
    ||| u == 0xa0
    ||| u == 0x1680
    ||| 0x2000 <= u <= 0x200a
    ||| u == 0x2028
    ||| u == 0x2029
    ||| u == 0x202f
    ||| u == 0x205f
    ||| u == 0x3000
}

/// Whether a character is white space.
pub fn is_white(c: char) -> (w: bool)
    ensures
        w == white(c),
{
    let u = c as u32;
    (0x9 <= u && u <= 0xd) || u == 0x20 || u == 0x85 || u == 0xa0 || u == 0x1680 || (0x2000 <= u
        && u <= 0x200a) || u == 0x2028 || u == 0x2029 || u == 0x202f || u == 0x205f || u == 0x3000
}

/// `s` without the white space that it starts with.
pub open spec fn without_leading(s: Seq<char>) -> Seq<char>
    decreases s.len(),
{
    if s.len() > 0 && white(s[0]) {
        without_leading(s.skip(1))
    } else {
        s
    }
}

/// `s` without the white space that it ends in.
pub open spec fn without_trailing(s: Seq<char>) -> Seq<char>
    decreases s.len(),
{
    if s.len() > 0 && white(s.last()) {
        without_trailing(s.drop_last())
    } else {
        s
    }
}

/// `s` without white space at either end.
pub open spec fn trimmed(s: Seq<char>) -> Seq<char> {
    without_leading(without_trailing(s))
}

/// `s` without the characters `c` that it ends in.
pub open spec fn without_final(s: Seq<char>, c: char) -> Seq<char>
    decreases s.len(),
{
    if s.len() > 0 && s.last() == c {
        without_final(s.drop_last(), c)
    } else {
        s
    }
}

/// The characters of a text.
pub fn characters(s: &str) -> (r: Vec<char>)
    ensures
        r@ == s@,
{
    let mut v: Vec<char> = Vec::new();
    for c in it: s.chars()
        invariant
            v@ == s@.take(it.index() as int),
            it.seq() == s@,
    {
        v.push(c);
        assert(s@.take(it.index() + 1) =~= s@.take(it.index() as int).push(s@[it.index() as int]));
    }
    assert(s@.take(s@.len() as int) =~= s@);
    v
}

/// The text without white space at either end.
pub fn trim(s: &str) -> (r: String)
    ensures
        r@ == trimmed(s@),
{
    let v = characters(s);
    let mut j: usize = v.len();
    assert(s@.take(j as int) =~= s@);
    while j > 0 && is_white(v[j - 1])
        invariant
            v@ == s@,
            j <= v.len(),
            without_trailing(s@) == without_trailing(s@.take(j as int)),
        decreases j,
    {
        assert(s@.take(j as int).drop_last() =~= s@.take(j - 1));
        j -= 1;
    }
    let mut i: usize = 0;
    assert(s@.subrange(0, j as int) =~= s@.take(j as int));
    while i < j && is_white(v[i])
        invariant
            v@ == s@,
            i <= j <= v.len(),
            without_leading(s@.take(j as int)) == without_leading(s@.subrange(i as int, j as int)),
        decreases j - i,
    {
        assert(s@.subrange(i as int, j as int).skip(1) =~= s@.subrange(i + 1, j as int));
        i += 1;
    }
    s.substring_char(i, j).to_string()
}

/// The text without the characters `c` that it ends in.
pub fn trim_final(s: &str, c: char) -> (r: String)
    ensures
        r@ == without_final(s@, c),
{
    let v = characters(s);
    let mut j: usize = v.len();
    assert(s@.take(j as int) =~= s@);
    while j > 0 && v[j - 1] == c
        invariant
            v@ == s@,
            j <= v.len(),
            without_final(s@, c) == without_final(s@.take(j as int), c),
        decreases j,
    {
        assert(s@.take(j as int).drop_last() =~= s@.take(j - 1));
        j -= 1;
    }
    assert(s@.subrange(0, j as int) =~= s@.take(j as int));
    s.substring_char(0, j).to_string()
}

/// Whether `s` starts with `p`.
pub fn starts_with(s: &str, p: &str) -> (r: bool)
    ensures
        r == p@.is_prefix_of(s@),
{
    let (v, q) = (characters(s), characters(p));
    if q.len() > v.len() {
        return false;
    }
    let mut i: usize = 0;
    while i < q.len()
        invariant
            v@ == s@,
            q@ == p@,
            i <= q.len() <= v.len(),
            forall|k: int| 0 <= k < i ==> q@[k] == v@[k],
        decreases q.len() - i,
    {
        if q[i] != v[i] {
            assert(s@.subrange(0, p@.len() as int)[i as int] == v@[i as int]);
            return false;
        }
        i += 1;
    }
    assert(p@ =~= s@.subrange(0, p@.len() as int));
    true
}

/// Whether `s` ends with `p`.
pub fn ends_with(s: &str, p: &str) -> (r: bool)
    ensures
        r == p@.is_suffix_of(s@),
{
    let (v, q) = (characters(s), characters(p));
    if q.len() > v.len() {
        return false;
    }
    let skip: usize = v.len() - q.len();
    let mut i: usize = 0;
    while i < q.len()
        invariant
            v@ == s@,
            q@ == p@,
            skip == v.len() - q.len(),
            i <= q.len() <= v.len(),
            forall|k: int| 0 <= k < i ==> q@[k] == v@[skip + k],
        decreases q.len() - i,
    {
        if q[i] != v[skip + i] {
            assert(s@.subrange(s@.len() - p@.len(), s@.len() as int)[i as int] == v@[skip + i]);
            return false;
        }
        i += 1;
    }
    assert(p@ =~= s@.subrange(s@.len() - p@.len(), s@.len() as int));
    true
}

/// Where the first line feed of `s` from `from` on is, or the end.
pub open spec fn line_feed(s: Seq<char>, from: int) -> int
    decreases s.len() - from,
{
    if from >= s.len() || s[from] == '\n' {
        from
    } else {
        line_feed(s, from + 1)
    }
}

/// A line without the carriage return before its line feed.
pub open spec fn without_return(s: Seq<char>) -> Seq<char> {
    if s.len() > 0 && s.last() == '\r' {
        s.drop_last()
    } else {
        s
    }
}

/// The lines of `s` from `from` on. A line ends at a line feed, which with a carriage return
/// before it is no part of it; what follows the last line feed is a line if it is not empty.
pub open spec fn lines_from(s: Seq<char>, from: int) -> Seq<Seq<char>>
    decreases s.len() - from,
    via lines_from_ends
{
    if from < 0 || from >= s.len() {
        Seq::empty()
    } else {
        let end = line_feed(s, from);
        if end >= s.len() {
            seq![s.subrange(from, s.len() as int)]
        } else {
            seq![without_return(s.subrange(from, end))] + lines_from(s, end + 1)
        }
    }
}

#[via_fn]
proof fn lines_from_ends(s: Seq<char>, from: int) {
    line_feed_bound(s, from);
}

proof fn line_feed_bound(s: Seq<char>, from: int)
    ensures
        from <= line_feed(s, from),
        from <= s.len() ==> line_feed(s, from) <= s.len(),
    decreases s.len() - from,
{
    if from < s.len() && s[from] != '\n' {
        line_feed_bound(s, from + 1);
    }
}

/// The lines of a text.
pub open spec fn lines_of(s: Seq<char>) -> Seq<Seq<char>> {
    lines_from(s, 0)
}

/// The contents of a list of texts.
pub open spec fn texts(v: Seq<String>) -> Seq<Seq<char>> {
    Seq::new(v.len(), |i: int| v[i]@)
}

/// The lines of a text.
pub fn lines(s: &str) -> (r: Vec<String>)
    ensures
        texts(r@) == lines_of(s@),
{
    let v = characters(s);
    let n = v.len();
    let mut out: Vec<String> = Vec::new();
    let mut from: usize = 0;
    assert(texts(out@) =~= Seq::<Seq<char>>::empty());
    while from < n
        invariant
            v@ == s@,
            n == s@.len(),
            from <= n,
            lines_of(s@) =~= texts(out@) + lines_from(s@, from as int),
        decreases n - from,
    {
        let mut end: usize = from;
        while end < n && v[end] != '\n'
            invariant
                v@ == s@,
                n == s@.len(),
                from <= end <= n,
                line_feed(s@, from as int) == line_feed(s@, end as int),
            decreases n - end,
        {
            end += 1;
        }
        let ghost before = texts(out@);
        if end == n {
            let line = s.substring_char(from, n).to_string();
            out.push(line);
            assert(texts(out@) =~= before.push(s@.subrange(from as int, n as int)));
            from = n;
        } else {
            let stop: usize = if end > from && v[end - 1] == '\r' {
                end - 1
            } else {
                end
            };
            let line = s.substring_char(from, stop).to_string();
            assert(line@ =~= without_return(s@.subrange(from as int, end as int)));
            out.push(line);
            assert(texts(out@) =~= before.push(without_return(
                s@.subrange(from as int, end as int),
            )));
            from = end + 1;
        }
    }
    out
}

/// The figure of a number below ten.
pub open spec fn figure(d: int) -> char {
    (48 + d) as char
}

/// A number in figures.
pub open spec fn figures(n: nat) -> Seq<char>
    decreases n,
{
    if n < 10 {
        seq![figure(n as int)]
    } else {
        figures(n / 10).push(figure((n % 10) as int))
    }
}

fn write_figure(s: &mut String, d: u32)
    requires
        d < 10,
    ensures
        final(s)@ == old(s)@.push(figure(d as int)),
{
    proof {
        reveal_strlit("0");
        reveal_strlit("1");
        reveal_strlit("2");
        reveal_strlit("3");
        reveal_strlit("4");
        reveal_strlit("5");
        reveal_strlit("6");
        reveal_strlit("7");
        reveal_strlit("8");
        reveal_strlit("9");
    }
    let f = match d {
        0 => "0",
        1 => "1",
        2 => "2",
        3 => "3",
        4 => "4",
        5 => "5",
        6 => "6",
        7 => "7",
        8 => "8",
        _ => "9",
    };
    assert(f@ =~= seq![figure(d as int)]);
    s.append(f);
    assert(s@ =~= old(s)@.push(figure(d as int)));
}

/// Appends a number in figures.
pub fn write_number(s: &mut String, n: u32)
    ensures
        final(s)@ == old(s)@ + figures(n as nat),
    decreases n,
{
    if n >= 10 {
        write_number(s, n / 10);
    }
    write_figure(s, n % 10);
    assert(s@ =~= old(s)@ + figures(n as nat));
}

/// Appends a number below a hundred in two figures.
pub fn write_two_figures(s: &mut String, n: u32)
    requires
        n < 100,
    ensures
        final(s)@ == old(s)@ + seq![figure(n as int / 10), figure(n as int % 10)],
{
    write_figure(s, n / 10);
    write_figure(s, n % 10);
    assert(s@ =~= old(s)@ + seq![figure(n as int / 10), figure(n as int % 10)]);
}

proof fn line_feed_shifted(x: Seq<char>, b: Seq<char>, f: int)
    requires
        0 <= f,
    ensures
        line_feed(x + b, x.len() + f) == x.len() + line_feed(b, f),
    decreases b.len() - f,
{
    if f < b.len() && b[f] != '\n' {
        line_feed_shifted(x, b, f + 1);
    }
}

proof fn lines_shifted(x: Seq<char>, b: Seq<char>, f: int)
    requires
        0 <= f,
    ensures
        lines_from(x + b, x.len() + f) == lines_from(b, f),
    decreases b.len() - f,
{
    if f < b.len() {
        line_feed_shifted(x, b, f);
        line_feed_bound(b, f);
        let end = line_feed(b, f);
        if end < b.len() {
            lines_shifted(x, b, end + 1);
            assert((x + b).subrange(x.len() + f, x.len() + end) =~= b.subrange(f, end));
        } else {
            assert((x + b).subrange(x.len() + f, (x + b).len() as int) =~= b.subrange(
                f,
                b.len() as int,
            ));
        }
    }
}

proof fn line_feed_at(s: Seq<char>, from: int, end: int)
    requires
        0 <= from <= end <= s.len(),
        forall|i: int| from <= i < end ==> s[i] != '\n',
        end < s.len() ==> s[end] == '\n',
    ensures
        line_feed(s, from) == end,
    decreases end - from,
{
    if from < end {
        line_feed_at(s, from + 1, end);
    }
}

/// Law: a text is its first line, a line feed, and the lines of the rest; the carriage return
/// before a line feed belongs to neither.
pub proof fn first_line_comes_off(line: Seq<char>, rest: Seq<char>)
    requires
        forall|i: int| 0 <= i < line.len() ==> line[i] != '\n',
    ensures
        lines_of(line + seq!['\n'] + rest) == seq![
            if line.len() > 0 && line[line.len() - 1] == '\r' {
                line.subrange(0, line.len() - 1)
            } else {
                line
            },
        ] + lines_of(rest),
{
    let head = line + seq!['\n'];
    let s = head + rest;
    let n = line.len() as int;
    assert forall|i: int| 0 <= i < n implies s[i] != '\n' by {
        assert(s[i] == line[i]);
    }
    line_feed_at(s, 0, n);
    lines_shifted(head, rest, 0);
    assert(s.subrange(0, n) =~= line);
    assert(line.len() > 0 ==> line.drop_last() =~= line.subrange(0, n - 1));
}

/// Law: what holds no line feed is a single line, as it is, or none where it is empty.
pub proof fn last_line(line: Seq<char>)
    requires
        forall|i: int| 0 <= i < line.len() ==> line[i] != '\n',
    ensures
        lines_of(line) == if line.len() == 0 {
            Seq::<Seq<char>>::empty()
        } else {
            seq![line]
        },
{
    line_feed_at(line, 0, line.len() as int);
    assert(line.subrange(0, line.len() as int) =~= line);
}

proof fn leading_cut(s: Seq<char>) -> (a: int)
    ensures
        0 <= a <= s.len(),
        without_leading(s) == s.subrange(a, s.len() as int),
        forall|i: int| 0 <= i < a ==> white(#[trigger] s[i]),
        a < s.len() ==> !white(s[a]),
    decreases s.len(),
{
    if s.len() > 0 && white(s[0]) {
        let a = leading_cut(s.skip(1));
        assert forall|i: int| 0 <= i < a + 1 implies white(#[trigger] s[i]) by {
            if i > 0 {
                assert(s.skip(1)[i - 1] == s[i]);
            }
        }
        assert(s.skip(1).subrange(a, s.len() - 1) =~= s.subrange(a + 1, s.len() as int));
        a + 1
    } else {
        assert(s.subrange(0, s.len() as int) =~= s);
        0
    }
}

proof fn trailing_cut(s: Seq<char>) -> (b: int)
    ensures
        0 <= b <= s.len(),
        without_trailing(s) == s.subrange(0, b),
        forall|i: int| b <= i < s.len() ==> white(#[trigger] s[i]),
        b > 0 ==> !white(s[b - 1]),
    decreases s.len(),
{
    if s.len() > 0 && white(s.last()) {
        let b = trailing_cut(s.drop_last());
        assert forall|i: int| b <= i < s.len() implies white(#[trigger] s[i]) by {
            if i < s.len() - 1 {
                assert(s.drop_last()[i] == s[i]);
            }
        }
        assert(s.drop_last().subrange(0, b) =~= s.subrange(0, b));
        b
    } else {
        assert(s.subrange(0, s.len() as int) =~= s);
        s.len() as int
    }
}

/// Law: trimming cuts white space off both ends, all of it and nothing else.
pub proof fn trimming_cuts_white_space(s: Seq<char>) -> (cut: (int, int))
    ensures
        0 <= cut.0 <= cut.1 <= s.len(),
        trimmed(s) == s.subrange(cut.0, cut.1),
        forall|i: int| 0 <= i < cut.0 ==> white(#[trigger] s[i]),
        forall|i: int| cut.1 <= i < s.len() ==> white(#[trigger] s[i]),
        cut.0 < cut.1 ==> !white(s[cut.0]) && !white(s[cut.1 - 1]),
{
    let b = trailing_cut(s);
    let t = s.subrange(0, b);
    let a = leading_cut(t);
    assert(t.subrange(a, b) =~= s.subrange(a, b));
    assert forall|i: int| 0 <= i < a implies white(#[trigger] s[i]) by {
        assert(t[i] == s[i]);
    }
    (a, b)
}

/// Law: the characters that a text ends in are cut off, all of those that are `c` and no others.
pub proof fn final_characters_are_cut(s: Seq<char>, c: char) -> (b: int)
    ensures
        0 <= b <= s.len(),
        without_final(s, c) == s.subrange(0, b),
        forall|i: int| b <= i < s.len() ==> #[trigger] s[i] == c,
        b > 0 ==> s[b - 1] != c,
    decreases s.len(),
{
    if s.len() > 0 && s.last() == c {
        let b = final_characters_are_cut(s.drop_last(), c);
        assert forall|i: int| b <= i < s.len() implies #[trigger] s[i] == c by {
            if i < s.len() - 1 {
                assert(s.drop_last()[i] == s[i]);
            }
        }
        assert(s.drop_last().subrange(0, b) =~= s.subrange(0, b));
        b
    } else {
        assert(s.subrange(0, s.len() as int) =~= s);
        s.len() as int
    }
}

/// The number that figures spell.
pub open spec fn number_of(s: Seq<char>) -> int {
    s.fold_left(0, |n: int, c: char| 10 * n + (c as int - '0' as int))
}

/// Law: figures spell the number they are written for, in tens, without a zero in front.
pub proof fn figures_spell_their_number(n: nat)
    ensures
        number_of(figures(n)) == n,
        figures(n).len() > 0,
        forall|i: int| 0 <= i < figures(n).len() ==> '0' <= #[trigger] figures(n)[i] <= '9',
        figures(n).len() > 1 ==> figures(n)[0] != '0',
    decreases n,
{
    reveal_with_fuel(Seq::fold_left, 2);
    if n < 10 {
        assert(figures(n).drop_last() =~= Seq::empty());
    } else {
        figures_spell_their_number(n / 10);
        let f = figures(n / 10);
        assert(figures(n).drop_last() =~= f);
        if f.len() == 1 {
            assert(f.drop_last() =~= Seq::empty());
            assert(number_of(f) == f[0] as int - '0' as int);
        }
    }
}

/// Law: white space is what the Unicode standard lists as such: the tab and the four control
/// characters behind it, the space, the next line, and the spaces and separators beyond ASCII.
pub proof fn white_space_is_as_listed(c: char)
    ensures
        white(c) <==> (c == '\t' || c == '\n' || c == '\u{b}' || c == '\u{c}' || c == '\r' || c
            == ' ' || c == '\u{85}' || c == '\u{a0}' || c == '\u{1680}' || ('\u{2000}' <= c
            && c <= '\u{200a}') || c == '\u{2028}' || c == '\u{2029}' || c == '\u{202f}' || c
            == '\u{205f}' || c == '\u{3000}'),
{
}

} // verus!
