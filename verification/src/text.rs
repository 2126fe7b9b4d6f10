//! Characters and lines: the vocabulary that every other module is stated in.
//!
//! A text is modelled as a `Seq<char>`. The executable functions take `&str`
//! and work on a `Vec<char>` copy, so that a position is a character index
//! both in the code and in its contract.

use vstd::prelude::*;

verus! {

/// Whether `c` is one of the code points with the Unicode `White_Space`
/// property.
pub open spec fn is_whitespace(c: char) -> bool {
    ||| '\u{9}' <= c <= '\u{D}'
    ||| c == ' '
    ||| c == '\u{85}'
    ||| c == '\u{A0}'
    ||| c == '\u{1680}'
    ||| '\u{2000}' <= c <= '\u{200A}'
    ||| c == '\u{2028}'
    ||| c == '\u{2029}'
    ||| c == '\u{202F}'
    ||| c == '\u{205F}'
    ||| c == '\u{3000}'
}

/// Decides `is_whitespace` for one character.
pub fn char_is_whitespace(c: char) -> (b: bool)
    ensures
        b == is_whitespace(c),
{
    ('\u{9}' <= c && c <= '\u{D}') || c == ' ' || c == '\u{85}' || c == '\u{A0}' || c
        == '\u{1680}' || ('\u{2000}' <= c && c <= '\u{200A}') || c == '\u{2028}' || c
        == '\u{2029}' || c == '\u{202F}' || c == '\u{205F}' || c == '\u{3000}'
}

/// The characters of `s`, in order.
pub fn to_chars(s: &str) -> (v: Vec<char>)
    ensures
        v@ == s@,
{
    broadcast use vstd::string::axiom_spec_iter;

    let mut v: Vec<char> = Vec::new();
    for c in it: s.chars()
        invariant
            it.seq() == s@,
            v@ == s@.take(it.index() as int),
    {
        v.push(c);
    }
    v
}

/// `String::push` of the standard library: `c` is appended to the end of
/// `s`, and the characters that `s` held stay as they were.
pub assume_specification[ String::push ](s: &mut String, c: char)
    ensures
        final(s)@ == old(s)@.push(c),
;

/// The string made of the characters of `v` from position `from` up to, but
/// not including, position `to`.
pub fn from_chars(v: &Vec<char>, from: usize, to: usize) -> (s: String)
    requires
        from <= to <= v.len(),
    ensures
        s@ == v@.subrange(from as int, to as int),
{
    let mut s = String::new();
    let mut i: usize = from;
    while i < to
        invariant
            from <= i <= to <= v.len(),
            s@ == v@.subrange(from as int, i as int),
        decreases to - i,
    {
        s.push(v[i]);
        i += 1;
        assert(s@ =~= v@.subrange(from as int, i as int));
    }
    s
}

/// A text is blank when it holds nothing but whitespace; the empty text is
/// blank.
pub open spec fn is_blank(s: Seq<char>) -> bool {
    forall|i: int| 0 <= i < s.len() ==> is_whitespace(#[trigger] s[i])
}

/// `s` without its leading whitespace.
pub open spec fn trim_start(s: Seq<char>) -> Seq<char>
    decreases s.len(),
{
    if s.len() > 0 && is_whitespace(s[0]) {
        trim_start(s.drop_first())
    } else {
        s
    }
}

/// `s` without its trailing whitespace.
pub open spec fn trim_end(s: Seq<char>) -> Seq<char>
    decreases s.len(),
{
    if s.len() > 0 && is_whitespace(s.last()) {
        trim_end(s.drop_last())
    } else {
        s
    }
}

/// `s` without its leading and trailing whitespace.
pub open spec fn trim(s: Seq<char>) -> Seq<char> {
    trim_end(trim_start(s))
}

/// Whether `s` has no whitespace at either end.
pub open spec fn is_trimmed(s: Seq<char>) -> bool {
    s.len() > 0 ==> !is_whitespace(s[0]) && !is_whitespace(s.last())
}

/// `trim_start(s)` is the end of `s` from its first character that is not
/// whitespace.
pub proof fn lemma_trim_start(s: Seq<char>)
    ensures
        trim_start(s).len() <= s.len(),
        trim_start(s) == s.skip(s.len() - trim_start(s).len()),
        trim_start(s).len() > 0 ==> !is_whitespace(trim_start(s)[0]),
    decreases s.len(),
{
    if s.len() > 0 && is_whitespace(s[0]) {
        let rest = s.drop_first();
        lemma_trim_start(rest);
        assert(rest.skip(rest.len() - trim_start(rest).len()) =~= s.skip(
            s.len() - trim_start(s).len(),
        ));
    } else {
        assert(s.skip(0) =~= s);
    }
}

/// `trim_end(s)` is the beginning of `s` up to its last character that is
/// not whitespace.
pub proof fn lemma_trim_end(s: Seq<char>)
    ensures
        trim_end(s).len() <= s.len(),
        trim_end(s) == s.take(trim_end(s).len() as int),
        trim_end(s).len() > 0 ==> !is_whitespace(trim_end(s).last()),
    decreases s.len(),
{
    if s.len() > 0 && is_whitespace(s.last()) {
        let rest = s.drop_last();
        lemma_trim_end(rest);
        assert(rest.take(trim_end(rest).len() as int) =~= s.take(trim_end(s).len() as int));
    } else {
        assert(s.take(s.len() as int) =~= s);
    }
}

/// What `trim` returns has no whitespace at either end, and is empty
/// exactly for a blank text; a text without whitespace at either end is
/// left as it is, so that trimming twice is trimming once.
pub proof fn lemma_trim(s: Seq<char>)
    ensures
        is_trimmed(trim(s)),
        trim(s).len() == 0 <==> is_blank(s),
        is_trimmed(s) ==> trim(s) == s,
        trim(trim(s)) == trim(s),
{
    let start = trim_start(s);
    let t = trim(s);
    lemma_trim_start(s);
    lemma_trim_end(start);
    if t.len() > 0 {
        assert(t[0] == start[0]);
        let k = s.len() - start.len();
        assert(start[0] == s[k]);
        assert(!is_blank(s));
    } else {
        lemma_blank_trims_to_nothing(start);
        lemma_blank_trims_to_nothing(s);
        if start.len() > 0 {
            assert(is_whitespace(start[0]));
        }
    }
    assert(is_trimmed(t) ==> trim(t) == t);
}

/// A text is blank exactly if nothing is left of it without its leading
/// whitespace, and exactly if nothing is left of it without its trailing
/// whitespace.
pub proof fn lemma_blank_trims_to_nothing(s: Seq<char>)
    ensures
        is_blank(s) <==> trim_start(s).len() == 0,
        is_blank(s) <==> trim_end(s).len() == 0,
    decreases s.len(),
{
    if s.len() > 0 {
        if is_whitespace(s[0]) {
            let rest = s.drop_first();
            lemma_blank_trims_to_nothing(rest);
            if is_blank(rest) {
                assert forall|i: int| 0 <= i < s.len() implies is_whitespace(#[trigger] s[i]) by {
                    if i > 0 {
                        assert(s[i] == rest[i - 1]);
                    }
                }
            } else {
                let i = choose|i: int| 0 <= i < rest.len() && !is_whitespace(#[trigger] rest[i]);
                assert(!is_whitespace(s[i + 1]));
            }
        }
        if is_whitespace(s.last()) {
            let rest = s.drop_last();
            lemma_blank_trims_to_nothing(rest);
            if is_blank(rest) {
                assert forall|i: int| 0 <= i < s.len() implies is_whitespace(#[trigger] s[i]) by {
                    if i < rest.len() {
                        assert(s[i] == rest[i]);
                    }
                }
            } else {
                let i = choose|i: int| 0 <= i < rest.len() && !is_whitespace(#[trigger] rest[i]);
                assert(!is_whitespace(s[i]));
            }
        }
    }
}

/// Whether the characters of `v` from `from` up to `to` are all whitespace.
pub fn range_is_blank(v: &Vec<char>, from: usize, to: usize) -> (b: bool)
    requires
        from <= to <= v.len(),
    ensures
        b == is_blank(v@.subrange(from as int, to as int)),
{
    let ghost r = v@.subrange(from as int, to as int);
    let mut i: usize = from;
    while i < to
        invariant
            from <= i <= to <= v.len(),
            r == v@.subrange(from as int, to as int),
            forall|k: int| 0 <= k < i - from ==> is_whitespace(#[trigger] r[k]),
        decreases to - i,
    {
        if !char_is_whitespace(v[i]) {
            assert(!is_whitespace(r[i - from]));
            return false;
        }
        i += 1;
    }
    true
}

/// The bounds of `trim(v@)` inside `v`: the trimmed text is the range from
/// the first to the second number returned.
pub fn trim_bounds(v: &Vec<char>) -> (r: (usize, usize))
    ensures
        r.0 <= r.1 <= v.len(),
        trim(v@) == v@.subrange(r.0 as int, r.1 as int),
{
    let n = v.len();
    let mut i: usize = 0;
    assert(v@.skip(0) =~= v@);
    while i < n && char_is_whitespace(v[i])
        invariant
            i <= n == v.len(),
            trim_start(v@) == trim_start(v@.skip(i as int)),
        decreases n - i,
    {
        assert(v@.skip(i as int).drop_first() =~= v@.skip(i + 1));
        i += 1;
    }
    assert(v@.skip(i as int) =~= v@.subrange(i as int, n as int));
    let mut j: usize = n;
    while j > i && char_is_whitespace(v[j - 1])
        invariant
            i <= j <= n == v.len(),
            trim(v@) == trim_end(v@.subrange(i as int, j as int)),
        decreases j,
    {
        assert(v@.subrange(i as int, j as int).drop_last() =~= v@.subrange(i as int, j - 1));
        j -= 1;
    }
    (i, j)
}

/// `line` without its leading and trailing whitespace.
pub fn trimmed(line: &str) -> (s: String)
    ensures
        s@ == trim(line@),
{
    let v = to_chars(line);
    let (from, to) = trim_bounds(&v);
    from_chars(&v, from, to)
}

/// Whether `line` holds nothing but whitespace.
pub fn blank(line: &str) -> (b: bool)
    ensures
        b == is_blank(line@),
{
    let v = to_chars(line);
    assert(v@.subrange(0, v@.len() as int) =~= v@);
    range_is_blank(&v, 0, v.len())
}

/// The position of the first `c` in `s`; `s.len()` where `s` holds no `c`.
pub open spec fn position(s: Seq<char>, c: char) -> nat
    decreases s.len(),
{
    if s.len() == 0 || s[0] == c {
        0
    } else {
        1 + position(s.drop_first(), c)
    }
}

/// `position(s, c)` is within `s`, nothing before it is `c`, and where it is
/// inside `s` it holds `c`.
pub proof fn lemma_position(s: Seq<char>, c: char)
    ensures
        position(s, c) <= s.len(),
        forall|k: int| 0 <= k < position(s, c) ==> s[k] != c,
        position(s, c) < s.len() ==> s[position(s, c) as int] == c,
    decreases s.len(),
{
    if s.len() == 0 || s[0] == c {
    } else {
        let rest = s.drop_first();
        lemma_position(rest, c);
        assert forall|k: int| 0 <= k < position(s, c) implies s[k] != c by {
            if k > 0 {
                assert(s[k] == rest[k - 1]);
            }
        }
        if position(s, c) < s.len() {
            assert(s[position(s, c) as int] == rest[position(rest, c) as int]);
        }
    }
}

/// A number that is within `s`, with no `c` before it and `c` at it unless it
/// is the end of `s`, is `position(s, c)`.
pub proof fn lemma_position_unique(s: Seq<char>, c: char, p: int)
    requires
        0 <= p <= s.len(),
        forall|k: int| 0 <= k < p ==> s[k] != c,
        p < s.len() ==> s[p] == c,
    ensures
        position(s, c) == p,
{
    lemma_position(s, c);
    let q = position(s, c) as int;
    if q < p {
        assert(s[q] != c);
    } else if p < q {
        assert(s[p] != c);
    }
}

/// The position in `v` of the first `c` at or after `from` and before `to`;
/// `to` where there is none.
pub fn find(v: &Vec<char>, from: usize, to: usize, c: char) -> (at: usize)
    requires
        from <= to <= v.len(),
    ensures
        from <= at <= to,
        at - from == position(v@.subrange(from as int, to as int), c),
{
    let ghost r = v@.subrange(from as int, to as int);
    let mut i: usize = from;
    while i < to && v[i] != c
        invariant
            from <= i <= to <= v.len(),
            r == v@.subrange(from as int, to as int),
            forall|k: int| 0 <= k < i - from ==> r[k] != c,
        decreases to - i,
    {
        i += 1;
    }
    proof {
        lemma_position_unique(r, c, i - from);
    }
    i
}

/// `line` without one carriage return at its end, where it ends in one.
pub open spec fn strip_cr(line: Seq<char>) -> Seq<char> {
    if line.len() > 0 && line.last() == '\r' {
        line.drop_last()
    } else {
        line
    }
}

/// The lines of `text`. A line ends at a line feed, or at the end of the
/// text; the line feed, and a carriage return right before it, are not part
/// of the line. A text that ends in a line feed has no empty last line.
pub open spec fn lines(text: Seq<char>) -> Seq<Seq<char>>
    decreases text.len(),
{
    let k = position(text, '\n');
    if text.len() == 0 {
        Seq::empty()
    } else if k >= text.len() {
        seq![text]
    } else {
        seq![strip_cr(text.take(k as int))] + lines(text.skip(k as int + 1))
    }
}

/// Whether `text` ends where a line ends: it is empty, or its last character
/// is a line feed.
pub open spec fn is_terminated(text: Seq<char>) -> bool {
    text.len() == 0 || text.last() == '\n'
}

/// Whether `line`, written out and followed by a line feed, is read back as
/// itself: it holds no line feed and does not end in a carriage return.
pub open spec fn fits_a_line(line: Seq<char>) -> bool {
    &&& !line.contains('\n')
    &&& !(line.len() > 0 && line.last() == '\r')
}

/// A text that ends where a line ends, followed by another text, has the
/// lines of the first and then the lines of the second.
pub proof fn lemma_lines_concat(a: Seq<char>, b: Seq<char>)
    requires
        is_terminated(a),
    ensures
        lines(a + b) == lines(a) + lines(b),
    decreases a.len(),
{
    if a.len() == 0 {
        assert(a + b =~= b);
        assert(lines(a) + lines(b) =~= lines(b));
    } else {
        let k = position(a, '\n') as int;
        lemma_position(a, '\n');
        if k == a.len() {
            assert(a[a.len() - 1] != '\n');
        }
        lemma_position_unique(a + b, '\n', k);
        let rest = a.skip(k + 1);
        assert((a + b).take(k) =~= a.take(k));
        assert((a + b).skip(k + 1) =~= rest + b);
        if rest.len() > 0 {
            assert(rest.last() == a.last());
        }
        lemma_lines_concat(rest, b);
        assert(lines(a + b) =~= lines(a) + lines(b));
    }
}

/// A line that fits, followed by a line feed, is read back as that one
/// line.
pub proof fn lemma_lines_of_one(line: Seq<char>)
    requires
        fits_a_line(line),
    ensures
        lines(line.push('\n')) == seq![line],
{
    let text = line.push('\n');
    let k = line.len() as int;
    assert forall|i: int| 0 <= i < k implies text[i] != '\n' by {
        assert(line.contains(line[i]));
    }
    lemma_position_unique(text, '\n', k);
    assert(text.take(k) =~= line);
    assert(text.skip(k + 1) =~= Seq::<char>::empty());
    assert(lines(text.skip(k + 1)) =~= Seq::<Seq<char>>::empty());
    assert(lines(text) =~= seq![line]);
}

/// No line holds a line feed.
pub proof fn lemma_lines_hold_no_feed(text: Seq<char>, i: int)
    requires
        0 <= i < lines(text).len(),
    ensures
        !lines(text)[i].contains('\n'),
    decreases text.len(),
{
    let k = position(text, '\n') as int;
    lemma_position(text, '\n');
    if k >= text.len() {
        let line = lines(text)[i];
        assert(line == text);
        if line.contains('\n') {
            let j = choose|j: int| 0 <= j < line.len() && line[j] == '\n';
            assert(text[j] != '\n');
        }
    } else if i == 0 {
        let raw = text.take(k);
        let line = strip_cr(raw);
        assert(lines(text)[0] == line);
        if line.contains('\n') {
            let j = choose|j: int| 0 <= j < line.len() && line[j] == '\n';
            assert(line[j] == text[j]);
        }
    } else {
        let rest = text.skip(k + 1);
        assert(lines(text)[i] == lines(rest)[i - 1]);
        lemma_lines_hold_no_feed(rest, i - 1);
    }
}

/// Whether `ranges` marks the lines of `text`: one pair of bounds for each
/// line, in order.
pub open spec fn marks_lines(ranges: Seq<(usize, usize)>, text: Seq<char>) -> bool {
    &&& ranges.len() == lines(text).len()
    &&& forall|i: int|
        0 <= i < ranges.len() ==> {
            &&& (#[trigger] ranges[i]).0 <= ranges[i].1 <= text.len()
            &&& text.subrange(ranges[i].0 as int, ranges[i].1 as int) == lines(text)[i]
        }
}

/// Where each line of `v` begins and ends.
pub fn line_ranges(v: &Vec<char>) -> (ranges: Vec<(usize, usize)>)
    ensures
        marks_lines(ranges@, v@),
{
    let n = v.len();
    let mut ranges: Vec<(usize, usize)> = Vec::new();
    let mut start: usize = 0;
    let ghost mut done: Seq<Seq<char>> = Seq::empty();
    assert(v@.skip(0) =~= v@);
    while start < n
        invariant
            start <= n == v.len(),
            lines(v@) == done + lines(v@.skip(start as int)),
            ranges.len() == done.len(),
            forall|i: int|
                0 <= i < ranges.len() ==> {
                    &&& (#[trigger] ranges[i]).0 <= ranges[i].1 <= n
                    &&& v@.subrange(ranges[i].0 as int, ranges[i].1 as int) == done[i]
                },
        decreases n - start,
    {
        let ghost rest = v@.skip(start as int);
        assert(rest =~= v@.subrange(start as int, n as int));
        let feed = find(v, start, n, '\n');
        let ghost k = (feed - start) as int;
        if feed == n {
            proof {
                assert(lines(rest) == seq![rest]);
                done = done.push(rest);
                assert(lines(v@.skip(n as int)) == Seq::<Seq<char>>::empty());
                assert(lines(v@) =~= done + lines(v@.skip(n as int)));
            }
            ranges.push((start, n));
            start = n;
        } else {
            let end = if feed > start && v[feed - 1] == '\r' {
                (feed - 1) as usize
            } else {
                feed
            };
            proof {
                let raw = rest.take(k);
                assert(raw =~= v@.subrange(start as int, feed as int));
                let line = strip_cr(raw);
                assert(line =~= v@.subrange(start as int, end as int));
                assert(rest.skip(k + 1) =~= v@.skip(feed + 1));
                assert(lines(rest) == seq![line] + lines(v@.skip(feed + 1)));
                assert(done + (seq![line] + lines(v@.skip(feed + 1))) =~= done.push(line) + lines(
                    v@.skip(feed + 1),
                ));
                done = done.push(line);
            }
            ranges.push((start, end));
            start = feed + 1;
        }
    }
    proof {
        assert(lines(v@.skip(n as int)) == Seq::<Seq<char>>::empty());
        assert(lines(v@) =~= done);
    }
    ranges
}

} // verus!
