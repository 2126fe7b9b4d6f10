//! From line-oriented text to an ordered list of unique entries.
//!
//! Two sources are read this way. The list of trusted hosts contributes the
//! first space-delimited token of each line; the session history contributes
//! each line whole. In both, blank lines are skipped and an entry that was
//! seen before is not listed again.

use crate::store::{lemma_lines_of_rendered, rendered};
use crate::text::{
    find, fits_a_line, from_chars, is_blank, lemma_lines_hold_no_feed, lemma_position,
    lemma_position_unique, line_ranges, lines, marks_lines, position, range_is_blank, to_chars,
};
use vstd::prelude::*;

verus! {

/// The part of `line` before its first space; the whole line where it holds
/// no space.
pub open spec fn first_token(line: Seq<char>) -> Seq<char> {
    line.take(position(line, ' ') as int)
}

/// What a line contributes: its first token, or the line itself.
pub open spec fn entry_of(line: Seq<char>, first_tokens: bool) -> Seq<char> {
    if first_tokens {
        first_token(line)
    } else {
        line
    }
}

/// `list` with `entry` at its end, unless `list` holds `entry` already.
pub open spec fn push_unique(list: Seq<Seq<char>>, entry: Seq<char>) -> Seq<Seq<char>> {
    if list.contains(entry) {
        list
    } else {
        list.push(entry)
    }
}

/// The entries of a sequence of lines, taken line by line: a blank line
/// contributes nothing, every other line contributes its entry unless an
/// earlier line contributed the same.
pub open spec fn entries_of(ls: Seq<Seq<char>>, first_tokens: bool) -> Seq<Seq<char>>
    decreases ls.len(),
{
    if ls.len() == 0 {
        Seq::empty()
    } else {
        let before = entries_of(ls.drop_last(), first_tokens);
        if is_blank(ls.last()) {
            before
        } else {
            push_unique(before, entry_of(ls.last(), first_tokens))
        }
    }
}

/// The trusted hosts that `text` lists.
pub open spec fn host_entries(text: Seq<char>) -> Seq<Seq<char>> {
    entries_of(lines(text), true)
}

/// The sessions that `text` records.
pub open spec fn session_entries(text: Seq<char>) -> Seq<Seq<char>> {
    entries_of(lines(text), false)
}

/// Whether line `i` of `ls` is not blank and contributes `entry`.
pub open spec fn contributes(
    ls: Seq<Seq<char>>,
    first_tokens: bool,
    i: int,
    entry: Seq<char>,
) -> bool {
    &&& 0 <= i < ls.len()
    &&& !is_blank(ls[i])
    &&& entry_of(ls[i], first_tokens) == entry
}

/// `list` with `entry` added holds `entry` and whatever `list` held, and
/// nothing else.
pub proof fn lemma_push_unique(list: Seq<Seq<char>>, entry: Seq<char>)
    ensures
        push_unique(list, entry).contains(entry),
        forall|e: Seq<char>| list.contains(e) ==> #[trigger] push_unique(list, entry).contains(e),
        forall|e: Seq<char>|
            #[trigger] push_unique(list, entry).contains(e) ==> e == entry || list.contains(e),
        list.no_duplicates() ==> push_unique(list, entry).no_duplicates(),
{
    let out = push_unique(list, entry);
    if !list.contains(entry) {
        assert(out[list.len() as int] == entry);
        assert forall|e: Seq<char>| list.contains(e) implies #[trigger] out.contains(e) by {
            let i = choose|i: int| 0 <= i < list.len() && list[i] == e;
            assert(out[i] == e);
        }
        assert forall|e: Seq<char>| #[trigger] out.contains(e) implies e == entry || list.contains(
            e,
        ) by {
            let i = choose|i: int| 0 <= i < out.len() && out[i] == e;
            if i < list.len() {
                assert(list[i] == e);
            }
        }
    }
}

/// The entries hold exactly what the lines that are not blank contribute.
pub proof fn lemma_entries_complete(ls: Seq<Seq<char>>, first_tokens: bool)
    ensures
        forall|e: Seq<char>|
            (#[trigger] entries_of(ls, first_tokens).contains(e)) <==> exists|i: int|
                contributes(ls, first_tokens, i, e),
    decreases ls.len(),
{
    let out = entries_of(ls, first_tokens);
    if ls.len() == 0 {
        assert forall|e: Seq<char>|
            (#[trigger] out.contains(e)) <==> exists|i: int|
                contributes(ls, first_tokens, i, e) by {}
    } else {
        let earlier = ls.drop_last();
        let before = entries_of(earlier, first_tokens);
        let last = ls.len() - 1;
        let entry = entry_of(ls[last], first_tokens);
        lemma_entries_complete(earlier, first_tokens);
        lemma_push_unique(before, entry);
        assert forall|e: Seq<char>|
            (#[trigger] out.contains(e)) <==> exists|i: int|
                contributes(ls, first_tokens, i, e) by {
            if out.contains(e) {
                if before.contains(e) {
                    let i = choose|i: int| contributes(earlier, first_tokens, i, e);
                    assert(contributes(ls, first_tokens, i, e));
                } else {
                    assert(contributes(ls, first_tokens, last, e));
                }
            }
            if exists|i: int| contributes(ls, first_tokens, i, e) {
                let i = choose|i: int| contributes(ls, first_tokens, i, e);
                if i < last {
                    assert(contributes(earlier, first_tokens, i, e));
                    assert(before.contains(e));
                }
            }
        }
    }
}

/// No entry is listed twice.
pub proof fn lemma_entries_unique(ls: Seq<Seq<char>>, first_tokens: bool)
    ensures
        entries_of(ls, first_tokens).no_duplicates(),
    decreases ls.len(),
{
    if ls.len() > 0 {
        lemma_entries_unique(ls.drop_last(), first_tokens);
        lemma_push_unique(
            entries_of(ls.drop_last(), first_tokens),
            entry_of(ls.last(), first_tokens),
        );
    }
}

/// Whether `first` is seen before `second`: a line contributes `first`, and
/// neither that line nor a line before it contributes `second`.
pub open spec fn seen_before(
    ls: Seq<Seq<char>>,
    first_tokens: bool,
    first: Seq<char>,
    second: Seq<char>,
) -> bool {
    exists|i: int| #[trigger]
        contributes(ls, first_tokens, i, first) && forall|j: int|
            0 <= j <= i ==> !contributes(ls, first_tokens, j, second)
}

/// The entries stand in the order in which they are first seen: of two
/// entries, the one listed first is seen before the other.
pub proof fn lemma_entries_in_first_seen_order(ls: Seq<Seq<char>>, first_tokens: bool)
    ensures
        forall|a: int, b: int|
            #![trigger entries_of(ls, first_tokens)[a], entries_of(ls, first_tokens)[b]]
            0 <= a < b < entries_of(ls, first_tokens).len() ==> seen_before(
                ls,
                first_tokens,
                entries_of(ls, first_tokens)[a],
                entries_of(ls, first_tokens)[b],
            ),
    decreases ls.len(),
{
    let out = entries_of(ls, first_tokens);
    if ls.len() > 0 {
        let earlier = ls.drop_last();
        let before = entries_of(earlier, first_tokens);
        lemma_entries_in_first_seen_order(earlier, first_tokens);
        lemma_entries_complete(earlier, first_tokens);
        assert forall|a: int, b: int| 0 <= a < b < out.len() implies seen_before(
            ls,
            first_tokens,
            #[trigger] out[a],
            #[trigger] out[b],
        ) by {
            assert(out[a] == before[a]);
            let i = if b < before.len() {
                assert(out[b] == before[b]);
                assert(seen_before(earlier, first_tokens, before[a], before[b]));
                choose|i: int| #[trigger]
                    contributes(earlier, first_tokens, i, before[a]) && forall|j: int|
                        0 <= j <= i ==> !contributes(earlier, first_tokens, j, before[b])
            } else {
                assert(before.contains(out[a]));
                assert(!before.contains(out[b]));
                choose|i: int| contributes(earlier, first_tokens, i, out[a])
            };
            assert(contributes(ls, first_tokens, i, out[a]));
            assert forall|j: int| 0 <= j <= i implies !contributes(ls, first_tokens, j, out[b]) by {
                if contributes(ls, first_tokens, j, out[b]) {
                    assert(contributes(earlier, first_tokens, j, out[b]));
                }
            }
        }
    }
}

/// A list that holds no entry twice and no blank entry, read as lines, gives
/// itself; where first tokens are taken, its entries must hold no space.
pub proof fn lemma_entries_of_entries(list: Seq<Seq<char>>, first_tokens: bool)
    requires
        list.no_duplicates(),
        forall|i: int| 0 <= i < list.len() ==> !is_blank(#[trigger] list[i]),
        first_tokens ==> forall|i: int| 0 <= i < list.len() ==> !(#[trigger] list[i]).contains(' '),
    ensures
        entries_of(list, first_tokens) == list,
    decreases list.len(),
{
    if list.len() == 0 {
        assert(entries_of(list, first_tokens) =~= list);
    } else {
        let earlier = list.drop_last();
        let last = list.last();
        lemma_entries_of_entries(earlier, first_tokens);
        assert(entry_of(last, first_tokens) == last) by {
            if first_tokens {
                assert forall|k: int| 0 <= k < last.len() implies last[k] != ' ' by {
                    assert(last.contains(last[k]));
                }
                lemma_position_unique(last, ' ', last.len() as int);
                assert(last.take(last.len() as int) =~= last);
            }
        }
        assert(!earlier.contains(last)) by {
            if earlier.contains(last) {
                let i = choose|i: int| 0 <= i < earlier.len() && earlier[i] == last;
                assert(list[i] == list[list.len() - 1]);
            }
        }
        assert(earlier.push(last) =~= list);
    }
}

/// The part of a line before its first space holds no space, and no line
/// feed unless the line holds one.
pub proof fn lemma_first_token(line: Seq<char>)
    ensures
        !first_token(line).contains(' '),
        !line.contains('\n') ==> !first_token(line).contains('\n'),
        first_token(line).len() <= line.len(),
        first_token(line) == line.take(first_token(line).len() as int),
{
    lemma_position(line, ' ');
    let token = first_token(line);
    if token.contains(' ') {
        let k = choose|k: int| 0 <= k < token.len() && token[k] == ' ';
        assert(line[k] != ' ');
    }
    if token.contains('\n') {
        let k = choose|k: int| 0 <= k < token.len() && token[k] == '\n';
        assert(line[k] == '\n');
    }
}

/// Reading the entries of a text once more, as lines, changes nothing, as
/// long as none of them is blank. A blank entry can only be a first token:
/// that of a line that begins with a space, or with other whitespace right
/// before its first space.
pub proof fn lemma_entries_idempotent(ls: Seq<Seq<char>>, first_tokens: bool)
    requires
        forall|i: int|
            0 <= i < entries_of(ls, first_tokens).len() ==> !is_blank(
                #[trigger] entries_of(ls, first_tokens)[i],
            ),
    ensures
        entries_of(entries_of(ls, first_tokens), first_tokens) == entries_of(ls, first_tokens),
{
    let out = entries_of(ls, first_tokens);
    lemma_entries_unique(ls, first_tokens);
    lemma_entries_complete(ls, first_tokens);
    if first_tokens {
        assert forall|i: int| 0 <= i < out.len() implies !(#[trigger] out[i]).contains(' ') by {
            assert(out.contains(out[i]));
            let k = choose|k: int| contributes(ls, first_tokens, k, out[i]);
            lemma_first_token(ls[k]);
        }
    }
    lemma_entries_of_entries(out, first_tokens);
}

/// What was parsed from a text, written out one entry to a line and parsed
/// again, is what was parsed the first time. This holds where no entry is
/// blank and none ends in a carriage return.
pub proof fn lemma_reparse(text: Seq<char>, first_tokens: bool)
    requires
        forall|i: int|
            0 <= i < entries_of(lines(text), first_tokens).len() ==> {
                let entry = #[trigger] entries_of(lines(text), first_tokens)[i];
                !is_blank(entry) && entry.last() != '\r'
            },
    ensures
        entries_of(lines(rendered(entries_of(lines(text), first_tokens))), first_tokens)
            == entries_of(lines(text), first_tokens),
{
    let ls = lines(text);
    let out = entries_of(ls, first_tokens);
    lemma_entries_complete(ls, first_tokens);
    assert forall|i: int| 0 <= i < out.len() implies fits_a_line(#[trigger] out[i]) by {
        assert(out.contains(out[i]));
        let k = choose|k: int| contributes(ls, first_tokens, k, out[i]);
        lemma_lines_hold_no_feed(text, k);
        lemma_first_token(ls[k]);
    }
    lemma_lines_of_rendered(out);
    lemma_entries_idempotent(ls, first_tokens);
}

/// Whether `list` holds an entry equal to `entry`.
pub fn contains(list: &Vec<String>, entry: &String) -> (b: bool)
    ensures
        b == list.deep_view().contains(entry@),
{
    let mut i: usize = 0;
    while i < list.len()
        invariant
            i <= list.len(),
            forall|k: int| 0 <= k < i ==> list.deep_view()[k] != entry@,
        decreases list.len() - i,
    {
        if list[i] == *entry {
            assert(list.deep_view()[i as int] == entry@);
            return true;
        }
        i += 1;
    }
    false
}

fn collect(text: &str, first_tokens: bool) -> (out: Vec<String>)
    ensures
        out.deep_view() == entries_of(lines(text@), first_tokens),
{
    let v = to_chars(text);
    let ranges = line_ranges(&v);
    let mut out: Vec<String> = Vec::new();
    let mut i: usize = 0;
    assert(out.deep_view() =~= Seq::<Seq<char>>::empty());
    while i < ranges.len()
        invariant
            v@ == text@,
            marks_lines(ranges@, v@),
            i <= ranges.len(),
            out.deep_view() == entries_of(lines(v@).take(i as int), first_tokens),
        decreases ranges.len() - i,
    {
        let (from, to) = ranges[i];
        let ghost seen = lines(v@).take(i as int);
        let ghost line = lines(v@)[i as int];
        let ghost before = out.deep_view();
        proof {
            assert(lines(v@).take(i + 1).drop_last() =~= seen);
            assert(lines(v@).take(i + 1).last() == line);
            assert(v@.subrange(from as int, to as int) == line);
        }
        if !range_is_blank(&v, from, to) {
            let end = if first_tokens {
                find(&v, from, to, ' ')
            } else {
                to
            };
            let entry = from_chars(&v, from, end);
            assert(entry@ == entry_of(line, first_tokens)) by {
                if first_tokens {
                    assert(v@.subrange(from as int, end as int) =~= line.take(end - from));
                }
            }
            if !contains(&out, &entry) {
                out.push(entry);
                assert(out.deep_view() =~= before.push(entry@));
            }
        }
        i += 1;
    }
    assert(lines(v@).take(i as int) =~= lines(v@));
    out
}

/// The trusted hosts listed in `text`: the first token of each line that is
/// not blank, each host once, in the order in which they first appear.
pub fn list_known_hosts(text: &str) -> (hosts: Vec<String>)
    ensures
        hosts.deep_view() == host_entries(text@),
{
    collect(text, true)
}

/// The sessions recorded in `text`: each line that is not blank, each
/// session once, in the order in which they first appear.
pub fn load_stored_session(text: &str) -> (sessions: Vec<String>)
    ensures
        sessions.deep_view() == session_entries(text@),
{
    collect(text, false)
}

} // verus!
