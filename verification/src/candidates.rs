//! The numbered index space that the user sees: the sessions first, counted
//! from one, then the trusted hosts, counted on from where the sessions end.

use crate::error::SessionError;
use crate::number::{decimal_digits, push_decimal};
use vstd::prelude::*;
use vstd::string::StringExecFns;

verus! {

/// The entry that `index` addresses in `sessions` followed by `trusted`,
/// counting from one; none where it addresses neither list.
pub open spec fn resolved(
    index: int,
    sessions: Seq<Seq<char>>,
    trusted: Seq<Seq<char>>,
) -> Option<Seq<char>> {
    if 1 <= index <= sessions.len() {
        Some(sessions[index - 1])
    } else if sessions.len() < index <= sessions.len() + trusted.len() {
        Some(trusted[index - 1 - sessions.len()])
    } else {
        None
    }
}

/// The two lists share one index space: an index addresses the entry at
/// that place, counted from one, in the sessions followed by the trusted
/// hosts, and an index outside that sequence addresses nothing.
pub proof fn lemma_resolved_in_concatenation(
    index: int,
    sessions: Seq<Seq<char>>,
    trusted: Seq<Seq<char>>,
)
    ensures
        1 <= index <= (sessions + trusted).len() ==> resolved(index, sessions, trusted) == Some(
            (sessions + trusted)[index - 1],
        ),
        !(1 <= index <= (sessions + trusted).len()) ==> resolved(index, sessions, trusted)
            is None,
{
}

/// The entry at `index` among the sessions followed by the trusted hosts.
pub fn resolve(
    index: usize,
    sessions: &Vec<String>,
    trusted: &Vec<String>,
) -> (r: Result<String, SessionError>)
    ensures
        match resolved(index as int, sessions.deep_view(), trusted.deep_view()) {
            Some(entry) => r is Ok && r->Ok_0@ == entry,
            None => r == Err::<String, SessionError>(SessionError::OutOfRange { position: index }),
        },
{
    if 1 <= index && index <= sessions.len() {
        Ok(sessions[index - 1].clone())
    } else if index > sessions.len() && index - sessions.len() <= trusted.len() {
        Ok(trusted[index - sessions.len() - 1].clone())
    } else {
        Err(SessionError::OutOfRange { position: index })
    }
}

/// One row of a listing: the number, a colon, a space, the entry.
pub open spec fn row(number: nat, entry: Seq<char>) -> Seq<char> {
    decimal_digits(number) + seq![':', ' '] + entry
}

/// The rows for `entries`, numbered from `offset + 1` on.
pub open spec fn rows(entries: Seq<Seq<char>>, offset: nat) -> Seq<Seq<char>> {
    Seq::new(entries.len(), |i: int| row((offset + i + 1) as nat, entries[i]))
}

/// The listing of both lists: the sessions numbered from one, the trusted
/// hosts numbered on from where the sessions end.
pub open spec fn listing(sessions: Seq<Seq<char>>, trusted: Seq<Seq<char>>) -> Seq<Seq<char>> {
    rows(sessions, 0) + rows(trusted, sessions.len())
}

/// Each row of the listing shows an entry beside the index that addresses
/// it.
pub proof fn lemma_listing_shows_indices(
    sessions: Seq<Seq<char>>,
    trusted: Seq<Seq<char>>,
    i: int,
)
    requires
        0 <= i < sessions.len() + trusted.len(),
    ensures
        listing(sessions, trusted).len() == sessions.len() + trusted.len(),
        resolved(i + 1, sessions, trusted) is Some,
        listing(sessions, trusted)[i] == row(
            (i + 1) as nat,
            resolved(i + 1, sessions, trusted)->Some_0,
        ),
{
}

/// The rows that show `entries`, the first of them numbered `offset + 1`.
pub fn numbered(entries: &Vec<String>, offset: usize) -> (out: Vec<String>)
    ensures
        out.deep_view() == rows(entries.deep_view(), offset as nat),
{
    let mut out: Vec<String> = Vec::new();
    let mut i: usize = 0;
    while i < entries.len()
        invariant
            i <= entries.len(),
            out.deep_view() == rows(entries.deep_view(), offset as nat).take(i as int),
        decreases entries.len() - i,
    {
        let ghost before = out.deep_view();
        let mut line = String::new();
        push_decimal(&mut line, offset as u128 + i as u128 + 1);
        line.append(": ");
        line.append(entries[i].as_str());
        proof {
            reveal_strlit(": ");
            assert(": "@ =~= seq![':', ' ']);
            assert(line@ =~= row((offset + i + 1) as nat, entries.deep_view()[i as int]));
        }
        out.push(line);
        assert(out.deep_view() =~= before.push(line@));
        i += 1;
        assert(out.deep_view() =~= rows(entries.deep_view(), offset as nat).take(i as int));
    }
    assert(out.deep_view() =~= rows(entries.deep_view(), offset as nat));
    out
}

/// The listing shown to the user: one row for each session, then one for
/// each trusted host.
pub fn display(sessions: &Vec<String>, trusted: &Vec<String>) -> (out: Vec<String>)
    ensures
        out.deep_view() == listing(sessions.deep_view(), trusted.deep_view()),
{
    let mut out = numbered(sessions, 0);
    let mut rest = numbered(trusted, sessions.len());
    let ghost first = out.deep_view();
    let ghost second = rest.deep_view();
    out.append(&mut rest);
    assert(out.deep_view() =~= first + second);
    out
}

} // verus!
