//! The session history as it is kept on disk: one entry to a line, added to
//! at the end when a new target is used, written anew when one is deleted.

use crate::error::SessionError;
use crate::hosts::{
    lemma_entries_of_entries, lemma_entries_unique, lemma_push_unique, push_unique,
    session_entries,
};
use crate::text::{
    fits_a_line, is_blank, is_terminated, lemma_lines_concat, lemma_lines_of_one, lines,
};
use vstd::prelude::*;
use vstd::string::StringExecFns;

verus! {

/// The line that records `entry`: the entry and a line feed.
pub open spec fn record(entry: Seq<char>) -> Seq<char> {
    entry.push('\n')
}

/// The content of the history once `entry` was saved to a history that held
/// `content`: the record of the entry is added at the end, and nothing is
/// added for an empty entry.
pub open spec fn appended(content: Seq<char>, entry: Seq<char>) -> Seq<char> {
    if entry.len() == 0 {
        content
    } else {
        content + record(entry)
    }
}

/// The content of a history that records exactly `list`, in order.
pub open spec fn rendered(list: Seq<Seq<char>>) -> Seq<char>
    decreases list.len(),
{
    if list.len() == 0 {
        Seq::empty()
    } else {
        rendered(list.drop_last()) + record(list.last())
    }
}

/// A history that was only ever rendered and added to ends where a line
/// ends.
pub proof fn lemma_history_is_terminated(list: Seq<Seq<char>>, content: Seq<char>, entry: Seq<char>)
    ensures
        is_terminated(rendered(list)),
        is_terminated(content) ==> is_terminated(appended(content, entry)),
{
}

/// A rendered history is read back line by line as the list it records,
/// where every entry of the list fits a line.
pub proof fn lemma_lines_of_rendered(list: Seq<Seq<char>>)
    requires
        forall|i: int| 0 <= i < list.len() ==> fits_a_line(#[trigger] list[i]),
    ensures
        lines(rendered(list)) == list,
    decreases list.len(),
{
    if list.len() == 0 {
        assert(lines(rendered(list)) =~= list);
    } else {
        let earlier = list.drop_last();
        lemma_lines_of_rendered(earlier);
        lemma_history_is_terminated(earlier, Seq::empty(), Seq::empty());
        lemma_lines_concat(rendered(earlier), record(list.last()));
        lemma_lines_of_one(list.last());
        assert(earlier + seq![list.last()] =~= list);
    }
}

/// Whether a list of sessions can be kept in a history: it holds no entry
/// twice, and every entry fits a line and is not blank.
pub open spec fn well_kept(list: Seq<Seq<char>>) -> bool {
    &&& list.no_duplicates()
    &&& forall|i: int|
        0 <= i < list.len() ==> fits_a_line(#[trigger] list[i]) && !is_blank(list[i])
}

/// Writing a list of sessions out and loading it again gives the list,
/// where the list can be kept in a history.
pub proof fn lemma_rendered_sessions_load(list: Seq<Seq<char>>)
    requires
        well_kept(list),
    ensures
        session_entries(rendered(list)) == list,
{
    lemma_lines_of_rendered(list);
    lemma_entries_of_entries(list, false);
}

/// Whether `list` holds `entry` exactly once.
pub open spec fn holds_once(list: Seq<Seq<char>>, entry: Seq<char>) -> bool {
    exists|i: int|
        0 <= i < list.len() && #[trigger] list[i] == entry && forall|j: int|
            0 <= j < list.len() && #[trigger] list[j] == entry ==> j == i
}

/// A session that was saved is loaded exactly once, also when it was saved
/// twice: saving it a second time does not change what is loaded. This
/// holds of a history that ends where a line ends and of a session that
/// fits a line and is not blank.
pub proof fn lemma_saved_session_loads_once(content: Seq<char>, entry: Seq<char>)
    requires
        is_terminated(content),
        fits_a_line(entry),
        !is_blank(entry),
    ensures
        session_entries(appended(content, entry)) == push_unique(session_entries(content), entry),
        session_entries(appended(appended(content, entry), entry)) == session_entries(
            appended(content, entry),
        ),
        holds_once(session_entries(appended(content, entry)), entry),
        holds_once(session_entries(appended(appended(content, entry), entry)), entry),
{
    let once = appended(content, entry);
    let twice = appended(once, entry);
    assert(entry.len() > 0) by {
        if entry.len() == 0 {
            assert(is_blank(entry));
        }
    }
    lemma_lines_of_one(entry);
    lemma_lines_concat(content, record(entry));
    lemma_lines_concat(once, record(entry));
    let loaded = session_entries(content);
    assert(lines(once) =~= lines(content).push(entry));
    assert(lines(once).drop_last() =~= lines(content));
    assert(lines(twice) =~= lines(once).push(entry));
    assert(lines(twice).drop_last() =~= lines(once));
    lemma_push_unique(loaded, entry);
    lemma_entries_unique(lines(once), false);
    let out = session_entries(once);
    let i = choose|i: int| 0 <= i < out.len() && out[i] == entry;
    assert(holds_once(out, entry)) by {
        assert(out[i] == entry);
    }
}

/// What has to be added at the end of the history to remember `session`:
/// nothing for an empty session, else its record.
pub fn save_session(session: &str) -> (addition: Option<String>)
    ensures
        match addition {
            None => session@.len() == 0,
            Some(text) => session@.len() > 0 && text@ == record(session@),
        },
{
    if session.unicode_len() == 0 {
        None
    } else {
        let mut text = String::from_str(session);
        text.push('\n');
        Some(text)
    }
}

/// The content of a history that records `sessions`.
pub fn render(sessions: &Vec<String>) -> (content: String)
    ensures
        content@ == rendered(sessions.deep_view()),
{
    let mut content = String::new();
    let mut i: usize = 0;
    assert(sessions.deep_view().take(0) =~= Seq::<Seq<char>>::empty());
    while i < sessions.len()
        invariant
            i <= sessions.len(),
            content@ == rendered(sessions.deep_view().take(i as int)),
        decreases sessions.len() - i,
    {
        let ghost before = content@;
        content.append(sessions[i].as_str());
        content.push('\n');
        proof {
            let read = sessions.deep_view().take(i + 1);
            assert(read.drop_last() =~= sessions.deep_view().take(i as int));
            assert(read.last() == sessions[i as int]@);
            assert(content@ =~= before + record(read.last()));
        }
        i += 1;
    }
    assert(sessions.deep_view().take(i as int) =~= sessions.deep_view());
    content
}

/// Removes the session at `line`, counted from one, and returns it. Where
/// `line` addresses no session, the list stays as it was.
pub fn remove_session(sessions: &mut Vec<String>, line: usize) -> (r: Result<String, SessionError>)
    ensures
        1 <= line <= old(sessions).len() ==> r is Ok && r->Ok_0@ == old(sessions).deep_view()[line
            - 1] && final(sessions).deep_view() == old(sessions).deep_view().remove(line - 1),
        !(1 <= line <= old(sessions).len()) ==> r == Err::<String, SessionError>(
            SessionError::OutOfRange { position: line },
        ) && *final(sessions) == *old(sessions),
{
    if 1 <= line && line <= sessions.len() {
        let removed = sessions.remove(line - 1);
        assert(sessions.deep_view() =~= old(sessions).deep_view().remove(line - 1));
        Ok(removed)
    } else {
        Err(SessionError::OutOfRange { position: line })
    }
}

/// Deleting one entry leaves every other entry, in the order they had: the
/// list is shorter by one, the entries before the deleted one keep their
/// place, the entries after it move up by one, and a list without
/// repetitions stays without.
pub proof fn lemma_remove_keeps_the_others(list: Seq<Seq<char>>, position: int)
    requires
        1 <= position <= list.len(),
    ensures
        list.remove(position - 1).len() == list.len() - 1,
        forall|i: int|
            0 <= i < position - 1 ==> #[trigger] list.remove(position - 1)[i] == list[i],
        forall|i: int|
            position - 1 <= i < list.len() - 1 ==> #[trigger] list.remove(position - 1)[i]
                == list[i + 1],
        list.no_duplicates() ==> list.remove(position - 1).no_duplicates(),
{
}

} // verus!
