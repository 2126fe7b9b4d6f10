//! What the user typed, and what follows from it.
//!
//! A line is a number or it is not. A number selects a candidate, deletes a
//! session or asks to leave; any other line names a new target. The caller
//! reads the lines and carries out the action; the decisions are made here.

use crate::candidates::{resolve, resolved};
use crate::error::SessionError;
use crate::hosts::{contains, lemma_push_unique, session_entries};
use crate::number::{parse_i32, parsed_i32};
use crate::store::{
    lemma_history_is_terminated, lemma_rendered_sessions_load, lemma_saved_session_loads_once,
    record, remove_session, render, rendered, save_session, well_kept,
};
use crate::text::{
    blank, find, fits_a_line, is_blank, is_terminated, is_trimmed, is_whitespace, lemma_position,
    to_chars, trim, trimmed,
};
use vstd::prelude::*;
use vstd::string::StringExecFns;

verus! {

/// The shape of a line that is read as a number: an optional minus sign,
/// then digits to the end.
pub const NUMBER: &'static str = "^-?\\d+$";

/// Whether the regular expression `pattern` matches somewhere in
/// `haystack`; none where `pattern` is not a regular expression.
pub uninterp spec fn pattern_match(pattern: Seq<char>, haystack: Seq<char>) -> Option<bool>;

/// Compiles `pattern` with `regex::Regex::new` and asks `Regex::is_match`
/// whether it matches in `haystack`. The answer depends on the two texts
/// alone; it is none exactly where `Regex::new` rejects the pattern.
#[verifier::external_body]
fn regex_is_match(pattern: &str, haystack: &str) -> (r: Option<bool>)
    ensures
        r == pattern_match(pattern@, haystack@),
{
    match regex::Regex::new(pattern) {
        Ok(re) => Some(re.is_match(haystack)),
        Err(_) => None,
    }
}

/// Whether `pattern` matches somewhere in `text`; `SessionError::Pattern`
/// where `pattern` is not a regular expression.
pub fn matches_pattern(pattern: &str, text: &str) -> (r: Result<bool, SessionError>)
    ensures
        r == match pattern_match(pattern@, text@) {
            Some(found) => Ok::<bool, SessionError>(found),
            None => Err::<bool, SessionError>(SessionError::Pattern),
        },
{
    match regex_is_match(pattern, text) {
        Some(found) => Ok(found),
        None => Err(SessionError::Pattern),
    }
}

/// What a line asks for.
#[derive(Clone, Copy, Debug, PartialEq, Eq, Structural)]
pub enum Request {
    /// Connect to the candidate at `index`.
    Select { index: usize },
    /// Delete the session at `position`.
    Delete { position: usize },
    /// Connect to the target that the line names.
    Target,
}

/// What a line asks for, given whether it has the shape of a number. A
/// line of that shape must stand for a 32-bit integer: zero asks to leave,
/// a negative number asks to delete the session at its magnitude, a
/// positive number selects a candidate. Any other line is a target.
pub open spec fn classified(line: Seq<char>, numeric: bool) -> Result<Request, SessionError> {
    if !numeric {
        Ok(Request::Target)
    } else {
        match parsed_i32(line) {
            None => Err(SessionError::ParseFailure),
            Some(n) => if n == 0 {
                Err(SessionError::Abort)
            } else if n < 0 {
                Ok(Request::Delete { position: (-n) as usize })
            } else {
                Ok(Request::Select { index: n as usize })
            },
        }
    }
}

/// Decides what `line` asks for; `numeric` says whether the line has the
/// shape of a number.
pub fn classify(line: &str, numeric: bool) -> (r: Result<Request, SessionError>)
    ensures
        r == classified(line@, numeric),
{
    if !numeric {
        return Ok(Request::Target);
    }
    match parse_i32(line) {
        None => Err(SessionError::ParseFailure),
        Some(n) => {
            if n == 0 {
                Err(SessionError::Abort)
            } else if n < 0 {
                let magnitude: u32 = (-(n as i64)) as u32;
                Ok(Request::Delete { position: magnitude as usize })
            } else {
                Ok(Request::Select { index: n as usize })
            }
        },
    }
}

/// What the caller has to do.
#[derive(Debug, PartialEq, Eq)]
pub enum Action {
    /// Open a session to `target`. Where `addition` is given, the target is
    /// new: add that text at the end of the history first.
    Connect { target: String, addition: Option<String> },
    /// The session `removed` was deleted: replace the history with
    /// `content` and open no session.
    Deleted { removed: String, content: String },
    /// The line was empty: there is nothing to remember and nothing to open.
    Nothing,
}

/// An `Action` with its texts as sequences of characters.
pub enum ActionView {
    Connect { target: Seq<char>, addition: Option<Seq<char>> },
    Deleted { removed: Seq<char>, content: Seq<char> },
    Nothing,
}

impl View for Action {
    type V = ActionView;

    open spec fn view(&self) -> ActionView {
        match self {
            Action::Connect { target, addition } => ActionView::Connect {
                target: target@,
                addition: match addition {
                    Some(text) => Some(text@),
                    None => None,
                },
            },
            Action::Deleted { removed, content } => ActionView::Deleted {
                removed: removed@,
                content: content@,
            },
            Action::Nothing => ActionView::Nothing,
        }
    }
}

/// The view of what interpreting a line returned.
pub open spec fn outcome_view(r: Result<Action, SessionError>) -> Result<ActionView, SessionError> {
    match r {
        Ok(action) => Ok(action@),
        Err(e) => Err(e),
    }
}

/// What follows from `line`, trimmed already, against the sessions and the
/// trusted hosts on offer.
///
/// A selection connects to the candidate it addresses and adds nothing to
/// the history. A deletion addresses the sessions only and never connects.
/// A target is connected to as typed, and is added to the history unless
/// the sessions hold it; the empty line leads to nothing.
pub open spec fn interpreted(
    line: Seq<char>,
    numeric: bool,
    sessions: Seq<Seq<char>>,
    trusted: Seq<Seq<char>>,
) -> Result<ActionView, SessionError> {
    match classified(line, numeric) {
        Err(e) => Err(e),
        Ok(Request::Select { index }) => match resolved(index as int, sessions, trusted) {
            Some(entry) => Ok(ActionView::Connect { target: entry, addition: None }),
            None => Err(SessionError::OutOfRange { position: index }),
        },
        Ok(Request::Delete { position }) => if 1 <= position <= sessions.len() {
            Ok(
                ActionView::Deleted {
                    removed: sessions[position - 1],
                    content: rendered(sessions.remove(position - 1)),
                },
            )
        } else {
            Err(SessionError::OutOfRange { position })
        },
        Ok(Request::Target) => if line.len() == 0 {
            Ok(ActionView::Nothing)
        } else {
            Ok(
                ActionView::Connect {
                    target: line,
                    addition: if sessions.contains(line) {
                        None
                    } else {
                        Some(record(line))
                    },
                },
            )
        },
    }
}

/// The sessions once `line` was interpreted: without the session that a
/// deletion addressed, with a new target at the end, and otherwise as they
/// were.
pub open spec fn sessions_after(
    line: Seq<char>,
    numeric: bool,
    sessions: Seq<Seq<char>>,
) -> Seq<Seq<char>> {
    match classified(line, numeric) {
        Ok(Request::Delete { position }) => if 1 <= position <= sessions.len() {
            sessions.remove(position - 1)
        } else {
            sessions
        },
        Ok(Request::Target) => if line.len() == 0 || sessions.contains(line) {
            sessions
        } else {
            sessions.push(line)
        },
        _ => sessions,
    }
}

/// Interprets `line`, trimmed already; `numeric` says whether it has the
/// shape of a number. The sessions are brought up to date, and the action
/// returned says what to do to the history on disk and whether to connect.
pub fn interpret(
    line: &str,
    numeric: bool,
    sessions: &mut Vec<String>,
    trusted: &Vec<String>,
) -> (r: Result<Action, SessionError>)
    ensures
        outcome_view(r) == interpreted(
            line@,
            numeric,
            old(sessions).deep_view(),
            trusted.deep_view(),
        ),
        final(sessions).deep_view() == sessions_after(line@, numeric, old(sessions).deep_view()),
{
    match classify(line, numeric) {
        Err(e) => Err(e),
        Ok(Request::Select { index }) => {
            match resolve(index, sessions, trusted) {
                Ok(target) => Ok(Action::Connect { target, addition: None }),
                Err(e) => Err(e),
            }
        },
        Ok(Request::Delete { position }) => {
            match remove_session(sessions, position) {
                Ok(removed) => {
                    let content = render(sessions);
                    Ok(Action::Deleted { removed, content })
                },
                Err(e) => Err(e),
            }
        },
        Ok(Request::Target) => {
            let target = String::from_str(line);
            match save_session(line) {
                None => Ok(Action::Nothing),
                Some(text) => {
                    if contains(sessions, &target) {
                        Ok(Action::Connect { target, addition: None })
                    } else {
                        let ghost before = sessions.deep_view();
                        sessions.push(target.clone());
                        assert(sessions.deep_view() =~= before.push(line@));
                        Ok(Action::Connect { target, addition: Some(text) })
                    }
                },
            }
        },
    }
}

/// Interpreting a line keeps a list of sessions free of repetitions.
pub proof fn lemma_sessions_stay_unique(line: Seq<char>, numeric: bool, sessions: Seq<Seq<char>>)
    requires
        sessions.no_duplicates(),
    ensures
        sessions_after(line, numeric, sessions).no_duplicates(),
{
}

/// A line that led to an error changed nothing, and neither did a
/// selection or an empty line.
pub proof fn lemma_errors_change_nothing(
    line: Seq<char>,
    numeric: bool,
    sessions: Seq<Seq<char>>,
    trusted: Seq<Seq<char>>,
)
    ensures
        match interpreted(line, numeric, sessions, trusted) {
            Err(_) => sessions_after(line, numeric, sessions) == sessions,
            Ok(ActionView::Nothing) => sessions_after(line, numeric, sessions) == sessions,
            Ok(ActionView::Connect { addition, .. }) => addition is None ==> sessions_after(
                line,
                numeric,
                sessions,
            ) == sessions,
            Ok(ActionView::Deleted { .. }) => true,
        },
{
}

/// The content of the history once the caller did to it what the outcome
/// of a line asks for: an addition is added at its end, a deletion
/// replaces it, and anything else leaves it as it was.
pub open spec fn history_after(
    outcome: Result<ActionView, SessionError>,
    content: Seq<char>,
) -> Seq<char> {
    match outcome {
        Ok(ActionView::Connect { addition: Some(text), .. }) => content + text,
        Ok(ActionView::Deleted { content: replacement, .. }) => replacement,
        _ => content,
    }
}

/// The history on disk follows the sessions in memory: where the sessions
/// are what the history records, then after a line was interpreted and the
/// caller did what the outcome asks for, the sessions are again what the
/// history records. This holds of sessions that can be kept in a history,
/// of a history that ends where a line ends, and of a line that was
/// trimmed and holds no line feed.
pub proof fn lemma_history_follows(
    line: Seq<char>,
    numeric: bool,
    sessions: Seq<Seq<char>>,
    trusted: Seq<Seq<char>>,
    content: Seq<char>,
)
    requires
        well_kept(sessions),
        is_terminated(content),
        session_entries(content) == sessions,
        is_trimmed(line),
        !line.contains('\n'),
    ensures
        well_kept(sessions_after(line, numeric, sessions)),
        is_terminated(history_after(interpreted(line, numeric, sessions, trusted), content)),
        session_entries(history_after(interpreted(line, numeric, sessions, trusted), content))
            == sessions_after(line, numeric, sessions),
{
    let after = sessions_after(line, numeric, sessions);
    match classified(line, numeric) {
        Ok(Request::Delete { position }) => {
            if 1 <= position <= sessions.len() {
                assert forall|i: int| 0 <= i < after.len() implies fits_a_line(#[trigger] after[i])
                    && !is_blank(after[i]) by {
                    if i < position - 1 {
                        assert(after[i] == sessions[i]);
                    } else {
                        assert(after[i] == sessions[i + 1]);
                    }
                }
                lemma_rendered_sessions_load(after);
                lemma_history_is_terminated(after, content, line);
            }
        },
        Ok(Request::Target) => {
            if line.len() > 0 && !sessions.contains(line) {
                assert(!is_blank(line)) by {
                    assert(!is_whitespace(line[0]));
                }
                assert(is_whitespace('\r'));
                lemma_saved_session_loads_once(content, line);
                lemma_push_unique(sessions, line);
                lemma_history_is_terminated(sessions, content, line);
            }
        },
        _ => {},
    }
}

/// Where no trusted hosts are on offer, a selection beyond the sessions is
/// out of range, and so is every deletion beyond them.
pub proof fn lemma_beyond_sessions_out_of_range(line: Seq<char>, sessions: Seq<Seq<char>>)
    ensures
        match classified(line, true) {
            Ok(Request::Select { index }) => index > sessions.len() ==> interpreted(
                line,
                true,
                sessions,
                Seq::empty(),
            ) == Err::<ActionView, SessionError>(SessionError::OutOfRange { position: index }),
            Ok(Request::Delete { position }) => position > sessions.len() ==> interpreted(
                line,
                true,
                sessions,
                Seq::empty(),
            ) == Err::<ActionView, SessionError>(SessionError::OutOfRange { position }),
            _ => true,
        },
{
}

/// What a line that the user typed leads to: the line is trimmed, tested
/// against `NUMBER` and interpreted.
pub open spec fn answered(
    line: Seq<char>,
    sessions: Seq<Seq<char>>,
    trusted: Seq<Seq<char>>,
) -> Result<ActionView, SessionError> {
    match pattern_match(NUMBER@, trim(line)) {
        Some(numeric) => interpreted(trim(line), numeric, sessions, trusted),
        None => Err(SessionError::Pattern),
    }
}

/// The sessions once a line that the user typed was answered.
pub open spec fn sessions_answered(line: Seq<char>, sessions: Seq<Seq<char>>) -> Seq<Seq<char>> {
    match pattern_match(NUMBER@, trim(line)) {
        Some(numeric) => sessions_after(trim(line), numeric, sessions),
        None => sessions,
    }
}

/// Answers the line that the user typed after the listing of the sessions
/// and the trusted hosts was shown: every listed candidate can be
/// selected.
pub fn read_selection(
    line: &str,
    sessions: &mut Vec<String>,
    trusted: &Vec<String>,
) -> (r: Result<Action, SessionError>)
    ensures
        outcome_view(r) == answered(line@, old(sessions).deep_view(), trusted.deep_view()),
        final(sessions).deep_view() == sessions_answered(line@, old(sessions).deep_view()),
{
    let text = trimmed(line);
    match matches_pattern(NUMBER, text.as_str()) {
        Ok(numeric) => interpret(text.as_str(), numeric, sessions, trusted),
        Err(e) => Err(e),
    }
}

/// How the first line that the user typed was dealt with.
#[derive(Debug, PartialEq, Eq)]
pub enum Step {
    /// The line was blank: show the trusted hosts after the sessions, read
    /// another line and hand it to `read_selection`.
    List,
    /// The line was answered.
    Done(Result<Action, SessionError>),
}

/// Deals with the first line that the user typed. A blank line asks for
/// the listing. Any other line is answered at once, with the sessions as
/// the only candidates: the trusted hosts were not shown, so none of them
/// can be selected.
pub fn read_prompt(line: &str, sessions: &mut Vec<String>) -> (step: Step)
    ensures
        is_blank(line@) ==> step is List && *final(sessions) == *old(sessions),
        !is_blank(line@) ==> step is Done && outcome_view(step->Done_0) == answered(
            line@,
            old(sessions).deep_view(),
            Seq::empty(),
        ) && final(sessions).deep_view() == sessions_answered(line@, old(sessions).deep_view()),
{
    if blank(line) {
        Step::List
    } else {
        let nobody: Vec<String> = Vec::new();
        assert(nobody.deep_view() =~= Seq::<Seq<char>>::empty());
        Step::Done(read_selection(line, sessions, &nobody))
    }
}

/// What opening a session to a target takes.
#[derive(Clone, Copy, Debug, PartialEq, Eq, Structural)]
pub enum Launch {
    /// The target is empty: start nothing.
    Nothing,
    /// The target names a host and no user: ask for the user name first.
    AskUsername,
    /// The target names user and host: start the remote shell with it.
    Run,
}

/// What opening a session to `session` takes.
pub open spec fn launch_of(session: Seq<char>) -> Launch {
    if session.len() == 0 {
        Launch::Nothing
    } else if session.contains('@') {
        Launch::Run
    } else {
        Launch::AskUsername
    }
}

/// Decides what opening a session to `session` takes.
pub fn ssh_login(session: &str) -> (launch: Launch)
    ensures
        launch == launch_of(session@),
{
    let v = to_chars(session);
    if v.len() == 0 {
        Launch::Nothing
    } else if find(&v, 0, v.len(), '@') < v.len() {
        proof {
            assert(v@.subrange(0, v.len() as int) =~= v@);
            lemma_position(v@, '@');
        }
        Launch::Run
    } else {
        proof {
            assert(v@.subrange(0, v.len() as int) =~= v@);
            lemma_position(v@, '@');
        }
        Launch::AskUsername
    }
}

/// The target for `host` once the user gave `username`: the name, trimmed,
/// an `@`, the host.
pub fn with_username(username: &str, host: &str) -> (target: String)
    ensures
        target@ == trim(username@) + seq!['@'] + host@,
{
    let mut target = trimmed(username);
    target.push('@');
    target.append(host);
    assert(target@ =~= trim(username@) + seq!['@'] + host@);
    target
}

} // verus!
