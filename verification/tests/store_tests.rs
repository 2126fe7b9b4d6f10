use session::error::SessionError;
use session::hosts::load_stored_session;
use session::store::{remove_session, render, save_session};

fn strings(items: &[&str]) -> Vec<String> {
    items.iter().map(|s| s.to_string()).collect()
}

#[test]
fn an_empty_session_is_not_saved() {
    assert_eq!(save_session(""), None);
}

#[test]
fn a_session_is_saved_as_one_line() {
    assert_eq!(save_session("carol@h4"), Some("carol@h4\n".to_string()));
    assert_eq!(save_session(" "), Some(" \n".to_string()));
}

#[test]
fn a_saved_session_is_loaded_once() {
    let mut content = String::from("alice@h1\nbob@h2\n");
    content.push_str(&save_session("carol@h4").unwrap());
    assert_eq!(content, "alice@h1\nbob@h2\ncarol@h4\n");
    assert_eq!(load_stored_session(&content), strings(&["alice@h1", "bob@h2", "carol@h4"]));
    content.push_str(&save_session("carol@h4").unwrap());
    assert_eq!(load_stored_session(&content), strings(&["alice@h1", "bob@h2", "carol@h4"]));
    let loaded = load_stored_session(&content);
    assert_eq!(loaded.iter().filter(|s| s.as_str() == "carol@h4").count(), 1);
}

#[test]
fn a_session_saved_to_an_empty_history_is_loaded_once() {
    let mut content = String::new();
    content.push_str(&save_session("alice@h1").unwrap());
    content.push_str(&save_session("alice@h1").unwrap());
    assert_eq!(load_stored_session(&content), strings(&["alice@h1"]));
}

#[test]
fn a_history_that_ends_within_a_line_swallows_the_next_session() {
    let mut content = String::from("alice@h1");
    content.push_str(&save_session("bob@h2").unwrap());
    assert_eq!(load_stored_session(&content), strings(&["alice@h1bob@h2"]));
}

#[test]
fn render_writes_one_entry_to_a_line() {
    assert_eq!(render(&strings(&["alice@h1", "bob@h2"])), "alice@h1\nbob@h2\n");
    assert_eq!(render(&strings(&["bob@h2"])), "bob@h2\n");
    assert_eq!(render(&strings(&[])), "");
}

#[test]
fn what_was_rendered_is_loaded_again() {
    let list = strings(&["alice@h1", "bob@h2 -p 22", "h3"]);
    assert_eq!(load_stored_session(&render(&list)), list);
}

#[test]
fn removing_a_session_keeps_the_others_in_order() {
    let list = strings(&["a", "b", "c", "d"]);
    for k in 1..=list.len() {
        let mut sessions = list.clone();
        let removed = remove_session(&mut sessions, k);
        assert_eq!(removed, Ok(list[k - 1].clone()));
        assert_eq!(sessions.len(), list.len() - 1);
        let mut want = list.clone();
        want.remove(k - 1);
        assert_eq!(sessions, want);
    }
}

#[test]
fn removing_the_first_of_two_sessions() {
    let mut sessions = strings(&["alice@h1", "bob@h2"]);
    assert_eq!(remove_session(&mut sessions, 1), Ok("alice@h1".to_string()));
    assert_eq!(sessions, strings(&["bob@h2"]));
    assert_eq!(render(&sessions), "bob@h2\n");
}

#[test]
fn removing_outside_the_list_changes_nothing() {
    let list = strings(&["a", "b", "c"]);
    for k in [0usize, 4, 5, 99, usize::MAX] {
        let mut sessions = list.clone();
        assert_eq!(
            remove_session(&mut sessions, k),
            Err(SessionError::OutOfRange { position: k })
        );
        assert_eq!(sessions, list);
    }
    let mut nothing: Vec<String> = Vec::new();
    assert_eq!(remove_session(&mut nothing, 1), Err(SessionError::OutOfRange { position: 1 }));
    assert_eq!(nothing, Vec::<String>::new());
}
