use session::candidates::{display, numbered, resolve};
use session::error::SessionError;

fn strings(items: &[&str]) -> Vec<String> {
    items.iter().map(|s| s.to_string()).collect()
}

#[test]
fn an_index_within_the_sessions_resolves_to_a_session() {
    let s = strings(&["alice@h1", "bob@h2"]);
    let t = strings(&["h3", "h4", "h5"]);
    assert_eq!(resolve(1, &s, &t), Ok("alice@h1".to_string()));
    assert_eq!(resolve(2, &s, &t), Ok("bob@h2".to_string()));
}

#[test]
fn an_index_past_the_sessions_resolves_to_a_trusted_host() {
    let s = strings(&["alice@h1", "bob@h2"]);
    let t = strings(&["h3", "h4", "h5"]);
    assert_eq!(resolve(3, &s, &t), Ok("h3".to_string()));
    assert_eq!(resolve(4, &s, &t), Ok("h4".to_string()));
    assert_eq!(resolve(5, &s, &t), Ok("h5".to_string()));
}

#[test]
fn any_other_index_is_out_of_range() {
    let s = strings(&["alice@h1", "bob@h2"]);
    let t = strings(&["h3", "h4", "h5"]);
    assert_eq!(resolve(0, &s, &t), Err(SessionError::OutOfRange { position: 0 }));
    assert_eq!(resolve(6, &s, &t), Err(SessionError::OutOfRange { position: 6 }));
    assert_eq!(
        resolve(usize::MAX, &s, &t),
        Err(SessionError::OutOfRange { position: usize::MAX })
    );
}

#[test]
fn resolve_addresses_the_concatenation() {
    let lists = [
        (strings(&[]), strings(&[])),
        (strings(&["a"]), strings(&[])),
        (strings(&[]), strings(&["x"])),
        (strings(&["a", "b", "c"]), strings(&["x", "y"])),
    ];
    for (s, t) in lists {
        let mut all = s.clone();
        all.extend(t.iter().cloned());
        for i in 0..all.len() + 3 {
            let want = if 1 <= i && i <= all.len() {
                Ok(all[i - 1].clone())
            } else {
                Err(SessionError::OutOfRange { position: i })
            };
            assert_eq!(resolve(i, &s, &t), want);
        }
    }
}

#[test]
fn without_trusted_hosts_only_sessions_resolve() {
    let s = strings(&["alice@h1", "bob@h2"]);
    let none = strings(&[]);
    assert_eq!(resolve(2, &s, &none), Ok("bob@h2".to_string()));
    assert_eq!(resolve(3, &s, &none), Err(SessionError::OutOfRange { position: 3 }));
    assert_eq!(resolve(99, &s, &none), Err(SessionError::OutOfRange { position: 99 }));
}

#[test]
fn display_numbers_the_trusted_hosts_after_the_sessions() {
    let s = strings(&["alice@h1", "bob@h2"]);
    let t = strings(&["h3"]);
    assert_eq!(display(&s, &t), strings(&["1: alice@h1", "2: bob@h2", "3: h3"]));
    assert_eq!(display(&s, &strings(&[])), strings(&["1: alice@h1", "2: bob@h2"]));
    assert_eq!(display(&strings(&[]), &t), strings(&["1: h3"]));
    assert_eq!(display(&strings(&[]), &strings(&[])), Vec::<String>::new());
}

#[test]
fn numbered_counts_on_from_the_offset() {
    let t = strings(&["h3", "h4"]);
    assert_eq!(numbered(&t, 0), strings(&["1: h3", "2: h4"]));
    assert_eq!(numbered(&t, 9), strings(&["10: h3", "11: h4"]));
    assert_eq!(
        numbered(&t, usize::MAX),
        vec![
            format!("{}: h3", usize::MAX as u128 + 1),
            format!("{}: h4", usize::MAX as u128 + 2)
        ]
    );
}

#[test]
fn the_number_shown_resolves_to_the_entry_shown() {
    let s = strings(&["alice@h1", "bob@h2"]);
    let t = strings(&["h3", "h4"]);
    let rows = display(&s, &t);
    assert_eq!(rows.len(), 4);
    for (i, row) in rows.iter().enumerate() {
        let entry = resolve(i + 1, &s, &t).unwrap();
        assert_eq!(*row, format!("{}: {}", i + 1, entry));
    }
}
