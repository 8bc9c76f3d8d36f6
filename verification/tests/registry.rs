use console_broker::broker::{Console, LookupKey, SendError, SenderStatus};
use console_broker::init;

#[test]
fn derive_id_deterministic() {
    let a = Console::generate_id("alice".to_string());
    let b = Console::generate_id("alice".to_string());
    assert_eq!(a, b);
}

#[test]
fn derive_id_no_collisions_on_corpus() {
    let mut ids: Vec<u64> = Vec::new();
    for i in 0..300 {
        let name = format!("user-{}", i * 7919);
        ids.push(Console::generate_id(name));
    }
    for i in 0..ids.len() {
        for j in (i + 1)..ids.len() {
            assert_ne!(ids[i], ids[j]);
        }
    }
}

#[test]
fn register_grants_authorized_status() {
    let mut c = init();
    let h = c.new_sender("alice".to_string());
    assert_eq!(h.id, Console::generate_id("alice".to_string()));
    assert_eq!(c.get_sender_status(h.id), SenderStatus::Authorized);
    assert_eq!(
        c.get_sender_status_by_name("alice".to_string()),
        SenderStatus::Authorized
    );
}

#[test]
fn unknown_id_is_not_in_phonebook() {
    let c = init();
    assert_eq!(c.get_sender_status(12345), SenderStatus::NotInPhonebook);
    assert_eq!(
        c.get_sender_status_by_name("nobody".to_string()),
        SenderStatus::NotInPhonebook
    );
    assert_eq!(c.get_plaintext_name(12345), "Name not found".to_string());
}

#[test]
fn plaintext_name_comes_back() {
    let mut c = init();
    let h = c.new_sender("bob".to_string());
    assert_eq!(c.get_plaintext_name(h.id), "bob".to_string());
}

#[test]
fn blacklist_moves_id_between_sets() {
    let mut c = init();
    let h = c.new_sender("mallory".to_string());
    assert!(c.get_authorized_names().contains(&h.id));
    assert!(!c.get_blacklist_names().contains(&h.id));

    let moved = c.add_to_blacklist("mallory".to_string());
    assert!(moved);
    assert!(!c.get_authorized_names().contains(&h.id));
    assert!(c.get_blacklist_names().contains(&h.id));
    assert_eq!(c.get_sender_status(h.id), SenderStatus::BlackListed);

    let refused = c.send(&h, "late message".to_string());
    assert_eq!(refused, Err(SendError::Unauthorized));
}

#[test]
fn blacklisting_unknown_sender_is_a_noop() {
    let mut c = init();
    let h = c.new_sender("alice".to_string());
    let auth_before = c.get_authorized_names();
    let black_before = c.get_blacklist_names();

    assert!(!c.add_to_blacklist("nobody".to_string()));
    assert!(!c.blacklist(987654321));

    assert_eq!(c.get_authorized_names(), auth_before);
    assert_eq!(c.get_blacklist_names(), black_before);
    assert_eq!(c.get_sender_status(h.id), SenderStatus::Authorized);
}

#[test]
fn reregistration_is_idempotent_and_does_not_restore() {
    let mut c = init();
    let h = c.new_sender("carol".to_string());
    assert!(c.add_to_blacklist("carol".to_string()));
    assert_eq!(c.get_sender_status(h.id), SenderStatus::BlackListed);

    // re-registering a blacklisted name does not flip it back
    let h2 = c.new_sender("carol".to_string());
    assert_eq!(h2.id, h.id);
    assert_eq!(c.get_sender_status(h.id), SenderStatus::BlackListed);
    assert_eq!(c.send(&h2, "still out".to_string()), Err(SendError::Unauthorized));
}

#[test]
fn change_status_by_id_and_by_name() {
    let mut c = init();
    let h = c.new_sender("dave".to_string());

    assert!(c.change_sender_status(LookupKey::ById(h.id), SenderStatus::NotAuthorized));
    assert_eq!(c.get_sender_status(h.id), SenderStatus::NotAuthorized);
    assert!(!c.get_authorized_names().contains(&h.id));
    assert!(!c.get_blacklist_names().contains(&h.id));

    assert!(c.change_sender_status(
        LookupKey::ByName("dave".to_string()),
        SenderStatus::Authorized
    ));
    assert_eq!(c.get_sender_status(h.id), SenderStatus::Authorized);
    assert!(c.get_authorized_names().contains(&h.id));
}

#[test]
fn change_status_misses_are_reported() {
    let mut c = init();
    let h = c.new_sender("erin".to_string());
    // unknown key: a reported no-op
    assert!(!c.change_sender_status(LookupKey::ById(42), SenderStatus::BlackListed));
    // NotInPhonebook is a query result, never a stored value
    assert!(!c.change_sender_status(LookupKey::ById(h.id), SenderStatus::NotInPhonebook));
    assert_eq!(c.get_sender_status(h.id), SenderStatus::Authorized);
}

#[test]
fn default_broker_starts_empty() {
    let c: Console = Default::default();
    assert!(c.get_authorized_names().is_empty());
    assert!(c.get_blacklist_names().is_empty());
    assert_eq!(c.get_sender_status(1), SenderStatus::NotInPhonebook);
}

#[test]
fn change_status_keeps_sets_in_sync() {
    let mut c = init();
    let h = c.new_sender("frank".to_string());
    assert!(c.change_sender_status(LookupKey::ById(h.id), SenderStatus::BlackListed));
    assert_eq!(c.get_sender_status(h.id), SenderStatus::BlackListed);
    assert!(!c.get_authorized_names().contains(&h.id));
    assert!(c.get_blacklist_names().contains(&h.id));
    assert_eq!(c.send(&h, "blocked".to_string()), Err(SendError::Unauthorized));
}

#[test]
fn list_authorized_is_idempotent() {
    let mut c = init();
    c.new_sender("alice".to_string());
    c.new_sender("bob".to_string());
    let first = c.get_authorized_names();
    let second = c.get_authorized_names();
    assert_eq!(first, second);
    assert_eq!(first.len(), 2);
    let b1 = c.get_blacklist_names();
    let b2 = c.get_blacklist_names();
    assert_eq!(b1, b2);
}
