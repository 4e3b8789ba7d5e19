use cyberium::enrolled::{Enrolled, Keys};

fn entry(key: &str, alias: &str) -> Enrolled {
    Enrolled {
        key: key.into(),
        alias: alias.into(),
        issuer: "okta".into(),
        at: 1_787_000_000,
        note: None,
    }
}

#[test]
fn a_missing_file_means_nobody() {
    let keys = Keys::of("/srv/cm", None);
    assert!(keys.is_empty());
    assert!(keys.who("anything").is_none());
}

#[test]
fn a_key_survives_a_reload() {
    let mut keys = Keys::of("/srv/cm", None);
    keys.remember(entry("k1", "okta:dana@acme.com"));

    let again = Keys::of("/srv/cm", Some(keys.book.clone()));
    assert_eq!(again.who("k1").unwrap().alias, "okta:dana@acme.com");
    assert_eq!(again.who("k1").unwrap().issuer, "okta");
}

#[test]
fn enrolling_twice_updates_rather_than_duplicating() {
    let mut keys = Keys::of("/srv/cm", None);
    keys.remember(entry("k1", "okta:dana@acme.com"));
    keys.remember(entry("k1", "okta:dana@acme.com"));
    assert_eq!(keys.len(), 1);
}

#[test]
fn forgetting_is_by_key_so_one_machine_can_be_revoked() {
    // One person, three laptops. Losing one should not lock them out of the others.
    let mut keys = Keys::of("/srv/cm", None);
    for k in ["laptop", "desktop", "the-one-on-the-train"] {
        keys.remember(entry(k, "okta:dana@acme.com"));
    }
    assert_eq!(keys.held_by("okta:dana@acme.com").len(), 3);

    let gone = keys.forget("the-one-on-the-train").unwrap();
    assert_eq!(gone.alias, "okta:dana@acme.com");
    assert!(keys.who("the-one-on-the-train").is_none(), "revocation is immediate");
    assert!(keys.who("laptop").is_some(), "and does not touch the others");

    // Forgetting what was never there is not an error: the outcome asked for is the
    // outcome that holds.
    assert!(keys.forget("never-existed").is_none());
}

#[test]
fn the_book_is_kept_at_the_root() {
    assert_eq!(Keys::path_in("/srv/cm"), "/srv/cm/enrolled.toml");
    assert_eq!(Keys::of("/srv/cm", None).path, "/srv/cm/enrolled.toml");
}
