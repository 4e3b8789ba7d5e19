use cyberium::admin::{Admin, Admins};

/// Keys that differ. Whether one decodes is told to `add` beside it.
fn key(n: u8) -> String {
    format!("key-{n}")
}

fn admin(name: &str, key: &str) -> Admin {
    Admin { name: name.into(), key: key.into(), note: None }
}

#[test]
fn nobody_is_an_admin_by_default() {
    // Nothing on disk is the default. It must not mean "everyone".
    let admins = Admins::default();
    assert!(admins.list.is_empty());
    assert!(admins.by_key(&key(1)).is_none());
}

#[test]
fn membership_is_by_key_not_name() {
    let mut admins = Admins::default();
    let k = key(2);
    admins.add(admin("ops", &k), true).unwrap();
    assert_eq!(admins.by_key(&k).unwrap().name, "ops");
    // A different key claiming the same name is nobody.
    assert!(admins.by_key(&key(3)).is_none());
}

#[test]
fn duplicates_are_refused() {
    let mut admins = Admins::default();
    let k = key(4);
    admins.add(admin("ops", &k), true).unwrap();
    assert!(admins.add(admin("other", &k), true).is_err());
    assert!(
        admins.add(admin("ops", &key(5)), true).is_err(),
        "a repeated name would make the audit trail ambiguous"
    );
    assert_eq!(admins.list.len(), 1);
}

#[test]
fn a_key_that_is_not_a_key_is_refused() {
    let mut admins = Admins::default();
    assert!(admins.add(admin("ops", "nonsense"), false).is_err());
    assert!(admins.list.is_empty());
}

#[test]
fn admin_it_round_trips() {
    let mut admins = Admins::default();
    let k = key(6);
    admins
        .add(Admin { name: "ops".into(), key: k.clone(), note: Some("laptop".into()) }, true)
        .unwrap();
    // What is written down is the list, and what is read back is the list.
    let again = Admins { list: admins.list.clone() };
    assert_eq!(again.by_key(&k).unwrap().name, "ops");
    assert_eq!(again.by_key(&k).unwrap().note.as_deref(), Some("laptop"));
}

#[test]
fn the_list_is_kept_at_the_root() {
    assert_eq!(Admins::path_in("/srv/cm"), "/srv/cm/admins.toml");
}
