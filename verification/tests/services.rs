use cyberium::services::{Service, Services};

fn service(at: &str, key: &str) -> Service {
    Service {
        at: at.into(),
        key: key.into(),
        as_whom: Some("okta:dana@acme.com".into()),
        at_time: 1_787_000_000,
    }
}

#[test]
fn a_key_per_service_and_no_sharing_between_them() {
    let mut book = Services::of("/home/dana/.cm", None);
    book.remember(service("cm.acme.com", "k-acme"));
    book.remember(service("cm.other.test", "k-other"));

    let again = Services::of("/home/dana/.cm", Some(book.book.clone()));
    assert_eq!(again.key_for("cm.acme.com").unwrap().key, "k-acme");
    assert_eq!(again.key_for("cm.other.test").unwrap().key, "k-other");
    assert!(again.key_for("cm.never.test").is_none());
}

#[test]
fn logging_in_twice_replaces_rather_than_accumulates() {
    let mut book = Services::of("/home/dana/.cm", None);
    book.remember(service("cm.acme.com", "old"));
    book.remember(service("cm.acme.com", "new"));
    assert_eq!(book.all().len(), 1);
    assert_eq!(book.key_for("cm.acme.com").unwrap().key, "new");
}

#[test]
fn logging_out_of_one_service_leaves_the_others() {
    let mut book = Services::of("/home/dana/.cm", None);
    book.remember(service("cm.acme.com", "k-acme"));
    book.remember(service("cm.other.test", "k-other"));

    assert_eq!(book.forget("cm.acme.com").unwrap().key, "k-acme");
    assert!(book.key_for("cm.acme.com").is_none());
    assert!(book.key_for("cm.other.test").is_some());
    assert!(book.forget("cm.never.test").is_none());
}

#[test]
fn the_services_are_kept_at_home() {
    assert_eq!(Services::of("/home/dana/.cm", None).path, "/home/dana/.cm/services.toml");
}
