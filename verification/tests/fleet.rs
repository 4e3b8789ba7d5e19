use cyberium::fleet::{now, Fleet, Shortfall, Worker, RESERVATION_SECS};
use cyberium::proto::Nivedana;

fn worker(name: &str, caps: &[&str]) -> Worker {
    priced(name, caps, 1)
}

fn priced(name: &str, caps: &[&str], rate: u32) -> Worker {
    Worker {
        name: name.into(),
        key: format!("key-{name}"),
        hints: vec![],
        capabilities: caps.iter().map(|c| (*c).to_string()).collect(),
        rate,
        held_by: None,
    }
}

fn plea(caps: &[&str]) -> Nivedana {
    Nivedana {
        capabilities: caps.iter().map(|c| (*c).to_string()).collect(),
        ..Default::default()
    }
}

fn fleet() -> Fleet {
    let mut f = Fleet::default();
    f.arrive(worker("linux-1", &["linux"]));
    f.arrive(worker("linux-2", &["linux"]));
    f.arrive(worker("gpu-1", &["linux", "gpu"]));
    f
}

#[test]
fn allocates_only_machines_that_can_do_the_work() {
    let mut f = fleet();
    let a = f.allocate(&plea(&["gpu"]), 1, "caller", "dana", "dana", RESERVATION_SECS).unwrap();
    assert_eq!(a.workers.len(), 1);
    assert_eq!(a.workers[0].name, "gpu-1");
}

#[test]
fn extra_capabilities_do_not_disqualify() {
    let mut f = fleet();
    let a = f.allocate(&plea(&["linux"]), 3, "caller", "dana", "dana", RESERVATION_SECS).unwrap();
    assert_eq!(a.workers.len(), 3);
}

#[test]
fn impossible_and_merely_busy_are_different_answers() {
    let mut f = fleet();
    match f.allocate(&plea(&["risc-v"]), 1, "caller", "dana", "dana", RESERVATION_SECS) {
        Err(Shortfall::NoneCapable { wanted }) => assert_eq!(wanted, vec!["risc-v".to_string()]),
        other => panic!("expected NoneCapable, got {other:?}"),
    }
    match f.allocate(&plea(&["gpu"]), 5, "caller", "dana", "dana", RESERVATION_SECS) {
        Err(Shortfall::Fewer { available }) => assert_eq!(available, 1),
        other => panic!("expected Fewer, got {other:?}"),
    }
}

#[test]
fn an_allocated_machine_is_not_offered_twice() {
    let mut f = fleet();
    f.allocate(&plea(&["gpu"]), 1, "a", "dana", "dana", RESERVATION_SECS).unwrap();
    match f.allocate(&plea(&["gpu"]), 1, "b", "kiran", "kiran", RESERVATION_SECS) {
        Err(Shortfall::Fewer { available }) => assert_eq!(available, 0),
        other => panic!("expected the machine to be busy, got {other:?}"),
    }
}

#[test]
fn releasing_returns_the_machines() {
    let mut f = fleet();
    let a = f.allocate(&plea(&["gpu"]), 1, "a", "dana", "dana", RESERVATION_SECS).unwrap();
    let closed = f.release(&a.reservation, "a").unwrap();
    assert_eq!(closed.workers(), ["gpu-1".to_string()]);
    // And it can be had again.
    assert!(f.allocate(&plea(&["gpu"]), 1, "b", "kiran", "kiran", RESERVATION_SECS).is_ok());
}

#[test]
fn only_the_holder_may_release() {
    let mut f = fleet();
    let a = f.allocate(&plea(&["gpu"]), 1, "a", "dana", "dana", RESERVATION_SECS).unwrap();
    let err = f.release(&a.reservation, "someone-else").unwrap_err();
    assert!(err.contains("not granted to you"), "{err}");
    // And the machine is still held.
    assert!(!f.workers().iter().find(|w| w.name == "gpu-1").unwrap().is_free());
}

#[test]
fn expiry_frees_a_reservation_nobody_released() {
    let mut f = fleet();
    f.allocate(&plea(&["gpu"]), 1, "a", "dana", "dana", RESERVATION_SECS).unwrap();
    assert!(f.expire().is_empty(), "not due yet");

    // Look at it from later on, rather than sleeping ten minutes.
    let due = f.reservations()[0].expires_at;
    assert!(f.expire_at(due - 1).is_empty());

    let expired = f.expire_at(due + 1);
    assert_eq!(expired.len(), 1);
    assert_eq!(expired[0].workers(), ["gpu-1".to_string()]);
    assert_eq!(expired[0].alias(), "dana", "who lost it travels with it");
    assert!(f.allocate(&plea(&["gpu"]), 1, "b", "kiran", "kiran", RESERVATION_SECS).is_ok());
}

#[test]
fn a_departing_worker_leaves_its_reservations() {
    let mut f = fleet();
    let a = f.allocate(&plea(&["linux"]), 2, "a", "dana", "dana", RESERVATION_SECS).unwrap();
    assert_eq!(a.workers.len(), 2);

    // The two that were taken are the first by name among equals.
    f.depart("linux-1");
    let held: Vec<_> = f.reservations().iter().map(|r| r.workers.len()).collect();
    assert_eq!(held, vec![1], "the reservation keeps its surviving machine");
}

#[test]
fn the_summary_answers_is_it_worth_asking() {
    let mut f = fleet();
    assert_eq!(
        f.summary(),
        (3, 3, vec!["gpu".to_string(), "linux".to_string()]),
        "capabilities are the union across the fleet, deduplicated"
    );

    f.allocate(&plea(&["gpu"]), 1, "a", "dana", "dana", RESERVATION_SECS).unwrap();
    let (machines, free, _) = f.summary();
    assert_eq!((machines, free), (3, 2));

    assert_eq!(Fleet::default().summary(), (0, 0, vec![]));
}

#[test]
fn choosing_takes_nothing() {
    // The property a dry run rests on.
    let f = fleet();
    for _ in 0..3 {
        assert_eq!(f.select(&["gpu".into()], 1).unwrap(), vec!["gpu-1".to_string()]);
    }
    assert_eq!(f.summary().1, 3, "still three free after three rehearsals");
}

#[test]
fn a_rehearsal_and_a_real_ask_agree() {
    let mut f = fleet();
    let rehearsed = f.select(&["linux".into()], 2).unwrap();
    let taken = f.allocate(&plea(&["linux"]), 2, "a", "dana", "dana", RESERVATION_SECS).unwrap();
    let names: Vec<String> = taken.workers.iter().map(|w| w.name.clone()).collect();
    assert_eq!(rehearsed, names);
}

#[test]
fn a_rehearsal_sees_what_is_already_held() {
    let mut f = fleet();
    f.allocate(&plea(&["gpu"]), 1, "a", "dana", "dana", RESERVATION_SECS).unwrap();
    match f.select(&["gpu".into()], 1) {
        Err(Shortfall::Fewer { available }) => assert_eq!(available, 0),
        other => panic!("expected none free, got {other:?}"),
    }
}

#[test]
fn the_cheapest_capable_machine_goes_first() {
    let mut f = Fleet::default();
    f.arrive(priced("expensive", &["linux", "gpu"], 8));
    f.arrive(priced("cheap", &["linux"], 1));
    f.arrive(priced("middling", &["linux"], 3));

    assert_eq!(f.select(&["linux".into()], 1).unwrap(), vec!["cheap".to_string()]);
    assert_eq!(
        f.select(&["linux".into()], 2).unwrap(),
        vec!["cheap".to_string(), "middling".to_string()]
    );
    // A capability only the expensive machine has still gets it.
    assert_eq!(f.select(&["gpu".into()], 1).unwrap(), vec!["expensive".to_string()]);
}

#[test]
fn a_grant_is_priced_when_it_is_made() {
    let mut f = Fleet::default();
    f.arrive(priced("a", &["linux"], 3));
    f.arrive(priced("b", &["linux"], 5));
    let a = f.allocate(&plea(&["linux"]), 2, "k", "dana", "payments", 600).unwrap();

    let all = f.reservations();
    let r = all[0];
    assert_eq!(r.rate, 8, "the sum of both machines");
    assert_eq!(r.tenant, "payments", "who pays is not who asked");
    // A part-minute is a minute.
    assert_eq!(r.cost_by(r.started_at), 8);
    assert_eq!(r.cost_by(r.started_at + 61), 16);
    // And the worst case is the whole lifetime.
    assert_eq!(r.worst_case(), 8 * 10);
    drop(a);
}

#[test]
fn closing_reports_the_cost_and_releases_the_machines() {
    let mut f = Fleet::default();
    f.arrive(priced("a", &["linux"], 4));
    let a = f.allocate(&plea(&["linux"]), 1, "k", "dana", "payments", 600).unwrap();

    let closed = f.release(&a.reservation, "k").unwrap();
    assert_eq!(closed.credits, 4, "one minute minimum at 4/min");
    assert_eq!(closed.tenant(), "payments");
    assert!(f.workers()[0].is_free());
}

#[test]
fn commitments_are_counted_before_they_are_spent() {
    let mut f = Fleet::default();
    f.arrive(priced("a", &["linux"], 2));
    f.arrive(priced("b", &["linux"], 2));
    assert_eq!(f.committed("payments"), 0);

    f.allocate(&plea(&["linux"]), 2, "k", "dana", "payments", 600).unwrap();
    // Two machines at 2/min for 10 minutes, if nobody releases.
    assert_eq!(f.committed("payments"), 40);
    // And it is per tenant, not fleet-wide.
    assert_eq!(f.committed("platform"), 0);
}

#[test]
fn the_lifetime_comes_from_outside() {
    let mut f = Fleet::default();
    f.arrive(worker("linux-1", &["linux"]));
    let a = f.allocate(&plea(&["linux"]), 1, "a", "dana", "dana", 30).unwrap();
    assert_eq!(a.expires_in, 30);
    assert_eq!(a.limits.max_seconds, 30);

    // A zero would expire every grant the instant it was made.
    f.release(&a.reservation, "a").unwrap();
    let b = f.allocate(&plea(&["linux"]), 1, "a", "dana", "dana", 0).unwrap();
    assert_eq!(b.expires_in, 1);
}

#[test]
fn one_machine_serves_one_reservation() {
    let mut f = Fleet::default();
    f.arrive(worker("big", &["linux"]));
    assert!(f.allocate(&plea(&["linux"]), 1, "a", "dana", "dana", RESERVATION_SECS).is_ok());
    assert!(
        f.allocate(&plea(&["linux"]), 1, "b", "kiran", "kiran", RESERVATION_SECS).is_err(),
        "it is taken"
    );
    assert!(!f.workers()[0].is_free());
}

#[test]
fn the_clock_is_read_in_seconds_since_1970() {
    // Any machine that can run this is past 2020 and not yet in 2100.
    let at = now();
    assert!(at > 1_577_836_800 && at < 4_102_444_800, "{at}");
}

#[test]
fn a_reservation_runs_from_the_moment_it_was_made() {
    let mut f = fleet();
    let a = f.allocate_at(&plea(&["gpu"]), 1, "a", "dana", "payments", 600, 1_000).unwrap();
    assert_eq!(a.reservation, "r1");
    {
        let all = f.reservations();
        assert_eq!((all[0].started_at, all[0].expires_at), (1_000, 1_600));
    }
    // Exactly then it is due.
    let closed = f.expire_at(1_600);
    assert_eq!(closed.len(), 1);
    assert_eq!((closed[0].minutes, closed[0].credits), (10, 10));
    assert_eq!(closed[0].id(), "r1");
}

#[test]
fn releasing_what_is_not_there_is_an_error() {
    let mut f = fleet();
    let err = f.release_at("r9", "a", 5).unwrap_err();
    assert!(err.contains("r9"), "{err}");
}

#[test]
fn a_released_reservation_costs_what_it_used() {
    let mut f = Fleet::default();
    f.arrive(priced("a", &["linux"], 4));
    let a = f.allocate_at(&plea(&["linux"]), 1, "k", "dana", "payments", 600, 1_000).unwrap();
    let closed = f.release_at(&a.reservation, "k", 1_000 + 125).unwrap();
    assert_eq!((closed.minutes, closed.credits), (3, 12));
}

#[test]
fn a_brief_counts_and_prices_without_naming() {
    let mut f = Fleet::default();
    f.arrive(priced("expensive", &["linux", "gpu"], 8));
    f.arrive(priced("cheap", &["linux"], 1));
    f.arrive(priced("mac", &["macos"], 3));
    let b = f.brief(&["linux".into()]);
    assert_eq!((b.fleet, b.capable, b.free), (3, 2, 2));
    assert_eq!(b.rates, vec![1, 8]);
    assert_eq!(f.capable(&["linux".into()]), 2);
    assert_eq!(f.rate_of(&["cheap".into(), "mac".into()]), 4);
    assert_eq!(f.issued(), 0);
}

#[test]
fn a_machine_that_comes_back_is_one_machine() {
    let mut f = fleet();
    f.arrive(priced("gpu-1", &["linux", "gpu"], 5));
    assert_eq!(f.workers().len(), 3);
    assert_eq!(f.rate_of(&["gpu-1".into()]), 5);
}

#[test]
fn releasing_undoes_a_grant_and_ends_its_commitment() {
    let mut f = Fleet::default();
    f.arrive(priced("a", &["linux"], 2));
    f.arrive(priced("b", &["linux"], 3));
    let before = f.summary();
    let offered = f.brief(&["linux".into()]);
    let a = f.allocate_at(&plea(&["linux"]), 2, "k", "dana", "payments", 600, 1_000).unwrap();
    // The rates that were offered add up to the price that is charged.
    assert_eq!(f.reservations()[0].rate, offered.rates.iter().sum::<u32>());
    assert_eq!(f.committed("payments"), 50);

    f.release_at(&a.reservation, "k", 1_010).unwrap();
    assert_eq!(f.committed("payments"), 0);
    assert_eq!(f.summary(), before);
    assert!(f.reservations().is_empty());
}

#[test]
fn an_id_is_never_given_out_twice() {
    let mut f = fleet();
    let a = f.allocate_at(&plea(&["gpu"]), 1, "a", "dana", "dana", 600, 1_000).unwrap();
    f.release_at(&a.reservation, "a", 1_001).unwrap();
    let b = f.allocate_at(&plea(&["gpu"]), 1, "a", "dana", "dana", 600, 1_002).unwrap();
    assert_ne!(a.reservation, b.reservation);
    assert_eq!(f.issued(), 2);
}

#[test]
fn what_is_not_due_is_left_alone() {
    let mut f = fleet();
    f.allocate_at(&plea(&["gpu"]), 1, "a", "dana", "dana", 60, 1_000).unwrap();
    f.allocate_at(&plea(&["linux"]), 1, "b", "kiran", "kiran", 600, 1_000).unwrap();
    let gone = f.expire_at(1_100);
    assert_eq!(gone.iter().map(|c| c.alias()).collect::<Vec<_>>(), vec!["dana"]);
    assert_eq!(f.reservations().len(), 1);
    assert!(f.expire_at(1_100).is_empty());
}

#[test]
fn what_machines_can_do_does_not_depend_on_who_has_them() {
    let mut f = fleet();
    let none: [String; 0] = [];
    let linux = ["linux".to_string()];
    let more = ["linux".to_string(), "gpu".to_string()];
    assert_eq!(f.capable(&none), f.workers().len());
    assert!(f.capable(&more) <= f.capable(&linux));
    let before = f.capable(&linux);
    let a = f.allocate(&plea(&["linux"]), 1, "k", "dana", "team", 60).unwrap();
    assert_eq!(f.capable(&linux), before);
    f.release(&a.reservation, "k").unwrap();
    assert_eq!(f.capable(&linux), before);
}

#[test]
fn a_refused_ask_changes_nothing() {
    let mut f = fleet();
    let held = f.allocate(&plea(&["linux"]), 1, "k", "dana", "team", 60).unwrap();
    assert!(f.allocate(&plea(&["linux"]), 99, "k", "dana", "team", 60).is_err());
    assert!(f.allocate(&plea(&["quantum"]), 1, "k", "dana", "team", 60).is_err());
    assert_eq!(f.reservations().len(), 1);
    for w in f.workers() {
        let taken = held.workers.iter().any(|x| x.name == w.name);
        assert_eq!(w.held_by.is_some(), taken, "{}", w.name);
    }
}
