use cyberium::admin::{Admin, Admins};
use cyberium::adviser::{Advice, Attested, Declared, Opinion};
use cyberium::attest::{Config as Trusted, Issuer, Issuers, Vouched};
use cyberium::controller::{
    arrival, ask, charge, conclude, decide_at, entitlement, freed, lifetime_for, reaped, rehearse,
    sanity, tenant_of, weigh, weighable, Caller, Control, Limit,
};
use cyberium::directory::{Budget, Listed, Tenancy};
use cyberium::enrolled::{Enrolled, Keys};
use cyberium::fleet::{Brief, Fleet, Worker};
use cyberium::proto::{
    Aadesh, Answer, Knock, Look, Nivedana, Plea, Register, Ticket, Upload, Verdict,
};
use cyberium::session::{self, may_replace, recorded, replaced, reply, Action, Admission};
use cyberium::sight::{
    show_admin, show_fleet, show_reservations_at, show_spend, startup, whoami,
};
use cyberium::table::Table;
use cyberium::Config;

fn a_key(n: u8) -> String {
    format!("key-{n}")
}

fn limit() -> Limit {
    Limit { ceiling: 10, free: 8, host: 6, affordable: Some(5) }
}

fn table(rows: &[(&str, &str)]) -> Table<String> {
    let mut t = Table::new();
    for (k, v) in rows {
        t.insert((*k).to_string(), (*v).to_string());
    }
    t
}

#[test]
fn an_answer_inside_every_limit_is_left_alone_and_reports_nothing() {
    let (allowed, faults) = sanity(4, 4, limit());
    assert_eq!(allowed, 4);
    assert!(faults.is_empty(), "{faults:?}");
}

#[test]
fn overshooting_a_limit_that_was_in_the_prompt_is_reported_as_a_fault() {
    let (allowed, faults) = sanity(99, 99, limit());
    assert_eq!(allowed, 5, "cut to what the budget buys");
    assert!(faults.iter().any(|f| f.contains("stated ceiling of 10")), "{faults:?}");
    assert!(faults.iter().any(|f| f.contains("only 8 machine(s) free")), "{faults:?}");
    assert!(faults.iter().any(|f| f.contains("host ceiling of 6")), "{faults:?}");
    assert!(faults.iter().any(|f| f.contains("budget buys 5")), "{faults:?}");
}

#[test]
fn promising_machines_it_was_told_were_busy_is_a_fault_too() {
    let (allowed, faults) = sanity(3, 3, Limit { ceiling: 10, free: 1, host: 6, affordable: None });
    assert_eq!(allowed, 1);
    assert!(faults.iter().any(|f| f.contains("only 1 machine(s) free")), "{faults:?}");
    assert!(faults.iter().all(|f| !f.contains("host")), "{faults:?}");
}

#[test]
fn availability_wins_over_everything_policy_permits() {
    let (allowed, _) =
        sanity(6, 6, Limit { ceiling: 100, free: 0, host: 100, affordable: Some(100) });
    assert_eq!(allowed, 0);
}

#[test]
fn a_zero_from_the_model_is_explained_by_the_faults_not_the_model() {
    let (allowed, faults) =
        sanity(0, 0, Limit { ceiling: 10, free: 8, host: 6, affordable: Some(5) });
    assert_eq!(allowed, 0);
    assert!(faults.is_empty(), "nothing overshot — the model simply said none");
}

#[test]
fn a_tenant_with_no_budget_is_not_treated_as_having_none() {
    let (allowed, faults) =
        sanity(6, 6, Limit { ceiling: 10, free: 8, host: 10, affordable: None });
    assert_eq!(allowed, 6);
    assert!(faults.is_empty(), "{faults:?}");
}

#[test]
fn an_attested_caller_is_never_a_sibling_or_an_admin() {
    let who = Caller::attested(
        "github:acme/payments".into(),
        table(&[("repository", "acme/payments")]),
    );
    assert!(!who.sibling, "an attested caller is not one of our own devices");
    assert!(who.admin.is_none(), "and never an admin");
    assert_eq!(who.alias, "github:acme/payments");
    assert_eq!(who.attested.len(), 1);

    // Even asked to become one, against a list that names its key.
    let key = a_key(1);
    let admins =
        Admins { list: vec![Admin { name: "ops".into(), key: key.clone(), note: None }] };
    let still =
        Caller::attested("github:acme/payments".into(), Table::new()).with_admin(&admins, &key);
    assert!(still.admin.is_none(), "attestation is not a route to admin");
}

#[test]
fn a_peer_is_never_a_sibling() {
    assert!(Caller::from(None).sibling, "a device of ours");
    assert!(!Caller::from(Some("dana".into())).sibling, "a named peer is not");
    assert_eq!(Caller::from(Some("dana".into())).alias, "dana");
}

#[test]
fn being_one_of_ours_does_not_make_you_an_admin() {
    let mut admins = Admins::default();
    let ops = a_key(2);
    let worker = a_key(3);
    admins.add(Admin { name: "ops".into(), key: ops.clone(), note: None }, true).unwrap();

    assert_eq!(Caller::from(None).with_admin(&admins, &ops).admin.as_deref(), Some("ops"));
    assert!(
        Caller::from(None).with_admin(&admins, &worker).admin.is_none(),
        "a sibling not on the list is not an admin"
    );
}

#[test]
fn a_peer_cannot_become_an_admin_by_sharing_a_key() {
    let mut admins = Admins::default();
    let key = a_key(4);
    admins.add(Admin { name: "ops".into(), key: key.clone(), note: None }, true).unwrap();
    assert!(Caller::from(Some("dana".into())).with_admin(&admins, &key).admin.is_none());
}

// ---------------------------------------------------------------------------
// weighing
// ---------------------------------------------------------------------------

fn machine(name: &str, rate: u32) -> Worker {
    Worker {
        name: name.into(),
        key: format!("key-{name}"),
        hints: vec![],
        capabilities: vec!["linux".into()],
        rate,
        held_by: None,
    }
}

fn fleet() -> Fleet {
    let mut f = Fleet::default();
    for name in ["a", "b", "c", "d"] {
        f.arrive(machine(name, 2));
    }
    f
}

fn tenancy() -> Tenancy {
    Tenancy {
        tenant: "payments".into(),
        may_ask: true,
        may_write: false,
        facts: table(&[("plan", "trial")]),
        rulebook: "Be reasonable.".into(),
        standing: 2,
        ceiling: 3,
        lifetime: 600,
        budget: Some(Budget { credits: 50, window: 3600 }),
    }
}

fn plea(count: u32) -> Nivedana {
    Nivedana { count: Some(count), capabilities: vec!["linux".into()], said: Table::new() }
}

fn opinion(verdict: &str, count: u32) -> Opinion {
    Opinion { verdict: verdict.into(), count, rationale: "the files say so".into() }
}

#[test]
fn a_decision_is_asked_for_with_everything_it_turns_on() {
    let f = fleet();
    let vouched = table(&[("repository", "acme/payments")]);
    let asked = ask(&f, "dana", &tenancy(), &vouched, &plea(4), 5).unwrap();
    let a: &Advice = &asked.advice;
    assert_eq!((a.attested.tenant.as_str(), a.attested.caller.as_str()), ("payments", "dana"));
    assert_eq!(a.attested.facts.get("plan").map(String::as_str), Some("trial"));
    assert_eq!(a.attested.facts.get("repository").map(String::as_str), Some("acme/payments"));
    assert_eq!((a.standing, a.ceiling, a.lifetime), (2, 3, 600));
    assert_eq!((a.fleet.fleet, a.fleet.capable, a.fleet.free), (4, 4, 4));
    let m = a.money.unwrap();
    assert_eq!((m.budget, m.spent, m.committed, m.window_secs), (50, 5, 0, 3600));
    // 45 credits, and ten minutes at 2 is 20 a machine: two of them.
    assert_eq!(asked.limit.affordable, Some(2));
    assert_eq!((asked.limit.free, asked.limit.ceiling), (4, 3));
}

#[test]
fn a_fleet_that_cannot_do_it_is_never_asked_about() {
    let f = fleet();
    let gpu = Nivedana { count: Some(1), capabilities: vec!["gpu".into()], said: Table::new() };
    assert!(ask(&f, "dana", &tenancy(), &Table::new(), &gpu, 0).is_err());
}

#[test]
fn who_may_not_ask_is_told_which_of_the_two_it_is() {
    let nobody = weighable("dana", None).err().unwrap();
    let refused = Tenancy { may_ask: false, ..tenancy() };
    let not_listed = weighable("dana", Some(refused)).err().unwrap();
    assert_ne!(nobody, not_listed);
    assert!(nobody.contains("dana") && not_listed.contains("dana"));
    assert!(weighable("dana", Some(tenancy())).is_ok());
}

#[test]
fn an_answer_is_never_raised_past_a_limit() {
    let f = fleet();
    let asked = ask(&f, "dana", &tenancy(), &Table::new(), &plea(4), 5).unwrap();
    let w = weigh(&asked.advice, asked.limit, opinion("allow", 99));
    assert_eq!((w.said, w.allowed), (99, 2));
    assert!(!w.faults.is_empty());
    let report = w.fault_report("payments").unwrap();
    assert!(report.contains("payments"), "{report}");
    assert_eq!(conclude(&w, 4).unwrap().0, 2);

    let inside = weigh(&asked.advice, asked.limit, opinion("counter", 1));
    assert_eq!(inside.granted(), Some((1, "the files say so".to_string())));
    assert!(inside.fault_report("payments").is_none());
    assert!(inside.log("dana").contains("dana"));
}

#[test]
fn a_refusal_is_always_honoured() {
    let f = fleet();
    let asked = ask(&f, "dana", &tenancy(), &Table::new(), &plea(4), 5).unwrap();
    let w = weigh(&asked.advice, asked.limit, opinion("deny", 4));
    assert_eq!(w.allowed, 0);
    let why = conclude(&w, 4).unwrap_err();
    assert!(why.contains("the files say so"), "{why}");
    assert_eq!(why, w.refusal(4));
}

#[test]
fn no_budget_cuts_nothing() {
    let f = fleet();
    let free = Tenancy { budget: None, ..tenancy() };
    let (count, why) =
        entitlement(&f, "dana", Some(free), &Table::new(), &plea(3), 0, opinion("allow", 3))
            .unwrap();
    assert_eq!((count, why.as_str()), (3, "the files say so"));
    let e = entitlement(&f, "dana", None, &Table::new(), &plea(3), 0, opinion("allow", 3));
    assert!(e.is_err());
}

#[test]
fn a_limit_left_out_of_the_numbers_is_no_limit() {
    let advice = Advice {
        rulebook: String::new(),
        attested: Attested { tenant: "t".into(), caller: "c".into(), facts: Table::new() },
        declared: Declared { said: Table::new(), count: 9, capabilities: vec![] },
        standing: 1,
        ceiling: 9,
        lifetime: 600,
        fleet: Brief::default(),
        money: None,
    };
    let wide = Limit { ceiling: 9, free: 9, host: 9, affordable: None };
    assert_eq!(weigh(&advice, wide, opinion("allow", 9)).allowed, 9);
}

#[test]
fn who_pays_and_for_how_long_comes_from_the_directory() {
    assert_eq!(tenant_of(&Some(tenancy()), "dana"), "payments");
    assert_eq!(tenant_of(&None, "dana"), "dana");
    assert_eq!(lifetime_for(&Some(tenancy())), 600);
    assert_eq!(lifetime_for(&Some(Tenancy { lifetime: 60, ..tenancy() })), 60);
    assert_eq!(lifetime_for(&None), 600);
}

// ---------------------------------------------------------------------------
// granting
// ---------------------------------------------------------------------------

#[test]
fn a_rehearsal_tells_what_a_real_ask_gives() {
    let mut f = fleet();
    match rehearse(&f, &plea(2), 2, Some("fine".into())) {
        Verdict::Would { count, rationale } => {
            assert_eq!(count, 2);
            assert!(rationale.contains("fine"), "{rationale}");
        }
        other => panic!("{other:?}"),
    }
    assert_eq!(f.summary().1, 4, "and takes nothing");

    let d = decide_at(&mut f, &plea(2), 2, Some("fine".into()), "k", "dana", "payments", 600, 1_000);
    match d.verdict {
        Verdict::Grant { reservation, workers, expires_in, rationale } => {
            assert_eq!((reservation.as_str(), expires_in), ("r1", 600));
            assert_eq!(workers.iter().map(|w| w.name.as_str()).collect::<Vec<_>>(), ["a", "b"]);
            assert_eq!(rationale.as_deref(), Some("fine"));
        }
        other => panic!("{other:?}"),
    }
    assert_eq!(d.orders.len(), 2);
    assert_eq!(d.orders[0].worker, "a");
    match &d.orders[0].order {
        Aadesh::Assigned { reservation, caller, limits } => {
            assert_eq!((reservation.as_str(), caller.as_str()), ("r1", "k"));
            assert_eq!(limits.max_seconds, 600);
        }
        other => panic!("{other:?}"),
    }
}

#[test]
fn fewer_than_were_allowed_is_a_counter_and_none_a_denial() {
    let mut f = fleet();
    decide_at(&mut f, &plea(3), 3, None, "k", "dana", "payments", 600, 1_000);
    match decide_at(&mut f, &plea(2), 2, None, "k", "dana", "payments", 600, 1_001).verdict {
        Verdict::Counter { count, .. } => assert_eq!(count, 1),
        other => panic!("{other:?}"),
    }
    let gpu = Nivedana { count: Some(1), capabilities: vec!["gpu".into()], said: Table::new() };
    match decide_at(&mut f, &gpu, 1, None, "k", "dana", "payments", 600, 1_002).verdict {
        Verdict::Deny { rationale } => assert!(rationale.contains("gpu"), "{rationale}"),
        other => panic!("{other:?}"),
    }
}

#[test]
fn what_a_reservation_cost_is_charged_to_its_tenant() {
    let mut f = fleet();
    decide_at(&mut f, &plea(2), 2, None, "k", "dana", "payments", 600, 1_000);
    let closed = f.release_at("r1", "k", 1_061).unwrap();
    let e = charge(&closed, 1_061);
    assert_eq!((e.at, e.credits, e.minutes), (1_061, 8, 2));
    assert_eq!(e.reservation, "r1");
    assert_eq!(e.machines, vec!["a", "b"]);
    let line = reaped(&closed);
    assert!(line.contains("dana") && line.contains("r1"), "{line}");
    let orders = freed("r1", closed.workers());
    assert_eq!(orders.len(), 2);
    assert!(matches!(&orders[1].order, Aadesh::Freed { reservation } if reservation == "r1"));
}

#[test]
fn a_machine_arrives_with_the_key_it_dialled_from() {
    let w = arrival(
        Register {
            name: "a".into(),
            rate: 3,
            capabilities: vec!["linux".into()],
            hints: vec!["10.0.0.1:9".into()],
        },
        "its-key".into(),
    );
    assert_eq!((w.name.as_str(), w.key.as_str(), w.rate), ("a", "its-key", 3));
    assert!(w.held_by.is_none());
}

// ---------------------------------------------------------------------------
// who comes in, and what they are told
// ---------------------------------------------------------------------------

fn control() -> Control {
    Control {
        config: Config {
            name: "cm-c".into(),
            key: "our-key".into(),
            parent: vec![],
            parent_hints: vec![],
            root: "/srv/cm".into(),
        },
        issuers: Issuers::load("/srv/cm/issuers.toml", Trusted::default()).ok().unwrap(),
        enrolled: Keys::of("/srv/cm", None),
        admins: Admins {
            list: vec![Admin { name: "ops".into(), key: "ops-key".into(), note: None }],
        },
        fleet: fleet(),
    }
}

fn ticket(caller: &str, alias: Option<&str>) -> Knock {
    Knock {
        ticket: Some(Ticket {
            name: "cm-c".into(),
            caller: caller.into(),
            alias: alias.map(Into::into),
            seconds: 60,
        }),
        attestation: None,
    }
}

fn empty() -> Knock {
    Knock { ticket: None, attestation: None }
}

fn admitted(a: Admission) -> Caller {
    match a {
        Admission::Admitted(who) => who,
        Admission::Refused(why) => panic!("{why}"),
        Admission::Fetch(_) => panic!("it asked for keys"),
    }
}

fn turned_away(a: Admission) -> String {
    match a {
        Admission::Refused(why) => why,
        Admission::Admitted(who) => panic!("let in as {}", who.alias),
        Admission::Fetch(_) => panic!("it asked for keys"),
    }
}

#[test]
fn nobody_is_let_in_without_proof() {
    let c = control();
    assert_eq!(turned_away(c.receive_at(&empty(), "stranger", Ok(()), 5)), session::NO_PROOF);
    let token = Knock { ticket: None, attestation: Some("a.b.c".into()) };
    assert_eq!(turned_away(c.receive_at(&token, "stranger", Ok(()), 5)), session::NO_ISSUERS);
    // A ticket whose seal does not hold proves nothing.
    turned_away(c.receive_at(&ticket("dana-key", Some("dana")), "dana-key", Err("bad seal".into()), 5));
    // Nor does one for another controller.
    let mut other = ticket("dana-key", Some("dana"));
    other.ticket.as_mut().unwrap().name = "cm-other".into();
    assert_eq!(
        turned_away(c.receive_at(&other, "dana-key", Ok(()), 5)),
        "that ticket is for `cm-other`"
    );
}

#[test]
fn an_admin_comes_by_ticket_and_key() {
    let c = control();
    let ops = admitted(c.receive_at(&ticket("ops-key", None), "ops-key", Ok(()), 5));
    assert_eq!(ops.admin.as_deref(), Some("ops"));
    let worker = admitted(c.receive_at(&ticket("w-key", None), "w-key", Ok(()), 5));
    assert!(worker.sibling && worker.admin.is_none());
    let dana = admitted(c.receive_at(&ticket("ops-key", Some("dana")), "ops-key", Ok(()), 5));
    assert!(dana.admin.is_none());
}

fn vouched(may_enrol: bool) -> Vouched {
    Vouched { alias: "okta:dana@acme.com".into(), may_enrol, facts: Table::new() }
}

#[test]
fn an_enrolled_key_is_let_in_again_until_it_is_forgotten() {
    let mut c = control();
    let e = c.enrol(&vouched(false), "laptop", None, 7).unwrap_err();
    assert_eq!(e, session::MAY_NOT_ENROL);
    c.enrol(&vouched(true), "laptop", Some("blue one".into()), 7).unwrap();
    let who = admitted(c.receive_at(&empty(), "laptop", Ok(()), 8));
    assert_eq!(who.alias, "okta:dana@acme.com");
    assert!(!who.sibling && who.admin.is_none());

    // Somebody else's key is not theirs to forget.
    assert_eq!(c.forget("kiran", "kiran-key", Some("laptop")).unwrap_err(), session::NOT_YOURS);
    let gone = c.forget("okta:dana@acme.com", "laptop", None).unwrap();
    assert_eq!((gone.key.as_str(), gone.note.as_deref()), ("laptop", Some("blue one")));
    turned_away(c.receive_at(&empty(), "laptop", Ok(()), 9));
}

#[test]
fn only_an_admin_looks_inside() {
    let mut c = control();
    let dana = Caller::from(Some("dana".into()));
    match c.handle_at(&dana, "dana-key", &empty(), Plea::Inspect { what: Look::Fleet }, 5) {
        Action::Answer(Verdict::Deny { rationale }) => {
            assert_eq!(rationale, session::NOT_AN_ADMIN);
        }
        _ => panic!("somebody looked inside"),
    }
    let ops = Caller::from(None).with_admin(&c.admins, "ops-key");
    assert!(matches!(
        c.handle_at(&ops, "ops-key", &empty(), Plea::Inspect { what: Look::Spend }, 5),
        Action::Look(Look::Spend)
    ));
}

#[test]
fn every_plea_leads_somewhere() {
    let mut c = control();
    let dana = Caller::from(Some("dana".into()));
    let k = empty();
    assert!(matches!(
        c.handle_at(&dana, "d", &k, Plea::Ping, 5),
        Action::Answer(Verdict::Pong)
    ));
    assert!(matches!(
        c.handle_at(&dana, "d", &k, Plea::Nivedana(plea(1)), 5),
        Action::Weigh { rehearse: false, .. }
    ));
    assert!(matches!(
        c.handle_at(&dana, "d", &k, Plea::Rehearse(plea(1)), 5),
        Action::Weigh { rehearse: true, .. }
    ));
    assert!(matches!(
        c.handle_at(&dana, "d", &k, Plea::Upload(Upload { files: vec![] }), 5),
        Action::Accept(_)
    ));
    assert!(matches!(
        c.handle_at(&dana, "d", &k, Plea::Enrol { note: None }, 5),
        Action::Answer(Verdict::Deny { rationale }) if rationale == session::NEEDS_TOKEN
    ));
    assert!(matches!(
        c.handle_at(&dana, "d", &k, Plea::Whoami, 5),
        Action::Answer(Verdict::Saw(_))
    ));
    assert!(matches!(
        c.handle_at(&dana, "d", &k, Plea::Forget { key: None }, 5),
        Action::Answer(Verdict::Deny { .. })
    ));
    assert!(matches!(
        c.handle_at(&dana, "d", &k, Plea::Release { reservation: "r9".into() }, 5),
        Action::Answer(Verdict::Deny { .. })
    ));
    decide_at(&mut c.fleet, &plea(1), 1, None, "d", "dana", "payments", 600, 5);
    match c.handle_at(&dana, "d", &k, Plea::Release { reservation: "r1".into() }, 6) {
        Action::Over(closed) => assert_eq!(closed.id(), "r1"),
        _ => panic!("it was not released"),
    }
}

#[test]
fn rules_are_replaced_by_those_who_may_write_them() {
    assert!(may_replace("dana", Ok(None), false).is_err());
    assert_eq!(
        may_replace("dana", Ok(Some(tenancy())), false).unwrap_err(),
        "dana may run tests for `payments` but not change its rules — whoever runs this \
         controller decides that, not the rules themselves"
    );
    assert_eq!(
        may_replace("dana", Ok(Some(tenancy())), true).unwrap_err(),
        "tenant `payments` has no admins, so nobody may change its policy — the host sets \
         them in tenant.toml"
    );
    let admin = Tenancy { may_write: true, ..tenancy() };
    assert_eq!(may_replace("dana", Ok(Some(admin)), false).unwrap(), "payments");
    assert!(may_replace("dana", Err("down".into()), false).is_err());
    assert!(matches!(replaced(Ok(vec!["policy.md".into()])), Verdict::Acknowledged));
    assert!(matches!(replaced(Err("no".into())), Verdict::Deny { .. }));
    assert!(matches!(recorded(Ok(())), Verdict::Acknowledged));
    assert!(matches!(
        recorded(Err("full".into())),
        Verdict::Deny { rationale } if rationale == "could not record it: full"
    ));
}

#[test]
fn a_fault_is_no_decision() {
    assert!(matches!(reply(Ok(Verdict::Pong)), (Answer::Decided(Verdict::Pong), false)));
    match reply(Err("the model is down".into())) {
        (Answer::Fault { fault }, true) => assert_eq!(fault, "the model is down"),
        _ => panic!("a fault was passed off as a decision"),
    }
}

// ---------------------------------------------------------------------------
// what is shown
// ---------------------------------------------------------------------------

#[test]
fn the_fleet_is_shown_machine_by_machine() {
    let mut f = Fleet::default();
    f.arrive(machine("a", 2));
    decide_at(&mut f, &plea(1), 1, None, "k", "dana", "payments", 600, 1_000);
    assert_eq!(
        show_fleet(&f),
        vec![
            "1 machine(s), 0 free, can [\"linux\"]",
            "  a              2 credit(s)/min  can [\"linux\"]  held by r1",
        ]
    );
    assert_eq!(
        show_reservations_at(&f, 1_100),
        vec!["  r1     dana         1 machine(s), 500s left"]
    );
    assert_eq!(show_reservations_at(&Fleet::default(), 0), vec!["nothing is held"]);
}

#[test]
fn spend_is_shown_per_tenant() {
    let mut f = Fleet::default();
    f.arrive(machine("a", 2));
    decide_at(&mut f, &plea(1), 1, None, "k", "dana", "payments", 600, 1_000);
    let listed = [
        Listed {
            tenant: "payments".into(),
            budget: Some(Budget { credits: 100, window: 3600 }),
            unread: None,
        },
        Listed { tenant: "platform".into(), budget: None, unread: Some("a typo".into()) },
    ];
    assert_eq!(
        show_spend(&f, &listed, &[30, 0]),
        vec![
            "  !! platform: configuration not read, still running on the last good copy — a typo",
            "  payments         30 of 100 credit(s) used, 20 committed, 50 left",
            "  platform         no budget set",
        ]
    );
    assert_eq!(show_spend(&f, &[], &[]), vec!["no tenants"]);
}

#[test]
fn you_are_told_who_you_are_and_by_which_key() {
    let mut keys = Keys::of("/srv/cm", None);
    keys.remember(Enrolled {
        key: "laptop".into(),
        alias: "dana".into(),
        issuer: "okta".into(),
        at: 7,
        note: Some("blue".into()),
    });
    let who = Caller::attested("dana".into(), table(&[("repository", "acme/payments")]));
    assert_eq!(
        whoami(&who, &keys, "laptop"),
        vec![
            "you are dana",
            "  repository: acme/payments",
            "  laptop via okta (this one) — blue",
        ]
    );
    let other = Caller::from(Some("kiran".into()));
    assert_eq!(
        whoami(&other, &keys, "x")[1],
        "no enrolled keys — this connection proved itself another way"
    );
}

#[test]
fn a_controller_says_what_it_runs_on() {
    let c = control();
    let roster = Ok(vec![Listed { tenant: "payments".into(), budget: None, unread: None }]);
    let lines =
        startup(&c.config, "folders", &roster, &c.issuers, &c.enrolled, &c.admins, "a model");
    assert_eq!(lines[0], "controller `cm-c` listening as our-key");
    assert_eq!(lines[1], "callers known from: folders");
    assert_eq!(lines[2], "1 tenant(s): payments");
    assert!(lines.contains(&"1 admin(s): ops".to_string()), "{lines:?}");
    assert_eq!(lines.last().unwrap(), "policy weighed by: a model");
    assert_eq!(
        show_admin(&Admin { name: "ops".into(), key: "k".into(), note: Some("laptop".into()) }),
        "  ops              k  — laptop"
    );
    assert!(Issuer {
        name: "x".into(),
        url: "u".into(),
        jwks: "j".into(),
        subject: "s".into(),
        allow: vec![],
        facts: vec![],
        enrol: true,
    }
    .may_enrol());
}

#[test]
fn a_grant_never_overruns_the_budget() {
    let mut f = fleet();
    // 50 credits, 5 of them spent: ten minutes at 2 is 20 a machine, so two of them.
    let (allowed, _) =
        entitlement(&f, "dana", Some(tenancy()), &Table::new(), &plea(4), 5, opinion("allow", 4))
            .unwrap();
    assert_eq!(allowed, 2);
    decide_at(&mut f, &plea(4), allowed, None, "k", "dana", "payments", 600, 1_000);
    assert!(5 + f.committed("payments") <= 50);

    // What is committed counts, so nothing more can be had.
    let e =
        entitlement(&f, "dana", Some(tenancy()), &Table::new(), &plea(1), 5, opinion("allow", 1));
    assert!(e.is_err());
}

#[test]
fn a_tenant_that_wrote_nothing_down_is_not_weighed() {
    let empty = Tenancy { rulebook: "  \n".into(), ..tenancy() };
    let why = weighable("dana", Some(empty)).err().unwrap();
    assert!(why.contains("nothing written down"), "{why}");
}
