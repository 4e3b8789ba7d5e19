use cyberium::cli::{self, command, echo, errand, init, offer, policy_test, remark, terms, whose, Command};
use cyberium::proto::{
    Aadesh, Answer, Artifact, Limits, Look, Outcome, Sight, Ticket, Upadesh, Verdict,
    WorkerHandle, Workspace,
};
use cyberium::table::Table;
use cyberium::tester::{
    answered, artifact, dialled, document, exit_with, hear, hints, keep, looks_like_a_host, mint,
    minted, ping_target, pinged, released, report, seen, sent, tell_link, warning, way, Heard, Job,
    Kept, Link, Mint, Next, Pinged, Seen, Sent, Shard, Way,
};
use cyberium::worker::{
    allowance, consider, full, inside, killed, place, reservation_dir, script_went, setup_failed,
    shallow, success, turn, unfetched, work_dir, Admission, Desk, Duty, Held, Hygiene, Place,
    State, Turn,
};
use cyberium::{b64_decode, b64_encode, config_path, describe, home, id52_check, json, path, quiet, text};

fn job(command: &str) -> Job {
    Job { command: command.into(), workspace: None, cwd: None, env: vec![], collect: vec![] }
}

#[test]
fn shard_numbering_matches_what_runners_expect() {
    let j = job("");
    assert_eq!(j.shaped("--shard={shard}/{shards}", 0, 3), "--shard=1/3");
    assert_eq!(j.shaped("--shard={shard}/{shards}", 2, 3), "--shard=3/3");
    assert_eq!(j.shaped("report-{index}.zip", 0, 3), "report-0.zip");
}

#[test]
fn substitution_reaches_env_and_collected_paths_too() {
    let j = Job {
        command: "run".into(),
        workspace: None,
        cwd: None,
        env: vec![("OUT".into(), "blob-{shard}.zip".into())],
        collect: vec!["blob-{shard}.zip".into()],
    };
    assert_eq!(j.shaped(&j.env[0].1, 1, 2), "blob-2.zip");
    assert_eq!(j.shaped(&j.collect[0], 1, 2), "blob-2.zip");

    // And both are substituted in what a machine is told.
    let Upadesh::Run { env, collect, index, total, .. } = j.for_machine("r1", 1, 2);
    assert_eq!(env, vec![("OUT".to_string(), "blob-2.zip".to_string())]);
    assert_eq!(collect, vec!["blob-2.zip"]);
    assert_eq!((index, total), (1, 2));
}

fn kept(dir: &str, shards: &[&Shard]) -> Vec<Kept> {
    let mut all = vec![];
    for shard in shards {
        for a in &shard.artifacts {
            all.push(keep(dir, shard.index, a).ok().unwrap());
        }
    }
    all
}

#[test]
fn a_worker_cannot_choose_where_our_files_land() {
    let dir = "/tmp/artifacts";
    let shard = Shard {
        worker: "w".into(),
        index: 0,
        code: Some(0),
        artifacts: vec![Artifact {
            path: "../../../etc/escaped.txt".into(),
            base64: b64_encode(b"nope"),
        }],
    };
    let written = kept(dir, &[&shard]);
    assert_eq!(written.len(), 1);
    assert_eq!(written[0].path, "/tmp/artifacts/shard-1/escaped.txt");
    assert_eq!(written[0].folder, "/tmp/artifacts/shard-1");
    assert!(inside(dir, &written[0].path), "{:?} escaped", written[0].path);
    assert_eq!(written[0].bytes, b"nope");
}

#[test]
fn shards_are_kept_apart() {
    let shards: Vec<Shard> = (0..2)
        .map(|index| Shard {
            worker: format!("w{index}"),
            index,
            code: Some(0),
            artifacts: vec![Artifact {
                path: "report.zip".into(),
                base64: b64_encode(format!("shard {index}").as_bytes()),
            }],
        })
        .collect();
    let written = kept("/tmp/artifacts-two", &shards.iter().collect::<Vec<_>>());
    assert_eq!(written.len(), 2);
    assert_ne!(written[0].path, written[1].path);
    assert_eq!(written[1].bytes, b"shard 1");
}

#[test]
fn a_controller_can_be_named_three_ways() {
    assert!(looks_like_a_host("cm.acme.com"));
    assert!(looks_like_a_host("https://cm.acme.com"));
    assert!(looks_like_a_host("http://127.0.0.1:8822"));
    assert!(!looks_like_a_host("cm-c"), "a bare word is not a host");
    // An id52 has no dot, so the two forms never overlap.
    assert!(!looks_like_a_host("5lljf7j7vvvj8pmnd9j1uh82lb984j3bmifs12n0qqeens6mfkpg"));
}

/// What the arguments declare, and nothing else of them.
fn declarations(args: &[&str]) -> Vec<(String, String)> {
    rows(&read_errand(args).nivedana.said)
}

fn read_errand(args: &[&str]) -> cli::Errand {
    match errand(None, "", &strings(args)) {
        Ok(e) => e,
        Err(why) => panic!("{why}"),
    }
}

fn rows(said: &Table<String>) -> Vec<(String, String)> {
    (0..said.len()).map(|i| (said.key_at(i).clone(), said.value_at(i).clone())).collect()
}

fn strings(args: &[&str]) -> Vec<String> {
    args.iter().map(|a| (*a).to_string()).collect()
}

#[test]
fn nothing_the_caller_says_is_read_by_cm() {
    let said = read_errand(&["--plea", "nightly-regression", "--incident", "INC-4471", "--urgent"])
        .nivedana
        .said;
    assert_eq!(said.get("plea").map(String::as_str), Some("nightly-regression"));
    assert_eq!(said.get("incident").map(String::as_str), Some("INC-4471"));
    // A bare flag is a fact the caller wanted their policy to notice.
    assert_eq!(said.get("urgent").map(String::as_str), Some("true"));
}

#[test]
fn a_key_may_be_joined_or_separated() {
    assert_eq!(declarations(&["--plea=nightly"]), declarations(&["--plea", "nightly"]));
}

#[test]
fn the_operational_arguments_are_still_cms_own() {
    let e = read_errand(&["--count", "3", "--need", "linux", "--dry-run"]);
    assert!(e.nivedana.said.is_empty(), "{:?}", e.nivedana.said);
    assert_eq!(e.nivedana.count, Some(3));
    assert_eq!(e.nivedana.capabilities, vec!["linux"]);
    assert!(e.rehearsing);
}

fn held(state: State) -> Held {
    Held { caller: "them".into(), limits: Limits::default(), state }
}

#[test]
fn a_machine_that_could_not_be_prepared_refuses_work() {
    let said = consider(Some(&held(State::Unusable("disk full".into()))), "r1", "them");
    let Admission::Refuse(why) = said else {
        panic!("expected a refusal, got {said:?}");
    };
    assert!(why.contains("could not be prepared"), "{why}");
    assert!(why.contains("disk full"), "{why}");
}

#[test]
fn work_waits_while_the_machine_is_being_prepared() {
    let said = consider(Some(&held(State::Preparing)), "r1", "them");
    assert!(matches!(said, Admission::Wait), "{said:?}");
}

#[test]
fn a_prepared_machine_serves_the_right_caller_only() {
    assert!(matches!(consider(Some(&held(State::Ready)), "r1", "them"), Admission::Run(_)));
    let said = consider(Some(&held(State::Ready)), "r1", "somebody-else");
    let Admission::Refuse(why) = said else {
        panic!("expected a refusal, got {said:?}");
    };
    assert!(why.contains("not yours"), "{why}");
    // And a reservation we never heard of is refused whoever asks.
    assert!(matches!(consider(None, "r9", "them"), Admission::Refuse(_)));
}

#[test]
fn every_shard_gets_its_own_tree() {
    let one = work_dir("/cm", "r7", 0);
    let two = work_dir("/cm", "r7", 1);
    assert_ne!(one, two);
    // And both sit under the reservation, so ending it removes the lot.
    let reservation = reservation_dir("/cm", "r7");
    assert_eq!(reservation, "/cm/work/r7");
    assert!(inside(&reservation, &one) && inside(&reservation, &two));
}

#[test]
fn a_failing_shard_fails_the_run() {
    let ok = |code| Ok(Shard { worker: "w".into(), index: 0, code, artifacts: vec![] });
    assert!(exit_with(&[ok(Some(0))]));
    assert!(!exit_with(&[ok(Some(0)), ok(Some(1))]));
    // Killed for exceeding its limit is not success either.
    assert!(!exit_with(&[ok(None)]));
    // Neither is a shard we never heard back from.
    assert!(!exit_with(&[Err("gone".to_string())]));
}

// ---------------------------------------------------------------------------
// a machine at work
// ---------------------------------------------------------------------------

#[test]
fn a_tenancy_begins_with_preparation_and_ends_when_freed() {
    let mut desk = Desk::default();
    let hygiene = Hygiene { pre: Some("scrub".into()), post: Some("wipe".into()) };
    let assigned = Aadesh::Assigned {
        reservation: "r1".into(),
        caller: "them".into(),
        limits: Limits { max_seconds: 30 },
    };
    match desk.obey(assigned, &hygiene) {
        Duty::Prepare { reservation, script } => {
            assert_eq!((reservation.as_str(), script.as_deref()), ("r1", Some("scrub")));
        }
        Duty::Clean { .. } => panic!("cleaned before it was used"),
    }
    assert!(matches!(desk.may_run("r1", "them"), Admission::Wait));
    desk.prepared("r1", Ok(()));
    match desk.may_run("r1", "them") {
        Admission::Run(limits) => assert_eq!(limits.max_seconds, 30),
        other => panic!("{other:?}"),
    }
    match desk.obey(Aadesh::Freed { reservation: "r1".into() }, &hygiene) {
        Duty::Clean { reservation, script } => {
            assert_eq!((reservation.as_str(), script.as_deref()), ("r1", Some("wipe")));
        }
        Duty::Prepare { .. } => panic!("prepared for nobody"),
    }
    assert!(matches!(desk.may_run("r1", "them"), Admission::Refuse(_)));
}

#[test]
fn waiting_is_said_once_and_not_forever() {
    assert!(matches!(turn(Admission::Wait, false, false), Turn::Wait { say: true }));
    assert!(matches!(turn(Admission::Wait, true, false), Turn::Wait { say: false }));
    assert!(matches!(turn(Admission::Wait, false, true), Turn::Wait { say: true }));
    assert!(matches!(turn(Admission::Wait, true, true), Turn::Refuse(_)));
    assert!(matches!(turn(Admission::Refuse("no".into()), true, false), Turn::Refuse(_)));
    assert!(matches!(turn(Admission::Run(Limits::default()), true, true), Turn::Run(_)));
}

fn workspace() -> Workspace {
    Workspace {
        repo: "https://git.test/a b.git".into(),
        git_ref: "main".into(),
        dir: None,
        setup: None,
    }
}

#[test]
fn work_happens_in_one_place() {
    assert!(matches!(place(None, None), Ok(Place::Here(None))));
    assert!(matches!(place(Some(workspace()), None), Ok(Place::Fetched(_))));
    assert!(matches!(place(None, Some("/srv".into())), Ok(Place::Here(Some(_)))));
    let e = place(Some(workspace()), Some("/srv".into())).err().unwrap();
    assert_eq!(e, cyberium::worker::WHICH_ONE);
}

#[test]
fn a_folder_is_inside_by_whole_names() {
    assert!(inside("/cm/work/r1", "/cm/work/r1/0/sub"));
    assert!(inside("/cm/work/r1", "/cm/work/r1"));
    assert!(!inside("/cm/work/r1", "/cm/work/r10"));
    assert!(!inside("/cm/work/r1", "/etc"));
}

#[test]
fn fetching_is_tried_shallow_and_then_whole() {
    let w = workspace();
    assert!(shallow(&w).contains("--depth"), "{}", shallow(&w));
    assert!(!full(&w).contains("--depth"), "{}", full(&w));
    assert!(shallow(&w).contains("main") && full(&w).contains("main"));
    match unfetched(&w) {
        Outcome::No { reason } => assert!(reason.contains("main"), "{reason}"),
        other => panic!("{other:?}"),
    }
}

fn done(code: Option<i32>) -> Outcome {
    Outcome::Done { worker: "w".into(), index: 0, code, artifacts: vec![] }
}

#[test]
fn setup_failing_is_not_the_suite_failing() {
    assert!(success(&done(Some(0))) && !success(&done(Some(1))) && !success(&done(None)));
    assert!(setup_failed("npm ci", done(Some(0))).is_none());
    match setup_failed("npm ci", done(Some(3))) {
        Some(Outcome::No { reason }) => assert!(reason.contains("npm ci"), "{reason}"),
        other => panic!("{other:?}"),
    }
}

#[test]
fn a_run_past_its_limit_is_killed_and_said_so() {
    let limits = Limits { max_seconds: 30 };
    assert_eq!(allowance(limits), 30);
    match killed(limits) {
        Outcome::No { reason } => assert!(reason.contains("30"), "{reason}"),
        other => panic!("{other:?}"),
    }
    assert!(script_went("scrub", Some((true, "exit status: 0"))).is_ok());
    let e = script_went("scrub", Some((false, "exit status: 2"))).unwrap_err();
    assert!(e.contains("exit status: 2"), "{e}");
    assert!(script_went("scrub", None).is_err());
}

// ---------------------------------------------------------------------------
// what comes back
// ---------------------------------------------------------------------------

#[test]
fn a_file_comes_back_as_it_was() {
    let bytes: Vec<u8> = (0..=255).collect();
    let a = artifact("blob.bin", &bytes);
    assert_eq!(a.path, "blob.bin");
    assert_ne!(a.base64.as_bytes(), bytes.as_slice());
    assert_eq!(keep("/out", 2, &a).ok().unwrap().bytes, bytes);
    let at = |dir: &str| keep(dir, 2, &a).ok().unwrap().path;
    assert_eq!(at("/out/"), at("/out"));
    assert_eq!(format!("/out/{}", at("")), at("/out"));

    assert_eq!(b64_encode(b"nope"), "bm9wZQ==");
    assert_eq!(b64_decode("bm9wZQ==").unwrap(), b"nope");
    assert!(b64_decode("not base64!").is_err());
    let nameless = Artifact { path: "..".into(), base64: String::new() };
    assert_eq!(keep("/out", 0, &nameless).err().unwrap(), "\"..\" has no filename");
}

#[test]
fn what_a_machine_says_is_heard() {
    let line = Outcome::Log { index: 0, line: "hello".into(), stderr: true };
    assert!(matches!(hear(Some(line), "w"), Heard::Say { stderr: true, .. }));
    match hear(Some(done(Some(0))), "w") {
        Heard::Done(shard) => {
            assert_eq!(shard.code, Some(0));
            assert_eq!(report(&shard), "  w finished shard 1 with success");
        }
        _ => panic!("it was not done"),
    }
    assert!(matches!(hear(Some(Outcome::No { reason: "no".into() }), "w"), Heard::Failed(_)));
    assert!(matches!(hear(None, "w"), Heard::Failed(_)));
    assert_eq!(describe(Some(-3)), "exit -3");
}

#[test]
fn a_target_is_read_one_way() {
    assert!(matches!(way("cm-c@acme", false), Ok(Way::Enrolled { name, org }) if name == "cm-c" && org == "acme"));
    assert!(matches!(way("5lljf7", true), Ok(Way::Key)));
    assert!(matches!(way("cm.acme.com", false), Ok(Way::Host)));
    let e = way("cm-c", false).err().unwrap();
    assert!(e.starts_with("\"cm-c\" is none of the three ways"), "{e}");
    assert_eq!(document("cm.acme.com"), "https://cm.acme.com/.well-known/cm-controller");
    assert_eq!(document("http://h:1/"), "http://h:1/.well-known/cm-controller");
    let whole = "https://h/.well-known/cm-controller?x";
    assert_eq!(document(whole), whole);
    assert!(warning("http://h").is_some() && warning("https://h").is_none());
    assert_eq!(hints(" a:1 ,, b:2", &["c:3".to_string()])[..2], ["a:1", "b:2"]);
}

#[test]
fn a_token_is_minted_for_the_key_that_dials() {
    match mint("my-key", Some(" make-token {audience} "), None, None, None) {
        Ok(Mint::Run(command)) => assert_eq!(command, "make-token my-key"),
        _ => panic!("the command was not used"),
    }
    match mint("my-key", None, None, Some("https://t?x=1"), Some("secret")) {
        Ok(Mint::Ask { url, bearer }) => {
            assert_eq!((url.as_str(), bearer.as_str()), ("https://t?x=1&audience=my-key", "secret"));
        }
        _ => panic!("nobody was asked"),
    }
    assert!(mint("my-key", None, Some("gitlab"), None, None).is_err());
    assert!(mint("my-key", None, None, None, None).is_err());
    assert_eq!(minted(true, Some(0), " tok\n", "").unwrap(), "tok");
    assert_eq!(minted(true, Some(0), " \n", "").unwrap_err(), "CM_ATTEST_CMD printed nothing");
    assert!(minted(false, Some(1), "", "boom").unwrap_err().ends_with("boom"));
}

#[test]
fn every_answer_means_something() {
    assert!(matches!(answered(None), Next::Fail(_)));
    assert!(matches!(answered(Some(Answer::Fault { fault: "x".into() })), Next::Fail(_)));
    let would = Verdict::Would { count: 2, rationale: "fine".into() };
    match answered(Some(Answer::Decided(would))) {
        Next::Stop(line) => assert_eq!(line, "would get 2 machine(s) — fine"),
        _ => panic!("a rehearsal went on"),
    }
    let counter = Verdict::Counter { count: 2, rationale: "busy".into() };
    match answered(Some(Answer::Decided(counter))) {
        Next::Stop(line) => assert_eq!(line, "countered: 2 — busy"),
        _ => panic!("a counter went on"),
    }
    let deny = Verdict::Deny { rationale: "no".into() };
    match answered(Some(Answer::Decided(deny))) {
        Next::Fail(line) => assert_eq!(line, "denied: no"),
        _ => panic!("a denial went on"),
    }
    let grant = Verdict::Grant {
        reservation: "r1".into(),
        workers: vec![WorkerHandle {
            name: "w".into(),
            key: "k".into(),
            hints: vec![],
            ticket: Ticket { name: "w".into(), caller: "c".into(), alias: None, seconds: 60 },
        }],
        expires_in: 600,
        rationale: None,
    };
    match answered(Some(Answer::Decided(grant))) {
        Next::Go { reservation, workers, lines } => {
            assert_eq!((reservation.as_str(), workers.len()), ("r1", 1));
            assert!(!lines.is_empty());
        }
        _ => panic!("a grant stopped"),
    }
    assert!(matches!(answered(Some(Answer::Decided(Verdict::Pong))), Next::Unexpected(_)));

    let ok = Some(Answer::Decided(Verdict::Acknowledged));
    assert_eq!(released(&ok, "r1"), (true, "released r1".to_string()));
    assert_eq!(released(&None, "r1"), (false, "release unacknowledged".to_string()));
    assert!(matches!(sent(&ok), Sent::Decided { taken: true, .. }));
    assert!(matches!(sent(&None), Sent::Unexpected));
    let saw = Some(Answer::Decided(Verdict::Saw(Sight { lines: vec!["x".into()] })));
    assert!(matches!(seen(saw), Seen::Lines(lines) if lines == ["x"]));
    assert!(matches!(pinged(Ok(Some(Answer::Decided(Verdict::Pong)))), Pinged::Told { fine: true, .. }));
    assert!(matches!(pinged(Err("gone".into())), Pinged::Told { fine: false, .. }));
}

#[test]
fn a_broken_link_is_named() {
    assert_eq!(ping_target("cm-c@acme").unwrap(), ("cm-c".to_string(), "acme".to_string()));
    assert!(ping_target("cm-c").unwrap_err().contains("\"cm-c\" is not name@org"));
    assert!(dialled(&[], None).contains("found by discovery"));
    assert!(dialled(&["a:1".to_string()], Some("refused")).contains("tried [\"a:1\"]"));
    let (fine, line) = tell_link(&Link::NoParent);
    assert!(!fine && line.contains("no parent address in cm.toml"), "{line}");
    let (fine, _) = tell_link(&Link::Resolved { target: "a@b".into(), device: "k".into() });
    assert!(fine);
}

// ---------------------------------------------------------------------------
// what is typed
// ---------------------------------------------------------------------------

#[test]
fn a_command_is_its_words() {
    assert!(matches!(command(&[]), Ok(Command::Help)));
    assert!(matches!(command(&strings(&["--help"])), Ok(Command::Help)));
    assert!(matches!(command(&strings(&["controller"])), Ok(Command::Controller)));
    assert!(matches!(
        command(&strings(&["admin", "spend"])),
        Ok(Command::Inspect { what: Look::Spend, .. })
    ));
    assert!(matches!(
        command(&strings(&["upload-policy", "cm-c@acme"])),
        Ok(Command::UploadPolicy { dir, .. }) if dir == "."
    ));
    assert!(matches!(
        command(&strings(&["test", "cm-c@acme", "--ping"])),
        Ok(Command::Ping { .. })
    ));
    match command(&strings(&["test", "cm-c@acme", "a big run", "--count", "3"])) {
        Ok(Command::Test { target, why, rest }) => {
            assert_eq!((target.as_str(), why.as_deref()), ("cm-c@acme", Some("a big run")));
            assert_eq!(rest, vec!["--count", "3"]);
        }
        _ => panic!("it was not a test"),
    }
    let e = command(&strings(&["tenant", "drop"])).err().unwrap();
    assert_eq!(e, "unrecognised command: tenant drop");
}

#[test]
fn options_are_read_and_what_is_not_one_is_refused() {
    let (invite, root) = init(&strings(&["--parent", "x", "--root", "/srv"])).unwrap();
    assert_eq!((invite.as_str(), root.as_deref()), ("x", Some("/srv")));
    assert!(init(&[]).is_err());
    let o = offer(&strings(&["--controller", "cm-x", "--can", "linux", "--rate", "3"])).ok().unwrap();
    assert_eq!((o.controller.as_str(), o.rate), ("cm-x", 3));
    assert_eq!(o.capabilities, vec!["linux"]);
    assert_eq!(offer(&strings(&["--rate", "lots"])).ok().unwrap().rate, 1);
    assert!(offer(&strings(&["--colour", "red"])).is_err());
    let r = policy_test(&strings(&["--repeat", "3"])).ok().unwrap();
    assert_eq!((r.dir.as_str(), r.repeat), (".", 3));
    assert_eq!(remark(&strings(&["--note", "laptop"])).unwrap().as_deref(), Some("laptop"));
    assert_eq!(whose(&[]).unwrap(), "cm-c");
    let t = terms(&strings(&["--ceiling", "4", "--member", "dana", "--credits", "60"])).unwrap();
    assert_eq!((t.ceiling, t.credits), (4, Some(60)));
    assert_eq!(t.members, vec!["dana"]);
    assert!(terms(&strings(&["--colour", "red"])).is_err());
}

#[test]
fn a_reason_and_the_environment_declare_too() {
    let e = errand(Some("a big run"), "plea=nightly,urgent=yes", &[]).ok().unwrap();
    assert_eq!(
        rows(&e.nivedana.said),
        vec![
            ("plea".to_string(), "nightly".to_string()),
            ("urgent".to_string(), "yes".to_string()),
            ("why".to_string(), "a big run".to_string()),
        ]
    );
    assert_eq!(
        echo(&e.nivedana.said).unwrap(),
        "declaring: plea=nightly urgent=yes why=a big run"
    );
    assert!(echo(&Table::new()).is_none());
    // A count that is none asks for what the policy makes of no count.
    assert_eq!(read_errand(&["--count", "many"]).nivedana.count, None);
}

#[test]
fn what_is_declared_can_be_shown_before_an_errand_is_settled() {
    let told = cli::hear(None, "plea=nightly", &strings(&["--repo", "r"])).ok().unwrap();
    assert_eq!(echo(&told.nivedana.said).unwrap(), "declaring: plea=nightly");
    assert_eq!(told.settle().err().unwrap(), "--repo also needs --ref");
    let told = cli::hear(None, "", &strings(&["--setup", "make"])).ok().unwrap();
    assert_eq!(
        told.settle().err().unwrap(),
        "--ref, --dir and --setup only mean something with --repo"
    );
    let told = cli::hear(None, "", &strings(&["--repo", "r", "--ref", "main"])).ok().unwrap();
    assert_eq!(told.settle().ok().unwrap().job.workspace.unwrap().git_ref, "main");
}

// ---------------------------------------------------------------------------
// the small things
// ---------------------------------------------------------------------------

#[test]
fn a_home_is_ones_own_or_the_users() {
    assert_eq!(home(Some("/srv/cm".into()), None).unwrap(), "/srv/cm");
    assert_eq!(home(None, Some("/home/dana".into())).unwrap(), "/home/dana/.cm");
    assert!(home(None, None).is_err());
    assert_eq!(config_path("/home/dana/.cm"), "/home/dana/.cm/cm.toml");
    assert!(id52_check("k", true).is_ok());
    assert!(id52_check("nonsense", false).unwrap_err().contains("nonsense"));
    assert!(!quiet("disk full"));
}

#[test]
fn a_path_ends_in_a_name_or_it_does_not() {
    assert_eq!(path::join("/a", "b"), "/a/b");
    assert_eq!(path::join("/a", "/b"), "/b");
    assert_eq!(path::file_name("a/b.txt").as_deref(), Some("b.txt"));
    assert_eq!(path::file_name("a/b/").as_deref(), Some("b"));
    assert_eq!(path::file_name("a/.."), None);
    assert_eq!(path::file_name("/"), None);
}

#[test]
fn text_is_cut_and_joined_exactly() {
    assert_eq!(text::trim("\u{2003} a b \n"), "a b");
    assert_eq!(text::words(" a  b\tc "), vec!["a", "b", "c"]);
    assert_eq!(text::lines("a\r\nb\n\nc"), vec!["a", "b", "", "c"]);
    assert_eq!(text::number("+12", 100), Some(12));
    assert_eq!(text::number("101", 100), None);
    assert_eq!(text::number("1 2", 100), None);
    assert_eq!(text::decimal(u64::MAX), "18446744073709551615");
    assert_eq!(text::signed(i32::MIN), "-2147483648");
    assert_eq!(text::list(&strings(&["a\"b", "c\n"])), "[\"a\\\"b\", \"c\\n\"]");
    assert_eq!(text::replace("aXbX", "X", "yy"), "ayybyy");
    assert_eq!(text::widen("ab", 4), "ab  ");
    assert_eq!(text::indent("ab", 4), "  ab");
    assert_eq!(text::sorted(&strings(&["b", "a", "ab"])), vec!["a", "ab", "b"]);
}

#[test]
fn json_is_read_one_level_at_a_time() {
    let fields: Vec<(String, String)> = [("a", "[1, \"x\"]"), ("b", "7"), ("c", "null"), ("d", "\"x\\n\"")]
        .iter()
        .map(|(k, v)| (k.to_string(), v.to_string()))
        .collect();
    assert_eq!(json::find(&fields, "b"), Some("7"));
    assert_eq!(json::find_number(&fields, "b", 10), Ok(Some(7)));
    assert_eq!(json::find_number(&fields, "b", 6), Err(()));
    assert_eq!(json::find_text(&fields, "d"), Ok(Some("x\n".to_string())));
    assert_eq!(json::find_text(&fields, "b"), Err(()));
    assert_eq!(json::find_text(&fields, "e"), Ok(None));
    assert_eq!(json::find_optional_text(&fields, "c"), Ok(None));
    assert_eq!(json::read_numbers(&strings(&["1", "2"]), 5), Some(vec![1, 2]));
    assert_eq!(json::read_numbers(&strings(&["1", "-2"]), 5), None);
    assert_eq!(json::read_texts(&strings(&["\"a\""])), Some(vec!["a".to_string()]));
    assert_eq!(json::read_texts(&strings(&["{"])), None);
    match json::read(" { \"a\" : [1.50, {}] ,\n \"b,}\":\"]\", \"a\":-2 } ").unwrap() {
        json::Json::Object(rows) => {
            let raw = [("a", " [1.50, {}]"), ("b,}", "\"]\""), ("a", "-2")];
            assert_eq!(rows.len(), raw.len());
            for (row, (name, value)) in rows.iter().zip(raw) {
                assert_eq!((row.0.as_str(), row.1.as_str()), (name, value));
            }
            assert_eq!(json::find(&rows, "a"), Some("-2"));
            assert!(json::repeated(&rows, &vec!["a"]));
            assert!(!json::repeated(&rows, &vec!["b,}", "c"]));
        }
        other => panic!("{other:?}"),
    }
    match json::read("[ ]").unwrap() {
        json::Json::List(items) => assert!(items.is_empty()),
        other => panic!("{other:?}"),
    }
    match json::read(" [1, [2, 3] ,\"x,\"]").unwrap() {
        json::Json::List(items) => assert_eq!(items, vec!["1", " [2, 3]", "\"x,\""]),
        other => panic!("{other:?}"),
    }
    match json::read("1.50").unwrap() {
        json::Json::Number { written, whole } => assert_eq!((written.as_str(), whole), ("1.5", None)),
        other => panic!("{other:?}"),
    }
    assert_eq!(json::fault("{}"), "");
    assert_eq!(json::fault("[1,"), ": EOF while parsing a value at line 1 column 3");
    assert_eq!(json::form_fault(b"[1e999]"), "");
    assert_eq!(json::fault("[1e999]"), ": number out of range at line 1 column 6");
    assert_eq!(json::form_fault(b"[1,"), ": EOF while parsing a value at line 1 column 3");
    assert_eq!(json::list("[1e999, 2]").unwrap(), vec!["1e999", " 2"]);
    assert!(json::read("[1e999, 2]").is_err());
}

#[test]
fn a_table_is_kept_in_order_and_by_key() {
    let mut t = Table::new();
    t.insert("b".into(), "2".to_string());
    t.insert("a".into(), "1".to_string());
    t.insert("b".into(), "3".to_string());
    assert_eq!(rows(&t), vec![("a".into(), "1".into()), ("b".into(), "3".into())]);
    assert_eq!(t.remove("a"), Some("1".to_string()));
    assert_eq!(t.remove("a"), None);
    assert!(t.contains_key("b") && !t.contains_key("a"));
    assert_eq!(rows(&t.copied()), rows(&t));
}
