use cyberium::adviser::Opinion;
use cyberium::controller::weigh;
use cyberium::policy::Policy;
use cyberium::policytest::{
    ask, close, head, is_case_file, judge, load, next_attempt, read_cases, select, tell, Case, Expect,
};
use cyberium::proto::PolicyFile;
use cyberium::rulebook::Rulebook;

/// The expectation of a case that says nothing else.
fn expect(json: &str) -> Expect {
    Case::read(&format!("{{\"name\":\"n\",\"expect\":{json}}}")).unwrap().expect
}

fn file(path: &str, text: &str) -> PolicyFile {
    PolicyFile { path: path.into(), text: text.into() }
}

#[test]
fn an_exact_count_is_checked_exactly() {
    let e = expect(r#"{"count": 2}"#);
    assert!(e.check(2, 6, false).is_none());
    assert_eq!(e.check(3, 6, false).unwrap(), "expected 2, got 3");
}

#[test]
fn a_vague_rule_can_be_checked_vaguely() {
    let e = expect(r#"{"at_most": 2}"#);
    assert!(e.check(1, 6, false).is_none());
    assert!(e.check(2, 6, false).is_none());
    assert!(e.check(3, 6, false).unwrap().contains("at most 2"));

    let e = expect(r#"{"at_least": 4}"#);
    assert!(e.check(4, 6, false).is_none());
    assert!(e.check(3, 6, false).unwrap().contains("at least 4"));
}

#[test]
fn the_verdict_is_what_the_caller_would_experience() {
    let e = expect(r#"{"verdict": "counter"}"#);
    assert!(e.check(2, 6, false).is_none(), "fewer than asked");
    assert!(e.check(6, 6, false).is_some(), "all of it is an allow");

    let deny = expect(r#"{"verdict": "deny"}"#);
    assert!(deny.check(0, 6, false).is_none(), "clamped to nothing");
    assert!(deny.check(0, 6, true).is_none(), "or refused outright");

    let allow = expect(r#"{"verdict": "allow"}"#);
    assert!(allow.check(6, 6, false).is_none());
    assert!(allow.check(0, 6, true).is_some());
}

#[test]
fn expectations_can_be_combined() {
    let e = expect(r#"{"verdict": "counter", "at_least": 2, "at_most": 4}"#);
    assert!(e.check(3, 9, false).is_none());
    assert!(e.check(1, 9, false).is_some());
    assert!(e.check(5, 9, false).is_some());
}

#[test]
fn a_case_that_expects_nothing_is_refused_at_load() {
    assert!(!expect(r#"{}"#).says_something());
    let files = [file("policy-tests/a.json", r#"{"name":"n","expect":{}}"#)];
    let e = load("policy-tests", Some(&files)).unwrap_err();
    assert!(e.contains("expects nothing"), "{e}");
}

#[test]
fn a_case_only_has_to_say_what_it_is_about() {
    let case =
        Case::read(r#"{"name": "n", "said": {"plea": "nightly"}, "expect": {"at_most": 2}}"#)
            .unwrap();
    assert_eq!(case.asked, 1);
    assert_eq!(case.caller, "somebody");
    assert!(case.fleet.free > 0, "a quiet fleet with room");
    assert_eq!(case.ceiling, u32::MAX, "no host cap unless the case says one");
    assert!(case.money.is_none());
}

#[test]
fn the_tests_are_not_part_of_the_policy() {
    let files = [
        file("policy.md", "Be reasonable."),
        file("policy-tests/cases.json", r#"{"name":"n","expect":{"count":2}}"#),
    ];
    let book = Rulebook::from_files(&files).unwrap();
    assert!(book.as_str().contains("Be reasonable."));
    assert!(!book.as_str().contains("expect"), "{}", book.as_str());
    assert!(!book.as_str().contains("cases.json"), "not even in the tree");
}

#[test]
fn a_file_may_hold_one_case_or_many() {
    let one = read_cases(r#"{"name":"a","asked":3,"expect":{"count":2}}"#).unwrap();
    assert_eq!(one.len(), 1);
    let two =
        read_cases(r#"[{"name":"a","expect":{"count":1}},{"name":"b","expect":{"count":0}}]"#)
            .unwrap();
    assert_eq!(two.iter().map(|c| c.name.as_str()).collect::<Vec<_>>(), vec!["a", "b"]);
    assert!(read_cases("not a case").is_none());
    assert!(is_case_file("a.json") && !is_case_file("a.md"));
}

#[test]
fn a_case_can_describe_the_fleet_and_the_money() {
    let case = Case::read(
        r#"{"name":"n","caller":"dana","asked":4,"need":["linux"],"ceiling":3,
            "fleet":{"capable":5,"free":2,"rates":[1,8]},
            "money":{"budget":100,"spent":20,"committed":5,"window":3600},
            "facts":{"plan":"trial"},"expect":{"at_most":2}}"#,
    )
    .unwrap();
    assert_eq!((case.caller.as_str(), case.asked, case.ceiling), ("dana", 4, 3));
    assert_eq!((case.fleet.capable, case.fleet.free), (5, 2));
    assert_eq!(case.fleet.rates, vec![1, 8]);
    let money = case.money.unwrap();
    assert_eq!((money.budget, money.spent, money.committed, money.window), (100, 20, 5, 3600));
    assert_eq!(case.facts.get("plan").map(String::as_str), Some("trial"));
}

#[test]
fn an_impossible_bound_is_refused() {
    let files = [file("policy-tests/a.json", r#"{"name":"n","asked":3,"expect":{"at_least":4}}"#)];
    let e = load("policy-tests", Some(&files)).unwrap_err();
    assert!(e.contains("cannot pass"), "{e}");
    assert!(!expect(r#"{"count":2}"#).possible(1));
    assert!(expect(r#"{"count":2}"#).possible(2));
    assert!(!expect(r#"{"verdict":"perhaps"}"#).possible(2));
}

#[test]
fn a_folder_without_cases_is_an_error() {
    assert!(load("policy-tests", None).is_err());
    assert!(load("policy-tests", Some(&[])).is_err());
    let bad = [file("a.json", "{")];
    let e = load("acme", Some(&bad)).unwrap_err();
    assert!(e.ends_with("a.json: EOF while parsing an object at line 1 column 1"), "{e}");
}

#[test]
fn cases_can_be_picked_by_name() {
    let all = || {
        read_cases(r#"[{"name":"big run","expect":{"count":1}},{"name":"nightly","expect":{"count":0}}]"#)
            .unwrap()
    };
    assert_eq!(select(all(), None).unwrap().len(), 2);
    assert_eq!(select(all(), Some("night")).unwrap()[0].name, "nightly");
    assert_eq!(select(all(), Some("never")).unwrap_err(), "no case matches \"never\"");
}

#[test]
fn a_case_is_weighed_as_a_plea_would_be() {
    let text = "```yaml\nstanding_limit: 2\nmax_limit: 9\nreservation_seconds: 60\n```\n";
    let policy = Policy::from_text("policy.md".into(), text.into()).unwrap();
    let book = Rulebook::from_files(&[file("policy.md", text)]).unwrap();
    let case = Case::read(
        r#"{"name":"n","asked":6,"ceiling":3,"fleet":{"capable":5,"free":5,"rates":[1,1,1,1,1]},
            "expect":{"count":3}}"#,
    )
    .unwrap();
    let asked = ask(&book, &policy, &case);
    assert_eq!((asked.advice.standing, asked.advice.declared.count), (2, 6));
    let said = Opinion { verdict: "allow".into(), count: 6, rationale: "fine".into() };
    let w = weigh(&asked.advice, asked.limit, said);
    assert_eq!(w.allowed, 3);
    assert!(judge(&case, &w, 1, 1).is_ok());

    let none = Opinion { verdict: "deny".into(), count: 0, rationale: "no".into() };
    let w = weigh(&asked.advice, asked.limit, none);
    let why = judge(&case, &w, 2, 3).unwrap_err();
    assert!(why.starts_with("expected 3, got 0 (run 2 of 3)\n"), "{why}");
    assert!(why.ends_with("it said: no"), "{why}");
}

#[test]
fn a_run_is_told_line_by_line() {
    assert_eq!(head(2, "policy-tests", 3), "2 case(s) against policy-tests, 3 times each");
    assert_eq!(head(2, "policy-tests", 1), "2 case(s) against policy-tests");
    assert_eq!(tell("n", &Ok(())), "  ok    n");
    assert_eq!(tell("n", &Err("x".into())), "  FAIL  n\n          x");
    assert_eq!(close(0), "\nall good");
    assert_eq!(close(2), "\n2 case(s) failed");
}

#[test]
fn a_case_may_be_a_list_and_names_nothing_twice() {
    let case = Case::read(
        r#"["n", "dana", 4, ["linux"], {}, {"plan":"trial","plan":"team"}, [5, 2, [1, 8]],
            [100, 20], 3, [null, 2]]"#,
    )
    .unwrap();
    assert_eq!((case.name.as_str(), case.caller.as_str(), case.asked), ("n", "dana", 4));
    assert_eq!((case.fleet.capable, case.fleet.free, case.ceiling), (5, 2, 3));
    assert_eq!(case.facts.get("plan").map(String::as_str), Some("team"));
    let money = case.money.unwrap();
    assert_eq!((money.budget, money.spent, money.committed, money.window), (100, 20, 0, 86_400));
    assert_eq!((case.expect.count, case.expect.at_most), (None, Some(2)));

    assert!(Case::read(r#"["n", "dana", 4]"#).is_none());
    assert!(Case::read(r#"{"name":"n","expect":{"count":1},"expect":{"count":2}}"#).is_none());
    assert!(Case::read(r#"{"name":"n","expect":{"count":1,"count":2}}"#).is_none());
    assert!(Case::read(r#"{"note":1,"name":"n","note":2,"expect":{"count":1}}"#).is_some());
    let all = r#"[{"name":"n","expect":{"count":1}}, {"name":"m","name":"m","expect":{"count":1}}]"#;
    assert!(read_cases(all).is_none());
}

#[test]
fn what_a_case_does_not_know_is_passed_over() {
    let all = r#"[{"name":"n","note":1e999,"expect":{"count":1,"why":"\ud800"}}]"#;
    assert_eq!(read_cases(all).unwrap()[0].expect.count, Some(1));
    assert!(Case::read(r#"{"name":"n","asked":1e999,"expect":{"count":1}}"#).is_none());
}

#[test]
fn a_case_is_asked_as_often_as_wanted_and_once_at_least() {
    for (repeat, times) in [(0, 1), (1, 1), (3, 3)] {
        let mut attempts = Vec::new();
        let mut at = 0;
        while let Some(next) = next_attempt(at, repeat) {
            attempts.push(next);
            at = next;
        }
        assert_eq!(attempts, (1..=times).collect::<Vec<u32>>());
    }
    assert_eq!(next_attempt(u32::MAX, u32::MAX), None);
}
