use cyberium::nivedana::{alias_of, Nivedanas};
use cyberium::policy::{fenced_block, parse_grants, Grants, Policy, Ruling, SECOND_BLOCK, STARTER};
use cyberium::proto::{Nivedana, PolicyFile, Upload};
use cyberium::rulebook::{self, Rulebook, MOST_BYTES};
use cyberium::upload::{accept, gather, safe};

fn file(path: &str, text: &str) -> PolicyFile {
    PolicyFile { path: path.into(), text: text.into() }
}

fn pleas(files: &[(&str, &str)]) -> Result<Nivedanas, String> {
    let all: Vec<PolicyFile> = files.iter().map(|(p, t)| file(p, t)).collect();
    Nivedanas::load(&all)
}

// ---------------------------------------------------------------------------
// pleas
// ---------------------------------------------------------------------------

#[test]
fn no_directory_means_no_pleas_not_an_error() {
    assert!(pleas(&[]).unwrap().is_empty());
}

#[test]
fn a_heading_is_an_alias_and_the_prose_under_it_is_the_plea() {
    let n = pleas(&[(
        "pleas.md",
        "## Nightly Regression\n\nRoutine and never urgent.\n\n## Production incident\n\nWorth the maximum.\n",
    )])
    .unwrap();
    assert_eq!(n.aliases(), vec!["nightly-regression", "production-incident"]);
    assert_eq!(n.get("nightly-regression").unwrap().prose, "Routine and never urgent.");
    // The heading is kept as written, for showing people.
    assert_eq!(n.get("nightly-regression").unwrap().title, "Nightly Regression");
}

#[test]
fn a_plea_can_be_spelled_the_way_anyone_would_spell_it() {
    let n = pleas(&[("p.md", "# Nightly Regression\n\nRoutine.\n")]).unwrap();
    for spelling in
        ["nightly-regression", "Nightly Regression", "nightly_regression", "NIGHTLY  regression"]
    {
        assert!(n.get(spelling).is_some(), "{spelling:?}");
    }
    assert!(n.get("nightly").is_none(), "a prefix is not a match");
}

#[test]
fn pleas_may_be_split_across_files() {
    let n = pleas(&[("a.md", "## alpha\n\nfirst.\n"), ("b.md", "## beta\n\nsecond.\n")]).unwrap();
    assert_eq!(n.aliases(), vec!["alpha", "beta"]);
}

#[test]
fn two_headings_that_mean_one_alias_are_refused() {
    let e = pleas(&[("a.md", "## Big Run\n\none.\n\n## big-run\n\ntwo.\n")]).unwrap_err();
    assert!(e.contains("same plea"), "{e}");
}

#[test]
fn an_empty_heading_is_not_a_plea() {
    let n = pleas(&[("a.md", "## nothing here\n\n## real\n\nsomething.\n")]).unwrap();
    assert_eq!(n.aliases(), vec!["real"]);
}

#[test]
fn a_hash_inside_a_fence_is_not_a_heading() {
    let n =
        pleas(&[("a.md", "## deploy\n\nRun it:\n\n```sh\n# not a heading\nmake\n```\n")]).unwrap();
    assert_eq!(n.aliases(), vec!["deploy"]);
    assert!(n.get("deploy").unwrap().prose.contains("# not a heading"));
}

#[test]
fn the_catalogue_is_every_plea_in_a_stable_order() {
    let files = [("a.md", "## zeta\n\nlast.\n\n## alpha\n\nfirst.\n")];
    let once = pleas(&files).unwrap().catalogue();
    assert_eq!(once, pleas(&files).unwrap().catalogue());
    assert!(once.find("### alpha") < once.find("### zeta"), "{once}");
}

#[test]
fn an_alias_is_letters_and_digits_in_lower_case() {
    assert_eq!(alias_of("  Ärger im Lager (2)!  "), "ärger-im-lager-2");
    assert_eq!(alias_of("--- ---"), "");
}

#[test]
fn an_alias_is_its_own_alias() {
    for heading in ["  Night-ly  Run #2 ", "PROD", "a--b", "", "!?", "x9"] {
        let a = alias_of(heading);
        assert_eq!(alias_of(&a), a);
        assert!(!a.starts_with('-') && !a.ends_with('-') && !a.contains("--"), "{a}");
        let bare: String = heading.chars().filter(|c| c.is_ascii_alphanumeric()).collect();
        assert_eq!(a.replace('-', ""), bare.to_lowercase());
    }
    assert_eq!(alias_of("  Night-ly  Run #2 "), "night-ly-run-2");
}

// ---------------------------------------------------------------------------
// the policy
// ---------------------------------------------------------------------------

fn policy(text: &str) -> Policy {
    Policy {
        path: "policy.md".into(),
        text: text.to_string(),
        grants: parse_grants(text).unwrap(),
    }
}

fn plea(count: Option<u32>) -> Nivedana {
    Nivedana { count, ..Default::default() }
}

#[test]
fn the_starter_policy_parses() {
    let p = policy(STARTER);
    assert!(p.may_ask("anyone-at-all"));
    assert!(matches!(p.weigh("dana", &plea(Some(3))), Ruling::Consider { .. }));
}

#[test]
fn a_named_requester_list_excludes_others() {
    let p = policy("```yaml\nrequesters:\n  - dana\n  - kiran\nstanding_limit: 4\n```");
    assert!(p.may_ask("dana"));
    assert!(!p.may_ask("lee"));

    let denied = p.weigh("lee", &plea(Some(1)));
    assert!(matches!(denied, Ruling::Deny { .. }), "{denied:?}");
}

#[test]
fn asking_for_a_lot_is_a_question_for_the_prose_not_a_refusal() {
    let p = policy("```yaml\nrequesters:\n  - everyone\nstanding_limit: 4\n```");
    match p.weigh("dana", &plea(Some(50))) {
        Ruling::Consider { wanted, standing, ceiling } => {
            assert_eq!((wanted, standing, ceiling), (50, 4, 4));
        }
        other => panic!("expected Consider, got {other:?}"),
    }
}

#[test]
fn a_missing_grants_block_still_works() {
    let p = policy("# policy.md\n\nJust prose, no fenced block.\n");
    assert!(p.may_ask("dana"));
    assert!(matches!(p.weigh("dana", &plea(Some(1))), Ruling::Consider { .. }));
}

#[test]
fn the_org_sets_how_long_a_grant_lasts() {
    let p = policy("```yaml\nstanding_limit: 4\nreservation_seconds: 7200\n```");
    assert_eq!(p.reservation_secs(), 7200);
    // And an org that says nothing gets the default rather than no timeout.
    assert_eq!(policy("no block here").reservation_secs(), 600);
}

#[test]
fn prose_cannot_expand_entitlement_unless_the_org_said_so() {
    let p = policy("```yaml\nstanding_limit: 4\n```");
    match p.weigh("dana", &plea(Some(50))) {
        Ruling::Consider { standing, ceiling, .. } => assert_eq!((standing, ceiling), (4, 4)),
        other => panic!("expected Consider, got {other:?}"),
    }
}

#[test]
fn the_prose_decides_every_plea_not_only_the_large_ones() {
    let p = policy("```yaml\nstanding_limit: 4\nmax_limit: 20\n```");
    for asked in [1, 3, 4, 12, 50] {
        match p.weigh("dana", &plea(Some(asked))) {
            Ruling::Consider { wanted, standing, ceiling } => {
                assert_eq!((wanted, standing, ceiling), (asked, 4, 20));
            }
            other => panic!("expected Consider for {asked}, got {other:?}"),
        }
    }
}

#[test]
fn a_max_below_the_standing_limit_is_ignored_not_obeyed() {
    let p = policy("```yaml\nstanding_limit: 10\nmax_limit: 5\n```");
    match p.weigh("dana", &plea(Some(50))) {
        Ruling::Consider { standing, ceiling, .. } => assert_eq!((standing, ceiling), (10, 10)),
        other => panic!("expected Consider, got {other:?}"),
    }
}

#[test]
fn a_bad_limit_is_an_error_not_a_default() {
    assert!(parse_grants("```yaml\nstanding_limit: lots\n```").is_err());
}

#[test]
fn what_is_no_number_says_why() {
    for (line, why) in [
        ("standing_limit: lots", "standing_limit: \"lots\" is not a number: invalid digit found in string"),
        (
            "max_limit:",
            "max_limit: \"\" is not a number: cannot parse integer from empty string",
        ),
        (
            "max_limit: 4294967296",
            "max_limit: \"4294967296\" is not a number: number too large to fit in target type",
        ),
        (
            "daily_budget: +",
            "daily_budget: \"+\" is not a number of credits: invalid digit found in string",
        ),
        (
            "budget_window: -1",
            "budget_window: \"-1\" is not a number of seconds: invalid digit found in string",
        ),
        (
            "reservation_seconds: 99999999999999999999x",
            "reservation_seconds: \"99999999999999999999x\" is not a number: number too large \
             to fit in target type",
        ),
    ] {
        assert_eq!(parse_grants(&format!("```yaml\n{line}\n```")).unwrap_err(), why);
    }
    // The words are those that the standard library has for the same text.
    for bad in ["", "+", "-", "x", "1x", "+1x", "4294967296", "42949672961x", "-1", "1 2"] {
        let own = cyberium::text::number_fault(bad, u32::MAX as u64);
        assert_eq!(own, bad.parse::<u32>().unwrap_err().to_string(), "{bad}");
    }
}

#[test]
fn no_count_asks_for_one() {
    let p = policy(STARTER);
    match p.weigh("dana", &plea(None)) {
        Ruling::Consider { wanted, .. } => assert_eq!(wanted, 1),
        other => panic!("expected Consider, got {other:?}"),
    }
}

#[test]
fn a_comment_may_follow_a_value() {
    let g = parse_grants(
        "```yaml\n\
         standing_limit: 2      # what this org calls an ordinary request\n\
         max_limit: 4           # the most any interpretation may grant. Absent means it\n\
         \u{20}                      # may lower a number but never raise one.\n\
         ```",
    )
    .unwrap();
    assert_eq!((g.standing_limit, g.max_limit), (2, Some(4)));
    let g = parse_grants(
        "```yaml\n# all of it\nrequesters:   # by name\n  - dana # on call\n  - ci#7\n\
         reservation_seconds: 60\t# a minute\ndaily_budget: 500 # credits\n\
         budget_window: 3600 #\n```",
    )
    .unwrap();
    assert_eq!(g.requesters, vec!["dana", "ci#7"]);
    assert_eq!(g.reservation_seconds, 60);
    assert_eq!((g.daily_budget, g.budget_window), (Some(500), Some(3600)));
    let one = parse_grants("```yaml\nrequesters: [everyone] # all\n```").unwrap();
    let same = parse_grants("```yaml\nrequesters: [everyone]\n```").unwrap();
    assert_eq!(one.requesters, same.requesters);
    for bad in ["2# two", "# two", "two # 2"] {
        assert!(parse_grants(&format!("```yaml\nmax_limit: {bad}\n```")).is_err(), "{bad}");
    }
}

#[test]
fn a_budget_is_what_the_block_says() {
    let p = policy("```yaml\ndaily_budget: 500\n```");
    assert_eq!(p.budget(), Some((500, 86_400)));
    let w = policy("```yaml\ndaily_budget: 500\nbudget_window: 3600\n```");
    assert_eq!(w.budget(), Some((500, 3600)));
    assert_eq!(policy("prose").budget(), None);
}

#[test]
fn only_one_yaml_block_is_read() {
    let two = "```yaml\nstanding_limit: 4\n```\n\n```yaml\nstanding_limit: 40\n```\n";
    assert_eq!(parse_grants(two).unwrap_err(), SECOND_BLOCK);
}

#[test]
fn a_block_is_what_stands_between_its_fences() {
    let (block, rest) = fenced_block("a\n```yaml\nb: 1\n```\nc", "yaml").unwrap();
    assert_eq!(block.trim(), "b: 1");
    assert_eq!(rest.trim(), "c");
    assert!(fenced_block("a\n```yaml\nb: 1\n", "yaml").is_none());
}

#[test]
fn an_organisation_that_wrote_no_numbers_gets_the_defaults() {
    let g = Grants::default();
    assert_eq!(g.requesters, vec!["everyone"]);
    assert_eq!(g.reservation_seconds, 600);
    assert_eq!(g.standing_limit, parse_grants("no block").unwrap().standing_limit);
}

// ---------------------------------------------------------------------------
// the rulebook
// ---------------------------------------------------------------------------

fn book(files: &[(&str, &str)]) -> Result<Rulebook, String> {
    let all: Vec<PolicyFile> = files.iter().map(|(p, t)| file(p, t)).collect();
    Rulebook::from_files(&all)
}

#[test]
fn the_tree_and_every_file_arrive_together() {
    let book = book(&[
        ("policy.md", "Be reasonable."),
        ("nivedanas/routine.md", "## nightly\n\nRoutine."),
    ])
    .unwrap();
    let text = book.as_str();
    assert!(text.contains("policy.md"), "{text}");
    assert!(text.contains("nivedanas/routine.md"), "{text}");
    assert!(text.contains("Be reasonable."), "{text}");
    assert!(text.contains("Routine."), "{text}");
}

#[test]
fn a_folder_inside_a_folder_is_not_silently_dropped() {
    let book = book(&[("nivedanas/noisy-users/big.md", "## bisect\n\nSlow.")]).unwrap();
    let text = book.as_str();
    assert!(text.contains("nivedanas/noisy-users/big.md"), "{text}");
    assert!(text.contains("Slow."), "{text}");
}

#[test]
fn the_layout_is_reported_and_not_interpreted() {
    let book = book(&[("noisy-users/big.md", "## bisect everything\n\nSlow.")]).unwrap();
    let text = book.as_str();
    assert!(text.contains("noisy-users/big.md"), "the path is a fact: {text}");
    assert!(!text.contains("group"), "cm adds no vocabulary of its own: {text}");
}

#[test]
fn the_hosts_own_terms_are_not_shown_as_the_tenants_writing() {
    let book = book(&[
        ("tenant.toml", "ceiling = 3\n"),
        ("spend.log", "1755000000 5\n"),
        ("policy.md", "Mine."),
    ])
    .unwrap();
    let text = book.as_str();
    assert!(text.contains("Mine."));
    assert!(!text.contains("ceiling = 3"), "{text}");
    assert!(!text.contains("1755000000"), "the ledger is state, not a rule");
}

#[test]
fn an_empty_folder_renders_to_nothing_rather_than_an_empty_heading() {
    assert!(book(&[]).unwrap().as_str().is_empty());
    assert!(Rulebook::default().as_str().is_empty());
}

#[test]
fn the_same_folder_renders_identically_every_time() {
    let once = book(&[("b.md", "second"), ("a.md", "first")]).unwrap();
    let again = book(&[("a.md", "first"), ("b.md", "second")]).unwrap();
    assert_eq!(once.as_str(), again.as_str());
    assert!(once.as_str().find("a.md") < once.as_str().find("b.md"), "sorted: {}", once.as_str());
}

#[test]
fn a_folder_too_big_to_weigh_is_an_error_not_a_truncation() {
    let huge = "x".repeat(MOST_BYTES as usize + 1);
    let e = book(&[("huge.md", &huge)]).unwrap_err();
    assert!(e.contains("over the"), "{e}");
}

#[test]
fn a_rulebook_is_the_tree_and_then_the_contents() {
    let text = book(&[("policy.md", "Be reasonable.\n"), ("a/b.md", "## x\n\ny\n")]).unwrap();
    assert_eq!(
        text.as_str(),
        "FILES\n  a/b.md\n  policy.md\n\nCONTENTS\n--- a/b.md ---\n## x\n\ny\n\n--- policy.md ---\nBe reasonable.\n\n"
    );
}

#[test]
fn a_test_of_the_policy_is_not_the_policy() {
    assert!(!rulebook::shown("policy-tests/c.json"));
    assert!(!rulebook::shown("deep/policy-tests/c.json"));
    assert!(!rulebook::shown(".hidden/policy.md"));
    assert!(!rulebook::shown("picture.png"));
    assert!(rulebook::shown("deep/policy.md"));
}

// ---------------------------------------------------------------------------
// uploading one
// ---------------------------------------------------------------------------

#[test]
fn a_path_that_could_leave_the_folder_is_refused() {
    for bad in ["../escaped.md", "nivedanas/../../escaped.md", "/etc/passwd", "./x/../../y.md", ""] {
        assert!(safe(bad).is_err(), "{bad:?} was accepted");
    }
}

#[test]
fn a_subdirectory_is_fine_because_people_use_them() {
    assert_eq!(safe("policy.md").unwrap(), "policy.md");
    assert_eq!(safe("nivedanas/support/escalation.md").unwrap(), "nivedanas/support/escalation.md");
}

#[test]
fn the_hosts_own_files_cannot_be_uploaded_over() {
    assert!(safe("tenant.toml").is_err());
    assert!(safe("spend.log").is_err());
}

#[test]
fn a_hidden_file_is_refused() {
    assert!(safe(".secret.md").is_err());
    assert!(safe("nivedanas/.hidden.md").is_err());
}

#[test]
fn accepting_replaces_rather_than_merges() {
    // What comes back is the whole folder. What was there and is not named is gone, and
    // the host's own files cannot be named.
    let accepted = accept(
        "/srv/staging",
        &Upload { files: vec![file("policy.md", "new"), file("nivedanas/a.md", "## x\n\ny")] },
    )
    .unwrap();
    assert_eq!(accepted.written, vec!["nivedanas/a.md", "policy.md"]);
    let mut held: Vec<(&str, &str)> =
        accepted.files.iter().map(|f| (f.path.as_str(), f.text.as_str())).collect();
    held.sort();
    assert_eq!(held, vec![("nivedanas/a.md", "## x\n\ny"), ("policy.md", "new")]);
}

#[test]
fn an_unreadable_policy_is_refused_before_it_replaces_a_working_one() {
    let e = accept(
        "/srv/staging",
        &Upload { files: vec![file("policy.md", "```yaml\nstanding_limit: lots\n```")] },
    )
    .unwrap_err();
    assert!(e.contains("could not be read"), "{e}");
}

#[test]
fn an_empty_upload_is_refused() {
    assert!(accept("/srv/staging", &Upload { files: vec![] }).is_err());
}

#[test]
fn gathering_leaves_the_tests_and_the_hosts_files_at_home() {
    let all = [
        file("policy.md", "mine"),
        file("tenant.toml", "ceiling = 3"),
        file("policy-tests/c.json", "[]"),
        file("nivedanas/x.md", "## a\n\nb"),
    ];
    let paths: Vec<String> =
        gather("/home/dana/policy", &all).unwrap().files.into_iter().map(|f| f.path).collect();
    assert_eq!(paths, vec!["nivedanas/x.md", "policy.md"]);
}

#[test]
fn a_folder_with_nothing_to_send_is_an_error() {
    let e = gather("/home/dana/empty", &[file("tenant.toml", "ceiling = 3")]).unwrap_err();
    assert_eq!(e, "/home/dana/empty has no policy files in it");
}

#[test]
fn an_upload_too_big_to_weigh_is_refused() {
    let huge = "x".repeat(MOST_BYTES as usize + 1);
    let e = accept("/srv/staging", &Upload { files: vec![file("policy.md", &huge)] }).unwrap_err();
    assert_eq!(e, "262145 bytes, over the 262144 that can be weighed at once");
}

#[test]
fn only_the_block_is_read() {
    let one = parse_grants("Prose.\n```yaml\nstanding_limit: 4\n```\nstanding_limit: 9\n").unwrap();
    let other = parse_grants("```yaml\nstanding_limit: 4\n```").unwrap();
    assert_eq!(one.standing_limit, 4);
    assert_eq!(one.requesters, other.requesters);
    assert_eq!(one.requesters, vec!["everyone"], "somebody may always ask");
}

#[test]
fn what_is_sent_is_accepted() {
    let all = [file("policy.md", "mine"), file("a/b/c/d.md", "deep"), file("a/b/c/d/e.md", "deeper")];
    let up = gather("/home/dana/policy", &all).unwrap();
    let sent: Vec<&str> = up.files.iter().map(|f| f.path.as_str()).collect();
    assert_eq!(sent, vec!["a/b/c/d.md", "policy.md"]);
    assert!(accept("/srv/staging", &up).is_ok());
}

#[test]
fn an_upload_without_a_policy_gets_the_starter() {
    let accepted = accept("/srv/staging", &Upload { files: vec![file("a.md", "x")] }).unwrap();
    assert_eq!(accepted.written, vec!["a.md"]);
    assert!(accepted.files.iter().any(|f| f.path == "policy.md" && f.text == STARTER));
}
