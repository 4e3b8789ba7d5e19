use cyberium::directory::Folders;
use cyberium::fleet;
use cyberium::policy::STARTER;
use cyberium::proto::{PolicyFile, Upload};
use cyberium::session::may_replace;
use cyberium::sight::{show_added, show_tenant};
use cyberium::table::Table;
use cyberium::upload::accept;
use cyberium::tenant::{read, Found, Tenant, Tenants, Terms, DIR, FILE};

const ROOT: &str = "/srv/cm";

/// What is found of a tenant with a policy of its own.
fn with_policy(alias: &str, terms: Option<Terms>, policy: &str) -> Found {
    let files = [PolicyFile { path: "policy.md".into(), text: policy.into() }];
    let at = format!("{ROOT}/tenants/{alias}/policy.md");
    Found { name: alias.into(), read: read(alias, terms, at, policy.into(), &files) }
}

/// What is found of a tenant that was just added.
fn added(alias: &str, terms: Terms) -> Found {
    with_policy(alias, Some(terms), STARTER)
}

/// What is found of a tenant whose terms could not be read.
fn broken(alias: &str) -> Found {
    Found {
        name: alias.into(),
        read: Err(format!("{ROOT}/tenants/{alias}/tenant.toml: expected a number")),
    }
}

fn team(members: &[&str]) -> Terms {
    Terms { ceiling: 5, members: members.iter().map(|m| (*m).into()).collect(), ..Terms::default() }
}

fn load(list: Vec<Found>) -> Tenants {
    match Tenants::load(ROOT, list) {
        Ok(tenants) => tenants,
        Err(why) => panic!("{why}"),
    }
}

#[test]
fn adding_a_tenant_gives_them_something_to_edit() {
    let dir = Tenants::add(ROOT, "acme", false).unwrap();
    assert_eq!(dir, "/srv/cm/tenants/acme");
    let found = added("acme", Terms::default());
    // A starter policy, or every plea refuses.
    assert_eq!(found.read.as_ref().unwrap().policy.path, "/srv/cm/tenants/acme/policy.md");

    let tenants = load(vec![found]);
    assert_eq!(tenants.names(), vec!["acme"]);
}

#[test]
fn a_malformed_terms_file_does_not_become_default_terms() {
    let tenants = load(vec![broken("acme")]);
    assert!(tenants.by_name("acme").is_none(), "it loaded on defaults");
    // And the operator can find out why without reading a log.
    let unread = tenants.unread();
    assert_eq!(unread.len(), 1);
    assert_eq!(unread[0].0, "acme");
    assert!(unread[0].1.contains("tenant.toml"), "{:?}", unread[0].1);
}

#[test]
fn one_tenants_typo_does_not_stop_the_others() {
    let good = added("good", Terms { ceiling: 3, ..Terms::default() });
    let tenants = load(vec![good, broken("bad")]);
    assert!(tenants.by_name("good").is_some());
    assert!(tenants.by_name("bad").is_none());
}

#[test]
fn a_tenant_is_never_silently_replaced() {
    assert!(Tenants::add(ROOT, "acme", false).is_ok());
    let err = Tenants::add(ROOT, "acme", true).unwrap_err();
    assert!(err.contains("already exists"), "{err}");
}

#[test]
fn a_name_that_would_surprise_a_filesystem_is_refused() {
    for bad in ["../escape", "Acme", "a name", "acme/x"] {
        assert!(Tenants::add(ROOT, bad, false).is_err(), "{bad:?}");
    }
}

#[test]
fn the_ceiling_cuts_what_policy_allowed() {
    let tenants = load(vec![added("acme", Terms { ceiling: 4, ..Terms::default() })]);
    let tenant = tenants.for_caller("acme").unwrap();
    // The host's number, not the tenant's.
    assert_eq!(tenant.ceiling(), 4);
}

#[test]
fn missing_terms_are_modest_not_unlimited() {
    let tenants = load(vec![with_policy("acme", None, STARTER)]);
    let tenant = tenants.for_caller("acme").unwrap();
    assert_eq!(tenant.terms.ceiling, Terms::default().ceiling);
    assert_eq!(tenant.ceiling(), Terms::default().ceiling);
    assert_eq!(tenant.ceiling(), 10);
}

#[test]
fn a_tenants_name_is_not_a_caller_lookup() {
    let tenants = load(vec![added("payments", team(&["dana"]))]);
    assert!(tenants.by_name("payments").is_some(), "administration finds it");
    assert!(tenants.for_caller("payments").is_none(), "no caller is called that");
    assert!(tenants.for_caller("dana").is_some(), "its member is");
}

#[test]
fn a_tenant_can_be_a_team() {
    let tenants = load(vec![added("payments", team(&["dana", "kiran"]))]);
    assert_eq!(tenants.for_caller("dana").unwrap().alias, "payments");
    assert_eq!(tenants.for_caller("kiran").unwrap().alias, "payments");
    // Both spend the same budget, which is the point of grouping them.
    assert_eq!(tenants.for_caller("kiran").unwrap().terms.ceiling, 5);
    // And the tenant's own name is not a caller unless it was listed.
    assert!(tenants.for_caller("payments").is_none());
}

#[test]
fn no_members_means_the_tenants_own_name() {
    let tenants = load(vec![added("acme", Terms::default())]);
    assert_eq!(tenants.for_caller("acme").unwrap().alias, "acme");
}

#[test]
fn two_tenants_cannot_claim_one_caller() {
    let text = Tenants::load(
        ROOT,
        vec![added("payments", team(&["dana"])), added("platform", team(&["dana"]))],
    )
    .err()
    .unwrap();
    assert!(text.contains("dana"), "{text}");
    assert!(text.contains("whose budget"), "{text}");
}

#[test]
fn an_unknown_caller_has_no_tenant() {
    let tenants = load(vec![added("acme", Terms::default())]);
    assert!(tenants.for_caller("somebody-else").is_none());
}

#[test]
fn a_tenant_added_later_is_picked_up_without_a_restart() {
    let mut tenants = load(vec![]);
    assert_eq!(tenants.len(), 0);
    assert!(tenants.is_empty());
    assert!(tenants.for_caller("late").is_none());

    tenants.rescan(vec![added("late", Terms::default())]).unwrap();
    assert!(tenants.for_caller("late").is_some(), "no restart should be needed");
}

#[test]
fn a_typo_keeps_the_last_good_copy() {
    let mut tenants = load(vec![added("acme", Terms { ceiling: 4, ..Terms::default() })]);
    tenants.refresh("acme", Err("tenant.toml: expected a number".into()));
    assert_eq!(tenants.by_name("acme").unwrap().ceiling(), 4);
    assert_eq!(
        tenants.unread(),
        vec![("acme".to_string(), "tenant.toml: expected a number".to_string())]
    );

    // And a copy that reads again takes its place.
    let fixed = added("acme", Terms { ceiling: 6, ..Terms::default() }).read;
    tenants.refresh("acme", fixed);
    assert_eq!(tenants.by_name("acme").unwrap().ceiling(), 6);

    // And nothing is remembered against it, nor when everything is read again.
    assert!(tenants.unread().is_empty());
    tenants.refresh("acme", Err("tenant.toml: expected a number".into()));
    assert_eq!(tenants.unread().len(), 1);
    tenants.rescan(vec![added("acme", Terms { ceiling: 6, ..Terms::default() })]).unwrap();
    assert!(tenants.unread().is_empty());
}

#[test]
fn a_policy_is_kept_with_the_place_it_stands_in() {
    let tenants = load(vec![with_policy("acme", None, "Be kind.")]);
    let policy = &tenants.by_name("acme").unwrap().policy;
    assert_eq!(policy.path, "/srv/cm/tenants/acme/policy.md");
    assert_eq!(policy.text, "Be kind.");
}

#[test]
fn a_rescan_that_would_share_a_caller_changes_nobody() {
    let mut tenants = load(vec![added("payments", team(&["dana"]))]);
    let e = tenants
        .rescan(vec![added("payments", team(&["dana"])), added("platform", team(&["dana"]))])
        .unwrap_err();
    assert!(e.contains("whose budget"), "{e}");
    assert_eq!(tenants.for_caller("dana").unwrap().alias, "payments");
}

fn one(terms: Terms, policy: &str) -> Tenant {
    with_policy("acme", Some(terms), policy).read.unwrap()
}

#[test]
fn a_tenant_cannot_enlarge_its_budget() {
    let host = || Terms { credits: Some(60), window: Some(3600), ..Terms::default() };
    let more = one(host(), "```yaml\ndaily_budget: 500\n```");
    assert_eq!(more.budget(), Some((60, 3600)));
    let less = one(host(), "```yaml\ndaily_budget: 20\n```");
    assert_eq!(less.budget(), Some((20, 86_400)));
    let unset = one(Terms::default(), "```yaml\ndaily_budget: 500\n```");
    assert_eq!(unset.budget(), Some((500, 86_400)));
    assert_eq!(one(Terms::default(), "prose").budget(), None);
}

#[test]
fn an_admin_is_a_member_and_nobody_else_writes() {
    let terms = Terms { admins: vec!["ops".into()], ..team(&["dana"]) };
    let t = one(terms, STARTER);
    assert!(t.members().contains(&"ops".to_string()));
    assert!(t.may_write("ops") && !t.may_write("dana"));
    assert_eq!(t.admins(), vec!["ops"]);
    assert!(!one(Terms::default(), STARTER).may_write("acme"));
}

#[test]
fn a_policy_that_cannot_be_read_makes_the_tenant_unreadable() {
    let found = with_policy("acme", None, "```yaml\nstanding_limit: lots\n```");
    assert!(found.read.is_err());
}

#[test]
fn the_folder_and_the_terms_have_names() {
    assert_eq!((DIR, FILE), ("tenants", "tenant.toml"));
    assert_eq!(Tenants::dir_in(ROOT), "/srv/cm/tenants");
}

#[test]
fn a_tenant_is_shown_on_one_line() {
    let terms = Terms { credits: Some(60), window: Some(3600), note: Some("trial".into()), ..team(&["dana", "kiran"]) };
    let t = one(terms, "```yaml\nreservation_seconds: 60\n```");
    assert_eq!(
        show_tenant(&t),
        "  acme             ceiling 5     grants last 60s    budget 60/3600s       members dana,kiran  — trial"
    );
    let lines = show_added(&t, "/srv/cm/tenants/acme");
    assert_eq!(lines[0], "tenant `acme` at /srv/cm/tenants/acme");
    assert_eq!(lines[3], "  budget   60 credit(s) per rolling 3600s");
    assert_eq!(lines[5], "  you own  /srv/cm/tenants/acme/tenant.toml");
}

// ---------------------------------------------------------------------------
// the directory
// ---------------------------------------------------------------------------

fn folders(terms: Terms, policy: &str) -> Folders {
    match Folders::load(ROOT, vec![with_policy("acme", Some(terms), policy)]) {
        Ok(folders) => folders,
        Err(why) => panic!("{why}"),
    }
}

#[test]
fn a_lookup_carries_everything_one_decision_needs() {
    let mut facts = Table::new();
    facts.insert("plan".into(), "trial".into());
    let dir = folders(
        Terms {
            ceiling: 3,
            members: vec!["dana".into()],
            admins: vec!["dana".into()],
            credits: Some(60),
            window: Some(3600),
            facts,
            note: None,
        },
        "```yaml\nstanding_limit: 2\nmax_limit: 9\nreservation_seconds: 60\n```\n\nBe reasonable.\n",
    );
    let t = dir.look_up("dana").unwrap();
    assert_eq!(t.tenant, "acme");
    assert!(t.may_ask && t.may_write);
    assert_eq!(t.standing, 2);
    // The tightest cap that applies, not the tenant's own: the host said three.
    assert_eq!(t.ceiling, 3, "the host's ceiling was not applied");
    assert_eq!(t.lifetime, 60);
    assert_eq!(t.facts.get("plan").map(String::as_str), Some("trial"));
    assert!(t.rulebook.contains("Be reasonable."), "the rules travel as text");
    let b = t.budget.unwrap();
    assert_eq!((b.credits, b.window), (60, 3600));
}

#[test]
fn a_caller_nobody_has_heard_of_is_none_not_a_refusal() {
    let dir = folders(Terms { ceiling: 3, ..Terms::default() }, "```yaml\nstanding_limit: 2\n```\n");
    assert!(dir.look_up("stranger").is_none());
}

#[test]
fn a_member_may_ask_and_may_not_write() {
    let dir = folders(
        Terms {
            ceiling: 3,
            members: vec!["dana".into(), "kiran".into()],
            admins: vec!["dana".into()],
            ..Terms::default()
        },
        "```yaml\nstanding_limit: 2\n```\n",
    );
    let kiran = dir.look_up("kiran").unwrap();
    assert!(kiran.may_ask, "a member may plead");
    assert!(!kiran.may_write, "a member may not rewrite the rules");
}

#[test]
fn absent_admins_means_nobody() {
    let policy = "```yaml\nstanding_limit: 2\n```\n";
    let members = Terms { members: vec!["dana".into()], ..Terms::default() };
    let dir = folders(members, policy);
    assert!(dir.without_admins("acme") && !dir.without_admins("elsewhere"));
    let found = dir.look_up("dana");
    assert_eq!(
        may_replace("dana", Ok(found), dir.without_admins("acme")).unwrap_err(),
        "tenant `acme` has no admins, so nobody may change its policy — the host sets them in \
         tenant.toml"
    );
    let led = Terms { admins: vec!["dana".into()], ..Terms::default() };
    assert!(!folders(led, policy).without_admins("acme"));
}

#[test]
fn the_roster_shows_a_tenant_whose_own_files_will_not_read() {
    let dir = Folders::load(ROOT, vec![broken("acme")]).ok().unwrap();
    let listed = dir.roster();
    assert_eq!(listed.len(), 1);
    assert_eq!(listed[0].tenant, "acme");
    assert!(listed[0].unread.is_some(), "an unreadable tenant vanished from the roster");
}

#[test]
fn a_member_the_policy_does_not_name_is_known_and_may_not_ask() {
    let dir = folders(team(&["dana", "kiran"]), "```yaml\nrequesters:\n  - dana\n```\n");
    assert!(dir.look_up("dana").unwrap().may_ask);
    assert!(!dir.look_up("kiran").unwrap().may_ask);
}

#[test]
fn the_ledger_is_read_as_of_now() {
    let dir = folders(Terms::default(), STARTER);
    let now = fleet::now();
    let ledger = format!("{} 7 r1 1 w1\n{} 9 r2 1 w1\n", now - 10, now - 100_000);
    assert_eq!(dir.spent(&ledger, 3600), 7);
    assert_eq!(dir.dir_of("acme"), "/srv/cm/tenants/acme");
    assert_eq!((dir.count(), dir.names()), (1, vec!["acme".to_string()]));
    assert!(dir.describe().contains("/srv/cm"), "{}", dir.describe());
}

#[test]
fn an_accepted_upload_can_be_read() {
    let up = Upload { files: vec![PolicyFile { path: "a.md".into(), text: "Be kind.".into() }] };
    let accepted = accept("/srv/cm/tenants/acme.incoming", &up).unwrap();
    let policy = accepted.files.iter().find(|f| f.path == "policy.md").unwrap().text.clone();
    let t = read("acme", None, "policy.md".into(), policy, &accepted.files).unwrap();
    assert_eq!(t.alias, "acme");
    assert!(t.rulebook.as_str().contains("Be kind."));
}
