//! What an operator is shown, and what a caller is told of itself.
//!
//! Rendered here rather than shipped as structures: an operator's view is the one place where
//! holders' aliases and machine names appear together, and none of it is on a path to a
//! caller.

use vstd::prelude::*;
use vstd::string::*;

use crate::admin;
use crate::admin::{Admin, AdminView, Admins};
use crate::attest::Issuers;
use crate::budget::Room;
use crate::controller::Caller;
use crate::directory;
use crate::directory::{Listed, ListedView};
use crate::enrolled;
use crate::enrolled::{EnrolledView, Keys};
use crate::fleet;
use crate::fleet::{Fleet, FleetView, Reservation, ReservationView, Worker, WorkerView};
use crate::path;
use crate::table;
use crate::tenant;
use crate::tenant::{Tenant, TenantView};
use crate::text;
use crate::Config;

verus! {

// ---------------------------------------------------------------------------
// the fleet
// ---------------------------------------------------------------------------

pub open spec fn fleet_line(f: FleetView) -> Seq<char> {
    text::decimal_of((f.workers.dom().len() as u32) as nat) + " machine(s), "@ + text::decimal_of(
        (f.free_count() as u32) as nat,
    ) + " free, can "@ + text::list_of(f.abilities())
}

pub open spec fn worker_line(w: WorkerView) -> Seq<char> {
    "  "@ + text::widened(w.name, 12) + " "@ + text::indented(text::decimal_of(w.rate as nat), 3)
        + " credit(s)/min  can "@ + text::list_of(w.capabilities) + "  "@ + match w.held_by {
        None => "idle"@,
        Some(id) => "held by "@ + id,
    }
}

pub open spec fn worker_lines(rows: Seq<(Seq<char>, WorkerView)>) -> Seq<Seq<char>> {
    rows.map_values(|e: (Seq<char>, WorkerView)| worker_line(e.1))
}

fn show_worker(w: &Worker) -> (r: String)
    ensures
        r@ == worker_line(w@),
{
    let mut r = String::from_str("  ");
    r.append(text::widen(w.name.as_str(), 12).as_str());
    r.append(" ");
    r.append(text::indent(text::decimal(w.rate as u64).as_str(), 3).as_str());
    r.append(" credit(s)/min  can ");
    r.append(text::list(w.capabilities.as_slice()).as_str());
    r.append("  ");
    match &w.held_by {
        None => r.append("idle"),
        Some(id) => {
            let mut held = String::from_str("held by ");
            held.append(id.as_str());
            r.append(held.as_str());
        },
    }
    r
}

/// Every machine, what it costs, what it can do and who holds it.
pub fn show_fleet(f: &Fleet) -> (r: Vec<String>)
    requires
        f.wf(),
    ensures
        text::texts(r@) == seq![fleet_line(f@)] + worker_lines(table::row_of(f@.workers)),
{
    let (machines, free, capabilities) = f.summary();
    let mut head = text::decimal(machines as u64);
    head.append(" machine(s), ");
    head.append(text::decimal(free as u64).as_str());
    head.append(" free, can ");
    head.append(text::list(capabilities.as_slice()).as_str());
    let mut lines: Vec<String> = Vec::new();
    assert(text::texts(lines@) =~= Seq::<Seq<char>>::empty());
    text::note(&mut lines, head);
    let workers = f.workers();
    let ghost rows = table::row_of(f@.workers);
    let ghost whole = worker_lines(rows);
    assert(text::texts(lines@) =~= seq![fleet_line(f@)] + whole.take(0));
    for i in 0..workers.len()
        invariant
            rows == fleet::roster(workers@),
            whole == worker_lines(rows),
            text::texts(lines@) == seq![fleet_line(f@)] + whole.take(i as int),
    {
        assert(rows[i as int].1 == workers@[i as int]@);
        text::note(&mut lines, show_worker(workers[i]));
        assert(whole.take(i as int + 1) =~= whole.take(i as int).push(whole[i as int]));
        assert(text::texts(lines@) =~= seq![fleet_line(f@)] + whole.take(i as int + 1));
    }
    assert(whole.take(whole.len() as int) =~= whole);
    lines
}

// ---------------------------------------------------------------------------
// reservations
// ---------------------------------------------------------------------------

pub open spec fn reservation_line(r: ReservationView, now: u64) -> Seq<char> {
    "  "@ + text::widened(r.id, 6) + " "@ + text::widened(r.alias, 12) + " "@ + text::decimal_of(
        r.workers.len(),
    ) + " machine(s), "@ + text::decimal_of(
        if r.expires_at > now {
            (r.expires_at - now) as nat
        } else {
            0
        },
    ) + "s left"@
}

pub open spec fn reservation_lines(rows: Seq<(Seq<char>, ReservationView)>, now: u64) -> Seq<
    Seq<char>,
> {
    if rows.len() == 0 {
        seq!["nothing is held"@]
    } else {
        rows.map_values(|e: (Seq<char>, ReservationView)| reservation_line(e.1, now))
    }
}

fn show_reservation(r: &Reservation, now: u64) -> (s: String)
    ensures
        s@ == reservation_line(r@, now),
{
    let left: u64 = if r.expires_at > now { r.expires_at - now } else { 0 };
    let mut s = String::from_str("  ");
    s.append(text::widen(r.id.as_str(), 6).as_str());
    s.append(" ");
    s.append(text::widen(r.alias.as_str(), 12).as_str());
    s.append(" ");
    s.append(text::decimal(r.workers.len() as u64).as_str());
    s.append(" machine(s), ");
    s.append(text::decimal(left).as_str());
    s.append("s left");
    s
}

/// What is held at a moment, by whom, and for how long yet.
pub fn show_reservations_at(f: &Fleet, now: u64) -> (r: Vec<String>)
    requires
        f.wf(),
    ensures
        text::texts(r@) == reservation_lines(table::row_of(f@.reservations), now),
{
    let held = f.reservations();
    let ghost rows = table::row_of(f@.reservations);
    let mut lines: Vec<String> = Vec::new();
    assert(text::texts(lines@) =~= Seq::<Seq<char>>::empty());
    if held.len() == 0 {
        text::note(&mut lines, "nothing is held".to_owned());
        assert(text::texts(lines@) =~= seq!["nothing is held"@]);
        return lines;
    }
    let ghost whole = rows.map_values(
        |e: (Seq<char>, ReservationView)| reservation_line(e.1, now),
    );
    for i in 0..held.len()
        invariant
            rows == fleet::ledger(held@),
            whole == rows.map_values(
                |e: (Seq<char>, ReservationView)| reservation_line(e.1, now),
            ),
            text::texts(lines@) == whole.take(i as int),
    {
        assert(rows[i as int].1 == held@[i as int]@);
        text::note(&mut lines, show_reservation(held[i], now));
        assert(whole.take(i as int + 1) =~= whole.take(i as int).push(whole[i as int]));
    }
    assert(whole.take(whole.len() as int) =~= whole);
    assert(whole =~= reservation_lines(rows, now));
    lines
}

/// What is held now.
pub fn show_reservations(f: &Fleet) -> (r: Vec<String>)
    requires
        f.wf(),
    ensures
        exists|now: u64|
            text::texts(r@) == #[trigger] reservation_lines(table::row_of(f@.reservations), now),
{
    let now = fleet::now();
    show_reservations_at(f, now)
}

// ---------------------------------------------------------------------------
// money
// ---------------------------------------------------------------------------

/// A tenant that runs on terms that are not the ones on disk.
pub open spec fn trouble_line(l: ListedView) -> Seq<char> {
    "  !! "@ + l.tenant
        + ": configuration not read, still running on the last good copy — "@ + l.unread->0
}

pub open spec fn trouble_lines(listed: Seq<ListedView>) -> Seq<Seq<char>>
    decreases listed.len(),
{
    if listed.len() == 0 {
        Seq::empty()
    } else {
        let before = trouble_lines(listed.drop_last());
        if listed.last().unread is Some {
            before.push(trouble_line(listed.last()))
        } else {
            before
        }
    }
}

/// What one tenant has used, and what it has left. No budget is a real state, and "0 of 0"
/// would read as a tenant that may spend nothing.
pub open spec fn spend_line(l: ListedView, spent: u64, committed: nat) -> Seq<char> {
    match l.budget {
        None => "  "@ + text::widened(l.tenant, 16) + " no budget set"@,
        Some(b) => {
            let owed = fleet::at_most(committed, u64::MAX as nat) as u64;
            let room = Room { budget: b.credits, spent, committed: owed };
            "  "@ + text::widened(l.tenant, 16) + " "@ + text::decimal_of(spent as nat) + " of "@
                + text::decimal_of(b.credits as nat) + " credit(s) used, "@ + text::decimal_of(
                owed as nat,
            ) + " committed, "@ + text::decimal_of(room.remaining()) + " left"@
        },
    }
}

/// Every tenant at once. Trouble first, because it changes how to read everything under it.
pub open spec fn spend_lines(listed: Seq<ListedView>, spent: Seq<u64>, f: FleetView) -> Seq<
    Seq<char>,
> {
    (if listed.len() == 0 {
        seq!["no tenants"@]
    } else {
        Seq::empty()
    }) + trouble_lines(listed) + Seq::new(
        listed.len(),
        |i: int| spend_line(listed[i], spent[i], f.committed(listed[i].tenant)),
    )
}

fn show_spend_of(l: &Listed, spent: u64, committed: u64) -> (r: String)
    ensures
        forall|owed: nat|
            committed == fleet::at_most(owed, u64::MAX as nat) ==> r@ == #[trigger] spend_line(
                l@,
                spent,
                owed,
            ),
{
    let mut r = String::from_str("  ");
    r.append(text::widen(l.tenant.as_str(), 16).as_str());
    match l.budget {
        None => {
            r.append(" no budget set");
        },
        Some(b) => {
            let room = Room { budget: b.credits, spent, committed };
            r.append(" ");
            r.append(text::decimal(spent).as_str());
            r.append(" of ");
            r.append(text::decimal(b.credits).as_str());
            r.append(" credit(s) used, ");
            r.append(text::decimal(committed).as_str());
            r.append(" committed, ");
            r.append(text::decimal(room.left()).as_str());
            r.append(" left");
        },
    }
    r
}

/// What each tenant spent, going by what its ledger came to.
pub fn show_spend(f: &Fleet, listed: &[Listed], spent: &[u64]) -> (r: Vec<String>)
    requires
        f.wf(),
        spent@.len() == listed@.len(),
    ensures
        text::texts(r@) == spend_lines(directory::listed(listed@), spent@, f@),
{
    let ghost all = directory::listed(listed@);
    let ghost head = if all.len() == 0 {
        seq!["no tenants"@]
    } else {
        Seq::empty()
    };
    let mut lines: Vec<String> = Vec::new();
    assert(text::texts(lines@) =~= Seq::<Seq<char>>::empty());
    if listed.len() == 0 {
        text::note(&mut lines, "no tenants".to_owned());
    }
    assert(text::texts(lines@) =~= head + trouble_lines(all.take(0)));
    for i in 0..listed.len()
        invariant
            all == directory::listed(listed@),
            text::texts(lines@) == head + trouble_lines(all.take(i as int)),
    {
        assert(all.take(i as int + 1).drop_last() =~= all.take(i as int));
        assert(all.take(i as int + 1).last() == listed@[i as int]@);
        if let Some(why) = &listed[i].unread {
            let mut s = String::from_str("  !! ");
            s.append(listed[i].tenant.as_str());
            s.append(": configuration not read, still running on the last good copy — ");
            s.append(why.as_str());
            text::note(&mut lines, s);
        }
        assert(text::texts(lines@) =~= head + trouble_lines(all.take(i as int + 1)));
    }
    assert(all.take(all.len() as int) =~= all);
    let ghost first = head + trouble_lines(all);
    let ghost rest = Seq::new(
        all.len(),
        |i: int| spend_line(all[i], spent@[i], f@.committed(all[i].tenant)),
    );
    assert(text::texts(lines@) =~= first + rest.take(0));
    for i in 0..listed.len()
        invariant
            f.wf(),
            spent@.len() == listed@.len(),
            all == directory::listed(listed@),
            rest == Seq::new(
                all.len(),
                |i: int| spend_line(all[i], spent@[i], f@.committed(all[i].tenant)),
            ),
            text::texts(lines@) == first + rest.take(i as int),
    {
        assert(all[i as int] == listed@[i as int]@);
        let committed = f.committed(listed[i].tenant.as_str());
        let s = show_spend_of(&listed[i], spent[i], committed);
        assert(s@ == rest[i as int]);
        text::note(&mut lines, s);
        assert(rest.take(i as int + 1) =~= rest.take(i as int).push(rest[i as int]));
        assert(text::texts(lines@) =~= first + rest.take(i as int + 1));
    }
    assert(rest.take(rest.len() as int) =~= rest);
    assert(text::texts(lines@) =~= spend_lines(all, spent@, f@));
    lines
}

// ---------------------------------------------------------------------------
// who a caller is
// ---------------------------------------------------------------------------

pub open spec fn fact_line(fact: (Seq<char>, Seq<char>)) -> Seq<char> {
    "  "@ + fact.0 + ": "@ + fact.1
}

pub open spec fn key_line(e: EnrolledView, key: Seq<char>) -> Seq<char> {
    "  "@ + e.key + " via "@ + e.issuer + (if e.key == key {
        " (this one)"@
    } else {
        ""@
    }) + match e.note {
        Some(note) => " — "@ + note,
        None => ""@,
    }
}

pub open spec fn key_lines(mine: Seq<EnrolledView>, key: Seq<char>) -> Seq<Seq<char>> {
    if mine.len() == 0 {
        seq!["no enrolled keys — this connection proved itself another way"@]
    } else {
        mine.map_values(|e: EnrolledView| key_line(e, key))
    }
}

/// Who the controller thinks a caller is, what was vouched for, and which keys of theirs it
/// remembers.
pub open spec fn whoami_lines(
    alias: Seq<char>,
    facts: Seq<(Seq<char>, Seq<char>)>,
    mine: Seq<EnrolledView>,
    key: Seq<char>,
) -> Seq<Seq<char>> {
    seq!["you are "@ + alias] + facts.map_values(|f: (Seq<char>, Seq<char>)| fact_line(f))
        + key_lines(mine, key)
}

pub fn whoami(who: &Caller, book: &Keys, key: &str) -> (r: Vec<String>)
    ensures
        text::texts(r@) == whoami_lines(
            who.alias@,
            who.attested@,
            enrolled::of_alias(book@, who.alias@),
            key@,
        ),
{
    let mut lines: Vec<String> = Vec::new();
    assert(text::texts(lines@) =~= Seq::<Seq<char>>::empty());
    let mut s = String::from_str("you are ");
    s.append(who.alias.as_str());
    text::note(&mut lines, s);
    let ghost head = seq!["you are "@ + who.alias@];
    let ghost facts = who.attested@;
    let ghost told = facts.map_values(|f: (Seq<char>, Seq<char>)| fact_line(f));
    assert(text::texts(lines@) =~= head + told.take(0));
    let size: usize = who.attested.len();
    for i in 0..size
        invariant
            size == who.attested@.len(),
            facts == who.attested@,
            told == facts.map_values(|f: (Seq<char>, Seq<char>)| fact_line(f)),
            text::texts(lines@) == head + told.take(i as int),
    {
        let mut s = String::from_str("  ");
        s.append(who.attested.key_at(i).as_str());
        s.append(": ");
        s.append(who.attested.value_at(i).as_str());
        text::note(&mut lines, s);
        assert(told.take(i as int + 1) =~= told.take(i as int).push(told[i as int]));
        assert(text::texts(lines@) =~= head + told.take(i as int + 1));
    }
    assert(told.take(told.len() as int) =~= told);
    let mine = book.held_by(who.alias.as_str());
    let ghost held = enrolled::of_alias(book@, who.alias@);
    assert(held.len() == mine@.len());
    if mine.len() == 0 {
        text::note(
            &mut lines,
            "no enrolled keys — this connection proved itself another way".to_owned(),
        );
        assert(text::texts(lines@) =~= whoami_lines(who.alias@, facts, held, key@));
        return lines;
    }
    let ghost shown = held.map_values(|e: EnrolledView| key_line(e, key@));
    let ghost first = head + told;
    assert(text::texts(lines@) =~= first + shown.take(0));
    for i in 0..mine.len()
        invariant
            held.len() == mine@.len(),
            held == mine@.map_values(|e: &enrolled::Enrolled| e@),
            shown == held.map_values(|e: EnrolledView| key_line(e, key@)),
            text::texts(lines@) == first + shown.take(i as int),
    {
        let e = mine[i];
        assert(held[i as int] == e@);
        let mut s = String::from_str("  ");
        s.append(e.key.as_str());
        s.append(" via ");
        s.append(e.issuer.as_str());
        if text::same(e.key.as_str(), key) {
            s.append(" (this one)");
        }
        match &e.note {
            Some(note) => {
                let mut tail = String::from_str(" — ");
                tail.append(note.as_str());
                s.append(tail.as_str());
            },
            None => {},
        }
        proof {
            reveal_strlit("");
        }
        assert(s@ =~= key_line(e@, key@));
        text::note(&mut lines, s);
        assert(shown.take(i as int + 1) =~= shown.take(i as int).push(shown[i as int]));
        assert(text::texts(lines@) =~= first + shown.take(i as int + 1));
    }
    assert(shown.take(shown.len() as int) =~= shown);
    assert(text::texts(lines@) =~= whoami_lines(who.alias@, facts, held, key@));
    lines
}

// ---------------------------------------------------------------------------
// starting up
// ---------------------------------------------------------------------------

/// Who is served. A controller without tenants is correctly configured for nobody, which is
/// said because every plea will be refused until it is not.
pub open spec fn tenants_lines(roster: Result<Seq<Seq<char>>, Seq<char>>) -> Seq<Seq<char>> {
    match roster {
        Ok(names) => if names.len() == 0 {
            seq![
                "no tenants — every plea will be refused."@,
                "  add one with `cm tenant add <alias>`"@,
            ]
        } else {
            seq![
                text::decimal_of(names.len()) + " tenant(s): "@ + text::joined(names, ", "@),
            ]
        },
        Err(why) => seq!["cannot list tenants yet: "@ + why],
    }
}

/// Who may look inside.
pub open spec fn admins_line(path: Seq<char>, names: Seq<Seq<char>>) -> Seq<char> {
    if names.len() == 0 {
        "no admins in "@ + path
            + " — nobody can look inside.\n  add one with `cm admin add <name> <id52>`"@
    } else {
        text::decimal_of(names.len()) + " admin(s): "@ + text::joined(names, ", "@)
    }
}

/// What a controller says as it starts.
pub open spec fn greeting(
    name: Seq<char>,
    key: Seq<char>,
    callers: Seq<char>,
    roster: Result<Seq<Seq<char>>, Seq<char>>,
    believed: Seq<char>,
    remembered: nat,
    admins: Seq<char>,
    adviser: Seq<char>,
) -> Seq<Seq<char>> {
    seq!["controller `"@ + name + "` listening as "@ + key, "callers known from: "@ + callers]
        + tenants_lines(roster) + seq!["attestations accepted from: "@ + believed] + (if remembered
        == 0 {
        Seq::empty()
    } else {
        seq![text::decimal_of(remembered) + " enrolled key(s)"@]
    }) + seq![admins, "policy weighed by: "@ + adviser]
}

pub open spec fn tenant_names(listed: Seq<ListedView>) -> Seq<Seq<char>> {
    listed.map_values(|l: ListedView| l.tenant)
}

pub open spec fn roster_names(roster: Result<Vec<Listed>, String>) -> Result<
    Seq<Seq<char>>,
    Seq<char>,
> {
    match roster {
        Ok(listed) => Ok(tenant_names(directory::listed(listed@))),
        Err(why) => Err(why@),
    }
}

pub open spec fn admin_names(rows: Seq<(Seq<char>, AdminView)>) -> Seq<Seq<char>> {
    rows.map_values(|e: (Seq<char>, AdminView)| e.1.name)
}

fn names_of(listed: &[Listed]) -> (r: Vec<String>)
    ensures
        text::texts(r@) == tenant_names(directory::listed(listed@)),
{
    let mut names: Vec<String> = Vec::new();
    for i in 0..listed.len()
        invariant
            names@.len() == i,
            forall|k: int| 0 <= k < i ==> (#[trigger] names@[k])@ == listed@[k]@.tenant,
    {
        names.push(listed[i].tenant.clone());
    }
    assert(text::texts(names@) =~= tenant_names(directory::listed(listed@)));
    names
}

fn show_admins(admins: &Admins, path: &str) -> (r: String)
    ensures
        r@ == admins_line(path@, admin_names(admins@)),
{
    let mut names: Vec<String> = Vec::new();
    for i in 0..admins.list.len()
        invariant
            names@.len() == i,
            forall|k: int| 0 <= k < i ==> (#[trigger] names@[k])@ == admins.list@[k]@.name,
    {
        names.push(admins.list[i].name.clone());
    }
    assert(text::texts(names@) =~= admin_names(admins@));
    if names.len() == 0 {
        let mut r = String::from_str("no admins in ");
        r.append(path);
        r.append(
            " — nobody can look inside.\n  add one with `cm admin add <name> <id52>`",
        );
        return r;
    }
    let mut r = text::decimal(names.len() as u64);
    r.append(" admin(s): ");
    r.append(text::join(names.as_slice(), ", ").as_str());
    r
}

/// What a controller says as it starts: who it is, who is served, who is believed, who may
/// look inside, and who weighs.
pub fn startup(
    config: &Config,
    callers: &str,
    roster: &Result<Vec<Listed>, String>,
    issuers: &Issuers,
    remembered: &Keys,
    admins: &Admins,
    adviser: &str,
) -> (r: Vec<String>)
    ensures
        text::texts(r@) == greeting(
            config.name@,
            config.key@,
            callers@,
            roster_names(*roster),
            issuers.described(),
            remembered@.len(),
            admins_line(
                path::join_of(config.root@, admin::FILE@),
                admin_names(admins@),
            ),
            adviser@,
        ),
{
    let mut lines: Vec<String> = Vec::new();
    assert(text::texts(lines@) =~= Seq::<Seq<char>>::empty());
    let mut s = String::from_str("controller `");
    s.append(config.name.as_str());
    s.append("` listening as ");
    s.append(config.key.as_str());
    text::note(&mut lines, s);
    let mut s = String::from_str("callers known from: ");
    s.append(callers);
    text::note(&mut lines, s);
    let ghost head = seq![
        "controller `"@ + config.name@ + "` listening as "@ + config.key@,
        "callers known from: "@ + callers@,
    ];
    assert(text::texts(lines@) =~= head);
    let ghost tenants = tenants_lines(roster_names(*roster));
    match roster {
        Ok(listed) => {
            let names = names_of(listed.as_slice());
            assert(names@.len() == text::texts(names@).len());
            if names.len() == 0 {
                text::note(&mut lines, "no tenants — every plea will be refused.".to_owned());
                text::note(&mut lines, "  add one with `cm tenant add <alias>`".to_owned());
            } else {
                let mut s = text::decimal(names.len() as u64);
                s.append(" tenant(s): ");
                s.append(text::join(names.as_slice(), ", ").as_str());
                text::note(&mut lines, s);
            }
            assert(text::texts(lines@) =~= head + tenants);
        },
        Err(why) => {
            let mut s = String::from_str("cannot list tenants yet: ");
            s.append(why.as_str());
            text::note(&mut lines, s);
            assert(text::texts(lines@) =~= head + tenants);
        },
    }
    let described = issuers.describe();
    let mut s = String::from_str("attestations accepted from: ");
    s.append(described.as_str());
    text::note(&mut lines, s);
    let ghost so_far = head + tenants + seq!["attestations accepted from: "@ + described@];
    assert(text::texts(lines@) =~= so_far);
    let ghost keys = if remembered@.len() == 0 {
        Seq::empty()
    } else {
        seq![text::decimal_of(remembered@.len()) + " enrolled key(s)"@]
    };
    if !remembered.is_empty() {
        let mut s = text::decimal(remembered.len() as u64);
        s.append(" enrolled key(s)");
        text::note(&mut lines, s);
    }
    assert(text::texts(lines@) =~= so_far + keys);
    let list = Admins::path_in(config.root.as_str());
    let s = show_admins(admins, list.as_str());
    let ghost shown = s@;
    text::note(&mut lines, s);
    let mut s = String::from_str("policy weighed by: ");
    s.append(adviser);
    text::note(&mut lines, s);
    assert(text::texts(lines@) =~= so_far + keys + seq![shown, "policy weighed by: "@ + adviser@]);
    lines
}

// ---------------------------------------------------------------------------
// tenants and admins, as they stand on disk
// ---------------------------------------------------------------------------

pub open spec fn remark(note: Option<Seq<char>>) -> Seq<char> {
    match note {
        Some(note) => "  — "@ + note,
        None => ""@,
    }
}

fn show_remark(s: &mut String, note: &Option<String>)
    ensures
        final(s)@ == old(s)@ + remark(fleet::held_text(*note)),
{
    match note {
        Some(note) => {
            let mut tail = String::from_str("  — ");
            tail.append(note.as_str());
            s.append(tail.as_str());
        },
        None => {},
    }
    proof {
        reveal_strlit("");
    }
}

/// One tenant, for the host's own list.
pub open spec fn tenant_line(t: TenantView) -> Seq<char> {
    "  "@ + text::widened(t.alias, 16) + " ceiling "@ + text::widened(
        text::decimal_of(t.terms.ceiling as nat),
        5,
    ) + " grants last "@ + text::widened(
        text::decimal_of(t.grants.reservation_seconds as nat) + "s"@,
        6,
    ) + " budget "@ + text::widened(
        match t.budget() {
            Some(b) => text::decimal_of(b.0 as nat) + "/"@ + text::decimal_of(b.1 as nat) + "s"@,
            None => "none"@,
        },
        14,
    ) + " members "@ + text::joined(t.members(), ","@) + remark(t.terms.note)
}

pub fn show_tenant(t: &Tenant) -> (r: String)
    ensures
        r@ == tenant_line(t@),
{
    let mut r = String::from_str("  ");
    r.append(text::widen(t.alias.as_str(), 16).as_str());
    r.append(" ceiling ");
    r.append(text::widen(text::decimal(t.terms.ceiling as u64).as_str(), 5).as_str());
    r.append(" grants last ");
    let mut lasting = text::decimal(t.policy.reservation_secs());
    lasting.append("s");
    r.append(text::widen(lasting.as_str(), 6).as_str());
    r.append(" budget ");
    let budget = match t.budget() {
        Some((credits, window)) => {
            let mut s = text::decimal(credits);
            s.append("/");
            s.append(text::decimal(window).as_str());
            s.append("s");
            s
        },
        None => "none".to_owned(),
    };
    r.append(text::widen(budget.as_str(), 14).as_str());
    r.append(" members ");
    r.append(text::join(t.members().as_slice(), ",").as_str());
    show_remark(&mut r, &t.terms.note);
    r
}

/// What is said of a tenant that was just added and read back.
pub open spec fn added_lines(t: TenantView, dir: Seq<char>) -> Seq<Seq<char>> {
    seq![
        "tenant `"@ + t.alias + "` at "@ + dir,
        "  ceiling "@ + text::decimal_of(t.terms.ceiling as nat) + " machine(s)"@,
        "  members  "@ + text::joined(t.members(), ", "@),
        match t.budget() {
            Some(b) => "  budget   "@ + text::decimal_of(b.0 as nat) + " credit(s) per rolling "@
                + text::decimal_of(b.1 as nat) + "s"@,
            None => "  budget   none — machines are capped, spending is not"@,
        },
        "  they edit "@ + t.policy_path,
        "  you own  "@ + path::join_of(dir, tenant::FILE@),
        "a running controller will pick this up on their next plea."@,
    ]
}

pub fn show_added(t: &Tenant, dir: &str) -> (r: Vec<String>)
    ensures
        text::texts(r@) == added_lines(t@, dir@),
{
    let mut lines: Vec<String> = Vec::new();
    assert(text::texts(lines@) =~= Seq::<Seq<char>>::empty());
    let mut s = String::from_str("tenant `");
    s.append(t.alias.as_str());
    s.append("` at ");
    s.append(dir);
    text::note(&mut lines, s);
    let mut s = String::from_str("  ceiling ");
    s.append(text::decimal(t.terms.ceiling as u64).as_str());
    s.append(" machine(s)");
    text::note(&mut lines, s);
    let mut s = String::from_str("  members  ");
    s.append(text::join(t.members().as_slice(), ", ").as_str());
    text::note(&mut lines, s);
    match t.budget() {
        Some((credits, window)) => {
            let mut s = String::from_str("  budget   ");
            s.append(text::decimal(credits).as_str());
            s.append(" credit(s) per rolling ");
            s.append(text::decimal(window).as_str());
            s.append("s");
            text::note(&mut lines, s);
        },
        None => text::note(
            &mut lines,
            "  budget   none — machines are capped, spending is not".to_owned(),
        ),
    }
    let mut s = String::from_str("  they edit ");
    s.append(t.policy.path.as_str());
    text::note(&mut lines, s);
    let mut s = String::from_str("  you own  ");
    s.append(path::join(dir, tenant::FILE).as_str());
    text::note(&mut lines, s);
    text::note(
        &mut lines,
        "a running controller will pick this up on their next plea.".to_owned(),
    );
    assert(text::texts(lines@) =~= added_lines(t@, dir@));
    lines
}

/// One admin, for the host's own list.
pub open spec fn admin_line(a: AdminView) -> Seq<char> {
    "  "@ + text::widened(a.name, 16) + " "@ + a.key + remark(a.note)
}

pub fn show_admin(a: &Admin) -> (r: String)
    ensures
        r@ == admin_line(a@),
{
    let mut r = String::from_str("  ");
    r.append(text::widen(a.name.as_str(), 16).as_str());
    r.append(" ");
    r.append(a.key.as_str());
    show_remark(&mut r, &a.note);
    r
}

/// An operator sees every machine on a line of its own, in order, behind a line for the whole:
/// its name, and who holds it or that nobody does.
pub proof fn law_every_machine_is_shown(f: FleetView, i: int)
    requires
        f.wf(),
        0 <= i < table::row_of(f.workers).len(),
    ensures
        ({
            let rows = table::row_of(f.workers);
            let line = worker_lines(rows)[i];
            let w = rows[i].1;
            &&& worker_lines(rows).len() == rows.len()
            &&& text::begins(line, "  "@ + w.name)
            &&& w.held_by is None ==> text::ends(line, "  idle"@)
            &&& w.held_by matches Some(id) ==> text::ends(line, "  held by "@ + id)
            &&& text::holds(line, text::decimal_of(w.rate as nat) + " credit(s)/min  can "@)
            &&& text::holds(line, text::list_of(w.capabilities))
        }),
        fleet_line(f) == text::decimal_of((f.workers.dom().len() as u32) as nat)
            + " machine(s), "@ + text::decimal_of((f.free_count() as u32) as nat) + " free, can "@
            + text::list_of(f.abilities()),
{
    reveal_strlit("  ");
    reveal_strlit("idle");
    reveal_strlit("  idle");
    reveal_strlit("held by ");
    reveal_strlit("  held by ");
    let w = table::row_of(f.workers)[i].1;
    let rate = text::decimal_of(w.rate as nat);
    let held = match w.held_by {
        None => "idle"@,
        Some(id) => "held by "@ + id,
    };
    let line = worker_line(w);
    assert(line.take(2 + w.name.len() as int) =~= "  "@ + w.name);
    let name = "  "@ + text::widened(w.name, 12) + " "@;
    let pad = text::spaces(3 - rate.len());
    let can = " credit(s)/min  can "@;
    let list = text::list_of(w.capabilities);
    assert(text::indented(rate, 3) =~= pad + rate);
    assert(line =~= (name + pad) + (rate + can) + (list + "  "@ + held));
    text::lemma_holds_middle(name + pad, rate + can, list + "  "@ + held);
    assert(line =~= (name + pad + rate + can) + list + ("  "@ + held));
    text::lemma_holds_middle(name + pad + rate + can, list, "  "@ + held);
    let end = "  "@ + held;
    assert(line.skip(line.len() - end.len()) =~= end);
    match w.held_by {
        None => {
            assert(end =~= "  idle"@);
        },
        Some(id) => {
            assert(end =~= "  held by "@ + id);
        },
    }
}

/// Every reservation is on a line of its own, with how many machines it has and how many seconds
/// are left of it, which is none once they are over; where there is none, that is said.
pub proof fn law_every_reservation_is_shown_with_what_is_left_of_it(
    rows: Seq<(Seq<char>, ReservationView)>,
    now: u64,
    i: int,
)
    ensures
        rows.len() == 0 ==> reservation_lines(rows, now) == seq!["nothing is held"@],
        0 <= i < rows.len() ==> {
            let r = rows[i].1;
            let line = reservation_lines(rows, now)[i];
            &&& reservation_lines(rows, now).len() == rows.len()
            &&& text::begins(line, "  "@ + r.id)
            &&& r.expires_at > now ==> text::ends(
                line,
                " "@ + text::decimal_of(r.workers.len()) + " machine(s), "@ + text::decimal_of(
                    (r.expires_at - now) as nat,
                ) + "s left"@,
            )
            &&& r.expires_at <= now ==> text::ends(
                line,
                " "@ + text::decimal_of(r.workers.len()) + " machine(s), "@ + text::decimal_of(0)
                    + "s left"@,
            )
            &&& text::holds(line, r.alias)
        },
{
    if 0 <= i < rows.len() {
        reveal_strlit("  ");
        let r = rows[i].1;
        let line = reservation_line(r, now);
        assert(line.take(2 + r.id.len() as int) =~= "  "@ + r.id);
        let left = if r.expires_at > now {
            (r.expires_at - now) as nat
        } else {
            0
        };
        let id = "  "@ + text::widened(r.id, 6) + " "@;
        let pad = text::spaces(12 - r.alias.len());
        let end = " "@ + text::decimal_of(r.workers.len()) + " machine(s), "@ + text::decimal_of(
            left,
        ) + "s left"@;
        assert(line =~= id + r.alias + (pad + end));
        text::lemma_holds_middle(id, r.alias, pad + end);
        assert(line.skip(line.len() - end.len()) =~= end);
    }
}

/// Every tenant whose files do not read is told of, with the reason, and no other.
pub proof fn law_every_trouble_is_told(listed: Seq<ListedView>, l: ListedView)
    ensures
        trouble_lines(Seq::empty()).len() == 0,
        l.unread is None ==> trouble_lines(listed.push(l)) == trouble_lines(listed),
        l.unread matches Some(why) ==> trouble_lines(listed.push(l)) == trouble_lines(listed).push(
            "  !! "@ + l.tenant
                + ": configuration not read, still running on the last good copy — "@ + why,
        ),
{
    assert(listed.push(l).drop_last() =~= listed);
}

/// Every tenant is shown what it spent, what it has committed and what that leaves of its
/// budget, and a tenant without a budget is told apart from one that has nothing left.
pub proof fn law_every_tenant_is_shown_what_it_has_left(
    l: ListedView,
    spent: u64,
    committed: u64,
)
    ensures
        l.budget is None ==> text::ends(spend_line(l, spent, committed as nat), " no budget set"@),
        l.budget matches Some(b) ==> text::ends(
            spend_line(l, spent, committed as nat),
            " "@ + text::decimal_of(spent as nat) + " of "@ + text::decimal_of(b.credits as nat)
                + " credit(s) used, "@ + text::decimal_of(committed as nat) + " committed, "@
                + text::decimal_of(
                if spent + committed < b.credits {
                    (b.credits - spent - committed) as nat
                } else {
                    0
                },
            ) + " left"@,
        ),
        text::begins(spend_line(l, spent, committed as nat), "  "@ + l.tenant),
{
    reveal_strlit("  ");
    let line = spend_line(l, spent, committed as nat);
    assert(line.take(2 + l.tenant.len() as int) =~= "  "@ + l.tenant);
    match l.budget {
        None => {
            let end = " no budget set"@;
            assert(line.skip(line.len() - end.len()) =~= end);
        },
        Some(b) => {
            let end = " "@ + text::decimal_of(spent as nat) + " of "@ + text::decimal_of(
                b.credits as nat,
            ) + " credit(s) used, "@ + text::decimal_of(committed as nat) + " committed, "@
                + text::decimal_of(
                if spent + committed < b.credits {
                    (b.credits - spent - committed) as nat
                } else {
                    0
                },
            ) + " left"@;
            assert(line =~= "  "@ + text::widened(l.tenant, 16) + end);
            assert(line.skip(line.len() - end.len()) =~= end);
        },
    }
}

/// Trouble stands before everything it changes the reading of, and every tenant has a line,
/// with what it spent and what its own open grants may still cost.
pub proof fn law_every_tenant_has_a_line(
    listed: Seq<ListedView>,
    spent: Seq<u64>,
    f: FleetView,
    i: int,
)
    requires
        spent.len() == listed.len(),
        0 <= i < listed.len(),
    ensures
        ({
            let lines = spend_lines(listed, spent, f);
            let first = trouble_lines(listed).len();
            &&& lines.len() == first + listed.len()
            &&& lines[first as int + i] == spend_line(
                listed[i],
                spent[i],
                f.committed(listed[i].tenant),
            )
            &&& lines.take(first as int) == trouble_lines(listed)
        }),
{
    assert(spend_lines(listed, spent, f).take(trouble_lines(listed).len() as int)
        =~= trouble_lines(listed));
}

/// A caller is told who it is taken for, every fact that was vouched for, and every key of its
/// own, the one it asks from marked as that.
pub proof fn law_a_caller_is_told_who_it_is(
    alias: Seq<char>,
    facts: Seq<(Seq<char>, Seq<char>)>,
    mine: Seq<EnrolledView>,
    key: Seq<char>,
    i: int,
    j: int,
)
    requires
        0 <= i < facts.len(),
        0 <= j < mine.len(),
    ensures
        ({
            let lines = whoami_lines(alias, facts, mine, key);
            &&& lines.len() == 1 + facts.len() + mine.len()
            &&& lines[0] == "you are "@ + alias
            &&& lines[1 + i] == "  "@ + facts[i].0 + ": "@ + facts[i].1
            &&& text::begins(
                lines[1 + facts.len() + j],
                "  "@ + mine[j].key + " via "@ + mine[j].issuer + if mine[j].key == key {
                    " (this one)"@
                } else {
                    Seq::empty()
                },
            )
        }),
{
    reveal_strlit("");
    let lines = whoami_lines(alias, facts, mine, key);
    let e = mine[j];
    let start = "  "@ + e.key + " via "@ + e.issuer + if e.key == key {
        " (this one)"@
    } else {
        Seq::empty()
    };
    let line = lines[1 + facts.len() as int + j];
    assert(line == key_line(e, key));
    assert(line.take(start.len() as int) =~= start);
}

/// Who is served is said by name, and that nobody is where nobody is.
pub proof fn law_who_is_served_is_said(names: Seq<Seq<char>>, why: Seq<char>)
    ensures
        names.len() > 0 ==> tenants_lines(Ok(names)) == seq![
            text::decimal_of(names.len()) + " tenant(s): "@ + text::joined(names, ", "@),
        ],
        names.len() == 0 ==> tenants_lines(Ok(names)).len() == 2,
        tenants_lines(Err(why)) == seq!["cannot list tenants yet: "@ + why],
{
}

} // verus!
