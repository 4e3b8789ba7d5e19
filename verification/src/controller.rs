//! The controller: everything that has a view of the whole fleet.
//!
//! Policy decides entitlement, the fleet decides availability, and both must agree. What a
//! model proposes is cut to limits that it was shown, and what had to be cut is reported: a
//! policy that keeps overshooting is a policy nobody has noticed is wrong.

use vstd::prelude::*;
use vstd::string::*;

use crate::admin::{AdminView, Admins};
use crate::adviser::{Advice, Attested, Declared, Money, Opinion, OpinionView};
use crate::attest::Issuers;
use crate::book;
use crate::budget;
use crate::budget::{Entry, EntryView, Room};
use crate::directory;
use crate::directory::{Tenancy, TenancyView};
use crate::enrolled::Keys;
use crate::fleet;
use crate::fleet::{Allocation, Chosen, Closed, Fleet, FleetView, Shortfall, Worker, WorkerView};
use crate::proto::{Aadesh, Nivedana, Register, Ticket, Verdict, WorkerHandle};
use crate::table;
use crate::table::Table;
use crate::text;
use crate::Config;

verus! {

// ---------------------------------------------------------------------------
// cutting an answer to what is possible
// ---------------------------------------------------------------------------

/// Every bound that is checked again after the model has answered. All of them were in the
/// prompt.
#[derive(Debug, Clone, Copy, PartialEq, Eq, Structural)]
pub struct Limit {
    /// The organisation's own maximum.
    pub ceiling: u32,
    /// Machines free right now.
    pub free: u32,
    /// The host's cap on this tenant, whatever its policy says.
    pub host: u32,
    /// What the budget can buy, when there is one.
    pub affordable: Option<u32>,
}

pub open spec fn least(a: u32, b: u32) -> u32 {
    if a <= b {
        a
    } else {
        b
    }
}

impl Limit {
    /// An answer, cut to what is free, to the host's cap and to what the budget buys.
    pub open spec fn cut(self, bounded: u32) -> u32 {
        let held = least(least(bounded, self.free), self.host);
        match self.affordable {
            Some(most) => least(held, most),
            None => held,
        }
    }

    /// Which limits an answer overshot, in words.
    pub open spec fn faults(self, said: u32, bounded: u32) -> Seq<Seq<char>> {
        let had = least(bounded, self.free);
        let held = least(had, self.host);
        past_ceiling(said, self.ceiling) + past_free(said, self.free) + past_host(had, self.host)
            + match self.affordable {
            Some(most) => past_budget(held, most),
            None => Seq::empty(),
        }
    }
}

/// What was proposed, against a limit on it.
pub open spec fn proposed(n: u32, middle: Seq<char>, limit: u32, end: Seq<char>) -> Seq<char> {
    "proposed "@ + text::decimal_of(n as nat) + middle + text::decimal_of(limit as nat) + end
}

pub open spec fn past_ceiling(said: u32, ceiling: u32) -> Seq<Seq<char>> {
    if said > ceiling {
        seq![proposed(said, " against a stated ceiling of "@, ceiling, ""@)]
    } else {
        Seq::empty()
    }
}

pub open spec fn past_free(said: u32, free: u32) -> Seq<Seq<char>> {
    if said > free {
        seq![proposed(said, " with only "@, free, " machine(s) free"@)]
    } else {
        Seq::empty()
    }
}

pub open spec fn past_host(had: u32, host: u32) -> Seq<Seq<char>> {
    if had > host {
        seq![proposed(had, " against this tenant's host ceiling of "@, host, ""@)]
    } else {
        Seq::empty()
    }
}

pub open spec fn past_budget(held: u32, most: u32) -> Seq<Seq<char>> {
    if most < held {
        seq![proposed(held, ", but the budget buys "@, most, ""@)]
    } else {
        Seq::empty()
    }
}

fn proposal(n: u32, middle: &str, limit: u32, end: &str) -> (r: String)
    ensures
        r@ == proposed(n, middle@, limit, end@),
{
    let mut r = String::from_str("proposed ");
    r.append(text::decimal(n as u64).as_str());
    r.append(middle);
    r.append(text::decimal(limit as u64).as_str());
    r.append(end);
    r
}

/// Cut an answer to what is actually possible, and say what had to be cut.
///
/// A fault is a defect report, not a normal outcome: every limit it names was stated in the
/// prompt, so exceeding one means the policy argued past a number it was shown. A fleet that
/// empties after this is a different matter and reports nothing.
pub fn sanity(said: u32, bounded: u32, limit: Limit) -> (r: (u32, Vec<String>))
    ensures
        r.0 == limit.cut(bounded),
        text::texts(r.1@) == limit.faults(said, bounded),
{
    let mut faults: Vec<String> = Vec::new();
    assert(text::texts(faults@) =~= Seq::<Seq<char>>::empty());
    let mut allowed = bounded;
    if said > limit.ceiling {
        text::note(&mut faults, proposal(said, " against a stated ceiling of ", limit.ceiling, ""));
    }
    let ghost one = past_ceiling(said, limit.ceiling);
    assert(text::texts(faults@) =~= one);
    if said > limit.free {
        text::note(&mut faults, proposal(said, " with only ", limit.free, " machine(s) free"));
    }
    let ghost two = one + past_free(said, limit.free);
    assert(text::texts(faults@) =~= two);
    if limit.free < allowed {
        allowed = limit.free;
    }
    let ghost had = allowed;
    if allowed > limit.host {
        text::note(
            &mut faults,
            proposal(allowed, " against this tenant's host ceiling of ", limit.host, ""),
        );
        allowed = limit.host;
    }
    let ghost three = two + past_host(had, limit.host);
    assert(text::texts(faults@) =~= three);
    if let Some(affordable) = limit.affordable {
        let ghost held = allowed;
        if affordable < allowed {
            text::note(&mut faults, proposal(allowed, ", but the budget buys ", affordable, ""));
            allowed = affordable;
        }
        assert(text::texts(faults@) =~= three + past_budget(held, affordable));
    }
    assert(text::texts(faults@) =~= limit.faults(said, bounded));
    (allowed, faults)
}

// ---------------------------------------------------------------------------
// one decision
// ---------------------------------------------------------------------------

/// One decision, start to finish: what the model said, what it was cut to, and why.
#[derive(Debug, Clone)]
pub struct Weighed {
    /// What the model proposed, before anything was applied.
    pub said: u32,
    /// What it comes to after the ask, the ceiling, availability and the budget.
    pub allowed: u32,
    /// A refusal from the model itself, in its own words.
    pub denied: Option<String>,
    pub rationale: String,
    /// Limits it was shown and exceeded anyway. Empty in the ordinary case.
    pub faults: Vec<String>,
}

#[verifier::ext_equal]
pub struct WeighedView {
    pub said: u32,
    pub allowed: u32,
    pub denied: Option<Seq<char>>,
    pub rationale: Seq<char>,
    pub faults: Seq<Seq<char>>,
}

impl View for Weighed {
    type V = WeighedView;

    open spec fn view(&self) -> WeighedView {
        WeighedView {
            said: self.said,
            allowed: self.allowed,
            denied: fleet::held_text(self.denied),
            rationale: self.rationale@,
            faults: text::texts(self.faults@),
        }
    }
}

impl WeighedView {
    /// The grant, or nothing: a denial, or everything clamped away.
    pub open spec fn granted(self) -> Option<(u32, Seq<char>)> {
        if self.denied is Some || self.allowed == 0 {
            None
        } else {
            Some((self.allowed, self.rationale))
        }
    }

    /// Why there is nothing.
    pub open spec fn refusal(self, wanted: u32) -> Seq<char> {
        match self.denied {
            Some(why) => why,
            None => if self.faults.len() == 0 {
                "this policy granted none of the "@ + text::decimal_of(wanted as nat)
                    + " asked for"@
            } else {
                text::joined(self.faults, "; "@)
            },
        }
    }

    pub open spec fn log(self, alias: Seq<char>) -> Seq<char> {
        match self.denied {
            Some(why) => "policy refused "@ + alias + ": "@ + why,
            None => "policy weighed "@ + alias + ": said "@ + text::decimal_of(self.said as nat)
                + ", giving "@ + text::decimal_of(self.allowed as nat) + " — "@ + self.rationale,
        }
    }

    pub open spec fn fault_report(self, tenant: Seq<char>) -> Option<Seq<char>> {
        if self.faults.len() == 0 {
            None
        } else {
            Some(
                "policy for "@ + tenant + " overshot limits it was shown ("@ + text::joined(
                    self.faults,
                    "; "@,
                ) + ") — cut to "@ + text::decimal_of(self.allowed as nat)
                    + ". Fix the policy; the prompt stated every one of them."@,
            )
        }
    }
}

impl Weighed {
    /// The grant, or nothing: a denial, or everything clamped away.
    pub fn granted(&self) -> (r: Option<(u32, String)>)
        ensures
            match r {
                Some(pair) => self@.granted() == Some((pair.0, pair.1@)),
                None => self@.granted() is None,
            },
    {
        if self.denied.is_some() || self.allowed == 0 {
            return None;
        }
        Some((self.allowed, self.rationale.clone()))
    }

    /// Why there is nothing, in words of our own rather than the model's: a sentence that
    /// argued for a number nobody is getting does not explain the one they are.
    pub fn refusal(&self, wanted: u32) -> (r: String)
        ensures
            r@ == self@.refusal(wanted),
    {
        if let Some(why) = &self.denied {
            return why.clone();
        }
        if self.faults.len() == 0 {
            let mut r = String::from_str("this policy granted none of the ");
            r.append(text::decimal(wanted as u64).as_str());
            r.append(" asked for");
            return r;
        }
        text::join(self.faults.as_slice(), "; ")
    }

    /// Both numbers: "why did I get 4" must be answerable, and a clamp that left no trace
    /// would make an organisation's own ceiling invisible.
    pub fn log(&self, alias: &str) -> (r: String)
        ensures
            r@ == self@.log(alias@),
    {
        match &self.denied {
            Some(why) => {
                let mut r = String::from_str("policy refused ");
                r.append(alias);
                r.append(": ");
                r.append(why.as_str());
                r
            },
            None => {
                let mut r = String::from_str("policy weighed ");
                r.append(alias);
                r.append(": said ");
                r.append(text::decimal(self.said as u64).as_str());
                r.append(", giving ");
                r.append(text::decimal(self.allowed as u64).as_str());
                r.append(" — ");
                r.append(self.rationale.as_str());
                r
            },
        }
    }

    /// What to say loudly where a limit was overshot.
    pub fn fault_report(&self, tenant: &str) -> (r: Option<String>)
        ensures
            match r {
                Some(s) => self@.fault_report(tenant@) == Some(s@),
                None => self@.fault_report(tenant@) is None,
            },
    {
        if self.faults.len() == 0 {
            return None;
        }
        let mut r = String::from_str("policy for ");
        r.append(tenant);
        r.append(" overshot limits it was shown (");
        r.append(text::join(self.faults.as_slice(), "; ").as_str());
        r.append(") — cut to ");
        r.append(text::decimal(self.allowed as u64).as_str());
        r.append(". Fix the policy; the prompt stated every one of them.");
        Some(r)
    }
}

/// What an opinion comes to, inside the ceiling and the ask it was shown and every limit.
pub open spec fn weighed(opinion: OpinionView, ceiling: u32, asked: u32, limit: Limit) -> WeighedView {
    if opinion.denies() {
        WeighedView {
            said: opinion.count,
            allowed: 0,
            denied: Some(opinion.rationale),
            rationale: opinion.rationale,
            faults: Seq::empty(),
        }
    } else {
        let bounded = opinion.bounded(ceiling, asked);
        let allowed = limit.cut(bounded);
        let faults = limit.faults(opinion.count, bounded);
        WeighedView {
            said: opinion.count,
            allowed,
            denied: None,
            rationale: if faults.len() == 0 {
                opinion.rationale
            } else {
                text::decimal_of(allowed as nat) + " machine(s): "@ + text::joined(faults, "; "@)
            },
            faults,
        }
    }
}

/// Weighs an opinion that came back on some advice. Shared by the controller and by policy
/// tests, so that a test cannot pass against a decision the fleet would not make.
pub fn weigh(advice: &Advice, limit: Limit, opinion: Opinion) -> (r: Weighed)
    ensures
        r@ == weighed(opinion@, advice.ceiling, advice.declared.count, limit),
{
    if opinion.denies() {
        let r = Weighed {
            said: opinion.count,
            allowed: 0,
            denied: Some(opinion.rationale.clone()),
            rationale: opinion.rationale,
            faults: Vec::new(),
        };
        assert(r@ =~= weighed(opinion@, advice.ceiling, advice.declared.count, limit));
        return r;
    }
    let said = opinion.count;
    let (allowed, faults) = sanity(said, opinion.bounded(advice), limit);
    let rationale = if faults.len() == 0 {
        opinion.rationale
    } else {
        let mut s = text::decimal(allowed as u64);
        s.append(" machine(s): ");
        s.append(text::join(faults.as_slice(), "; ").as_str());
        s
    };
    Weighed { said, allowed, denied: None, rationale, faults }
}

// ---------------------------------------------------------------------------
// laws of one decision
// ---------------------------------------------------------------------------

/// An answer is only ever cut: it stays within every limit, and it is one of them or the
/// answer itself.
pub proof fn law_an_answer_is_never_raised_past_a_limit(bounded: u32, limit: Limit)
    ensures
        limit.cut(bounded) <= bounded,
        limit.cut(bounded) <= limit.free,
        limit.cut(bounded) <= limit.host,
        limit.affordable matches Some(most) ==> limit.cut(bounded) <= most,
        limit.cut(bounded) == bounded || limit.cut(bounded) == limit.free || limit.cut(bounded)
            == limit.host || limit.affordable == Some(limit.cut(bounded)),
{
}

/// Nothing is reported where nothing was overshot, and something is wherever an answer within
/// the ceiling and the ask had to be cut.
pub proof fn law_faults_are_reported_exactly_where_a_limit_was_overshot(
    said: u32,
    bounded: u32,
    limit: Limit,
)
    requires
        bounded <= said,
    ensures
        limit.faults(said, bounded).len() == 0 <==> {
            &&& said <= limit.ceiling
            &&& said <= limit.free
            &&& bounded <= limit.host
            &&& limit.affordable matches Some(most) ==> bounded <= most
        },
        limit.faults(said, bounded).len() == 0 ==> limit.cut(bounded) == bounded,
{
}

/// A tenant without a budget is not treated as one that has none left.
pub proof fn law_no_budget_cuts_nothing(bounded: u32, limit: Limit)
    requires
        limit.affordable is None,
    ensures
        limit.cut(bounded) == least(least(bounded, limit.free), limit.host),
{
}

/// Whatever an opinion says, and whoever has changed it since, what is granted is no more
/// than was asked for, than the ceiling, than what is free, than the host's cap and than the
/// budget buys.
pub proof fn law_no_opinion_escapes_the_numbers(
    opinion: OpinionView,
    ceiling: u32,
    asked: u32,
    limit: Limit,
)
    ensures
        ({
            let w = weighed(opinion, ceiling, asked, limit);
            &&& w.allowed <= ceiling
            &&& w.allowed <= opinion.count
            &&& w.allowed <= if asked == 0 {
                1
            } else {
                asked
            }
            &&& w.allowed <= limit.free
            &&& w.allowed <= limit.host
            &&& limit.affordable matches Some(most) ==> w.allowed <= most
        }),
{
}

/// A refusal is always honoured, in its own words.
pub proof fn law_a_refusal_is_always_honoured(
    opinion: OpinionView,
    ceiling: u32,
    asked: u32,
    limit: Limit,
)
    requires
        opinion.denies(),
    ensures
        weighed(opinion, ceiling, asked, limit).granted() is None,
        weighed(opinion, ceiling, asked, limit).refusal(asked) == opinion.rationale,
{
}

// ---------------------------------------------------------------------------
// who is on the other end
// ---------------------------------------------------------------------------

/// Who is on the other end, and what class of thing they are.
#[derive(Debug)]
pub struct Caller {
    /// For display and for policy. Peers have a name; a sibling device does not.
    pub alias: String,
    /// What an issuer vouched for, when one did.
    pub attested: Table<String>,
    /// A device of our own organisation rather than somebody else's peer.
    pub sibling: bool,
    /// On the admin list. Strictly narrower than `sibling`: a worker is a sibling too.
    pub admin: Option<String>,
}

#[verifier::ext_equal]
pub struct CallerView {
    pub alias: Seq<char>,
    pub attested: Map<Seq<char>, Seq<char>>,
    pub sibling: bool,
    pub admin: Option<Seq<char>>,
}

impl View for Caller {
    type V = CallerView;

    open spec fn view(&self) -> CallerView {
        CallerView {
            alias: self.alias@,
            attested: self.attested.dict(),
            sibling: self.sibling,
            admin: fleet::held_text(self.admin),
        }
    }
}

impl CallerView {
    /// Whom a ticket admits. One without an alias admits a device of our own: a peer is found
    /// by its name, so a peer always has one.
    pub open spec fn from(alias: Option<Seq<char>>) -> CallerView {
        match alias {
            Some(alias) => CallerView {
                alias,
                attested: Map::empty(),
                sibling: false,
                admin: None,
            },
            None => CallerView {
                alias: "an unnamed peer"@,
                attested: Map::empty(),
                sibling: true,
                admin: None,
            },
        }
    }

    pub open spec fn enrolled(alias: Seq<char>, issuer: Seq<char>) -> CallerView {
        CallerView {
            alias,
            attested: Map::empty().insert("issuer"@, issuer),
            sibling: false,
            admin: None,
        }
    }

    pub open spec fn attested(alias: Seq<char>, facts: Map<Seq<char>, Seq<char>>) -> CallerView {
        CallerView { alias, attested: facts, sibling: false, admin: None }
    }

    pub open spec fn with_admin(
        self,
        admins: Seq<(Seq<char>, AdminView)>,
        key: Seq<char>,
    ) -> CallerView {
        match book::look_up(admins, key) {
            Some(found) => if self.sibling {
                CallerView { alias: found.name, admin: Some(found.name), ..self }
            } else {
                self
            },
            None => self,
        }
    }
}

impl Caller {
    /// Whom a ticket admits, going by the alias in it.
    pub fn from(alias: Option<String>) -> (r: Self)
        ensures
            r@ == CallerView::from(fleet::held_text(alias)),
    {
        match alias {
            Some(alias) => Caller { alias, sibling: false, admin: None, attested: Table::new() },
            None => Caller {
                alias: "an unnamed peer".to_owned(),
                sibling: true,
                admin: None,
                attested: Table::new(),
            },
        }
    }

    /// A key this controller agreed to remember, proving itself by having dialled. Never a
    /// sibling and never an admin.
    pub fn enrolled(alias: String, issuer: String) -> (r: Self)
        ensures
            r@ == CallerView::enrolled(alias@, issuer@),
    {
        let mut attested: Table<String> = Table::new();
        attested.insert("issuer".to_owned(), issuer);
        Caller { alias, sibling: false, admin: None, attested }
    }

    /// Vouched for by an issuer. Never a sibling and never an admin: those are decided by key,
    /// against lists the host wrote by hand.
    pub fn attested(alias: String, facts: Table<String>) -> (r: Self)
        ensures
            r@ == CallerView::attested(alias@, facts.dict()),
    {
        Caller { alias, sibling: false, admin: None, attested: facts }
    }

    /// Admin membership is decided by key, against a list the host wrote by hand: never by
    /// being a sibling alone, and never by anything the caller says.
    pub fn with_admin(self, admins: &Admins, key: &str) -> (r: Self)
        ensures
            r@ == self@.with_admin(admins@, key@),
    {
        let mut who = self;
        if who.sibling {
            if let Some(found) = admins.by_key(key) {
                who.alias = found.name.clone();
                who.admin = Some(found.name.clone());
            }
        }
        who
    }
}

/// Somebody who arrived with a name, by a key that is remembered or with an attestation is
/// not one of our devices, and cannot become an admin, even by a key that is on the list.
pub proof fn law_only_our_own_devices_can_be_admins(
    alias: Seq<char>,
    issuer: Seq<char>,
    facts: Map<Seq<char>, Seq<char>>,
    admins: Seq<(Seq<char>, AdminView)>,
    key: Seq<char>,
)
    ensures
        !CallerView::from(Some(alias)).sibling,
        !CallerView::enrolled(alias, issuer).sibling,
        !CallerView::attested(alias, facts).sibling,
        CallerView::from(Some(alias)).with_admin(admins, key).admin is None,
        CallerView::enrolled(alias, issuer).with_admin(admins, key).admin is None,
        CallerView::attested(alias, facts).with_admin(admins, key).admin is None,
{
}

/// Being one of our own devices is not enough: an admin is one whose key is on the list, and
/// goes by the name that stands there.
pub proof fn law_an_admin_is_one_whose_key_is_listed(
    admins: Seq<(Seq<char>, AdminView)>,
    key: Seq<char>,
)
    ensures
        CallerView::from(None).sibling,
        CallerView::from(None).with_admin(admins, key).admin == match book::look_up(admins, key) {
            Some(found) => Some(found.name),
            None => None,
        },
{
}

// ---------------------------------------------------------------------------
// what a controller holds
// ---------------------------------------------------------------------------

/// Everything the controller owns. One fleet, because allocation has to be atomic across the
/// roster and the reservations together: two of them is how a machine gets promised to two
/// callers.
pub struct Control {
    pub config: Config,
    /// Whose word this controller accepts besides its own organisation's.
    pub issuers: Issuers,
    /// Keys this controller has agreed to remember.
    pub enrolled: Keys,
    /// Who may look at and change how this controller runs.
    pub admins: Admins,
    pub fleet: Fleet,
}

// ---------------------------------------------------------------------------
// what a caller is entitled to
// ---------------------------------------------------------------------------

/// Why a caller's plea is not weighed at all, where it is not. An empty rulebook is the one
/// input that makes a model invent a rule rather than apply one.
pub open spec fn unweighable(alias: Seq<char>, found: Option<TenancyView>) -> Option<Seq<char>> {
    match found {
        None => Some(alias + " is not a tenant of this controller"@),
        Some(who) => if !who.may_ask {
            Some(alias + " may not ask this controller for machines"@)
        } else if text::trim_of(who.rulebook).len() == 0 {
            Some(
                "tenant `"@ + who.tenant
                    + "` has nothing written down — no policy to weigh this against"@,
            )
        } else {
            None
        },
    }
}

pub open spec fn tenancy_view(found: Option<Tenancy>) -> Option<TenancyView> {
    match found {
        Some(who) => Some(who@),
        None => None,
    }
}

/// The caller's tenancy, where there is something to weigh a plea against.
pub fn weighable(alias: &str, found: Option<Tenancy>) -> (r: Result<Tenancy, String>)
    ensures
        match r {
            Ok(who) => unweighable(alias@, tenancy_view(found)) is None && found == Some(who),
            Err(why) => unweighable(alias@, tenancy_view(found)) == Some(why@),
        },
{
    let who = match found {
        Some(who) => who,
        None => {
            let mut why = alias.to_owned();
            why.append(" is not a tenant of this controller");
            return Err(why);
        },
    };
    if !who.may_ask {
        let mut why = alias.to_owned();
        why.append(" may not ask this controller for machines");
        return Err(why);
    }
    if text::trim(who.rulebook.as_str()).is_empty() {
        let mut why = String::from_str("tenant `");
        why.append(who.tenant.as_str());
        why.append("` has nothing written down — no policy to weigh this against");
        return Err(why);
    }
    Ok(who)
}

pub open spec fn none_capable(wanted: Seq<Seq<char>>) -> Seq<char> {
    "no machine in the fleet can do "@ + text::list_of(wanted)
        + " — waiting will not change that"@
}

pub open spec fn none_free(capable: u32, wanted: Seq<Seq<char>>) -> Seq<char> {
    text::decimal_of(capable as nat) + " machine(s) here can do "@ + text::list_of(wanted)
        + ", and none are free right now — this one is worth retrying"@
}

fn no_machine(wanted: &[String]) -> (r: String)
    ensures
        r@ == none_capable(text::texts(wanted@)),
{
    let mut r = String::from_str("no machine in the fleet can do ");
    r.append(text::list(wanted).as_str());
    r.append(" — waiting will not change that");
    r
}

/// Why the fleet has nothing to offer, where it has nothing. No policy can change these, so
/// nobody is asked; and they are told apart, because one means give up and the other means
/// try again.
pub open spec fn unavailable(brief: fleet::BriefView, wanted: Seq<Seq<char>>) -> Option<Seq<char>> {
    if brief.capable == 0 {
        Some(none_capable(wanted))
    } else if brief.free == 0 {
        Some(none_free(brief.capable, wanted))
    } else {
        None
    }
}

/// The money a tenancy has, where it is metered.
pub open spec fn money_of(f: FleetView, who: TenancyView, spent: u64) -> Option<Money> {
    match who.budget {
        Some(b) => Some(
            Money {
                budget: b.credits,
                spent,
                committed: fleet::at_most(f.committed(who.tenant), u64::MAX as nat) as u64,
                window_secs: b.window,
            },
        ),
        None => None,
    }
}

/// Every limit on an answer to this tenancy, as the fleet stands.
pub open spec fn limit_of(
    f: FleetView,
    who: TenancyView,
    wanted: Seq<Seq<char>>,
    spent: u64,
) -> Limit {
    let brief = f.brief(wanted);
    Limit {
        ceiling: who.ceiling,
        free: brief.free,
        host: who.ceiling,
        affordable: match money_of(f, who, spent) {
            Some(money) => Some(money.room().affords(brief.rates, who.lifetime)),
            None => None,
        },
    }
}

/// How many machines a plea asks for: one, where it does not say.
pub open spec fn wanted_count(count: Option<u32>) -> u32 {
    match count {
        Some(n) => n,
        None => 1,
    }
}

/// What is asked of whoever weighs a plea, and the limits on the answer.
pub struct Asked {
    pub advice: Advice,
    pub limit: Limit,
}

/// Does this say everything that bears on the answer?
pub open spec fn asks(
    asked: Asked,
    f: FleetView,
    alias: Seq<char>,
    who: TenancyView,
    vouched: Map<Seq<char>, Seq<char>>,
    count: Option<u32>,
    capabilities: Seq<Seq<char>>,
    said: Seq<(Seq<char>, Seq<char>)>,
    spent: u64,
) -> bool {
    &&& asked.advice.rulebook@ == who.rulebook
    &&& asked.advice.attested.tenant@ == who.tenant
    &&& asked.advice.attested.caller@ == alias
    &&& asked.advice.attested.facts.dict() == vouched.union_prefer_right(table::dict_of(who.facts))
    &&& asked.advice.declared.said@ == said
    &&& asked.advice.declared.count == wanted_count(count)
    &&& text::texts(asked.advice.declared.capabilities@) == capabilities
    &&& asked.advice.standing == who.standing
    &&& asked.advice.ceiling == who.ceiling
    &&& asked.advice.lifetime == who.lifetime
    &&& asked.advice.fleet@ == f.brief(capabilities)
    &&& asked.advice.money == money_of(f, who, spent)
    &&& asked.limit == limit_of(f, who, capabilities, spent)
}

/// What this deployment attests, and what an issuer vouched for besides. The deployment's own
/// word wins a collision: it knows this caller, and an issuer's claim is about a repository.
fn merged(own: &Table<String>, vouched: &Table<String>) -> (r: Table<String>)
    ensures
        r.dict() == vouched.dict().union_prefer_right(own.dict()),
{
    let mut all = own.copied();
    let size: usize = vouched.len();
    let ghost rows = vouched@;
    for i in 0..size
        invariant
            size == vouched@.len(),
            rows == vouched@,
            table::ascending(rows),
            all.dict() == vouched.dict().restrict(
                table::keys_of(rows.take(i as int)),
            ).union_prefer_right(own.dict()),
    {
        proof {
            table::lemma_entry(rows, i as int);
            table::lemma_keys_grow(rows, i as int);
        }
        let key = vouched.key_at(i);
        if !all.contains_key(key.as_str()) {
            all.insert(key.clone(), vouched.value_at(i).clone());
        }
        assert(all.dict() =~= vouched.dict().restrict(
            table::keys_of(rows.take(i as int + 1)),
        ).union_prefer_right(own.dict()));
    }
    assert(rows.take(size as int) =~= rows);
    assert(all.dict() =~= vouched.dict().union_prefer_right(own.dict())) by {
        assert(table::keys_of(rows) =~= vouched.dict().dom());
    }
    all
}

/// Gathers everything the decision needs, before anything slow happens.
///
/// `spent` is what the tenant spent in its window, where it has a budget.
pub fn ask(
    f: &Fleet,
    alias: &str,
    who: &Tenancy,
    vouched: &Table<String>,
    nivedana: &Nivedana,
    spent: u64,
) -> (r: Result<Asked, String>)
    requires
        f.wf(),
    ensures
        ({
            let wanted = text::texts(nivedana.capabilities@);
            match r {
                Ok(asked) => {
                    &&& unavailable(f@.brief(wanted), wanted) is None
                    &&& asks(
                        asked,
                        f@,
                        alias@,
                        who@,
                        vouched.dict(),
                        nivedana.count,
                        wanted,
                        nivedana.said@,
                        spent,
                    )
                },
                Err(why) => unavailable(f@.brief(wanted), wanted) == Some(why@),
            }
        }),
{
    let brief = f.brief(nivedana.capabilities.as_slice());
    if brief.capable == 0 {
        return Err(no_machine(nivedana.capabilities.as_slice()));
    }
    if brief.free == 0 {
        let mut why = text::decimal(brief.capable as u64);
        why.append(" machine(s) here can do ");
        why.append(text::list(nivedana.capabilities.as_slice()).as_str());
        why.append(", and none are free right now — this one is worth retrying");
        return Err(why);
    }
    let money = match who.budget {
        Some(b) => Some(
            Money {
                budget: b.credits,
                spent,
                committed: f.committed(who.tenant.as_str()),
                window_secs: b.window,
            },
        ),
        None => None,
    };
    let affordable = match &money {
        Some(m) => {
            let room = Room { budget: m.budget, spent: m.spent, committed: m.committed };
            Some(room.affordable(brief.rates.as_slice(), who.lifetime))
        },
        None => None,
    };
    let limit = Limit { ceiling: who.ceiling, free: brief.free, host: who.ceiling, affordable };
    let advice = Advice {
        rulebook: who.rulebook.clone(),
        attested: Attested {
            tenant: who.tenant.clone(),
            caller: alias.to_owned(),
            facts: merged(&who.facts, vouched),
        },
        declared: Declared {
            said: nivedana.said.copied(),
            count: match nivedana.count {
                Some(n) => n,
                None => 1,
            },
            capabilities: text::copied(nivedana.capabilities.as_slice()),
        },
        standing: who.standing,
        ceiling: who.ceiling,
        lifetime: who.lifetime,
        fleet: brief,
        money,
    };
    Ok(Asked { advice, limit })
}

/// The number a decision came to, or why there is none.
pub open spec fn concluded(w: WeighedView, wanted: u32) -> Result<(u32, Seq<char>), Seq<char>> {
    match w.granted() {
        Some(pair) => Ok(pair),
        None => Err(w.refusal(wanted)),
    }
}

/// What policy and the fleet conclude for a caller: a number and why, or why not.
pub open spec fn entitled(
    f: FleetView,
    alias: Seq<char>,
    found: Option<TenancyView>,
    count: Option<u32>,
    wanted: Seq<Seq<char>>,
    spent: u64,
    opinion: OpinionView,
) -> Result<(u32, Seq<char>), Seq<char>> {
    match unweighable(alias, found) {
        Some(why) => Err(why),
        None => match unavailable(f.brief(wanted), wanted) {
            Some(why) => Err(why),
            None => {
                let who = found->0;
                concluded(
                    weighed(
                        opinion,
                        who.ceiling,
                        wanted_count(count),
                        limit_of(f, who, wanted, spent),
                    ),
                    wanted_count(count),
                )
            },
        },
    }
}

/// What comes of a decision.
pub fn conclude(w: &Weighed, wanted: u32) -> (r: Result<(u32, String), String>)
    ensures
        match r {
            Ok(pair) => concluded(w@, wanted) == Ok::<(u32, Seq<char>), Seq<char>>(
                (pair.0, pair.1@),
            ),
            Err(why) => concluded(w@, wanted) == Err::<(u32, Seq<char>), Seq<char>>(why@),
        },
{
    match w.granted() {
        Some(pair) => Ok(pair),
        None => Err(w.refusal(wanted)),
    }
}

/// How many machines a caller is entitled to, by its tenant's policy as somebody weighed it
/// and then by every limit, given the opinion that came back.
pub fn entitlement(
    f: &Fleet,
    alias: &str,
    found: Option<Tenancy>,
    vouched: &Table<String>,
    nivedana: &Nivedana,
    spent: u64,
    opinion: Opinion,
) -> (r: Result<(u32, String), String>)
    requires
        f.wf(),
    ensures
        ({
            let said = entitled(
                f@,
                alias@,
                tenancy_view(found),
                nivedana.count,
                text::texts(nivedana.capabilities@),
                spent,
                opinion@,
            );
            match r {
                Ok(pair) => said == Ok::<(u32, Seq<char>), Seq<char>>((pair.0, pair.1@)),
                Err(why) => said == Err::<(u32, Seq<char>), Seq<char>>(why@),
            }
        }),
{
    let who = match weighable(alias, found) {
        Ok(who) => who,
        Err(why) => return Err(why),
    };
    let asked = match ask(f, alias, &who, vouched, nivedana, spent) {
        Ok(asked) => asked,
        Err(why) => return Err(why),
    };
    let w = weigh(&asked.advice, asked.limit, opinion);
    conclude(&w, asked.advice.declared.count)
}

/// Whose money a caller spends: its tenant's, or its own where it has no tenant.
pub open spec fn payer(found: Option<TenancyView>, alias: Seq<char>) -> Seq<char> {
    match found {
        Some(who) => who.tenant,
        None => alias,
    }
}

/// How long a grant lasts unreleased.
pub open spec fn lifetime_of(found: Option<TenancyView>) -> u64 {
    match found {
        Some(who) => who.lifetime,
        None => fleet::RESERVATION_SECS,
    }
}

/// Which tenant a caller bills to. Not the caller: several share a tenant.
pub fn tenant_of(found: &Option<Tenancy>, alias: &str) -> (r: String)
    ensures
        r@ == payer(tenancy_view(*found), alias@),
{
    match found {
        Some(who) => who.tenant.clone(),
        None => alias.to_owned(),
    }
}

/// How long a tenant's grants last unreleased.
pub fn lifetime_for(found: &Option<Tenancy>) -> (r: u64)
    ensures
        r == lifetime_of(tenancy_view(*found)),
{
    match found {
        Some(who) => who.lifetime,
        None => fleet::RESERVATION_SECS,
    }
}

// ---------------------------------------------------------------------------
// granting
// ---------------------------------------------------------------------------

/// An order for a machine.
#[derive(Debug, Clone)]
pub struct Order {
    pub worker: String,
    pub order: Aadesh,
}

/// A verdict, and what the machines have to be told before the caller is: none is ever
/// dialled for a reservation it has not yet heard of.
pub struct Decision {
    pub verdict: Verdict,
    pub orders: Vec<Order>,
}

pub open spec fn up_to(allowed: u32, middle: Seq<char>, available: nat, end: Seq<char>) -> Seq<char> {
    "you may have up to "@ + text::decimal_of(allowed as nat) + middle + text::decimal_of(available)
        + end
}

fn offer(allowed: u32, middle: &str, available: u32, end: &str) -> (r: String)
    ensures
        r@ == up_to(allowed, middle@, available as nat, end@),
{
    let mut r = String::from_str("you may have up to ");
    r.append(text::decimal(allowed as u64).as_str());
    r.append(middle);
    r.append(text::decimal(available as u64).as_str());
    r.append(end);
    r
}

/// Does this handle lead its caller to this machine, and nobody else there?
pub open spec fn leads(
    handle: WorkerHandle,
    worker: WorkerView,
    caller: Seq<char>,
    alias: Seq<char>,
    seconds: u64,
) -> bool {
    &&& handle.name@ == worker.name
    &&& handle.key@ == worker.key
    &&& text::texts(handle.hints@) == worker.hints
    &&& handle.ticket.name@ == worker.name
    &&& handle.ticket.caller@ == caller
    &&& fleet::held_text(handle.ticket.alias) == Some(alias)
    &&& handle.ticket.seconds == seconds
}

/// Does this order assign a machine to a caller?
pub open spec fn assigns(
    order: Order,
    worker: Seq<char>,
    id: Seq<char>,
    by: Seq<char>,
    seconds: u64,
) -> bool {
    &&& order.worker@ == worker
    &&& order.order matches Aadesh::Assigned { reservation, caller, limits }
    &&& reservation@ == id
    &&& caller@ == by
    &&& limits.max_seconds == seconds
}

/// Does a grant hand out these machines?
pub open spec fn grants(
    decision: Decision,
    after: FleetView,
    names: Seq<Seq<char>>,
    caller: Seq<char>,
    alias: Seq<char>,
    why: Option<Seq<char>>,
    seconds: u64,
) -> bool {
    let id = fleet::reservation_id(after.issued);
    &&& decision.verdict matches Verdict::Grant { reservation, workers, expires_in, rationale }
    &&& reservation@ == id
    &&& expires_in == seconds
    &&& fleet::held_text(rationale) == why
    &&& workers@.len() == names.len()
    &&& forall|i: int|
        0 <= i < names.len() ==> leads(
            #[trigger] workers@[i],
            after.workers[names[i]],
            caller,
            alias,
            seconds,
        )
    &&& decision.orders@.len() == names.len()
    &&& forall|i: int|
        0 <= i < names.len() ==> assigns(
            #[trigger] decision.orders@[i],
            after.workers[names[i]].name,
            id,
            caller,
            seconds,
        )
}

/// What comes of asking the fleet for what a caller may have.
pub open spec fn decided(
    before: FleetView,
    after: FleetView,
    decision: Decision,
    wanted: Seq<Seq<char>>,
    allowed: u32,
    why: Option<Seq<char>>,
    caller: Seq<char>,
    alias: Seq<char>,
    tenant: Seq<char>,
    lifetime: u64,
    at: u64,
) -> bool {
    match before.chosen(wanted, allowed as nat) {
        Chosen::NoneCapable => {
            &&& after == before
            &&& decision.verdict matches Verdict::Deny { rationale }
            &&& rationale@ == none_capable(wanted)
            &&& decision.orders@.len() == 0
        },
        Chosen::Fewer(available) => {
            &&& after == before
            &&& decision.verdict matches Verdict::Counter { count, rationale }
            &&& count == available
            &&& rationale@ == up_to(
                allowed,
                ", but "@,
                available,
                " matching machine(s) are free"@,
            )
            &&& decision.orders@.len() == 0
        },
        Chosen::Machines(names) => {
            let seconds = fleet::lasting(lifetime);
            &&& after == before.granted(names, caller, alias, tenant, seconds as nat, at)
            &&& grants(decision, after, names, caller, alias, why, seconds)
        },
    }
}

fn assign(allocation: Allocation, rationale: Option<String>, caller: &str, alias: &str) -> (r:
    Decision)
    ensures
        ({
            let machines = fleet::machines(allocation.workers@);
            let seconds = allocation.expires_in;
            &&& r.verdict matches Verdict::Grant {
                reservation,
                workers,
                expires_in,
                rationale: why,
            }
            &&& reservation@ == allocation.reservation@
            &&& expires_in == seconds
            &&& why == rationale
            &&& workers@.len() == machines.len()
            &&& forall|i: int|
                0 <= i < machines.len() ==> leads(
                    #[trigger] workers@[i],
                    machines[i],
                    caller@,
                    alias@,
                    seconds,
                )
            &&& r.orders@.len() == machines.len()
            &&& forall|i: int|
                0 <= i < machines.len() ==> assigns(
                    #[trigger] r.orders@[i],
                    machines[i].name,
                    allocation.reservation@,
                    caller@,
                    allocation.limits.max_seconds,
                )
        }),
{
    let ghost machines = fleet::machines(allocation.workers@);
    let mut workers: Vec<WorkerHandle> = Vec::new();
    let mut orders: Vec<Order> = Vec::new();
    let seconds = allocation.expires_in;
    for i in 0..allocation.workers.len()
        invariant
            machines == fleet::machines(allocation.workers@),
            seconds == allocation.expires_in,
            workers@.len() == i,
            orders@.len() == i,
            forall|k: int|
                0 <= k < i ==> leads(
                    #[trigger] workers@[k],
                    machines[k],
                    caller@,
                    alias@,
                    seconds,
                ),
            forall|k: int|
                0 <= k < i ==> assigns(
                    #[trigger] orders@[k],
                    machines[k].name,
                    allocation.reservation@,
                    caller@,
                    allocation.limits.max_seconds,
                ),
    {
        let w = &allocation.workers[i];
        assert(machines[i as int] == w@);
        let handle = WorkerHandle {
            name: w.name.clone(),
            key: w.key.clone(),
            hints: text::copied(w.hints.as_slice()),
            ticket: Ticket {
                name: w.name.clone(),
                caller: caller.to_owned(),
                alias: Some(alias.to_owned()),
                seconds,
            },
        };
        let order = Order {
            worker: w.name.clone(),
            order: Aadesh::Assigned {
                reservation: allocation.reservation.clone(),
                caller: caller.to_owned(),
                limits: allocation.limits,
            },
        };
        assert(leads(handle, machines[i as int], caller@, alias@, seconds));
        workers.push(handle);
        orders.push(order);
    }
    Decision {
        verdict: Verdict::Grant {
            reservation: allocation.reservation,
            workers,
            expires_in: seconds,
            rationale,
        },
        orders,
    }
}

/// Hands out the machines a caller is entitled to, as the fleet stands at a moment.
pub fn decide_at(
    f: &mut Fleet,
    nivedana: &Nivedana,
    allowed: u32,
    rationale: Option<String>,
    caller: &str,
    alias: &str,
    tenant: &str,
    lifetime: u64,
    at: u64,
) -> (r: Decision)
    requires
        old(f).wf(),
        old(f)@.issued < u64::MAX,
    ensures
        final(f).wf(),
        decided(
            old(f)@,
            final(f)@,
            r,
            text::texts(nivedana.capabilities@),
            allowed,
            fleet::held_text(rationale),
            caller@,
            alias@,
            tenant@,
            lifetime,
            at,
        ),
{
    match f.allocate_at(nivedana, allowed, caller, alias, tenant, lifetime, at) {
        Ok(allocation) => {
            let ghost machines = fleet::machines(allocation.workers@);
            let r = assign(allocation, rationale, caller, alias);
            proof {
                let wanted = text::texts(nivedana.capabilities@);
                let names = old(f)@.chosen(wanted, allowed as nat)->Machines_0;
                assert(machines.len() == names.len());
                assert forall|i: int| 0 <= i < names.len() implies machines[i]
                    == f@.workers[#[trigger] names[i]] by {}
                assert(grants(
                    r,
                    f@,
                    names,
                    caller@,
                    alias@,
                    fleet::held_text(rationale),
                    fleet::lasting(lifetime),
                ));
            }
            r
        },
        Err(Shortfall::NoneCapable { wanted }) => Decision {
            verdict: Verdict::Deny { rationale: no_machine(wanted.as_slice()) },
            orders: Vec::new(),
        },
        Err(Shortfall::Fewer { available }) => Decision {
            verdict: Verdict::Counter {
                count: available,
                rationale: offer(allowed, ", but ", available, " matching machine(s) are free"),
            },
            orders: Vec::new(),
        },
    }
}

/// Hands out the machines a caller is entitled to, now.
pub fn decide(
    f: &mut Fleet,
    nivedana: &Nivedana,
    allowed: u32,
    rationale: Option<String>,
    caller: &str,
    alias: &str,
    tenant: &str,
    lifetime: u64,
) -> (r: Decision)
    requires
        old(f).wf(),
        old(f)@.issued < u64::MAX,
    ensures
        final(f).wf(),
        exists|at: u64| #[trigger]
            decided(
                old(f)@,
                final(f)@,
                r,
                text::texts(nivedana.capabilities@),
                allowed,
                fleet::held_text(rationale),
                caller@,
                alias@,
                tenant@,
                lifetime,
                at,
            ),
{
    let at = fleet::now();
    decide_at(f, nivedana, allowed, rationale, caller, alias, tenant, lifetime, at)
}

/// What a caller would get.
pub open spec fn would(
    f: FleetView,
    verdict: Verdict,
    wanted: Seq<Seq<char>>,
    allowed: u32,
    why: Option<Seq<char>>,
) -> bool {
    match f.chosen(wanted, allowed as nat) {
        Chosen::NoneCapable => {
            &&& verdict matches Verdict::Deny { rationale }
            &&& rationale@ == none_capable(wanted)
        },
        Chosen::Fewer(available) => {
            &&& verdict matches Verdict::Would { count, rationale }
            &&& count == available
            &&& rationale@ == up_to(
                allowed,
                ", and "@,
                available,
                " matching machine(s) are free right now"@,
            )
        },
        Chosen::Machines(names) => {
            &&& verdict matches Verdict::Would { count, rationale }
            &&& count == names.len()
            &&& rationale@ == match why {
                Some(why) => why,
                None => "as things stand"@,
            }
        },
    }
}

/// Answers "what would I get", holding nothing. The fleet's own selection is asked, because
/// an estimate would eventually disagree with it, and be believed.
pub fn rehearse(f: &Fleet, nivedana: &Nivedana, allowed: u32, rationale: Option<String>) -> (r:
    Verdict)
    requires
        f.wf(),
    ensures
        would(
            f@,
            r,
            text::texts(nivedana.capabilities@),
            allowed,
            fleet::held_text(rationale),
        ),
{
    match f.select(nivedana.capabilities.as_slice(), allowed) {
        Ok(names) => {
            proof {
                let wanted = text::texts(nivedana.capabilities@);
                let ranking = f@.ranking(wanted);
                assert(text::texts(names@) == ranking.take(allowed as int));
                assert(names@.len() == text::texts(names@).len());
                assert(names@.len() == allowed);
            }
            Verdict::Would {
                count: names.len() as u32,
                rationale: match rationale {
                    Some(why) => why,
                    None => "as things stand".to_owned(),
                },
            }
        },
        Err(Shortfall::NoneCapable { wanted }) => Verdict::Deny {
            rationale: no_machine(wanted.as_slice()),
        },
        Err(Shortfall::Fewer { available }) => Verdict::Would {
            count: available,
            rationale: offer(
                allowed,
                ", and ",
                available,
                " matching machine(s) are free right now",
            ),
        },
    }
}

/// What a closed reservation leaves in its tenant's ledger.
pub open spec fn charge_of(closed: Closed, at: u64) -> EntryView {
    EntryView {
        at,
        credits: closed.credits,
        reservation: closed.reservation@.id,
        minutes: closed.minutes,
        machines: closed.reservation@.workers,
    }
}

/// The line a closed reservation leaves in its tenant's ledger.
pub fn charge(closed: &Closed, at: u64) -> (r: Entry)
    ensures
        r@ == charge_of(*closed, at),
{
    Entry {
        at,
        credits: closed.credits,
        reservation: closed.id().to_owned(),
        minutes: closed.minutes,
        machines: text::copied(closed.workers()),
    }
}

/// What is said of a reservation that ran out unreleased.
pub open spec fn taken_back(alias: Seq<char>, id: Seq<char>, machines: nat, credits: u64) -> Seq<
    char,
> {
    alias + "'s "@ + id + " expired unreleased, taking back "@ + text::decimal_of(machines)
        + " machine(s) — "@ + text::decimal_of(credits as nat) + " credit(s)"@
}

pub fn reaped(gone: &Closed) -> (r: String)
    ensures
        r@ == taken_back(
            gone.reservation@.alias,
            gone.reservation@.id,
            gone.reservation@.workers.len(),
            gone.credits,
        ),
{
    let mut r = gone.alias().to_owned();
    r.append("'s ");
    r.append(gone.id());
    r.append(" expired unreleased, taking back ");
    r.append(text::decimal(gone.workers().len() as u64).as_str());
    r.append(" machine(s) — ");
    r.append(text::decimal(gone.credits).as_str());
    r.append(" credit(s)");
    r
}

/// Do these orders tell each of these machines, and no other, that a reservation is over?
pub open spec fn frees(orders: Seq<Order>, id: Seq<char>, names: Seq<Seq<char>>) -> bool {
    &&& orders.len() == names.len()
    &&& forall|i: int|
        0 <= i < orders.len() ==> {
            &&& (#[trigger] orders[i]).worker@ == names[i]
            &&& orders[i].order matches Aadesh::Freed { reservation } && reservation@ == id
        }
}

/// What every machine of a reservation that is over has to be told.
pub fn freed(id: &str, workers: &[String]) -> (r: Vec<Order>)
    ensures
        frees(r@, id@, text::texts(workers@)),
{
    let mut r: Vec<Order> = Vec::new();
    for i in 0..workers.len()
        invariant
            r@.len() == i,
            forall|k: int|
                0 <= k < i ==> {
                    &&& (#[trigger] r@[k]).worker@ == workers@[k]@
                    &&& r@[k].order matches Aadesh::Freed { reservation } && reservation@ == id@
                },
    {
        r.push(
            Order {
                worker: workers[i].clone(),
                order: Aadesh::Freed { reservation: id.to_owned() },
            },
        );
    }
    r
}

/// What a machine that announced itself is to the fleet.
pub open spec fn arrival_of(register: Register, key: Seq<char>) -> WorkerView {
    WorkerView {
        name: register.name@,
        key,
        hints: text::texts(register.hints@),
        capabilities: text::texts(register.capabilities@),
        rate: if register.rate == 0 {
            1
        } else {
            register.rate
        },
        held_by: None,
    }
}

/// A machine that arrived, and holds nothing. One of unknown cost must not be free, so
/// silence means one.
pub fn arrival(register: Register, key: String) -> (r: Worker)
    ensures
        r@ == arrival_of(register, key@),
{
    Worker {
        name: register.name,
        key,
        hints: register.hints,
        capabilities: register.capabilities,
        rate: if register.rate == 0 {
            1
        } else {
            register.rate
        },
        held_by: None,
    }
}

// ---------------------------------------------------------------------------
// laws of granting
// ---------------------------------------------------------------------------

/// A rehearsal and a real ask agree: a real ask hands out machines exactly where a rehearsal
/// said so, and as many; and where it offers fewer, the rehearsal named the same number.
pub proof fn law_a_rehearsal_tells_what_a_real_ask_gives(
    before: FleetView,
    after: FleetView,
    rehearsed: Verdict,
    decision: Decision,
    wanted: Seq<Seq<char>>,
    allowed: u32,
    why: Option<Seq<char>>,
    caller: Seq<char>,
    alias: Seq<char>,
    tenant: Seq<char>,
    lifetime: u64,
    at: u64,
)
    requires
        would(before, rehearsed, wanted, allowed, why),
        decided(
            before,
            after,
            decision,
            wanted,
            allowed,
            why,
            caller,
            alias,
            tenant,
            lifetime,
            at,
        ),
    ensures
        decision.verdict matches Verdict::Grant { workers, .. } ==> rehearsed matches Verdict::Would {
            count,
            ..
        } && count == workers@.len(),
        decision.verdict matches Verdict::Counter { count: offered, .. } ==> rehearsed
            matches Verdict::Would { count, .. } && count == offered,
        decision.verdict is Deny <==> rehearsed is Deny,
{
}

/// What is granted to a tenant with a budget can be paid for in full, even if nobody releases
/// it: a grant of any number that an opinion can come to leaves the budget unexceeded.
pub proof fn law_a_grant_never_overruns_the_budget(
    f: FleetView,
    alias: Seq<char>,
    who: TenancyView,
    count: Option<u32>,
    wanted: Seq<Seq<char>>,
    spent: u64,
    opinion: OpinionView,
    allowed: u32,
    why: Seq<char>,
    names: Seq<Seq<char>>,
    caller: Seq<char>,
    at: u64,
    b: directory::Budget,
)
    requires
        f.wf(),
        who.budget == Some(b),
        f.committed(who.tenant) <= u64::MAX,
        spent + f.committed(who.tenant) <= b.credits,
        f.ranking(wanted).len() <= u32::MAX,
        entitled(f, alias, Some(who), count, wanted, spent, opinion) == Ok::<
            (u32, Seq<char>),
            Seq<char>,
        >((allowed, why)),
        f.chosen(wanted, allowed as nat) == Chosen::Machines(names),
    ensures
        spent + f.granted(
            names,
            caller,
            alias,
            who.tenant,
            fleet::lasting(who.lifetime) as nat,
            at,
        ).committed(who.tenant) <= b.credits,
{
    let brief = f.brief(wanted);
    let room = money_of(f, who, spent)->0.room();
    let most = room.affords(brief.rates, who.lifetime);
    room.lemma_some_are_afforded(brief.rates, who.lifetime);
    assert(room.buys(brief.rates, who.lifetime, most));
    assert(allowed <= most);
    assert(brief.rates =~= f.ranking(wanted).map_values(|n: Seq<char>| f.workers[n].rate));
    budget::law_an_affordable_grant_stays_within_budget(
        f,
        wanted,
        allowed as nat,
        names,
        brief.rates,
        room,
        most,
        caller,
        alias,
        who.tenant,
        who.lifetime,
        at,
    );
}

// ---------------------------------------------------------------------------
// what a decision is worth
// ---------------------------------------------------------------------------

/// A refusal is the word `deny` in any case of its letters, and no other word.
pub proof fn law_a_refusal_is_one_word(opinion: OpinionView)
    ensures
        opinion.denies() <==> {
            let v = opinion.verdict;
            &&& v.len() == 4
            &&& (v[0] == 'd' || v[0] == 'D')
            &&& (v[1] == 'e' || v[1] == 'E')
            &&& (v[2] == 'n' || v[2] == 'N')
            &&& (v[3] == 'y' || v[3] == 'Y')
        },
{
    reveal_strlit("deny");
    let v = opinion.verdict;
    let a = text::folded(v);
    let b = text::folded("deny"@);
    assert(b =~= seq!['d', 'e', 'n', 'y']);
    if a == b {
        assert(a.len() == v.len());
        assert(a[0] == b[0] && a[1] == b[1] && a[2] == b[2] && a[3] == b[3]);
        assert(a[0] == text::fold_case(v[0]));
        assert(a[1] == text::fold_case(v[1]));
        assert(a[2] == text::fold_case(v[2]));
        assert(a[3] == text::fold_case(v[3]));
    } else if v.len() == 4 && (v[0] == 'd' || v[0] == 'D') && (v[1] == 'e' || v[1] == 'E') && (v[2]
        == 'n' || v[2] == 'N') && (v[3] == 'y' || v[3] == 'Y') {
        assert(a =~= b);
    }
}

/// What is allowed is the smallest of everything that bounds it: what was proposed, the
/// ceiling, the ask, which counts as one where it names nothing, what is free, the host's cap
/// and what the budget buys. It is within all of them, and it is one of them.
pub proof fn law_what_is_allowed_is_the_tightest_bound(
    opinion: OpinionView,
    ceiling: u32,
    asked: u32,
    limit: Limit,
)
    requires
        !opinion.denies(),
    ensures
        ({
            let n = weighed(opinion, ceiling, asked, limit).allowed;
            &&& n <= opinion.count
            &&& n <= ceiling
            &&& n <= asked || (asked == 0 && n <= 1)
            &&& n <= limit.free
            &&& n <= limit.host
            &&& limit.affordable matches Some(most) ==> n <= most
            &&& {
                ||| n == opinion.count
                ||| n == ceiling
                ||| n == asked && asked > 0
                ||| n == 1 && asked == 0
                ||| n == limit.free
                ||| n == limit.host
                ||| limit.affordable == Some(n)
            }
        }),
        weighed(opinion, ceiling, asked, limit).denied is None,
        weighed(opinion, ceiling, asked, limit).said == opinion.count,
{
}

/// Where nothing is overshot the model's own words are what the caller is told; where something
/// is, they are not: a sentence that argued for another number does not explain this one.
pub proof fn law_words_are_passed_on_only_where_the_number_is(
    opinion: OpinionView,
    ceiling: u32,
    asked: u32,
    limit: Limit,
)
    requires
        !opinion.denies(),
        ceiling <= limit.ceiling,
        opinion.count <= ceiling,
        opinion.count <= asked,
    ensures
        ({
            let w = weighed(opinion, ceiling, asked, limit);
            &&& w.allowed == opinion.count ==> w.rationale == opinion.rationale && w.faults.len()
                == 0
            &&& w.allowed < opinion.count ==> w.faults.len() > 0 && text::begins(
                w.rationale,
                text::decimal_of(w.allowed as nat) + " machine(s): "@,
            )
        }),
{
    let w = weighed(opinion, ceiling, asked, limit);
    let head = text::decimal_of(w.allowed as nat) + " machine(s): "@;
    if w.allowed < opinion.count {
        assert(w.rationale.take(head.len() as int) =~= head);
    }
}

/// A plea is weighed exactly where the caller belongs to a tenant here, may ask, and the
/// tenant has written anything at all.
pub proof fn law_who_is_weighed(alias: Seq<char>, found: Option<TenancyView>)
    ensures
        unweighable(alias, found) is None <==> {
            &&& found matches Some(who)
            &&& who.may_ask
            &&& exists|i: int| 0 <= i < who.rulebook.len() && !text::is_space(#[trigger] who.rulebook[i])
        },
{
    if let Some(who) = found {
        lemma_blank(who.rulebook);
    }
}

proof fn lemma_blank(s: Seq<char>)
    ensures
        text::trim_of(s).len() == 0 <==> forall|i: int|
            0 <= i < s.len() ==> text::is_space(#[trigger] s[i]),
{
    lemma_trimmed_start(s);
    let t = text::trim_start_of(s);
    if t.len() > 0 {
        lemma_trimmed_end(t);
    }
}

proof fn lemma_trimmed_start(s: Seq<char>)
    ensures
        text::trim_start_of(s).len() == 0 <==> forall|i: int|
            0 <= i < s.len() ==> text::is_space(#[trigger] s[i]),
        text::trim_start_of(s).len() > 0 ==> !text::is_space(text::trim_start_of(s)[0]),
    decreases s.len(),
{
    if s.len() > 0 && text::is_space(s[0]) {
        let rest = s.drop_first();
        lemma_trimmed_start(rest);
        if text::trim_start_of(rest).len() == 0 {
            assert forall|i: int| 0 <= i < s.len() implies text::is_space(#[trigger] s[i]) by {
                if i > 0 {
                    assert(text::is_space(rest[i - 1]));
                }
            }
        } else {
            let i = choose|i: int| 0 <= i < rest.len() && !text::is_space(#[trigger] rest[i]);
            assert(!text::is_space(s[i + 1]));
        }
    } else if s.len() > 0 {
        assert(!text::is_space(s[0]));
    }
}

proof fn lemma_trimmed_end(s: Seq<char>)
    requires
        s.len() > 0,
        !text::is_space(s[0]),
    ensures
        text::trim_end_of(s).len() > 0,
    decreases s.len(),
{
    if text::is_space(s.last()) {
        lemma_trimmed_end(s.drop_last());
    }
}

/// The fleet has something to offer exactly where a machine that could do it is here and one
/// is free; and whether it is worth trying again is told apart.
pub proof fn law_busy_is_not_impossible(brief: fleet::BriefView, wanted: Seq<Seq<char>>)
    ensures
        unavailable(brief, wanted) is None <==> brief.capable > 0 && brief.free > 0,
        brief.capable == 0 ==> unavailable(brief, wanted) == Some(none_capable(wanted)),
        brief.capable > 0 && brief.free == 0 ==> unavailable(brief, wanted) == Some(
            none_free(brief.capable, wanted),
        ),
        none_capable(wanted) != none_free(brief.capable, wanted),
{
    reveal_strlit("no machine in the fleet can do ");
    text::lemma_decimal_reads_back(brief.capable as nat);
    let digits = text::decimal_of(brief.capable as nat);
    assert(none_capable(wanted)[0] == 'n');
    assert(none_free(brief.capable, wanted)[0] == digits[0]);
    assert(text::is_digit(digits[0]));
}

/// A tenancy is limited by its own ceiling, by what is free and, where it is metered, by what
/// its credits buy beyond what it spent and what its open grants may still cost.
pub proof fn law_a_tenancy_is_limited_by_its_ceiling_the_fleet_and_its_money(
    f: FleetView,
    who: TenancyView,
    wanted: Seq<Seq<char>>,
    spent: u64,
    minutes: nat,
)
    requires
        f.wf(),
        f.ranking(wanted).len() <= u32::MAX,
        who.lifetime > 0,
        60 * minutes >= who.lifetime > 60 * (minutes - 1),
        f.committed(who.tenant) <= u64::MAX,
    ensures
        ({
            let limit = limit_of(f, who, wanted, spent);
            let rates = f.ranking(wanted).map_values(|n: Seq<char>| f.workers[n].rate);
            &&& limit.ceiling == who.ceiling
            &&& limit.host == who.ceiling
            &&& limit.free == f.ranking(wanted).len()
            &&& who.budget is None ==> limit.affordable is None
            &&& who.budget matches Some(b) ==> {
                &&& limit.affordable matches Some(n)
                &&& n <= rates.len()
                &&& rates.take(n as int).fold_left(0nat, |sum: nat, rate: u32| sum + rate as nat)
                    * minutes <= if spent + f.committed(who.tenant) < b.credits {
                    b.credits - spent - f.committed(who.tenant)
                } else {
                    0
                }
                &&& n < rates.len() && n < u32::MAX ==> rates.take(n + 1).fold_left(
                    0nat,
                    |sum: nat, rate: u32| sum + rate as nat,
                ) * minutes > if spent + f.committed(who.tenant) < b.credits {
                    b.credits - spent - f.committed(who.tenant)
                } else {
                    0
                }
            }
        }),
{
    let rates = f.ranking(wanted).map_values(|n: Seq<char>| f.workers[n].rate);
    assert(f.brief(wanted).rates == rates);
    if let Some(b) = who.budget {
        let room = money_of(f, who, spent)->0.room();
        assert(room.committed == f.committed(who.tenant));
        crate::budget::law_what_is_afforded_fits_and_one_more_does_not(
            room,
            rates,
            who.lifetime,
            minutes,
        );
    }
}

/// What a caller is entitled to is a number of machines, one at least, that every bound
/// admits; and whoever is weighed, on a fleet that has something to offer, gets the tightest
/// of those bounds unless they were refused or it is nothing.
pub proof fn law_who_is_entitled_and_to_how_many(
    f: FleetView,
    alias: Seq<char>,
    found: Option<TenancyView>,
    count: Option<u32>,
    wanted: Seq<Seq<char>>,
    spent: u64,
    opinion: OpinionView,
)
    ensures
        ({
            let asked = match count {
                Some(n) => n,
                None => 1,
            };
            let said = entitled(f, alias, found, count, wanted, spent, opinion);
            &&& said is Ok ==> {
                &&& found is Some
                &&& found->0.may_ask
                &&& f.brief(wanted).free > 0
                &&& !opinion.denies()
            }
            &&& said matches Ok(pair) ==> {
                let limit = limit_of(f, found->0, wanted, spent);
                let w = weighed(opinion, found->0.ceiling, asked, limit);
                &&& pair.0 == w.allowed
                &&& pair.0 >= 1
                &&& pair.0 <= opinion.count
                &&& pair.0 <= found->0.ceiling
                &&& pair.0 <= asked || asked == 0
                &&& pair.1 == w.rationale
            }
            &&& found matches Some(who) ==> (unweighable(alias, found) is None && unavailable(
                f.brief(wanted),
                wanted,
            ) is None && !opinion.denies() && opinion.count >= 1 && who.ceiling >= 1 && f.brief(
                wanted,
            ).free >= 1 && (limit_of(f, who, wanted, spent).affordable matches Some(most)
                ==> most >= 1) ==> said is Ok)
        }),
{
}

/// What this deployment attests of a caller stands, whatever an issuer vouched for; what only
/// an issuer vouched for stands too; and nothing that neither of them said.
pub proof fn law_the_deployments_own_word_wins(
    asked: Asked,
    f: FleetView,
    alias: Seq<char>,
    who: TenancyView,
    vouched: Map<Seq<char>, Seq<char>>,
    count: Option<u32>,
    capabilities: Seq<Seq<char>>,
    said: Seq<(Seq<char>, Seq<char>)>,
    spent: u64,
    key: Seq<char>,
)
    requires
        asks(asked, f, alias, who, vouched, count, capabilities, said, spent),
    ensures
        ({
            let told = asked.advice.attested.facts.dict();
            let own = table::dict_of(who.facts);
            &&& own.dom().contains(key) ==> told.dom().contains(key) && told[key] == own[key]
            &&& !own.dom().contains(key) && vouched.dom().contains(key) ==> told.dom().contains(key)
                && told[key] == vouched[key]
            &&& !own.dom().contains(key) && !vouched.dom().contains(key) ==> !told.dom().contains(
                key,
            )
        }),
{
}

/// Whoever weighs a plea is told of the caller whom the connection proved, the tenant that
/// pays and its rules in full, and what the caller said, untouched; and every number that
/// the answer is then held to.
pub proof fn law_every_limit_is_told_before_it_is_applied(
    asked: Asked,
    f: FleetView,
    alias: Seq<char>,
    who: TenancyView,
    vouched: Map<Seq<char>, Seq<char>>,
    count: Option<u32>,
    capabilities: Seq<Seq<char>>,
    said: Seq<(Seq<char>, Seq<char>)>,
    spent: u64,
)
    requires
        asks(asked, f, alias, who, vouched, count, capabilities, said, spent),
    ensures
        asked.advice.rulebook@ == who.rulebook,
        asked.advice.attested.caller@ == alias,
        asked.advice.attested.tenant@ == who.tenant,
        asked.advice.declared.said@ == said,
        text::texts(asked.advice.declared.capabilities@) == capabilities,
        asked.advice.declared.count == count.unwrap_or(1),
        asked.advice.standing == who.standing,
        asked.advice.lifetime == who.lifetime,
        asked.advice.ceiling == asked.limit.ceiling,
        asked.advice.ceiling == asked.limit.host,
        asked.advice.fleet.free == asked.limit.free,
        asked.advice.money is None ==> asked.limit.affordable is None,
        asked.advice.money matches Some(m) ==> {
            &&& who.budget matches Some(b)
            &&& m.budget == b.credits
            &&& m.window_secs == b.window
            &&& m.spent == spent
            &&& f.committed(who.tenant) <= u64::MAX ==> m.committed == f.committed(who.tenant)
            &&& asked.limit.affordable == Some(
                m.room().affords(asked.advice.fleet.rates@, asked.advice.lifetime),
            )
        },
{
}

/// A grant hands out as many machines as were allowed: each of them is told of the
/// reservation and of the caller it is for, and the caller is told how to reach each, with a
/// ticket that is theirs and lasts as long as the reservation. A counter offers fewer than
/// were allowed, and nothing at all is handed out then, nor on a denial.
pub proof fn law_a_grant_tells_both_ends(
    before: FleetView,
    after: FleetView,
    decision: Decision,
    wanted: Seq<Seq<char>>,
    allowed: u32,
    why: Option<Seq<char>>,
    caller: Seq<char>,
    alias: Seq<char>,
    tenant: Seq<char>,
    lifetime: u64,
    at: u64,
)
    requires
        before.wf(),
        decided(
            before,
            after,
            decision,
            wanted,
            allowed,
            why,
            caller,
            alias,
            tenant,
            lifetime,
            at,
        ),
    ensures
        match decision.verdict {
            Verdict::Grant { reservation, workers, expires_in, rationale } => {
                let id = reservation@;
                &&& workers@.len() == allowed
                &&& decision.orders@.len() == allowed
                &&& fleet::held_text(rationale) == why
                &&& expires_in >= 1
                &&& lifetime > 0 ==> expires_in == lifetime
                &&& after.reservations.dom().contains(id)
                &&& !before.reservations.dom().contains(id)
                &&& after.reservations[id].caller == caller
                &&& after.reservations[id].alias == alias
                &&& after.reservations[id].tenant == tenant
                &&& after.reservations[id].started_at == at
                &&& at + expires_in <= u64::MAX ==> after.reservations[id].expires_at == at
                    + expires_in
                &&& forall|i: int|
                    0 <= i < allowed ==> {
                        let n = (#[trigger] workers@[i]).name@;
                        &&& after.reservations[id].workers[i] == n
                        &&& before.workers.dom().contains(n)
                        &&& before.workers[n].held_by is None
                        &&& after.workers[n].held_by == Some(id)
                        &&& workers@[i].key@ == before.workers[n].key
                        &&& text::texts(workers@[i].hints@) == before.workers[n].hints
                        &&& workers@[i].ticket.name@ == n
                        &&& workers@[i].ticket.caller@ == caller
                        &&& workers@[i].ticket.seconds == expires_in
                        &&& decision.orders@[i].worker@ == n
                        &&& decision.orders@[i].order matches Aadesh::Assigned {
                            reservation: told,
                            caller: by,
                            limits,
                        } && told@ == id && by@ == caller && limits.max_seconds == expires_in
                    }
            },
            Verdict::Counter { count, .. } => {
                &&& count < allowed
                &&& after == before
                &&& decision.orders@.len() == 0
            },
            Verdict::Deny { .. } => {
                &&& forall|n: Seq<char>|
                    before.workers.dom().contains(n) ==> exists|c: int|
                        0 <= c < wanted.len() && !(#[trigger] before.workers[n]).capabilities.contains(
                            #[trigger] wanted[c],
                        )
                &&& after == before
                &&& decision.orders@.len() == 0
            },
            _ => false,
        },
{
    match before.chosen(wanted, allowed as nat) {
        Chosen::NoneCapable => {
            assert forall|n: Seq<char>| before.workers.dom().contains(n) implies exists|c: int|
                0 <= c < wanted.len() && !(#[trigger] before.workers[n]).capabilities.contains(
                    #[trigger] wanted[c],
                ) by {
                assert(!before.capable(wanted, n));
            }
        },
        Chosen::Fewer(available) => {},
        Chosen::Machines(names) => {
            crate::holding::law_a_choice_is_of_free_capable_machines(
                before,
                wanted,
                allowed as nat,
                names,
            );
            crate::holding::law_an_id_is_never_given_out_twice(before);
            match decision.verdict {
                Verdict::Grant { reservation, workers, expires_in, rationale } => {
                    assert forall|i: int| 0 <= i < allowed implies {
                        let n = (#[trigger] workers@[i]).name@;
                        &&& n == names[i]
                        &&& before.workers.dom().contains(n)
                        &&& before.workers[n].held_by is None
                        &&& after.workers[n].held_by == Some(reservation@)
                    } by {
                        assert(names.contains(names[i]));
                        assert(before.candidate(wanted, names[i]));
                        assert(leads(
                            workers@[i],
                            after.workers[names[i]],
                            caller,
                            alias,
                            expires_in,
                        ));
                        assert(assigns(
                            decision.orders@[i],
                            after.workers[names[i]].name,
                            reservation@,
                            caller,
                            expires_in,
                        ));
                    }
                },
                _ => {},
            }
        },
    }
}

/// What a reservation cost is on its tenant's ledger from the moment it is over until the
/// window has passed, in full.
pub proof fn law_what_was_used_is_charged(
    ledger: Seq<char>,
    closed: Closed,
    at: u64,
    now: u64,
    window: u64,
)
    requires
        text::whole_lines(ledger),
        charge_of(closed, at).writable(),
    ensures
        budget::spent_of(ledger + charge_of(closed, at).line(), now, window) == budget::spent_of(
            ledger,
            now,
            window,
        ) + (if at + window >= now {
            closed.credits as nat
        } else {
            0
        }),
        charge_of(closed, at).reservation == closed.reservation@.id,
        charge_of(closed, at).minutes == closed.minutes,
        charge_of(closed, at).machines == closed.reservation@.workers,
{
    budget::law_what_was_spent_counts_until_the_window_has_passed(
        ledger,
        charge_of(closed, at),
        now,
        window,
    );
}

/// Whoever belongs to a tenant spends its money and holds machines as long as it says; whoever
/// belongs to none spends their own, and holds them for ten minutes.
pub proof fn law_a_tenant_pays_for_its_callers(who: TenancyView, alias: Seq<char>)
    ensures
        payer(Some(who), alias) == who.tenant,
        payer(None, alias) == alias,
        lifetime_of(Some(who)) == who.lifetime,
        lifetime_of(None) == 600,
{
}

/// A machine that arrives is free, can do what it says, costs what it says, and one at least.
pub proof fn law_no_machine_is_free_of_charge(register: Register, key: Seq<char>)
    ensures
        ({
            let w = arrival_of(register, key);
            &&& w.rate >= 1
            &&& register.rate > 0 ==> w.rate == register.rate
            &&& register.rate == 0 ==> w.rate == 1
            &&& w.held_by is None
            &&& w.name == register.name@
            &&& w.key == key
            &&& w.hints == text::texts(register.hints@)
            &&& w.capabilities == text::texts(register.capabilities@)
        }),
{
}

/// Every machine of a reservation that is over hears of it, once for each time it was named,
/// and no other machine does.
pub proof fn law_every_machine_hears_that_it_is_free(
    orders: Seq<Order>,
    id: Seq<char>,
    names: Seq<Seq<char>>,
    n: Seq<char>,
)
    requires
        frees(orders, id, names),
    ensures
        orders.len() == names.len(),
        names.contains(n) <==> exists|i: int|
            0 <= i < orders.len() && (#[trigger] orders[i]).worker@ == n && (
            orders[i].order matches Aadesh::Freed { reservation } && reservation@ == id),
        forall|i: int| 0 <= i < orders.len() ==> (#[trigger] orders[i]).order is Freed,
{
    if names.contains(n) {
        let i = names.index_of(n);
        assert(orders[i].worker@ == n);
    }
}

/// Where fewer machines are free than a caller may have, it is offered what is free, and told
/// so: a number below what it may have, and that of the free machines that can do the work.
pub proof fn law_less_is_offered_where_less_is_free(
    before: FleetView,
    after: FleetView,
    decision: Decision,
    wanted: Seq<Seq<char>>,
    allowed: u32,
    why: Option<Seq<char>>,
    caller: Seq<char>,
    alias: Seq<char>,
    tenant: Seq<char>,
    lifetime: u64,
    at: u64,
)
    requires
        before.wf(),
        decided(
            before,
            after,
            decision,
            wanted,
            allowed,
            why,
            caller,
            alias,
            tenant,
            lifetime,
            at,
        ),
    ensures
        decision.verdict matches Verdict::Counter { count, .. } ==> {
            &&& count < allowed
            &&& count == before.ranking(wanted).len()
            &&& after == before
            &&& decision.orders@.len() == 0
        },
        decision.verdict is Deny ==> after == before && decision.orders@.len() == 0,
        decision.verdict matches Verdict::Grant { workers, .. } ==> workers@.len() == allowed,
        decision.verdict is Grant || decision.verdict is Counter || decision.verdict is Deny,
{
    fleet::lemma_ranking(before, wanted);
}

/// Every limit that was overshot is named with what was proposed and with the limit itself, and
/// no other is.
pub proof fn law_a_fault_names_both_numbers(limit: Limit, said: u32, bounded: u32, line: Seq<char>)
    requires
        bounded <= said,
    ensures
        limit.faults(said, bounded).contains(line) ==> {
            ||| said > limit.ceiling && line == "proposed "@ + text::decimal_of(said as nat)
                + " against a stated ceiling of "@ + text::decimal_of(limit.ceiling as nat)
            ||| said > limit.free && line == "proposed "@ + text::decimal_of(said as nat)
                + " with only "@ + text::decimal_of(limit.free as nat) + " machine(s) free"@
            ||| bounded > limit.host && line == "proposed "@ + text::decimal_of(
                if bounded <= limit.free {
                    bounded as nat
                } else {
                    limit.free as nat
                },
            ) + " against this tenant's host ceiling of "@ + text::decimal_of(limit.host as nat)
            ||| (limit.affordable matches Some(most) && bounded > most && exists|n: u32|
                n > most && line == "proposed "@ + #[trigger] text::decimal_of(n as nat)
                    + ", but the budget buys "@ + text::decimal_of(most as nat))
        },
        said > limit.ceiling ==> limit.faults(said, bounded).contains(
            "proposed "@ + text::decimal_of(said as nat) + " against a stated ceiling of "@
                + text::decimal_of(limit.ceiling as nat),
        ),
        said > limit.free ==> limit.faults(said, bounded).contains(
            "proposed "@ + text::decimal_of(said as nat) + " with only "@ + text::decimal_of(
                limit.free as nat,
            ) + " machine(s) free"@,
        ),
{
    reveal_strlit("");
    let a = past_ceiling(said, limit.ceiling);
    let b = past_free(said, limit.free);
    let had = least(bounded, limit.free);
    let held = least(had, limit.host);
    let c = past_host(had, limit.host);
    let d = match limit.affordable {
        Some(most) => past_budget(held, most),
        None => Seq::empty(),
    };
    let all = limit.faults(said, bounded);
    assert(all == a + b + c + d);
    let ceiling = "proposed "@ + text::decimal_of(said as nat) + " against a stated ceiling of "@
        + text::decimal_of(limit.ceiling as nat);
    assert(ceiling + ""@ =~= ceiling);
    let host = "proposed "@ + text::decimal_of(had as nat)
        + " against this tenant's host ceiling of "@ + text::decimal_of(limit.host as nat);
    assert(host + ""@ =~= host);
    if let Some(most) = limit.affordable {
        let money = "proposed "@ + text::decimal_of(held as nat) + ", but the budget buys "@
            + text::decimal_of(most as nat);
        assert(money + ""@ =~= money);
    }
    if said > limit.ceiling {
        assert(all[0] == ceiling);
    }
    if said > limit.free {
        assert(all[a.len() as int] == b[0]);
    }
    if all.contains(line) {
        let k = all.index_of(line);
        if k < a.len() {
            assert(all[k] == a[k]);
        } else if k < a.len() + b.len() {
            assert(all[k] == b[k - a.len()]);
        } else if k < a.len() + b.len() + c.len() {
            assert(all[k] == c[k - a.len() - b.len()]);
        } else {
            assert(all[k] == d[k - a.len() - b.len() - c.len()]);
        }
    }
}

/// Nothing is granted exactly where somebody refused or where everything was cut away, and the
/// reason is the refusal's own, or every limit that was overshot.
pub proof fn law_nothing_is_granted_without_a_number(w: WeighedView, wanted: u32)
    ensures
        w.granted() is None <==> w.denied is Some || w.allowed == 0,
        w.granted() matches Some(pair) ==> pair.0 == w.allowed && pair.1 == w.rationale,
        w.denied matches Some(why) ==> w.refusal(wanted) == why,
        w.denied is None && w.faults.len() > 0 ==> w.refusal(wanted) == text::joined(
            w.faults,
            "; "@,
        ),
        w.denied is None && w.faults.len() == 0 ==> w.refusal(wanted)
            == "this policy granted none of the "@ + text::decimal_of(wanted as nat)
            + " asked for"@,
        w.fault_report(Seq::empty()) is Some <==> w.faults.len() > 0,
{
}

/// What is logged of a decision is both numbers, what was said and what is given.
pub proof fn law_both_numbers_are_logged(w: WeighedView, alias: Seq<char>)
    requires
        w.denied is None,
    ensures
        w.log(alias) == "policy weighed "@ + alias + ": said "@ + text::decimal_of(w.said as nat)
            + ", giving "@ + text::decimal_of(w.allowed as nat) + " — "@ + w.rationale,
{
}

/// Whoever is offered less is told both numbers: what they may have, and what is free.
pub proof fn law_an_offer_of_less_tells_both_numbers(
    before: FleetView,
    after: FleetView,
    decision: Decision,
    rehearsed: Verdict,
    wanted: Seq<Seq<char>>,
    allowed: u32,
    why: Option<Seq<char>>,
    caller: Seq<char>,
    alias: Seq<char>,
    tenant: Seq<char>,
    lifetime: u64,
    at: u64,
)
    requires
        decided(
            before,
            after,
            decision,
            wanted,
            allowed,
            why,
            caller,
            alias,
            tenant,
            lifetime,
            at,
        ),
        would(before, rehearsed, wanted, allowed, why),
    ensures
        decision.verdict matches Verdict::Counter { count, rationale } ==> rationale@
            == "you may have up to "@ + text::decimal_of(allowed as nat) + ", but "@
            + text::decimal_of(count as nat) + " matching machine(s) are free"@,
        rehearsed matches Verdict::Would { count, rationale } ==> (if count < allowed {
            rationale@ == "you may have up to "@ + text::decimal_of(allowed as nat) + ", and "@
                + text::decimal_of(count as nat) + " matching machine(s) are free right now"@
        } else {
            why matches Some(w) ==> rationale@ == w
        }),
{
}

/// A reservation that ran out is told of with whose it was, how many machines come back and what
/// it cost.
pub proof fn law_what_is_taken_back_is_told(
    alias: Seq<char>,
    id: Seq<char>,
    machines: nat,
    credits: u64,
)
    ensures
        taken_back(alias, id, machines, credits) == alias + "'s "@ + id
            + " expired unreleased, taking back "@ + text::decimal_of(machines)
            + " machine(s) — "@ + text::decimal_of(credits as nat) + " credit(s)"@,
{
}

/// Why a plea is not weighed, or cannot be served, is told in words that name who or what.
pub proof fn law_a_plea_that_is_not_weighed_is_told_why(
    alias: Seq<char>,
    who: TenancyView,
    wanted: Seq<Seq<char>>,
    capable: u32,
)
    ensures
        unweighable(alias, None) == Some(alias + " is not a tenant of this controller"@),
        !who.may_ask ==> unweighable(alias, Some(who)) == Some(
            alias + " may not ask this controller for machines"@,
        ),
        who.may_ask && text::trim_of(who.rulebook).len() == 0 ==> unweighable(alias, Some(who))
            == Some(
            "tenant `"@ + who.tenant
                + "` has nothing written down — no policy to weigh this against"@,
        ),
        none_capable(wanted) == "no machine in the fleet can do "@ + text::list_of(wanted)
            + " — waiting will not change that"@,
        none_free(capable, wanted) == text::decimal_of(capable as nat) + " machine(s) here can do "@
            + text::list_of(wanted)
            + ", and none are free right now — this one is worth retrying"@,
{
}

/// An overshot limit is reported loudly, with whose policy it was, every limit that was overshot
/// and what the answer was cut to.
pub proof fn law_an_overshot_limit_is_reported(w: WeighedView, tenant: Seq<char>)
    requires
        w.faults.len() > 0,
    ensures
        w.fault_report(tenant) == Some(
            "policy for "@ + tenant + " overshot limits it was shown ("@ + text::joined(
                w.faults,
                "; "@,
            ) + ") — cut to "@ + text::decimal_of(w.allowed as nat)
                + ". Fix the policy; the prompt stated every one of them."@,
        ),
{
}

} // verus!
