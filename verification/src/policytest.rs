//! Checking a policy the way code is checked.
//!
//! A policy decides how much money a fleet spends, and prose can be ambiguous in ways nobody
//! notices until a release night. So cases are checked in beside the policy: a caller, a plea,
//! the fleet and the money at that moment, and what should come of it. The decision is the
//! controller's own. The cases never reach whoever weighs: they are no part of the rulebook.

use vstd::prelude::*;
use vstd::string::*;

use crate::adviser::{Advice, Attested, Declared, Money, OpinionView};
use crate::budget;
use crate::budget::Room;
use crate::controller;
use crate::controller::{Asked, Limit, Weighed, WeighedView};
use crate::directory;
use crate::fleet;
use crate::fleet::{Brief, BriefView};
use crate::json;
use crate::json::{Json, JsonView};
use crate::path;
use crate::policy::{GrantsView, Policy};
use crate::proto;
use crate::proto::{FileView, PolicyFile};
use crate::rulebook::Rulebook;
use crate::table;
use crate::table::Table;
use crate::text;

verus! {

pub const DIR: &'static str = "policy-tests";

// ---------------------------------------------------------------------------
// what a case claims
// ---------------------------------------------------------------------------

/// What the author claims should happen. As vague as the rule it checks: a bound can be
/// stated without inventing a number the policy never named.
#[derive(Debug, Clone)]
pub struct Expect {
    /// Exactly this many.
    pub count: Option<u32>,
    pub at_most: Option<u32>,
    pub at_least: Option<u32>,
    /// `allow`, `counter` or `deny`, as the caller would experience it.
    pub verdict: Option<String>,
}

#[verifier::ext_equal]
pub struct ExpectView {
    pub count: Option<u32>,
    pub at_most: Option<u32>,
    pub at_least: Option<u32>,
    pub verdict: Option<Seq<char>>,
}

impl View for Expect {
    type V = ExpectView;

    open spec fn view(&self) -> ExpectView {
        ExpectView {
            count: self.count,
            at_most: self.at_most,
            at_least: self.at_least,
            verdict: fleet::held_text(self.verdict),
        }
    }
}

/// What a caller experiences: fewer than asked is a counter however it happened, and nothing
/// at all is a denial whether somebody refused or a clamp took it.
pub open spec fn experienced(got: u32, asked: u32, denied: bool) -> Seq<char> {
    if denied || got == 0 {
        "deny"@
    } else if got < asked {
        "counter"@
    } else {
        "allow"@
    }
}

pub open spec fn expected_got(want: Seq<char>, got: Seq<char>) -> Seq<char> {
    "expected "@ + want + ", got "@ + got
}

/// The most that can come of an ask, whatever anybody says.
pub open spec fn most_for(asked: u32) -> u32 {
    if asked == 0 {
        1
    } else {
        asked
    }
}

impl ExpectView {
    pub open spec fn says_something(self) -> bool {
        self.count is Some || self.at_most is Some || self.at_least is Some || self.verdict is Some
    }

    /// What went wrong, or nothing.
    pub open spec fn mismatch(self, got: u32, asked: u32, denied: bool) -> Option<Seq<char>> {
        let came = experienced(got, asked, denied);
        let number = text::decimal_of(got as nat);
        if self.verdict is Some && text::folded(self.verdict->0) != text::folded(came) {
            Some(expected_got(self.verdict->0, came + " ("@ + number + ")"@))
        } else if self.count is Some && got != self.count->0 {
            Some(expected_got(text::decimal_of(self.count->0 as nat), number))
        } else if self.at_most is Some && got > self.at_most->0 {
            Some(
                expected_got("at most "@ + text::decimal_of(self.at_most->0 as nat), number),
            )
        } else if self.at_least is Some && got < self.at_least->0 {
            Some(
                expected_got("at least "@ + text::decimal_of(self.at_least->0 as nat), number),
            )
        } else {
            None
        }
    }

    /// Can any answer to an ask meet this? The ask is a hard ceiling, and who is denied gets
    /// nothing.
    pub open spec fn possible(self, asked: u32) -> bool {
        exists|got: u32, denied: bool|
            #![trigger self.mismatch(got, asked, denied)]
            got <= most_for(asked) && (denied ==> got == 0) && self.mismatch(
                got,
                asked,
                denied,
            ) is None
    }
}

fn miss(want: &str, got: &str) -> (r: String)
    ensures
        r@ == expected_got(want@, got@),
{
    let mut r = String::from_str("expected ");
    r.append(want);
    r.append(", got ");
    r.append(got);
    r
}

impl Expect {
    /// Empty expectations would pass against anything, which is worse than no test: it looks
    /// like coverage.
    pub fn says_something(&self) -> (r: bool)
        ensures
            r == self@.says_something(),
    {
        self.count.is_some() || self.at_most.is_some() || self.at_least.is_some()
            || self.verdict.is_some()
    }

    /// What went wrong, or nothing.
    pub fn check(&self, got: u32, asked: u32, denied: bool) -> (r: Option<String>)
        ensures
            match r {
                Some(s) => self@.mismatch(got, asked, denied) == Some(s@),
                None => self@.mismatch(got, asked, denied) is None,
            },
    {
        let came = if denied || got == 0 {
            "deny"
        } else if got < asked {
            "counter"
        } else {
            "allow"
        };
        let number = text::decimal(got as u64);
        if let Some(want) = &self.verdict {
            if !text::same_folded(want.as_str(), came) {
                let mut s = String::from_str(came);
                s.append(" (");
                s.append(number.as_str());
                s.append(")");
                return Some(miss(want.as_str(), s.as_str()));
            }
        }
        if let Some(want) = self.count {
            if got != want {
                return Some(miss(text::decimal(want as u64).as_str(), number.as_str()));
            }
        }
        if let Some(most) = self.at_most {
            if got > most {
                let mut s = String::from_str("at most ");
                s.append(text::decimal(most as u64).as_str());
                return Some(miss(s.as_str(), number.as_str()));
            }
        }
        if let Some(least) = self.at_least {
            if got < least {
                let mut s = String::from_str("at least ");
                s.append(text::decimal(least as u64).as_str());
                return Some(miss(s.as_str(), number.as_str()));
            }
        }
        None
    }
}

/// The three words are told apart whatever case they are written in.
proof fn lemma_words_differ()
    ensures
        text::folded("deny"@) != text::folded("counter"@),
        text::folded("deny"@) != text::folded("allow"@),
        text::folded("counter"@) != text::folded("allow"@),
{
    reveal_strlit("deny");
    reveal_strlit("counter");
    reveal_strlit("allow");
    assert(text::folded("deny"@).len() == 4);
    assert(text::folded("counter"@).len() == 7);
    assert(text::folded("allow"@).len() == 5);
}

impl Expect {
    /// Can any answer to an ask meet this?
    ///
    /// A case that cannot pass fails for being impossible rather than for anything being
    /// wrong, and a red build would not say which.
    pub fn possible(&self, asked: u32) -> (r: bool)
        ensures
            r == self@.possible(asked),
    {
        let most: u32 = if asked == 0 { 1 } else { asked };
        let mut low: u32 = 0;
        let mut high: u32 = most;
        proof {
            lemma_words_differ();
        }
        if let Some(want) = self.count {
            low = want;
            if want < high {
                high = want;
            }
        }
        if let Some(least) = self.at_least {
            if least > low {
                low = least;
            }
        }
        if let Some(bound) = self.at_most {
            if bound < high {
                high = bound;
            }
        }
        if let Some(want) = &self.verdict {
            if text::same_folded(want.as_str(), "deny") {
                high = 0;
            } else if text::same_folded(want.as_str(), "counter") {
                if low == 0 {
                    low = 1;
                }
                if asked == 0 {
                    assert forall|got: u32, denied: bool|
                        got <= most_for(asked) && (denied ==> got == 0) implies #[trigger] self@.mismatch(
                        got,
                        asked,
                        denied,
                    ) is Some by {}
                    return false;
                }
                if high > asked - 1 {
                    high = asked - 1;
                }
            } else if text::same_folded(want.as_str(), "allow") {
                if low < most {
                    low = most;
                }
            } else {
                assert forall|got: u32, denied: bool|
                    got <= most_for(asked) && (denied ==> got == 0) implies #[trigger] self@.mismatch(
                    got,
                    asked,
                    denied,
                ) is Some by {}
                return false;
            }
        }
        if low <= high {
            assert(self@.mismatch(low, asked, false) is None);
            true
        } else {
            assert forall|got: u32, denied: bool|
                got <= most_for(asked) && (denied ==> got == 0) implies #[trigger] self@.mismatch(
                got,
                asked,
                denied,
            ) is Some by {}
            false
        }
    }
}

// ---------------------------------------------------------------------------
// a case
// ---------------------------------------------------------------------------

/// The fleet at the moment of asking.
#[derive(Debug, Clone)]
pub struct FleetCase {
    pub capable: u32,
    pub free: u32,
    /// Credits per minute for the free ones, cheapest first.
    pub rates: Vec<u32>,
}

#[verifier::ext_equal]
pub struct FleetCaseView {
    pub capable: u32,
    pub free: u32,
    pub rates: Seq<u32>,
}

impl View for FleetCase {
    type V = FleetCaseView;

    open spec fn view(&self) -> FleetCaseView {
        FleetCaseView { capable: self.capable, free: self.free, rates: self.rates@ }
    }
}

impl FleetCaseView {
    /// A quiet fleet with room, so that a case about a rule does not have to describe hardware.
    pub open spec fn default() -> FleetCaseView {
        FleetCaseView { capable: 32, free: 32, rates: Seq::new(32, |i: int| 1u32) }
    }
}

impl Default for FleetCase {
    fn default() -> (r: Self)
        ensures
            r@ == FleetCaseView::default(),
    {
        let mut rates: Vec<u32> = Vec::new();
        for i in 0..32
            invariant
                rates@ == Seq::new(i as nat, |k: int| 1u32),
        {
            rates.push(1);
            assert(rates@ =~= Seq::new((i + 1) as nat, |k: int| 1u32));
        }
        let r = FleetCase { capable: 32, free: 32, rates };
        assert(r@.rates =~= FleetCaseView::default().rates);
        r
    }
}

/// The tenant's money at the moment of asking.
#[derive(Debug, Clone, Copy, PartialEq, Eq, Structural)]
pub struct MoneyCase {
    pub budget: u64,
    pub spent: u64,
    pub committed: u64,
    /// In seconds.
    pub window: u64,
}

/// A day, in seconds: the window where a case names none.
pub const DAY: u64 = 86400;

/// Who is asking, where a case does not say.
pub const SOMEBODY: &'static str = "somebody";

/// The host's cap, where a case names none.
pub const NO_CAP: u32 = u32::MAX;

/// One case. Everything but a name and what is expected has a default, so a case says only
/// what it is about.
#[derive(Debug)]
pub struct Case {
    pub name: String,
    /// Who is asking, as the controller would have proven it.
    pub caller: String,
    pub asked: u32,
    pub need: Vec<String>,
    /// The keys and values the caller sent.
    pub said: Table<String>,
    /// What the deployment would have attested about them.
    pub facts: Table<String>,
    /// Pinned, because the answer depends on it.
    pub fleet: FleetCase,
    pub money: Option<MoneyCase>,
    /// The host's cap on this tenant.
    pub ceiling: u32,
    pub expect: Expect,
}

#[verifier::ext_equal]
pub struct CaseView {
    pub name: Seq<char>,
    pub caller: Seq<char>,
    pub asked: u32,
    pub need: Seq<Seq<char>>,
    pub said: Map<Seq<char>, Seq<char>>,
    pub facts: Map<Seq<char>, Seq<char>>,
    pub fleet: FleetCaseView,
    pub money: Option<MoneyCase>,
    pub ceiling: u32,
    pub expect: ExpectView,
}

impl View for Case {
    type V = CaseView;

    open spec fn view(&self) -> CaseView {
        CaseView {
            name: self.name@,
            caller: self.caller@,
            asked: self.asked,
            need: text::texts(self.need@),
            said: self.said.dict(),
            facts: self.facts.dict(),
            fleet: self.fleet@,
            money: self.money,
            ceiling: self.ceiling,
            expect: self.expect@,
        }
    }
}

// ---------------------------------------------------------------------------
// how a case is written
// ---------------------------------------------------------------------------

/// The fields of a case, in order: a case may be written as a list of what they hold.
pub open spec fn case_names() -> Seq<Seq<char>> {
    seq![
        "name"@,
        "caller"@,
        "asked"@,
        "need"@,
        "said"@,
        "facts"@,
        "fleet"@,
        "money"@,
        "ceiling"@,
        "expect"@,
    ]
}

/// The fields of a fleet, in order.
pub open spec fn fleet_names() -> Seq<Seq<char>> {
    seq!["capable"@, "free"@, "rates"@]
}

/// The fields of a budget, in order.
pub open spec fn money_names() -> Seq<Seq<char>> {
    seq!["budget"@, "spent"@, "committed"@, "window"@]
}

/// The fields of an expectation, in order.
pub open spec fn expect_names() -> Seq<Seq<char>> {
    seq!["count"@, "at_most"@, "at_least"@, "verdict"@]
}

/// A list of texts under a name: empty where it is missing.
pub open spec fn texts_under(fields: Seq<(Seq<char>, Seq<char>)>, name: Seq<char>) -> Option<
    Seq<Seq<char>>,
> {
    match json::member(fields, name) {
        None => Some(Seq::empty()),
        Some(value) => match json::json_of(value) {
            Ok(JsonView::List(items)) => json::texts_in(items),
            _ => None,
        },
    }
}

/// A table of texts under a name: empty where it is missing.
pub open spec fn table_under(fields: Seq<(Seq<char>, Seq<char>)>, name: Seq<char>) -> Option<
    Map<Seq<char>, Seq<char>>,
> {
    match json::member(fields, name) {
        None => Some(Map::empty()),
        Some(value) => match json::json_of(value) {
            Ok(JsonView::Object(inner)) => json::table_in(inner),
            _ => None,
        },
    }
}

/// A number that fits, under a name that may be missing or null.
pub open spec fn bound_under(fields: Seq<(Seq<char>, Seq<char>)>, name: Seq<char>) -> Option<
    Option<u32>,
> {
    match json::optional_number(fields, name) {
        Ok(Some(n)) => if n <= u32::MAX {
            Some(Some(n as u32))
        } else {
            None
        },
        Ok(None) => Some(None),
        Err(_) => None,
    }
}

pub open spec fn narrowed(list: Seq<u64>) -> Seq<u32> {
    list.map_values(|n: u64| n as u32)
}

pub open spec fn fleet_in(fields: Seq<(Seq<char>, Seq<char>)>) -> Option<FleetCaseView> {
    match (
        json::number_member(fields, "capable"@, u32::MAX as u64),
        json::number_member(fields, "free"@, u32::MAX as u64),
        json::member(fields, "rates"@),
    ) {
        (Ok(Some(capable)), Ok(Some(free)), Some(rates)) => match json::json_of(rates) {
            Ok(JsonView::List(items)) => match json::numbers_in(items, u32::MAX as u64) {
                Some(list) => Some(
                    FleetCaseView {
                        capable: capable as u32,
                        free: free as u32,
                        rates: narrowed(list),
                    },
                ),
                None => None,
            },
            _ => None,
        },
        _ => None,
    }
}

pub open spec fn or(n: Option<u64>, otherwise: u64) -> u64 {
    match n {
        Some(n) => n,
        None => otherwise,
    }
}

pub open spec fn money_in(fields: Seq<(Seq<char>, Seq<char>)>) -> Option<MoneyCase> {
    match (
        json::number_member(fields, "budget"@, u64::MAX),
        json::number_member(fields, "spent"@, u64::MAX),
        json::number_member(fields, "committed"@, u64::MAX),
        json::number_member(fields, "window"@, u64::MAX),
    ) {
        (Ok(Some(budget)), Ok(spent), Ok(committed), Ok(window)) => Some(
            MoneyCase {
                budget,
                spent: or(spent, 0),
                committed: or(committed, 0),
                window: or(window, DAY),
            },
        ),
        _ => None,
    }
}

pub open spec fn expect_in(fields: Seq<(Seq<char>, Seq<char>)>) -> Option<ExpectView> {
    match (
        bound_under(fields, "count"@),
        bound_under(fields, "at_most"@),
        bound_under(fields, "at_least"@),
        json::optional_text(fields, "verdict"@),
    ) {
        (Some(count), Some(at_most), Some(at_least), Ok(verdict)) => Some(
            ExpectView { count, at_most, at_least, verdict },
        ),
        _ => None,
    }
}

/// The fleet under its name: the quiet one where it is missing.
pub open spec fn fleet_under(fields: Seq<(Seq<char>, Seq<char>)>) -> Option<FleetCaseView> {
    match json::member(fields, "fleet"@) {
        None => Some(FleetCaseView::default()),
        Some(value) => match json::fields_of(value, fleet_names()) {
            Some(inner) => fleet_in(inner),
            None => None,
        },
    }
}

/// The money under its name: none where it is missing or null.
pub open spec fn money_under(fields: Seq<(Seq<char>, Seq<char>)>) -> Option<Option<MoneyCase>> {
    match json::member(fields, "money"@) {
        None => Some(None),
        Some(value) => match json::json_of(value) {
            Ok(JsonView::Null) => Some(None),
            _ => match json::fields_of(value, money_names()) {
                Some(inner) => match money_in(inner) {
                    Some(money) => Some(Some(money)),
                    None => None,
                },
                None => None,
            },
        },
    }
}

pub open spec fn expect_under(fields: Seq<(Seq<char>, Seq<char>)>) -> Option<ExpectView> {
    match json::member(fields, "expect"@) {
        Some(value) => match json::fields_of(value, expect_names()) {
            Some(inner) => expect_in(inner),
            None => None,
        },
        None => None,
    }
}

/// The case that a JSON object is.
pub open spec fn case_in(fields: Seq<(Seq<char>, Seq<char>)>) -> Option<CaseView> {
    match (
        (
            json::text_member(fields, "name"@),
            json::text_member(fields, "caller"@),
            json::number_member(fields, "asked"@, u32::MAX as u64),
            json::number_member(fields, "ceiling"@, u32::MAX as u64),
        ),
        (
            texts_under(fields, "need"@),
            table_under(fields, "said"@),
            table_under(fields, "facts"@),
            fleet_under(fields),
            money_under(fields),
            expect_under(fields),
        ),
    ) {
        (
            (Ok(Some(name)), Ok(caller), Ok(asked), Ok(ceiling)),
            (Some(need), Some(said), Some(facts), Some(fleet), Some(money), Some(expect)),
        ) => Some(
            CaseView {
                name,
                caller: match caller {
                    Some(caller) => caller,
                    None => SOMEBODY@,
                },
                asked: or(asked, 1) as u32,
                need,
                said,
                facts,
                fleet,
                money,
                ceiling: or(ceiling, NO_CAP as u64) as u32,
                expect,
            },
        ),
        _ => None,
    }
}

/// The case that a text is.
pub open spec fn case_of(s: Seq<char>) -> Option<CaseView> {
    match json::fields_of(s, case_names()) {
        Some(fields) => case_in(fields),
        None => None,
    }
}

fn read_texts_under(fields: &[(String, String)], name: &str) -> (r: Option<Vec<String>>)
    ensures
        match r {
            Some(list) => texts_under(json::members(fields@), name@) == Some(text::texts(list@)),
            None => texts_under(json::members(fields@), name@) is None,
        },
{
    match json::find(fields, name) {
        None => {
            let none: Vec<String> = Vec::new();
            assert(text::texts(none@) =~= Seq::<Seq<char>>::empty());
            Some(none)
        },
        Some(value) => match json::read(value) {
            Ok(Json::List(items)) => json::read_texts(items.as_slice()),
            _ => None,
        },
    }
}

fn read_table_under(fields: &[(String, String)], name: &str) -> (r: Option<Table<String>>)
    ensures
        match r {
            Some(t) => table_under(json::members(fields@), name@) == Some(t.dict()),
            None => table_under(json::members(fields@), name@) is None,
        },
{
    match json::find(fields, name) {
        None => Some(Table::new()),
        Some(value) => match json::read(value) {
            Ok(Json::Object(inner)) => json::read_table(inner.as_slice()),
            _ => None,
        },
    }
}

fn read_bound(fields: &[(String, String)], name: &str) -> (r: Option<Option<u32>>)
    ensures
        r == bound_under(json::members(fields@), name@),
{
    match json::find_optional_number(fields, name) {
        Ok(Some(n)) => if n <= u32::MAX as u64 {
            Some(Some(n as u32))
        } else {
            None
        },
        Ok(None) => Some(None),
        Err(_) => None,
    }
}

fn read_fleet(fields: &[(String, String)]) -> (r: Option<FleetCase>)
    ensures
        match r {
            Some(f) => fleet_in(json::members(fields@)) == Some(f@),
            None => fleet_in(json::members(fields@)) is None,
        },
{
    let capable = match json::find_number(fields, "capable", u32::MAX as u64) {
        Ok(Some(n)) => n,
        _ => return None,
    };
    let free = match json::find_number(fields, "free", u32::MAX as u64) {
        Ok(Some(n)) => n,
        _ => return None,
    };
    let items = match json::find(fields, "rates") {
        Some(value) => match json::read(value) {
            Ok(Json::List(items)) => items,
            _ => return None,
        },
        None => return None,
    };
    let list = match json::read_numbers(items.as_slice(), u32::MAX as u64) {
        Some(list) => list,
        None => return None,
    };
    let mut rates: Vec<u32> = Vec::new();
    for i in 0..list.len()
        invariant
            rates@ == narrowed(list@).take(i as int),
    {
        rates.push(list[i] as u32);
        assert(rates@ =~= narrowed(list@).take(i as int + 1));
    }
    assert(rates@ =~= narrowed(list@));
    Some(FleetCase { capable: capable as u32, free: free as u32, rates })
}

fn read_money(fields: &[(String, String)]) -> (r: Option<MoneyCase>)
    ensures
        r == money_in(json::members(fields@)),
{
    let budget = match json::find_number(fields, "budget", u64::MAX) {
        Ok(Some(n)) => n,
        _ => return None,
    };
    let spent = match json::find_number(fields, "spent", u64::MAX) {
        Ok(Some(n)) => n,
        Ok(None) => 0,
        Err(_) => return None,
    };
    let committed = match json::find_number(fields, "committed", u64::MAX) {
        Ok(Some(n)) => n,
        Ok(None) => 0,
        Err(_) => return None,
    };
    match json::find_number(fields, "window", u64::MAX) {
        Ok(Some(window)) => Some(MoneyCase { budget, spent, committed, window }),
        Ok(None) => Some(MoneyCase { budget, spent, committed, window: DAY }),
        Err(_) => None,
    }
}

impl Expect {
    fn read(fields: &[(String, String)]) -> (r: Option<Self>)
        ensures
            match r {
                Some(e) => expect_in(json::members(fields@)) == Some(e@),
                None => expect_in(json::members(fields@)) is None,
            },
    {
        let count = match read_bound(fields, "count") {
            Some(n) => n,
            None => return None,
        };
        let at_most = match read_bound(fields, "at_most") {
            Some(n) => n,
            None => return None,
        };
        let at_least = match read_bound(fields, "at_least") {
            Some(n) => n,
            None => return None,
        };
        match json::find_optional_text(fields, "verdict") {
            Ok(verdict) => Some(Expect { count, at_most, at_least, verdict }),
            Err(_) => None,
        }
    }
}

impl Case {
    /// Reads one case.
    pub fn read(s: &str) -> (r: Option<Self>)
        ensures
            match r {
                Some(case) => case_of(s@) == Some(case@),
                None => case_of(s@) is None,
            },
    {
        let names = vec![
            "name", "caller", "asked", "need", "said", "facts", "fleet", "money", "ceiling",
            "expect",
        ];
        assert(json::names_of(names@) =~= case_names());
        let all = match json::fields(s, names) {
            Some(all) => all,
            None => return None,
        };
        let fields = all.as_slice();
        let name = match json::find_text(fields, "name") {
            Ok(Some(name)) => name,
            _ => return None,
        };
        let caller = match json::find_text(fields, "caller") {
            Ok(Some(caller)) => caller,
            Ok(None) => SOMEBODY.to_owned(),
            Err(_) => return None,
        };
        let asked: u64 = match json::find_number(fields, "asked", u32::MAX as u64) {
            Ok(Some(n)) => n,
            Ok(None) => 1,
            Err(_) => return None,
        };
        let ceiling: u64 = match json::find_number(fields, "ceiling", u32::MAX as u64) {
            Ok(Some(n)) => n,
            Ok(None) => NO_CAP as u64,
            Err(_) => return None,
        };
        let need = match read_texts_under(fields, "need") {
            Some(need) => need,
            None => return None,
        };
        let said = match read_table_under(fields, "said") {
            Some(said) => said,
            None => return None,
        };
        let facts = match read_table_under(fields, "facts") {
            Some(facts) => facts,
            None => return None,
        };
        let fleet = match json::find(fields, "fleet") {
            None => FleetCase::default(),
            Some(value) => {
                let names = vec!["capable", "free", "rates"];
                assert(json::names_of(names@) =~= fleet_names());
                match json::fields(value, names) {
                    Some(inner) => match read_fleet(inner.as_slice()) {
                        Some(fleet) => fleet,
                        None => return None,
                    },
                    None => return None,
                }
            },
        };
        let money = match json::find(fields, "money") {
            None => None,
            Some(value) => match json::read(value) {
                Ok(Json::Null) => None,
                _ => {
                    let names = vec!["budget", "spent", "committed", "window"];
                    assert(json::names_of(names@) =~= money_names());
                    match json::fields(value, names) {
                        Some(inner) => match read_money(inner.as_slice()) {
                            Some(money) => Some(money),
                            None => return None,
                        },
                        None => return None,
                    }
                },
            },
        };
        let expect = match json::find(fields, "expect") {
            None => return None,
            Some(value) => {
                let names = vec!["count", "at_most", "at_least", "verdict"];
                assert(json::names_of(names@) =~= expect_names());
                match json::fields(value, names) {
                    Some(inner) => match Expect::read(inner.as_slice()) {
                        Some(expect) => expect,
                        None => return None,
                    },
                    None => return None,
                }
            },
        };
        Some(
            Case {
                name,
                caller,
                asked: asked as u32,
                need,
                said,
                facts,
                fleet,
                money,
                ceiling: ceiling as u32,
                expect,
            },
        )
    }
}

// ---------------------------------------------------------------------------
// the cases of a folder
// ---------------------------------------------------------------------------

pub open spec fn cases(list: Seq<Case>) -> Seq<CaseView> {
    list.map_values(|c: Case| c@)
}

/// The cases that JSON items are, where each of them is one.
pub open spec fn cases_in(items: Seq<Seq<char>>) -> Option<Seq<CaseView>>
    decreases items.len(),
{
    if items.len() == 0 {
        Some(Seq::empty())
    } else {
        match (cases_in(items.drop_last()), case_of(items.last())) {
            (Some(before), Some(case)) => Some(before.push(case)),
            _ => None,
        }
    }
}

/// Is a file a list of cases, rather than one?
pub open spec fn is_list(s: Seq<char>) -> bool {
    text::begins(text::trim_start_of(s), "["@)
}

/// The cases that a file holds: one, or a list.
pub open spec fn cases_of(s: Seq<char>) -> Option<Seq<CaseView>> {
    if is_list(s) {
        match json::list_of(s) {
            Some(items) => cases_in(items),
            None => None,
        }
    } else {
        match case_of(s) {
            Some(case) => Some(seq![case]),
            None => None,
        }
    }
}

proof fn lemma_cases_in_none_stays(items: Seq<Seq<char>>, i: int)
    requires
        0 <= i <= items.len(),
        cases_in(items.take(i)) is None,
    ensures
        cases_in(items) is None,
    decreases items.len() - i,
{
    if i < items.len() {
        assert(items.take(i + 1).drop_last() =~= items.take(i));
        lemma_cases_in_none_stays(items, i + 1);
    } else {
        assert(items.take(i) =~= items);
    }
}

/// Reads the cases that a file holds.
pub fn read_cases(s: &str) -> (r: Option<Vec<Case>>)
    ensures
        match r {
            Some(list) => cases_of(s@) == Some(cases(list@)),
            None => cases_of(s@) is None,
        },
{
    let mut list: Vec<Case> = Vec::new();
    assert(cases(list@) =~= Seq::<CaseView>::empty());
    if !text::starts_with(text::trim_start(s), "[") {
        match Case::read(s) {
            Some(case) => {
                list.push(case);
                assert(cases(list@) =~= seq![case@]);
                return Some(list);
            },
            None => return None,
        }
    }
    let items = match json::list(s) {
        Some(items) => items,
        None => return None,
    };
    let ghost all = text::texts(items@);
    for i in 0..items.len()
        invariant
            is_list(s@),
            json::list_of(s@) == Some(all),
            all == text::texts(items@),
            cases_in(all.take(i as int)) == Some(cases(list@)),
    {
        assert(all.take(i as int + 1).drop_last() =~= all.take(i as int));
        assert(all.take(i as int + 1).last() == items@[i as int]@);
        match Case::read(items[i].as_str()) {
            Some(case) => {
                let ghost before = list@;
                list.push(case);
                assert(cases(list@) =~= cases(before).push(case@));
            },
            None => {
                proof {
                    lemma_cases_in_none_stays(all, i as int + 1);
                }
                return None;
            },
        }
    }
    assert(all.take(all.len() as int) =~= all);
    Some(list)
}

/// Why a case is refused before it is run, where it is.
pub open spec fn unfit(path: Seq<char>, case: CaseView) -> Option<Seq<char>> {
    if !case.expect.says_something() {
        Some(
            path + ": `"@ + case.name
                + "` expects nothing, so it would pass against any answer"@,
        )
    } else if !case.expect.possible(case.asked) {
        Some(
            path + ": `"@ + case.name + "` cannot pass — no answer to an ask for "@
                + text::decimal_of(case.asked as nat) + " is what it expects"@,
        )
    } else {
        None
    }
}

/// Why the first case of a list that is refused is.
pub open spec fn first_unfit(path: Seq<char>, list: Seq<CaseView>) -> Option<Seq<char>>
    decreases list.len(),
{
    if list.len() == 0 {
        None
    } else {
        match first_unfit(path, list.drop_last()) {
            Some(why) => Some(why),
            None => unfit(path, list.last()),
        }
    }
}

proof fn lemma_first_unfit_stays(path: Seq<char>, list: Seq<CaseView>, i: int)
    requires
        0 <= i <= list.len(),
        first_unfit(path, list.take(i)) is Some,
    ensures
        first_unfit(path, list) == first_unfit(path, list.take(i)),
    decreases list.len() - i,
{
    if i < list.len() {
        assert(list.take(i + 1).drop_last() =~= list.take(i));
        lemma_first_unfit_stays(path, list, i + 1);
    } else {
        assert(list.take(i) =~= list);
    }
}

fn fit(path: &str, list: &[Case]) -> (r: Result<(), String>)
    ensures
        match r {
            Ok(_) => first_unfit(path@, cases(list@)) is None,
            Err(why) => first_unfit(path@, cases(list@)) == Some(why@),
        },
{
    let ghost all = cases(list@);
    for i in 0..list.len()
        invariant
            all == cases(list@),
            first_unfit(path@, all.take(i as int)) is None,
    {
        let case = &list[i];
        assert(all.take(i as int + 1).drop_last() =~= all.take(i as int));
        assert(all.take(i as int + 1).last() == case@);
        let mut why = path.to_owned();
        why.append(": `");
        why.append(case.name.as_str());
        if !case.expect.says_something() {
            why.append("` expects nothing, so it would pass against any answer");
            proof {
                lemma_first_unfit_stays(path@, all, i as int + 1);
            }
            return Err(why);
        }
        if !case.expect.possible(case.asked) {
            why.append("` cannot pass — no answer to an ask for ");
            why.append(text::decimal(case.asked as u64).as_str());
            why.append(" is what it expects");
            proof {
                lemma_first_unfit_stays(path@, all, i as int + 1);
            }
            return Err(why);
        }
    }
    assert(all.take(all.len() as int) =~= all);
    Ok(())
}

/// Does a file of this name hold cases?
pub open spec fn holds_cases(name: Seq<char>) -> bool {
    let dot = text::last_place_of(name, '.');
    dot > 0 && name.skip(dot + 1) == "json"@
}

pub fn is_case_file(name: &str) -> (r: bool)
    ensures
        r == holds_cases(name@),
{
    proof {
        text::lemma_last_place_of(name@, '.');
    }
    match text::find_last(name, '.') {
        Some(dot) => {
            let size: usize = name.unicode_len();
            if dot == 0 {
                return false;
            }
            let end = text::slice(name, dot + 1, size);
            assert(end@ =~= name@.skip(dot as int + 1));
            text::same(end, "json")
        },
        None => false,
    }
}

/// The files of a folder that hold cases, by name.
pub open spec fn shelf(files: Seq<FileView>) -> Map<Seq<char>, FileView>
    decreases files.len(),
{
    if files.len() == 0 {
        Map::empty()
    } else {
        let before = shelf(files.drop_last());
        if holds_cases(files.last().path) {
            before.insert(files.last().path, files.last())
        } else {
            before
        }
    }
}

/// The cases of files in order, or what is wrong with the first that is not right.
pub open spec fn gathered(tests: Seq<char>, rows: Seq<(Seq<char>, FileView)>) -> Result<
    Seq<CaseView>,
    Seq<char>,
>
    decreases rows.len(),
{
    if rows.len() == 0 {
        Ok(Seq::empty())
    } else {
        match gathered(tests, rows.drop_last()) {
            Err(why) => Err(why),
            Ok(before) => {
                let at = path::join_of(tests, rows.last().1.path);
                match cases_of(rows.last().1.text) {
                    None => Err("reading "@ + at + json::fault_of(json::skimmed(vstd::utf8::encode_utf8(rows.last().1.text)))),
                    Some(list) => match first_unfit(at, list) {
                        Some(why) => Err(why),
                        None => Ok(before + list),
                    },
                }
            },
        }
    }
}

proof fn lemma_gathered_refused(tests: Seq<char>, rows: Seq<(Seq<char>, FileView)>, i: int)
    requires
        0 <= i <= rows.len(),
        gathered(tests, rows.take(i)) is Err,
    ensures
        gathered(tests, rows) == gathered(tests, rows.take(i)),
    decreases rows.len() - i,
{
    if i < rows.len() {
        assert(rows.take(i + 1).drop_last() =~= rows.take(i));
        lemma_gathered_refused(tests, rows, i + 1);
    } else {
        assert(rows.take(i) =~= rows);
    }
}

/// The cases that stand beside a policy. No folder of them, and an empty one, are refused: a
/// policy with no tests is a policy nobody can change safely.
pub open spec fn loaded(dir: Seq<char>, files: Option<Seq<FileView>>) -> Result<
    Seq<CaseView>,
    Seq<char>,
> {
    let tests = path::join_of(dir, DIR@);
    match files {
        None => Err(
            "no policy-tests/ in "@ + dir
                + " — a policy with no tests is a policy nobody can change safely"@,
        ),
        Some(files) => match gathered(tests, table::row_of(shelf(files))) {
            Err(why) => Err(why),
            Ok(list) => if list.len() == 0 {
                Err(tests + "/ has no cases in it"@)
            } else {
                Ok(list)
            },
        },
    }
}

fn gather(tests: &str, shelved: &Table<PolicyFile>) -> (r: Result<Vec<Case>, String>)
    ensures
        match r {
            Ok(list) => gathered(tests@, table::row_of(shelved.dict())) == Ok::<
                Seq<CaseView>,
                Seq<char>,
            >(cases(list@)),
            Err(why) => gathered(tests@, table::row_of(shelved.dict())) == Err::<
                Seq<CaseView>,
                Seq<char>,
            >(why@),
        },
{
    let mut all: Vec<Case> = Vec::new();
    assert(cases(all@) =~= Seq::<CaseView>::empty());
    let ghost rows = shelved@;
    let size: usize = shelved.len();
    for i in 0..size
        invariant
            size == shelved@.len(),
            rows == shelved@,
            rows == table::row_of(shelved.dict()),
            gathered(tests@, rows.take(i as int)) == Ok::<Seq<CaseView>, Seq<char>>(cases(all@)),
    {
        let file = shelved.value_at(i);
        assert(rows.take(i as int + 1).drop_last() =~= rows.take(i as int));
        assert(rows.take(i as int + 1).last().1 == file@);
        let at = path::join(tests, file.path.as_str());
        match read_cases(file.text.as_str()) {
            None => {
                let mut why = String::from_str("reading ");
                why.append(at.as_str());
                why.append(json::form_fault(file.text.as_str().as_bytes()).as_str());
                proof {
                    lemma_gathered_refused(tests@, rows, i as int + 1);
                }
                return Err(why);
            },
            Some(list) => {
                if let Err(why) = fit(at.as_str(), list.as_slice()) {
                    proof {
                        lemma_gathered_refused(tests@, rows, i as int + 1);
                    }
                    return Err(why);
                }
                let mut list = list;
                let ghost before = all@;
                let ghost more = list@;
                all.append(&mut list);
                assert(cases(all@) =~= cases(before) + cases(more));
            },
        }
    }
    assert(rows.take(size as int) =~= rows);
    Ok(all)
}

/// Loads the cases that stand beside a policy in `dir`, given what its folder of cases holds.
pub fn load(dir: &str, files: Option<&[PolicyFile]>) -> (r: Result<Vec<Case>, String>)
    ensures
        ({
            let held = match files {
                Some(files) => Some(proto::files(files@)),
                None => None,
            };
            match r {
                Ok(list) => loaded(dir@, held) == Ok::<Seq<CaseView>, Seq<char>>(cases(list@)),
                Err(why) => loaded(dir@, held) == Err::<Seq<CaseView>, Seq<char>>(why@),
            }
        }),
{
    let files = match files {
        Some(files) => files,
        None => {
            let mut why = String::from_str("no policy-tests/ in ");
            why.append(dir);
            why.append(" — a policy with no tests is a policy nobody can change safely");
            return Err(why);
        },
    };
    let ghost all = proto::files(files@);
    let mut shelved: Table<PolicyFile> = Table::new();
    for i in 0..files.len()
        invariant
            all == proto::files(files@),
            shelved.dict() == shelf(all.take(i as int)),
    {
        assert(all.take(i as int + 1).drop_last() =~= all.take(i as int));
        assert(all.take(i as int + 1).last() == files@[i as int]@);
        if is_case_file(files[i].path.as_str()) {
            shelved.insert(files[i].path.clone(), files[i].copied());
        }
    }
    assert(all.take(all.len() as int) =~= all);
    let tests = path::join(dir, DIR);
    let list = match gather(tests.as_str(), &shelved) {
        Ok(list) => list,
        Err(why) => return Err(why),
    };
    assert(list@.len() == cases(list@).len());
    if list.len() == 0 {
        let mut why = tests;
        why.append("/ has no cases in it");
        return Err(why);
    }
    Ok(list)
}

// ---------------------------------------------------------------------------
// running them
// ---------------------------------------------------------------------------

/// The cases whose names hold a text, in order.
pub open spec fn picked(list: Seq<CaseView>, want: Seq<char>) -> Seq<CaseView>
    decreases list.len(),
{
    if list.len() == 0 {
        Seq::empty()
    } else {
        let before = picked(list.drop_last(), want);
        if text::holds(list.last().name, want) {
            before.push(list.last())
        } else {
            before
        }
    }
}

/// Which cases are run: those whose names hold a text, or all of them.
pub open spec fn selected(list: Seq<CaseView>, only: Option<Seq<char>>) -> Seq<CaseView> {
    match only {
        Some(want) => picked(list, want),
        None => list,
    }
}

/// Picks the cases to run.
pub fn select(list: Vec<Case>, only: Option<&str>) -> (r: Result<Vec<Case>, String>)
    ensures
        ({
            let want = match only {
                Some(want) => Some(want@),
                None => None,
            };
            match r {
                Ok(some) => {
                    &&& some@.len() > 0
                    &&& cases(some@) == selected(cases(list@), want)
                },
                Err(why) => {
                    &&& selected(cases(list@), want).len() == 0
                    &&& why@ == "no case matches "@ + text::quoted_of(
                        match want {
                            Some(want) => want,
                            None => ""@,
                        },
                    )
                },
            }
        }),
{
    let ghost all = cases(list@);
    let want = match only {
        Some(want) => want,
        None => {
            if list.len() > 0 {
                return Ok(list);
            }
            let mut why = String::from_str("no case matches ");
            why.append(text::quoted("").as_str());
            return Err(why);
        },
    };
    let mut some: Vec<Case> = Vec::new();
    assert(cases(some@) =~= Seq::<CaseView>::empty());
    let mut rest = list;
    let size: usize = rest.len();
    let mut i: usize = 0;
    assert(all.skip(0) =~= all);
    assert(all.take(0) =~= Seq::<CaseView>::empty());
    while rest.len() > 0
        invariant
            i + rest@.len() == size,
            size == all.len(),
            all.skip(i as int) == cases(rest@),
            cases(some@) == picked(all.take(i as int), want@),
        decreases rest@.len(),
    {
        let ghost before = cases(rest@);
        let one = rest.remove(0);
        assert(before[0] == one@);
        assert(cases(rest@) =~= before.drop_first());
        assert(before.drop_first() =~= all.skip(i as int + 1));
        assert(all[i as int] == all.skip(i as int)[0]);
        assert(all.take(i as int + 1).drop_last() =~= all.take(i as int));
        assert(all.take(i as int + 1).last() == one@);
        if text::contains(one.name.as_str(), want) {
            let ghost had = some@;
            some.push(one);
            assert(cases(some@) =~= cases(had).push(one@));
        }
        i = i + 1;
    }
    assert(all.take(i as int) =~= all);
    assert(some@.len() == cases(some@).len());
    if some.len() == 0 {
        let mut why = String::from_str("no case matches ");
        why.append(text::quoted(want).as_str());
        return Err(why);
    }
    Ok(some)
}

/// What is told of the fleet in a case.
pub open spec fn brief_of(f: FleetCaseView) -> BriefView {
    BriefView { fleet: f.capable, capable: f.capable, free: f.free, rates: f.rates }
}

pub open spec fn money_of(money: Option<MoneyCase>) -> Option<Money> {
    match money {
        Some(m) => Some(
            Money {
                budget: m.budget,
                spent: m.spent,
                committed: m.committed,
                window_secs: m.window,
            },
        ),
        None => None,
    }
}

pub open spec fn lower(a: u32, b: u32) -> u32 {
    if a <= b {
        a
    } else {
        b
    }
}

/// The limits on an answer to a case.
pub open spec fn limit_of(grants: GrantsView, case: CaseView) -> Limit {
    Limit {
        ceiling: lower(grants.ceiling(), case.ceiling),
        free: case.fleet.free,
        host: case.ceiling,
        affordable: match money_of(case.money) {
            Some(m) => Some(m.room().affords(case.fleet.rates, grants.reservation_seconds)),
            None => None,
        },
    }
}

/// Does this ask what a case says, of a policy?
pub open spec fn asks(asked: Asked, rulebook: Seq<char>, grants: GrantsView, case: CaseView) -> bool {
    &&& asked.advice.rulebook@ == rulebook
    &&& asked.advice.attested.tenant@ == "under-test"@
    &&& asked.advice.attested.caller@ == case.caller
    &&& asked.advice.attested.facts.dict() == case.facts
    &&& asked.advice.declared.said.dict() == case.said
    &&& asked.advice.declared.count == case.asked
    &&& text::texts(asked.advice.declared.capabilities@) == case.need
    &&& asked.advice.standing == grants.standing_limit
    &&& asked.advice.ceiling == lower(grants.ceiling(), case.ceiling)
    &&& asked.advice.lifetime == grants.reservation_seconds
    &&& asked.advice.fleet@ == brief_of(case.fleet)
    &&& asked.advice.money == money_of(case.money)
    &&& asked.limit == limit_of(grants, case)
}

/// What to ask for a case, and the limits on the answer: the same two things that a
/// controller gathers for a real plea.
pub fn ask(rulebook: &Rulebook, policy: &Policy, case: &Case) -> (r: Asked)
    ensures
        asks(r, rulebook@, policy.granted(), case@),
{
    let lifetime = policy.reservation_secs();
    let (standing, own) = policy.bounds();
    let ceiling = if own <= case.ceiling {
        own
    } else {
        case.ceiling
    };
    let mut rates: Vec<u32> = Vec::new();
    for i in 0..case.fleet.rates.len()
        invariant
            rates@ == case.fleet.rates@.take(i as int),
    {
        rates.push(case.fleet.rates[i]);
        assert(rates@ =~= case.fleet.rates@.take(i as int + 1));
    }
    assert(rates@ =~= case.fleet.rates@);
    let brief = Brief {
        fleet: case.fleet.capable,
        capable: case.fleet.capable,
        free: case.fleet.free,
        rates,
    };
    let (money, affordable) = match case.money {
        Some(m) => {
            let room = Room { budget: m.budget, spent: m.spent, committed: m.committed };
            let most = room.affordable(brief.rates.as_slice(), lifetime);
            (
                Some(
                    Money {
                        budget: m.budget,
                        spent: m.spent,
                        committed: m.committed,
                        window_secs: m.window,
                    },
                ),
                Some(most),
            )
        },
        None => (None, None),
    };
    let limit = Limit { ceiling, free: brief.free, host: case.ceiling, affordable };
    let advice = Advice {
        rulebook: rulebook.as_str().to_owned(),
        attested: Attested {
            tenant: "under-test".to_owned(),
            caller: case.caller.clone(),
            facts: case.facts.copied(),
        },
        declared: Declared {
            said: case.said.copied(),
            count: case.asked,
            capabilities: text::copied(case.need.as_slice()),
        },
        standing,
        ceiling,
        lifetime,
        fleet: brief,
        money,
    };
    Asked { advice, limit }
}

/// Why a run of a case failed, where it did. The rationale is quoted always: without it an
/// author knows the number was wrong and nothing about which sentence produced it.
pub open spec fn failure(case: CaseView, w: WeighedView, attempt: u32, repeat: u32) -> Option<
    Seq<char>,
> {
    match case.expect.mismatch(w.allowed, case.asked, w.denied is Some) {
        None => None,
        Some(mismatch) => Some(
            mismatch + (if repeat > 1 {
                " (run "@ + text::decimal_of(attempt as nat) + " of "@ + text::decimal_of(
                    repeat as nat,
                ) + ")"@
            } else {
                ""@
            }) + "\n          it said: "@ + w.rationale,
        ),
    }
}

/// Holds one run of a case against what it expects.
pub fn judge(case: &Case, w: &Weighed, attempt: u32, repeat: u32) -> (r: Result<(), String>)
    ensures
        match r {
            Ok(_) => failure(case@, w@, attempt, repeat) is None,
            Err(why) => failure(case@, w@, attempt, repeat) == Some(why@),
        },
{
    match case.expect.check(w.allowed, case.asked, w.denied.is_some()) {
        None => Ok(()),
        Some(mismatch) => {
            let mut why = mismatch;
            if repeat > 1 {
                let mut run = String::from_str(" (run ");
                run.append(text::decimal(attempt as u64).as_str());
                run.append(" of ");
                run.append(text::decimal(repeat as u64).as_str());
                run.append(")");
                why.append(run.as_str());
            }
            proof {
                reveal_strlit("");
            }
            why.append("\n          it said: ");
            why.append(w.rationale.as_str());
            Err(why)
        },
    }
}

/// Which attempt at a case comes after `attempt`.
pub open spec fn attempt_after(attempt: u32, repeat: u32) -> Option<u32> {
    if attempt < (if repeat < 1 { 1u32 } else { repeat }) {
        Some((attempt + 1) as u32)
    } else {
        None
    }
}

/// Which attempt at a case comes after `attempt`, of which there were none at first: every
/// case is asked `repeat` times, and once at least.
pub fn next_attempt(attempt: u32, repeat: u32) -> (r: Option<u32>)
    ensures
        r == attempt_after(attempt, repeat),
{
    let times: u32 = if repeat < 1 { 1 } else { repeat };
    if attempt < times {
        Some(attempt + 1)
    } else {
        None
    }
}

/// What is said before the cases are run.
pub open spec fn heading(count: nat, dir: Seq<char>, repeat: u32) -> Seq<char> {
    text::decimal_of(count) + " case(s) against "@ + dir + if repeat > 1 {
        ", "@ + text::decimal_of(repeat as nat) + " times each"@
    } else {
        ""@
    }
}

pub fn head(count: usize, dir: &str, repeat: u32) -> (r: String)
    ensures
        r@ == heading(count as nat, dir@, repeat),
{
    let mut r = text::decimal(count as u64);
    r.append(" case(s) against ");
    r.append(dir);
    if repeat > 1 {
        let mut each = String::from_str(", ");
        each.append(text::decimal(repeat as u64).as_str());
        each.append(" times each");
        r.append(each.as_str());
    }
    proof {
        reveal_strlit("");
    }
    r
}

/// What is said of one case.
pub open spec fn told(name: Seq<char>, why: Option<Seq<char>>) -> Seq<char> {
    match why {
        None => "  ok    "@ + name,
        Some(why) => "  FAIL  "@ + name + "\n          "@ + why,
    }
}

pub fn tell(name: &str, outcome: &Result<(), String>) -> (r: String)
    ensures
        r@ == told(
            name@,
            match *outcome {
                Ok(_) => None,
                Err(why) => Some(why@),
            },
        ),
{
    match outcome {
        Ok(_) => {
            let mut r = String::from_str("  ok    ");
            r.append(name);
            r
        },
        Err(why) => {
            let mut r = String::from_str("  FAIL  ");
            r.append(name);
            r.append("\n          ");
            r.append(why.as_str());
            r
        },
    }
}

/// What is said once every case was run.
pub fn close(failed: u32) -> (r: String)
    ensures
        r@ == if failed == 0 {
            "\nall good"@
        } else {
            "\n"@ + text::decimal_of(failed as nat) + " case(s) failed"@
        },
{
    if failed == 0 {
        return "\nall good".to_owned();
    }
    let mut r = String::from_str("\n");
    r.append(text::decimal(failed as u64).as_str());
    r.append(" case(s) failed");
    r
}

// ---------------------------------------------------------------------------
// laws
// ---------------------------------------------------------------------------

/// Whatever is answered to a case, what comes of it can be what a case that was accepted
/// expects: nobody is sent after a case that no answer could have met.
pub proof fn law_what_a_fit_case_expects_can_come_about(path: Seq<char>, case: CaseView)
    requires
        unfit(path, case) is None,
    ensures
        exists|got: u32, denied: bool|
            #![trigger case.expect.mismatch(got, case.asked, denied)]
            got <= most_for(case.asked) && (denied ==> got == 0) && case.expect.mismatch(
                got,
                case.asked,
                denied,
            ) is None,
{
}

/// A bound above the ask, and a lower bound above an upper one, are refused.
pub proof fn law_an_impossible_bound_is_refused(path: Seq<char>, case: CaseView)
    requires
        case.expect.at_least matches Some(least) && (least > most_for(case.asked) || (
        case.expect.at_most matches Some(most) && least > most)),
    ensures
        unfit(path, case) is Some,
{
}

/// A denial passes as one whoever caused it: where the count is cut to nothing, and where
/// somebody refused.
pub proof fn law_nothing_at_all_is_a_denial(e: ExpectView, asked: u32, refused: bool)
    requires
        e == (ExpectView { count: None, at_most: None, at_least: None, verdict: Some("deny"@) }),
    ensures
        e.mismatch(0, asked, refused) is None,
{
}

/// The money in a case limits its answer as money would: what is allowed can be paid for, at
/// the first rates of the case's fleet over every minute begun of a grant's lifetime, out of
/// what the budget has left once what is spent and what is committed are taken off it.
pub proof fn law_a_case_is_cut_to_what_its_money_buys(
    asked: Asked,
    rulebook: Seq<char>,
    grants: GrantsView,
    case: CaseView,
    opinion: OpinionView,
    money: MoneyCase,
    minutes: nat,
)
    requires
        asks(asked, rulebook, grants, case),
        case.money == Some(money),
        grants.reservation_seconds > 0,
        60 * minutes >= grants.reservation_seconds > 60 * (minutes - 1),
    ensures
        ({
            let n = controller::weighed(
                opinion,
                asked.advice.ceiling,
                asked.advice.declared.count,
                asked.limit,
            ).allowed;
            &&& n <= case.fleet.rates.len()
            &&& case.fleet.rates.take(n as int).fold_left(
                0nat,
                |sum: nat, rate: u32| sum + rate as nat,
            ) * minutes <= if money.spent + money.committed < money.budget {
                money.budget - money.spent - money.committed
            } else {
                0
            }
        }),
{
    let room = Room { budget: money.budget, spent: money.spent, committed: money.committed };
    let rates = case.fleet.rates;
    budget::law_what_is_afforded_fits_and_one_more_does_not(
        room,
        rates,
        grants.reservation_seconds,
        minutes,
    );
    let most = room.affords(rates, grants.reservation_seconds);
    assert(asked.limit.affordable == Some(most));
    let n = controller::weighed(
        opinion,
        asked.advice.ceiling,
        asked.advice.declared.count,
        asked.limit,
    ).allowed;
    assert(n <= most);
    let sum = |sum: nat, rate: u32| sum + rate as nat;
    lemma_sums_grow(rates, n as int, most as int);
    let a = rates.take(n as int).fold_left(0nat, sum);
    let b = rates.take(most as int).fold_left(0nat, sum);
    assert(a * minutes <= b * minutes) by (nonlinear_arith)
        requires
            a <= b,
    ;
}

proof fn lemma_sums_grow(rates: Seq<u32>, fewer: int, more: int)
    requires
        0 <= fewer <= more <= rates.len(),
    ensures
        rates.take(fewer).fold_left(0nat, |sum: nat, rate: u32| sum + rate as nat) <= rates.take(
            more,
        ).fold_left(0nat, |sum: nat, rate: u32| sum + rate as nat),
    decreases more - fewer,
{
    if fewer < more {
        lemma_sums_grow(rates, fewer, more - 1);
        assert(rates.take(more).drop_last() =~= rates.take(more - 1));
    }
}

/// Whatever is answered to a case, what comes of it is no more than was asked for, than the
/// policy's own maximum, than the host's cap and than the case's fleet has free; and where the
/// answer is within all of these, and the case has no money, it is what comes of it.
pub proof fn law_a_case_is_held_to_every_limit_it_states(
    asked: Asked,
    rulebook: Seq<char>,
    grants: GrantsView,
    case: CaseView,
    opinion: OpinionView,
)
    requires
        asks(asked, rulebook, grants, case),
        !opinion.denies(),
    ensures
        ({
            let n = controller::weighed(
                opinion,
                asked.advice.ceiling,
                asked.advice.declared.count,
                asked.limit,
            ).allowed;
            &&& n <= opinion.count
            &&& case.asked > 0 ==> n <= case.asked
            &&& n <= case.ceiling
            &&& n <= case.fleet.free
            &&& n <= grants.standing_limit || (grants.max_limit matches Some(most) && n <= most)
            &&& case.money is None && opinion.count <= case.asked && opinion.count <= case.ceiling
                && opinion.count <= case.fleet.free && opinion.count <= grants.standing_limit ==> n
                == opinion.count
        }),
{
}

/// A policy test decides as a controller does. On a fleet that looks as the case says, for a
/// tenancy with the policy's numbers under the host's cap and with the case's money, whatever
/// comes back is weighed to the same: the same number, for the same reason, and with the same
/// complaints.
pub proof fn law_a_policy_test_decides_as_a_controller_does(
    tested: Asked,
    live: Asked,
    grants: GrantsView,
    case: CaseView,
    f: fleet::FleetView,
    alias: Seq<char>,
    who: directory::TenancyView,
    vouched: Map<Seq<char>, Seq<char>>,
    said: Seq<(Seq<char>, Seq<char>)>,
    spent: u64,
    opinion: OpinionView,
)
    requires
        asks(tested, who.rulebook, grants, case),
        controller::asks(
            live,
            f,
            alias,
            who,
            vouched,
            Some(case.asked),
            case.need,
            said,
            spent,
        ),
        f.brief(case.need).free == case.fleet.free,
        f.brief(case.need).rates == case.fleet.rates,
        who.standing == grants.standing_limit,
        who.ceiling <= case.ceiling,
        who.ceiling <= grants.ceiling(),
        who.ceiling == case.ceiling || who.ceiling == grants.ceiling(),
        who.lifetime == grants.reservation_seconds,
        case.money is Some <==> who.budget is Some,
        case.money matches Some(m) ==> {
            &&& who.budget matches Some(b)
            &&& b.credits == m.budget
            &&& b.window == m.window
            &&& spent == m.spent
            &&& f.committed(who.tenant) == m.committed
        },
    ensures
        controller::weighed(
            opinion,
            tested.advice.ceiling,
            tested.advice.declared.count,
            tested.limit,
        ) == controller::weighed(
            opinion,
            live.advice.ceiling,
            live.advice.declared.count,
            live.limit,
        ),
        tested.advice.rulebook@ == live.advice.rulebook@,
        tested.advice.standing == live.advice.standing,
        tested.advice.ceiling == live.advice.ceiling,
        tested.advice.lifetime == live.advice.lifetime,
        tested.advice.money == live.advice.money,
        tested.advice.fleet.free == live.advice.fleet.free,
        tested.advice.fleet.rates@ == live.advice.fleet.rates@,
{
    assert(tested.limit.affordable == live.limit.affordable);
    let bounded = opinion.bounded(who.ceiling, case.asked);
    assert(tested.limit.faults(opinion.count, bounded) =~= live.limit.faults(
        opinion.count,
        bounded,
    ));
}

/// A case passes exactly where everything it says of the answer is so: the count, both bounds,
/// and what the caller experiences, which is a denial where there is nothing, a counter where
/// there is less than was asked for, and an allowance otherwise.
pub proof fn law_a_case_passes_where_all_it_says_is_so(
    case: CaseView,
    w: WeighedView,
    attempt: u32,
    repeat: u32,
)
    ensures
        failure(case, w, attempt, repeat) is None <==> {
            let e = case.expect;
            let denied = w.denied is Some || w.allowed == 0;
            let word = if denied {
                "deny"@
            } else if w.allowed < case.asked {
                "counter"@
            } else {
                "allow"@
            };
            &&& e.count matches Some(n) ==> w.allowed == n
            &&& e.at_most matches Some(n) ==> w.allowed <= n
            &&& e.at_least matches Some(n) ==> w.allowed >= n
            &&& e.verdict matches Some(v) ==> text::folded(v) == text::folded(word)
        },
{
}

/// A failure quotes what was said: without it an author knows only that the number was wrong.
pub proof fn law_a_failure_quotes_the_rationale(
    case: CaseView,
    w: WeighedView,
    attempt: u32,
    repeat: u32,
)
    ensures
        failure(case, w, attempt, repeat) matches Some(why) ==> text::ends(why, w.rationale),
{
    if let Some(why) = failure(case, w, attempt, repeat) {
        assert(why.skip(why.len() - w.rationale.len()) =~= w.rationale);
    }
}

/// A case that says nothing of the answer is refused, and so is one that no answer can meet;
/// any other is run.
pub proof fn law_only_a_case_that_can_fail_and_pass_is_run(path: Seq<char>, case: CaseView)
    ensures
        case.expect.count is None && case.expect.at_most is None && case.expect.at_least is None
            && case.expect.verdict is None ==> unfit(path, case) is Some,
        case.expect == (ExpectView {
            count: case.expect.count,
            at_most: None,
            at_least: None,
            verdict: None,
        }) && case.expect.count is Some && (case.expect.count->0 <= case.asked) ==> unfit(
            path,
            case,
        ) is None,
        case.expect.at_most is Some && case.expect.count is None && case.expect.at_least is None
            && case.expect.verdict is None ==> unfit(path, case) is None,
        case.expect.count matches Some(n) && n > case.asked && case.asked > 0 ==> unfit(
            path,
            case,
        ) is Some,
{
    let e = case.expect;
    if e.at_most is None && e.at_least is None && e.verdict is None && e.count is Some {
        assert(e.mismatch(e.count->0, case.asked, false) is None);
    }
    if e.count is None && e.at_least is None && e.verdict is None {
        assert(e.mismatch(0, case.asked, false) is None);
    }
}

/// Every case whose name holds what was asked for is run, in order, and no other; where nothing
/// was asked for, all of them are.
pub proof fn law_what_is_asked_for_is_run(list: Seq<CaseView>, case: CaseView, want: Seq<char>)
    ensures
        selected(list, None) == list,
        selected(Seq::empty(), Some(want)).len() == 0,
        selected(list.push(case), Some(want)) == if (exists|k: int|
            0 <= k && k + want.len() <= case.name.len() && #[trigger] case.name.subrange(
                k,
                k + want.len(),
            ) == want) {
            selected(list, Some(want)).push(case)
        } else {
            selected(list, Some(want))
        },
{
    assert(list.push(case).drop_last() =~= list);
    text::lemma_find_from(case.name, want, 0);
    if let Some(i) = text::find_from(case.name, want, 0) {
        assert(case.name.subrange(i, i + want.len()) == want);
    }
}

/// The cases of every file are run, one file's behind another's, unless one of them is not
/// fit to be: then none are.
pub proof fn law_no_case_is_left_out(
    tests: Seq<char>,
    rows: Seq<(Seq<char>, FileView)>,
    row: (Seq<char>, FileView),
)
    ensures
        ({
            let more = cases_of(row.1.text);
            match gathered(tests, rows.push(row)) {
                Ok(all) => {
                    &&& gathered(tests, rows) is Ok
                    &&& more is Some
                    &&& all == gathered(tests, rows)->Ok_0 + more->0
                },
                Err(_) => gathered(tests, rows) is Err || more is None || first_unfit(
                    path::join_of(tests, row.1.path),
                    more->0,
                ) is Some,
            }
        }),
{
    assert(rows.push(row).drop_last() =~= rows);
}

/// One case that is not fit is enough to refuse its file, wherever it stands.
pub proof fn law_one_unfit_case_refuses_its_file(path: Seq<char>, list: Seq<CaseView>, i: int)
    requires
        0 <= i < list.len(),
        unfit(path, list[i]) is Some,
    ensures
        first_unfit(path, list) is Some,
    decreases list.len(),
{
    if i < list.len() - 1 {
        law_one_unfit_case_refuses_its_file(path, list.drop_last(), i);
    }
}

/// A file holds cases where its name ends in `.json` and something stands before that.
pub proof fn law_cases_stand_in_json_files(stem: Seq<char>)
    requires
        stem.len() > 0,
    ensures
        holds_cases(stem + ".json"@),
        !holds_cases(stem + ".md"@),
        !holds_cases(".json"@),
{
    reveal_strlit(".json");
    reveal_strlit(".md");
    reveal_strlit("json");
    let a = stem + ".json"@;
    text::lemma_last_place_is(a, '.', stem.len() as int);
    assert(a.skip(stem.len() as int + 1) =~= "json"@);
    let b = stem + ".md"@;
    text::lemma_last_place_is(b, '.', stem.len() as int);
    assert(b.skip(stem.len() as int + 1).len() == 2);
    text::lemma_last_place_is(".json"@, '.', 0);
}

/// A case is asked as it is written: by whom, for what, with what they say and what is proven of
/// them, and on the fleet and with the money that it describes.
pub proof fn law_a_case_is_asked_as_it_is_written(
    asked: Asked,
    rulebook: Seq<char>,
    grants: GrantsView,
    case: CaseView,
)
    requires
        asks(asked, rulebook, grants, case),
    ensures
        asked.advice.rulebook@ == rulebook,
        asked.advice.attested.tenant@ == "under-test"@,
        asked.advice.attested.caller@ == case.caller,
        asked.advice.attested.facts.dict() == case.facts,
        asked.advice.declared.said.dict() == case.said,
        asked.advice.declared.count == case.asked,
        text::texts(asked.advice.declared.capabilities@) == case.need,
        asked.advice.fleet.capable == case.fleet.capable,
        asked.advice.fleet.free == case.fleet.free,
        asked.advice.fleet.rates@ == case.fleet.rates,
        asked.advice.standing == grants.standing_limit,
        asked.advice.lifetime == grants.reservation_seconds,
        asked.advice.ceiling <= case.ceiling,
        asked.advice.ceiling <= grants.ceiling(),
        asked.advice.ceiling == case.ceiling || asked.advice.ceiling == grants.ceiling(),
        asked.limit.ceiling == asked.advice.ceiling,
        case.money is None <==> asked.advice.money is None,
        case.money matches Some(m) ==> (asked.advice.money matches Some(n) && n.budget == m.budget
            && n.spent == m.spent && n.committed == m.committed && n.window_secs == m.window),
{
}

/// A case is asked as often as is said, and once at least: the attempts go up by one until
/// there were so many.
pub proof fn law_a_case_is_asked_as_often_as_is_said(attempt: u32, repeat: u32)
    ensures
        attempt_after(0, repeat) == Some(1u32),
        0 < attempt < repeat ==> attempt_after(attempt, repeat) == Some((attempt + 1) as u32),
        attempt > 0 && attempt >= repeat ==> attempt_after(attempt, repeat) is None,
{
}

/// What a case leaves unsaid is filled in: somebody asks for one machine, of a quiet fleet of
/// thirty-two at one credit each, without a cap and without money that is counted.
pub proof fn law_a_case_says_only_what_it_is_about(
    fields: Seq<(Seq<char>, Seq<char>)>,
    case: CaseView,
)
    requires
        case_in(fields) == Some(case),
    ensures
        json::text_member(fields, "name"@) == Ok::<Option<Seq<char>>, ()>(Some(case.name)),
        json::member(fields, "caller"@) is None ==> case.caller == "somebody"@,
        json::member(fields, "asked"@) is None ==> case.asked == 1,
        json::member(fields, "need"@) is None ==> case.need.len() == 0,
        json::member(fields, "said"@) is None ==> case.said == Map::<Seq<char>, Seq<char>>::empty(),
        json::member(fields, "facts"@) is None ==> case.facts == Map::<
            Seq<char>,
            Seq<char>,
        >::empty(),
        json::member(fields, "fleet"@) is None ==> {
            &&& case.fleet.capable == 32
            &&& case.fleet.free == 32
            &&& case.fleet.rates.len() == 32
            &&& forall|i: int| 0 <= i < 32 ==> #[trigger] case.fleet.rates[i] == 1
        },
        json::member(fields, "money"@) is None ==> case.money is None,
        json::member(fields, "ceiling"@) is None ==> case.ceiling == u32::MAX,
{
}

/// What a case says is taken as it says it.
pub proof fn law_what_a_case_says_is_taken(
    fields: Seq<(Seq<char>, Seq<char>)>,
    case: CaseView,
    caller: Seq<char>,
    n: u64,
    items: Seq<Seq<char>>,
    inner: Seq<(Seq<char>, Seq<char>)>,
    value: Seq<char>,
)
    requires
        case_in(fields) == Some(case),
    ensures
        json::text_member(fields, "caller"@) == Ok::<Option<Seq<char>>, ()>(Some(caller))
            ==> case.caller == caller,
        json::number_member(fields, "asked"@, u32::MAX as u64) == Ok::<Option<u64>, ()>(Some(n))
            ==> case.asked == n,
        json::number_member(fields, "ceiling"@, u32::MAX as u64) == Ok::<Option<u64>, ()>(Some(n))
            ==> case.ceiling == n,
        json::member(fields, "need"@) == Some(value) && json::json_of(value) == Ok::<
            JsonView,
            Seq<char>,
        >(JsonView::List(items)) ==> Some(case.need) == json::texts_in(items),
        json::member(fields, "said"@) == Some(value) && json::json_of(value) == Ok::<
            JsonView,
            Seq<char>,
        >(JsonView::Object(inner)) ==> Some(case.said) == json::table_in(inner),
        json::member(fields, "facts"@) == Some(value) && json::json_of(value) == Ok::<
            JsonView,
            Seq<char>,
        >(JsonView::Object(inner)) ==> Some(case.facts) == json::table_in(inner),
        json::member(fields, "fleet"@) == Some(value) && json::fields_of(
            value,
            seq!["capable"@, "free"@, "rates"@],
        ) == Some(inner) ==> Some(case.fleet) == fleet_in(inner),
        json::member(fields, "money"@) == Some(value) && !(json::json_of(value) matches Ok(
            JsonView::Null,
        )) && json::fields_of(value, seq!["budget"@, "spent"@, "committed"@, "window"@]) == Some(
            inner,
        ) ==> case.money == money_in(inner) && case.money is Some,
        json::member(fields, "expect"@) == Some(value) && json::fields_of(
            value,
            seq!["count"@, "at_most"@, "at_least"@, "verdict"@],
        ) == Some(inner) ==> Some(case.expect) == expect_in(inner),
{
    lemma_number_fits(fields, "asked"@, n);
    lemma_number_fits(fields, "ceiling"@, n);
}

proof fn lemma_number_fits(fields: Seq<(Seq<char>, Seq<char>)>, name: Seq<char>, n: u64)
    ensures
        json::number_member(fields, name, u32::MAX as u64) == Ok::<Option<u64>, ()>(Some(n)) ==> n
            <= u32::MAX,
{
}

/// The parts of a case are what stands under their names: a budget with what was spent and
/// committed of it, nothing and a day where that is left out, and each bound that is claimed.
pub proof fn law_the_parts_of_a_case_are_named(
    fields: Seq<(Seq<char>, Seq<char>)>,
    money: MoneyCase,
    expect: ExpectView,
    fleet: FleetCaseView,
)
    ensures
        money_in(fields) == Some(money) ==> {
            &&& json::number_member(fields, "budget"@, u64::MAX) == Ok::<Option<u64>, ()>(
                Some(money.budget),
            )
            &&& match json::number_member(fields, "spent"@, u64::MAX) {
                Ok(Some(n)) => money.spent == n,
                _ => money.spent == 0,
            }
            &&& match json::number_member(fields, "committed"@, u64::MAX) {
                Ok(Some(n)) => money.committed == n,
                _ => money.committed == 0,
            }
            &&& match json::number_member(fields, "window"@, u64::MAX) {
                Ok(Some(n)) => money.window == n,
                _ => money.window == 86_400,
            }
        },
        expect_in(fields) == Some(expect) ==> {
            &&& match json::optional_number(fields, "count"@) {
                Ok(Some(n)) => expect.count matches Some(c) && c == n,
                _ => expect.count is None,
            }
            &&& match json::optional_number(fields, "at_most"@) {
                Ok(Some(n)) => expect.at_most matches Some(c) && c == n,
                _ => expect.at_most is None,
            }
            &&& match json::optional_number(fields, "at_least"@) {
                Ok(Some(n)) => expect.at_least matches Some(c) && c == n,
                _ => expect.at_least is None,
            }
            &&& json::optional_text(fields, "verdict"@) == Ok::<Option<Seq<char>>, ()>(
                expect.verdict,
            )
        },
        fleet_in(fields) == Some(fleet) ==> {
            &&& json::number_member(fields, "capable"@, u32::MAX as u64) matches Ok(Some(n))
            &&& fleet.capable == n
            &&& json::number_member(fields, "free"@, u32::MAX as u64) matches Ok(Some(m))
            &&& fleet.free == m
        },
{
}

/// The files that hold cases are all read, and no others.
pub proof fn law_every_case_file_is_read(files: Seq<FileView>, file: FileView)
    ensures
        shelf(Seq::empty()) == Map::<Seq<char>, FileView>::empty(),
        holds_cases(file.path) ==> shelf(files.push(file)) == shelf(files).insert(file.path, file),
        !holds_cases(file.path) ==> shelf(files.push(file)) == shelf(files),
{
    assert(files.push(file).drop_last() =~= files);
}

/// A policy without cases is refused, and so is one whose folder of them is empty; otherwise
/// every case is there.
pub proof fn law_a_policy_without_cases_is_refused(
    dir: Seq<char>,
    files: Seq<FileView>,
    list: Seq<CaseView>,
)
    ensures
        loaded(dir, None) is Err,
        gathered(
            path::join_of(dir, "policy-tests"@),
            table::row_of(shelf(files)),
        ) == Ok::<Seq<CaseView>, Seq<char>>(list) ==> (if list.len() == 0 {
            loaded(dir, Some(files)) is Err
        } else {
            loaded(dir, Some(files)) == Ok::<Seq<CaseView>, Seq<char>>(list)
        }),
{
}

/// A file holds every case of its list, in order, or none where one of them is none; a file that
/// is no list is one case.
pub proof fn law_a_file_holds_every_case_of_its_list(
    items: Seq<Seq<char>>,
    item: Seq<char>,
    s: Seq<char>,
)
    ensures
        cases_in(Seq::empty()) == Some(Seq::<CaseView>::empty()),
        (cases_in(items), case_of(item)) matches (Some(before), Some(case)) ==> cases_in(
            items.push(item),
        ) == Some(before.push(case)),
        case_of(item) is None ==> cases_in(items.push(item)) is None,
        s.len() > 0 && s[0] == '[' && json::list_of(s) == Some(items) ==> cases_of(s) == cases_in(
            items,
        ),
        s.len() > 0 && s[0] == '{' ==> (case_of(s) matches Some(case) ==> cases_of(s) == Some(
            seq![case],
        )),
{
    reveal_strlit("[");
    assert(items.push(item).drop_last() =~= items);
    if s.len() > 0 && (s[0] == '[' || s[0] == '{') {
        assert(!text::is_space(s[0]));
        assert(text::trim_start_of(s) == s);
        assert(s.take(1)[0] == s[0]);
        if s[0] == '[' {
            assert(s.take(1) =~= "["@);
        }
    }
}

/// What is said of a case is its name and how it went, and of a run how many cases there are.
pub proof fn law_every_case_is_told_by_name(
    name: Seq<char>,
    why: Seq<char>,
    count: nat,
    dir: Seq<char>,
    repeat: u32,
)
    ensures
        told(name, None) == "  ok    "@ + name,
        told(name, Some(why)) == "  FAIL  "@ + name + "\n          "@ + why,
        repeat <= 1 ==> heading(count, dir, repeat) == text::decimal_of(count)
            + " case(s) against "@ + dir,
        repeat > 1 ==> heading(count, dir, repeat) == text::decimal_of(count)
            + " case(s) against "@ + dir + (", "@ + text::decimal_of(repeat as nat)
            + " times each"@),
{
    reveal_strlit("");
    let line = text::decimal_of(count) + " case(s) against "@ + dir;
    assert(line + ""@ =~= line);
}

/// A failure says what was expected and what came instead, and which run it was where there were
/// several.
pub proof fn law_a_failure_says_what_was_expected(
    case: CaseView,
    w: WeighedView,
    attempt: u32,
    repeat: u32,
    n: u32,
)
    requires
        case.expect == (ExpectView {
            count: Some(n),
            at_most: None,
            at_least: None,
            verdict: None,
        }),
        w.allowed != n,
    ensures
        repeat <= 1 ==> failure(case, w, attempt, repeat) == Some(
            "expected "@ + text::decimal_of(n as nat) + ", got "@ + text::decimal_of(
                w.allowed as nat,
            ) + "\n          it said: "@ + w.rationale,
        ),
        repeat > 1 ==> failure(case, w, attempt, repeat) == Some(
            "expected "@ + text::decimal_of(n as nat) + ", got "@ + text::decimal_of(
                w.allowed as nat,
            ) + (" (run "@ + text::decimal_of(attempt as nat) + " of "@ + text::decimal_of(
                repeat as nat,
            ) + ")"@) + "\n          it said: "@ + w.rationale,
        ),
{
    reveal_strlit("");
    let told = "expected "@ + text::decimal_of(n as nat) + ", got "@ + text::decimal_of(
        w.allowed as nat,
    );
    assert(told + ""@ =~= told);
}

/// A case is written under the names of its ten parts, or as a list of them in this order.
pub proof fn law_a_case_is_written_in_its_parts(
    s: Seq<char>,
    fields: Seq<(Seq<char>, Seq<char>)>,
)
    requires
        json::fields_of(
            s,
            seq![
                "name"@,
                "caller"@,
                "asked"@,
                "need"@,
                "said"@,
                "facts"@,
                "fleet"@,
                "money"@,
                "ceiling"@,
                "expect"@,
            ],
        ) == Some(fields),
    ensures
        case_of(s) == case_in(fields),
{
}

} // verus!
