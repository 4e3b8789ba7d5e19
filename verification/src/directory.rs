//! The seam: what a controller knows about the people asking it for machines.
//!
//! A deployment with groups, user ids and feature flags answers from its own directory; one
//! without answers from folders, which is what stands here. What varies is what a controller
//! knows, never how machines are asked for or handed over.

use vstd::prelude::*;
use vstd::string::*;

use crate::budget;
use crate::fleet;
use crate::path;
use crate::table;
use crate::table::Table;
use crate::tenant;
use crate::tenant::{Found, TenantView, Tenants};
use crate::text;

verus! {

/// What may be spent, and the rolling seconds it is counted over.
#[derive(Debug, Clone, Copy, PartialEq, Eq, Structural)]
pub struct Budget {
    pub credits: u64,
    pub window: u64,
}

pub open spec fn budget_of(pair: Option<(u64, u64)>) -> Option<Budget> {
    match pair {
        Some((credits, window)) => Some(Budget { credits, window }),
        None => None,
    }
}

fn as_budget(pair: Option<(u64, u64)>) -> (r: Option<Budget>)
    ensures
        r == budget_of(pair),
{
    match pair {
        Some((credits, window)) => Some(Budget { credits, window }),
        None => None,
    }
}

/// Everything a controller needs to decide one caller's plea, assembled per request.
#[derive(Debug)]
pub struct Tenancy {
    /// Who pays, and whose rules apply. Not the caller: several callers share a tenant.
    pub tenant: String,
    /// May this caller ask for machines at all?
    pub may_ask: bool,
    /// May this caller change the rules? Never answered from the rules.
    pub may_write: bool,
    /// What this deployment will attest about them. Carried, never interpreted.
    pub facts: Table<String>,
    /// Everything they have written down, as text.
    pub rulebook: String,
    /// What this organisation calls an ordinary request.
    pub standing: u32,
    /// The most any answer may be, after every cap that applies.
    pub ceiling: u32,
    /// How long a grant survives unreleased, in seconds.
    pub lifetime: u64,
    /// What they may spend, if anything is metered.
    pub budget: Option<Budget>,
}

#[verifier::ext_equal]
pub struct TenancyView {
    pub tenant: Seq<char>,
    pub may_ask: bool,
    pub may_write: bool,
    pub facts: Seq<(Seq<char>, Seq<char>)>,
    pub rulebook: Seq<char>,
    pub standing: u32,
    pub ceiling: u32,
    pub lifetime: u64,
    pub budget: Option<Budget>,
}

impl View for Tenancy {
    type V = TenancyView;

    open spec fn view(&self) -> TenancyView {
        TenancyView {
            tenant: self.tenant@,
            may_ask: self.may_ask,
            may_write: self.may_write,
            facts: self.facts@,
            rulebook: self.rulebook@,
            standing: self.standing,
            ceiling: self.ceiling,
            lifetime: self.lifetime,
            budget: self.budget,
        }
    }
}

/// What a tenant's folder says of one of its callers. The ceiling is the tightest that
/// applies: springing the host's cap after the fact would have somebody argue for a number
/// that was never to be had.
pub open spec fn tenancy_of(t: TenantView, caller: Seq<char>) -> TenancyView {
    TenancyView {
        tenant: t.alias,
        may_ask: t.grants.may_ask(caller),
        may_write: t.may_write(caller),
        facts: t.terms.facts,
        rulebook: t.rulebook,
        standing: t.grants.standing_limit,
        ceiling: if t.grants.ceiling() <= t.terms.ceiling {
            t.grants.ceiling()
        } else {
            t.terms.ceiling
        },
        lifetime: t.grants.reservation_seconds,
        budget: budget_of(t.budget()),
    }
}

/// What a decision was about, for whoever reviews it.
pub struct Weighing<'a> {
    /// The caller, as their credential proved them.
    pub caller: &'a str,
    /// Everything this deployment said about them.
    pub tenancy: &'a Tenancy,
    /// How many machines they asked for.
    pub asked: u32,
    /// The keys they sent.
    pub said: &'a Table<String>,
}

/// One tenant as an operator sees it.
#[derive(Debug, Clone)]
pub struct Listed {
    pub tenant: String,
    pub budget: Option<Budget>,
    /// Why this tenant's own configuration would not read, where the copy in force is not the
    /// one on disk.
    pub unread: Option<String>,
}

#[verifier::ext_equal]
pub struct ListedView {
    pub tenant: Seq<char>,
    pub budget: Option<Budget>,
    pub unread: Option<Seq<char>>,
}

impl View for Listed {
    type V = ListedView;

    open spec fn view(&self) -> ListedView {
        ListedView {
            tenant: self.tenant@,
            budget: self.budget,
            unread: fleet::held_text(self.unread),
        }
    }
}

pub open spec fn listed(list: Seq<Listed>) -> Seq<ListedView> {
    list.map_values(|l: Listed| l@)
}

/// What an operator is shown: every tenant there is, and every tenant whose files do not read.
pub open spec fn roster_of(
    loaded: Map<Seq<char>, TenantView>,
    unread: Map<Seq<char>, Seq<char>>,
) -> Map<Seq<char>, ListedView> {
    Map::new(
        |name: Seq<char>| loaded.dom().contains(name) || unread.dom().contains(name),
        |name: Seq<char>|
            ListedView {
                tenant: name,
                budget: if loaded.dom().contains(name) {
                    budget_of(loaded[name].budget())
                } else {
                    None
                },
                unread: if unread.dom().contains(name) {
                    Some(unread[name])
                } else {
                    None
                },
            },
    )
}

/// Tenants as directories under one root.
pub struct Folders {
    pub tenants: Tenants,
    pub root: String,
}

impl Folders {
    /// The tenants that were found under a root.
    pub fn load(root: &str, list: Vec<Found>) -> (r: Result<Self, String>)
        ensures
            match r {
                Ok(folders) => {
                    &&& folders.root@ == root@
                    &&& folders.tenants@.wf()
                    &&& folders.tenants@.dir == path::join_of(root@, tenant::DIR@)
                    &&& folders.tenants@.loaded == tenant::readable(tenant::found(list@))
                    &&& folders.tenants@.unread == tenant::unreadable(tenant::found(list@))
                    &&& tenant::index_of(
                        table::row_of(tenant::readable(tenant::found(list@))),
                    ) == Ok::<Map<Seq<char>, Seq<char>>, Seq<char>>(folders.tenants@.by_member)
                },
                Err(why) => tenant::index_of(
                    table::row_of(tenant::readable(tenant::found(list@))),
                ) == Err::<Map<Seq<char>, Seq<char>>, Seq<char>>(why@),
            },
    {
        match Tenants::load(root, list) {
            Ok(tenants) => Ok(Folders { tenants, root: root.to_owned() }),
            Err(why) => Err(why),
        }
    }

    /// Where a tenant's folder stands.
    pub fn dir_of(&self, tenant: &str) -> (r: String)
        ensures
            r@ == path::join_of(path::join_of(self.root@, tenant::DIR@), tenant@),
    {
        path::join(Tenants::dir_in(self.root.as_str()).as_str(), tenant)
    }

    /// How many tenants are onboarded.
    pub fn count(&self) -> (r: usize)
        ensures
            r == self.tenants@.loaded.dom().len(),
    {
        self.tenants.len()
    }

    pub fn names(&self) -> (r: Vec<String>)
        ensures
            text::texts(r@) == self.tenants.loaded@.map_values(|e: (Seq<char>, TenantView)| e.0),
    {
        self.tenants.names()
    }

    /// Who is this caller, and what do they get? Nothing where nobody has heard of them, which
    /// is a different answer from "not allowed".
    pub fn look_up(&self, caller: &str) -> (r: Option<Tenancy>)
        requires
            self.tenants@.wf(),
        ensures
            match self.tenants@.of_caller(caller@) {
                Some(t) => r matches Some(tenancy) && tenancy@ == tenancy_of(t, caller@),
                None => r is None,
            },
    {
        let t = match self.tenants.for_caller(caller) {
            Some(t) => t,
            None => return None,
        };
        let (standing, own) = t.policy.bounds();
        let host = t.ceiling();
        Some(
            Tenancy {
                tenant: t.alias.clone(),
                may_ask: t.policy.may_ask(caller),
                may_write: t.may_write(caller),
                facts: t.facts(),
                rulebook: t.rulebook.as_str().to_owned(),
                standing,
                ceiling: if own <= host {
                    own
                } else {
                    host
                },
                lifetime: t.policy.reservation_secs(),
                budget: as_budget(t.budget()),
            },
        )
    }

    /// Is this a tenant whose rules nobody may change, because it has no admins?
    pub fn without_admins(&self, tenant: &str) -> (r: bool)
        ensures
            r == (self.tenants@.loaded.dom().contains(tenant@)
                && self.tenants@.loaded[tenant@].terms.admins.len() == 0),
    {
        match self.tenants.loaded.get(tenant) {
            Some(t) => t.terms.admins.is_empty(),
            None => false,
        }
    }

    /// Credits spent in the last `window` seconds, going by a tenant's ledger.
    pub fn spent(&self, ledger: &str, window: u64) -> (r: u64)
        ensures
            exists|now: u64|
                r == fleet::at_most(
                    #[trigger] budget::spent_of(ledger@, now, window),
                    u64::MAX as nat,
                ),
    {
        let now = fleet::now();
        let r = budget::spent(ledger, now, window);
        assert(r == fleet::at_most(budget::spent_of(ledger@, now, window), u64::MAX as nat));
        r
    }

    /// Every tenant, for the operator's own view. Tenants whose files do not read at all are
    /// the ones an operator most needs to see.
    pub fn roster(&self) -> (r: Vec<Listed>)
        requires
            self.tenants@.wf(),
        ensures
            listed(r@) == table::row_of(
                roster_of(self.tenants@.loaded, self.tenants@.unread),
            ).map_values(|e: (Seq<char>, ListedView)| e.1),
    {
        let mut rows: Table<Listed> = Table::new();
        let ghost loaded = self.tenants@.loaded;
        let ghost unread = self.tenants@.unread;
        let ghost whole = roster_of(loaded, unread);
        let size: usize = self.tenants.loaded.len();
        for i in 0..size
            invariant
                size == self.tenants.loaded@.len(),
                loaded == self.tenants.loaded.dict(),
                unread == self.tenants.unread.dict(),
                whole == roster_of(loaded, unread),
                tenant::named(loaded),
                table::ascending(self.tenants.loaded@),
                rows.dict() == whole.restrict(table::keys_of(self.tenants.loaded@.take(i as int))),
        {
            let t = self.tenants.loaded.value_at(i);
            proof {
                table::lemma_entry(self.tenants.loaded@, i as int);
                table::lemma_keys_grow(self.tenants.loaded@, i as int);
            }
            let reason = match self.tenants.unread.get(t.alias.as_str()) {
                Some(why) => Some(why.clone()),
                None => None,
            };
            rows.insert(
                t.alias.clone(),
                Listed { tenant: t.alias.clone(), budget: as_budget(t.budget()), unread: reason },
            );
            assert(rows.dict() =~= whole.restrict(
                table::keys_of(self.tenants.loaded@.take(i as int + 1)),
            ));
        }
        assert(self.tenants.loaded@.take(size as int) =~= self.tenants.loaded@);
        let more: usize = self.tenants.unread.len();
        let ghost first = loaded.dom();
        assert(first =~= table::keys_of(self.tenants.loaded@));
        assert(rows.dict() =~= whole.restrict(
            first + table::keys_of(self.tenants.unread@.take(0)),
        ));
        for i in 0..more
            invariant
                more == self.tenants.unread@.len(),
                loaded == self.tenants.loaded.dict(),
                unread == self.tenants.unread.dict(),
                first == loaded.dom(),
                whole == roster_of(loaded, unread),
                table::ascending(self.tenants.unread@),
                rows.dict() == whole.restrict(
                    first + table::keys_of(self.tenants.unread@.take(i as int)),
                ),
        {
            let name = self.tenants.unread.key_at(i);
            proof {
                table::lemma_entry(self.tenants.unread@, i as int);
                table::lemma_keys_grow(self.tenants.unread@, i as int);
            }
            if !rows.contains_key(name.as_str()) {
                rows.insert(
                    name.clone(),
                    Listed {
                        tenant: name.clone(),
                        budget: None,
                        unread: Some(self.tenants.unread.value_at(i).clone()),
                    },
                );
            }
            assert(rows.dict() =~= whole.restrict(
                first + table::keys_of(self.tenants.unread@.take(i as int + 1)),
            ));
        }
        assert(self.tenants.unread@.take(more as int) =~= self.tenants.unread@);
        assert(rows.dict() =~= whole) by {
            assert(unread.dom() =~= table::keys_of(self.tenants.unread@));
        }
        let mut out: Vec<Listed> = Vec::new();
        let total: usize = rows.len();
        for i in 0..total
            invariant
                total == rows@.len(),
                out@.len() == i,
                forall|k: int| 0 <= k < i ==> (#[trigger] out@[k])@ == rows@[k].1,
        {
            let one = rows.value_at(i);
            out.push(
                Listed {
                    tenant: one.tenant.clone(),
                    budget: one.budget,
                    unread: match &one.unread {
                        Some(why) => Some(why.clone()),
                        None => None,
                    },
                },
            );
        }
        assert(listed(out@) =~= rows@.map_values(|e: (Seq<char>, ListedView)| e.1));
        out
    }

    /// A line for the startup log, so an operator can see what is answering.
    pub fn describe(&self) -> (r: String)
        ensures
            r@ == "tenants in "@ + path::join_of(self.root@, tenant::DIR@),
    {
        let mut r = String::from_str("tenants in ");
        r.append(Tenants::dir_in(self.root.as_str()).as_str());
        r
    }
}

// ---------------------------------------------------------------------------
// laws
// ---------------------------------------------------------------------------

/// A caller is never told of a ceiling above the host's, nor above the tenant's own.
pub proof fn law_the_tightest_ceiling_applies(t: TenantView, caller: Seq<char>)
    ensures
        tenancy_of(t, caller).ceiling <= t.terms.ceiling,
        tenancy_of(t, caller).ceiling <= t.grants.ceiling(),
        tenancy_of(t, caller).ceiling == t.terms.ceiling || tenancy_of(t, caller).ceiling
            == t.grants.ceiling(),
{
}

/// A tenant whose files do not read is on the roster, with the reason.
pub proof fn law_an_unreadable_tenant_is_on_the_roster(
    loaded: Map<Seq<char>, TenantView>,
    unread: Map<Seq<char>, Seq<char>>,
    name: Seq<char>,
)
    requires
        unread.dom().contains(name),
    ensures
        roster_of(loaded, unread).dom().contains(name),
        roster_of(loaded, unread)[name].unread == Some(unread[name]),
{
}

/// What a caller is told of its tenancy is its tenant's: whose money it is, whether the policy
/// lets it ask, whether the host lets it write, and every number that the policy and the host
/// set, the lower where both do.
pub proof fn law_a_caller_has_what_its_tenant_has(t: TenantView, caller: Seq<char>)
    ensures
        ({
            let who = tenancy_of(t, caller);
            &&& who.tenant == t.alias
            &&& who.may_ask == t.grants.may_ask(caller)
            &&& who.may_write <==> t.terms.admins.contains(caller)
            &&& who.facts == t.terms.facts
            &&& who.rulebook == t.rulebook
            &&& who.standing == t.grants.standing_limit
            &&& who.lifetime == t.grants.reservation_seconds
            &&& who.budget is Some <==> t.terms.credits is Some || t.grants.daily_budget is Some
            &&& who.budget matches Some(b) ==> {
                &&& t.terms.credits matches Some(host) ==> b.credits <= host
                &&& t.grants.daily_budget matches Some(own) ==> b.credits <= own
                &&& Some(b.credits) == t.terms.credits || Some(b.credits) == t.grants.daily_budget
            }
        }),
{
}

/// Every tenant that is served is on the roster, with the budget in force, and nobody is who is
/// neither served nor marked.
pub proof fn law_the_roster_is_everybody(
    loaded: Map<Seq<char>, TenantView>,
    unread: Map<Seq<char>, Seq<char>>,
    name: Seq<char>,
)
    ensures
        ({
            let all = roster_of(loaded, unread);
            &&& all.dom().contains(name) <==> loaded.dom().contains(name) || unread.dom().contains(
                name,
            )
            &&& all.dom().contains(name) ==> {
                &&& all[name].tenant == name
                &&& all[name].unread is Some <==> unread.dom().contains(name)
            }
            &&& loaded.dom().contains(name) ==> match loaded[name].budget() {
                Some((credits, window)) => all[name].budget == Some(Budget { credits, window }),
                None => all[name].budget is None,
            }
        }),
{
}

} // verus!
